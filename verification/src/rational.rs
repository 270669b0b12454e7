//! Exact rational arithmetic over `i128`.
//!
//! Every numeric constant of the expression engine is a fraction
//! `num / den` with `den >= 1`, kept in lowest terms by `reduce`.  All
//! operations use checked machine arithmetic and report `None` when a result
//! (or an intermediate product) would leave the `i128` range; the evaluator
//! surfaces that as its overflow error.  Each executable operation has a
//! specification twin (`..._s`) that pins down its result exactly.

use vstd::arithmetic::div_mod::{
    lemma_fundamental_div_mod, lemma_div_nonincreasing, lemma_mod_self_0, lemma_small_mod,
};
use vstd::math::abs;
use vstd::prelude::*;

verus! {

/// A fraction `num / den`.  Well-formed values keep `den >= 1`; the sign
/// lives in `num`.
#[derive(Clone, Copy, Debug, PartialEq, Eq, Structural)]
pub struct Rational {
    pub num: i128,
    pub den: i128,
}

pub open spec fn fits_i128(x: int) -> bool {
    i128::MIN <= x <= i128::MAX
}

/// Two fractions denote the same value (cross multiplication).
pub open spec fn rat_eq(a: Rational, b: Rational) -> bool {
    a.num * b.den == b.num * a.den
}

/// Greatest common divisor by Euclid's algorithm.
pub open spec fn gcd_nat(a: nat, b: nat) -> nat
    decreases b,
{
    if b == 0 {
        a
    } else {
        gcd_nat(b, a % b)
    }
}

/// The gcd is positive when an argument is, and divides both arguments.
pub proof fn lemma_gcd(a: nat, b: nat)
    ensures
        a > 0 || b > 0 ==> gcd_nat(a, b) >= 1,
        gcd_nat(a, b) > 0 ==> a % gcd_nat(a, b) == 0,
        gcd_nat(a, b) > 0 ==> b % gcd_nat(a, b) == 0,
    decreases b,
{
    if b == 0 {
        if a > 0 {
            lemma_mod_self_0(a as int);
            lemma_small_mod(0, a);
        }
    } else {
        lemma_gcd(b, a % b);
        let g = gcd_nat(b, a % b);
        assert(g >= 1);
        assert(b % g == 0);
        assert((a % b) % g == 0);
        lemma_fundamental_div_mod(a as int, b as int);
        lemma_fundamental_div_mod(b as int, g as int);
        lemma_fundamental_div_mod((a % b) as int, g as int);
        let q = a as int / b as int;
        let kb = b as int / g as int;
        let kr = (a % b) as int / g as int;
        assert(a as int == (g as int) * (kb * q + kr)) by (nonlinear_arith)
            requires
                a as int == (b as int) * q + (a % b) as int,
                b as int == (g as int) * kb,
                (a % b) as int == (g as int) * kr,
        ;
        let k = kb * q + kr;
        assert(k >= 0) by (nonlinear_arith)
            requires
                a as int == (g as int) * k,
                a >= 0,
                g >= 1,
        ;
        assert(a as int % g as int == 0) by (nonlinear_arith)
            requires
                a as int == (g as int) * k,
                g >= 1,
                k >= 0,
        ;
    }
}

/// A positive divisor of a positive number is no larger than it.
pub proof fn lemma_divisor_le(x: nat, g: nat)
    requires
        x >= 1,
        g >= 1,
        x % g == 0,
    ensures
        g <= x,
        x / g >= 1,
        x / g <= x,
{
    lemma_fundamental_div_mod(x as int, g as int);
    let q = x as int / g as int;
    assert(x as int == g as int * q);
    assert(q >= 1) by (nonlinear_arith)
        requires
            x as int == g as int * q,
            x >= 1,
            g >= 1,
    ;
    assert(g <= x) by (nonlinear_arith)
        requires
            x as int == g as int * q,
            q >= 1,
            g >= 1,
    ;
    lemma_div_nonincreasing(x as int, g as int);
}

/// Specification of `reduce`: normalize the sign into the numerator and
/// divide out the gcd.  `None` mirrors the machine-range rejections.
pub open spec fn reduce_s(n: int, d: int) -> Option<Rational>
    recommends
        d != 0,
        fits_i128(n),
        fits_i128(d),
{
    if n == i128::MIN as int || d == i128::MIN as int {
        None
    } else {
        let n2 = if d < 0 {
            -n
        } else {
            n
        };
        let d2 = if d < 0 {
            -d
        } else {
            d
        };
        let g = gcd_nat(abs(n2), d2 as nat) as int;
        let magn = abs(n2) as int / g;
        let magd = d2 / g;
        Some(
            Rational {
                num: (if n2 < 0 {
                    -magn
                } else {
                    magn
                }) as i128,
                den: magd as i128,
            },
        )
    }
}

/// Bring `n / d` to lowest terms with a positive denominator.
pub fn reduce(n: i128, d: i128) -> (r: Option<Rational>)
    requires
        d != 0,
    ensures
        r == reduce_s(n as int, d as int),
        r is Some ==> r->0.wf(),
{
    if n == i128::MIN || d == i128::MIN {
        return None;
    }
    let (n2, d2): (i128, i128) = if d < 0 {
        (-n, -d)
    } else {
        (n, d)
    };
    let na: u128 = if n2 < 0 {
        (-n2) as u128
    } else {
        n2 as u128
    };
    let du: u128 = d2 as u128;
    let g: u128 = gcd_u128(na, du);
    proof {
        lemma_gcd(na as nat, du as nat);
        lemma_divisor_le(du as nat, g as nat);
        if na > 0 {
            lemma_divisor_le(na as nat, g as nat);
        }
    }
    let magn: u128 = na / g;
    let magd: u128 = du / g;
    let numv: i128 = if n2 < 0 {
        -(magn as i128)
    } else {
        magn as i128
    };
    Some(Rational { num: numv, den: magd as i128 })
}

/// Euclid's algorithm on machine words.
pub fn gcd_u128(a: u128, b: u128) -> (g: u128)
    ensures
        g as nat == gcd_nat(a as nat, b as nat),
{
    let mut x: u128 = a;
    let mut y: u128 = b;
    while y != 0
        invariant
            gcd_nat(x as nat, y as nat) == gcd_nat(a as nat, b as nat),
        decreases y,
    {
        let r: u128 = x % y;
        x = y;
        y = r;
    }
    x
}

/// `reduce_s` preserves the denoted value and yields a well-formed fraction.
pub proof fn lemma_reduce_value(n: int, d: int)
    requires
        d != 0,
        fits_i128(n),
        fits_i128(d),
        reduce_s(n, d) is Some,
    ensures
        reduce_s(n, d)->0.wf(),
        reduce_s(n, d)->0.num * d == n * (reduce_s(n, d)->0.den as int),
{
    let r = reduce_s(n, d)->0;
    let n2 = if d < 0 { -n } else { n };
    let d2 = if d < 0 { -d } else { d };
    let na = abs(n2);
    let g = gcd_nat(na, d2 as nat) as int;
    lemma_gcd(na, d2 as nat);
    lemma_divisor_le(d2 as nat, g as nat);
    if na > 0 {
        lemma_divisor_le(na, g as nat);
    }
    let magn = na as int / g;
    let magd = d2 / g;
    lemma_fundamental_div_mod(na as int, g);
    lemma_fundamental_div_mod(d2, g);
    assert(na as int == g * magn);
    assert(d2 == g * magd);
    // value preservation over the sign-adjusted pair
    assert(r.num * d2 == n2 * magd) by (nonlinear_arith)
        requires
            na as int == g * magn,
            d2 == g * magd,
            r.num == if n2 < 0 { -magn } else { magn },
            na as int == abs(n2),
            na as int == if n2 < 0 { -n2 } else { n2 },
    ;
    assert(r.den == magd);
    assert(r.num * d == n * r.den) by (nonlinear_arith)
        requires
            r.num * d2 == n2 * (r.den as int),
            n2 == if d < 0 { -n } else { n },
            d2 == if d < 0 { -d } else { d },
    ;
}

impl Rational {
    /// Well-formed: positive denominator.
    pub open spec fn wf(self) -> bool {
        self.den >= 1
    }

    /// The zero value.
    pub fn zero() -> (r: Rational)
        ensures
            r == (Rational { num: 0, den: 1 }),
    {
        Rational { num: 0, den: 1 }
    }

    /// The unit value.
    pub fn one() -> (r: Rational)
        ensures
            r == (Rational { num: 1, den: 1 }),
    {
        Rational { num: 1, den: 1 }
    }

    /// Whole number.
    pub fn from_int(n: i64) -> (r: Rational)
        ensures
            r == (Rational { num: n as i128, den: 1 }),
            r.wf(),
    {
        Rational { num: n as i128, den: 1 }
    }

    /// The fraction `num / den`, in lowest terms.
    pub fn new(num: i64, den: i64) -> (r: Rational)
        requires
            den != 0,
        ensures
            Some(r) == reduce_s(num as int, den as int),
            r.wf(),
    {
        match reduce(num as i128, den as i128) {
            Some(r) => r,
            None => unreached(),
        }
    }

    /// The value is zero.
    pub fn is_zero(&self) -> (r: bool)
        ensures
            r == (self.num == 0),
    {
        self.num == 0
    }

    /// The value is one (works on any well-formed fraction).
    pub fn is_one(&self) -> (r: bool)
        ensures
            r == (self.num == self.den),
    {
        self.num == self.den
    }

    /// The value is a whole number (positive, negative or zero); meaningful
    /// on fractions in lowest terms, as every value the engine builds is.
    pub fn is_whole(&self) -> (r: bool)
        ensures
            r == self.is_whole_s(),
    {
        self.den == 1
    }

    pub open spec fn is_whole_s(self) -> bool {
        self.den == 1
    }

    /// Negation; `None` only at the very edge of the machine range.
    pub fn neg(self) -> (r: Option<Rational>)
        ensures
            r == neg_s(self),
            r is Some && self.wf() ==> r->0.wf(),
    {
        if self.num == i128::MIN {
            None
        } else {
            Some(Rational { num: -self.num, den: self.den })
        }
    }

    /// Sum.
    pub fn add(self, other: Rational) -> (r: Option<Rational>)
        requires
            self.wf(),
            other.wf(),
        ensures
            r == add_s(self, other),
            r is Some ==> r->0.wf(),
    {
        let n1 = match self.num.checked_mul(other.den) {
            Some(v) => v,
            None => {
                return None;
            },
        };
        let n2 = match other.num.checked_mul(self.den) {
            Some(v) => v,
            None => {
                return None;
            },
        };
        let n = match n1.checked_add(n2) {
            Some(v) => v,
            None => {
                return None;
            },
        };
        let d = match self.den.checked_mul(other.den) {
            Some(v) => v,
            None => {
                return None;
            },
        };
        proof {
            assert(self.den * other.den >= 1) by (nonlinear_arith)
                requires
                    self.den >= 1,
                    other.den >= 1,
            ;
        }
        reduce(n, d)
    }

    /// Difference.
    pub fn sub(self, other: Rational) -> (r: Option<Rational>)
        requires
            self.wf(),
            other.wf(),
        ensures
            r == sub_s(self, other),
            r is Some ==> r->0.wf(),
    {
        let n1 = match self.num.checked_mul(other.den) {
            Some(v) => v,
            None => {
                return None;
            },
        };
        let n2 = match other.num.checked_mul(self.den) {
            Some(v) => v,
            None => {
                return None;
            },
        };
        let n = match n1.checked_sub(n2) {
            Some(v) => v,
            None => {
                return None;
            },
        };
        let d = match self.den.checked_mul(other.den) {
            Some(v) => v,
            None => {
                return None;
            },
        };
        proof {
            assert(self.den * other.den >= 1) by (nonlinear_arith)
                requires
                    self.den >= 1,
                    other.den >= 1,
            ;
        }
        reduce(n, d)
    }

    /// Product.
    pub fn mul(self, other: Rational) -> (r: Option<Rational>)
        requires
            self.wf(),
            other.wf(),
        ensures
            r == mul_s(self, other),
            r is Some ==> r->0.wf(),
    {
        let n = match self.num.checked_mul(other.num) {
            Some(v) => v,
            None => {
                return None;
            },
        };
        let d = match self.den.checked_mul(other.den) {
            Some(v) => v,
            None => {
                return None;
            },
        };
        proof {
            assert(self.den * other.den >= 1) by (nonlinear_arith)
                requires
                    self.den >= 1,
                    other.den >= 1,
            ;
        }
        reduce(n, d)
    }

    /// Quotient; the divisor must not denote zero.
    pub fn div(self, other: Rational) -> (r: Option<Rational>)
        requires
            self.wf(),
            other.wf(),
            other.num != 0,
        ensures
            r == div_s(self, other),
            r is Some ==> r->0.wf(),
    {
        let n = match self.num.checked_mul(other.den) {
            Some(v) => v,
            None => {
                return None;
            },
        };
        let d = match self.den.checked_mul(other.num) {
            Some(v) => v,
            None => {
                return None;
            },
        };
        proof {
            assert(self.den * other.num != 0) by (nonlinear_arith)
                requires
                    self.den >= 1,
                    other.num != 0,
            ;
        }
        reduce(n, d)
    }
}

impl Rational {
    /// Whether `|self| < 1 / scale`, for a positive whole `scale`; `None`
    /// when the comparison itself leaves the machine range.
    pub fn below_tol(&self, scale: i128) -> (r: Option<bool>)
        requires
            self.wf(),
            scale >= 1,
        ensures
            r == below_tol_s(*self, scale as int),
    {
        let m: i128 = if self.num == i128::MIN {
            return None;
        } else if self.num < 0 {
            -self.num
        } else {
            self.num
        };
        match m.checked_mul(scale) {
            Some(p) => Some(p < self.den),
            None => None,
        }
    }

    /// Raise to a non-negative machine-word power by squaring.
    pub fn pow_u(self, e: u64) -> (r: Option<Rational>)
        requires
            self.wf(),
        ensures
            r == pow_u_s(self, e as nat),
            r is Some ==> r->0.wf(),
        decreases e,
    {
        if e == 0 {
            Some(Rational { num: 1, den: 1 })
        } else if e % 2 == 0 {
            match self.mul(self) {
                Some(sq) => sq.pow_u(e / 2),
                None => None,
            }
        } else {
            match self.pow_u(e - 1) {
                Some(p) => self.mul(p),
                None => None,
            }
        }
    }

    /// Raise to a whole (possibly negative) power.  The caller rules out a
    /// zero base with a negative exponent.
    pub fn pow_whole(self, e: i128) -> (r: Option<Rational>)
        requires
            self.wf(),
            e < 0 ==> self.num != 0,
        ensures
            r == pow_whole_s(self, e as int),
            r is Some ==> r->0.wf(),
    {
        if e >= 0 {
            if e > u64::MAX as i128 {
                None
            } else {
                self.pow_u(e as u64)
            }
        } else {
            let inv = match reduce(self.den, self.num) {
                Some(v) => v,
                None => {
                    return None;
                },
            };
            if e == i128::MIN {
                None
            } else {
                let m = -e;
                if m > u64::MAX as i128 {
                    None
                } else {
                    inv.pow_u(m as u64)
                }
            }
        }
    }
}

pub open spec fn below_tol_s(h: Rational, scale: int) -> Option<bool> {
    let m = abs(h.num as int) as int;
    if !fits_i128(m) || !fits_i128(m * scale) {
        None
    } else {
        Some(m * scale < h.den)
    }
}

pub open spec fn pow_u_s(b: Rational, e: nat) -> Option<Rational>
    decreases e,
{
    if e == 0 {
        Some(Rational { num: 1, den: 1 })
    } else if e % 2 == 0 {
        match mul_s(b, b) {
            Some(sq) => pow_u_s(sq, e / 2),
            None => None,
        }
    } else {
        match pow_u_s(b, (e - 1) as nat) {
            Some(p) => mul_s(b, p),
            None => None,
        }
    }
}

pub open spec fn pow_whole_s(b: Rational, e: int) -> Option<Rational> {
    if e >= 0 {
        if e > u64::MAX {
            None
        } else {
            pow_u_s(b, e as nat)
        }
    } else {
        match reduce_s(b.den as int, b.num as int) {
            Some(inv) => {
                if e == i128::MIN {
                    None
                } else if -e > u64::MAX {
                    None
                } else {
                    pow_u_s(inv, (-e) as nat)
                }
            },
            None => None,
        }
    }
}

/// The fraction one over one is already in lowest terms.
pub proof fn lemma_reduce_one()
    ensures
        reduce_s(1, 1) == Some(Rational { num: 1, den: 1 }),
{
    let one = Rational { num: 1i128, den: 1i128 };
    assert(gcd_nat(1, 0) == 1);
    assert(gcd_nat(1, 1) == 1);
    assert(abs(1) == 1nat);
    assert(1int / 1int == 1int);
    assert(1int != i128::MIN as int);
    let g = gcd_nat(abs(1), 1nat) as int;
    assert(g == 1);
    let magn = abs(1) as int / g;
    assert(magn == 1);
    assert((1int) as i128 == 1i128);
    assert(reduce_s(1, 1) == Some(
        Rational { num: magn as i128, den: (1int / g) as i128 },
    ));
    assert(reduce_s(1, 1) == Some(one));
}

/// One times one is one, on the machine representation.
pub proof fn lemma_one_times_one()
    ensures
        mul_s(Rational { num: 1, den: 1 }, Rational { num: 1, den: 1 }) == Some(
            Rational { num: 1, den: 1 },
        ),
{
    lemma_reduce_one();
    let one = Rational { num: 1i128, den: 1i128 };
    assert(one.num * one.num == 1int);
    assert(one.den * one.den == 1int);
    assert(fits_i128(1int));
    assert(mul_s(one, one) == reduce_s(1, 1));
    assert(mul_s(one, one) == Some(one));
}

/// A product's reduced result denotes exactly the product of the values.
pub proof fn lemma_mul_value(a: Rational, b: Rational)
    requires
        a.wf(),
        b.wf(),
        mul_s(a, b) is Some,
    ensures
        mul_s(a, b)->0.wf(),
        mul_s(a, b)->0.num * (a.den * b.den) == (a.num * b.num) * (mul_s(a, b)->0.den as int),
{
    let n = a.num * b.num;
    let d = a.den * b.den;
    assert(d >= 1) by (nonlinear_arith)
        requires
            a.den >= 1,
            b.den >= 1,
            d == a.den * b.den,
    ;
    lemma_reduce_value(n, d);
}

pub open spec fn neg_s(a: Rational) -> Option<Rational> {
    if a.num == i128::MIN {
        None
    } else {
        Some(Rational { num: (-a.num) as i128, den: a.den })
    }
}

pub open spec fn add_s(a: Rational, b: Rational) -> Option<Rational> {
    let n1 = a.num * b.den;
    let n2 = b.num * a.den;
    let n = n1 + n2;
    let d = a.den * b.den;
    if !fits_i128(n1) || !fits_i128(n2) || !fits_i128(n) || !fits_i128(d) {
        None
    } else {
        reduce_s(n, d)
    }
}

pub open spec fn sub_s(a: Rational, b: Rational) -> Option<Rational> {
    let n1 = a.num * b.den;
    let n2 = b.num * a.den;
    let n = n1 - n2;
    let d = a.den * b.den;
    if !fits_i128(n1) || !fits_i128(n2) || !fits_i128(n) || !fits_i128(d) {
        None
    } else {
        reduce_s(n, d)
    }
}

pub open spec fn mul_s(a: Rational, b: Rational) -> Option<Rational> {
    let n = a.num * b.num;
    let d = a.den * b.den;
    if !fits_i128(n) || !fits_i128(d) {
        None
    } else {
        reduce_s(n, d)
    }
}

pub open spec fn div_s(a: Rational, b: Rational) -> Option<Rational> {
    let n = a.num * b.den;
    let d = a.den * b.num;
    if !fits_i128(n) || !fits_i128(d) {
        None
    } else {
        reduce_s(n, d)
    }
}

} // verus!
