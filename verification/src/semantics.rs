//! The mathematical semantics of the expression engine.
//!
//! `eval_s` and `diff_s` state, case by case, what the evaluator and the
//! differentiator return for every tree: the simplified tree, or the error.
//! The executable engine's contracts say it returns exactly these values.
//!
//! Resolving a derivative marker (and a few other steps that work on freshly
//! built trees rather than on subtrees) consumes one unit of `fuel`; the
//! engine starts with the full 64-bit supply, so running out means the
//! computation exceeded any machine's reach and is reported as overflow.

use crate::node::NodeV;
use crate::rational::{add_s, div_s, mul_s, pow_whole_s, sub_s, Rational};
use crate::token::{FuncType, TokenType};
use vstd::prelude::*;

verus! {

/// The failures evaluation and differentiation can produce.
pub enum ErrV {
    /// An indeterminate form: `0^0`, division by zero, a cosecant pole.
    Undefined,
    /// `log` of zero.
    Infinity,
    /// `ln` of zero.
    NegInfinity,
    /// Differentiation of an equation.
    EquationDiff,
    /// A value or an intermediate step left the machine range.
    Overflow,
}

/// A variable environment: symbol/value pairs, first match wins.
pub open spec fn lookup_v(env: Seq<(char, Rational)>, v: char) -> Option<Rational>
    decreases env.len(),
{
    if env.len() == 0 {
        None
    } else if env[0].0 == v {
        Some(env[0].1)
    } else {
        lookup_v(env.drop_first(), v)
    }
}

pub open spec fn rat_zero() -> Rational {
    Rational { num: 0, den: 1 }
}

pub open spec fn rat_one() -> Rational {
    Rational { num: 1, den: 1 }
}

pub open spec fn rat_neg_one() -> Rational {
    Rational { num: -1i128, den: 1i128 }
}

pub open spec fn rat_two() -> Rational {
    Rational { num: 2, den: 1 }
}

/// The exact value of the 64-bit floating-point constant for pi.
pub open spec fn pi_rat() -> Rational {
    Rational { num: 884279719003555, den: 281474976710656 }
}

/// The exact value of the 64-bit floating-point constant for Euler's number.
pub open spec fn e_rat() -> Rational {
    Rational { num: 6121026514868073, den: 2251799813685248 }
}

/// The built-in constant table: the named constants for pi and e.
pub open spec fn const_table() -> Seq<(char, Rational)> {
    seq![('\u{3c0}', pi_rat()), ('e', e_rat())]
}

/// Some multiply-tagged element is the literal number zero.
pub open spec fn has_zero_factor(s: Seq<(TokenType, NodeV)>) -> bool {
    exists|i: int|
        0 <= i < s.len() && s[i].0 != TokenType::Div && match s[i].1 {
            NodeV::Num(r) => r.num == 0,
            _ => false,
        }
}

/// One level of flattening: a multiply-tagged product chain among the
/// elements contributes its own elements in place.
pub open spec fn flat1(s: Seq<(TokenType, NodeV)>, i: int) -> Seq<(TokenType, NodeV)>
    decreases s.len() - i,
{
    if i < 0 || i >= s.len() {
        Seq::empty()
    } else {
        let head = match s[i].1 {
            NodeV::Factors(inner) => {
                if s[i].0 == TokenType::Mul {
                    inner
                } else {
                    seq![s[i]]
                }
            },
            _ => seq![s[i]],
        };
        head + flat1(s, i + 1)
    }
}

/// Fold the numeric elements of a product chain into `acc` (multiplying or
/// dividing by tag), collecting the symbolic elements into `res`.
pub open spec fn fold_factors(
    s: Seq<(TokenType, NodeV)>,
    i: int,
    acc: Rational,
    res: Seq<(TokenType, NodeV)>,
) -> Result<(Rational, Seq<(TokenType, NodeV)>), ErrV>
    decreases s.len() - i,
{
    if i < 0 || i >= s.len() {
        Ok((acc, res))
    } else {
        match s[i].1 {
            NodeV::Num(r) => {
                if s[i].0 == TokenType::Div {
                    if r.num == 0 {
                        Err(ErrV::Undefined)
                    } else {
                        match div_s(acc, r) {
                            Some(a2) => fold_factors(s, i + 1, a2, res),
                            None => Err(ErrV::Overflow),
                        }
                    }
                } else {
                    match mul_s(acc, r) {
                        Some(a2) => fold_factors(s, i + 1, a2, res),
                        None => Err(ErrV::Overflow),
                    }
                }
            },
            _ => fold_factors(s, i + 1, acc, res.push(s[i])),
        }
    }
}

/// Rebuild a product chain from its folded scalar and symbolic rest.
pub open spec fn finalize_factors(acc: Rational, res: Seq<(TokenType, NodeV)>) -> NodeV {
    if res.len() == 0 {
        NodeV::Num(acc)
    } else if acc.num != acc.den {
        NodeV::Factors(res.push((TokenType::Mul, NodeV::Num(acc))))
    } else if res.len() == 1 && res[0].0 == TokenType::Mul {
        res[0].1
    } else {
        NodeV::Factors(res)
    }
}

/// Fold the numeric elements of a sum chain (adding or subtracting by tag).
pub open spec fn fold_terms(
    s: Seq<(TokenType, NodeV)>,
    i: int,
    acc: Rational,
    res: Seq<(TokenType, NodeV)>,
) -> Result<(Rational, Seq<(TokenType, NodeV)>), ErrV>
    decreases s.len() - i,
{
    if i < 0 || i >= s.len() {
        Ok((acc, res))
    } else {
        match s[i].1 {
            NodeV::Num(r) => {
                let step = if s[i].0 == TokenType::Minus {
                    sub_s(acc, r)
                } else {
                    add_s(acc, r)
                };
                match step {
                    Some(a2) => fold_terms(s, i + 1, a2, res),
                    None => Err(ErrV::Overflow),
                }
            },
            _ => fold_terms(s, i + 1, acc, res.push(s[i])),
        }
    }
}

/// Rebuild a sum chain from its folded scalar and symbolic rest.
pub open spec fn finalize_terms(acc: Rational, res: Seq<(TokenType, NodeV)>) -> NodeV {
    if res.len() == 0 {
        NodeV::Num(acc)
    } else if acc.num != 0 {
        NodeV::Terms(res.push((TokenType::Plus, NodeV::Num(acc))))
    } else if res.len() == 1 && res[0].0 == TokenType::Plus {
        res[0].1
    } else {
        NodeV::Terms(res)
    }
}

/// A unary function applied to an evaluated argument.  On a numeric argument
/// the domain policies apply: a cosecant pole (the argument an exact whole
/// multiple of pi) is undefined, the logarithms reject zero; otherwise the
/// application stays symbolic, exact arithmetic having no finite form for it.
pub open spec fn eval_func_v(f: FuncType, va: NodeV) -> Result<NodeV, ErrV> {
    match va {
        NodeV::Num(r) => match f {
            FuncType::Csc => match div_s(r, pi_rat()) {
                Some(q) => {
                    if q.is_whole_s() {
                        Err(ErrV::Undefined)
                    } else {
                        Ok(NodeV::Func { func: f, arg: Box::new(va) })
                    }
                },
                None => Err(ErrV::Overflow),
            },
            FuncType::Ln => {
                if r.num == 0 {
                    Err(ErrV::NegInfinity)
                } else {
                    Ok(NodeV::Func { func: f, arg: Box::new(va) })
                }
            },
            FuncType::Log => {
                if r.num == 0 {
                    Err(ErrV::Infinity)
                } else {
                    Ok(NodeV::Func { func: f, arg: Box::new(va) })
                }
            },
            _ => Ok(NodeV::Func { func: f, arg: Box::new(va) }),
        },
        _ => Ok(NodeV::Func { func: f, arg: Box::new(va) }),
    }
}

/// A power with evaluated base and exponent.  `b_orig` is the original,
/// unevaluated base, which an exponent of exactly one returns unchanged.
pub open spec fn eval_exponent_v(b_orig: NodeV, vb: NodeV, ve: NodeV) -> Result<NodeV, ErrV> {
    match vb {
        NodeV::Num(bn) => match ve {
            NodeV::Num(en) => {
                if en.num == 0 {
                    if bn.num == 0 {
                        Err(ErrV::Undefined)
                    } else {
                        Ok(NodeV::Num(rat_one()))
                    }
                } else if en.num == en.den {
                    Ok(b_orig)
                } else if bn.num == bn.den {
                    Ok(NodeV::Num(rat_one()))
                } else if en.den == 1 {
                    if bn.num == 0 && en.num < 0 {
                        Err(ErrV::Undefined)
                    } else {
                        match pow_whole_s(bn, en.num as int) {
                            Some(p) => Ok(NodeV::Num(p)),
                            None => Err(ErrV::Overflow),
                        }
                    }
                } else {
                    // a fractional power of a number is irrational in
                    // general: keep it symbolic
                    Ok(NodeV::Exponent { base: Box::new(vb), exponent: Box::new(ve) })
                }
            },
            _ => {
                if bn.num == 0 {
                    Ok(NodeV::Num(rat_zero()))
                } else if bn.num == bn.den {
                    Ok(NodeV::Num(rat_one()))
                } else {
                    Ok(NodeV::Exponent { base: Box::new(vb), exponent: Box::new(ve) })
                }
            },
        },
        _ => match ve {
            NodeV::Num(en) => {
                if en.num == 0 {
                    Ok(NodeV::Num(rat_one()))
                } else if en.num == en.den {
                    Ok(vb)
                } else {
                    Ok(NodeV::Exponent { base: Box::new(vb), exponent: Box::new(ve) })
                }
            },
            _ => Ok(NodeV::Exponent { base: Box::new(vb), exponent: Box::new(ve) }),
        },
    }
}

/// The derivative table for the unary functions, applied to the evaluated
/// argument `va`.
pub open spec fn dfunc_v(f: FuncType, va: NodeV) -> NodeV {
    match f {
        FuncType::Sin => NodeV::Func { func: FuncType::Cos, arg: Box::new(va) },
        FuncType::Cos => NodeV::Factors(
            seq![
                (TokenType::Mul, NodeV::Num(rat_neg_one())),
                (TokenType::Mul, NodeV::Func { func: FuncType::Sin, arg: Box::new(va) }),
            ],
        ),
        FuncType::Tan => NodeV::Exponent {
            base: Box::new(NodeV::Func { func: FuncType::Sec, arg: Box::new(va) }),
            exponent: Box::new(NodeV::Num(rat_two())),
        },
        FuncType::Csc => NodeV::Factors(
            seq![
                (TokenType::Mul, NodeV::Num(rat_neg_one())),
                (TokenType::Mul, NodeV::Func { func: FuncType::Csc, arg: Box::new(va) }),
                (TokenType::Mul, NodeV::Func { func: FuncType::Cot, arg: Box::new(va) }),
            ],
        ),
        FuncType::Sec => NodeV::Factors(
            seq![
                (TokenType::Mul, NodeV::Func { func: FuncType::Sec, arg: Box::new(va) }),
                (TokenType::Mul, NodeV::Func { func: FuncType::Tan, arg: Box::new(va) }),
            ],
        ),
        FuncType::Cot => NodeV::Factors(
            seq![
                (TokenType::Mul, NodeV::Num(rat_neg_one())),
                (
                    TokenType::Mul,
                    NodeV::Exponent {
                        base: Box::new(NodeV::Func { func: FuncType::Sec, arg: Box::new(va) }),
                        exponent: Box::new(NodeV::Num(rat_two())),
                    },
                ),
            ],
        ),
        FuncType::Ln => NodeV::Factors(seq![(TokenType::Div, va)]),
        FuncType::Log => NodeV::Factors(
            seq![
                (
                    TokenType::Div,
                    NodeV::Factors(
                        seq![
                            (TokenType::Mul, va),
                            (
                                TokenType::Mul,
                                NodeV::Func {
                                    func: FuncType::Ln,
                                    arg: Box::new(NodeV::Num(Rational { num: 10, den: 1 })),
                                },
                            ),
                        ],
                    ),
                ),
            ],
        ),
    }
}

/// One step of the sequential quotient rule: the derivative of `expr / d`,
/// from the running expression `expr`, its derivative `deriv`, the divisor
/// `d` and the divisor's derivative `dd`.
pub open spec fn quotient_step(expr: NodeV, deriv: NodeV, d: NodeV, dd: NodeV) -> NodeV {
    NodeV::Factors(
        seq![
            (
                TokenType::Mul,
                NodeV::Terms(
                    seq![
                        (
                            TokenType::Plus,
                            NodeV::Factors(seq![(TokenType::Mul, deriv), (TokenType::Mul, d)]),
                        ),
                        (
                            TokenType::Minus,
                            NodeV::Factors(seq![(TokenType::Mul, dd), (TokenType::Mul, expr)]),
                        ),
                    ],
                ),
            ),
            (
                TokenType::Div,
                NodeV::Exponent { base: Box::new(d), exponent: Box::new(NodeV::Num(rat_two())) },
            ),
        ],
    )
}

/// The running expression after folding one more divisor in.
pub open spec fn quotient_expr(expr: NodeV, d: NodeV) -> NodeV {
    NodeV::Factors(seq![(TokenType::Mul, expr), (TokenType::Div, d)])
}

/// The product-rule row for position `i`: every multiply-tagged factor
/// unchanged but the `i`-th, which is replaced by its derivative `d`.
pub open spec fn prow(muls: Seq<(TokenType, NodeV)>, i: int, d: NodeV) -> Seq<(TokenType, NodeV)> {
    Seq::new(
        muls.len(),
        |j: int|
            if j == i {
                (TokenType::Mul, d)
            } else {
                (TokenType::Mul, muls[j].1)
            },
    )
}

/// The elements whose tag is (`mul` true) or is not (`mul` false) the
/// multiplication tag, in order.
pub open spec fn filter_tag(s: Seq<(TokenType, NodeV)>, i: int, mul: bool) -> Seq<(TokenType, NodeV)>
    decreases s.len() - i,
{
    if i < 0 || i >= s.len() {
        Seq::empty()
    } else {
        let keep = (s[i].0 == TokenType::Mul) == mul;
        (if keep {
            seq![s[i]]
        } else {
            Seq::empty()
        }) + filter_tag(s, i + 1, mul)
    }
}

/// Evaluate every element of a chain, in order, keeping the tags; the first
/// failure is the chain's failure.
pub open spec fn eval_entries(
    s: Seq<(TokenType, NodeV)>,
    consts: Seq<(char, Rational)>,
    ext: Option<Seq<(char, Rational)>>,
    fuel: nat,
    i: int,
) -> Result<Seq<(TokenType, NodeV)>, ErrV>
    decreases fuel, s, s.len() - i,
{
    if i < 0 || i >= s.len() {
        Ok(Seq::empty())
    } else {
        match eval_s(s[i].1, consts, ext, fuel) {
            Ok(n) => match eval_entries(s, consts, ext, fuel, i + 1) {
                Ok(rest) => Ok(seq![(s[i].0, n)] + rest),
                Err(e) => Err(e),
            },
            Err(e) => Err(e),
        }
    }
}

/// What the evaluator returns: the tree simplified under the constant table
/// `consts` and the optional substitution table `ext`.
pub open spec fn eval_s(
    t: NodeV,
    consts: Seq<(char, Rational)>,
    ext: Option<Seq<(char, Rational)>>,
    fuel: nat,
) -> Result<NodeV, ErrV>
    decreases fuel, t, 1int,
{
    match t {
        NodeV::Num(r) => Ok(NodeV::Num(r)),
        NodeV::Var(c) => match lookup_v(consts, c) {
            Some(r) => Ok(NodeV::Num(r)),
            None => match ext {
                Some(m) => match lookup_v(m, c) {
                    Some(r) => Ok(NodeV::Num(r)),
                    None => Ok(NodeV::Var(c)),
                },
                None => Ok(NodeV::Var(c)),
            },
        },
        NodeV::Func { func, arg } => match eval_s(*arg, consts, ext, fuel) {
            Ok(va) => eval_func_v(func, va),
            Err(e) => Err(e),
        },
        NodeV::Exponent { base, exponent } => match eval_s(*base, consts, ext, fuel) {
            Ok(vb) => match eval_s(*exponent, consts, ext, fuel) {
                Ok(ve) => eval_exponent_v(*base, vb, ve),
                Err(e) => Err(e),
            },
            Err(e) => Err(e),
        },
        NodeV::Factors(s) => {
            if has_zero_factor(s) {
                Ok(NodeV::Num(rat_zero()))
            } else {
                match eval_entries(s, consts, ext, fuel, 0) {
                    Ok(vs) => {
                        let fl = flat1(vs, 0);
                        match fold_factors(fl, 0, rat_one(), Seq::empty()) {
                            Ok((acc, res)) => Ok(finalize_factors(acc, res)),
                            Err(e) => Err(e),
                        }
                    },
                    Err(e) => Err(e),
                }
            }
        },
        NodeV::Terms(s) => match eval_entries(s, consts, ext, fuel, 0) {
            Ok(vs) => match fold_terms(vs, 0, rat_zero(), Seq::empty()) {
                Ok((acc, res)) => Ok(finalize_terms(acc, res)),
                Err(e) => Err(e),
            },
            Err(e) => Err(e),
        },
        NodeV::Derivative { derivative, var } => {
            if fuel == 0 {
                Err(ErrV::Overflow)
            } else {
                match diff_s(*derivative, var, consts, ext, fuel) {
                    Ok(d) => eval_s(d, consts, ext, (fuel - 1) as nat),
                    Err(e) => Err(e),
                }
            }
        },
        NodeV::Equation { lhs, rhs } => match eval_s(*lhs, consts, ext, fuel) {
            Ok(l) => match eval_s(*rhs, consts, ext, fuel) {
                Ok(r) => Ok(NodeV::Equation { lhs: Box::new(l), rhs: Box::new(r) }),
                Err(e) => Err(e),
            },
            Err(e) => Err(e),
        },
    }
}

/// The product-rule rows for the multiply-tagged factors `muls`.
pub open spec fn prule_s(
    muls: Seq<(TokenType, NodeV)>,
    i: int,
    var: char,
    consts: Seq<(char, Rational)>,
    ext: Option<Seq<(char, Rational)>>,
    fuel: nat,
) -> Result<Seq<(TokenType, NodeV)>, ErrV>
    decreases fuel, muls, muls.len() - i,
{
    if i < 0 || i >= muls.len() {
        Ok(Seq::empty())
    } else if fuel == 0 {
        Err(ErrV::Overflow)
    } else {
        match diff_s(muls[i].1, var, consts, ext, (fuel - 1) as nat) {
            Ok(d) => match prule_s(muls, i + 1, var, consts, ext, fuel) {
                Ok(rest) => Ok(seq![(TokenType::Plus, NodeV::Factors(prow(muls, i, d)))] + rest),
                Err(e) => Err(e),
            },
            Err(e) => Err(e),
        }
    }
}

/// Fold the divide-tagged factors into the running expression and its
/// derivative, left to right, by the quotient rule; the folded derivative
/// is the result.
pub open spec fn qfold_s(
    expr: NodeV,
    deriv: NodeV,
    divs: Seq<(TokenType, NodeV)>,
    j: int,
    var: char,
    consts: Seq<(char, Rational)>,
    ext: Option<Seq<(char, Rational)>>,
    fuel: nat,
) -> Result<NodeV, ErrV>
    decreases fuel, divs, divs.len() - j,
{
    if j < 0 || j >= divs.len() {
        Ok(deriv)
    } else if fuel == 0 {
        Err(ErrV::Overflow)
    } else {
        match diff_s(divs[j].1, var, consts, ext, (fuel - 1) as nat) {
            Ok(dd) => qfold_s(
                quotient_expr(expr, divs[j].1),
                quotient_step(expr, deriv, divs[j].1, dd),
                divs,
                j + 1,
                var,
                consts,
                ext,
                fuel,
            ),
            Err(e) => Err(e),
        }
    }
}

/// Differentiate each term of a sum chain (evaluating it first), keeping
/// its tag.
pub open spec fn dterms_s(
    s: Seq<(TokenType, NodeV)>,
    i: int,
    var: char,
    consts: Seq<(char, Rational)>,
    ext: Option<Seq<(char, Rational)>>,
    fuel: nat,
) -> Result<Seq<(TokenType, NodeV)>, ErrV>
    decreases fuel, s, s.len() - i,
{
    if i < 0 || i >= s.len() {
        Ok(Seq::empty())
    } else {
        match eval_s(s[i].1, consts, ext, fuel) {
            Ok(vt) => {
                if fuel == 0 {
                    Err(ErrV::Overflow)
                } else {
                    match diff_s(vt, var, consts, ext, (fuel - 1) as nat) {
                        Ok(dt) => match dterms_s(s, i + 1, var, consts, ext, fuel) {
                            Ok(rest) => Ok(seq![(s[i].0, dt)] + rest),
                            Err(e) => Err(e),
                        },
                        Err(e) => Err(e),
                    }
                }
            },
            Err(e) => Err(e),
        }
    }
}

/// What the differentiator returns: the derivative of `t` with respect to
/// `var`, built by the structural rules, with intermediate simplification.
pub open spec fn diff_s(
    t: NodeV,
    var: char,
    consts: Seq<(char, Rational)>,
    ext: Option<Seq<(char, Rational)>>,
    fuel: nat,
) -> Result<NodeV, ErrV>
    decreases fuel, t, 2int,
{
    match t {
        NodeV::Num(_) => Ok(NodeV::Num(rat_zero())),
        NodeV::Var(c) => Ok(
            NodeV::Num(
                if c == var {
                    rat_one()
                } else {
                    rat_zero()
                },
            ),
        ),
        NodeV::Func { func, arg } => match eval_s(*arg, consts, ext, fuel) {
            Ok(va) => {
                if fuel == 0 {
                    Err(ErrV::Overflow)
                } else {
                    match diff_s(va, var, consts, ext, (fuel - 1) as nat) {
                        Ok(da) => eval_s(
                            NodeV::Factors(
                                seq![(TokenType::Mul, da), (TokenType::Mul, dfunc_v(func, va))],
                            ),
                            consts,
                            ext,
                            (fuel - 1) as nat,
                        ),
                        Err(e) => Err(e),
                    }
                }
            },
            Err(e) => Err(e),
        },
        NodeV::Exponent { base, exponent } => match eval_s(*base, consts, ext, fuel) {
            Ok(vb) => match eval_s(*exponent, consts, ext, fuel) {
                Ok(ve) => {
                    if fuel == 0 {
                        Err(ErrV::Overflow)
                    } else {
                        diff_exponent_s(t, vb, ve, var, consts, ext, (fuel - 1) as nat)
                    }
                },
                Err(e) => Err(e),
            },
            Err(e) => Err(e),
        },
        NodeV::Factors(s) => match eval_entries(s, consts, ext, fuel, 0) {
            Ok(vs) => {
                let muls = filter_tag(vs, 0, true);
                let divs = filter_tag(vs, 0, false);
                if fuel == 0 {
                    Err(ErrV::Overflow)
                } else {
                    match prule_s(muls, 0, var, consts, ext, (fuel - 1) as nat) {
                        Ok(rows) => qfold_s(
                            NodeV::Factors(muls),
                            NodeV::Terms(rows),
                            divs,
                            0,
                            var,
                            consts,
                            ext,
                            (fuel - 1) as nat,
                        ),
                        Err(e) => Err(e),
                    }
                }
            },
            Err(e) => Err(e),
        },
        NodeV::Terms(s) => match dterms_s(s, 0, var, consts, ext, fuel) {
            Ok(rows) => Ok(NodeV::Terms(rows)),
            Err(e) => Err(e),
        },
        NodeV::Derivative { derivative, var: var2 } => match diff_s(
            *derivative,
            var2,
            consts,
            ext,
            fuel,
        ) {
            Ok(d1) => {
                if fuel == 0 {
                    Err(ErrV::Overflow)
                } else {
                    match eval_s(d1, consts, ext, (fuel - 1) as nat) {
                        Ok(v1) => diff_s(v1, var, consts, ext, (fuel - 1) as nat),
                        Err(e) => Err(e),
                    }
                }
            },
            Err(e) => Err(e),
        },
        NodeV::Equation { .. } => Err(ErrV::EquationDiff),
    }
}

/// The power rules, on the evaluated base `vb` and exponent `ve`; `t` is the
/// original power node, which two of the rules embed unchanged.
pub open spec fn diff_exponent_s(
    t: NodeV,
    vb: NodeV,
    ve: NodeV,
    var: char,
    consts: Seq<(char, Rational)>,
    ext: Option<Seq<(char, Rational)>>,
    fuel: nat,
) -> Result<NodeV, ErrV>
    decreases fuel, t, 0int,
{
    if fuel == 0 {
        Err(ErrV::Overflow)
    } else {
        match ve {
        NodeV::Num(k) => match diff_s(vb, var, consts, ext, (fuel - 1) as nat) {
            // power rule: db * k * vb^(k-1)
            Ok(db) => match sub_s(k, rat_one()) {
                Some(km1) => Ok(
                    NodeV::Factors(
                        seq![
                            (TokenType::Mul, db),
                            (TokenType::Mul, NodeV::Num(k)),
                            (
                                TokenType::Mul,
                                NodeV::Exponent {
                                    base: Box::new(vb),
                                    exponent: Box::new(NodeV::Num(km1)),
                                },
                            ),
                        ],
                    ),
                ),
                None => Err(ErrV::Overflow),
            },
            Err(e) => Err(e),
        },
        _ => match vb {
            NodeV::Num(a) => match diff_s(ve, var, consts, ext, (fuel - 1) as nat) {
                // exponential rule: de * t * ln(a)
                Ok(de) => Ok(
                    NodeV::Factors(
                        seq![
                            (TokenType::Mul, de),
                            (TokenType::Mul, t),
                            (
                                TokenType::Mul,
                                NodeV::Func {
                                    func: FuncType::Ln,
                                    arg: Box::new(NodeV::Num(a)),
                                },
                            ),
                        ],
                    ),
                ),
                Err(e) => Err(e),
            },
            // logarithmic differentiation: t * (de*ln(vb) + db*ve/vb)
            _ => match diff_s(ve, var, consts, ext, (fuel - 1) as nat) {
                Ok(de) => match diff_s(vb, var, consts, ext, (fuel - 1) as nat) {
                    Ok(db) => Ok(
                        NodeV::Factors(
                            seq![
                                (TokenType::Mul, t),
                                (
                                    TokenType::Mul,
                                    NodeV::Terms(
                                        seq![
                                            (
                                                TokenType::Plus,
                                                NodeV::Factors(
                                                    seq![
                                                        (TokenType::Mul, de),
                                                        (
                                                            TokenType::Mul,
                                                            NodeV::Func {
                                                                func: FuncType::Ln,
                                                                arg: Box::new(vb),
                                                            },
                                                        ),
                                                    ],
                                                ),
                                            ),
                                            (
                                                TokenType::Plus,
                                                NodeV::Factors(
                                                    seq![
                                                        (TokenType::Mul, db),
                                                        (TokenType::Mul, ve),
                                                        (TokenType::Div, vb),
                                                    ],
                                                ),
                                            ),
                                        ],
                                    ),
                                ),
                            ],
                        ),
                    ),
                    Err(e) => Err(e),
                },
                Err(e) => Err(e),
            },
        },
    }
    }
}

} // verus!
