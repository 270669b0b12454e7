//! Laws of the engine, stated over its semantics and proved once and for
//! all.

use crate::node::NodeV;
use crate::rational::{div_s, Rational};
use crate::rational::sub_s;
use crate::rational::{gcd_nat, lemma_one_times_one, mul_s, pow_u_s, pow_whole_s, reduce_s};
use crate::semantics::{
    dfunc_v, diff_exponent_s, diff_s, dterms_s, eval_entries, eval_func_v, eval_s, filter_tag,
    finalize_factors, finalize_terms, flat1, fold_factors, fold_terms, has_zero_factor, lookup_v,
    pi_rat, prow, prule_s, qfold_s, rat_one, rat_zero, ErrV,
};
use crate::token::{FuncType, TokenType};
use vstd::prelude::*;

verus! {

/// Differentiation is linear over a sum: differentiating the two-term sum
/// `f + g` (both already simplified under the environment) gives exactly
/// the sum of the two derivatives, term by term — and the first failure on
/// either side is the sum's failure.
pub proof fn lemma_sum_rule_linear(
    f: NodeV,
    g: NodeV,
    var: char,
    consts: Seq<(char, Rational)>,
    ext: Option<Seq<(char, Rational)>>,
    fuel: nat,
)
    requires
        fuel >= 1,
        eval_s(f, consts, ext, fuel) == Ok::<NodeV, ErrV>(f),
        eval_s(g, consts, ext, fuel) == Ok::<NodeV, ErrV>(g),
    ensures
        diff_s(
            NodeV::Terms(seq![(TokenType::Plus, f), (TokenType::Plus, g)]),
            var,
            consts,
            ext,
            fuel,
        ) == (match (
            diff_s(f, var, consts, ext, (fuel - 1) as nat),
            diff_s(g, var, consts, ext, (fuel - 1) as nat),
        ) {
            (Ok(df), Ok(dg)) => Ok::<NodeV, ErrV>(
                NodeV::Terms(seq![(TokenType::Plus, df), (TokenType::Plus, dg)]),
            ),
            (Err(e), _) => Err(e),
            (Ok(_), Err(e)) => Err(e),
        }),
{
    let s = seq![(TokenType::Plus, f), (TokenType::Plus, g)];
    assert(s[0] == (TokenType::Plus, f));
    assert(s[1] == (TokenType::Plus, g));
    assert(dterms_s(s, 2, var, consts, ext, fuel) == Ok::<Seq<(TokenType, NodeV)>, ErrV>(
        Seq::empty(),
    ));
    match diff_s(f, var, consts, ext, (fuel - 1) as nat) {
        Ok(df) => {
            match diff_s(g, var, consts, ext, (fuel - 1) as nat) {
                Ok(dg) => {
                    assert(dterms_s(s, 1, var, consts, ext, fuel) == Ok::<
                        Seq<(TokenType, NodeV)>,
                        ErrV,
                    >(seq![(TokenType::Plus, dg)] + Seq::empty()));
                    assert(seq![(TokenType::Plus, dg)] + Seq::empty() =~= seq![
                        (TokenType::Plus, dg),
                    ]);
                    assert(dterms_s(s, 0, var, consts, ext, fuel) == Ok::<
                        Seq<(TokenType, NodeV)>,
                        ErrV,
                    >(seq![(TokenType::Plus, df)] + seq![(TokenType::Plus, dg)]));
                    assert(seq![(TokenType::Plus, df)] + seq![(TokenType::Plus, dg)] =~= seq![
                        (TokenType::Plus, df),
                        (TokenType::Plus, dg),
                    ]);
                },
                Err(_) => {},
            }
        },
        Err(_) => {},
    }
}

/// The power rule in its symbolic form: for an unbound variable `v` and a
/// numeric exponent `k`, the derivative of `v^k` with respect to `v` is the
/// chain `1 * k * v^(k-1)`, exactly as the engine builds it.
pub proof fn lemma_power_rule(
    v: char,
    k: Rational,
    consts: Seq<(char, Rational)>,
    ext: Option<Seq<(char, Rational)>>,
    fuel: nat,
)
    requires
        fuel >= 2,
        lookup_v(consts, v) is None,
        ext matches Some(m) ==> lookup_v(m, v) is None,
        sub_s(k, rat_one()) is Some,
    ensures
        diff_s(
            NodeV::Exponent { base: Box::new(NodeV::Var(v)), exponent: Box::new(NodeV::Num(k)) },
            v,
            consts,
            ext,
            fuel,
        ) == Ok::<NodeV, ErrV>(
            NodeV::Factors(
                seq![
                    (TokenType::Mul, NodeV::Num(rat_one())),
                    (TokenType::Mul, NodeV::Num(k)),
                    (
                        TokenType::Mul,
                        NodeV::Exponent {
                            base: Box::new(NodeV::Var(v)),
                            exponent: Box::new(NodeV::Num(sub_s(k, rat_one())->0)),
                        },
                    ),
                ],
            ),
        ),
{
    let t = NodeV::Exponent { base: Box::new(NodeV::Var(v)), exponent: Box::new(NodeV::Num(k)) };
    assert(eval_s(NodeV::Var(v), consts, ext, fuel) == Ok::<NodeV, ErrV>(NodeV::Var(v)));
    assert(eval_s(NodeV::Num(k), consts, ext, fuel) == Ok::<NodeV, ErrV>(NodeV::Num(k)));
    assert(diff_s(t, v, consts, ext, fuel) == diff_exponent_s(
        t,
        NodeV::Var(v),
        NodeV::Num(k),
        v,
        consts,
        ext,
        (fuel - 1) as nat,
    ));
    assert(diff_s(NodeV::Var(v), v, consts, ext, (fuel - 2) as nat) == Ok::<NodeV, ErrV>(
        NodeV::Num(rat_one()),
    ));
}

/// The derivative of `x^3` evaluates to `3*a*a` under every numeric binding
/// `a` of `x` (as a cross-multiplied identity on the exact fractions), or
/// reports overflow; `d3` is the tree the power rule builds for it.
pub proof fn lemma_power_rule_value(
    a: Rational,
    consts: Seq<(char, Rational)>,
    fuel: nat,
)
    requires
        a.wf(),
        lookup_v(consts, 'x') is None,
    ensures
        ({
            let d3 = NodeV::Factors(
                seq![
                    (TokenType::Mul, NodeV::Num(rat_one())),
                    (TokenType::Mul, NodeV::Num(Rational { num: 3, den: 1 })),
                    (
                        TokenType::Mul,
                        NodeV::Exponent {
                            base: Box::new(NodeV::Var('x')),
                            exponent: Box::new(NodeV::Num(Rational { num: 2, den: 1 })),
                        },
                    ),
                ],
            );
            let r = eval_s(d3, consts, Some(seq![('x', a)]), fuel);
            &&& (r matches Ok(n) ==> (match n {
                NodeV::Num(p) => p.wf() && p.num * (a.den * a.den) == 3 * (a.num * a.num) * (
                p.den as int),
                _ => false,
            }))
            &&& (r matches Err(e) ==> e == ErrV::Overflow)
        }),
{
    let one = rat_one();
    let three = Rational { num: 3, den: 1 };
    let two = Rational { num: 2, den: 1 };
    let power = NodeV::Exponent {
        base: Box::new(NodeV::Var('x')),
        exponent: Box::new(NodeV::Num(two)),
    };
    let s = seq![
        (TokenType::Mul, NodeV::Num(one)),
        (TokenType::Mul, NodeV::Num(three)),
        (TokenType::Mul, power),
    ];
    let env = seq![('x', a)];
    let ext = Some(env);
    // the chain holds no literal zero
    assert(!has_zero_factor(s)) by {
        assert forall|i: int| 0 <= i < s.len() implies !(s[i].0 != TokenType::Div && match s[i].1 {
            NodeV::Num(rr) => rr.num == 0,
            _ => false,
        }) by {
            if i == 0 {
                assert(s[0].1 == NodeV::Num(one));
            } else if i == 1 {
                assert(s[1].1 == NodeV::Num(three));
            } else {
                assert(s[2].1 == power);
            }
        }
    }
    // the bound symbol resolves to `a`
    assert(lookup_v(env, 'x') == Some(a));
    assert(eval_s(NodeV::Var('x'), consts, ext, fuel) == Ok::<NodeV, ErrV>(NodeV::Num(a)));
    assert(eval_s(NodeV::Num(two), consts, ext, fuel) == Ok::<NodeV, ErrV>(NodeV::Num(two)));
    // small constant computations
    assert(gcd_nat(1, 0) == 1);
    assert(gcd_nat(1, 1) == 1);
    assert(gcd_nat(3, 1) == gcd_nat(1, 0));
    assert(vstd::math::abs(1) == 1nat);
    assert(vstd::math::abs(3) == 3nat);
    assert(1int / 1int == 1int);
    assert(3int / 1int == 3int);
    assert(reduce_s(1, 1) == Some(one));
    assert(reduce_s(3, 1) == Some(three));
    assert(mul_s(one, one) == Some(one));
    assert(mul_s(one, three) == Some(three));
    // the power of the bound value
    let e2 = eval_s(power, consts, ext, fuel);
    if a.num == a.den {
        // a base of one collapses to one before the power is computed
        assert(e2 == Ok::<NodeV, ErrV>(NodeV::Num(one)));
        lemma_eval_chain_folds(s, one, consts, ext, fuel);
        match mul_s(three, one) {
            Some(f) => {
                crate::rational::lemma_mul_value(three, one);
                assert(f.num * (a.den * a.den) == 3 * (a.num * a.num) * (f.den as int))
                    by (nonlinear_arith)
                    requires
                        f.num * ((1int) * (1int)) == ((3int) * 1) * (f.den as int),
                        a.num == a.den,
                ;
            },
            None => {},
        }
    } else {
        match mul_s(a, a) {
            None => {
                assert(pow_u_s(a, 2) is None);
                assert(e2 == Err::<NodeV, ErrV>(ErrV::Overflow));
                assert(eval_s(s[0].1, consts, ext, fuel) == Ok::<NodeV, ErrV>(NodeV::Num(one)));
                assert(eval_s(s[1].1, consts, ext, fuel) == Ok::<NodeV, ErrV>(NodeV::Num(three)));
                assert(eval_entries(s, consts, ext, fuel, 2) == Err::<
                    Seq<(TokenType, NodeV)>,
                    ErrV,
                >(ErrV::Overflow));
                assert(eval_entries(s, consts, ext, fuel, 1) == Err::<
                    Seq<(TokenType, NodeV)>,
                    ErrV,
                >(ErrV::Overflow));
                assert(eval_entries(s, consts, ext, fuel, 0) == Err::<
                    Seq<(TokenType, NodeV)>,
                    ErrV,
                >(ErrV::Overflow));
                assert(eval_s(NodeV::Factors(s), consts, ext, fuel) == Err::<NodeV, ErrV>(
                    ErrV::Overflow,
                ));
            },
            Some(sq) => {
                crate::rational::lemma_mul_value(a, a);
                assert(pow_u_s(a, 0) == Some(one));
                assert(pow_u_s(a, 1) == mul_s(a, pow_u_s(a, 0)->0));
                assert(pow_u_s(sq, 0) == Some(one));
                assert(pow_u_s(sq, 1) == (match mul_s(sq, one) {
                    Some(v) => Some::<Rational>(v),
                    None => None,
                }));
                match mul_s(sq, one) {
                    None => {
                        assert(pow_u_s(a, 2) is None);
                        assert(e2 == Err::<NodeV, ErrV>(ErrV::Overflow));
                        assert(eval_s(s[0].1, consts, ext, fuel) == Ok::<NodeV, ErrV>(
                            NodeV::Num(one),
                        ));
                        assert(eval_s(s[1].1, consts, ext, fuel) == Ok::<NodeV, ErrV>(
                            NodeV::Num(three),
                        ));
                        assert(eval_entries(s, consts, ext, fuel, 2) == Err::<
                            Seq<(TokenType, NodeV)>,
                            ErrV,
                        >(ErrV::Overflow));
                        assert(eval_entries(s, consts, ext, fuel, 1) == Err::<
                            Seq<(TokenType, NodeV)>,
                            ErrV,
                        >(ErrV::Overflow));
                        assert(eval_entries(s, consts, ext, fuel, 0) == Err::<
                            Seq<(TokenType, NodeV)>,
                            ErrV,
                        >(ErrV::Overflow));
                        assert(eval_s(NodeV::Factors(s), consts, ext, fuel) == Err::<NodeV, ErrV>(
                            ErrV::Overflow,
                        ));
                    },
                    Some(p) => {
                        crate::rational::lemma_mul_value(sq, one);
                        assert(pow_u_s(a, 2) == Some(p));
                        assert(pow_whole_s(a, 2) == Some(p));
                        assert(e2 == Ok::<NodeV, ErrV>(NodeV::Num(p)));
                        lemma_eval_chain_folds(s, p, consts, ext, fuel);
                        match mul_s(three, p) {
                            Some(f) => {
                                crate::rational::lemma_mul_value(three, p);
                                let bign = (a.num as int) * (a.num as int);
                                let bigd = (a.den as int) * (a.den as int);
                                assert(bigd >= 1) by (nonlinear_arith)
                                    requires
                                        a.den >= 1,
                                        bigd == (a.den as int) * (a.den as int),
                                ;
                                // clean the multiplied-by-one forms
                                assert(p.num * (sq.den as int) == sq.num * (p.den as int))
                                    by (nonlinear_arith)
                                    requires
                                        p.num * ((sq.den as int) * 1) == (sq.num * 1) * (
                                        p.den as int),
                                ;
                                assert(f.num * (p.den as int) == 3 * p.num * (f.den as int))
                                    by (nonlinear_arith)
                                    requires
                                        f.num * ((1int) * (p.den as int)) == ((3int) * p.num) * (
                                        f.den as int),
                                ;
                                // carry the value of the square onto p
                                assert(p.num * bigd * (sq.den as int) == bign * (p.den as int) * (
                                sq.den as int)) by (nonlinear_arith)
                                    requires
                                        p.num * (sq.den as int) == sq.num * (p.den as int),
                                        sq.num * bigd == bign * (sq.den as int),
                                ;
                                assert(p.num * bigd == bign * (p.den as int)) by (nonlinear_arith)
                                    requires
                                        p.num * bigd * (sq.den as int) == bign * (p.den as int) * (
                                        sq.den as int),
                                        sq.den >= 1,
                                ;
                                // and onto the folded product
                                assert(f.num * bigd * (p.den as int) == 3 * bign * (f.den as int)
                                    * (p.den as int)) by (nonlinear_arith)
                                    requires
                                        f.num * (p.den as int) == 3 * p.num * (f.den as int),
                                        p.num * bigd == bign * (p.den as int),
                                ;
                                assert(f.num * bigd == 3 * bign * (f.den as int))
                                    by (nonlinear_arith)
                                    requires
                                        f.num * bigd * (p.den as int) == 3 * bign * (f.den as int)
                                            * (p.den as int),
                                        p.den >= 1,
                                ;
                                assert(f.num * (a.den * a.den) == 3 * (a.num * a.num) * (
                                f.den as int)) by (nonlinear_arith)
                                    requires
                                        f.num * bigd == 3 * bign * (f.den as int),
                                        bign == (a.num as int) * (a.num as int),
                                        bigd == (a.den as int) * (a.den as int),
                                ;
                            },
                            None => {},
                        }
                    },
                }
            },
        }
    }
}

/// Folding the concrete chain `1 * 3 * q` (for a numeric `q` the power
/// evaluated to): the evaluator returns `3 * q`, or overflow.
proof fn lemma_eval_chain_folds(
    s: Seq<(TokenType, NodeV)>,
    q: Rational,
    consts: Seq<(char, Rational)>,
    ext: Option<Seq<(char, Rational)>>,
    fuel: nat,
)
    requires
        s.len() == 3,
        s[0] == (TokenType::Mul, NodeV::Num(rat_one())),
        s[1] == (TokenType::Mul, NodeV::Num(Rational { num: 3, den: 1 })),
        s[2].0 == TokenType::Mul,
        !has_zero_factor(s),
        eval_s(s[2].1, consts, ext, fuel) == Ok::<NodeV, ErrV>(NodeV::Num(q)),
        mul_s(rat_one(), rat_one()) == Some(rat_one()),
        mul_s(rat_one(), Rational { num: 3, den: 1 }) == Some(Rational { num: 3, den: 1 }),
    ensures
        eval_s(NodeV::Factors(s), consts, ext, fuel) == (match mul_s(
            Rational { num: 3, den: 1 },
            q,
        ) {
            Some(f) => Ok::<NodeV, ErrV>(NodeV::Num(f)),
            None => Err(ErrV::Overflow),
        }),
{
    let one = rat_one();
    let three = Rational { num: 3, den: 1 };
    assert(eval_s(s[0].1, consts, ext, fuel) == Ok::<NodeV, ErrV>(NodeV::Num(one)));
    assert(eval_s(s[1].1, consts, ext, fuel) == Ok::<NodeV, ErrV>(NodeV::Num(three)));
    let vs = seq![
        (TokenType::Mul, NodeV::Num(one)),
        (TokenType::Mul, NodeV::Num(three)),
        (TokenType::Mul, NodeV::Num(q)),
    ];
    assert(eval_entries(s, consts, ext, fuel, 3) == Ok::<Seq<(TokenType, NodeV)>, ErrV>(
        Seq::empty(),
    ));
    assert(eval_entries(s, consts, ext, fuel, 2) == Ok::<Seq<(TokenType, NodeV)>, ErrV>(
        seq![(TokenType::Mul, NodeV::Num(q))] + Seq::empty(),
    ));
    assert(eval_entries(s, consts, ext, fuel, 1) == Ok::<Seq<(TokenType, NodeV)>, ErrV>(
        seq![(TokenType::Mul, NodeV::Num(three))] + (seq![(TokenType::Mul, NodeV::Num(q))]
            + Seq::empty()),
    ));
    assert(eval_entries(s, consts, ext, fuel, 0) == Ok::<Seq<(TokenType, NodeV)>, ErrV>(
        seq![(TokenType::Mul, NodeV::Num(one))] + (seq![(TokenType::Mul, NodeV::Num(three))] + (
        seq![(TokenType::Mul, NodeV::Num(q))] + Seq::empty())),
    ));
    assert(seq![(TokenType::Mul, NodeV::Num(one))] + (seq![(TokenType::Mul, NodeV::Num(three))]
        + (seq![(TokenType::Mul, NodeV::Num(q))] + Seq::empty())) =~= vs);
    // no nested chain: flattening leaves the list as it is
    assert(flat1(vs, 3) =~= Seq::<(TokenType, NodeV)>::empty());
    assert(flat1(vs, 2) =~= seq![vs[2]] + flat1(vs, 3));
    assert(flat1(vs, 1) =~= seq![vs[1]] + flat1(vs, 2));
    assert(flat1(vs, 0) =~= seq![vs[0]] + flat1(vs, 1));
    assert(flat1(vs, 0) =~= vs);
    // fold the three numeric factors
    assert(fold_factors(vs, 0, one, Seq::empty()) == fold_factors(vs, 1, one, Seq::empty()));
    assert(fold_factors(vs, 1, one, Seq::empty()) == fold_factors(vs, 2, three, Seq::empty()));
    match mul_s(three, q) {
        Some(f) => {
            assert(fold_factors(vs, 2, three, Seq::empty()) == fold_factors(
                vs,
                3,
                f,
                Seq::empty(),
            ));
            assert(finalize_factors(f, Seq::empty()) == NodeV::Num(f));
        },
        None => {
            assert(fold_factors(vs, 2, three, Seq::empty()) == Err::<
                (Rational, Seq<(TokenType, NodeV)>),
                ErrV,
            >(ErrV::Overflow));
        },
    }
}

/// The derivative of `sin(x)` for unbound `x` simplifies to `cos(x)`.
proof fn lemma_diff_sin_unbound(
    consts: Seq<(char, Rational)>,
    ext: Option<Seq<(char, Rational)>>,
    fuel: nat,
)
    requires
        fuel >= 1,
        lookup_v(consts, 'x') is None,
        ext matches Some(m) ==> lookup_v(m, 'x') is None,
    ensures
        diff_s(
            NodeV::Func { func: FuncType::Sin, arg: Box::new(NodeV::Var('x')) },
            'x',
            consts,
            ext,
            fuel,
        ) == Ok::<NodeV, ErrV>(NodeV::Func { func: FuncType::Cos, arg: Box::new(NodeV::Var('x')) }),
{
    let one = rat_one();
    let x = NodeV::Var('x');
    let sinx = NodeV::Func { func: FuncType::Sin, arg: Box::new(x) };
    let cosx = NodeV::Func { func: FuncType::Cos, arg: Box::new(x) };
    let f1 = (fuel - 1) as nat;
    assert(eval_s(x, consts, ext, fuel) == Ok::<NodeV, ErrV>(x));
    assert(diff_s(x, 'x', consts, ext, f1) == Ok::<NodeV, ErrV>(NodeV::Num(one)));
    assert(dfunc_v(FuncType::Sin, x) == cosx);
    let cs = seq![(TokenType::Mul, NodeV::Num(one)), (TokenType::Mul, cosx)];
    assert(!has_zero_factor(cs)) by {
        assert forall|i: int| 0 <= i < cs.len() implies !(cs[i].0 != TokenType::Div && match cs[i].1 {
            NodeV::Num(rr) => rr.num == 0,
            _ => false,
        }) by {
            if i == 0 {
                assert(cs[0].1 == NodeV::Num(one));
            } else {
                assert(cs[1].1 == cosx);
            }
        }
    }
    assert(eval_s(NodeV::Num(one), consts, ext, f1) == Ok::<NodeV, ErrV>(NodeV::Num(one)));
    assert(eval_s(x, consts, ext, f1) == Ok::<NodeV, ErrV>(x));
    assert(eval_func_v(FuncType::Cos, x) == Ok::<NodeV, ErrV>(cosx));
    assert(eval_s(cosx, consts, ext, f1) == Ok::<NodeV, ErrV>(cosx));
    assert(eval_entries(cs, consts, ext, f1, 2) == Ok::<Seq<(TokenType, NodeV)>, ErrV>(
        Seq::empty(),
    ));
    assert(eval_entries(cs, consts, ext, f1, 1) == Ok::<Seq<(TokenType, NodeV)>, ErrV>(
        seq![(TokenType::Mul, cosx)] + Seq::empty(),
    ));
    assert(eval_entries(cs, consts, ext, f1, 0) == Ok::<Seq<(TokenType, NodeV)>, ErrV>(
        seq![(TokenType::Mul, NodeV::Num(one))] + (seq![(TokenType::Mul, cosx)] + Seq::empty()),
    ));
    let cvs = eval_entries(cs, consts, ext, f1, 0)->Ok_0;
    assert(cvs =~= cs);
    assert(flat1(cs, 2) =~= Seq::<(TokenType, NodeV)>::empty());
    assert(flat1(cs, 1) =~= seq![cs[1]] + flat1(cs, 2));
    assert(flat1(cs, 0) =~= seq![cs[0]] + flat1(cs, 1));
    assert(flat1(cs, 0) =~= cs);
    lemma_one_times_one();
    assert(fold_factors(cs, 0, one, Seq::empty()) == fold_factors(cs, 1, one, Seq::empty()));
    assert(fold_factors(cs, 1, one, Seq::empty()) == fold_factors(
        cs,
        2,
        one,
        Seq::empty().push(cs[1]),
    ));
    assert(Seq::<(TokenType, NodeV)>::empty().push(cs[1]) =~= seq![(TokenType::Mul, cosx)]);
    assert(finalize_factors(one, seq![(TokenType::Mul, cosx)]) == cosx);
    let c = NodeV::Factors(cs);
    assert(eval_s(c, consts, ext, f1) == Ok::<NodeV, ErrV>(cosx));
    assert(diff_s(sinx, 'x', consts, ext, fuel) == eval_s(c, consts, ext, f1));
}

/// The generalized product rule on `sin(x) * x` for unbound `x`: the
/// derivative is the two-row sum the rule prescribes.
proof fn lemma_product_rule_derivative(
    consts: Seq<(char, Rational)>,
    ext: Option<Seq<(char, Rational)>>,
    fuel: nat,
)
    requires
        fuel >= 3,
        lookup_v(consts, 'x') is None,
        ext matches Some(m) ==> lookup_v(m, 'x') is None,
    ensures
        ({
            let x = NodeV::Var('x');
            let sinx = NodeV::Func { func: FuncType::Sin, arg: Box::new(x) };
            let cosx = NodeV::Func { func: FuncType::Cos, arg: Box::new(x) };
            diff_s(
                NodeV::Factors(seq![(TokenType::Mul, sinx), (TokenType::Mul, x)]),
                'x',
                consts,
                ext,
                fuel,
            ) == Ok::<NodeV, ErrV>(
                NodeV::Terms(
                    seq![
                        (
                            TokenType::Plus,
                            NodeV::Factors(seq![(TokenType::Mul, cosx), (TokenType::Mul, x)]),
                        ),
                        (
                            TokenType::Plus,
                            NodeV::Factors(
                                seq![(TokenType::Mul, sinx), (TokenType::Mul, NodeV::Num(rat_one()))],
                            ),
                        ),
                    ],
                ),
            )
        }),
{
    let one = rat_one();
    let x = NodeV::Var('x');
    let sinx = NodeV::Func { func: FuncType::Sin, arg: Box::new(x) };
    let cosx = NodeV::Func { func: FuncType::Cos, arg: Box::new(x) };
    let sf = seq![(TokenType::Mul, sinx), (TokenType::Mul, x)];
    let t = NodeV::Factors(sf);
    // both factors evaluate to themselves
    assert(eval_s(x, consts, ext, fuel) == Ok::<NodeV, ErrV>(x));
    assert(eval_func_v(FuncType::Sin, x) == Ok::<NodeV, ErrV>(sinx));
    assert(eval_s(sinx, consts, ext, fuel) == Ok::<NodeV, ErrV>(sinx));
    assert(eval_entries(sf, consts, ext, fuel, 2) == Ok::<Seq<(TokenType, NodeV)>, ErrV>(
        Seq::empty(),
    ));
    assert(eval_entries(sf, consts, ext, fuel, 1) == Ok::<Seq<(TokenType, NodeV)>, ErrV>(
        seq![(TokenType::Mul, x)] + Seq::empty(),
    ));
    assert(eval_entries(sf, consts, ext, fuel, 0) == Ok::<Seq<(TokenType, NodeV)>, ErrV>(
        seq![(TokenType::Mul, sinx)] + (seq![(TokenType::Mul, x)] + Seq::empty()),
    ));
    let vs = eval_entries(sf, consts, ext, fuel, 0)->Ok_0;
    assert(vs =~= sf);
    // both factors are multiply-tagged
    assert(filter_tag(sf, 2, true) =~= Seq::<(TokenType, NodeV)>::empty());
    assert(filter_tag(sf, 1, true) =~= seq![(TokenType::Mul, x)]);
    assert(filter_tag(sf, 0, true) =~= sf);
    assert(filter_tag(sf, 2, false) =~= Seq::<(TokenType, NodeV)>::empty());
    assert(filter_tag(sf, 1, false) =~= Seq::<(TokenType, NodeV)>::empty());
    assert(filter_tag(sf, 0, false) =~= Seq::<(TokenType, NodeV)>::empty());
    // the two product-rule rows
    let f2 = (fuel - 1) as nat;
    let f3 = (f2 - 1) as nat;
    lemma_diff_sin_unbound(consts, ext, f3);
    assert(diff_s(sinx, 'x', consts, ext, f3) == Ok::<NodeV, ErrV>(cosx));
    assert(diff_s(x, 'x', consts, ext, f3) == Ok::<NodeV, ErrV>(NodeV::Num(one)));
    let row0 = prow(sf, 0, cosx);
    let row1 = prow(sf, 1, NodeV::Num(one));
    assert(row0 =~= seq![(TokenType::Mul, cosx), (TokenType::Mul, x)]);
    assert(row1 =~= seq![(TokenType::Mul, sinx), (TokenType::Mul, NodeV::Num(one))]);
    assert(prule_s(sf, 2, 'x', consts, ext, f2) == Ok::<Seq<(TokenType, NodeV)>, ErrV>(
        Seq::empty(),
    ));
    assert(prule_s(sf, 1, 'x', consts, ext, f2) == Ok::<Seq<(TokenType, NodeV)>, ErrV>(
        seq![(TokenType::Plus, NodeV::Factors(row1))] + Seq::empty(),
    ));
    assert(prule_s(sf, 0, 'x', consts, ext, f2) == Ok::<Seq<(TokenType, NodeV)>, ErrV>(
        seq![(TokenType::Plus, NodeV::Factors(row0))] + (seq![
            (TokenType::Plus, NodeV::Factors(row1)),
        ] + Seq::empty()),
    ));
    let rows = seq![
        (TokenType::Plus, NodeV::Factors(row0)),
        (TokenType::Plus, NodeV::Factors(row1)),
    ];
    assert(seq![(TokenType::Plus, NodeV::Factors(row0))] + (seq![
        (TokenType::Plus, NodeV::Factors(row1)),
    ] + Seq::empty()) =~= rows);
    // no divisors: the fold returns the sum unchanged
    assert(qfold_s(
        NodeV::Factors(filter_tag(vs, 0, true)),
        NodeV::Terms(prule_s(filter_tag(vs, 0, true), 0, 'x', consts, ext, f2)->Ok_0),
        filter_tag(vs, 0, false),
        0,
        'x',
        consts,
        ext,
        f2,
    ) == Ok::<NodeV, ErrV>(NodeV::Terms(rows)));
    assert(diff_s(t, 'x', consts, ext, fuel) == Ok::<NodeV, ErrV>(NodeV::Terms(rows)));
    assert(NodeV::Terms(rows) == NodeV::Terms(
        seq![
            (
                TokenType::Plus,
                NodeV::Factors(seq![(TokenType::Mul, cosx), (TokenType::Mul, x)]),
            ),
            (
                TokenType::Plus,
                NodeV::Factors(seq![(TokenType::Mul, sinx), (TokenType::Mul, NodeV::Num(one))]),
            ),
        ],
    ));
}

/// The product rule on `sin(x) * x`: wherever `x` is unbound, the
/// derivative evaluates to exactly the tree `cos(x)*x + sin(x)`.
pub proof fn lemma_product_rule_shape(
    consts: Seq<(char, Rational)>,
    ext: Option<Seq<(char, Rational)>>,
    fuel: nat,
)
    requires
        fuel >= 3,
        lookup_v(consts, 'x') is None,
        ext matches Some(m) ==> lookup_v(m, 'x') is None,
    ensures
        ({
            let sinx = NodeV::Func { func: FuncType::Sin, arg: Box::new(NodeV::Var('x')) };
            let t = NodeV::Factors(
                seq![(TokenType::Mul, sinx), (TokenType::Mul, NodeV::Var('x'))],
            );
            let cosx = NodeV::Func { func: FuncType::Cos, arg: Box::new(NodeV::Var('x')) };
            let expected = NodeV::Terms(
                seq![
                    (
                        TokenType::Plus,
                        NodeV::Factors(
                            seq![(TokenType::Mul, cosx), (TokenType::Mul, NodeV::Var('x'))],
                        ),
                    ),
                    (TokenType::Plus, sinx),
                ],
            );
            let d = diff_s(t, 'x', consts, ext, fuel);
            d matches Ok(dn) && eval_s(dn, consts, ext, fuel) == Ok::<NodeV, ErrV>(expected)
        }),
{
    let one = rat_one();
    let x = NodeV::Var('x');
    let sinx = NodeV::Func { func: FuncType::Sin, arg: Box::new(x) };
    let cosx = NodeV::Func { func: FuncType::Cos, arg: Box::new(x) };
    lemma_product_rule_derivative(consts, ext, fuel);
    let row0 = seq![(TokenType::Mul, cosx), (TokenType::Mul, x)];
    let row1 = seq![(TokenType::Mul, sinx), (TokenType::Mul, NodeV::Num(one))];
    let rows = seq![
        (TokenType::Plus, NodeV::Factors(row0)),
        (TokenType::Plus, NodeV::Factors(row1)),
    ];
    // the first row keeps its shape, the second collapses to sin(x)
    lemma_symbolic_pair_keeps_shape(cosx, consts, ext, fuel);
    assert(eval_s(NodeV::Factors(row0), consts, ext, fuel) == Ok::<NodeV, ErrV>(
        NodeV::Factors(row0),
    ));
    lemma_one_times_one();
    lemma_one_factor_collapses(sinx, consts, ext, fuel);
    assert(eval_s(NodeV::Factors(row1), consts, ext, fuel) == Ok::<NodeV, ErrV>(sinx));
    assert(eval_entries(rows, consts, ext, fuel, 2) == Ok::<Seq<(TokenType, NodeV)>, ErrV>(
        Seq::empty(),
    ));
    assert(eval_entries(rows, consts, ext, fuel, 1) == Ok::<Seq<(TokenType, NodeV)>, ErrV>(
        seq![(TokenType::Plus, sinx)] + Seq::empty(),
    ));
    assert(eval_entries(rows, consts, ext, fuel, 0) == Ok::<Seq<(TokenType, NodeV)>, ErrV>(
        seq![(TokenType::Plus, NodeV::Factors(row0))] + (seq![(TokenType::Plus, sinx)]
            + Seq::empty()),
    ));
    let rvs = eval_entries(rows, consts, ext, fuel, 0)->Ok_0;
    assert(rvs =~= seq![(TokenType::Plus, NodeV::Factors(row0)), (TokenType::Plus, sinx)]);
    assert(fold_terms(rvs, 0, rat_zero(), Seq::empty()) == fold_terms(
        rvs,
        1,
        rat_zero(),
        Seq::empty().push(rvs[0]),
    ));
    assert(fold_terms(rvs, 1, rat_zero(), Seq::empty().push(rvs[0])) == fold_terms(
        rvs,
        2,
        rat_zero(),
        Seq::empty().push(rvs[0]).push(rvs[1]),
    ));
    let resv = Seq::<(TokenType, NodeV)>::empty().push(rvs[0]).push(rvs[1]);
    assert(resv =~= rvs);
    assert(finalize_terms(rat_zero(), resv) == NodeV::Terms(resv));
    assert(eval_s(NodeV::Terms(rows), consts, ext, fuel) == Ok::<NodeV, ErrV>(
        NodeV::Terms(resv),
    ));
    assert(NodeV::Terms(resv) == NodeV::Terms(
        seq![(TokenType::Plus, NodeV::Factors(row0)), (TokenType::Plus, sinx)],
    ));
}

/// A product chain of a symbolic function application and the unbound
/// symbol keeps its shape under evaluation.
proof fn lemma_symbolic_pair_keeps_shape(
    g: NodeV,
    consts: Seq<(char, Rational)>,
    ext: Option<Seq<(char, Rational)>>,
    fuel: nat,
)
    requires
        lookup_v(consts, 'x') is None,
        ext matches Some(m) ==> lookup_v(m, 'x') is None,
        g matches NodeV::Func { arg, .. } && *arg == NodeV::Var('x'),
    ensures
        eval_s(
            NodeV::Factors(seq![(TokenType::Mul, g), (TokenType::Mul, NodeV::Var('x'))]),
            consts,
            ext,
            fuel,
        ) == Ok::<NodeV, ErrV>(
            NodeV::Factors(seq![(TokenType::Mul, g), (TokenType::Mul, NodeV::Var('x'))]),
        ),
{
    let x = NodeV::Var('x');
    let s = seq![(TokenType::Mul, g), (TokenType::Mul, x)];
    assert(!has_zero_factor(s)) by {
        assert forall|i: int| 0 <= i < s.len() implies !(s[i].0 != TokenType::Div && match s[i].1 {
            NodeV::Num(rr) => rr.num == 0,
            _ => false,
        }) by {
            if i == 0 {
                assert(s[0].1 == g);
            } else {
                assert(s[1].1 == x);
            }
        }
    }
    assert(eval_s(x, consts, ext, fuel) == Ok::<NodeV, ErrV>(x));
    match g {
        NodeV::Func { func, arg } => {
            assert(*arg == x);
            assert(eval_s(*arg, consts, ext, fuel) == Ok::<NodeV, ErrV>(x));
            assert(eval_func_v(func, x) == Ok::<NodeV, ErrV>(
                NodeV::Func { func, arg: Box::new(x) },
            ));
            assert(NodeV::Func { func, arg: Box::new(x) } == g);
        },
        _ => {},
    }
    assert(eval_s(g, consts, ext, fuel) == Ok::<NodeV, ErrV>(g));
    assert(eval_entries(s, consts, ext, fuel, 2) == Ok::<Seq<(TokenType, NodeV)>, ErrV>(
        Seq::empty(),
    ));
    assert(eval_entries(s, consts, ext, fuel, 1) == Ok::<Seq<(TokenType, NodeV)>, ErrV>(
        seq![(TokenType::Mul, x)] + Seq::empty(),
    ));
    assert(eval_entries(s, consts, ext, fuel, 0) == Ok::<Seq<(TokenType, NodeV)>, ErrV>(
        seq![(TokenType::Mul, g)] + (seq![(TokenType::Mul, x)] + Seq::empty()),
    ));
    let vs = eval_entries(s, consts, ext, fuel, 0)->Ok_0;
    assert(vs =~= s);
    assert(flat1(s, 2) =~= Seq::<(TokenType, NodeV)>::empty());
    assert(flat1(s, 1) =~= seq![s[1]] + flat1(s, 2));
    assert(flat1(s, 0) =~= seq![s[0]] + flat1(s, 1));
    assert(flat1(s, 0) =~= s);
    assert(fold_factors(s, 0, rat_one(), Seq::empty()) == fold_factors(
        s,
        1,
        rat_one(),
        Seq::empty().push(s[0]),
    ));
    assert(fold_factors(s, 1, rat_one(), Seq::empty().push(s[0])) == fold_factors(
        s,
        2,
        rat_one(),
        Seq::empty().push(s[0]).push(s[1]),
    ));
    let resv = Seq::<(TokenType, NodeV)>::empty().push(s[0]).push(s[1]);
    assert(resv =~= s);
    assert(finalize_factors(rat_one(), resv) == NodeV::Factors(resv));
}

/// A product chain of a symbolic function application and the literal one
/// collapses to the application alone.
proof fn lemma_one_factor_collapses(
    g: NodeV,
    consts: Seq<(char, Rational)>,
    ext: Option<Seq<(char, Rational)>>,
    fuel: nat,
)
    requires
        lookup_v(consts, 'x') is None,
        ext matches Some(m) ==> lookup_v(m, 'x') is None,
        g matches NodeV::Func { arg, .. } && *arg == NodeV::Var('x'),
        mul_s(rat_one(), rat_one()) == Some(rat_one()),
    ensures
        eval_s(
            NodeV::Factors(seq![(TokenType::Mul, g), (TokenType::Mul, NodeV::Num(rat_one()))]),
            consts,
            ext,
            fuel,
        ) == Ok::<NodeV, ErrV>(g),
{
    let one = rat_one();
    let s = seq![(TokenType::Mul, g), (TokenType::Mul, NodeV::Num(one))];
    assert(!has_zero_factor(s)) by {
        assert forall|i: int| 0 <= i < s.len() implies !(s[i].0 != TokenType::Div && match s[i].1 {
            NodeV::Num(rr) => rr.num == 0,
            _ => false,
        }) by {
            if i == 0 {
                assert(s[0].1 == g);
            } else {
                assert(s[1].1 == NodeV::Num(one));
            }
        }
    }
    match g {
        NodeV::Func { func, arg } => {
            assert(*arg == NodeV::Var('x'));
            assert(eval_s(*arg, consts, ext, fuel) == Ok::<NodeV, ErrV>(NodeV::Var('x')));
            assert(eval_func_v(func, NodeV::Var('x')) == Ok::<NodeV, ErrV>(
                NodeV::Func { func, arg: Box::new(NodeV::Var('x')) },
            ));
            assert(NodeV::Func { func, arg: Box::new(NodeV::Var('x')) } == g);
        },
        _ => {},
    }
    assert(eval_s(g, consts, ext, fuel) == Ok::<NodeV, ErrV>(g));
    assert(eval_s(NodeV::Num(one), consts, ext, fuel) == Ok::<NodeV, ErrV>(NodeV::Num(one)));
    assert(eval_entries(s, consts, ext, fuel, 2) == Ok::<Seq<(TokenType, NodeV)>, ErrV>(
        Seq::empty(),
    ));
    assert(eval_entries(s, consts, ext, fuel, 1) == Ok::<Seq<(TokenType, NodeV)>, ErrV>(
        seq![(TokenType::Mul, NodeV::Num(one))] + Seq::empty(),
    ));
    assert(eval_entries(s, consts, ext, fuel, 0) == Ok::<Seq<(TokenType, NodeV)>, ErrV>(
        seq![(TokenType::Mul, g)] + (seq![(TokenType::Mul, NodeV::Num(one))] + Seq::empty()),
    ));
    let vs = eval_entries(s, consts, ext, fuel, 0)->Ok_0;
    assert(vs =~= s);
    assert(flat1(s, 2) =~= Seq::<(TokenType, NodeV)>::empty());
    assert(flat1(s, 1) =~= seq![s[1]] + flat1(s, 2));
    assert(flat1(s, 0) =~= seq![s[0]] + flat1(s, 1));
    assert(flat1(s, 0) =~= s);
    assert(fold_factors(s, 0, one, Seq::empty()) == fold_factors(
        s,
        1,
        one,
        Seq::empty().push(s[0]),
    ));
    assert(fold_factors(s, 1, one, Seq::empty().push(s[0])) == fold_factors(
        s,
        2,
        one,
        Seq::empty().push(s[0]),
    ));
    let resv = Seq::<(TokenType, NodeV)>::empty().push(s[0]);
    assert(resv =~= seq![(TokenType::Mul, g)]);
    assert(finalize_factors(one, resv) == g);
}

/// A multiply-tagged literal zero short-circuits a whole product chain to
/// zero, whatever else stands in the chain — even elements whose own
/// evaluation would fail.
pub proof fn lemma_zero_factor_short_circuit(
    s: Seq<(TokenType, NodeV)>,
    consts: Seq<(char, Rational)>,
    ext: Option<Seq<(char, Rational)>>,
    fuel: nat,
)
    requires
        has_zero_factor(s),
    ensures
        eval_s(NodeV::Factors(s), consts, ext, fuel) == Ok::<NodeV, ErrV>(
            NodeV::Num(rat_zero()),
        ),
{
}

/// Zero to the power zero is undefined: whenever base and exponent both
/// evaluate to the number zero, the power evaluates to the undefined error.
pub proof fn lemma_zero_power_zero(
    b: NodeV,
    e: NodeV,
    bn: Rational,
    en: Rational,
    consts: Seq<(char, Rational)>,
    ext: Option<Seq<(char, Rational)>>,
    fuel: nat,
)
    requires
        eval_s(b, consts, ext, fuel) == Ok::<NodeV, ErrV>(NodeV::Num(bn)),
        eval_s(e, consts, ext, fuel) == Ok::<NodeV, ErrV>(NodeV::Num(en)),
        bn.num == 0,
        en.num == 0,
    ensures
        eval_s(
            NodeV::Exponent { base: Box::new(b), exponent: Box::new(e) },
            consts,
            ext,
            fuel,
        ) == Err::<NodeV, ErrV>(ErrV::Undefined),
{
}

/// The cosecant has a pole wherever its numeric argument is an exact whole
/// multiple of the engine's constant for pi: evaluation fails as undefined.
pub proof fn lemma_cosecant_pole(
    arg: NodeV,
    r: Rational,
    consts: Seq<(char, Rational)>,
    ext: Option<Seq<(char, Rational)>>,
    fuel: nat,
)
    requires
        eval_s(arg, consts, ext, fuel) == Ok::<NodeV, ErrV>(NodeV::Num(r)),
        div_s(r, pi_rat()) matches Some(q) && q.is_whole_s(),
    ensures
        eval_s(
            NodeV::Func { func: FuncType::Csc, arg: Box::new(arg) },
            consts,
            ext,
            fuel,
        ) == Err::<NodeV, ErrV>(ErrV::Undefined),
{
}

/// A positive fraction divided by itself is exactly one (within machine
/// range).
pub proof fn lemma_div_self(r: Rational)
    requires
        r.wf(),
        r.num > 0,
        crate::rational::fits_i128(r.num * r.den),
    ensures
        div_s(r, r) == Some(rat_one()),
{
    let n = r.num * r.den;
    assert(n >= 1) by (nonlinear_arith)
        requires
            r.num >= 1,
            r.den >= 1,
            n == r.num * r.den,
    ;
    crate::rational::lemma_gcd(n as nat, n as nat);
    vstd::arithmetic::div_mod::lemma_mod_self_0(n);
    assert(crate::rational::gcd_nat(n as nat, n as nat) == crate::rational::gcd_nat(
        n as nat,
        (n % n) as nat,
    ));
    assert(crate::rational::gcd_nat(n as nat, 0nat) == n as nat);
    vstd::arithmetic::div_mod::lemma_div_by_self(n);
    assert(crate::rational::reduce_s(n, n) == Some(rat_one()));
    assert(r.den * r.num == n) by (nonlinear_arith)
        requires
            n == r.num * r.den,
    ;
}

/// The engine's constant for pi itself sits on the cosecant pole: the
/// cosecant of that number is undefined.
pub proof fn lemma_cosecant_pole_at_pi(
    consts: Seq<(char, Rational)>,
    ext: Option<Seq<(char, Rational)>>,
    fuel: nat,
)
    ensures
        eval_s(
            NodeV::Func { func: FuncType::Csc, arg: Box::new(NodeV::Num(pi_rat())) },
            consts,
            ext,
            fuel,
        ) == Err::<NodeV, ErrV>(ErrV::Undefined),
{
    lemma_div_self(pi_rat());
    assert(rat_one().is_whole_s());
    lemma_cosecant_pole(NodeV::Num(pi_rat()), pi_rat(), consts, ext, fuel);
}

/// The natural logarithm of the number zero fails toward negative
/// infinity; the base-ten logarithm of zero fails toward positive infinity.
pub proof fn lemma_log_of_zero(
    arg: NodeV,
    r: Rational,
    consts: Seq<(char, Rational)>,
    ext: Option<Seq<(char, Rational)>>,
    fuel: nat,
)
    requires
        eval_s(arg, consts, ext, fuel) == Ok::<NodeV, ErrV>(NodeV::Num(r)),
        r.num == 0,
    ensures
        eval_s(
            NodeV::Func { func: FuncType::Ln, arg: Box::new(arg) },
            consts,
            ext,
            fuel,
        ) == Err::<NodeV, ErrV>(ErrV::NegInfinity),
        eval_s(
            NodeV::Func { func: FuncType::Log, arg: Box::new(arg) },
            consts,
            ext,
            fuel,
        ) == Err::<NodeV, ErrV>(ErrV::Infinity),
{
}

/// Evaluation is idempotent on every input that evaluates to a number:
/// simplifying the result again changes nothing.  (On symbolic results this
/// can fail; a product whose folded scalar became a literal zero next to an
/// unresolved factor re-evaluates to plain zero.)
pub proof fn lemma_eval_to_number_idempotent(
    t: NodeV,
    r: Rational,
    consts: Seq<(char, Rational)>,
    ext: Option<Seq<(char, Rational)>>,
    fuel: nat,
)
    requires
        eval_s(t, consts, ext, fuel) == Ok::<NodeV, ErrV>(NodeV::Num(r)),
    ensures
        eval_s(NodeV::Num(r), consts, ext, fuel) == eval_s(t, consts, ext, fuel),
{
}

/// An equation has no derivative: differentiation of an equation node
/// fails, whatever its sides hold.
pub proof fn lemma_equation_has_no_derivative(
    lhs: NodeV,
    rhs: NodeV,
    var: char,
    consts: Seq<(char, Rational)>,
    ext: Option<Seq<(char, Rational)>>,
    fuel: nat,
)
    ensures
        diff_s(
            NodeV::Equation { lhs: Box::new(lhs), rhs: Box::new(rhs) },
            var,
            consts,
            ext,
            fuel,
        ) == Err::<NodeV, ErrV>(ErrV::EquationDiff),
{
}

/// The derivative of a constant is zero, and the derivative of the
/// variable of differentiation is one; any other symbol is held constant.
pub proof fn lemma_base_derivatives(
    r: Rational,
    c: char,
    var: char,
    consts: Seq<(char, Rational)>,
    ext: Option<Seq<(char, Rational)>>,
    fuel: nat,
)
    ensures
        diff_s(NodeV::Num(r), var, consts, ext, fuel) == Ok::<NodeV, ErrV>(
            NodeV::Num(Rational { num: 0, den: 1 }),
        ),
        diff_s(NodeV::Var(c), var, consts, ext, fuel) == Ok::<NodeV, ErrV>(
            NodeV::Num(
                if c == var {
                    Rational { num: 1, den: 1 }
                } else {
                    Rational { num: 0, den: 1 }
                },
            ),
        ),
{
}

/// Rational reduction preserves the denoted value: what `reduce` returns
/// stands for exactly the fraction it was given.
pub proof fn lemma_reduction_exact(n: int, d: int)
    requires
        d != 0,
        crate::rational::fits_i128(n),
        crate::rational::fits_i128(d),
        crate::rational::reduce_s(n, d) is Some,
    ensures
        crate::rational::reduce_s(n, d)->0.num * d == n * (crate::rational::reduce_s(n, d)->0.den
            as int),
        crate::rational::reduce_s(n, d)->0.wf(),
{
    crate::rational::lemma_reduce_value(n, d);
}

} // verus!
