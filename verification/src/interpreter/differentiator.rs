//! The symbolic differentiator.

use crate::interpreter::{
    entries_wf, err_to_interp, lemma_entries_wf_1, lemma_entries_wf_2, lemma_entries_wf_3,
    lemma_wf_exponent, lemma_wf_factors, lemma_wf_func, lemma_wf_num, lemma_wf_terms, node_wf,
    opt_env, opt_env_wf, res_rel, Bindings, Interpreter, InterpreterError, InterpreterResult,
};
use crate::node::{
    chain1, chain2, chain3, entries_view, lemma_entries_view0, node_view, Node, NodeV,
};
use crate::rational::Rational;
use crate::semantics::{
    const_table, dfunc_v, diff_exponent_s, diff_s, dterms_s, eval_s, filter_tag, prow, prule_s,
    qfold_s, quotient_expr, quotient_step, rat_neg_one, rat_two, ErrV,
};
use crate::token::{FuncType, TokenType};
use vstd::prelude::*;

verus! {

/// The differentiator's own failure.
#[derive(Clone, Copy, Debug, PartialEq, Eq, Structural)]
pub enum DifferentiatorError {
    /// An equation has no derivative.
    Equation,
}

impl Interpreter {
    /// The symbolic derivative of `node` with respect to `var`.  The
    /// substitutions only feed the evaluation steps that simplify subtrees;
    /// they never resolve `var` itself.
    pub fn differentiate(&self, node: &Node, var: char, ext: Option<&Bindings>) -> (r:
        InterpreterResult<Node>)
        requires
            self.wf(),
            node_wf(node@),
            opt_env_wf(opt_env(ext)),
        ensures
            res_rel(r, diff_s(node@, var, const_table(), opt_env(ext), u64::MAX as nat)),
            r matches Ok(n) ==> node_wf(n@),
    {
        self.differentiate_at(node, var, ext, u64::MAX)
    }

    /// Differentiation with an explicit fuel supply.
    #[verifier::loop_isolation(false)]
    #[verifier::rlimit(100)]
    pub fn differentiate_at(
        &self,
        node: &Node,
        var: char,
        ext: Option<&Bindings>,
        fuel: u64,
    ) -> (r: InterpreterResult<Node>)
        requires
            self.wf(),
            node_wf(node@),
            opt_env_wf(opt_env(ext)),
        ensures
            res_rel(r, diff_s(node@, var, const_table(), opt_env(ext), fuel as nat)),
            r matches Ok(n) ==> node_wf(n@),
        decreases fuel, node@, 2int,
    {
        let ghost ct = const_table();
        let ghost env = opt_env(ext);
        match node {
            Node::Num(_) => Ok(Node::Num(Rational::zero())),
            Node::Var(c) => Ok(
                Node::Num(
                    if *c == var {
                        Rational::one()
                    } else {
                        Rational::zero()
                    },
                ),
            ),
            Node::Func { func, arg } => {
                let va = match self.visit_at(&**arg, ext, fuel) {
                    Ok(v) => v,
                    Err(e) => {
                        return Err(e);
                    },
                };
                if fuel == 0 {
                    return Err(InterpreterError::Overflow);
                }
                let da = match self.differentiate_at(&va, var, ext, fuel - 1) {
                    Ok(v) => v,
                    Err(e) => {
                        return Err(e);
                    },
                };
                let tbl = dfunc(*func, va);
                let constructed = Node::Factors(
                    chain2(TokenType::Mul, da, TokenType::Mul, tbl),
                );
                self.visit_at(&constructed, ext, fuel - 1)
            },
            Node::Exponent { base, exponent } => {
                let vb = match self.visit_at(&**base, ext, fuel) {
                    Ok(v) => v,
                    Err(e) => {
                        return Err(e);
                    },
                };
                let ve = match self.visit_at(&**exponent, ext, fuel) {
                    Ok(v) => v,
                    Err(e) => {
                        return Err(e);
                    },
                };
                if fuel == 0 {
                    return Err(InterpreterError::Overflow);
                }
                self.differentiate_exponent(node, vb, ve, var, ext, fuel - 1)
            },
            Node::Factors(fs) => self.differentiate_factors(fs, var, ext, fuel),
            Node::Terms(ts) => self.differentiate_terms(ts, var, ext, fuel),
            Node::Derivative { derivative, var: var2 } => {
                let d1 = match self.differentiate_at(&**derivative, *var2, ext, fuel) {
                    Ok(v) => v,
                    Err(e) => {
                        return Err(e);
                    },
                };
                if fuel == 0 {
                    return Err(InterpreterError::Overflow);
                }
                let v1 = match self.visit_at(&d1, ext, fuel - 1) {
                    Ok(v) => v,
                    Err(e) => {
                        return Err(e);
                    },
                };
                self.differentiate_at(&v1, var, ext, fuel - 1)
            },
            Node::Equation { .. } => Err(
                InterpreterError::DifferentiatorError(DifferentiatorError::Equation),
            ),
        }
    }

    /// The product chain rule: the generalized product rule over the
    /// multiply-tagged factors, then the sequential quotient rule over the
    /// divide-tagged ones.
    #[verifier::loop_isolation(false)]
    #[verifier::rlimit(100)]
    fn differentiate_factors(
        &self,
        fs: &Vec<(TokenType, Node)>,
        var: char,
        ext: Option<&Bindings>,
        fuel: u64,
    ) -> (r: InterpreterResult<Node>)
        requires
            self.wf(),
            node_wf(NodeV::Factors(entries_view(*fs, 0))),
            opt_env_wf(opt_env(ext)),
        ensures
            res_rel(
                r,
                diff_s(
                    NodeV::Factors(entries_view(*fs, 0)),
                    var,
                    const_table(),
                    opt_env(ext),
                    fuel as nat,
                ),
            ),
            r matches Ok(n) ==> node_wf(n@),
        decreases fuel, NodeV::Factors(entries_view(*fs, 0)), 1int,
    {
        let ghost ct = const_table();
        let ghost env = opt_env(ext);
        let ghost node_v = NodeV::Factors(entries_view(*fs, 0));

                proof {
                    let m = node_v;
                    let sv0 = entries_view(*fs, 0);
                    assert(decreases_to!(m => sv0));
                }
                let vs = match self.visit_entries(fs, ext, fuel) {
                    Ok(v) => v,
                    Err(e) => {
                        return Err(e);
                    },
                };
                let ghost vsv = entries_view(vs, 0);
                proof {
                    lemma_entries_view0(vs);
                }
                // partition by tag, keeping order
                let mut muls: Vec<(TokenType, Node)> = Vec::new();
                let mut divs: Vec<(TokenType, Node)> = Vec::new();
                let mut i: usize = 0;
                proof {
                    lemma_entries_view0(muls);
                    lemma_entries_view0(divs);
                    assert(entries_view(muls, 0) + filter_tag(vsv, 0, true) =~= filter_tag(
                        vsv,
                        0,
                        true,
                    ));
                    assert(entries_view(divs, 0) + filter_tag(vsv, 0, false) =~= filter_tag(
                        vsv,
                        0,
                        false,
                    ));
                }
                while i < vs.len()
                    invariant
                        i <= vs@.len(),
                        vsv == entries_view(vs, 0),
                        vsv.len() == vs@.len(),
                        entries_wf(vsv),
                        forall|j: int|
                            0 <= j < vs@.len() ==> vsv[j] == (vs@[j].0, node_view(vs@[j].1)),
                        entries_wf(entries_view(muls, 0)),
                        entries_wf(entries_view(divs, 0)),
                        filter_tag(vsv, 0, true) == entries_view(muls, 0) + filter_tag(
                            vsv,
                            i as int,
                            true,
                        ),
                        filter_tag(vsv, 0, false) == entries_view(divs, 0) + filter_tag(
                            vsv,
                            i as int,
                            false,
                        ),
                    decreases vs@.len() - i,
                {
                    let ghost old_muls = entries_view(muls, 0);
                    let ghost old_divs = entries_view(divs, 0);
                    proof {
                        lemma_entries_view0(muls);
                        lemma_entries_view0(divs);
                    }
                    let d = vs[i].1.duplicate();
                    if vs[i].0 == TokenType::Mul {
                        muls.push((vs[i].0, d));
                        proof {
                            lemma_entries_view0(muls);
                            assert(entries_view(muls, 0) =~= old_muls.push(vsv[i as int]));
                            assert(old_muls.push(vsv[i as int]) + filter_tag(vsv, i as int + 1, true)
                                =~= old_muls + (seq![vsv[i as int]] + filter_tag(
                                vsv,
                                i as int + 1,
                                true,
                            )));
                            assert(Seq::<(TokenType, NodeV)>::empty() + filter_tag(
                                vsv,
                                i as int + 1,
                                false,
                            ) =~= filter_tag(vsv, i as int + 1, false));
                        }
                    } else {
                        divs.push((vs[i].0, d));
                        proof {
                            lemma_entries_view0(divs);
                            assert(entries_view(divs, 0) =~= old_divs.push(vsv[i as int]));
                            assert(old_divs.push(vsv[i as int]) + filter_tag(
                                vsv,
                                i as int + 1,
                                false,
                            ) =~= old_divs + (seq![vsv[i as int]] + filter_tag(
                                vsv,
                                i as int + 1,
                                false,
                            )));
                            assert(Seq::<(TokenType, NodeV)>::empty() + filter_tag(
                                vsv,
                                i as int + 1,
                                true,
                            ) =~= filter_tag(vsv, i as int + 1, true));
                        }
                    }
                    i = i + 1;
                }
                let ghost mulsv = entries_view(muls, 0);
                let ghost divsv = entries_view(divs, 0);
                proof {
                    assert(filter_tag(vsv, vs@.len() as int, true) =~= Seq::<
                        (TokenType, NodeV),
                    >::empty());
                    assert(filter_tag(vsv, vs@.len() as int, false) =~= Seq::<
                        (TokenType, NodeV),
                    >::empty());
                    assert(mulsv + Seq::<(TokenType, NodeV)>::empty() =~= mulsv);
                    assert(divsv + Seq::<(TokenType, NodeV)>::empty() =~= divsv);
                    assert(mulsv == filter_tag(vsv, 0, true));
                    assert(divsv == filter_tag(vsv, 0, false));
                    lemma_entries_view0(muls);
                    lemma_entries_view0(divs);
                }
                if fuel == 0 {
                    return Err(InterpreterError::Overflow);
                }
                let f2 = fuel - 1;
                // the generalized product rule over the multiply-tagged group
                let mut rows: Vec<(TokenType, Node)> = Vec::new();
                let mut i1: usize = 0;
                proof {
                    lemma_entries_view0(rows);
                    assert(entries_view(rows, 0) + prule_s(mulsv, 0, var, ct, env, f2 as nat)->Ok_0
                        =~= prule_s(mulsv, 0, var, ct, env, f2 as nat)->Ok_0);
                }
                while i1 < muls.len()
                    invariant
                        self.wf(),
                        opt_env_wf(env),
                        env == opt_env(ext),
                        ct == const_table(),
                        i1 <= muls@.len(),
                        mulsv == entries_view(muls, 0),
                        mulsv.len() == muls@.len(),
                        entries_wf(mulsv),
                        forall|j: int|
                            0 <= j < muls@.len() ==> mulsv[j] == (muls@[j].0, node_view(muls@[j].1)),
                        entries_wf(entries_view(rows, 0)),
                        prule_s(mulsv, 0, var, ct, env, f2 as nat) == (match prule_s(
                            mulsv,
                            i1 as int,
                            var,
                            ct,
                            env,
                            f2 as nat,
                        ) {
                            Ok(rest) => Ok::<Seq<(TokenType, NodeV)>, ErrV>(entries_view(rows, 0)
                                + rest),
                            Err(e) => Err(e),
                        }),
                    decreases muls@.len() - i1,
                {
                    if f2 == 0 {
                        return Err(InterpreterError::Overflow);
                    }
                    let d = match self.differentiate_at(&muls[i1].1, var, ext, f2 - 1) {
                        Ok(v) => v,
                        Err(e) => {
                            return Err(e);
                        },
                    };
                    let ghost dv = d@;
                    // the row: every factor unchanged but the i1-th
                    let mut row: Vec<(TokenType, Node)> = Vec::new();
                    let mut j: usize = 0;
                    while j < muls.len()
                        invariant
                            j <= muls@.len(),
                            i1 < muls@.len(),
                            mulsv == entries_view(muls, 0),
                            mulsv.len() == muls@.len(),
                            entries_wf(mulsv),
                            node_wf(dv),
                            forall|jj: int|
                                0 <= jj < muls@.len() ==> mulsv[jj] == (
                                    muls@[jj].0,
                                    node_view(muls@[jj].1),
                                ),
                            entries_view(row, 0).len() == j as int,
                            forall|jj: int|
                                0 <= jj < j ==> entries_view(row, 0)[jj] == prow(
                                    mulsv,
                                    i1 as int,
                                    dv,
                                )[jj],
                            d@ == dv,
                        decreases muls@.len() - j,
                    {
                        let ghost old_row = entries_view(row, 0);
                        proof {
                            lemma_entries_view0(row);
                        }
                        if j == i1 {
                            let dd = d.duplicate();
                            row.push((TokenType::Mul, dd));
                        } else {
                            let md = muls[j].1.duplicate();
                            row.push((TokenType::Mul, md));
                        }
                        proof {
                            lemma_entries_view0(row);
                            assert forall|jj: int|
                                0 <= jj < j + 1 implies entries_view(row, 0)[jj] == prow(
                                mulsv,
                                i1 as int,
                                dv,
                            )[jj] by {
                                if jj < j {
                                    assert(entries_view(row, 0)[jj] == old_row[jj]);
                                }
                            }
                        }
                        j = j + 1;
                    }
                    proof {
                        assert(entries_view(row, 0) =~= prow(mulsv, i1 as int, dv));
                    }
                    let ghost old_rows = entries_view(rows, 0);
                    proof {
                        lemma_entries_view0(rows);
                    }
                    rows.push((TokenType::Plus, Node::Factors(row)));
                    proof {
                        lemma_entries_view0(rows);
                        assert(entries_view(rows, 0) =~= old_rows.push((
                            TokenType::Plus,
                            NodeV::Factors(prow(mulsv, i1 as int, dv)),
                        )));
                        let rest2 = prule_s(mulsv, i1 as int + 1, var, ct, env, f2 as nat);
                        match rest2 {
                            Ok(r2) => {
                                assert(old_rows + (seq![
                                    (TokenType::Plus, NodeV::Factors(prow(mulsv, i1 as int, dv))),
                                ] + r2) =~= entries_view(rows, 0) + r2);
                            },
                            Err(_) => {},
                        }
                    }
                    i1 = i1 + 1;
                }
                proof {
                    assert(prule_s(mulsv, muls@.len() as int, var, ct, env, f2 as nat) == Ok::<
                        Seq<(TokenType, NodeV)>,
                        ErrV,
                    >(Seq::empty()));
                    assert(entries_view(rows, 0) + Seq::<(TokenType, NodeV)>::empty()
                        =~= entries_view(rows, 0));
                }
                // fold the divide-tagged group in by the quotient rule,
                // carrying the running expression and its derivative
                proof {
                    lemma_wf_factors(mulsv);
                }
                let mut res_expr: Node = Node::Factors(muls);
                let mut res_deriv: Node = Node::Terms(rows);
                let mut jd: usize = 0;
                while jd < divs.len()
                    invariant
                        self.wf(),
                        opt_env_wf(env),
                        env == opt_env(ext),
                        ct == const_table(),
                        jd <= divs@.len(),
                        divsv == entries_view(divs, 0),
                        divsv.len() == divs@.len(),
                        entries_wf(divsv),
                        forall|j: int|
                            0 <= j < divs@.len() ==> divsv[j] == (divs@[j].0, node_view(divs@[j].1)),
                        node_wf(res_expr@),
                        node_wf(res_deriv@),
                        qfold_s(
                            res_expr@,
                            res_deriv@,
                            divsv,
                            jd as int,
                            var,
                            ct,
                            env,
                            f2 as nat,
                        ) == diff_s(node_v, var, ct, env, fuel as nat),
                    decreases divs@.len() - jd,
                {
                    if f2 == 0 {
                        return Err(InterpreterError::Overflow);
                    }
                    let dd = match self.differentiate_at(&divs[jd].1, var, ext, f2 - 1) {
                        Ok(v) => v,
                        Err(e) => {
                            return Err(e);
                        },
                    };
                    let d1 = divs[jd].1.duplicate();
                    let d2 = divs[jd].1.duplicate();
                    let d3 = divs[jd].1.duplicate();
                    let prev_expr = res_expr;
                    let prev_deriv = res_deriv;
                    let ghost pev = prev_expr@;
                    let ghost pdv = prev_deriv@;
                    let ghost dj = divsv[jd as int].1;
                    let ghost ddv = dd@;
                    let expr_copy = prev_expr.duplicate();
                    let left = Node::Factors(
                        chain2(TokenType::Mul, prev_deriv, TokenType::Mul, d1),
                    );
                    let right = Node::Factors(
                        chain2(TokenType::Mul, dd, TokenType::Mul, expr_copy),
                    );
                    proof {
                        assert(d1@ == dj);
                        assert(left@ == NodeV::Factors(
                            seq![(TokenType::Mul, pdv), (TokenType::Mul, dj)],
                        ));
                        assert(right@ == NodeV::Factors(
                            seq![(TokenType::Mul, ddv), (TokenType::Mul, pev)],
                        ));
                        lemma_entries_wf_2(TokenType::Mul, pdv, TokenType::Mul, dj);
                        lemma_entries_wf_2(TokenType::Mul, ddv, TokenType::Mul, pev);
                        lemma_wf_factors((left@)->Factors_0);
                        lemma_wf_factors((right@)->Factors_0);
                    }
                    let numer = Node::Terms(
                        chain2(TokenType::Plus, left, TokenType::Minus, right),
                    );
                    let twon = Node::Num(Rational { num: 2, den: 1 });
                    proof {
                        assert(numer@ == NodeV::Terms(
                            seq![
                                (
                                    TokenType::Plus,
                                    NodeV::Factors(
                                        seq![(TokenType::Mul, pdv), (TokenType::Mul, dj)],
                                    ),
                                ),
                                (
                                    TokenType::Minus,
                                    NodeV::Factors(
                                        seq![(TokenType::Mul, ddv), (TokenType::Mul, pev)],
                                    ),
                                ),
                            ],
                        ));
                        assert(twon@ == NodeV::Num(rat_two()));
                        lemma_entries_wf_2(
                            TokenType::Plus,
                            NodeV::Factors(seq![(TokenType::Mul, pdv), (TokenType::Mul, dj)]),
                            TokenType::Minus,
                            NodeV::Factors(seq![(TokenType::Mul, ddv), (TokenType::Mul, pev)]),
                        );
                        lemma_wf_terms((numer@)->Terms_0);
                        lemma_wf_num(rat_two());
                    }
                    let denom = Node::Exponent { base: Box::new(d2), exponent: Box::new(twon) };
                    proof {
                        assert(denom@ == NodeV::Exponent {
                            base: Box::new(dj),
                            exponent: Box::new(NodeV::Num(rat_two())),
                        });
                        lemma_wf_exponent(dj, NodeV::Num(rat_two()));
                        lemma_entries_wf_2(TokenType::Mul, numer@, TokenType::Div, denom@);
                    }
                    res_deriv = Node::Factors(
                        chain2(TokenType::Mul, numer, TokenType::Div, denom),
                    );
                    proof {
                        lemma_entries_wf_2(TokenType::Mul, pev, TokenType::Div, dj);
                    }
                    res_expr = Node::Factors(
                        chain2(TokenType::Mul, prev_expr, TokenType::Div, d3),
                    );
                    proof {
                        lemma_wf_factors((res_deriv@)->Factors_0);
                        lemma_wf_factors((res_expr@)->Factors_0);
                        assert(res_deriv@ == quotient_step(pev, pdv, dj, ddv));
                        assert(res_expr@ == quotient_expr(pev, dj));
                        assert(ddv == diff_s(dj, var, ct, env, (f2 - 1) as nat)->Ok_0);
                        assert(qfold_s(pev, pdv, divsv, jd as int, var, ct, env, f2 as nat)
                            == qfold_s(
                            res_expr@,
                            res_deriv@,
                            divsv,
                            jd as int + 1,
                            var,
                            ct,
                            env,
                            f2 as nat,
                        ));
                    }
                    jd = jd + 1;
                }
                Ok(res_deriv)
            
    }

    /// The sum rule: differentiate each evaluated term, keeping its tag.
    #[verifier::loop_isolation(false)]
    #[verifier::rlimit(100)]
    fn differentiate_terms(
        &self,
        ts: &Vec<(TokenType, Node)>,
        var: char,
        ext: Option<&Bindings>,
        fuel: u64,
    ) -> (r: InterpreterResult<Node>)
        requires
            self.wf(),
            node_wf(NodeV::Terms(entries_view(*ts, 0))),
            opt_env_wf(opt_env(ext)),
        ensures
            res_rel(
                r,
                diff_s(
                    NodeV::Terms(entries_view(*ts, 0)),
                    var,
                    const_table(),
                    opt_env(ext),
                    fuel as nat,
                ),
            ),
            r matches Ok(n) ==> node_wf(n@),
        decreases fuel, NodeV::Terms(entries_view(*ts, 0)), 1int,
    {
        let ghost ct = const_table();
        let ghost env = opt_env(ext);
        let ghost node_v = NodeV::Terms(entries_view(*ts, 0));

                let ghost s = entries_view(*ts, 0);
                proof {
                    lemma_entries_view0(*ts);
                    let m = node_v;
                    assert(decreases_to!(m => s));
                }
                let mut rows: Vec<(TokenType, Node)> = Vec::new();
                let mut i: usize = 0;
                proof {
                    lemma_entries_view0(rows);
                    assert(entries_view(rows, 0) + dterms_s(s, 0, var, ct, env, fuel as nat)->Ok_0
                        =~= dterms_s(s, 0, var, ct, env, fuel as nat)->Ok_0);
                }
                while i < ts.len()
                    invariant
                        self.wf(),
                        opt_env_wf(env),
                        env == opt_env(ext),
                        ct == const_table(),
                        i <= ts@.len(),
                        s == entries_view(*ts, 0),
                        s.len() == ts@.len(),
                        entries_wf(s),
                        forall|j: int| 0 <= j < ts@.len() ==> s[j] == (ts@[j].0, node_view(ts@[j].1)),
                        entries_wf(entries_view(rows, 0)),
                        dterms_s(s, 0, var, ct, env, fuel as nat) == (match dterms_s(
                            s,
                            i as int,
                            var,
                            ct,
                            env,
                            fuel as nat,
                        ) {
                            Ok(rest) => Ok::<Seq<(TokenType, NodeV)>, ErrV>(entries_view(rows, 0)
                                + rest),
                            Err(e) => Err(e),
                        }),
                    decreases ts@.len() - i,
                {
                    proof {
                        let si = s[i as int];
                        assert(decreases_to!(s => si));
                    }
                    let vt = match self.visit_at(&ts[i].1, ext, fuel) {
                        Ok(v) => v,
                        Err(e) => {
                            return Err(e);
                        },
                    };
                    if fuel == 0 {
                        return Err(InterpreterError::Overflow);
                    }
                    let dt = match self.differentiate_at(&vt, var, ext, fuel - 1) {
                        Ok(v) => v,
                        Err(e) => {
                            return Err(e);
                        },
                    };
                    let ghost old_rows = entries_view(rows, 0);
                    proof {
                        lemma_entries_view0(rows);
                    }
                    rows.push((ts[i].0, dt));
                    proof {
                        lemma_entries_view0(rows);
                        assert(entries_view(rows, 0) =~= old_rows.push((s[i as int].0, dt@)));
                        let rest2 = dterms_s(s, i as int + 1, var, ct, env, fuel as nat);
                        match rest2 {
                            Ok(r2) => {
                                assert(old_rows + (seq![(s[i as int].0, dt@)] + r2)
                                    =~= entries_view(rows, 0) + r2);
                            },
                            Err(_) => {},
                        }
                    }
                    i = i + 1;
                }
                proof {
                    assert(dterms_s(s, ts@.len() as int, var, ct, env, fuel as nat) == Ok::<
                        Seq<(TokenType, NodeV)>,
                        ErrV,
                    >(Seq::empty()));
                    assert(entries_view(rows, 0) + Seq::<(TokenType, NodeV)>::empty()
                        =~= entries_view(rows, 0));
                }
                Ok(Node::Terms(rows))
            
    }

    /// The power rules, on the evaluated base and exponent; `node` is the
    /// original power node.
    fn differentiate_exponent(
        &self,
        node: &Node,
        vb: Node,
        ve: Node,
        var: char,
        ext: Option<&Bindings>,
        fuel: u64,
    ) -> (r: InterpreterResult<Node>)
        requires
            self.wf(),
            node_wf(node@),
            node_wf(vb@),
            node_wf(ve@),
            opt_env_wf(opt_env(ext)),
        ensures
            res_rel(
                r,
                diff_exponent_s(node@, vb@, ve@, var, const_table(), opt_env(ext), fuel as nat),
            ),
            r matches Ok(n) ==> node_wf(n@),
        decreases fuel, node@, 0int,
    {
        if fuel == 0 {
            return Err(InterpreterError::Overflow);
        }
        let is_num_e: bool = match &ve {
            Node::Num(_) => true,
            _ => false,
        };
        if is_num_e {
            let k: Rational = match &ve {
                Node::Num(k0) => *k0,
                _ => unreached(),
            };
            let db = match self.differentiate_at(&vb, var, ext, fuel - 1) {
                Ok(v) => v,
                Err(e) => {
                    return Err(e);
                },
            };
            let ghost vbv = vb@;
            let ghost dbv = db@;
            match k.sub(Rational::one()) {
                Some(km1) => {
                    let km1n = Node::Num(km1);
                    proof {
                        assert(km1n@ == NodeV::Num(km1));
                    }
                    let powered = Node::Exponent {
                        base: Box::new(vb),
                        exponent: Box::new(km1n),
                    };
                    let kn = Node::Num(k);
                    proof {
                        assert(powered@ == NodeV::Exponent {
                            base: Box::new(vbv),
                            exponent: Box::new(NodeV::Num(km1)),
                        });
                        assert(kn@ == NodeV::Num(k));
                        lemma_wf_num(km1);
                        lemma_wf_num(k);
                        lemma_wf_exponent(vbv, NodeV::Num(km1));
                        lemma_entries_wf_3(
                            TokenType::Mul,
                            dbv,
                            TokenType::Mul,
                            NodeV::Num(k),
                            TokenType::Mul,
                            powered@,
                        );
                    }
                    let out = Node::Factors(
                        chain3(
                            TokenType::Mul,
                            db,
                            TokenType::Mul,
                            kn,
                            TokenType::Mul,
                            powered,
                        ),
                    );
                    proof {
                        lemma_wf_factors((out@)->Factors_0);
                    }
                    Ok(out)
                },
                None => Err(InterpreterError::Overflow),
            }
        } else {
            let is_num_b: bool = match &vb {
                Node::Num(_) => true,
                _ => false,
            };
            if is_num_b {
                let a: Rational = match &vb {
                    Node::Num(a0) => *a0,
                    _ => unreached(),
                };
                let de = match self.differentiate_at(&ve, var, ext, fuel - 1) {
                    Ok(v) => v,
                    Err(e) => {
                        return Err(e);
                    },
                };
                let ghost dev = de@;
                let an = Node::Num(a);
                proof {
                    assert(an@ == NodeV::Num(a));
                }
                let lna = Node::Func { func: FuncType::Ln, arg: Box::new(an) };
                proof {
                    assert(lna@ == NodeV::Func { func: FuncType::Ln, arg: Box::new(NodeV::Num(a)) });
                    lemma_wf_num(a);
                    lemma_wf_func(FuncType::Ln, NodeV::Num(a));
                    lemma_entries_wf_3(
                        TokenType::Mul,
                        dev,
                        TokenType::Mul,
                        node@,
                        TokenType::Mul,
                        lna@,
                    );
                }
                let out = Node::Factors(
                    chain3(
                        TokenType::Mul,
                        de,
                        TokenType::Mul,
                        node.duplicate(),
                        TokenType::Mul,
                        lna,
                    ),
                );
                proof {
                    lemma_wf_factors((out@)->Factors_0);
                }
                Ok(out)
            } else {
                let de = match self.differentiate_at(&ve, var, ext, fuel - 1) {
                    Ok(v) => v,
                    Err(e) => {
                        return Err(e);
                    },
                };
                let db = match self.differentiate_at(&vb, var, ext, fuel - 1) {
                    Ok(v) => v,
                    Err(e) => {
                        return Err(e);
                    },
                };
                let ghost vbv = vb@;
                let ghost vev = ve@;
                let ghost dev = de@;
                let ghost dbv = db@;
                let vb2 = vb.duplicate();
                let lnb = Node::Func { func: FuncType::Ln, arg: Box::new(vb2) };
                proof {
                    assert(lnb@ == NodeV::Func { func: FuncType::Ln, arg: Box::new(vbv) });
                    lemma_wf_func(FuncType::Ln, vbv);
                    lemma_entries_wf_2(TokenType::Mul, dev, TokenType::Mul, lnb@);
                    lemma_entries_wf_3(
                        TokenType::Mul,
                        dbv,
                        TokenType::Mul,
                        vev,
                        TokenType::Div,
                        vbv,
                    );
                }
                let left = Node::Factors(chain2(TokenType::Mul, de, TokenType::Mul, lnb));
                let right = Node::Factors(
                    chain3(TokenType::Mul, db, TokenType::Mul, ve, TokenType::Div, vb),
                );
                proof {
                    assert(left@ == NodeV::Factors(
                        seq![
                            (TokenType::Mul, dev),
                            (
                                TokenType::Mul,
                                NodeV::Func { func: FuncType::Ln, arg: Box::new(vbv) },
                            ),
                        ],
                    ));
                    assert(right@ == NodeV::Factors(
                        seq![(TokenType::Mul, dbv), (TokenType::Mul, vev), (TokenType::Div, vbv)],
                    ));
                    lemma_wf_factors((left@)->Factors_0);
                    lemma_wf_factors((right@)->Factors_0);
                    lemma_entries_wf_2(TokenType::Plus, left@, TokenType::Plus, right@);
                }
                let inner = Node::Terms(
                    chain2(TokenType::Plus, left, TokenType::Plus, right),
                );
                proof {
                    lemma_wf_terms((inner@)->Terms_0);
                    lemma_entries_wf_2(TokenType::Mul, node@, TokenType::Mul, inner@);
                }
                let out = Node::Factors(
                    chain2(TokenType::Mul, node.duplicate(), TokenType::Mul, inner),
                );
                proof {
                    lemma_wf_factors((out@)->Factors_0);
                }
                Ok(out)
            }
        }
    }
}

/// The derivative table for the unary functions, around the evaluated
/// argument `va`.
fn dfunc(func: FuncType, va: Node) -> (r: Node)
    requires
        node_wf(va@),
    ensures
        r@ == dfunc_v(func, va@),
        node_wf(r@),
{
    let ghost vav = va@;
    let neg_one = Node::Num(Rational { num: -1, den: 1 });
    proof {
        assert(neg_one@ == NodeV::Num(rat_neg_one()));
        lemma_wf_num(rat_neg_one());
    }
    let two = Rational { num: 2, den: 1 };
    match func {
        FuncType::Sin => {
            let out = Node::Func { func: FuncType::Cos, arg: Box::new(va) };
            proof {
                assert(out@ == NodeV::Func { func: FuncType::Cos, arg: Box::new(vav) });
                lemma_wf_func(FuncType::Cos, vav);
            }
            out
        },
        FuncType::Cos => {
            let sinv = Node::Func { func: FuncType::Sin, arg: Box::new(va) };
            proof {
                assert(sinv@ == NodeV::Func { func: FuncType::Sin, arg: Box::new(vav) });
                lemma_wf_func(FuncType::Sin, vav);
                lemma_entries_wf_2(TokenType::Mul, NodeV::Num(rat_neg_one()), TokenType::Mul, sinv@);
            }
            let out = Node::Factors(chain2(TokenType::Mul, neg_one, TokenType::Mul, sinv));
            proof {
                lemma_wf_factors((out@)->Factors_0);
            }
            out
        },
        FuncType::Tan => {
            let secv = Node::Func { func: FuncType::Sec, arg: Box::new(va) };
            proof {
                assert(secv@ == NodeV::Func { func: FuncType::Sec, arg: Box::new(vav) });
                lemma_wf_func(FuncType::Sec, vav);
                lemma_wf_num(two);
            }
            let twon = Node::Num(two);
            proof {
                assert(twon@ == NodeV::Num(two));
            }
            let out = Node::Exponent { base: Box::new(secv), exponent: Box::new(twon) };
            proof {
                assert(out@ == NodeV::Exponent {
                    base: Box::new(NodeV::Func { func: FuncType::Sec, arg: Box::new(vav) }),
                    exponent: Box::new(NodeV::Num(two)),
                });
                lemma_wf_exponent(
                    NodeV::Func { func: FuncType::Sec, arg: Box::new(vav) },
                    NodeV::Num(two),
                );
            }
            out
        },
        FuncType::Csc => {
            let cscv = Node::Func { func: FuncType::Csc, arg: Box::new(va.duplicate()) };
            let cotv = Node::Func { func: FuncType::Cot, arg: Box::new(va) };
            proof {
                assert(cscv@ == NodeV::Func { func: FuncType::Csc, arg: Box::new(vav) });
                assert(cotv@ == NodeV::Func { func: FuncType::Cot, arg: Box::new(vav) });
                lemma_wf_func(FuncType::Csc, vav);
                lemma_wf_func(FuncType::Cot, vav);
                lemma_entries_wf_3(
                    TokenType::Mul,
                    NodeV::Num(rat_neg_one()),
                    TokenType::Mul,
                    cscv@,
                    TokenType::Mul,
                    cotv@,
                );
            }
            let out = Node::Factors(
                chain3(TokenType::Mul, neg_one, TokenType::Mul, cscv, TokenType::Mul, cotv),
            );
            proof {
                lemma_wf_factors((out@)->Factors_0);
            }
            out
        },
        FuncType::Sec => {
            let secv = Node::Func { func: FuncType::Sec, arg: Box::new(va.duplicate()) };
            let tanv = Node::Func { func: FuncType::Tan, arg: Box::new(va) };
            proof {
                assert(secv@ == NodeV::Func { func: FuncType::Sec, arg: Box::new(vav) });
                assert(tanv@ == NodeV::Func { func: FuncType::Tan, arg: Box::new(vav) });
                lemma_wf_func(FuncType::Sec, vav);
                lemma_wf_func(FuncType::Tan, vav);
                lemma_entries_wf_2(TokenType::Mul, secv@, TokenType::Mul, tanv@);
            }
            let out = Node::Factors(chain2(TokenType::Mul, secv, TokenType::Mul, tanv));
            proof {
                lemma_wf_factors((out@)->Factors_0);
            }
            out
        },
        FuncType::Cot => {
            let secv = Node::Func { func: FuncType::Sec, arg: Box::new(va) };
            proof {
                assert(secv@ == NodeV::Func { func: FuncType::Sec, arg: Box::new(vav) });
                lemma_wf_func(FuncType::Sec, vav);
                lemma_wf_num(two);
            }
            let twon = Node::Num(two);
            proof {
                assert(twon@ == NodeV::Num(two));
            }
            let sq = Node::Exponent { base: Box::new(secv), exponent: Box::new(twon) };
            proof {
                assert(sq@ == NodeV::Exponent {
                    base: Box::new(NodeV::Func { func: FuncType::Sec, arg: Box::new(vav) }),
                    exponent: Box::new(NodeV::Num(two)),
                });
                lemma_wf_exponent(
                    NodeV::Func { func: FuncType::Sec, arg: Box::new(vav) },
                    NodeV::Num(two),
                );
                lemma_entries_wf_2(TokenType::Mul, NodeV::Num(rat_neg_one()), TokenType::Mul, sq@);
            }
            let out = Node::Factors(chain2(TokenType::Mul, neg_one, TokenType::Mul, sq));
            proof {
                lemma_wf_factors((out@)->Factors_0);
            }
            out
        },
        FuncType::Ln => {
            proof {
                lemma_entries_wf_1(TokenType::Div, vav);
            }
            let out = Node::Factors(chain1(TokenType::Div, va));
            proof {
                lemma_wf_factors((out@)->Factors_0);
            }
            out
        },
        FuncType::Log => {
            let ten = Rational { num: 10, den: 1 };
            let tenn = Node::Num(ten);
            proof {
                assert(tenn@ == NodeV::Num(ten));
            }
            let ln10 = Node::Func { func: FuncType::Ln, arg: Box::new(tenn) };
            proof {
                assert(ln10@ == NodeV::Func {
                    func: FuncType::Ln,
                    arg: Box::new(NodeV::Num(ten)),
                });
                lemma_wf_num(ten);
                lemma_wf_func(FuncType::Ln, NodeV::Num(ten));
                lemma_entries_wf_2(TokenType::Mul, vav, TokenType::Mul, ln10@);
            }
            let denom = Node::Factors(chain2(TokenType::Mul, va, TokenType::Mul, ln10));
            proof {
                lemma_wf_factors((denom@)->Factors_0);
                lemma_entries_wf_1(TokenType::Div, denom@);
            }
            let out = Node::Factors(chain1(TokenType::Div, denom));
            proof {
                lemma_wf_factors((out@)->Factors_0);
            }
            out
        },
    }
}

} // verus!
