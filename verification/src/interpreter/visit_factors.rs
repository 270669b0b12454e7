//! Evaluation of a product chain.

use crate::interpreter::{
    entries_wf, node_wf, opt_env, opt_env_wf, res_rel, Bindings, Interpreter, InterpreterError,
    InterpreterResult,
};
use crate::node::{duplicate_entries, entries_view, lemma_entries_view0, Node, NodeV};
use crate::rational::Rational;
use crate::semantics::{
    const_table, eval_s, finalize_factors, flat1, fold_factors, has_zero_factor, rat_one, ErrV,
};
use crate::token::TokenType;
use vstd::prelude::*;

verus! {

impl Interpreter {
    /// Evaluate a product chain.  A multiply-tagged literal zero
    /// short-circuits the whole chain to zero before anything is evaluated.
    /// Otherwise every factor is evaluated, multiply-tagged nested product
    /// chains are flattened in, and the numeric factors fold into a running
    /// scalar (dividing by zero is undefined); the symbolic rest is rebuilt
    /// with the scalar appended multiply-tagged when it is not one, and a
    /// lone multiply-tagged factor collapses to itself.
    #[verifier::loop_isolation(false)]
    pub fn visit_factors(
        &self,
        factors: &Vec<(TokenType, Node)>,
        ext: Option<&Bindings>,
        fuel: u64,
    ) -> (r: InterpreterResult<Node>)
        requires
            self.wf(),
            node_wf(NodeV::Factors(entries_view(*factors, 0))),
            opt_env_wf(opt_env(ext)),
        ensures
            res_rel(
                r,
                eval_s(
                    NodeV::Factors(entries_view(*factors, 0)),
                    const_table(),
                    opt_env(ext),
                    fuel as nat,
                ),
            ),
            r matches Ok(n) ==> node_wf(n@),
        decreases fuel, NodeV::Factors(entries_view(*factors, 0)), 0int,
    {
        let ghost s = entries_view(*factors, 0);
        proof {
            assert(entries_wf(s));
            let m = NodeV::Factors(s);
            assert(decreases_to!(m => s));
            lemma_entries_view0(*factors);
        }
        // a multiply-tagged literal zero short-circuits
        let mut i: usize = 0;
        while i < factors.len()
            invariant
                i <= factors@.len(),
                s == entries_view(*factors, 0),
                s.len() == factors@.len(),
                forall|j: int|
                    0 <= j < factors@.len() ==> s[j] == (
                        factors@[j].0,
                        crate::node::node_view(factors@[j].1),
                    ),
                forall|j: int|
                    0 <= j < i ==> !(s[j].0 != TokenType::Div && match s[j].1 {
                        NodeV::Num(r) => r.num == 0,
                        _ => false,
                    }),
            decreases factors@.len() - i,
        {
            if factors[i].0 != TokenType::Div {
                if let Node::Num(n0) = &factors[i].1 {
                    if n0.is_zero() {
                        proof {
                            assert(s[i as int].1 == NodeV::Num(*n0));
                            assert(s[i as int].0 != TokenType::Div && match s[i as int].1 {
                                NodeV::Num(r) => r.num == 0,
                                _ => false,
                            });
                            assert(has_zero_factor(s));
                        }
                        return Ok(Node::Num(Rational::zero()));
                    }
                }
            }
            i = i + 1;
        }
        proof {
            assert(!has_zero_factor(s));
        }
        // evaluate every factor
        let vs = match self.visit_entries(factors, ext, fuel) {
            Ok(v) => v,
            Err(e) => {
                return Err(e);
            },
        };
        let ghost vsv = entries_view(vs, 0);
        proof {
            lemma_entries_view0(vs);
        }
        // flatten multiply-tagged nested product chains, one level
        let mut flat: Vec<(TokenType, Node)> = Vec::new();
        let mut k: usize = 0;
        proof {
            lemma_entries_view0(flat);
            assert(entries_view(flat, 0) + flat1(vsv, 0) =~= flat1(vsv, 0));
        }
        while k < vs.len()
            invariant
                k <= vs@.len(),
                vsv == entries_view(vs, 0),
                vsv.len() == vs@.len(),
                entries_wf(vsv),
                forall|j: int|
                    0 <= j < vs@.len() ==> vsv[j] == (vs@[j].0, crate::node::node_view(vs@[j].1)),
                entries_wf(entries_view(flat, 0)),
                flat1(vsv, 0) == entries_view(flat, 0) + flat1(vsv, k as int),
            decreases vs@.len() - k,
        {
            let ghost old_flat = entries_view(flat, 0);
            proof {
                lemma_entries_view0(flat);
            }
            let is_nested_mul: bool = if vs[k].0 == TokenType::Mul {
                match &vs[k].1 {
                    Node::Factors(_) => true,
                    _ => false,
                }
            } else {
                false
            };
            if is_nested_mul {
                if let Node::Factors(inner) = &vs[k].1 {
                    proof {
                        lemma_entries_view0(*inner);
                        assert(vsv[k as int].1 == NodeV::Factors(entries_view(*inner, 0)));
                        assert(node_wf(vsv[k as int].1));
                    }
                    let mut dup = duplicate_entries(inner);
                    proof {
                        lemma_entries_view0(dup);
                    }
                    flat.append(&mut dup);
                    proof {
                        lemma_entries_view0(flat);
                        assert(entries_view(flat, 0) =~= old_flat + entries_view(*inner, 0));
                        assert((old_flat + entries_view(*inner, 0)) + flat1(vsv, k as int + 1)
                            =~= old_flat + (entries_view(*inner, 0) + flat1(vsv, k as int + 1)));
                    }
                } else {
                    // ruled out: the element was just seen to be a product chain
                    proof {
                        assert(false);
                    }
                }
            } else {
                let d = vs[k].1.duplicate();
                flat.push((vs[k].0, d));
                proof {
                    lemma_entries_view0(flat);
                    assert(entries_view(flat, 0) =~= old_flat.push(vsv[k as int]));
                    assert(old_flat.push(vsv[k as int]) + flat1(vsv, k as int + 1) =~= old_flat + (
                    seq![vsv[k as int]] + flat1(vsv, k as int + 1)));
                }
            }
            k = k + 1;
        }
        let ghost fl = flat1(vsv, 0);
        proof {
            lemma_entries_view0(flat);
            assert(flat1(vsv, vs@.len() as int) =~= Seq::<(TokenType, NodeV)>::empty());
            assert(entries_view(flat, 0) + Seq::<(TokenType, NodeV)>::empty() =~= entries_view(
                flat,
                0,
            ));
            assert(fl == entries_view(flat, 0));
        }
        // fold the numeric factors
        let mut acc = Rational::one();
        let mut residual: Vec<(TokenType, Node)> = Vec::new();
        let mut m: usize = 0;
        proof {
            lemma_entries_view0(residual);
        }
        while m < flat.len()
            invariant
                m <= flat@.len(),
                fl == entries_view(flat, 0),
                fl.len() == flat@.len(),
                entries_wf(fl),
                forall|j: int|
                    0 <= j < flat@.len() ==> fl[j] == (
                        flat@[j].0,
                        crate::node::node_view(flat@[j].1),
                    ),
                acc.wf(),
                entries_wf(entries_view(residual, 0)),
                fold_factors(fl, 0, rat_one(), Seq::empty()) == fold_factors(
                    fl,
                    m as int,
                    acc,
                    entries_view(residual, 0),
                ),
            decreases flat@.len() - m,
        {
            let ghost old_res = entries_view(residual, 0);
            proof {
                lemma_entries_view0(residual);
            }
            if let Node::Num(n0) = &flat[m].1 {
                let n: Rational = *n0;
                if flat[m].0 == TokenType::Div {
                    if n.is_zero() {
                        return Err(InterpreterError::Undefined);
                    }
                    match acc.div(n) {
                        Some(a2) => {
                            acc = a2;
                        },
                        None => {
                            return Err(InterpreterError::Overflow);
                        },
                    }
                } else {
                    match acc.mul(n) {
                        Some(a2) => {
                            acc = a2;
                        },
                        None => {
                            return Err(InterpreterError::Overflow);
                        },
                    }
                }
            } else {
                let d = flat[m].1.duplicate();
                residual.push((flat[m].0, d));
                proof {
                    lemma_entries_view0(residual);
                    assert(entries_view(residual, 0) =~= old_res.push(fl[m as int]));
                }
            }
            m = m + 1;
        }
        let ghost resv = entries_view(residual, 0);
        proof {
            lemma_entries_view0(residual);
            assert(fold_factors(fl, 0, rat_one(), Seq::empty()) == Ok::<
                (Rational, Seq<(TokenType, NodeV)>),
                ErrV,
            >((acc, resv)));
            assert(eval_s(NodeV::Factors(s), const_table(), opt_env(ext), fuel as nat) == Ok::<
                NodeV,
                ErrV,
            >(finalize_factors(acc, resv)));
        }
        // rebuild
        if residual.len() == 0 {
            proof {
                assert(finalize_factors(acc, resv) == NodeV::Num(acc));
            }
            Ok(Node::Num(acc))
        } else if !acc.is_one() {
            residual.push((TokenType::Mul, Node::Num(acc)));
            proof {
                lemma_entries_view0(residual);
                assert(entries_view(residual, 0) =~= resv.push((
                    TokenType::Mul,
                    NodeV::Num(acc),
                )));
                assert(finalize_factors(acc, resv) == NodeV::Factors(entries_view(residual, 0)));
                let newv = entries_view(residual, 0);
                assert forall|ii: int| 0 <= ii < newv.len() implies node_wf(
                    #[trigger] newv[ii].1,
                ) by {
                    if ii < resv.len() {
                        assert(newv[ii] == resv[ii]);
                        assert(node_wf(resv[ii].1));
                    } else {
                        assert(newv[ii].1 == NodeV::Num(acc));
                    }
                }
                assert(node_wf(NodeV::Factors(newv)));
            }
            Ok(Node::Factors(residual))
        } else if residual.len() == 1 && residual[0].0 == TokenType::Mul {
            proof {
                assert(finalize_factors(acc, resv) == resv[0].1);
                assert(resv[0] == (residual@[0].0, crate::node::node_view(residual@[0].1)));
                assert(node_wf(resv[0].1));
            }
            match residual.pop() {
                Some((_, n)) => Ok(n),
                None => unreached(),
            }
        } else {
            proof {
                assert(finalize_factors(acc, resv) == NodeV::Factors(resv));
            }
            Ok(Node::Factors(residual))
        }
    }
}

} // verus!
