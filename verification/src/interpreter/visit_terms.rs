//! Evaluation of a sum chain.

use crate::interpreter::{
    entries_wf, node_wf, opt_env, opt_env_wf, res_rel, Bindings, Interpreter, InterpreterError,
    InterpreterResult,
};
use crate::node::{entries_view, lemma_entries_view0, Node, NodeV};
use crate::rational::Rational;
use crate::semantics::{const_table, eval_s, finalize_terms, fold_terms, rat_zero, ErrV};
use crate::token::TokenType;
use vstd::prelude::*;

verus! {

impl Interpreter {
    /// Evaluate every term, fold the numeric ones into a running scalar
    /// (adding or subtracting by tag), and rebuild the rest: the scalar
    /// alone if nothing symbolic is left, the scalar appended plus-tagged if
    /// it is not zero, a lone plus-tagged term collapsed to itself.
    #[verifier::loop_isolation(false)]
    pub fn visit_terms(
        &self,
        terms: &Vec<(TokenType, Node)>,
        ext: Option<&Bindings>,
        fuel: u64,
    ) -> (r: InterpreterResult<Node>)
        requires
            self.wf(),
            node_wf(NodeV::Terms(entries_view(*terms, 0))),
            opt_env_wf(opt_env(ext)),
        ensures
            res_rel(
                r,
                eval_s(
                    NodeV::Terms(entries_view(*terms, 0)),
                    const_table(),
                    opt_env(ext),
                    fuel as nat,
                ),
            ),
            r matches Ok(n) ==> node_wf(n@),
        decreases fuel, NodeV::Terms(entries_view(*terms, 0)), 0int,
    {
        let ghost s = entries_view(*terms, 0);
        proof {
            assert(entries_wf(s));
            let m = NodeV::Terms(s);
            assert(decreases_to!(m => s));
        }
        let vs = match self.visit_entries(terms, ext, fuel) {
            Ok(v) => v,
            Err(e) => {
                return Err(e);
            },
        };
        let ghost vsv = entries_view(vs, 0);
        proof {
            lemma_entries_view0(vs);
        }
        let mut acc = Rational::zero();
        let mut residual: Vec<(TokenType, Node)> = Vec::new();
        let mut i: usize = 0;
        proof {
            lemma_entries_view0(residual);
        }
        while i < vs.len()
            invariant
                i <= vs@.len(),
                vsv == entries_view(vs, 0),
                vsv.len() == vs@.len(),
                entries_wf(vsv),
                forall|j: int|
                    0 <= j < vs@.len() ==> vsv[j] == (vs@[j].0, crate::node::node_view(vs@[j].1)),
                acc.wf(),
                entries_wf(entries_view(residual, 0)),
                fold_terms(vsv, 0, rat_zero(), Seq::empty()) == fold_terms(
                    vsv,
                    i as int,
                    acc,
                    entries_view(residual, 0),
                ),
            decreases vs@.len() - i,
        {
            let ghost old_res = entries_view(residual, 0);
            proof {
                lemma_entries_view0(residual);
            }
            if let Node::Num(n0) = &vs[i].1 {
                let n: Rational = *n0;
                let step = if vs[i].0 == TokenType::Minus {
                    acc.sub(n)
                } else {
                    acc.add(n)
                };
                match step {
                    Some(a2) => {
                        acc = a2;
                    },
                    None => {
                        return Err(InterpreterError::Overflow);
                    },
                }
            } else {
                let d = vs[i].1.duplicate();
                residual.push((vs[i].0, d));
                proof {
                    lemma_entries_view0(residual);
                    assert(entries_view(residual, 0) =~= old_res.push(vsv[i as int]));
                }
            }
            i = i + 1;
        }
        let ghost resv = entries_view(residual, 0);
        proof {
            lemma_entries_view0(residual);
            assert(fold_terms(vsv, 0, rat_zero(), Seq::empty()) == Ok::<
                (Rational, Seq<(TokenType, NodeV)>),
                ErrV,
            >((acc, resv)));
            assert(eval_s(NodeV::Terms(s), const_table(), opt_env(ext), fuel as nat) == Ok::<
                NodeV,
                ErrV,
            >(finalize_terms(acc, resv)));
        }
        if residual.len() == 0 {
            proof {
                assert(finalize_terms(acc, resv) == NodeV::Num(acc));
            }
            Ok(Node::Num(acc))
        } else if !acc.is_zero() {
            residual.push((TokenType::Plus, Node::Num(acc)));
            proof {
                lemma_entries_view0(residual);
                assert(entries_view(residual, 0) =~= resv.push((
                    TokenType::Plus,
                    NodeV::Num(acc),
                )));
                assert(finalize_terms(acc, resv) == NodeV::Terms(entries_view(residual, 0)));
                let newv = entries_view(residual, 0);
                assert forall|ii: int| 0 <= ii < newv.len() implies node_wf(
                    #[trigger] newv[ii].1,
                ) by {
                    if ii < resv.len() {
                        assert(newv[ii] == resv[ii]);
                        assert(node_wf(resv[ii].1));
                    } else {
                        assert(newv[ii].1 == NodeV::Num(acc));
                    }
                }
                assert(node_wf(NodeV::Terms(newv)));
            }
            Ok(Node::Terms(residual))
        } else if residual.len() == 1 && residual[0].0 == TokenType::Plus {
            proof {
                assert(finalize_terms(acc, resv) == resv[0].1);
                assert(resv[0] == (residual@[0].0, crate::node::node_view(residual@[0].1)));
                assert(node_wf(resv[0].1));
            }
            match residual.pop() {
                Some((_, n)) => Ok(n),
                None => unreached(),
            }
        } else {
            proof {
                assert(finalize_terms(acc, resv) == NodeV::Terms(resv));
            }
            Ok(Node::Terms(residual))
        }
    }
}

} // verus!
