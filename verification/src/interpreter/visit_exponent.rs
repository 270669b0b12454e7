//! Evaluation of a power node.

use crate::interpreter::{
    node_wf, opt_env, opt_env_wf, res_rel, Bindings, Interpreter, InterpreterError,
    InterpreterResult,
};
use crate::node::{Node, NodeV};
use crate::rational::Rational;
use crate::semantics::{const_table, eval_s};
use vstd::prelude::*;

verus! {

impl Interpreter {
    /// Evaluate base and exponent and apply the special-value table: an
    /// exponent of zero gives one (but `0^0` is undefined), an exponent of
    /// one gives the base back (the original base when both reduced to
    /// numbers), a base of one (or zero, against a symbolic exponent) gives
    /// the constant, a whole numeric power is computed exactly, and anything
    /// else is rebuilt from the simplified parts.
    pub fn visit_exponent(
        &self,
        base: &Node,
        exponent: &Node,
        ext: Option<&Bindings>,
        fuel: u64,
    ) -> (r: InterpreterResult<Node>)
        requires
            self.wf(),
            node_wf(base@),
            node_wf(exponent@),
            opt_env_wf(opt_env(ext)),
        ensures
            res_rel(
                r,
                eval_s(
                    NodeV::Exponent { base: Box::new(base@), exponent: Box::new(exponent@) },
                    const_table(),
                    opt_env(ext),
                    fuel as nat,
                ),
            ),
            r matches Ok(n) ==> node_wf(n@),
        decreases fuel,
            (NodeV::Exponent { base: Box::new(base@), exponent: Box::new(exponent@) }),
            0int,
    {
        proof {
            let m = NodeV::Exponent { base: Box::new(base@), exponent: Box::new(exponent@) };
            let b = base@;
            let e = exponent@;
            assert(decreases_to!(m => b));
            assert(decreases_to!(m => e));
        }
        let vb = match self.visit_at(base, ext, fuel) {
            Ok(v) => v,
            Err(e) => {
                return Err(e);
            },
        };
        let ve = match self.visit_at(exponent, ext, fuel) {
            Ok(v) => v,
            Err(e) => {
                return Err(e);
            },
        };
        if let Node::Num(bn0) = &vb {
            let bn: Rational = *bn0;
            if let Node::Num(en0) = &ve {
                let en: Rational = *en0;
                if en.is_zero() {
                    if bn.is_zero() {
                        Err(InterpreterError::Undefined)
                    } else {
                        Ok(Node::Num(Rational::one()))
                    }
                } else if en.is_one() {
                    Ok(base.duplicate())
                } else if bn.is_one() {
                    Ok(Node::Num(Rational::one()))
                } else if en.den == 1 {
                    if bn.num == 0 && en.num < 0 {
                        Err(InterpreterError::Undefined)
                    } else {
                        match bn.pow_whole(en.num) {
                            Some(p) => Ok(Node::Num(p)),
                            None => Err(InterpreterError::Overflow),
                        }
                    }
                } else {
                    Ok(Node::Exponent { base: Box::new(vb), exponent: Box::new(ve) })
                }
            } else {
                if bn.is_zero() {
                    Ok(Node::Num(Rational::zero()))
                } else if bn.is_one() {
                    Ok(Node::Num(Rational::one()))
                } else {
                    Ok(Node::Exponent { base: Box::new(vb), exponent: Box::new(ve) })
                }
            }
        } else {
            if let Node::Num(en0) = &ve {
                let en: Rational = *en0;
                if en.is_zero() {
                    Ok(Node::Num(Rational::one()))
                } else if en.is_one() {
                    Ok(vb)
                } else {
                    Ok(Node::Exponent { base: Box::new(vb), exponent: Box::new(ve) })
                }
            } else {
                Ok(Node::Exponent { base: Box::new(vb), exponent: Box::new(ve) })
            }
        }
    }
}

} // verus!
