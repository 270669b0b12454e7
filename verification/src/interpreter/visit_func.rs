//! Evaluation of a unary function application.

use crate::interpreter::{
    err_to_interp, node_wf, opt_env, opt_env_wf, res_rel, Bindings, Interpreter,
    InterpreterError, InterpreterResult,
};
use crate::node::{Node, NodeV};
use crate::rational::Rational;
use crate::semantics::{const_table, eval_func_v, eval_s, pi_rat, ErrV};
use crate::token::FuncType;
use vstd::prelude::*;

verus! {

impl Interpreter {
    /// Evaluate the argument, then apply the domain policies: a cosecant
    /// pole is undefined, the logarithms reject zero, and any other
    /// application stays symbolic around the simplified argument.
    pub fn visit_func(
        &self,
        func: &FuncType,
        arg: &Node,
        ext: Option<&Bindings>,
        fuel: u64,
    ) -> (r: InterpreterResult<Node>)
        requires
            self.wf(),
            node_wf(arg@),
            opt_env_wf(opt_env(ext)),
        ensures
            res_rel(
                r,
                eval_s(
                    NodeV::Func { func: *func, arg: Box::new(arg@) },
                    const_table(),
                    opt_env(ext),
                    fuel as nat,
                ),
            ),
            r matches Ok(n) ==> node_wf(n@),
        decreases fuel, (NodeV::Func { func: *func, arg: Box::new(arg@) }), 0int,
    {
        proof {
            let m = NodeV::Func { func: *func, arg: Box::new(arg@) };
            let a = arg@;
            assert(decreases_to!(m => a));
        }
        let va = match self.visit_at(arg, ext, fuel) {
            Ok(v) => v,
            Err(e) => {
                return Err(e);
            },
        };
        let fc = *func;
        if let Node::Num(r0) = &va {
            let r0c: Rational = *r0;
            match fc {
                FuncType::Csc => {
                    let pi = Rational { num: 884279719003555, den: 281474976710656 };
                    proof {
                        assert(pi == pi_rat());
                    }
                    match r0c.div(pi) {
                        Some(q) => {
                            if q.is_whole() {
                                Err(InterpreterError::Undefined)
                            } else {
                                Ok(Node::Func { func: fc, arg: Box::new(va) })
                            }
                        },
                        None => Err(InterpreterError::Overflow),
                    }
                },
                FuncType::Ln => {
                    if r0c.is_zero() {
                        Err(InterpreterError::NegInfinity)
                    } else {
                        Ok(Node::Func { func: fc, arg: Box::new(va) })
                    }
                },
                FuncType::Log => {
                    if r0c.is_zero() {
                        Err(InterpreterError::Infinity)
                    } else {
                        Ok(Node::Func { func: fc, arg: Box::new(va) })
                    }
                },
                _ => Ok(Node::Func { func: fc, arg: Box::new(va) }),
            }
        } else {
            Ok(Node::Func { func: fc, arg: Box::new(va) })
        }
    }
}

} // verus!
