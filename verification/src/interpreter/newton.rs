//! Newton–Raphson root finding for one equation, and the Jacobian-based
//! iteration for a system of two.

use crate::interpreter::{
    err_to_interp, lemma_entries_wf_2, lemma_entries_wf_3, lemma_wf_factors, lemma_wf_num,
    lemma_wf_terms, node_wf, opt_env, res_rel, Bindings, Interpreter, InterpreterError,
    InterpreterResult,
};
use crate::node::{chain1, chain2, chain3, Node, NodeV};
use crate::rational::{add_s, below_tol_s, mul_s, Rational};
use crate::semantics::{const_table, diff_s, eval_s, rat_neg_one, ErrV};
use crate::token::TokenType;
use vstd::prelude::*;
use vstd::string::StringExecFns;

verus! {

/// Iterations before a solve gives up.  Newton's method converges in a
/// handful of steps when it converges at all; the cap only stops a divergent
/// guess from spinning forever.
pub const ITER_CAP: u64 = 10000;

pub open spec fn full_fuel() -> nat {
    u64::MAX as nat
}

/// `lhs = rhs` rewritten as the expression `lhs - rhs`; only an equation
/// can be.
pub open spec fn move_equation_s(eq: NodeV) -> Option<NodeV> {
    match eq {
        NodeV::Equation { lhs, rhs } => Some(
            NodeV::Terms(seq![(TokenType::Plus, *lhs), (TokenType::Minus, *rhs)]),
        ),
        _ => None,
    }
}

/// What a scalar solve can come to.
pub enum SolveResV {
    /// Converged to this estimate.
    Root(Rational),
    /// An evaluation or differentiation step failed.
    EvalFail(ErrV),
    /// A Newton step did not reduce to a number: a symbol other than the
    /// unknown stayed unbound.
    NotSubstituted,
    /// The argument was not an equation.
    NotEquation,
    /// The iteration cap was reached.
    NoConverge,
}

/// What a system solve can come to.
pub enum SolveRes2V {
    Root(Rational, Rational),
    EvalFail(ErrV),
    NotSubstituted,
    NotEquation,
    NoConverge,
}

/// The executable scalar-solve result `r` is what the semantics `s` asks.
pub open spec fn sres_rel(r: Result<Rational, InterpreterError>, s: SolveResV) -> bool {
    match s {
        SolveResV::Root(x) => r matches Ok(v) && v == x,
        SolveResV::EvalFail(e) => r matches Err(i) && i == err_to_interp(e),
        SolveResV::NotSubstituted => r matches Err(i) && (i matches InterpreterError::SolveError(m)
            && m@ == "Not substituted"@),
        SolveResV::NotEquation => r matches Err(i) && (i matches InterpreterError::SolveError(m)
            && m@ == "Not an equation"@),
        SolveResV::NoConverge => r matches Err(i) && (i matches InterpreterError::SolveError(m)
            && m@ == "Did not converge"@),
    }
}

/// The executable system-solve result `r` is what the semantics `s` asks.
pub open spec fn sres2_rel(r: Result<(Rational, Rational), InterpreterError>, s: SolveRes2V) -> bool {
    match s {
        SolveRes2V::Root(x, y) => r matches Ok(v) && v == (x, y),
        SolveRes2V::EvalFail(e) => r matches Err(i) && i == err_to_interp(e),
        SolveRes2V::NotSubstituted => r matches Err(i) && (i
            matches InterpreterError::SolveError(m) && m@ == "Not substituted"@),
        SolveRes2V::NotEquation => r matches Err(i) && (i matches InterpreterError::SolveError(m)
            && m@ == "Not an equation"@),
        SolveRes2V::NoConverge => r matches Err(i) && (i matches InterpreterError::SolveError(m)
            && m@ == "Did not converge"@),
    }
}

/// One scalar Newton iteration after another: bind the unknown, evaluate
/// the step `-f(x)/f'(x)`, move the estimate, and stop once the step's
/// magnitude drops below `1/10^4`.
pub open spec fn newton1_s(
    f: NodeV,
    fp: NodeV,
    consts: Seq<(char, Rational)>,
    x: Rational,
    iters: nat,
) -> SolveResV
    decreases iters,
{
    if iters == 0 {
        SolveResV::NoConverge
    } else {
        let env = Some(seq![('x', x)]);
        match eval_s(f, consts, env, full_fuel()) {
            Err(e) => SolveResV::EvalFail(e),
            Ok(fv) => match eval_s(fp, consts, env, full_fuel()) {
                Err(e) => SolveResV::EvalFail(e),
                Ok(fpv) => {
                    let stept = NodeV::Factors(
                        seq![
                            (TokenType::Mul, NodeV::Num(rat_neg_one())),
                            (TokenType::Mul, fv),
                            (TokenType::Div, fpv),
                        ],
                    );
                    match eval_s(stept, consts, env, full_fuel()) {
                        Err(e) => SolveResV::EvalFail(e),
                        Ok(sv) => match sv {
                            NodeV::Num(h) => match add_s(x, h) {
                                None => SolveResV::EvalFail(ErrV::Overflow),
                                Some(x2) => match below_tol_s(h, 10000) {
                                    None => SolveResV::EvalFail(ErrV::Overflow),
                                    Some(true) => SolveResV::Root(x2),
                                    Some(false) => newton1_s(
                                        f,
                                        fp,
                                        consts,
                                        x2,
                                        (iters - 1) as nat,
                                    ),
                                },
                            },
                            _ => SolveResV::NotSubstituted,
                        },
                    }
                },
            },
        }
    }
}

/// What the scalar solver returns for `eq` from the starting `guess`.
pub open spec fn solve1_s(eq: NodeV, consts: Seq<(char, Rational)>, guess: Rational) -> SolveResV {
    match move_equation_s(eq) {
        None => SolveResV::NotEquation,
        Some(f) => match diff_s(f, 'x', consts, None, full_fuel()) {
            Err(e) => SolveResV::EvalFail(e),
            Ok(d) => match eval_s(d, consts, None, full_fuel()) {
                Err(e) => SolveResV::EvalFail(e),
                Ok(fp) => newton1_s(f, fp, consts, guess, ITER_CAP as nat),
            },
        },
    }
}

/// A Jacobian entry: differentiate, then simplify.
pub open spec fn jentry_s(f: NodeV, var: char, consts: Seq<(char, Rational)>) -> Result<
    NodeV,
    ErrV,
> {
    match diff_s(f, var, consts, None, full_fuel()) {
        Ok(d) => eval_s(d, consts, None, full_fuel()),
        Err(e) => Err(e),
    }
}

/// The negated matrix-vector product row `-(a*v1) - (b*v2)` as a tree.
pub open spec fn step_row_v(a: NodeV, b: NodeV, v1: NodeV, v2: NodeV) -> NodeV {
    NodeV::Terms(
        seq![
            (
                TokenType::Plus,
                NodeV::Factors(
                    seq![
                        (TokenType::Mul, NodeV::Num(rat_neg_one())),
                        (TokenType::Mul, a),
                        (TokenType::Mul, v1),
                    ],
                ),
            ),
            (
                TokenType::Plus,
                NodeV::Factors(
                    seq![
                        (TokenType::Mul, NodeV::Num(rat_neg_one())),
                        (TokenType::Mul, b),
                        (TokenType::Mul, v2),
                    ],
                ),
            ),
        ],
    )
}

/// One system Newton iteration after another: bind both unknowns, evaluate
/// both residuals, apply the symbolic inverse Jacobian, move the estimate,
/// and stop once the squared step norm drops below `1/10^8`.
pub open spec fn newton2_s(
    f1: NodeV,
    f2: NodeV,
    i00: NodeV,
    i01: NodeV,
    i10: NodeV,
    i11: NodeV,
    consts: Seq<(char, Rational)>,
    x: Rational,
    y: Rational,
    iters: nat,
) -> SolveRes2V
    decreases iters,
{
    if iters == 0 {
        SolveRes2V::NoConverge
    } else {
        let env = Some(seq![('x', x), ('y', y)]);
        match eval_s(f1, consts, env, full_fuel()) {
            Err(e) => SolveRes2V::EvalFail(e),
            Ok(v1) => match eval_s(f2, consts, env, full_fuel()) {
                Err(e) => SolveRes2V::EvalFail(e),
                Ok(v2) => match eval_s(step_row_v(i00, i01, v1, v2), consts, env, full_fuel()) {
                    Err(e) => SolveRes2V::EvalFail(e),
                    Ok(hxn) => match eval_s(
                        step_row_v(i10, i11, v1, v2),
                        consts,
                        env,
                        full_fuel(),
                    ) {
                        Err(e) => SolveRes2V::EvalFail(e),
                        Ok(hyn) => match hxn {
                            NodeV::Num(hx) => match hyn {
                                NodeV::Num(hy) => match mul_s(hx, hx) {
                                    None => SolveRes2V::EvalFail(ErrV::Overflow),
                                    Some(nx) => match mul_s(hy, hy) {
                                        None => SolveRes2V::EvalFail(ErrV::Overflow),
                                        Some(ny) => match add_s(nx, ny) {
                                            None => SolveRes2V::EvalFail(ErrV::Overflow),
                                            Some(nsq) => match add_s(x, hx) {
                                                None => SolveRes2V::EvalFail(ErrV::Overflow),
                                                Some(x2) => match add_s(y, hy) {
                                                    None => SolveRes2V::EvalFail(ErrV::Overflow),
                                                    Some(y2) => match below_tol_s(nsq, 100000000) {
                                                        None => SolveRes2V::EvalFail(
                                                            ErrV::Overflow,
                                                        ),
                                                        Some(true) => SolveRes2V::Root(x2, y2),
                                                        Some(false) => newton2_s(
                                                            f1,
                                                            f2,
                                                            i00,
                                                            i01,
                                                            i10,
                                                            i11,
                                                            consts,
                                                            x2,
                                                            y2,
                                                            (iters - 1) as nat,
                                                        ),
                                                    },
                                                },
                                            },
                                        },
                                    },
                                },
                                _ => SolveRes2V::NotSubstituted,
                            },
                            _ => SolveRes2V::NotSubstituted,
                        },
                    },
                },
            },
        }
    }
}

/// The four entries of the symbolic inverse Jacobian, each simplified: the
/// Jacobian itself, its determinant, and the cofactor formula, all built
/// once and left in terms of the unknowns.
pub open spec fn inverse_s(f1: NodeV, f2: NodeV, consts: Seq<(char, Rational)>) -> Result<
    (NodeV, NodeV, NodeV, NodeV),
    ErrV,
> {
    match jentry_s(f1, 'x', consts) {
        Err(e) => Err(e),
        Ok(j00) => match jentry_s(f1, 'y', consts) {
            Err(e) => Err(e),
            Ok(j01) => match jentry_s(f2, 'x', consts) {
                Err(e) => Err(e),
                Ok(j10) => match jentry_s(f2, 'y', consts) {
                    Err(e) => Err(e),
                    Ok(j11) => {
                        let det_t = NodeV::Terms(
                            seq![
                                (
                                    TokenType::Plus,
                                    NodeV::Factors(
                                        seq![(TokenType::Mul, j00), (TokenType::Mul, j11)],
                                    ),
                                ),
                                (
                                    TokenType::Minus,
                                    NodeV::Factors(
                                        seq![(TokenType::Mul, j01), (TokenType::Mul, j10)],
                                    ),
                                ),
                            ],
                        );
                        match eval_s(det_t, consts, None, full_fuel()) {
                            Err(e) => Err(e),
                            Ok(det) => {
                                let i00_t = NodeV::Factors(
                                    seq![(TokenType::Mul, j11), (TokenType::Div, det)],
                                );
                                let i01_t = NodeV::Factors(
                                    seq![
                                        (TokenType::Mul, NodeV::Num(rat_neg_one())),
                                        (TokenType::Mul, j01),
                                        (TokenType::Div, det),
                                    ],
                                );
                                let i10_t = NodeV::Factors(
                                    seq![
                                        (TokenType::Mul, NodeV::Num(rat_neg_one())),
                                        (TokenType::Mul, j10),
                                        (TokenType::Div, det),
                                    ],
                                );
                                let i11_t = NodeV::Factors(
                                    seq![(TokenType::Mul, j00), (TokenType::Div, det)],
                                );
                                match eval_s(i00_t, consts, None, full_fuel()) {
                                    Err(e) => Err(e),
                                    Ok(i00) => match eval_s(i01_t, consts, None, full_fuel()) {
                                        Err(e) => Err(e),
                                        Ok(i01) => match eval_s(i10_t, consts, None, full_fuel()) {
                                            Err(e) => Err(e),
                                            Ok(i10) => match eval_s(
                                                i11_t,
                                                consts,
                                                None,
                                                full_fuel(),
                                            ) {
                                                Err(e) => Err(e),
                                                Ok(i11) => Ok((i00, i01, i10, i11)),
                                            },
                                        },
                                    },
                                }
                            },
                        }
                    },
                },
            },
        },
    }
}

/// What the system solver returns for `eq1`, `eq2` from the starting pair.
pub open spec fn solve2_s(
    eq1: NodeV,
    eq2: NodeV,
    consts: Seq<(char, Rational)>,
    gx: Rational,
    gy: Rational,
) -> SolveRes2V {
    match move_equation_s(eq1) {
        None => SolveRes2V::NotEquation,
        Some(f1) => match move_equation_s(eq2) {
            None => SolveRes2V::NotEquation,
            Some(f2) => match inverse_s(f1, f2, consts) {
                Err(e) => SolveRes2V::EvalFail(e),
                Ok((i00, i01, i10, i11)) => newton2_s(
                    f1,
                    f2,
                    i00,
                    i01,
                    i10,
                    i11,
                    consts,
                    gx,
                    gy,
                    ITER_CAP as nat,
                ),
            },
        },
    }
}

impl Interpreter {
    /// `lhs = rhs` rewritten as `lhs - rhs`.
    fn move_equation(&self, eq: &Node) -> (r: InterpreterResult<Node>)
        requires
            node_wf(eq@),
        ensures
            match move_equation_s(eq@) {
                Some(f) => r matches Ok(n) && n@ == f && node_wf(f),
                None => r matches Err(i) && (i matches InterpreterError::SolveError(m) && m@
                    == "Not an equation"@),
            },
    {
        if let Node::Equation { lhs, rhs } = eq {
            let l = (&**lhs).duplicate();
            let rr = (&**rhs).duplicate();
            Ok(Node::Terms(chain2(TokenType::Plus, l, TokenType::Minus, rr)))
        } else {
            Err(InterpreterError::SolveError(String::from_str("Not an equation")))
        }
    }

    /// Solve `eq` for `x` by Newton–Raphson from `guess`: the derivative is
    /// built symbolically once, then the estimate moves by `-f(x)/f'(x)`
    /// until the step's magnitude drops below `1/10^4` (or the iteration cap
    /// strikes).
    #[verifier::loop_isolation(false)]
    #[verifier::rlimit(100)]
    pub fn solve_equation(&self, eq: &Node, guess: Rational) -> (r: InterpreterResult<Rational>)
        requires
            self.wf(),
            node_wf(eq@),
            guess.wf(),
        ensures
            sres_rel(r, solve1_s(eq@, const_table(), guess)),
    {
        let ghost ct = const_table();
        let f = match self.move_equation(eq) {
            Ok(v) => v,
            Err(e) => {
                return Err(e);
            },
        };
        let d = match self.differentiate(&f, 'x', None) {
            Ok(v) => v,
            Err(e) => {
                return Err(e);
            },
        };
        let fp = match self.visit(&d, None) {
            Ok(v) => v,
            Err(e) => {
                return Err(e);
            },
        };
        let mut x = guess;
        let mut iters: u64 = ITER_CAP;
        while iters > 0
            invariant
                self.wf(),
                ct == const_table(),
                node_wf(f@),
                node_wf(fp@),
                x.wf(),
                newton1_s(f@, fp@, ct, guess, ITER_CAP as nat) == newton1_s(
                    f@,
                    fp@,
                    ct,
                    x,
                    iters as nat,
                ),
            decreases iters,
        {
            let mut env = Bindings::new();
            env.set('x', x);
            proof {
                assert(env@ =~= seq![('x', x)]);
            }
            let fv = match self.visit(&f, Some(&env)) {
                Ok(v) => v,
                Err(e) => {
                    return Err(e);
                },
            };
            let fpv = match self.visit(&fp, Some(&env)) {
                Ok(v) => v,
                Err(e) => {
                    return Err(e);
                },
            };
            let negone = Node::Num(Rational { num: -1, den: 1 });
            proof {
                assert(negone@ == NodeV::Num(rat_neg_one()));
                lemma_wf_num(rat_neg_one());
                lemma_entries_wf_3(
                    TokenType::Mul,
                    NodeV::Num(rat_neg_one()),
                    TokenType::Mul,
                    fv@,
                    TokenType::Div,
                    fpv@,
                );
            }
            let stept = Node::Factors(
                chain3(
                    TokenType::Mul,
                    negone,
                    TokenType::Mul,
                    fv,
                    TokenType::Div,
                    fpv,
                ),
            );
            proof {
                lemma_wf_factors((stept@)->Factors_0);
            }
            let sv = match self.visit(&stept, Some(&env)) {
                Ok(v) => v,
                Err(e) => {
                    return Err(e);
                },
            };
            if let Node::Num(h0) = &sv {
                let h: Rational = *h0;
                let x2 = match x.add(h) {
                    Some(v) => v,
                    None => {
                        return Err(InterpreterError::Overflow);
                    },
                };
                match h.below_tol(10000) {
                    Some(true) => {
                        return Ok(x2);
                    },
                    Some(false) => {
                        x = x2;
                        iters = iters - 1;
                    },
                    None => {
                        return Err(InterpreterError::Overflow);
                    },
                }
            } else {
                return Err(InterpreterError::SolveError(String::from_str("Not substituted")));
            }
        }
        Err(InterpreterError::SolveError(String::from_str("Did not converge")))
    }

    /// Solve the system `eq1`, `eq2` for `x` and `y` from the guessed pair:
    /// the symbolic 2x2 Jacobian, its determinant and its inverse are built
    /// once, then the estimate moves by the inverse applied to the negated
    /// residuals until the squared step norm drops below `1/10^8` (or the
    /// iteration cap strikes).
    #[verifier::loop_isolation(false)]
    #[verifier::rlimit(100)]
    pub fn solve_system(&self, eq1: &Node, eq2: &Node, guess: (Rational, Rational)) -> (r:
        InterpreterResult<(Rational, Rational)>)
        requires
            self.wf(),
            node_wf(eq1@),
            node_wf(eq2@),
            guess.0.wf(),
            guess.1.wf(),
        ensures
            sres2_rel(r, solve2_s(eq1@, eq2@, const_table(), guess.0, guess.1)),
    {
        let ghost ct = const_table();
        let f1 = match self.move_equation(eq1) {
            Ok(v) => v,
            Err(e) => {
                return Err(e);
            },
        };
        let f2 = match self.move_equation(eq2) {
            Ok(v) => v,
            Err(e) => {
                return Err(e);
            },
        };
        let (i00, i01, i10, i11) = match self.inverse_entries(&f1, &f2) {
            Ok(v) => v,
            Err(e) => {
                return Err(e);
            },
        };
        let mut x = guess.0;
        let mut y = guess.1;
        let mut iters: u64 = ITER_CAP;
        while iters > 0
            invariant
                self.wf(),
                ct == const_table(),
                node_wf(f1@),
                node_wf(f2@),
                node_wf(i00@),
                node_wf(i01@),
                node_wf(i10@),
                node_wf(i11@),
                x.wf(),
                y.wf(),
                newton2_s(f1@, f2@, i00@, i01@, i10@, i11@, ct, guess.0, guess.1, ITER_CAP as nat)
                    == newton2_s(f1@, f2@, i00@, i01@, i10@, i11@, ct, x, y, iters as nat),
            decreases iters,
        {
            let mut env = Bindings::new();
            env.set('y', y);
            env.set('x', x);
            proof {
                assert(env@ =~= seq![('x', x), ('y', y)]);
            }
            let v1 = match self.visit(&f1, Some(&env)) {
                Ok(v) => v,
                Err(e) => {
                    return Err(e);
                },
            };
            let v2 = match self.visit(&f2, Some(&env)) {
                Ok(v) => v,
                Err(e) => {
                    return Err(e);
                },
            };
            let hx_t = step_row(&i00, &i01, &v1, &v2);
            let hy_t = step_row(&i10, &i11, &v1, &v2);
            let hxn = match self.visit(&hx_t, Some(&env)) {
                Ok(v) => v,
                Err(e) => {
                    return Err(e);
                },
            };
            let hyn = match self.visit(&hy_t, Some(&env)) {
                Ok(v) => v,
                Err(e) => {
                    return Err(e);
                },
            };
            let hx: Rational = match &hxn {
                Node::Num(h) => *h,
                _ => {
                    return Err(InterpreterError::SolveError(String::from_str("Not substituted")));
                },
            };
            let hy: Rational = match &hyn {
                Node::Num(h) => *h,
                _ => {
                    return Err(InterpreterError::SolveError(String::from_str("Not substituted")));
                },
            };
            let nx = match hx.mul(hx) {
                Some(v) => v,
                None => {
                    return Err(InterpreterError::Overflow);
                },
            };
            let ny = match hy.mul(hy) {
                Some(v) => v,
                None => {
                    return Err(InterpreterError::Overflow);
                },
            };
            let nsq = match nx.add(ny) {
                Some(v) => v,
                None => {
                    return Err(InterpreterError::Overflow);
                },
            };
            let x2 = match x.add(hx) {
                Some(v) => v,
                None => {
                    return Err(InterpreterError::Overflow);
                },
            };
            let y2 = match y.add(hy) {
                Some(v) => v,
                None => {
                    return Err(InterpreterError::Overflow);
                },
            };
            match nsq.below_tol(100000000) {
                Some(true) => {
                    return Ok((x2, y2));
                },
                Some(false) => {
                    x = x2;
                    y = y2;
                    iters = iters - 1;
                },
                None => {
                    return Err(InterpreterError::Overflow);
                },
            }
        }
        Err(InterpreterError::SolveError(String::from_str("Did not converge")))
    }

    /// Build the four simplified entries of the symbolic inverse Jacobian.
    #[verifier::rlimit(100)]
    fn inverse_entries(&self, f1: &Node, f2: &Node) -> (r: InterpreterResult<
        (Node, Node, Node, Node),
    >)
        requires
            self.wf(),
            node_wf(f1@),
            node_wf(f2@),
        ensures
            match inverse_s(f1@, f2@, const_table()) {
                Ok(vs) => r matches Ok(n) && n.0@ == vs.0 && n.1@ == vs.1 && n.2@ == vs.2 && n.3@
                    == vs.3 && node_wf(vs.0) && node_wf(vs.1) && node_wf(vs.2) && node_wf(vs.3),
                Err(e) => r matches Err(i) && i == err_to_interp(e),
            },
    {
        let j00 = match self.jacobian_entry(f1, 'x') {
            Ok(v) => v,
            Err(e) => {
                return Err(e);
            },
        };
        let j01 = match self.jacobian_entry(f1, 'y') {
            Ok(v) => v,
            Err(e) => {
                return Err(e);
            },
        };
        let j10 = match self.jacobian_entry(f2, 'x') {
            Ok(v) => v,
            Err(e) => {
                return Err(e);
            },
        };
        let j11 = match self.jacobian_entry(f2, 'y') {
            Ok(v) => v,
            Err(e) => {
                return Err(e);
            },
        };
        let ghost j00v = j00@;
        let ghost j01v = j01@;
        let ghost j10v = j10@;
        let ghost j11v = j11@;
        let lhs = Node::Factors(
            chain2(TokenType::Mul, j00.duplicate(), TokenType::Mul, j11.duplicate()),
        );
        let rhs = Node::Factors(
            chain2(TokenType::Mul, j01.duplicate(), TokenType::Mul, j10.duplicate()),
        );
        proof {
            assert(lhs@ == NodeV::Factors(seq![(TokenType::Mul, j00v), (TokenType::Mul, j11v)]));
            assert(rhs@ == NodeV::Factors(seq![(TokenType::Mul, j01v), (TokenType::Mul, j10v)]));
            lemma_entries_wf_2(TokenType::Mul, j00v, TokenType::Mul, j11v);
            lemma_entries_wf_2(TokenType::Mul, j01v, TokenType::Mul, j10v);
            lemma_wf_factors((lhs@)->Factors_0);
            lemma_wf_factors((rhs@)->Factors_0);
            lemma_entries_wf_2(TokenType::Plus, lhs@, TokenType::Minus, rhs@);
        }
        let det_t = Node::Terms(chain2(TokenType::Plus, lhs, TokenType::Minus, rhs));
        proof {
            lemma_wf_terms((det_t@)->Terms_0);
        }
        let det = match self.visit(&det_t, None) {
            Ok(v) => v,
            Err(e) => {
                return Err(e);
            },
        };
        let ghost detv = det@;
        let negone1 = Node::Num(Rational { num: -1, den: 1 });
        let negone2 = Node::Num(Rational { num: -1, den: 1 });
        proof {
            assert(negone1@ == NodeV::Num(rat_neg_one()));
            assert(negone2@ == NodeV::Num(rat_neg_one()));
            lemma_wf_num(rat_neg_one());
            lemma_entries_wf_2(TokenType::Mul, j11v, TokenType::Div, detv);
            lemma_entries_wf_3(
                TokenType::Mul,
                NodeV::Num(rat_neg_one()),
                TokenType::Mul,
                j01v,
                TokenType::Div,
                detv,
            );
            lemma_entries_wf_3(
                TokenType::Mul,
                NodeV::Num(rat_neg_one()),
                TokenType::Mul,
                j10v,
                TokenType::Div,
                detv,
            );
            lemma_entries_wf_2(TokenType::Mul, j00v, TokenType::Div, detv);
        }
        let i00_t = Node::Factors(
            chain2(TokenType::Mul, j11, TokenType::Div, det.duplicate()),
        );
        let i01_t = Node::Factors(
            chain3(
                TokenType::Mul,
                negone1,
                TokenType::Mul,
                j01,
                TokenType::Div,
                det.duplicate(),
            ),
        );
        let i10_t = Node::Factors(
            chain3(
                TokenType::Mul,
                negone2,
                TokenType::Mul,
                j10,
                TokenType::Div,
                det.duplicate(),
            ),
        );
        let i11_t = Node::Factors(chain2(TokenType::Mul, j00, TokenType::Div, det));
        proof {
            lemma_wf_factors((i00_t@)->Factors_0);
            lemma_wf_factors((i01_t@)->Factors_0);
            lemma_wf_factors((i10_t@)->Factors_0);
            lemma_wf_factors((i11_t@)->Factors_0);
        }
        let i00 = match self.visit(&i00_t, None) {
            Ok(v) => v,
            Err(e) => {
                return Err(e);
            },
        };
        let i01 = match self.visit(&i01_t, None) {
            Ok(v) => v,
            Err(e) => {
                return Err(e);
            },
        };
        let i10 = match self.visit(&i10_t, None) {
            Ok(v) => v,
            Err(e) => {
                return Err(e);
            },
        };
        let i11 = match self.visit(&i11_t, None) {
            Ok(v) => v,
            Err(e) => {
                return Err(e);
            },
        };
        Ok((i00, i01, i10, i11))
    }

    /// One entry of the symbolic Jacobian.
    fn jacobian_entry(&self, f: &Node, var: char) -> (r: InterpreterResult<Node>)
        requires
            self.wf(),
            node_wf(f@),
        ensures
            match jentry_s(f@, var, const_table()) {
                Ok(nv) => r matches Ok(n) && n@ == nv && node_wf(nv),
                Err(e) => r matches Err(i) && i == err_to_interp(e),
            },
    {
        let d = match self.differentiate(f, var, None) {
            Ok(v) => v,
            Err(e) => {
                return Err(e);
            },
        };
        self.visit(&d, None)
    }
}

/// Build the step row `-(a*v1) - (b*v2)` from copies of its parts.
fn step_row(a: &Node, b: &Node, v1: &Node, v2: &Node) -> (r: Node)
    ensures
        r@ == step_row_v(a@, b@, v1@, v2@),
        node_wf(a@) && node_wf(b@) && node_wf(v1@) && node_wf(v2@) ==> node_wf(r@),
{
    let negone1 = Node::Num(Rational { num: -1, den: 1 });
    let negone2 = Node::Num(Rational { num: -1, den: 1 });
    proof {
        assert(negone1@ == NodeV::Num(rat_neg_one()));
        assert(negone2@ == NodeV::Num(rat_neg_one()));
        lemma_wf_num(rat_neg_one());
        if node_wf(a@) && node_wf(b@) && node_wf(v1@) && node_wf(v2@) {
            lemma_entries_wf_3(
                TokenType::Mul,
                NodeV::Num(rat_neg_one()),
                TokenType::Mul,
                a@,
                TokenType::Mul,
                v1@,
            );
            lemma_entries_wf_3(
                TokenType::Mul,
                NodeV::Num(rat_neg_one()),
                TokenType::Mul,
                b@,
                TokenType::Mul,
                v2@,
            );
        }
    }
    let left = Node::Factors(
        chain3(
            TokenType::Mul,
            negone1,
            TokenType::Mul,
            a.duplicate(),
            TokenType::Mul,
            v1.duplicate(),
        ),
    );
    let right = Node::Factors(
        chain3(
            TokenType::Mul,
            negone2,
            TokenType::Mul,
            b.duplicate(),
            TokenType::Mul,
            v2.duplicate(),
        ),
    );
    proof {
        assert(left@ == NodeV::Factors(
            seq![
                (TokenType::Mul, NodeV::Num(rat_neg_one())),
                (TokenType::Mul, a@),
                (TokenType::Mul, v1@),
            ],
        ));
        assert(right@ == NodeV::Factors(
            seq![
                (TokenType::Mul, NodeV::Num(rat_neg_one())),
                (TokenType::Mul, b@),
                (TokenType::Mul, v2@),
            ],
        ));
        if node_wf(a@) && node_wf(b@) && node_wf(v1@) && node_wf(v2@) {
            lemma_wf_factors((left@)->Factors_0);
            lemma_wf_factors((right@)->Factors_0);
            crate::interpreter::lemma_entries_wf_2(
                TokenType::Plus,
                left@,
                TokenType::Plus,
                right@,
            );
        }
    }
    let out = Node::Terms(chain2(TokenType::Plus, left, TokenType::Plus, right));
    proof {
        if node_wf(a@) && node_wf(b@) && node_wf(v1@) && node_wf(v2@) {
            lemma_wf_terms((out@)->Terms_0);
        }
    }
    out
}

} // verus!
