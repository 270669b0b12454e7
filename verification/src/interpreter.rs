//! The expression engine: a simplifying evaluator over the built-in constant
//! table, together with the differentiator and the Newton solvers in the
//! submodules.

mod differentiator;
mod newton;
mod visit_exponent;
mod visit_factors;
mod visit_func;
mod visit_terms;

pub use differentiator::DifferentiatorError;

use crate::node::{entries_view, lemma_entries_view0, node_view, Node, NodeV};
use crate::rational::Rational;
use crate::semantics::{const_table, eval_entries, eval_s, lookup_v, ErrV};
use crate::token::{FuncType, TokenType};
use vstd::prelude::*;

verus! {

/// Everything the engine can report instead of a result.
#[derive(Clone, Debug)]
pub enum InterpreterError {
    /// An indeterminate form: `0^0`, division by zero, a cosecant pole.
    Undefined,
    /// `log` of zero.
    Infinity,
    /// `ln` of zero.
    NegInfinity,
    /// The differentiator failed.
    DifferentiatorError(DifferentiatorError),
    /// A solver failed; the message says how.
    SolveError(String),
    /// A value or an intermediate step left the machine range.
    Overflow,
}

pub type InterpreterResult<T> = Result<T, InterpreterError>;

/// The engine's error for each semantic failure.
pub open spec fn err_to_interp(e: ErrV) -> InterpreterError {
    match e {
        ErrV::Undefined => InterpreterError::Undefined,
        ErrV::Infinity => InterpreterError::Infinity,
        ErrV::NegInfinity => InterpreterError::NegInfinity,
        ErrV::EquationDiff => InterpreterError::DifferentiatorError(DifferentiatorError::Equation),
        ErrV::Overflow => InterpreterError::Overflow,
    }
}

/// The executable result `r` is exactly what the semantics `s` asks for.
pub open spec fn res_rel(r: Result<Node, InterpreterError>, s: Result<NodeV, ErrV>) -> bool {
    match s {
        Ok(nv) => match r {
            Ok(n) => n@ == nv,
            Err(_) => false,
        },
        Err(e) => match r {
            Ok(_) => false,
            Err(i) => i == err_to_interp(e),
        },
    }
}

/// All numeric leaves of a tree are well-formed fractions.
pub open spec fn node_wf(t: NodeV) -> bool
    decreases t,
{
    match t {
        NodeV::Num(r) => r.wf(),
        NodeV::Var(_) => true,
        NodeV::Func { arg, .. } => node_wf(*arg),
        NodeV::Exponent { base, exponent } => node_wf(*base) && node_wf(*exponent),
        NodeV::Factors(s) => forall|i: int| 0 <= i < s.len() ==> node_wf(#[trigger] s[i].1),
        NodeV::Terms(s) => forall|i: int| 0 <= i < s.len() ==> node_wf(#[trigger] s[i].1),
        NodeV::Derivative { derivative, .. } => node_wf(*derivative),
        NodeV::Equation { lhs, rhs } => node_wf(*lhs) && node_wf(*rhs),
    }
}

/// All entries of a chain are well-formed.
pub open spec fn entries_wf(s: Seq<(TokenType, NodeV)>) -> bool {
    forall|i: int| 0 <= i < s.len() ==> node_wf(#[trigger] s[i].1)
}

/// All values of an environment are well-formed fractions.
pub open spec fn env_wf(env: Seq<(char, Rational)>) -> bool {
    forall|i: int| 0 <= i < env.len() ==> (#[trigger] env[i].1).wf()
}

pub open spec fn opt_env_wf(ext: Option<Seq<(char, Rational)>>) -> bool {
    match ext {
        Some(m) => env_wf(m),
        None => true,
    }
}

/// Constructor steps for tree well-formedness.
pub proof fn lemma_wf_num(r: Rational)
    requires
        r.wf(),
    ensures
        node_wf(NodeV::Num(r)),
{
}

pub proof fn lemma_wf_func(f: FuncType, a: NodeV)
    requires
        node_wf(a),
    ensures
        node_wf(NodeV::Func { func: f, arg: Box::new(a) }),
{
}

pub proof fn lemma_wf_exponent(b: NodeV, e: NodeV)
    requires
        node_wf(b),
        node_wf(e),
    ensures
        node_wf(NodeV::Exponent { base: Box::new(b), exponent: Box::new(e) }),
{
}

pub proof fn lemma_wf_factors(s: Seq<(TokenType, NodeV)>)
    requires
        entries_wf(s),
    ensures
        node_wf(NodeV::Factors(s)),
{
}

pub proof fn lemma_wf_terms(s: Seq<(TokenType, NodeV)>)
    requires
        entries_wf(s),
    ensures
        node_wf(NodeV::Terms(s)),
{
}

/// A well-formed product chain has well-formed elements.
pub proof fn lemma_wf_factors_inv(s: Seq<(TokenType, NodeV)>)
    requires
        node_wf(NodeV::Factors(s)),
    ensures
        entries_wf(s),
{
    let t = NodeV::Factors(s);
    match t {
        NodeV::Factors(ss) => {
            assert(ss == s);
            assert(entries_wf(ss));
        },
        _ => {},
    }
}

/// A well-formed sum chain has well-formed elements.
pub proof fn lemma_wf_terms_inv(s: Seq<(TokenType, NodeV)>)
    requires
        node_wf(NodeV::Terms(s)),
    ensures
        entries_wf(s),
{
    let t = NodeV::Terms(s);
    match t {
        NodeV::Terms(ss) => {
            assert(ss == s);
            assert(entries_wf(ss));
        },
        _ => {},
    }
}

/// A one-element chain of well-formed trees is well-formed.
pub proof fn lemma_entries_wf_1(t1: TokenType, n1: NodeV)
    requires
        node_wf(n1),
    ensures
        entries_wf(seq![(t1, n1)]),
{
    let s = seq![(t1, n1)];
    assert forall|i: int| 0 <= i < s.len() implies node_wf(#[trigger] s[i].1) by {
        assert(s[0].1 == n1);
    }
}

/// A two-element chain of well-formed trees is well-formed.
pub proof fn lemma_entries_wf_2(t1: TokenType, n1: NodeV, t2: TokenType, n2: NodeV)
    requires
        node_wf(n1),
        node_wf(n2),
    ensures
        entries_wf(seq![(t1, n1), (t2, n2)]),
{
    let s = seq![(t1, n1), (t2, n2)];
    assert forall|i: int| 0 <= i < s.len() implies node_wf(#[trigger] s[i].1) by {
        if i == 0 {
            assert(s[0].1 == n1);
        } else {
            assert(s[1].1 == n2);
        }
    }
}

/// A three-element chain of well-formed trees is well-formed.
pub proof fn lemma_entries_wf_3(
    t1: TokenType,
    n1: NodeV,
    t2: TokenType,
    n2: NodeV,
    t3: TokenType,
    n3: NodeV,
)
    requires
        node_wf(n1),
        node_wf(n2),
        node_wf(n3),
    ensures
        entries_wf(seq![(t1, n1), (t2, n2), (t3, n3)]),
{
    let s = seq![(t1, n1), (t2, n2), (t3, n3)];
    assert forall|i: int| 0 <= i < s.len() implies node_wf(#[trigger] s[i].1) by {
        if i == 0 {
            assert(s[0].1 == n1);
        } else if i == 1 {
            assert(s[1].1 == n2);
        } else {
            assert(s[2].1 == n3);
        }
    }
}

/// The ghost environment an optional substitution table stands for.
pub open spec fn opt_env(ext: Option<&Bindings>) -> Option<Seq<(char, Rational)>> {
    match ext {
        Some(b) => Some(b@),
        None => None,
    }
}

/// A substitution table: symbol/value pairs, newest first.
pub struct Bindings {
    entries: Vec<(char, Rational)>,
}

impl View for Bindings {
    type V = Seq<(char, Rational)>;

    closed spec fn view(&self) -> Seq<(char, Rational)> {
        self.entries@
    }
}

/// A lookup skips over pairs whose symbol differs.
proof fn lemma_lookup_skip(env: Seq<(char, Rational)>, c: char, i: int)
    requires
        0 <= i <= env.len(),
        forall|j: int| 0 <= j < i ==> env[j].0 != c,
    ensures
        lookup_v(env, c) == lookup_v(env.skip(i), c),
    decreases i,
{
    if i > 0 {
        lemma_lookup_skip(env, c, i - 1);
        assert(env.skip(i - 1).drop_first() =~= env.skip(i));
        assert(env.skip(i - 1)[0] == env[i - 1]);
    } else {
        assert(env.skip(0) =~= env);
    }
}

/// A found value comes from the environment, so it is well-formed.
pub proof fn lemma_lookup_wf(env: Seq<(char, Rational)>, c: char)
    requires
        env_wf(env),
        lookup_v(env, c) is Some,
    ensures
        lookup_v(env, c)->0.wf(),
    decreases env.len(),
{
    if env.len() > 0 && env[0].0 != c {
        assert(env_wf(env.drop_first())) by {
            assert forall|i: int|
                0 <= i < env.drop_first().len() implies (#[trigger] env.drop_first()[i].1).wf() by {
                assert(env.drop_first()[i] == env[i + 1]);
            }
        }
        lemma_lookup_wf(env.drop_first(), c);
    }
}

impl Bindings {
    /// Whether every bound value is well-formed.
    pub open spec fn wf(&self) -> bool {
        env_wf(self@)
    }

    /// An empty table.
    pub fn new() -> (r: Bindings)
        ensures
            r@ == Seq::<(char, Rational)>::empty(),
            r.wf(),
    {
        Bindings { entries: Vec::new() }
    }

    /// Bind `c` to `v`; the new pair shadows any earlier one.
    pub fn set(&mut self, c: char, v: Rational)
        requires
            v.wf(),
        ensures
            final(self)@ == seq![(c, v)] + old(self)@,
            old(self).wf() ==> final(self).wf(),
    {
        self.entries.insert(0, (c, v));
        proof {
            assert(final(self)@ =~= seq![(c, v)] + old(self)@);
            if old(self).wf() {
                assert forall|i: int| 0 <= i < final(self)@.len() implies (
                #[trigger] final(self)@[i].1).wf() by {
                    if i > 0 {
                        assert(final(self)@[i] == old(self)@[i - 1]);
                    }
                }
            }
        }
    }

    /// The value bound to `c`, if any.
    pub fn get(&self, c: char) -> (r: Option<Rational>)
        ensures
            r == lookup_v(self@, c),
    {
        let mut i: usize = 0;
        while i < self.entries.len()
            invariant
                i <= self.entries@.len(),
                forall|j: int| 0 <= j < i ==> self.entries@[j].0 != c,
            decreases self.entries@.len() - i,
        {
            if self.entries[i].0 == c {
                proof {
                    lemma_lookup_skip(self@, c, i as int);
                    assert(self@.skip(i as int)[0] == self@[i as int]);
                }
                return Some(self.entries[i].1);
            }
            i = i + 1;
        }
        proof {
            lemma_lookup_skip(self@, c, self@.len() as int);
            assert(self@.skip(self@.len() as int) =~= Seq::empty());
        }
        None
    }
}

/// The expression engine.  It owns the built-in constant table (the named
/// constants for pi and e) and nothing else.
pub struct Interpreter {
    table: Bindings,
}

impl Interpreter {
    /// The constant table is exactly the built-in one.
    pub closed spec fn wf(&self) -> bool {
        self.table@ == const_table()
    }

    /// An engine with the two built-in constants.
    pub fn new() -> (r: Interpreter)
        ensures
            r.wf(),
    {
        let mut table = Bindings::new();
        table.set('e', Rational { num: 6121026514868073, den: 2251799813685248 });
        table.set('\u{3c0}', Rational { num: 884279719003555, den: 281474976710656 });
        proof {
            assert(table@ =~= const_table());
        }
        Interpreter { table }
    }

    /// Evaluate and simplify `node` under the optional substitution table.
    pub fn visit(&self, node: &Node, ext: Option<&Bindings>) -> (r: InterpreterResult<Node>)
        requires
            self.wf(),
            node_wf(node@),
            opt_env_wf(opt_env(ext)),
        ensures
            res_rel(r, eval_s(node@, const_table(), opt_env(ext), u64::MAX as nat)),
            r matches Ok(n) ==> node_wf(n@),
    {
        self.visit_at(node, ext, u64::MAX)
    }

    /// Evaluation with an explicit fuel supply.
    pub fn visit_at(&self, node: &Node, ext: Option<&Bindings>, fuel: u64) -> (r:
        InterpreterResult<Node>)
        requires
            self.wf(),
            node_wf(node@),
            opt_env_wf(opt_env(ext)),
        ensures
            res_rel(r, eval_s(node@, const_table(), opt_env(ext), fuel as nat)),
            r matches Ok(n) ==> node_wf(n@),
        decreases fuel, node@, 1int,
    {
        match node {
            Node::Num(r) => Ok(Node::Num(*r)),
            Node::Var(c) => {
                proof {
                    assert(env_wf(const_table())) by {
                        assert(const_table()[0].1.wf());
                        assert(const_table()[1].1.wf());
                    }
                }
                match self.table.get(*c) {
                    Some(v) => {
                        proof {
                            lemma_lookup_wf(const_table(), *c);
                        }
                        Ok(Node::Num(v))
                    },
                    None => match ext {
                        Some(m) => match m.get(*c) {
                            Some(v) => {
                                proof {
                                    lemma_lookup_wf(m@, *c);
                                }
                                Ok(Node::Num(v))
                            },
                            None => Ok(Node::Var(*c)),
                        },
                        None => Ok(Node::Var(*c)),
                    },
                }
            },
            Node::Func { func, arg } => self.visit_func(func, &**arg, ext, fuel),
            Node::Exponent { base, exponent } => self.visit_exponent(
                &**base,
                &**exponent,
                ext,
                fuel,
            ),
            Node::Factors(v) => self.visit_factors(v, ext, fuel),
            Node::Terms(v) => self.visit_terms(v, ext, fuel),
            Node::Derivative { derivative, var } => {
                if fuel == 0 {
                    Err(InterpreterError::Overflow)
                } else {
                    match self.differentiate_at(&**derivative, *var, ext, fuel) {
                        Ok(d) => self.visit_at(&d, ext, fuel - 1),
                        Err(e) => Err(e),
                    }
                }
            },
            Node::Equation { lhs, rhs } => match self.visit_at(&**lhs, ext, fuel) {
                Ok(l) => match self.visit_at(&**rhs, ext, fuel) {
                    Ok(rr) => Ok(Node::Equation { lhs: Box::new(l), rhs: Box::new(rr) }),
                    Err(e) => Err(e),
                },
                Err(e) => Err(e),
            },
        }
    }

    /// Evaluate every element of a chain, in order, keeping its tag.
    #[verifier::loop_isolation(false)]
    pub(crate) fn visit_entries(
        &self,
        entries: &Vec<(TokenType, Node)>,
        ext: Option<&Bindings>,
        fuel: u64,
    ) -> (r: Result<Vec<(TokenType, Node)>, InterpreterError>)
        requires
            self.wf(),
            entries_wf(entries_view(*entries, 0)),
            opt_env_wf(opt_env(ext)),
        ensures
            ({
                let s = eval_entries(
                    entries_view(*entries, 0),
                    const_table(),
                    opt_env(ext),
                    fuel as nat,
                    0,
                );
                match s {
                    Ok(vs) => r matches Ok(v) && entries_view(v, 0) == vs && entries_wf(vs),
                    Err(e) => r matches Err(i) && i == err_to_interp(e),
                }
            }),
        decreases fuel, entries_view(*entries, 0), 0int,
    {
        let ghost s = entries_view(*entries, 0);
        let ghost ct = const_table();
        let ghost env = opt_env(ext);
        proof {
            lemma_entries_view0(*entries);
        }
        let mut out: Vec<(TokenType, Node)> = Vec::new();
        let mut i: usize = 0;
        proof {
            lemma_entries_view0(out);
            assert(entries_view(out, 0) + Seq::<(TokenType, NodeV)>::empty() =~= entries_view(
                out,
                0,
            ));
        }
        while i < entries.len()
            invariant
                self.wf(),
                opt_env_wf(env),
                env == opt_env(ext),
                ct == const_table(),
                s == entries_view(*entries, 0),
                s.len() == entries@.len(),
                entries_wf(s),
                forall|j: int|
                    0 <= j < entries@.len() ==> s[j] == (
                        entries@[j].0,
                        node_view(entries@[j].1),
                    ),
                i <= entries@.len(),
                entries_view(out, 0).len() == i as int,
                entries_wf(entries_view(out, 0)),
                eval_entries(s, ct, env, fuel as nat, 0) == (match eval_entries(
                    s,
                    ct,
                    env,
                    fuel as nat,
                    i as int,
                ) {
                    Ok(rest) => Ok::<Seq<(TokenType, NodeV)>, ErrV>(entries_view(out, 0) + rest),
                    Err(e) => Err(e),
                }),
            decreases entries@.len() - i,
        {
            let ghost old_out = entries_view(out, 0);
            proof {
                lemma_entries_view0(out);
                assert(node_wf(s[i as int].1));
                let si = s[i as int];
                assert(decreases_to!(s => si));
            }
            match self.visit_at(&entries[i].1, ext, fuel) {
                Ok(n) => {
                    out.push((entries[i].0, n));
                    proof {
                        lemma_entries_view0(out);
                        assert(entries_view(out, 0) =~= old_out.push((s[i as int].0, n@)));
                        let rest1 = eval_entries(s, ct, env, fuel as nat, i as int);
                        let rest2 = eval_entries(s, ct, env, fuel as nat, i as int + 1);
                        match rest2 {
                            Ok(r2) => {
                                assert(old_out + (seq![(s[i as int].0, n@)] + r2)
                                    =~= entries_view(out, 0) + r2);
                            },
                            Err(_) => {},
                        }
                    }
                    i = i + 1;
                },
                Err(e) => {
                    return Err(e);
                },
            }
        }
        proof {
            assert(eval_entries(s, ct, env, fuel as nat, i as int) == Ok::<
                Seq<(TokenType, NodeV)>,
                ErrV,
            >(Seq::empty()));
            assert(entries_view(out, 0) + Seq::<(TokenType, NodeV)>::empty() =~= entries_view(
                out,
                0,
            ));
        }
        Ok(out)
    }
}

} // verus!
