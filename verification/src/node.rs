//! The expression tree and its mathematical view.
//!
//! `Node` is the executable tree; `NodeV` is its ghost mirror, with `Seq` in
//! place of `Vec`, and is what every contract of the engine speaks about.
//! Product and sum chains carry one `TokenType` tag per element (`Mul`/`Div`,
//! `Plus`/`Minus`).

use crate::rational::Rational;
use crate::token::{FuncType, TokenType};
use vstd::prelude::*;

verus! {

/// An owned expression tree.
#[derive(Debug)]
pub enum Node {
    Num(Rational),
    Var(char),
    Func { func: FuncType, arg: Box<Node> },
    Exponent { base: Box<Node>, exponent: Box<Node> },
    Factors(Vec<(TokenType, Node)>),
    Terms(Vec<(TokenType, Node)>),
    Derivative { derivative: Box<Node>, var: char },
    Equation { lhs: Box<Node>, rhs: Box<Node> },
}

/// The ghost mirror of `Node`.
pub enum NodeV {
    Num(Rational),
    Var(char),
    Func { func: FuncType, arg: Box<NodeV> },
    Exponent { base: Box<NodeV>, exponent: Box<NodeV> },
    Factors(Seq<(TokenType, NodeV)>),
    Terms(Seq<(TokenType, NodeV)>),
    Derivative { derivative: Box<NodeV>, var: char },
    Equation { lhs: Box<NodeV>, rhs: Box<NodeV> },
}

pub open spec fn node_view(n: Node) -> NodeV
    decreases n, 0int,
{
    match n {
        Node::Num(r) => NodeV::Num(r),
        Node::Var(c) => NodeV::Var(c),
        Node::Func { func, arg } => NodeV::Func { func, arg: Box::new(node_view(*arg)) },
        Node::Exponent { base, exponent } => NodeV::Exponent {
            base: Box::new(node_view(*base)),
            exponent: Box::new(node_view(*exponent)),
        },
        Node::Factors(v) => NodeV::Factors(entries_view(v, 0)),
        Node::Terms(v) => NodeV::Terms(entries_view(v, 0)),
        Node::Derivative { derivative, var } => NodeV::Derivative {
            derivative: Box::new(node_view(*derivative)),
            var,
        },
        Node::Equation { lhs, rhs } => NodeV::Equation {
            lhs: Box::new(node_view(*lhs)),
            rhs: Box::new(node_view(*rhs)),
        },
    }
}

pub open spec fn entries_view(v: Vec<(TokenType, Node)>, i: int) -> Seq<(TokenType, NodeV)>
    decreases v, v@.len() - i,
{
    if i < 0 || i >= v@.len() {
        Seq::empty()
    } else {
        seq![(v@[i].0, node_view(v@[i].1))] + entries_view(v, i + 1)
    }
}

impl View for Node {
    type V = NodeV;

    open spec fn view(&self) -> NodeV {
        node_view(*self)
    }
}

/// Pointwise description of `entries_view`.
pub proof fn lemma_entries_view(v: Vec<(TokenType, Node)>, i: int)
    requires
        0 <= i <= v@.len(),
    ensures
        entries_view(v, i).len() == v@.len() - i,
        forall|j: int|
            i <= j < v@.len() ==> entries_view(v, i)[j - i] == (v@[j].0, node_view(v@[j].1)),
    decreases v@.len() - i,
{
    if i < v@.len() {
        lemma_entries_view(v, i + 1);
    }
}

/// Pointwise description of a whole chain's view.
pub proof fn lemma_entries_view0(v: Vec<(TokenType, Node)>)
    ensures
        entries_view(v, 0).len() == v@.len(),
        forall|j: int|
            0 <= j < v@.len() ==> entries_view(v, 0)[j] == (v@[j].0, node_view(v@[j].1)),
{
    lemma_entries_view(v, 0);
    assert forall|j: int| 0 <= j < v@.len() implies entries_view(v, 0)[j] == (
    v@[j].0,
    node_view(v@[j].1),
    ) by {
        assert(entries_view(v, 0)[j - 0] == (v@[j].0, node_view(v@[j].1)));
    }
}

impl Node {
    /// A deep copy.
    pub fn duplicate(&self) -> (r: Node)
        ensures
            r@ == self@,
        decreases *self, 1int,
    {
        match self {
            Node::Num(r) => Node::Num(*r),
            Node::Var(c) => Node::Var(*c),
            Node::Func { func, arg } => Node::Func {
                func: *func,
                arg: Box::new(arg.duplicate()),
            },
            Node::Exponent { base, exponent } => Node::Exponent {
                base: Box::new(base.duplicate()),
                exponent: Box::new(exponent.duplicate()),
            },
            Node::Factors(v) => Node::Factors(duplicate_entries(v)),
            Node::Terms(v) => Node::Terms(duplicate_entries(v)),
            Node::Derivative { derivative, var } => Node::Derivative {
                derivative: Box::new(derivative.duplicate()),
                var: *var,
            },
            Node::Equation { lhs, rhs } => Node::Equation {
                lhs: Box::new(lhs.duplicate()),
                rhs: Box::new(rhs.duplicate()),
            },
        }
    }

    /// Structural equality of two trees.
    pub fn deep_eq(&self, other: &Node) -> (r: bool)
        ensures
            r == (self@ == other@),
        decreases *self, 1int,
    {
        match (self, other) {
            (Node::Num(a), Node::Num(b)) => a == b,
            (Node::Var(a), Node::Var(b)) => a == b,
            (Node::Func { func: fa, arg: aa }, Node::Func { func: fb, arg: ab }) => {
                *fa == *fb && aa.deep_eq(ab)
            },
            (
                Node::Exponent { base: ba, exponent: ea },
                Node::Exponent { base: bb, exponent: eb },
            ) => ba.deep_eq(bb) && ea.deep_eq(eb),
            (Node::Factors(va), Node::Factors(vb)) => entries_eq(va, vb),
            (Node::Terms(va), Node::Terms(vb)) => entries_eq(va, vb),
            (
                Node::Derivative { derivative: da, var: ca },
                Node::Derivative { derivative: db, var: cb },
            ) => *ca == *cb && da.deep_eq(db),
            (Node::Equation { lhs: la, rhs: ra }, Node::Equation { lhs: lb, rhs: rb }) => {
                la.deep_eq(lb) && ra.deep_eq(rb)
            },
            _ => {
                proof {
                    assert(self@ != other@);
                }
                false
            },
        }
    }
}

/// A deep copy of a chain's element list.
pub fn duplicate_entries(v: &Vec<(TokenType, Node)>) -> (r: Vec<(TokenType, Node)>)
    ensures
        entries_view(r, 0) == entries_view(*v, 0),
    decreases *v, 0int,
{
    let mut out: Vec<(TokenType, Node)> = Vec::new();
    let mut i: usize = 0;
    proof {
        lemma_entries_view0(*v);
    }
    while i < v.len()
        invariant
            i <= v@.len(),
            out@.len() == i,
            forall|j: int|
                0 <= j < i ==> out@[j].0 == v@[j].0 && node_view(out@[j].1) == node_view(v@[j].1),
        decreases v@.len() - i,
    {
        let d = v[i].1.duplicate();
        out.push((v[i].0, d));
        i = i + 1;
    }
    proof {
        lemma_entries_view0(*v);
        lemma_entries_view0(out);
        assert(entries_view(out, 0) =~= entries_view(*v, 0));
    }
    out
}

/// A chain of one element.
pub fn chain1(t1: TokenType, n1: Node) -> (r: Vec<(TokenType, Node)>)
    ensures
        entries_view(r, 0) == seq![(t1, n1@)],
{
    let ghost v1 = n1@;
    let mut r: Vec<(TokenType, Node)> = Vec::new();
    r.push((t1, n1));
    proof {
        lemma_entries_view0(r);
        assert(entries_view(r, 0) =~= seq![(t1, v1)]);
    }
    r
}

/// A chain of two elements.
pub fn chain2(t1: TokenType, n1: Node, t2: TokenType, n2: Node) -> (r: Vec<(TokenType, Node)>)
    ensures
        entries_view(r, 0) == seq![(t1, n1@), (t2, n2@)],
{
    let ghost v1 = n1@;
    let ghost v2 = n2@;
    let mut r: Vec<(TokenType, Node)> = Vec::new();
    r.push((t1, n1));
    r.push((t2, n2));
    proof {
        lemma_entries_view0(r);
        assert(entries_view(r, 0) =~= seq![(t1, v1), (t2, v2)]);
    }
    r
}

/// A chain of three elements.
pub fn chain3(
    t1: TokenType,
    n1: Node,
    t2: TokenType,
    n2: Node,
    t3: TokenType,
    n3: Node,
) -> (r: Vec<(TokenType, Node)>)
    ensures
        entries_view(r, 0) == seq![(t1, n1@), (t2, n2@), (t3, n3@)],
{
    let ghost v1 = n1@;
    let ghost v2 = n2@;
    let ghost v3 = n3@;
    let mut r: Vec<(TokenType, Node)> = Vec::new();
    r.push((t1, n1));
    r.push((t2, n2));
    r.push((t3, n3));
    proof {
        lemma_entries_view0(r);
        assert(entries_view(r, 0) =~= seq![(t1, v1), (t2, v2), (t3, v3)]);
    }
    r
}

/// Elementwise structural equality of two chains.
fn entries_eq(a: &Vec<(TokenType, Node)>, b: &Vec<(TokenType, Node)>) -> (r: bool)
    ensures
        r == (entries_view(*a, 0) == entries_view(*b, 0)),
    decreases *a, 0int,
{
    proof {
        lemma_entries_view0(*a);
        lemma_entries_view0(*b);
    }
    if a.len() != b.len() {
        proof {
            assert(entries_view(*a, 0).len() != entries_view(*b, 0).len());
        }
        return false;
    }
    let mut i: usize = 0;
    while i < a.len()
        invariant
            a@.len() == b@.len(),
            i <= a@.len(),
            entries_view(*a, 0).len() == a@.len(),
            entries_view(*b, 0).len() == b@.len(),
            forall|j: int|
                0 <= j < a@.len() ==> entries_view(*a, 0)[j] == (a@[j].0, node_view(a@[j].1)),
            forall|j: int|
                0 <= j < b@.len() ==> entries_view(*b, 0)[j] == (b@[j].0, node_view(b@[j].1)),
            forall|j: int|
                0 <= j < i ==> a@[j].0 == b@[j].0 && node_view(a@[j].1) == node_view(b@[j].1),
        decreases a@.len() - i,
    {
        if a[i].0 != b[i].0 {
            proof {
                assert(entries_view(*a, 0)[i as int] != entries_view(*b, 0)[i as int]);
            }
            return false;
        }
        if !a[i].1.deep_eq(&b[i].1) {
            proof {
                assert(entries_view(*a, 0)[i as int] != entries_view(*b, 0)[i as int]);
            }
            return false;
        }
        i = i + 1;
    }
    proof {
        assert(entries_view(*a, 0) =~= entries_view(*b, 0));
    }
    true
}

} // verus!
