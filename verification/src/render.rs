//! Textual rendering of expression trees.
//!
//! Chains and derivative markers are re-parenthesized wherever they stand
//! inside a power or as a chain element, so the text reads back with the
//! same precedence; leaves are never parenthesized.

use crate::interpreter::{entries_wf, node_wf};
use crate::node::{entries_view, lemma_entries_view0, node_view, Node, NodeV};
use crate::rational::Rational;
use crate::token::{FuncType, TokenType};
use vstd::prelude::*;

verus! {

/// The character of a decimal digit value.
pub open spec fn digit_char_of(d: int) -> char {
    if d == 0 {
        '0'
    } else if d == 1 {
        '1'
    } else if d == 2 {
        '2'
    } else if d == 3 {
        '3'
    } else if d == 4 {
        '4'
    } else if d == 5 {
        '5'
    } else if d == 6 {
        '6'
    } else if d == 7 {
        '7'
    } else if d == 8 {
        '8'
    } else {
        '9'
    }
}

/// The decimal digits of a non-negative number.
pub open spec fn dec_digits(n: int) -> Seq<char>
    decreases n,
{
    if n < 10 {
        seq![digit_char_of(n)]
    } else {
        dec_digits(n / 10).push(digit_char_of(n % 10))
    }
}

/// The text of a fraction: the sign, the numerator's digits, and `/` with
/// the denominator's digits unless it is one.
pub open spec fn rat_text(r: Rational) -> Seq<char> {
    let sign: Seq<char> = if r.num < 0 {
        seq!['-']
    } else {
        Seq::empty()
    };
    let mag = if r.num < 0 {
        -(r.num as int)
    } else {
        r.num as int
    };
    let den: Seq<char> = if r.den == 1 {
        Seq::empty()
    } else {
        seq!['/'] + dec_digits(r.den as int)
    };
    sign + dec_digits(mag) + den
}

/// The printed name of a unary function.
pub open spec fn func_text(f: FuncType) -> Seq<char> {
    match f {
        FuncType::Sin => seq!['s', 'i', 'n'],
        FuncType::Cos => seq!['c', 'o', 's'],
        FuncType::Tan => seq!['t', 'a', 'n'],
        FuncType::Csc => seq!['c', 's', 'c'],
        FuncType::Sec => seq!['s', 'e', 'c'],
        FuncType::Cot => seq!['c', 'o', 't'],
        FuncType::Ln => seq!['l', 'n'],
        FuncType::Log => seq!['l', 'o', 'g'],
    }
}

/// The text of a whole tree.
pub open spec fn render_s(t: NodeV) -> Seq<char>
    decreases t, 2int,
{
    match t {
        NodeV::Num(r) => rat_text(r),
        NodeV::Var(c) => seq![c],
        NodeV::Func { func, arg } => func_text(func) + seq!['('] + render_s(*arg) + seq![')'],
        NodeV::Exponent { base, exponent } => child_text(*base) + seq!['^'] + child_text(
            *exponent,
        ),
        NodeV::Factors(s) => chain_text(s, 0, true),
        NodeV::Terms(s) => chain_text(s, 0, false),
        NodeV::Derivative { derivative, var } => seq!['d', '/', 'd', var, '['] + render_s(
            *derivative,
        ) + seq![']'],
        NodeV::Equation { lhs, rhs } => render_s(*lhs) + seq![' ', '=', ' '] + render_s(*rhs),
    }
}

/// The text of a subtree that must keep its precedence: chains and
/// derivative markers get parentheses, leaves and powers do not.
pub open spec fn child_text(t: NodeV) -> Seq<char>
    decreases t, 3int,
{
    match t {
        NodeV::Factors(_) | NodeV::Terms(_) | NodeV::Derivative { .. } => seq!['('] + render_s(t)
            + seq![')'],
        _ => render_s(t),
    }
}

/// The text of a chain from element `i` on.  In a product chain (`mul`
/// true) every element after the first is led by its `*` or `/`; in a sum
/// chain by its `+` or `-`, a leading minus included.
pub open spec fn chain_text(s: Seq<(TokenType, NodeV)>, i: int, mul: bool) -> Seq<char>
    decreases s, s.len() - i,
{
    if i < 0 || i >= s.len() {
        Seq::empty()
    } else {
        let tag: Seq<char> = if mul {
            if i > 0 {
                if s[i].0 == TokenType::Div {
                    seq!['/']
                } else {
                    seq!['*']
                }
            } else {
                Seq::empty()
            }
        } else {
            if i > 0 || s[i].0 == TokenType::Minus {
                if s[i].0 == TokenType::Minus {
                    seq!['-']
                } else {
                    seq!['+']
                }
            } else {
                Seq::empty()
            }
        };
        tag + child_text(s[i].1) + chain_text(s, i + 1, mul)
    }
}

/// Relies on String::push: appends exactly one character.
#[verifier::external_body]
fn push_char(s: &mut String, c: char)
    ensures
        final(s)@ == old(s)@.push(c),
{
    s.push(c);
}

/// Append the decimal digits of a non-negative number.
fn push_digits(out: &mut String, n: u128)
    ensures
        final(out)@ == old(out)@ + dec_digits(n as int),
    decreases n,
{
    if n < 10 {
        let d: u8 = n as u8;
        let c: char = if d == 0 {
            '0'
        } else if d == 1 {
            '1'
        } else if d == 2 {
            '2'
        } else if d == 3 {
            '3'
        } else if d == 4 {
            '4'
        } else if d == 5 {
            '5'
        } else if d == 6 {
            '6'
        } else if d == 7 {
            '7'
        } else if d == 8 {
            '8'
        } else {
            '9'
        };
        push_char(out, c);
        proof {
            assert(final(out)@ =~= old(out)@ + dec_digits(n as int));
        }
    } else {
        push_digits(out, n / 10);
        let d: u8 = (n % 10) as u8;
        let c: char = if d == 0 {
            '0'
        } else if d == 1 {
            '1'
        } else if d == 2 {
            '2'
        } else if d == 3 {
            '3'
        } else if d == 4 {
            '4'
        } else if d == 5 {
            '5'
        } else if d == 6 {
            '6'
        } else if d == 7 {
            '7'
        } else if d == 8 {
            '8'
        } else {
            '9'
        };
        push_char(out, c);
        proof {
            assert(c == digit_char_of(n as int % 10));
            assert(final(out)@ =~= old(out)@ + dec_digits(n as int));
        }
    }
}

/// Append the text of a fraction.
fn push_rational(out: &mut String, r: &Rational)
    requires
        r.wf(),
    ensures
        final(out)@ == old(out)@ + rat_text(*r),
{
    let mag: u128 = if r.num == i128::MIN {
        // well-formed values produced by the engine never hold this edge,
        // but rendering must not fail on it either
        (-(r.num + 1)) as u128 + 1
    } else if r.num < 0 {
        (-r.num) as u128
    } else {
        r.num as u128
    };
    if r.num < 0 {
        push_char(out, '-');
    }
    push_digits(out, mag);
    if r.den != 1 {
        push_char(out, '/');
        push_digits(out, r.den as u128);
    }
    proof {
        assert(final(out)@ =~= old(out)@ + rat_text(*r));
    }
}

impl Node {
    /// The tree as text, with precedence-preserving parentheses.
    pub fn render(&self) -> (r: String)
        requires
            node_wf(self@),
        ensures
            r@ == render_s(self@),
    {
        let mut out = String::new();
        self.render_into(&mut out);
        out
    }

    /// Append this tree's text to `out`.
    fn render_into(&self, out: &mut String)
        requires
            node_wf(self@),
        ensures
            final(out)@ == old(out)@ + render_s(self@),
        decreases *self, 2int,
    {
        match self {
            Node::Num(r) => {
                push_rational(out, r);
            },
            Node::Var(c) => {
                push_char(out, *c);
                proof {
                    assert(final(out)@ =~= old(out)@ + seq![*c]);
                }
            },
            Node::Func { func, arg } => {
                match func {
                    FuncType::Sin => {
                        push_char(out, 's');
                        push_char(out, 'i');
                        push_char(out, 'n');
                    },
                    FuncType::Cos => {
                        push_char(out, 'c');
                        push_char(out, 'o');
                        push_char(out, 's');
                    },
                    FuncType::Tan => {
                        push_char(out, 't');
                        push_char(out, 'a');
                        push_char(out, 'n');
                    },
                    FuncType::Csc => {
                        push_char(out, 'c');
                        push_char(out, 's');
                        push_char(out, 'c');
                    },
                    FuncType::Sec => {
                        push_char(out, 's');
                        push_char(out, 'e');
                        push_char(out, 'c');
                    },
                    FuncType::Cot => {
                        push_char(out, 'c');
                        push_char(out, 'o');
                        push_char(out, 't');
                    },
                    FuncType::Ln => {
                        push_char(out, 'l');
                        push_char(out, 'n');
                    },
                    FuncType::Log => {
                        push_char(out, 'l');
                        push_char(out, 'o');
                        push_char(out, 'g');
                    },
                }
                push_char(out, '(');
                arg.render_into(out);
                push_char(out, ')');
                proof {
                    assert(final(out)@ =~= old(out)@ + render_s(self@));
                }
            },
            Node::Exponent { base, exponent } => {
                base.render_child(out);
                push_char(out, '^');
                exponent.render_child(out);
                proof {
                    assert(final(out)@ =~= old(out)@ + render_s(self@));
                }
            },
            Node::Factors(v) => {
                proof {
                    assert(self@ == NodeV::Factors(entries_view(*v, 0)));
                    crate::interpreter::lemma_wf_factors_inv(entries_view(*v, 0));
                }
                render_chain(v, out, true);
                proof {
                    assert(render_s(self@) == chain_text(entries_view(*v, 0), 0, true));
                }
            },
            Node::Terms(v) => {
                proof {
                    assert(self@ == NodeV::Terms(entries_view(*v, 0)));
                    crate::interpreter::lemma_wf_terms_inv(entries_view(*v, 0));
                }
                render_chain(v, out, false);
                proof {
                    assert(render_s(self@) == chain_text(entries_view(*v, 0), 0, false));
                }
            },
            Node::Derivative { derivative, var } => {
                push_char(out, 'd');
                push_char(out, '/');
                push_char(out, 'd');
                push_char(out, *var);
                push_char(out, '[');
                derivative.render_into(out);
                push_char(out, ']');
                proof {
                    assert(final(out)@ =~= old(out)@ + render_s(self@));
                }
            },
            Node::Equation { lhs, rhs } => {
                lhs.render_into(out);
                push_char(out, ' ');
                push_char(out, '=');
                push_char(out, ' ');
                rhs.render_into(out);
                proof {
                    assert(final(out)@ =~= old(out)@ + render_s(self@));
                }
            },
        }
    }

    /// Append this subtree's text, parenthesized where precedence asks.
    fn render_child(&self, out: &mut String)
        requires
            node_wf(self@),
        ensures
            final(out)@ == old(out)@ + child_text(self@),
        decreases *self, 3int,
    {
        let wrap: bool = match self {
            Node::Factors(_) | Node::Terms(_) | Node::Derivative { .. } => true,
            _ => false,
        };
        if wrap {
            push_char(out, '(');
            self.render_into(out);
            push_char(out, ')');
            proof {
                assert(final(out)@ =~= old(out)@ + child_text(self@));
            }
        } else {
            self.render_into(out);
        }
    }
}

/// Append a chain's text, tags between the elements.
fn render_chain(v: &Vec<(TokenType, Node)>, out: &mut String, mul: bool)
    requires
        entries_wf(entries_view(*v, 0)),
    ensures
        final(out)@ == old(out)@ + chain_text(entries_view(*v, 0), 0, mul),
    decreases *v, 1int,
{
    let ghost s = entries_view(*v, 0);
    proof {
        lemma_entries_view0(*v);
    }
    let mut i: usize = 0;
    proof {
        assert(old(out)@ + Seq::<char>::empty() =~= old(out)@);
    }
    while i < v.len()
        invariant
            i <= v@.len(),
            s == entries_view(*v, 0),
            s.len() == v@.len(),
            entries_wf(s),
            forall|j: int| 0 <= j < v@.len() ==> s[j] == (v@[j].0, node_view(v@[j].1)),
            old(out)@ + chain_text(s, 0, mul) == out@ + chain_text(s, i as int, mul),
        decreases v@.len() - i,
    {
        let ghost before = out@;
        if mul {
            if i > 0 {
                if v[i].0 == TokenType::Div {
                    push_char(out, '/');
                } else {
                    push_char(out, '*');
                }
            }
        } else {
            if i > 0 || v[i].0 == TokenType::Minus {
                if v[i].0 == TokenType::Minus {
                    push_char(out, '-');
                } else {
                    push_char(out, '+');
                }
            }
        }
        proof {
            assert(node_wf(s[i as int].1));
        }
        v[i].1.render_child(out);
        proof {
            assert(before + chain_text(s, i as int, mul) =~= out@ + chain_text(
                s,
                i as int + 1,
                mul,
            ));
        }
        i = i + 1;
    }
    proof {
        assert(chain_text(s, v@.len() as int, mul) =~= Seq::<char>::empty());
        assert(out@ + Seq::<char>::empty() =~= out@);
    }
}

} // verus!
