//! The recursive-descent grammar parser: tokens to an expression tree.
//!
//! Its contract toward the engine is the tree shape: every chain it builds
//! is non-empty and well-tagged, and an equation can only be the root.

use crate::node::{entries_view, lemma_entries_view0, Node, NodeV};
use crate::token::{Token, TokenType};
use vstd::prelude::*;

verus! {

/// A parse failure.
#[derive(Clone, Copy, Debug)]
pub enum ParserError {
    /// A token of this shape was required, another was found.
    Expected { expected: TokenType, got: TokenType },
    /// No rule accepts this token here.
    Unexpected(TokenType),
    /// An equation whose left side is a derivative is not supported.
    DifferentialEquation,
}

pub type ParserResult<T> = Result<T, ParserError>;

/// The tree shapes the grammar can build below the root: chains non-empty
/// and well-tagged, numeric leaves well-formed, and no equation anywhere.
pub open spec fn expr_wf(t: NodeV) -> bool
    decreases t,
{
    match t {
        NodeV::Num(r) => r.wf(),
        NodeV::Var(_) => true,
        NodeV::Func { arg, .. } => expr_wf(*arg),
        NodeV::Exponent { base, exponent } => expr_wf(*base) && expr_wf(*exponent),
        NodeV::Factors(s) => s.len() >= 1 && forall|i: int|
            0 <= i < s.len() ==> ((#[trigger] s[i]).0 == TokenType::Mul || s[i].0
                == TokenType::Div) && expr_wf(s[i].1),
        NodeV::Terms(s) => s.len() >= 1 && forall|i: int|
            0 <= i < s.len() ==> ((#[trigger] s[i]).0 == TokenType::Plus || s[i].0
                == TokenType::Minus) && expr_wf(s[i].1),
        NodeV::Derivative { derivative, .. } => expr_wf(*derivative),
        NodeV::Equation { .. } => false,
    }
}

/// What a whole parse may produce: an expression, or one equation at the
/// root.
pub open spec fn parse_wf(t: NodeV) -> bool {
    match t {
        NodeV::Equation { lhs, rhs } => expr_wf(*lhs) && expr_wf(*rhs),
        _ => expr_wf(t),
    }
}

/// No token of `toks[a..b]` is an equals sign or the end-of-input token:
/// what the expression grammar consumes.
pub open spec fn stop_free(toks: Seq<Token>, a: int, b: int) -> bool {
    forall|i: int|
        a <= i < b ==> crate::token::type_of(#[trigger] toks[i]) != TokenType::Equals
            && crate::token::type_of(toks[i]) != TokenType::Eof
}

/// Some token of `toks[a..b]` is an equals sign.
pub open spec fn has_equals(toks: Seq<Token>, a: int, b: int) -> bool {
    exists|i: int| a <= i < b && crate::token::type_of(#[trigger] toks[i]) == TokenType::Equals
}

/// The derivative notation's opening shape sits at position `p`:
/// `d` `/` `d` variable `(`.
pub open spec fn derivative_prefix(toks: Seq<Token>, p: int) -> bool {
    &&& 0 <= p
    &&& p + 5 <= toks.len()
    &&& toks[p] == Token::Var('d')
    &&& crate::token::type_of(toks[p + 1]) == TokenType::Div
    &&& toks[p + 2] == Token::Var('d')
    &&& crate::token::type_of(toks[p + 3]) == TokenType::Var
    &&& crate::token::type_of(toks[p + 4]) == TokenType::LParen
}

/// A grammar-shaped tree has well-formed numeric leaves everywhere.
pub proof fn lemma_expr_wf_node_wf(t: NodeV)
    requires
        expr_wf(t),
    ensures
        crate::interpreter::node_wf(t),
    decreases t,
{
    match t {
        NodeV::Func { arg, .. } => {
            lemma_expr_wf_node_wf(*arg);
        },
        NodeV::Exponent { base, exponent } => {
            lemma_expr_wf_node_wf(*base);
            lemma_expr_wf_node_wf(*exponent);
        },
        NodeV::Factors(s) => {
            assert forall|i: int| 0 <= i < s.len() implies crate::interpreter::node_wf(
                #[trigger] s[i].1,
            ) by {
                lemma_expr_wf_node_wf(s[i].1);
            }
        },
        NodeV::Terms(s) => {
            assert forall|i: int| 0 <= i < s.len() implies crate::interpreter::node_wf(
                #[trigger] s[i].1,
            ) by {
                lemma_expr_wf_node_wf(s[i].1);
            }
        },
        NodeV::Derivative { derivative, .. } => {
            lemma_expr_wf_node_wf(*derivative);
        },
        _ => {},
    }
}

/// The parser: a cursor over a token slice.
pub struct Parser<'a> {
    tokens: &'a [Token],
    curr: usize,
}

impl<'a> Parser<'a> {
    pub closed spec fn toks(&self) -> Seq<Token> {
        self.tokens@
    }

    pub closed spec fn pos(&self) -> int {
        self.curr as int
    }

    /// The cursor never passes the last token, which is the end-of-input
    /// token; so there is always a token to look at.
    pub open spec fn wf(&self) -> bool {
        &&& self.toks().len() >= 1
        &&& self.toks().last() == Token::Eof
        &&& 0 <= self.pos() <= self.toks().len() - 1
        &&& forall|i: int|
            0 <= i < self.toks().len() ==> match #[trigger] self.toks()[i] {
                Token::Num(r) => r.wf(),
                _ => true,
            }
    }

    /// A parser at the start of `tokens`.
    pub fn new(tokens: &'a [Token]) -> (r: Parser<'a>)
        requires
            tokens@.len() >= 1,
            tokens@.last() == Token::Eof,
            forall|i: int|
                0 <= i < tokens@.len() ==> match #[trigger] tokens@[i] {
                    Token::Num(r) => r.wf(),
                    _ => true,
                },
        ensures
            r.wf(),
            r.toks() == tokens@,
            r.pos() == 0,
    {
        Parser { tokens, curr: 0 }
    }

    /// The token under the cursor.
    fn peek(&self) -> (r: Token)
        requires
            self.wf(),
        ensures
            r == self.toks()[self.pos()],
    {
        self.tokens[self.curr]
    }

    /// Move the cursor forward, never past the last token.
    fn advance(&mut self)
        requires
            old(self).wf(),
        ensures
            final(self).wf(),
            final(self).toks() == old(self).toks(),
            final(self).pos() == if old(self).pos() < old(self).toks().len() - 1 {
                old(self).pos() + 1
            } else {
                old(self).pos()
            },
    {
        if self.curr < self.tokens.len() - 1 {
            self.curr = self.curr + 1;
        }
    }

    /// Move the cursor back one token.
    fn retract(&mut self)
        requires
            old(self).wf(),
        ensures
            final(self).wf(),
            final(self).toks() == old(self).toks(),
            final(self).pos() == if old(self).pos() > 0 {
                old(self).pos() - 1
            } else {
                0
            },
    {
        if self.curr > 0 {
            self.curr = self.curr - 1;
        }
    }

    /// Move the cursor back `n` tokens.
    fn retract_n(&mut self, n: usize)
        requires
            old(self).wf(),
        ensures
            final(self).wf(),
            final(self).toks() == old(self).toks(),
            final(self).pos() == if old(self).pos() - n > 0 {
                old(self).pos() - n
            } else {
                0
            },
    {
        let mut k: usize = 0;
        while k < n
            invariant
                k <= n,
                self.wf(),
                self.toks() == old(self).toks(),
                self.pos() == if old(self).pos() - k > 0 {
                    old(self).pos() - k
                } else {
                    0
                },
            decreases n - k,
        {
            self.retract();
            k = k + 1;
        }
    }

    /// Take the token under the cursor when it has the wanted shape.  Taking
    /// the end-of-input token leaves the cursor in place.
    fn accept(&mut self, token_type: TokenType) -> (r: Option<Token>)
        requires
            old(self).wf(),
        ensures
            final(self).wf(),
            final(self).toks() == old(self).toks(),
            match r {
                Some(tok) => {
                    &&& tok == old(self).toks()[old(self).pos()]
                    &&& crate::token::type_of(tok) == token_type
                    &&& final(self).pos() == if old(self).pos() < old(self).toks().len() - 1 {
                        old(self).pos() + 1
                    } else {
                        old(self).pos()
                    }
                    &&& token_type != TokenType::Eof ==> final(self).pos() == old(self).pos() + 1
                },
                None => final(self).pos() == old(self).pos() && crate::token::type_of(
                    old(self).toks()[old(self).pos()],
                ) != token_type,
            },
    {
        let token = self.peek();
        if token.is_type(token_type) {
            proof {
                if token_type != TokenType::Eof {
                    assert(old(self).toks()[old(self).pos()] != Token::Eof);
                    assert(old(self).pos() < old(self).toks().len() - 1) by {
                        if old(self).pos() == old(self).toks().len() - 1 {
                            assert(old(self).toks()[old(self).pos()] == old(
                                self,
                            ).toks().last());
                        }
                    }
                }
            }
            self.advance();
            Some(token)
        } else {
            None
        }
    }

    /// Take the token under the cursor only when it is exactly `token`.
    fn accept_token(&mut self, token: Token) -> (r: bool)
        requires
            old(self).wf(),
        ensures
            final(self).wf(),
            final(self).toks() == old(self).toks(),
            r ==> old(self).toks()[old(self).pos()] == token && (crate::token::type_of(token)
                != TokenType::Eof ==> final(self).pos() == old(self).pos() + 1) && final(self).pos()
                <= old(self).pos() + 1,
            !r ==> final(self).pos() == old(self).pos() && old(self).toks()[old(self).pos()]
                != token,
    {
        let tt = TokenType::from(&token);
        match self.accept(tt) {
            Some(tok) => {
                if tok == token {
                    true
                } else {
                    if tt != TokenType::Eof {
                        self.retract();
                    }
                    false
                }
            },
            None => false,
        }
    }


    /// A named function application: `name ( expression )`.
    fn parse_func(&mut self) -> (r: ParserResult<Node>)
        requires
            old(self).wf(),
        ensures
            final(self).wf(),
            final(self).toks() == old(self).toks(),
            old(self).pos() <= final(self).pos(),
            r matches Ok(n) ==> expr_wf(n@) && old(self).pos() < final(self).pos(),
            stop_free(old(self).toks(), old(self).pos(), final(self).pos()),
            r matches Err(e) ==> !(e is DifferentialEquation),
        decreases old(self).toks().len() - 1 - old(self).pos(), 0int,
    {
        let tok = match self.expect(TokenType::Func) {
            Ok(t) => t,
            Err(e) => {
                return Err(e);
            },
        };
        let f = match tok {
            Token::Func(f) => f,
            _ => unreached(),
        };
        match self.expect(TokenType::LParen) {
            Ok(_) => (),
            Err(e) => {
                return Err(e);
            },
        }
        let arg = match self.parse_expr() {
            Ok(n) => n,
            Err(e) => {
                return Err(e);
            },
        };
        match self.expect(TokenType::RParen) {
            Ok(_) => (),
            Err(e) => {
                return Err(e);
            },
        }
        let ghost argv = arg@;
        let out = Node::Func { func: f, arg: Box::new(arg) };
        proof {
            assert(out@ == NodeV::Func { func: f, arg: Box::new(argv) });
        }
        Ok(out)
    }

    /// A variable, a parenthesized expression, or a function application.
    fn parse_atom(&mut self) -> (r: ParserResult<Node>)
        requires
            old(self).wf(),
        ensures
            final(self).wf(),
            final(self).toks() == old(self).toks(),
            old(self).pos() <= final(self).pos(),
            r matches Ok(n) ==> expr_wf(n@) && old(self).pos() < final(self).pos(),
            stop_free(old(self).toks(), old(self).pos(), final(self).pos()),
            r matches Err(e) ==> !(e is DifferentialEquation),
        decreases old(self).toks().len() - 1 - old(self).pos(), 1int,
    {
        match self.accept(TokenType::Var) {
            Some(tok) => {
                let v = match tok {
                    Token::Var(v) => v,
                    _ => unreached(),
                };
                return Ok(Node::Var(v));
            },
            None => (),
        }
        if self.accept(TokenType::LParen).is_some() {
            let node = match self.parse_expr() {
                Ok(n) => n,
                Err(e) => {
                    return Err(e);
                },
            };
            match self.expect(TokenType::RParen) {
                Ok(_) => (),
                Err(e) => {
                    return Err(e);
                },
            }
            return Ok(node);
        }
        if self.accept(TokenType::Func).is_some() {
            self.retract();
            return self.parse_func();
        }
        Err(ParserError::Unexpected(TokenType::from(&self.peek())))
    }

    /// A numeric literal, or an atom.
    fn parse_quantity(&mut self) -> (r: ParserResult<Node>)
        requires
            old(self).wf(),
        ensures
            final(self).wf(),
            final(self).toks() == old(self).toks(),
            old(self).pos() <= final(self).pos(),
            r matches Ok(n) ==> expr_wf(n@) && old(self).pos() < final(self).pos(),
            stop_free(old(self).toks(), old(self).pos(), final(self).pos()),
            r matches Err(e) ==> !(e is DifferentialEquation),
        decreases old(self).toks().len() - 1 - old(self).pos(), 2int,
    {
        match self.accept(TokenType::Num) {
            Some(tok) => {
                let v = match tok {
                    Token::Num(v) => v,
                    _ => unreached(),
                };
                Ok(Node::Num(v))
            },
            None => self.parse_atom(),
        }
    }

    /// A quantity, optionally raised to a factor.
    fn parse_factor(&mut self) -> (r: ParserResult<Node>)
        requires
            old(self).wf(),
        ensures
            final(self).wf(),
            final(self).toks() == old(self).toks(),
            old(self).pos() <= final(self).pos(),
            r matches Ok(n) ==> expr_wf(n@) && old(self).pos() < final(self).pos(),
            stop_free(old(self).toks(), old(self).pos(), final(self).pos()),
            r matches Err(e) ==> !(e is DifferentialEquation),
        decreases old(self).toks().len() - 1 - old(self).pos(), 3int,
    {
        let node = match self.parse_quantity() {
            Ok(n) => n,
            Err(e) => {
                return Err(e);
            },
        };
        if self.accept(TokenType::Raise).is_some() {
            let e = match self.parse_factor() {
                Ok(n) => n,
                Err(e) => {
                    return Err(e);
                },
            };
            let ghost bv = node@;
            let ghost ev = e@;
            let out = Node::Exponent { base: Box::new(node), exponent: Box::new(e) };
            proof {
                assert(out@ == NodeV::Exponent { base: Box::new(bv), exponent: Box::new(ev) });
            }
            Ok(out)
        } else {
            Ok(node)
        }
    }

    /// A product of factors joined by adjacency (implicit multiplication).
    #[verifier::loop_isolation(false)]
    fn parse_factors(&mut self) -> (r: ParserResult<Node>)
        requires
            old(self).wf(),
        ensures
            final(self).wf(),
            final(self).toks() == old(self).toks(),
            old(self).pos() <= final(self).pos(),
            r matches Ok(n) ==> expr_wf(n@) && old(self).pos() < final(self).pos() && n@ is Factors,
            stop_free(old(self).toks(), old(self).pos(), final(self).pos()),
            r matches Err(e) ==> !(e is DifferentialEquation),
        decreases old(self).toks().len() - 1 - old(self).pos(), 4int,
    {
        let mut factors: Vec<(TokenType, Node)> = Vec::new();
        let f0 = match self.parse_factor() {
            Ok(n) => n,
            Err(e) => {
                return Err(e);
            },
        };
        factors.push((TokenType::Mul, f0));
        proof {
            lemma_entries_view0(factors);
        }
        loop
            invariant
                self.wf(),
                self.toks() == old(self).toks(),
                old(self).pos() < self.pos(),
                stop_free(old(self).toks(), old(self).pos(), self.pos()),
                factors@.len() >= 1,
                forall|i: int|
                    0 <= i < factors@.len() ==> (#[trigger] factors@[i]).0 == TokenType::Mul
                        && expr_wf(crate::node::node_view(factors@[i].1)),
            decreases self.toks().len() - 1 - self.pos(),
        {
            let took: bool = if self.accept(TokenType::Var).is_some() {
                true
            } else if self.accept(TokenType::Func).is_some() {
                true
            } else if self.accept(TokenType::LParen).is_some() {
                true
            } else {
                false
            };
            if !took {
                break ;
            }
            self.retract();
            let a = match self.parse_atom() {
                Ok(n) => n,
                Err(e) => {
                    return Err(e);
                },
            };
            factors.push((TokenType::Mul, a));
        }
        proof {
            lemma_entries_view0(factors);
            let s0 = entries_view(factors, 0);
            assert forall|i: int| 0 <= i < s0.len() implies ((#[trigger] s0[i]).0
                == TokenType::Mul || s0[i].0 == TokenType::Div) && expr_wf(s0[i].1) by {
                assert(s0[i] == (factors@[i].0, crate::node::node_view(factors@[i].1)));
            }
            assert(expr_wf(NodeV::Factors(s0)));
        }
        let out = Node::Factors(factors);
        Ok(out)
    }

    /// A chain of factor groups joined by explicit multiplication or
    /// division; multiplied groups are flattened in, divided ones kept as
    /// single divide-tagged elements.
    #[verifier::loop_isolation(false)]
    fn parse_term(&mut self) -> (r: ParserResult<Node>)
        requires
            old(self).wf(),
        ensures
            final(self).wf(),
            final(self).toks() == old(self).toks(),
            old(self).pos() <= final(self).pos(),
            r matches Ok(n) ==> expr_wf(n@) && old(self).pos() < final(self).pos(),
            stop_free(old(self).toks(), old(self).pos(), final(self).pos()),
            r matches Err(e) ==> !(e is DifferentialEquation),
        decreases old(self).toks().len() - 1 - old(self).pos(), 5int,
    {
        let mut factors: Vec<(TokenType, Node)> = Vec::new();
        let first = match self.parse_factors() {
            Ok(n) => n,
            Err(e) => {
                return Err(e);
            },
        };
        let ghost firstv = first@;
        match first {
            Node::Factors(mut ff) => {
                proof {
                    lemma_entries_view0(ff);
                    assert(firstv == NodeV::Factors(entries_view(ff, 0)));
                    assert forall|i: int| 0 <= i < ff@.len() implies ((#[trigger] ff@[i]).0
                        == TokenType::Mul || ff@[i].0 == TokenType::Div) && expr_wf(
                        crate::node::node_view(ff@[i].1),
                    ) by {
                        assert(entries_view(ff, 0)[i] == (
                            ff@[i].0,
                            crate::node::node_view(ff@[i].1),
                        ));
                    }
                }
                factors.append(&mut ff);
            },
            _ => {
                return unreached();
            },
        }
        loop
            invariant
                self.wf(),
                self.toks() == old(self).toks(),
                old(self).pos() < self.pos(),
                stop_free(old(self).toks(), old(self).pos(), self.pos()),
                factors@.len() >= 1,
                forall|i: int|
                    0 <= i < factors@.len() ==> ((#[trigger] factors@[i]).0 == TokenType::Mul
                        || factors@[i].0 == TokenType::Div) && expr_wf(
                        crate::node::node_view(factors@[i].1),
                    ),
            decreases self.toks().len() - 1 - self.pos(),
        {
            if self.accept(TokenType::Mul).is_some() {
                let n = match self.parse_factors() {
                    Ok(n) => n,
                    Err(e) => {
                        return Err(e);
                    },
                };
                let ghost nv = n@;
                match n {
                    Node::Factors(mut ff) => {
                        proof {
                            lemma_entries_view0(ff);
                            assert(nv == NodeV::Factors(entries_view(ff, 0)));
                            assert forall|i: int| 0 <= i < ff@.len() implies ((
                            #[trigger] ff@[i]).0 == TokenType::Mul || ff@[i].0 == TokenType::Div)
                                && expr_wf(crate::node::node_view(ff@[i].1)) by {
                                assert(entries_view(ff, 0)[i] == (
                                    ff@[i].0,
                                    crate::node::node_view(ff@[i].1),
                                ));
                            }
                        }
                        factors.append(&mut ff);
                    },
                    _ => {
                        return unreached();
                    },
                }
            } else if self.accept(TokenType::Div).is_some() {
                let n = match self.parse_factors() {
                    Ok(n) => n,
                    Err(e) => {
                        return Err(e);
                    },
                };
                factors.push((TokenType::Div, n));
            } else {
                break ;
            }
        }
        proof {
            lemma_entries_view0(factors);
            let s0 = entries_view(factors, 0);
            assert forall|i: int| 0 <= i < s0.len() implies ((#[trigger] s0[i]).0
                == TokenType::Mul || s0[i].0 == TokenType::Div) && expr_wf(s0[i].1) by {
                assert(s0[i] == (factors@[i].0, crate::node::node_view(factors@[i].1)));
            }
            assert(expr_wf(NodeV::Factors(s0)));
        }
        let out = Node::Factors(factors);
        Ok(out)
    }

    /// A sum of terms, with an optional leading sign on the first.
    #[verifier::loop_isolation(false)]
    fn parse_expr(&mut self) -> (r: ParserResult<Node>)
        requires
            old(self).wf(),
        ensures
            final(self).wf(),
            final(self).toks() == old(self).toks(),
            old(self).pos() <= final(self).pos(),
            r matches Ok(n) ==> expr_wf(n@) && old(self).pos() < final(self).pos() && n@ is Terms,
            stop_free(old(self).toks(), old(self).pos(), final(self).pos()),
            r matches Err(e) ==> !(e is DifferentialEquation),
        decreases old(self).toks().len() - 1 - old(self).pos(), 6int,
    {
        let mut terms: Vec<(TokenType, Node)> = Vec::new();
        let sign = if self.accept(TokenType::Minus).is_some() {
            TokenType::Minus
        } else {
            TokenType::Plus
        };
        let t0 = match self.parse_term() {
            Ok(n) => n,
            Err(e) => {
                return Err(e);
            },
        };
        terms.push((sign, t0));
        loop
            invariant
                self.wf(),
                self.toks() == old(self).toks(),
                old(self).pos() < self.pos(),
                stop_free(old(self).toks(), old(self).pos(), self.pos()),
                terms@.len() >= 1,
                sign == TokenType::Plus || sign == TokenType::Minus,
                forall|i: int|
                    0 <= i < terms@.len() ==> ((#[trigger] terms@[i]).0 == TokenType::Plus
                        || terms@[i].0 == TokenType::Minus) && expr_wf(
                        crate::node::node_view(terms@[i].1),
                    ),
            decreases self.toks().len() - 1 - self.pos(),
        {
            let tag: TokenType;
            if self.accept(TokenType::Plus).is_some() {
                tag = TokenType::Plus;
            } else if self.accept(TokenType::Minus).is_some() {
                tag = TokenType::Minus;
            } else {
                break ;
            }
            let t = match self.parse_term() {
                Ok(n) => n,
                Err(e) => {
                    return Err(e);
                },
            };
            terms.push((tag, t));
        }
        proof {
            lemma_entries_view0(terms);
            let s0 = entries_view(terms, 0);
            assert forall|i: int| 0 <= i < s0.len() implies ((#[trigger] s0[i]).0
                == TokenType::Plus || s0[i].0 == TokenType::Minus) && expr_wf(s0[i].1) by {
                assert(s0[i] == (terms@[i].0, crate::node::node_view(terms@[i].1)));
            }
            assert(expr_wf(NodeV::Terms(s0)));
        }
        let out = Node::Terms(terms);
        Ok(out)
    }

    /// The prefix derivative notation `d/dv(...)`, possibly nested, or a
    /// plain expression.
    fn parse_derivative(&mut self) -> (r: ParserResult<Node>)
        requires
            old(self).wf(),
        ensures
            final(self).wf(),
            final(self).toks() == old(self).toks(),
            old(self).pos() <= final(self).pos(),
            r matches Ok(n) ==> expr_wf(n@) && old(self).pos() < final(self).pos(),
            stop_free(old(self).toks(), old(self).pos(), final(self).pos()),
            r matches Err(e) ==> !(e is DifferentialEquation),
            r matches Ok(n) ==> ((n@ is Derivative) ==> derivative_prefix(
                old(self).toks(),
                old(self).pos(),
            ) && (match n@ {
                NodeV::Derivative { var, .. } => old(self).toks()[old(self).pos() + 3]
                    == Token::Var(var),
                _ => true,
            })),
            r matches Ok(n) ==> (derivative_prefix(old(self).toks(), old(self).pos()) ==> n@
                is Derivative),
        decreases old(self).toks().len() - 1 - old(self).pos(), 7int,
    {
        if self.accept_token(Token::Var('d')) {
            if self.accept(TokenType::Div).is_some() {
                if self.accept_token(Token::Var('d')) {
                    match self.accept(TokenType::Var) {
                        Some(tok) => {
                            let var = match tok {
                                Token::Var(v) => v,
                                _ => unreached(),
                            };
                            match self.expect(TokenType::LParen) {
                                Ok(_) => (),
                                Err(e) => {
                                    return Err(e);
                                },
                            }
                            let inner = match self.parse_derivative() {
                                Ok(n) => n,
                                Err(e) => {
                                    return Err(e);
                                },
                            };
                            match self.expect(TokenType::RParen) {
                                Ok(_) => (),
                                Err(e) => {
                                    return Err(e);
                                },
                            }
                            let ghost iv = inner@;
                            let out = Node::Derivative { derivative: Box::new(inner), var };
                            proof {
                                assert(out@ == NodeV::Derivative {
                                    derivative: Box::new(iv),
                                    var,
                                });
                            }
                            return Ok(out);
                        },
                        None => {
                            self.retract_n(3);
                        },
                    }
                } else {
                    self.retract_n(2);
                }
            } else {
                self.retract();
            }
        }
        self.parse_expr()
    }

    /// A whole line: an expression or a single equation, then the end of
    /// input.  An equation whose left side is a derivative is refused.
    pub fn parse(&mut self) -> (r: ParserResult<Node>)
        requires
            old(self).wf(),
        ensures
            final(self).wf(),
            final(self).toks() == old(self).toks(),
            r matches Ok(n) ==> parse_wf(n@) && crate::interpreter::node_wf(n@),
            r matches Ok(n) ==> ((n@ is Equation) <==> has_equals(
                old(self).toks(),
                old(self).pos(),
                final(self).pos(),
            )),
            r matches Ok(n) ==> (match n@ {
                NodeV::Equation { lhs, .. } => !((*lhs) is Derivative),
                _ => true,
            }),
            r matches Err(e) && (e is DifferentialEquation) ==> has_equals(
                old(self).toks(),
                old(self).pos(),
                final(self).pos(),
            ),
        decreases old(self).toks().len() - 1 - old(self).pos(), 8int,
    {
        let ghost toks = old(self).toks();
        let ghost p0 = old(self).pos();
        let node = match self.parse_derivative() {
            Ok(n) => n,
            Err(e) => {
                return Err(e);
            },
        };
        let ghost p1 = self.pos();
        if self.accept(TokenType::Equals).is_some() {
            proof {
                assert(crate::token::type_of(toks[p1]) == TokenType::Equals);
            }
            let is_deriv: bool = match &node {
                Node::Derivative { .. } => true,
                _ => false,
            };
            if is_deriv {
                proof {
                    assert(p0 <= p1 < self.pos());
                    assert(has_equals(toks, p0, self.pos()));
                }
                return Err(ParserError::DifferentialEquation);
            }
            let rhs = match self.parse_expr() {
                Ok(n) => n,
                Err(e) => {
                    return Err(e);
                },
            };
            match self.expect(TokenType::Eof) {
                Ok(_) => (),
                Err(e) => {
                    return Err(e);
                },
            }
            let ghost lv = node@;
            let ghost rv = rhs@;
            let out = Node::Equation { lhs: Box::new(node), rhs: Box::new(rhs) };
            proof {
                assert(out@ == NodeV::Equation { lhs: Box::new(lv), rhs: Box::new(rv) });
                lemma_expr_wf_node_wf(lv);
                lemma_expr_wf_node_wf(rv);
                assert(p0 <= p1 < self.pos());
                assert(has_equals(toks, p0, self.pos()));
                assert(!(lv is Derivative));
            }
            return Ok(out);
        }
        proof {
            assert(crate::token::type_of(toks[p1]) != TokenType::Equals);
        }
        match self.expect(TokenType::Eof) {
            Ok(_) => (),
            Err(e) => {
                return Err(e);
            },
        }
        proof {
            lemma_expr_wf_node_wf(node@);
            assert(!(node@ is Equation));
            assert(!has_equals(toks, p0, self.pos())) by {
                assert forall|i: int|
                    p0 <= i < self.pos() implies crate::token::type_of(toks[i])
                    != TokenType::Equals by {
                    if i == p1 {
                        if self.pos() == p1 + 1 {
                            assert(crate::token::type_of(toks[p1]) == TokenType::Eof
                                || crate::token::type_of(toks[p1]) != TokenType::Equals);
                        }
                    }
                }
            }
        }
        Ok(node)
    }

    /// Demand a token of the wanted shape.
    fn expect(&mut self, token_type: TokenType) -> (r: ParserResult<Token>)
        requires
            old(self).wf(),
        ensures
            final(self).wf(),
            final(self).toks() == old(self).toks(),
            match r {
                Ok(tok) => {
                    &&& tok == old(self).toks()[old(self).pos()]
                    &&& crate::token::type_of(tok) == token_type
                    &&& old(self).pos() <= final(self).pos() <= old(self).pos() + 1
                    &&& token_type != TokenType::Eof ==> final(self).pos() == old(self).pos() + 1
                },
                Err(e) => final(self).pos() == old(self).pos() && e matches ParserError::Expected {
                    ..
                },
            },
    {
        match self.accept(token_type) {
            Some(tok) => Ok(tok),
            None => Err(
                ParserError::Expected { expected: token_type, got: TokenType::from(&self.peek()) },
            ),
        }
    }
}

} // verus!
