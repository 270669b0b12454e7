//! Lexical tokens of the surface syntax.

use crate::rational::Rational;
use vstd::prelude::*;

verus! {

/// The unary function names the grammar knows.
#[derive(Clone, Copy, Debug, PartialEq, Eq, Structural)]
pub enum FuncType {
    Sin,
    Cos,
    Tan,
    Csc,
    Sec,
    Cot,
    Ln,
    Log,
}

/// One token of input text.
#[derive(Clone, Copy, Debug, PartialEq, Eq, Structural)]
pub enum Token {
    Eof,
    Num(Rational),
    Var(char),
    Func(FuncType),
    LParen,
    RParen,
    Plus,
    Minus,
    Mul,
    Div,
    Raise,
    Equals,
}

/// The shape of a token, with payloads forgotten.  `Mul`/`Div` and
/// `Plus`/`Minus` double as the per-element tags of product and sum chains.
#[derive(Clone, Copy, Debug, PartialEq, Eq, Structural)]
pub enum TokenType {
    Eof,
    Num,
    Var,
    Func,
    LParen,
    RParen,
    Plus,
    Minus,
    Mul,
    Div,
    Raise,
    Equals,
}

pub open spec fn type_of(token: Token) -> TokenType {
    match token {
        Token::Eof => TokenType::Eof,
        Token::Num(_) => TokenType::Num,
        Token::Var(_) => TokenType::Var,
        Token::Func(_) => TokenType::Func,
        Token::LParen => TokenType::LParen,
        Token::RParen => TokenType::RParen,
        Token::Plus => TokenType::Plus,
        Token::Minus => TokenType::Minus,
        Token::Mul => TokenType::Mul,
        Token::Div => TokenType::Div,
        Token::Raise => TokenType::Raise,
        Token::Equals => TokenType::Equals,
    }
}

impl TokenType {
    /// The shape of `token`.
    pub fn from(token: &Token) -> (r: TokenType)
        ensures
            r == type_of(*token),
    {
        match token {
            Token::Eof => TokenType::Eof,
            Token::Num(_) => TokenType::Num,
            Token::Var(_) => TokenType::Var,
            Token::Func(_) => TokenType::Func,
            Token::LParen => TokenType::LParen,
            Token::RParen => TokenType::RParen,
            Token::Plus => TokenType::Plus,
            Token::Minus => TokenType::Minus,
            Token::Mul => TokenType::Mul,
            Token::Div => TokenType::Div,
            Token::Raise => TokenType::Raise,
            Token::Equals => TokenType::Equals,
        }
    }
}

impl Token {
    /// Whether this token has the given shape.
    pub fn is_type(&self, tt: TokenType) -> (r: bool)
        ensures
            r == (type_of(*self) == tt),
    {
        TokenType::from(self) == tt
    }
}

} // verus!
