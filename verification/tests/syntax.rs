//! The tokenizer, the parser, and exact rational arithmetic.

use xcalcrs::interpreter::Bindings;
use xcalcrs::node::Node;
use xcalcrs::parser::{Parser, ParserError};
use xcalcrs::rational::Rational;
use xcalcrs::token::{FuncType, Token, TokenType};
use xcalcrs::tokenizer::{Tokenizer, TokenizerError};

fn scan(text: &str) -> Vec<Token> {
    Tokenizer::new(text).tokenize().unwrap()
}

fn parse_line(text: &str) -> Node {
    let tokens = scan(text);
    let mut parser = Parser::new(&tokens);
    parser.parse().unwrap()
}

#[test]
fn tokenizes_numbers_symbols_and_functions() {
    let toks = scan("3.25*x + sin(2)");
    assert_eq!(
        toks,
        vec![
            Token::Num(Rational::new(13, 4)),
            Token::Mul,
            Token::Var('x'),
            Token::Plus,
            Token::Func(FuncType::Sin),
            Token::LParen,
            Token::Num(Rational::from_int(2)),
            Token::RParen,
            Token::Eof,
        ]
    );
}

#[test]
fn tokenizes_every_operator_and_keyword() {
    let toks = scan("cos tan csc sec cot ln log ^ / - = ( )");
    assert_eq!(
        toks,
        vec![
            Token::Func(FuncType::Cos),
            Token::Func(FuncType::Tan),
            Token::Func(FuncType::Csc),
            Token::Func(FuncType::Sec),
            Token::Func(FuncType::Cot),
            Token::Func(FuncType::Ln),
            Token::Func(FuncType::Log),
            Token::Raise,
            Token::Div,
            Token::Minus,
            Token::Equals,
            Token::LParen,
            Token::RParen,
            Token::Eof,
        ]
    );
}

#[test]
fn tokenizer_rejects_illegal_characters() {
    let r = Tokenizer::new("2 @ 3").tokenize();
    assert!(matches!(r, Err(TokenizerError::IllegalChar('@'))));
}

#[test]
fn tokenizer_rejects_oversized_literals() {
    let r = Tokenizer::new("99999999999999999999999999999999999999999").tokenize();
    assert!(matches!(r, Err(TokenizerError::NumberTooLarge)));
}

#[test]
fn tokenizer_cursor_helpers() {
    let mut t = Tokenizer::new("ab1");
    assert_eq!(t.peek(), Some('a'));
    t.advance();
    assert_eq!(t.peek(), Some('b'));
    t.advance_n(5);
    assert_eq!(t.peek(), None);
    let mut t = Tokenizer::new("12x");
    assert_eq!(t.rest(), vec!['1', '2', 'x']);
    let taken = t.take_while(|c: char| c.is_ascii_digit());
    assert_eq!(taken, Some(vec!['1', '2']));
    assert_eq!(t.peek(), Some('x'));
    assert_eq!(t.take_while(|c: char| c.is_ascii_digit()), None);
}

#[test]
fn parses_implicit_multiplication() {
    let t = parse_line("2x");
    let expected = Node::Terms(vec![(
        TokenType::Plus,
        Node::Factors(vec![
            (TokenType::Mul, Node::Num(Rational::from_int(2))),
            (TokenType::Mul, Node::Var('x')),
        ]),
    )]);
    assert!(t.deep_eq(&expected));
}

#[test]
fn parses_precedence_and_signs() {
    // -x + 2^3^1 keeps the sign on the first term and nests powers rightward
    let t = parse_line("-x+2^3^1");
    let expected = Node::Terms(vec![
        (
            TokenType::Minus,
            Node::Factors(vec![(TokenType::Mul, Node::Var('x'))]),
        ),
        (
            TokenType::Plus,
            Node::Factors(vec![(
                TokenType::Mul,
                Node::Exponent {
                    base: Box::new(Node::Num(Rational::from_int(2))),
                    exponent: Box::new(Node::Exponent {
                        base: Box::new(Node::Num(Rational::from_int(3))),
                        exponent: Box::new(Node::Num(Rational::from_int(1))),
                    }),
                },
            )]),
        ),
    ]);
    assert!(t.deep_eq(&expected));
}

#[test]
fn parses_division_as_single_divisor() {
    let t = parse_line("x/2");
    let expected = Node::Terms(vec![(
        TokenType::Plus,
        Node::Factors(vec![
            (TokenType::Mul, Node::Var('x')),
            (
                TokenType::Div,
                Node::Factors(vec![(TokenType::Mul, Node::Num(Rational::from_int(2)))]),
            ),
        ]),
    )]);
    assert!(t.deep_eq(&expected));
}

#[test]
fn parses_equations_at_root_only() {
    let t = parse_line("x=y");
    match t {
        Node::Equation { .. } => {},
        other => panic!("expected an equation, got {other:?}"),
    }
}

#[test]
fn parses_derivative_notation() {
    let t = parse_line("d/dx(x^2)");
    match t {
        Node::Derivative { var, .. } => assert_eq!(var, 'x'),
        other => panic!("expected a derivative marker, got {other:?}"),
    }
}

#[test]
fn rejects_differential_equations() {
    let tokens = scan("d/dx(x)=1");
    let mut parser = Parser::new(&tokens);
    assert!(matches!(
        parser.parse(),
        Err(ParserError::DifferentialEquation)
    ));
}

#[test]
fn reports_expected_and_unexpected_tokens() {
    let tokens = scan("(x");
    let mut parser = Parser::new(&tokens);
    assert!(matches!(parser.parse(), Err(ParserError::Expected { .. })));
    let tokens = scan("*");
    let mut parser = Parser::new(&tokens);
    assert!(matches!(parser.parse(), Err(ParserError::Unexpected(_))));
}

#[test]
fn rationals_reduce_to_lowest_terms() {
    assert_eq!(Rational::new(2, 4), Rational::new(1, 2));
    assert_eq!(Rational::new(-3, -6), Rational::new(1, 2));
    assert_eq!(Rational::new(3, -6), Rational::new(-1, 2));
    let r = Rational::new(6, 4);
    assert_eq!((r.num, r.den), (3, 2));
}

#[test]
fn rational_arithmetic_is_exact() {
    let a = Rational::new(1, 3);
    let b = Rational::new(1, 6);
    assert_eq!(a.add(b), Some(Rational::new(1, 2)));
    assert_eq!(a.sub(b), Some(Rational::new(1, 6)));
    assert_eq!(a.mul(b), Some(Rational::new(1, 18)));
    assert_eq!(a.div(b), Some(Rational::from_int(2)));
    assert_eq!(Rational::new(2, 1).pow_whole(10), Some(Rational::from_int(1024)));
    assert_eq!(
        Rational::new(2, 1).pow_whole(-2),
        Some(Rational::new(1, 4))
    );
}

#[test]
fn rational_overflow_is_detected() {
    let big = Rational {
        num: i128::MAX,
        den: 1,
    };
    assert_eq!(big.mul(big), None);
    assert_eq!(big.add(big), None);
}

#[test]
fn tolerance_comparison() {
    let small = Rational::new(1, 20000);
    assert_eq!(small.below_tol(10000), Some(true));
    let large = Rational::new(1, 2);
    assert_eq!(large.below_tol(10000), Some(false));
    let negative = Rational::new(-1, 20000);
    assert_eq!(negative.below_tol(10000), Some(true));
}

#[test]
fn bindings_shadow_and_lookup() {
    let mut b = Bindings::new();
    assert_eq!(b.get('x'), None);
    b.set('x', Rational::from_int(1));
    b.set('y', Rational::from_int(5));
    b.set('x', Rational::from_int(2));
    assert_eq!(b.get('x'), Some(Rational::from_int(2)));
    assert_eq!(b.get('y'), Some(Rational::from_int(5)));
    assert_eq!(b.get('z'), None);
}

#[test]
fn trees_duplicate_and_compare() {
    let t = parse_line("sin(x)^2 + 1/x - d/dy(y)");
    let copy = t.duplicate();
    assert!(t.deep_eq(&copy));
    let other = parse_line("sin(x)^2 + 1/x - d/dy(x)");
    assert!(!t.deep_eq(&other));
}
