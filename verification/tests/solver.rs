//! Newton solvers, driven through the full text pipeline.

use xcalcrs::interpreter::{Interpreter, InterpreterError};
use xcalcrs::node::Node;
use xcalcrs::parser::Parser;
use xcalcrs::rational::Rational;
use xcalcrs::tokenizer::Tokenizer;

fn parse_line(text: &str) -> Node {
    let mut tokenizer = Tokenizer::new(text);
    let tokens = tokenizer.tokenize().unwrap();
    let mut parser = Parser::new(&tokens);
    parser.parse().unwrap()
}

fn to_f64(r: Rational) -> f64 {
    r.num as f64 / r.den as f64
}

#[test]
fn scalar_solve_converges() {
    let interp = Interpreter::new();
    let eq = parse_line("x^2-4=0");
    let root = interp.solve_equation(&eq, Rational::from_int(1)).unwrap();
    assert!((to_f64(root) - 2.0).abs() < 1e-3);
}

#[test]
fn scalar_solve_linear_is_exact() {
    let interp = Interpreter::new();
    let eq = parse_line("3x-6=0");
    let root = interp.solve_equation(&eq, Rational::from_int(0)).unwrap();
    assert_eq!(root, Rational::from_int(2));
}

#[test]
fn system_solve_converges() {
    let interp = Interpreter::new();
    let eq1 = parse_line("x+y=3");
    let eq2 = parse_line("x-y=1");
    let guess = (Rational::from_int(0), Rational::from_int(0));
    let (x, y) = interp.solve_system(&eq1, &eq2, guess).unwrap();
    assert!((to_f64(x) - 2.0).abs() < 1e-4);
    assert!((to_f64(y) - 1.0).abs() < 1e-4);
}

#[test]
fn solve_rejects_non_equation() {
    let interp = Interpreter::new();
    let t = parse_line("x+1");
    match interp.solve_equation(&t, Rational::from_int(0)) {
        Err(InterpreterError::SolveError(m)) => assert_eq!(m, "Not an equation"),
        other => panic!("expected a solve error, got {other:?}"),
    }
}

#[test]
fn solve_reports_unbound_symbols() {
    let interp = Interpreter::new();
    // z stays unbound, so the Newton step never reduces to a number
    let eq = parse_line("x+z=0");
    match interp.solve_equation(&eq, Rational::from_int(1)) {
        Err(InterpreterError::SolveError(m)) => assert_eq!(m, "Not substituted"),
        other => panic!("expected a solve error, got {other:?}"),
    }
}

#[test]
fn system_solve_rejects_non_equation() {
    let interp = Interpreter::new();
    let eq1 = parse_line("x+y=3");
    let t = parse_line("x-y");
    let guess = (Rational::from_int(0), Rational::from_int(0));
    match interp.solve_system(&eq1, &t, guess) {
        Err(InterpreterError::SolveError(m)) => assert_eq!(m, "Not an equation"),
        other => panic!("expected a solve error, got {other:?}"),
    }
}

#[test]
fn singular_jacobian_surfaces_division_by_zero() {
    let interp = Interpreter::new();
    // the two equations are parallel: the determinant is zero
    let eq1 = parse_line("x+y=1");
    let eq2 = parse_line("x+y=2");
    let guess = (Rational::from_int(0), Rational::from_int(0));
    assert!(matches!(
        interp.solve_system(&eq1, &eq2, guess),
        Err(InterpreterError::Undefined)
    ));
}

#[test]
fn stationary_start_surfaces_division_by_zero() {
    let interp = Interpreter::new();
    // the derivative of x^2-4 vanishes at the starting guess 0
    let eq = parse_line("x^2-4=0");
    assert!(matches!(
        interp.solve_equation(&eq, Rational::from_int(0)),
        Err(InterpreterError::Undefined)
    ));
}
