//! Evaluator and differentiator behavior on concrete trees.

use xcalcrs::interpreter::{Bindings, Interpreter, InterpreterError};
use xcalcrs::node::Node;
use xcalcrs::rational::Rational;
use xcalcrs::token::{FuncType, TokenType};

fn num(v: i64) -> Node {
    Node::Num(Rational::from_int(v))
}

fn var(c: char) -> Node {
    Node::Var(c)
}

fn pow(b: Node, e: Node) -> Node {
    Node::Exponent {
        base: Box::new(b),
        exponent: Box::new(e),
    }
}

fn func(f: FuncType, a: Node) -> Node {
    Node::Func {
        func: f,
        arg: Box::new(a),
    }
}

fn factors(fs: Vec<(TokenType, Node)>) -> Node {
    Node::Factors(fs)
}

fn terms(ts: Vec<(TokenType, Node)>) -> Node {
    Node::Terms(ts)
}

fn bind(c: char, v: Rational) -> Bindings {
    let mut b = Bindings::new();
    b.set(c, v);
    b
}

#[test]
fn evaluates_numeric_arithmetic() {
    let interp = Interpreter::new();
    // 2*3/4 = 3/2
    let t = factors(vec![
        (TokenType::Mul, num(2)),
        (TokenType::Mul, num(3)),
        (TokenType::Div, num(4)),
    ]);
    let r = interp.visit(&t, None).unwrap();
    assert!(r.deep_eq(&Node::Num(Rational::new(3, 2))));
    // 1 + 2 - 5 = -2
    let t = terms(vec![
        (TokenType::Plus, num(1)),
        (TokenType::Plus, num(2)),
        (TokenType::Minus, num(5)),
    ]);
    let r = interp.visit(&t, None).unwrap();
    assert!(r.deep_eq(&num(-2)));
}

#[test]
fn resolves_constants_and_bindings() {
    let interp = Interpreter::new();
    // pi resolves to the table's exact value
    let r = interp.visit(&var('\u{3c0}'), None).unwrap();
    assert!(r.deep_eq(&Node::Num(Rational {
        num: 884279719003555,
        den: 281474976710656,
    })));
    // a bound symbol resolves, an unbound one stays
    let env = bind('x', Rational::from_int(7));
    let r = interp.visit(&var('x'), Some(&env)).unwrap();
    assert!(r.deep_eq(&num(7)));
    let r = interp.visit(&var('y'), Some(&env)).unwrap();
    assert!(r.deep_eq(&var('y')));
}

#[test]
fn power_rule_under_any_binding() {
    let interp = Interpreter::new();
    // d(x^3)/dx evaluates to 3*x^2 at every numeric binding of x
    let t = pow(var('x'), num(3));
    let d = interp.differentiate(&t, 'x', None).unwrap();
    let env5 = bind('x', Rational::from_int(5));
    let r = interp.visit(&d, Some(&env5)).unwrap();
    assert!(r.deep_eq(&num(75)));
    let envm2 = bind('x', Rational::from_int(-2));
    let r = interp.visit(&d, Some(&envm2)).unwrap();
    assert!(r.deep_eq(&num(12)));
}

#[test]
fn product_rule_shape() {
    let interp = Interpreter::new();
    // d(sin(x)*x)/dx evaluates to cos(x)*x + sin(x)
    let t = factors(vec![
        (TokenType::Mul, func(FuncType::Sin, var('x'))),
        (TokenType::Mul, var('x')),
    ]);
    let d = interp.differentiate(&t, 'x', None).unwrap();
    let r = interp.visit(&d, None).unwrap();
    let expected = terms(vec![
        (
            TokenType::Plus,
            factors(vec![
                (TokenType::Mul, func(FuncType::Cos, var('x'))),
                (TokenType::Mul, var('x')),
            ]),
        ),
        (TokenType::Plus, func(FuncType::Sin, var('x'))),
    ]);
    assert!(r.deep_eq(&expected));
}

#[test]
fn quotient_rule_value() {
    let interp = Interpreter::new();
    // d(1/x)/dx at x = 2 is -1/4
    let t = factors(vec![(TokenType::Mul, num(1)), (TokenType::Div, var('x'))]);
    let d = interp.differentiate(&t, 'x', None).unwrap();
    let env = bind('x', Rational::from_int(2));
    let r = interp.visit(&d, Some(&env)).unwrap();
    assert!(r.deep_eq(&Node::Num(Rational::new(-1, 4))));
}

#[test]
fn chain_rule_value() {
    let interp = Interpreter::new();
    // d(sin(x^2))/dx at x = 1 is 2*cos(1), kept exact as cos(1)*2
    let t = func(FuncType::Sin, pow(var('x'), num(2)));
    let d = interp.differentiate(&t, 'x', None).unwrap();
    let env = bind('x', Rational::from_int(1));
    let r = interp.visit(&d, Some(&env)).unwrap();
    let expected = factors(vec![
        (TokenType::Mul, func(FuncType::Cos, num(1))),
        (TokenType::Mul, num(2)),
    ]);
    assert!(r.deep_eq(&expected));
}

#[test]
fn evaluation_idempotent() {
    let interp = Interpreter::new();
    let env = bind('x', Rational::from_int(2));
    // numeric result
    let t = terms(vec![
        (TokenType::Plus, pow(var('x'), num(3))),
        (TokenType::Plus, num(5)),
    ]);
    let v1 = interp.visit(&t, Some(&env)).unwrap();
    assert!(v1.deep_eq(&num(13)));
    let v2 = interp.visit(&v1, Some(&env)).unwrap();
    assert!(v2.deep_eq(&v1));
    // symbolic result
    let t = factors(vec![(TokenType::Mul, var('y')), (TokenType::Mul, num(2))]);
    let v1 = interp.visit(&t, Some(&env)).unwrap();
    let v2 = interp.visit(&v1, Some(&env)).unwrap();
    assert!(v2.deep_eq(&v1));
}

#[test]
fn folding_divide_by_zero_is_undefined() {
    let interp = Interpreter::new();
    let t = factors(vec![
        (TokenType::Mul, num(2)),
        (TokenType::Mul, num(3)),
        (TokenType::Div, num(0)),
    ]);
    assert!(matches!(
        interp.visit(&t, None),
        Err(InterpreterError::Undefined)
    ));
}

#[test]
fn zero_factor_short_circuits_without_evaluating() {
    let interp = Interpreter::new();
    // ln(0) alone would fail, but the literal zero factor wins first
    let t = factors(vec![
        (TokenType::Mul, num(0)),
        (TokenType::Mul, func(FuncType::Ln, num(0))),
    ]);
    let r = interp.visit(&t, None).unwrap();
    assert!(r.deep_eq(&num(0)));
    // and with a plain symbol
    let t = factors(vec![(TokenType::Mul, num(0)), (TokenType::Mul, var('x'))]);
    let r = interp.visit(&t, None).unwrap();
    assert!(r.deep_eq(&num(0)));
}

#[test]
fn zero_power_zero_is_undefined() {
    let interp = Interpreter::new();
    assert!(matches!(
        interp.visit(&pow(num(0), num(0)), None),
        Err(InterpreterError::Undefined)
    ));
    let r = interp.visit(&pow(num(0), num(5)), None).unwrap();
    assert!(r.deep_eq(&num(0)));
}

#[test]
fn power_special_cases() {
    let interp = Interpreter::new();
    // exponent one returns the original base expression unevaluated
    let base = factors(vec![(TokenType::Mul, num(2)), (TokenType::Mul, num(3))]);
    let r = interp.visit(&pow(base.duplicate(), num(1)), None).unwrap();
    assert!(r.deep_eq(&base));
    // base one against a symbolic exponent collapses to one
    let r = interp.visit(&pow(num(1), var('q')), None).unwrap();
    assert!(r.deep_eq(&num(1)));
    // zero base against a symbolic exponent collapses to zero
    let r = interp.visit(&pow(num(0), var('q')), None).unwrap();
    assert!(r.deep_eq(&num(0)));
    // symbolic base, exponent zero collapses to one
    let r = interp.visit(&pow(var('q'), num(0)), None).unwrap();
    assert!(r.deep_eq(&num(1)));
    // negative whole exponents are exact
    let r = interp.visit(&pow(num(2), num(-3)), None).unwrap();
    assert!(r.deep_eq(&Node::Num(Rational::new(1, 8))));
    // fractional exponents stay symbolic
    let half = Node::Num(Rational::new(1, 2));
    let r = interp.visit(&pow(num(2), half), None).unwrap();
    let expected = pow(num(2), Node::Num(Rational::new(1, 2)));
    assert!(r.deep_eq(&expected));
}

#[test]
fn cosecant_pole_is_undefined() {
    let interp = Interpreter::new();
    let pi = Rational::new(884279719003555, 281474976710656);
    assert!(matches!(
        interp.visit(&func(FuncType::Csc, Node::Num(pi)), None),
        Err(InterpreterError::Undefined)
    ));
    // the named constant resolves to the same pole
    assert!(matches!(
        interp.visit(&func(FuncType::Csc, var('\u{3c0}')), None),
        Err(InterpreterError::Undefined)
    ));
    // a negative multiple is a pole too
    let neg_pi = Rational::new(-884279719003555, 281474976710656);
    assert!(matches!(
        interp.visit(&func(FuncType::Csc, Node::Num(neg_pi)), None),
        Err(InterpreterError::Undefined)
    ));
    // so is a very large multiple: this value is pi times 2 to the 33rd
    let big_multiple = Rational::new(884279719003555, 32768);
    assert!(matches!(
        interp.visit(&func(FuncType::Csc, Node::Num(big_multiple)), None),
        Err(InterpreterError::Undefined)
    ));
    // and zero
    assert!(matches!(
        interp.visit(&func(FuncType::Csc, num(0)), None),
        Err(InterpreterError::Undefined)
    ));
    // away from the pole the application stays symbolic
    let r = interp.visit(&func(FuncType::Csc, num(1)), None).unwrap();
    assert!(r.deep_eq(&func(FuncType::Csc, num(1))));
}

#[test]
fn logarithms_of_zero_fail_signed() {
    let interp = Interpreter::new();
    assert!(matches!(
        interp.visit(&func(FuncType::Ln, num(0)), None),
        Err(InterpreterError::NegInfinity)
    ));
    assert!(matches!(
        interp.visit(&func(FuncType::Log, num(0)), None),
        Err(InterpreterError::Infinity)
    ));
}

#[test]
fn differentiating_an_equation_fails() {
    let interp = Interpreter::new();
    let eq = Node::Equation {
        lhs: Box::new(var('x')),
        rhs: Box::new(num(1)),
    };
    assert!(matches!(
        interp.differentiate(&eq, 'x', None),
        Err(InterpreterError::DifferentiatorError(_))
    ));
}

#[test]
fn differentiation_linear_over_sums() {
    let interp = Interpreter::new();
    // d(f+g) equals d(f) + d(g) term by term, for simplified f and g
    let f = pow(var('x'), num(2));
    let g = var('x');
    let sum = terms(vec![
        (TokenType::Plus, f.duplicate()),
        (TokenType::Plus, g.duplicate()),
    ]);
    let dsum = interp.differentiate(&sum, 'x', None).unwrap();
    let df = interp.differentiate(&f, 'x', None).unwrap();
    let dg = interp.differentiate(&g, 'x', None).unwrap();
    let expected = terms(vec![(TokenType::Plus, df), (TokenType::Plus, dg)]);
    assert!(dsum.deep_eq(&expected));
}

#[test]
fn derivative_marker_resolves_in_evaluation() {
    let interp = Interpreter::new();
    // evaluating d/dx(x^2) resolves the marker to 2x ...
    let marker = Node::Derivative {
        derivative: Box::new(pow(var('x'), num(2))),
        var: 'x',
    };
    let d = interp.visit(&marker, None).unwrap();
    let expected = factors(vec![(TokenType::Mul, var('x')), (TokenType::Mul, num(2))]);
    assert!(d.deep_eq(&expected));
    // ... which gives 6 at x = 3
    let env = bind('x', Rational::from_int(3));
    let r = interp.visit(&d, Some(&env)).unwrap();
    assert!(r.deep_eq(&num(6)));
}

#[test]
fn second_derivative_through_nested_markers() {
    let interp = Interpreter::new();
    // d/dx(d/dx(x^3)) at x = 2 is 6*x = 12
    let inner = Node::Derivative {
        derivative: Box::new(pow(var('x'), num(3))),
        var: 'x',
    };
    let outer = Node::Derivative {
        derivative: Box::new(inner),
        var: 'x',
    };
    let d = interp.visit(&outer, None).unwrap();
    let expected = factors(vec![(TokenType::Mul, var('x')), (TokenType::Mul, num(6))]);
    assert!(d.deep_eq(&expected));
    let env = bind('x', Rational::from_int(2));
    let r = interp.visit(&d, Some(&env)).unwrap();
    assert!(r.deep_eq(&num(12)));
}

#[test]
fn overflow_is_reported() {
    let interp = Interpreter::new();
    // 10^40 does not fit exact machine arithmetic
    assert!(matches!(
        interp.visit(&pow(num(10), num(40)), None),
        Err(InterpreterError::Overflow)
    ));
    // 10^30 still does
    let r = interp.visit(&pow(num(10), num(30)), None).unwrap();
    assert!(r.deep_eq(&Node::Num(Rational {
        num: 1_000_000_000_000_000_000_000_000_000_000,
        den: 1,
    })));
}

#[test]
fn equations_evaluate_sidewise() {
    let interp = Interpreter::new();
    let eq = Node::Equation {
        lhs: Box::new(terms(vec![
            (TokenType::Plus, num(1)),
            (TokenType::Plus, num(2)),
        ])),
        rhs: Box::new(var('x')),
    };
    let r = interp.visit(&eq, None).unwrap();
    let expected = Node::Equation {
        lhs: Box::new(num(3)),
        rhs: Box::new(var('x')),
    };
    assert!(r.deep_eq(&expected));
}

#[test]
fn nested_products_flatten() {
    let interp = Interpreter::new();
    // (2*x)*3 folds the scalars across the nesting
    let inner = factors(vec![(TokenType::Mul, num(2)), (TokenType::Mul, var('x'))]);
    let t = factors(vec![(TokenType::Mul, inner), (TokenType::Mul, num(3))]);
    let r = interp.visit(&t, None).unwrap();
    let expected = factors(vec![(TokenType::Mul, var('x')), (TokenType::Mul, num(6))]);
    assert!(r.deep_eq(&expected));
}

#[test]
fn renders_with_precedence_parentheses() {
    let t = factors(vec![
        (
            TokenType::Mul,
            terms(vec![
                (TokenType::Plus, var('x')),
                (TokenType::Plus, num(1)),
            ]),
        ),
        (TokenType::Div, num(2)),
    ]);
    assert_eq!(t.render(), "(x+1)/2");
    let t = pow(
        terms(vec![(TokenType::Minus, var('x'))]),
        num(2),
    );
    assert_eq!(t.render(), "(-x)^2");
    let t = func(FuncType::Ln, Node::Num(Rational::new(-3, 4)));
    assert_eq!(t.render(), "ln(-3/4)");
    let t = Node::Equation {
        lhs: Box::new(Node::Derivative {
            derivative: Box::new(var('x')),
            var: 'x',
        }),
        rhs: Box::new(num(150)),
    };
    assert_eq!(t.render(), "d/dx[x] = 150");
}
