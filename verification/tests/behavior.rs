use cliph::algebra::simplify;
use cliph::ast::BinaryOp;
use cliph::ast::Expr;
use cliph::ast::UnaryOp;
use cliph::diff::differentiate;
use cliph::format::{format_expr, format_expr_latex};
use cliph::latex::latex_to_math_expr;
use cliph::parser::{parse, ParseError};
use cliph::Num;

fn num(n: i64) -> Expr {
    Expr::Number(Num::from_int(n))
}

fn num_dec(n: i64, d: i64) -> Expr {
    Expr::Number(Num::new_frac(n, d).unwrap())
}

fn var(name: &str) -> Expr {
    Expr::Variable(name.to_string())
}

fn func(name: &str, arg: Expr) -> Expr {
    Expr::Function(name.to_string(), Box::new(arg))
}

fn bin(op: BinaryOp, a: Expr, b: Expr) -> Expr {
    Expr::BinaryOp(op, Box::new(a), Box::new(b))
}

fn neg(a: Expr) -> Expr {
    Expr::UnaryOp(UnaryOp::Neg, Box::new(a))
}

// ---- parsing ----

#[test]
fn test_parse_number_and_variable() {
    assert_eq!(parse("42"), Ok(num(42)));
    assert_eq!(parse("3.14"), Ok(num_dec(314, 100)));
    assert_eq!(parse(".5"), Ok(num_dec(1, 2)));
    assert_eq!(parse("3."), Ok(num(3)));
    assert_eq!(parse("  x_1 "), Ok(var("x_1")));
}

#[test]
fn test_parse_precedence() {
    // 1 + 2 * 3 parses as 1 + (2 * 3)
    assert_eq!(
        parse("1 + 2 * 3"),
        Ok(bin(
            BinaryOp::Add,
            num(1),
            bin(BinaryOp::Mul, num(2), num(3))
        ))
    );
    // left associativity: 1 - 2 + 3 is (1 - 2) + 3
    assert_eq!(
        parse("1 - 2 + 3"),
        Ok(bin(
            BinaryOp::Add,
            bin(BinaryOp::Sub, num(1), num(2)),
            num(3)
        ))
    );
}

#[test]
fn test_parse_power_binds_one_unary() {
    // the right-hand side of ^ is a single unary, so 2^-x is 2^(-x)
    assert_eq!(
        parse("2^-x"),
        Ok(bin(BinaryOp::Pow, num(2), neg(var("x"))))
    );
    // chained ^ is not part of the grammar: the second ^ is trailing input
    assert_eq!(parse("2^3^2"), Err(ParseError::TrailingInput));
}

#[test]
fn test_implicit_multiplication() {
    assert_eq!(parse("2x"), parse("2*x"));
    assert_eq!(parse("2(x+1)"), parse("2*(x+1)"));
    assert_eq!(parse("2x"), Ok(bin(BinaryOp::Mul, num(2), var("x"))));
}

#[test]
fn test_parse_function_call() {
    assert_eq!(parse("sin(x)"), Ok(func("sin", var("x"))));
    // an identifier directly followed by a parenthesis is a call, not a product
    assert_eq!(parse("x(y)"), Ok(func("x", var("y"))));
}

#[test]
fn test_parse_errors() {
    assert_eq!(parse(""), Err(ParseError::UnexpectedEndOfInput));
    assert_eq!(parse("x +"), Err(ParseError::UnexpectedEndOfInput));
    assert_eq!(parse("@"), Err(ParseError::UnexpectedCharacter('@')));
    assert_eq!(parse("(x"), Err(ParseError::ExpectedClosingParen));
    assert_eq!(parse("sin(x"), Err(ParseError::ExpectedClosingParenAfterCall));
    assert_eq!(parse("3.1.4"), Err(ParseError::InvalidNumericLiteral));
    assert_eq!(parse("."), Err(ParseError::InvalidNumericLiteral));
    assert_eq!(parse("x )"), Err(ParseError::TrailingInput));
}

#[test]
fn test_parse_depth_limit() {
    let mut deep = String::new();
    for _ in 0..600 {
        deep.push('-');
    }
    deep.push('x');
    assert_eq!(parse(&deep), Err(ParseError::DepthLimitExceeded));
    assert_eq!(parse("--x"), Ok(neg(neg(var("x")))));
}

// ---- formatting and round trips ----

#[test]
fn test_format_plain() {
    assert_eq!(format_expr(&bin(BinaryOp::Add, var("x"), num(2))), "(x + 2)");
    assert_eq!(format_expr(&neg(var("x"))), "-x");
    assert_eq!(format_expr(&num_dec(314, 100)), "3.14");
    assert_eq!(format_expr(&num(-7)), "-7");
    assert_eq!(format_expr(&num_dec(-1, 2)), "-0.5");
    assert_eq!(format_expr(&func("sin", var("x"))), "sin(x)");
    assert_eq!(
        format_expr(&bin(BinaryOp::Pow, var("x"), num(2))),
        "(x ^ 2)"
    );
}

#[test]
fn test_format_plain_quotient_fallback() {
    // a denominator with no short terminating decimal expansion
    let k = Num::new_frac(1, 3).unwrap();
    assert_eq!(format_expr(&Expr::Number(k)), "(1 / 3)");
}

#[test]
fn test_format_latex() {
    assert_eq!(
        format_expr_latex(&bin(BinaryOp::Div, var("x"), var("y"))),
        "\\frac{x}{y}"
    );
    assert_eq!(
        format_expr_latex(&bin(BinaryOp::Pow, var("x"), num(2))),
        "x^{2}"
    );
    assert_eq!(
        format_expr_latex(&func("sin", var("x"))),
        "\\sin\\left(x\\right)"
    );
    assert_eq!(
        format_expr_latex(&func("abs", var("x"))),
        "\\left|x\\right|"
    );
    assert_eq!(
        format_expr_latex(&func("foo", var("x"))),
        "foo\\left(x\\right)"
    );
    assert_eq!(
        format_expr_latex(&bin(BinaryOp::Mul, num(2), var("x"))),
        "2 x"
    );
}

#[test]
fn test_round_trip_plain() {
    let samples = vec![
        var("x"),
        num(2),
        num_dec(314, 100),
        bin(BinaryOp::Add, var("x"), var("y")),
        bin(BinaryOp::Sub, var("x"), num(1)),
        bin(
            BinaryOp::Mul,
            bin(BinaryOp::Add, var("x"), num(1)),
            var("y"),
        ),
        bin(BinaryOp::Div, var("x"), var("y")),
        bin(BinaryOp::Pow, var("x"), num(2)),
        neg(var("x")),
        func("sin", bin(BinaryOp::Add, var("x"), num(1))),
        func("log", var("t")),
    ];
    for e in samples {
        let text = format_expr(&e);
        assert_eq!(parse(&text), Ok(e), "round trip through {:?}", text);
    }
}

// ---- the LaTeX pre-pass ----

#[test]
fn test_latex_names_and_dollars() {
    assert_eq!(latex_to_math_expr("$\\sin(x)$"), "sin(x)");
    assert_eq!(latex_to_math_expr("\\cos(x)+\\exp(y)"), "cos(x)+exp(y)");
    assert_eq!(latex_to_math_expr("\\tan(\\log(\\abs(x)))"), "tan(log(abs(x)))");
}

#[test]
fn test_latex_frac() {
    assert_eq!(latex_to_math_expr("\\frac{1}{2}"), "(1)/(2)");
    assert_eq!(latex_to_math_expr("\\frac{x+1} {y}"), "(x+1)/(y)");
    // an unterminated group is left as it stands
    assert_eq!(latex_to_math_expr("\\frac{x"), "\\frac{x");
    // the pre-pass output parses
    let t = latex_to_math_expr("\\frac{1}{2} + \\sin(x)");
    assert_eq!(
        parse(&t),
        Ok(bin(
            BinaryOp::Add,
            bin(BinaryOp::Div, num(1), num(2)),
            func("sin", var("x"))
        ))
    );
}

// ---- differentiation ----

#[test]
fn test_differentiate_power_rule() {
    let e = bin(BinaryOp::Pow, var("x"), num(2));
    assert_eq!(differentiate(&e, "x"), bin(BinaryOp::Mul, num(2), var("x")));
}

#[test]
fn test_differentiate_sin() {
    let e = func("sin", var("x"));
    assert_eq!(differentiate(&e, "x"), func("cos", var("x")));
}

#[test]
fn test_differentiate_polynomial() {
    // d/dx (x^2 + 2x + 1) reduces to 2 + 2x, the constant term leading
    let e = bin(
        BinaryOp::Add,
        bin(
            BinaryOp::Add,
            bin(BinaryOp::Pow, var("x"), num(2)),
            bin(BinaryOp::Mul, num(2), var("x")),
        ),
        num(1),
    );
    assert_eq!(
        differentiate(&e, "x"),
        bin(
            BinaryOp::Add,
            num(2),
            bin(BinaryOp::Mul, num(2), var("x"))
        )
    );
}

#[test]
fn test_differentiate_other_variable() {
    assert_eq!(differentiate(&var("y"), "x"), num(0));
    assert_eq!(differentiate(&var("x"), "x"), num(1));
}

#[test]
fn test_differentiate_unsupported() {
    // a non-constant exponent yields the marker node, not an error
    let e = bin(BinaryOp::Pow, var("x"), var("y"));
    let d = differentiate(&e, "x");
    match d {
        Expr::Function(name, _) => assert_eq!(name, "diff_not_supported"),
        other => panic!("expected a marker node, got {:?}", other),
    }
    let u = func("sinh", var("x"));
    let du = differentiate(&u, "x");
    match du {
        Expr::Function(name, _) => assert_eq!(name, "diff_not_supported"),
        other => panic!("expected a marker node, got {:?}", other),
    }
}

#[test]
fn test_differentiate_quotient() {
    // d/dx (1/x) reduces to -1 / x^2
    let e = bin(BinaryOp::Div, num(1), var("x"));
    let d = differentiate(&e, "x");
    let expected = bin(
        BinaryOp::Div,
        num(-1),
        bin(BinaryOp::Pow, var("x"), num(2)),
    );
    assert_eq!(d, expected);
}

// ---- idempotence on concrete inputs ----

#[test]
fn test_simplify_idempotent_samples() {
    let samples = vec![
        bin(BinaryOp::Add, var("x"), num(0)),
        bin(
            BinaryOp::Add,
            bin(BinaryOp::Mul, num(2), var("x")),
            var("x"),
        ),
        bin(BinaryOp::Sub, num(2), bin(BinaryOp::Add, var("x"), num(3))),
        neg(bin(BinaryOp::Add, var("x"), var("y"))),
        bin(BinaryOp::Div, var("x"), var("y")),
        func("log", num(-1)),
        bin(BinaryOp::Pow, var("x"), num(3)),
    ];
    for e in samples {
        let once = simplify(&e);
        let twice = simplify(&once);
        assert_eq!(twice, once, "not idempotent on {:?}", e);
    }
}

#[test]
fn test_simplify_overflow_leaves_operands() {
    // exact arithmetic that would leave the 64-bit range folds nothing
    let big = Expr::Number(Num::from_int(i64::MAX));
    let e = bin(BinaryOp::Mul, big.clone(), big.clone());
    assert_eq!(simplify(&e), e);
}
