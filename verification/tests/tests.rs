use cliph::algebra::simplify;
use cliph::ast::BinaryOp;
use cliph::ast::Expr;
use cliph::ast::UnaryOp;
use cliph::Num;

fn num(n: i64) -> Expr {
    Expr::Number(Num::from_int(n))
}

fn num_dec(n: i64, d: i64) -> Expr {
    Expr::Number(Num::new_frac(n, d).unwrap())
}

fn var(name: &str) -> Expr {
    Expr::Variable(name.to_string())
}

fn func(name: &str, arg: Expr) -> Expr {
    Expr::Function(name.to_string(), Box::new(arg))
}

fn bin(op: BinaryOp, a: Expr, b: Expr) -> Expr {
    Expr::BinaryOp(op, Box::new(a), Box::new(b))
}

fn neg(a: Expr) -> Expr {
    Expr::UnaryOp(UnaryOp::Neg, Box::new(a))
}

fn fold_binary_ops(op: BinaryOp, mut exprs: Vec<Expr>) -> Expr {
    if exprs.len() == 1 {
        exprs.pop().unwrap()
    } else {
        let right = exprs.pop().unwrap();
        let left = fold_binary_ops(op, exprs);
        Expr::BinaryOp(op, Box::new(left), Box::new(right))
    }
}

#[test]
fn test_number_identity() {
    assert_eq!(simplify(&num_dec(314, 100)), num_dec(314, 100));
}

#[test]
fn test_variable_identity() {
    assert_eq!(simplify(&var("x")), var("x"));
}

#[test]
fn test_add_zero() {
    assert_eq!(simplify(&bin(BinaryOp::Add, var("x"), num(0))), var("x"));
}

#[test]
fn test_mul_one() {
    assert_eq!(simplify(&bin(BinaryOp::Mul, var("x"), num(1))), var("x"));
}

#[test]
fn test_mul_zero() {
    assert_eq!(simplify(&bin(BinaryOp::Mul, var("x"), num(0))), num(0));
}

#[test]
fn test_pow_zero() {
    assert_eq!(simplify(&bin(BinaryOp::Pow, var("x"), num(0))), num(1));
}

#[test]
fn test_pow_one() {
    assert_eq!(simplify(&bin(BinaryOp::Pow, var("x"), num(1))), var("x"));
}

#[test]
fn test_addition_constants() {
    assert_eq!(simplify(&bin(BinaryOp::Add, num(3), num(2))), num(5));
}

#[test]
fn test_combine_like_terms() {
    let expr = bin(
        BinaryOp::Add,
        bin(BinaryOp::Mul, num(2), var("x")),
        var("x"),
    );
    assert_eq!(simplify(&expr), bin(BinaryOp::Mul, num(3), var("x")));
}

#[test]
fn test_combine_constants_and_vars() {
    let expr = bin(
        BinaryOp::Add,
        num(5),
        bin(BinaryOp::Add, num(2), var("x")),
    );
    assert_eq!(simplify(&expr), bin(BinaryOp::Add, num(7), var("x")));
}

#[test]
fn test_add_double_neg() {
    let expr = bin(BinaryOp::Add, neg(neg(var("x"))), num(2));

    let simplified = simplify(&expr);

    let expected1 = bin(BinaryOp::Add, var("x"), num(2));

    let expected2 = bin(BinaryOp::Add, num(2), var("x"));

    assert!(
        simplified == expected1 || simplified == expected2,
        "simplified = {:?}, expected either {:?} or {:?}",
        simplified,
        expected1,
        expected2
    );
}

#[test]
fn test_subtract_same_var() {
    let expr = bin(BinaryOp::Sub, var("x"), var("x"));
    assert_eq!(simplify(&expr), num(0));
}

#[test]
fn test_subtract_constants() {
    let expr = bin(BinaryOp::Sub, num(5), num(3));
    assert_eq!(simplify(&expr), num(2));
}

#[test]
fn test_subtract_distributes_negation() {
    let expr = bin(
        BinaryOp::Sub,
        num(2),
        bin(BinaryOp::Add, var("x"), num(3)),
    );
    let simplified = simplify(&expr);

    // Expected simplified form: (-1) + (-x)
    let expected1 = bin(BinaryOp::Add, num(-1), neg(var("x")));

    let expected2 = bin(BinaryOp::Add, neg(var("x")), num(-1));

    assert!(
        simplified == expected1 || simplified == expected2,
        "simplified = {:?}, expected either {:?} or {:?}",
        simplified,
        expected1,
        expected2
    );
}

#[test]
fn test_multiply_constants() {
    assert_eq!(simplify(&bin(BinaryOp::Mul, num(3), num(4))), num(12));
}

#[test]
fn test_multiply_and_combine_like_terms() {
    let expr = bin(
        BinaryOp::Add,
        bin(BinaryOp::Mul, num(2), var("x")),
        bin(BinaryOp::Mul, num(3), var("x")),
    );
    assert_eq!(simplify(&expr), bin(BinaryOp::Mul, num(5), var("x")));
}

#[test]
fn test_div_by_one() {
    assert_eq!(simplify(&bin(BinaryOp::Div, var("x"), num(1))), var("x"));
}

#[test]
fn test_zero_div() {
    assert_eq!(simplify(&bin(BinaryOp::Div, num(0), var("x"))), num(0));
}

#[test]
fn test_div_constants() {
    assert_eq!(simplify(&bin(BinaryOp::Div, num(6), num(2))), num(3));
}

#[test]
fn test_nested_add_flattened() {
    let expr = bin(
        BinaryOp::Add,
        bin(BinaryOp::Add, var("x"), var("y")),
        var("z"),
    );
    let expected = fold_binary_ops(BinaryOp::Add, vec![var("x"), var("y"), var("z")]);
    assert_eq!(simplify(&expr), expected);
}

#[test]
fn test_nested_mul_flattened() {
    let expr = bin(
        BinaryOp::Mul,
        bin(BinaryOp::Mul, num(2), var("x")),
        num(3),
    );
    assert_eq!(simplify(&expr), bin(BinaryOp::Mul, num(6), var("x")));
}

#[test]
fn test_double_negation() {
    let expr = neg(neg(var("x")));
    assert_eq!(simplify(&expr), var("x"));
}

#[test]
fn test_negate_number() {
    assert_eq!(simplify(&neg(num(3))), num(-3));
}

#[test]
fn test_sin_number() {
    assert_eq!(simplify(&func("sin", num(0))), num(0));
}

#[test]
fn test_cos_zero() {
    assert_eq!(simplify(&func("cos", num(0))), num(1));
}

#[test]
fn test_exp_zero() {
    assert_eq!(simplify(&func("exp", num(0))), num(1));
}

#[test]
fn test_log_one() {
    assert_eq!(simplify(&func("log", num(1))), num(0));
}

#[test]
fn test_abs_negative() {
    assert_eq!(simplify(&func("abs", num(-5))), num(5));
}

#[test]
fn test_function_not_evaluable() {
    let expr = func("sin", var("x"));
    assert_eq!(simplify(&expr), expr);
}

#[test]
fn test_log_negative_should_not_simplify() {
    let expr = func("log", num(-1));
    assert_eq!(simplify(&expr), expr);
}

#[test]
fn test_add_like_functions() {
    let expr = bin(
        BinaryOp::Add,
        func("cos", var("x")),
        func("cos", var("x")),
    );
    let simplified = simplify(&expr);

    let expected = bin(BinaryOp::Mul, num(2), func("cos", var("x")));

    assert_eq!(simplified, expected);
}

#[test]
fn test_pythagorean_identity() {
    let x = var("x");
    let sin2 = bin(BinaryOp::Pow, func("sin", x.clone()), num(2));
    let cos2 = bin(BinaryOp::Pow, func("cos", x.clone()), num(2));

    let expr = bin(BinaryOp::Add, sin2, cos2);
    let simplified = simplify(&expr);
    assert_eq!(simplified, num(1));
}

#[test]
fn test_nested_add_constants_flattened() {
    let expr = bin(
        BinaryOp::Add,
        bin(BinaryOp::Add, num(1), num(2)),
        num(3),
    );
    assert_eq!(simplify(&expr), num(6));
}

#[test]
fn test_nested_mul_constants_flattened() {
    let expr = bin(
        BinaryOp::Mul,
        bin(BinaryOp::Mul, num(2), num(3)),
        num(4),
    );
    assert_eq!(simplify(&expr), num(24));
}

#[test]
fn test_pythagorean_identity_cos2_plus_sin2_reversed() {
    let x = var("x");
    let cos2 = bin(BinaryOp::Pow, func("cos", x.clone()), num(2));
    let sin2 = bin(BinaryOp::Pow, func("sin", x.clone()), num(2));

    let expr = bin(BinaryOp::Add, cos2, sin2);
    assert_eq!(simplify(&expr), num(1));
}

#[test]
fn test_subtract_identical_functions() {
    let expr = bin(
        BinaryOp::Sub,
        func("cos", var("x")),
        func("cos", var("x")),
    );
    assert_eq!(simplify(&expr), num(0));
}

#[test]
fn test_negation_of_sum() {
    let expr = neg(bin(BinaryOp::Add, var("x"), var("y")));

    let simplified = simplify(&expr);

    let expected = bin(BinaryOp::Add, neg(var("x")), neg(var("y")));

    assert_eq!(simplified, simplify(&expected));
}

#[test]
fn test_combine_trig_like_terms() {
    let expr = bin(
        BinaryOp::Add,
        func("sin", var("x")),
        func("sin", var("x")),
    );

    let simplified = simplify(&expr);
    let expected = bin(BinaryOp::Mul, num(2), func("sin", var("x")));

    assert_eq!(simplified, expected);
}

#[test]
fn test_power_zero_nested() {
    let expr = bin(
        BinaryOp::Pow,
        bin(BinaryOp::Add, var("x"), num(1)),
        num(0),
    );
    assert_eq!(simplify(&expr), num(1));
}
