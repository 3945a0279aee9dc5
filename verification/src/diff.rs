use vstd::prelude::*;
use crate::algebra::{simp, simplify};
use crate::ast::{clone_expr, mk_bin, mk_fun, mk_neg, BinaryOp, Expr, ExprV, UnaryOp};
use crate::num::{rat_neg, rat_one, rat_sum, rat_zero, Num, RatV};

verus! {

/// The structural derivative of `e` with respect to the variable `v`, before
/// canonicalization. A power with a non-constant exponent and a call of an
/// unrecognized function both yield a marker node
/// `diff_not_supported(original)` rather than an error.
pub open spec fn d_spec(e: ExprV, v: Seq<char>) -> ExprV
    decreases e,
{
    match e {
        ExprV::Number(_) => ExprV::Number(rat_zero()),
        ExprV::Variable(name) => if name == v {
            ExprV::Number(rat_one())
        } else {
            ExprV::Number(rat_zero())
        },
        ExprV::UnaryOp(UnaryOp::Neg, x) => ExprV::UnaryOp(
            UnaryOp::Neg,
            Box::new(d_spec(*x, v)),
        ),
        ExprV::BinaryOp(op, a, b) => {
            match op {
                BinaryOp::Add => ExprV::BinaryOp(
                    BinaryOp::Add,
                    Box::new(d_spec(*a, v)),
                    Box::new(d_spec(*b, v)),
                ),
                BinaryOp::Sub => ExprV::BinaryOp(
                    BinaryOp::Sub,
                    Box::new(d_spec(*a, v)),
                    Box::new(d_spec(*b, v)),
                ),
                BinaryOp::Mul => ExprV::BinaryOp(
                    BinaryOp::Add,
                    Box::new(
                        ExprV::BinaryOp(BinaryOp::Mul, Box::new(d_spec(*a, v)), b),
                    ),
                    Box::new(
                        ExprV::BinaryOp(BinaryOp::Mul, a, Box::new(d_spec(*b, v))),
                    ),
                ),
                BinaryOp::Div => ExprV::BinaryOp(
                    BinaryOp::Div,
                    Box::new(
                        ExprV::BinaryOp(
                            BinaryOp::Sub,
                            Box::new(
                                ExprV::BinaryOp(
                                    BinaryOp::Mul,
                                    Box::new(d_spec(*a, v)),
                                    b,
                                ),
                            ),
                            Box::new(
                                ExprV::BinaryOp(
                                    BinaryOp::Mul,
                                    a,
                                    Box::new(d_spec(*b, v)),
                                ),
                            ),
                        ),
                    ),
                    Box::new(
                        ExprV::BinaryOp(
                            BinaryOp::Pow,
                            b,
                            Box::new(ExprV::Number(RatV { n: 2, d: 1 })),
                        ),
                    ),
                ),
                BinaryOp::Pow => match *b {
                    ExprV::Number(n) => match rat_sum(n, rat_neg(rat_one())) {
                        Some(m) => ExprV::BinaryOp(
                            BinaryOp::Mul,
                            Box::new(
                                ExprV::BinaryOp(
                                    BinaryOp::Mul,
                                    Box::new(ExprV::Number(n)),
                                    Box::new(
                                        ExprV::BinaryOp(
                                            BinaryOp::Pow,
                                            a,
                                            Box::new(ExprV::Number(m)),
                                        ),
                                    ),
                                ),
                            ),
                            Box::new(d_spec(*a, v)),
                        ),
                        None => ExprV::Function("diff_not_supported"@, Box::new(e)),
                    },
                    _ => ExprV::Function("diff_not_supported"@, Box::new(e)),
                },
            }
        },
        ExprV::Function(name, arg) => {
            let da = d_spec(*arg, v);
            if name == "sin"@ {
                ExprV::BinaryOp(
                    BinaryOp::Mul,
                    Box::new(ExprV::Function("cos"@, arg)),
                    Box::new(da),
                )
            } else if name == "cos"@ {
                ExprV::BinaryOp(
                    BinaryOp::Mul,
                    Box::new(
                        ExprV::UnaryOp(
                            UnaryOp::Neg,
                            Box::new(ExprV::Function("sin"@, arg)),
                        ),
                    ),
                    Box::new(da),
                )
            } else if name == "exp"@ {
                ExprV::BinaryOp(
                    BinaryOp::Mul,
                    Box::new(ExprV::Function("exp"@, arg)),
                    Box::new(da),
                )
            } else if name == "log"@ {
                ExprV::BinaryOp(BinaryOp::Div, Box::new(da), arg)
            } else {
                ExprV::Function("diff_not_supported"@, Box::new(e))
            }
        },
    }
}

fn d_expr(e: &Expr, var: &str) -> (r: Expr)
    ensures
        r@ == d_spec(e@, var@),
    decreases *e,
{
    match e {
        Expr::Number(_) => Expr::Number(Num::from_int(0)),
        Expr::Variable(name) => {
            if crate::ast::str_eq_lit(name, var) {
                Expr::Number(Num::from_int(1))
            } else {
                Expr::Number(Num::from_int(0))
            }
        },
        Expr::UnaryOp(UnaryOp::Neg, x) => mk_neg(d_expr(x, var)),
        Expr::BinaryOp(op, a, b) => match op {
            BinaryOp::Add => mk_bin(BinaryOp::Add, d_expr(a, var), d_expr(b, var)),
            BinaryOp::Sub => mk_bin(BinaryOp::Sub, d_expr(a, var), d_expr(b, var)),
            BinaryOp::Mul => mk_bin(
                BinaryOp::Add,
                mk_bin(BinaryOp::Mul, d_expr(a, var), clone_expr(b)),
                mk_bin(BinaryOp::Mul, clone_expr(a), d_expr(b, var)),
            ),
            BinaryOp::Div => mk_bin(
                BinaryOp::Div,
                mk_bin(
                    BinaryOp::Sub,
                    mk_bin(BinaryOp::Mul, d_expr(a, var), clone_expr(b)),
                    mk_bin(BinaryOp::Mul, clone_expr(a), d_expr(b, var)),
                ),
                mk_bin(BinaryOp::Pow, clone_expr(b), Expr::Number(Num::from_int(2))),
            ),
            BinaryOp::Pow => {
                let exp_num: Option<Num> = if let Expr::Number(k) = &**b {
                    Some(*k)
                } else {
                    None
                };
                proof {
                    assert(e@ == ExprV::BinaryOp(
                        BinaryOp::Pow,
                        Box::new(crate::ast::expr_view(**a)),
                        Box::new(crate::ast::expr_view(**b)),
                    ));
                }
                match exp_num {
                    Some(n) => {
                        proof {
                            assert(crate::ast::expr_view(**b) == ExprV::Number(n@));
                        }
                        match n.checked_sum(Num::from_int(-1)) {
                            Some(m) => mk_bin(
                                BinaryOp::Mul,
                                mk_bin(
                                    BinaryOp::Mul,
                                    Expr::Number(n),
                                    mk_bin(BinaryOp::Pow, clone_expr(a), Expr::Number(m)),
                                ),
                                d_expr(a, var),
                            ),
                            None => mk_fun(
                                String::from_str("diff_not_supported"),
                                clone_expr(e),
                            ),
                        }
                    },
                    None => mk_fun(String::from_str("diff_not_supported"), clone_expr(e)),
                }
            },
        },
        Expr::Function(name, arg) => {
            let da = d_expr(arg, var);
            if crate::ast::str_eq_lit(name, "sin") {
                mk_bin(
                    BinaryOp::Mul,
                    mk_fun(String::from_str("cos"), clone_expr(arg)),
                    da,
                )
            } else if crate::ast::str_eq_lit(name, "cos") {
                mk_bin(
                    BinaryOp::Mul,
                    mk_neg(mk_fun(String::from_str("sin"), clone_expr(arg))),
                    da,
                )
            } else if crate::ast::str_eq_lit(name, "exp") {
                mk_bin(
                    BinaryOp::Mul,
                    mk_fun(String::from_str("exp"), clone_expr(arg)),
                    da,
                )
            } else if crate::ast::str_eq_lit(name, "log") {
                mk_bin(BinaryOp::Div, da, clone_expr(arg))
            } else {
                mk_fun(String::from_str("diff_not_supported"), clone_expr(e))
            }
        },
    }
}

/// The symbolic derivative of `expr` with respect to `var`, reduced by the
/// canonicalizer: the result is exactly `simp` of the structural derivative.
pub fn differentiate(expr: &Expr, var: &str) -> (r: Expr)
    ensures
        r@ == simp(d_spec(expr@, var@)),
{
    let diffed = d_expr(expr, var);
    simplify(&diffed)
}

} // verus!
