use vstd::prelude::*;
use crate::num::{Num, RatV};

verus! {

#[derive(Clone, Copy, PartialEq, Eq, Structural, Debug)]
pub enum UnaryOp {
    Neg,
}

#[derive(Clone, Copy, PartialEq, Eq, Structural, Debug)]
pub enum BinaryOp {
    Add,
    Sub,
    Mul,
    Div,
    Pow,
}

/// Mathematical view of an expression tree: names become character sequences
/// and numeric constants become exact fractions.
pub enum ExprV {
    Number(RatV),
    Variable(Seq<char>),
    UnaryOp(UnaryOp, Box<ExprV>),
    BinaryOp(BinaryOp, Box<ExprV>, Box<ExprV>),
    Function(Seq<char>, Box<ExprV>),
}

/// An expression tree: a numeric constant, a variable, a prefix negation, a
/// binary operation, or a one-argument function call.
#[derive(Debug)]
pub enum Expr {
    Number(Num),
    Variable(String),
    UnaryOp(UnaryOp, Box<Expr>),
    BinaryOp(BinaryOp, Box<Expr>, Box<Expr>),
    Function(String, Box<Expr>),
}

pub open spec fn expr_view(e: Expr) -> ExprV
    decreases e,
{
    match e {
        Expr::Number(k) => ExprV::Number(k@),
        Expr::Variable(s) => ExprV::Variable(s@),
        Expr::UnaryOp(op, a) => ExprV::UnaryOp(op, Box::new(expr_view(*a))),
        Expr::BinaryOp(op, a, b) => ExprV::BinaryOp(
            op,
            Box::new(expr_view(*a)),
            Box::new(expr_view(*b)),
        ),
        Expr::Function(s, a) => ExprV::Function(s@, Box::new(expr_view(*a))),
    }
}

impl View for Expr {
    type V = ExprV;

    open spec fn view(&self) -> ExprV {
        expr_view(*self)
    }
}

/// The views of every element of a sequence of expressions.
pub open spec fn views_of(s: Seq<Expr>) -> Seq<ExprV> {
    s.map_values(|e: Expr| e@)
}

/// Structural equality of two trees, decided recursively.
pub fn eq_expr(a: &Expr, b: &Expr) -> (r: bool)
    ensures
        r == (a@ == b@),
    decreases *a,
{
    match (a, b) {
        (Expr::Number(x), Expr::Number(y)) => x.eq_val(*y),
        (Expr::Variable(x), Expr::Variable(y)) => *x == *y,
        (Expr::UnaryOp(o1, a1), Expr::UnaryOp(o2, a2)) => *o1 == *o2 && eq_expr(a1, a2),
        (Expr::BinaryOp(o1, a1, b1), Expr::BinaryOp(o2, a2, b2)) => *o1 == *o2 && eq_expr(
            a1,
            a2,
        ) && eq_expr(b1, b2),
        (Expr::Function(n1, a1), Expr::Function(n2, a2)) => *n1 == *n2 && eq_expr(a1, a2),
        _ => false,
    }
}

/// Whether the string equals the given text, stated over the views.
pub fn str_eq_lit(s: &String, lit: &str) -> (r: bool)
    ensures
        r == (s@ == lit@),
{
    let l: String = lit.to_owned();
    *s == l
}

/// Build a binary node; the view is the binary node of the operand views.
pub fn mk_bin(op: BinaryOp, a: Expr, b: Expr) -> (r: Expr)
    ensures
        r@ == ExprV::BinaryOp(op, Box::new(a@), Box::new(b@)),
{
    Expr::BinaryOp(op, Box::new(a), Box::new(b))
}

/// Build a negation node.
pub fn mk_neg(a: Expr) -> (r: Expr)
    ensures
        r@ == ExprV::UnaryOp(UnaryOp::Neg, Box::new(a@)),
{
    Expr::UnaryOp(UnaryOp::Neg, Box::new(a))
}

/// Build a function-call node.
pub fn mk_fun(name: String, a: Expr) -> (r: Expr)
    ensures
        r@ == ExprV::Function(name@, Box::new(a@)),
{
    Expr::Function(name, Box::new(a))
}

/// A deep copy with the same view.
pub fn clone_expr(e: &Expr) -> (r: Expr)
    ensures
        r@ == e@,
    decreases *e,
{
    match e {
        Expr::Number(k) => Expr::Number(*k),
        Expr::Variable(s) => Expr::Variable(s.clone()),
        Expr::UnaryOp(op, a) => Expr::UnaryOp(*op, Box::new(clone_expr(a))),
        Expr::BinaryOp(op, a, b) => Expr::BinaryOp(
            *op,
            Box::new(clone_expr(a)),
            Box::new(clone_expr(b)),
        ),
        Expr::Function(s, a) => Expr::Function(s.clone(), Box::new(clone_expr(a))),
    }
}

impl Clone for Expr {
    fn clone(&self) -> (r: Expr)
        ensures
            r@ == self@,
    {
        clone_expr(self)
    }
}

impl PartialEq for Expr {
    fn eq(&self, other: &Expr) -> (r: bool) {
        eq_expr(self, other)
    }
}

impl vstd::std_specs::cmp::PartialEqSpecImpl for Expr {
    open spec fn obeys_eq_spec() -> bool {
        true
    }

    open spec fn eq_spec(&self, other: &Expr) -> bool {
        self@ == other@
    }
}

} // verus!
