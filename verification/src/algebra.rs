use vstd::prelude::*;
use crate::ast::{clone_expr, eq_expr, views_of, BinaryOp, Expr, ExprV, UnaryOp};
use crate::num::{
    opt_num_view, rat_abs, rat_neg, rat_one, rat_prod, rat_quot, rat_sum, rat_zero, Num, RatV,
};

verus! {

// ------------------------------------------------------------------
// Specification model of the canonicalizer, over expression views.
// ------------------------------------------------------------------

/// Flatten a nested chain of additions into its ordered list of terms.
pub open spec fn flat_add_v(e: ExprV) -> Seq<ExprV>
    decreases e,
{
    match e {
        ExprV::BinaryOp(BinaryOp::Add, a, b) => flat_add_v(*a) + flat_add_v(*b),
        _ => seq![e],
    }
}

/// Flatten a nested chain of multiplications into its ordered list of factors.
pub open spec fn flat_mul_v(e: ExprV) -> Seq<ExprV>
    decreases e,
{
    match e {
        ExprV::BinaryOp(BinaryOp::Mul, a, b) => flat_mul_v(*a) + flat_mul_v(*b),
        _ => seq![e],
    }
}

/// The negation rules applied to an already-simplified operand: fold a
/// constant, collapse a double negation, distribute over a sum (`-(a+b)` to
/// `(-a)+(-b)`) and over a difference (`-(a-b)` to `(-a)+b`).
pub open spec fn neg_of_v(e: ExprV) -> ExprV
    decreases e,
{
    match e {
        ExprV::Number(k) => ExprV::Number(rat_neg(k)),
        ExprV::UnaryOp(UnaryOp::Neg, inner) => *inner,
        ExprV::BinaryOp(BinaryOp::Add, a, b) => ExprV::BinaryOp(
            BinaryOp::Add,
            Box::new(neg_of_v(*a)),
            Box::new(neg_of_v(*b)),
        ),
        ExprV::BinaryOp(BinaryOp::Sub, a, b) => ExprV::BinaryOp(
            BinaryOp::Add,
            Box::new(neg_of_v(*a)),
            b,
        ),
        _ => ExprV::UnaryOp(UnaryOp::Neg, Box::new(e)),
    }
}

/// Strip pairs of directly nested negations, descending into binary nodes.
pub open spec fn norm_dneg_v(e: ExprV) -> ExprV
    decreases e,
{
    match e {
        ExprV::UnaryOp(UnaryOp::Neg, inner) => match *inner {
            ExprV::UnaryOp(UnaryOp::Neg, inner2) => norm_dneg_v(*inner2),
            _ => ExprV::UnaryOp(UnaryOp::Neg, Box::new(norm_dneg_v(*inner))),
        },
        ExprV::BinaryOp(op, a, b) => ExprV::BinaryOp(
            op,
            Box::new(norm_dneg_v(*a)),
            Box::new(norm_dneg_v(*b)),
        ),
        _ => e,
    }
}

/// Split a term into a numeric coefficient and a residual base: a number has
/// base one, a negation negates the inner coefficient, and a product combines
/// the coefficients of both sides. `None` means the term has no extractable
/// coefficient (or its exact product would not fit) and counts as a whole.
pub open spec fn extract_core_v(e: ExprV) -> Option<(RatV, ExprV)>
    decreases e,
{
    match e {
        ExprV::Number(k) => Some((k, ExprV::Number(rat_one()))),
        ExprV::UnaryOp(UnaryOp::Neg, inner) => match extract_core_v(*inner) {
            Some(p) => Some((rat_neg(p.0), p.1)),
            None => None,
        },
        ExprV::BinaryOp(BinaryOp::Mul, l, r) => {
            let lp = extract_core_v(*l);
            let rp = extract_core_v(*r);
            match (lp, rp) {
                (Some(lq), Some(rq)) => match rat_prod(lq.0, rq.0) {
                    Some(c) => {
                        let base = if lq.1 == ExprV::Number(rat_one()) {
                            rq.1
                        } else if rq.1 == ExprV::Number(rat_one()) {
                            lq.1
                        } else {
                            ExprV::BinaryOp(BinaryOp::Mul, Box::new(lq.1), Box::new(rq.1))
                        };
                        Some((c, base))
                    },
                    None => None,
                },
                (Some(lq), None) => {
                    let base = if lq.1 == ExprV::Number(rat_one()) {
                        *r
                    } else {
                        ExprV::BinaryOp(BinaryOp::Mul, Box::new(lq.1), Box::new(*r))
                    };
                    Some((lq.0, base))
                },
                (None, Some(rq)) => {
                    let base = if rq.1 == ExprV::Number(rat_one()) {
                        *l
                    } else {
                        ExprV::BinaryOp(BinaryOp::Mul, Box::new(*l), Box::new(rq.1))
                    };
                    Some((rq.0, base))
                },
                (None, None) => None,
            }
        },
        _ => None,
    }
}

/// Coefficient extraction as the canonicalizer uses it: double negations are
/// normalized away first.
pub open spec fn extract_coef_v(e: ExprV) -> Option<(RatV, ExprV)> {
    extract_core_v(norm_dneg_v(e))
}

/// First index in `bs` equal to `b`, scanning from position `j`; `-1` if none.
pub open spec fn find_from(bs: Seq<ExprV>, b: ExprV, j: int) -> int
    decreases bs.len() - j,
    when 0 <= j <= bs.len()
{
    if j >= bs.len() {
        -1
    } else if bs[j] == b {
        j
    } else {
        find_from(bs, b, j + 1)
    }
}

/// Accumulate the terms into an association from base (`bs`) to coefficient
/// sum (`cs`), keeping first-seen order of bases. `None` when a coefficient
/// sum leaves the representable range.
pub open spec fn accum_pairs(bs: Seq<ExprV>, cs: Seq<RatV>, terms: Seq<ExprV>) -> Option<
    (Seq<ExprV>, Seq<RatV>),
>
    decreases terms.len(),
{
    if terms.len() == 0 {
        Some((bs, cs))
    } else {
        let t = terms[0];
        let cb = match extract_coef_v(t) {
            Some(p) => p,
            None => (rat_one(), t),
        };
        let i = find_from(bs, cb.1, 0);
        if i < 0 {
            accum_pairs(bs.push(cb.1), cs.push(cb.0), terms.drop_first())
        } else {
            match rat_sum(cs[i], cb.0) {
                Some(c2) => accum_pairs(bs, cs.update(i, c2), terms.drop_first()),
                None => None,
            }
        }
    }
}

/// Turn the accumulated association back into terms: zero coefficients are
/// dropped, a base of literal one becomes a plain constant (emitted last), a
/// coefficient of exactly one is emitted bare, anything else as
/// `coefficient * base`. Returns (combined terms, constant terms).
pub open spec fn emit_terms(bs: Seq<ExprV>, cs: Seq<RatV>) -> (Seq<ExprV>, Seq<ExprV>)
    recommends
        bs.len() == cs.len(),
    decreases bs.len(),
{
    if bs.len() == 0 || cs.len() == 0 {
        (Seq::<ExprV>::empty(), Seq::<ExprV>::empty())
    } else {
        let b = bs[0];
        let c = cs[0];
        let tail = emit_terms(bs.drop_first(), cs.drop_first());
        if c.n == 0 {
            tail
        } else if b == ExprV::Number(rat_one()) {
            (tail.0, seq![ExprV::Number(c)] + tail.1)
        } else if c == rat_one() {
            (seq![b] + tail.0, tail.1)
        } else {
            (
                seq![
                    ExprV::BinaryOp(BinaryOp::Mul, Box::new(ExprV::Number(c)), Box::new(b)),
                ] + tail.0,
                tail.1,
            )
        }
    }
}

/// Like-term combination over a flattened term list.
pub open spec fn combine_terms_v(terms: Seq<ExprV>) -> Option<Seq<ExprV>> {
    match accum_pairs(Seq::<ExprV>::empty(), Seq::<RatV>::empty(), terms) {
        None => None,
        Some(ps) => {
            let e = emit_terms(ps.0, ps.1);
            Some(e.0 + e.1)
        },
    }
}

/// Sum all numeric terms into `acc`, keeping the rest in order.
pub open spec fn partition_step(acc: RatV, non: Seq<ExprV>, terms: Seq<ExprV>) -> Option<
    (RatV, Seq<ExprV>),
>
    decreases terms.len(),
{
    if terms.len() == 0 {
        Some((acc, non))
    } else {
        match terms[0] {
            ExprV::Number(k) => match rat_sum(acc, k) {
                Some(a2) => partition_step(a2, non, terms.drop_first()),
                None => None,
            },
            _ => partition_step(acc, non.push(terms[0]), terms.drop_first()),
        }
    }
}

pub open spec fn partition_consts_v(terms: Seq<ExprV>) -> Option<(RatV, Seq<ExprV>)> {
    partition_step(rat_zero(), Seq::<ExprV>::empty(), terms)
}

/// Multiply all numeric factors into `acc`, keeping the rest in order.
pub open spec fn partition_mul_step(acc: RatV, non: Seq<ExprV>, factors: Seq<ExprV>) -> Option<
    (RatV, Seq<ExprV>),
>
    decreases factors.len(),
{
    if factors.len() == 0 {
        Some((acc, non))
    } else {
        match factors[0] {
            ExprV::Number(k) => match rat_prod(acc, k) {
                Some(a2) => partition_mul_step(a2, non, factors.drop_first()),
                None => None,
            },
            _ => partition_mul_step(acc, non.push(factors[0]), factors.drop_first()),
        }
    }
}

pub open spec fn partition_mul_v(factors: Seq<ExprV>) -> Option<(RatV, Seq<ExprV>)> {
    partition_mul_step(rat_one(), Seq::<ExprV>::empty(), factors)
}

/// Reassemble a non-empty list under one operator, leaning left:
/// `[a, b, c]` becomes `(a op b) op c`.
pub open spec fn fold_ops_v(op: BinaryOp, es: Seq<ExprV>) -> ExprV
    recommends
        es.len() >= 1,
    decreases es.len(),
{
    if es.len() <= 1 {
        es[0]
    } else {
        ExprV::BinaryOp(op, Box::new(fold_ops_v(op, es.drop_last())), Box::new(es.last()))
    }
}

pub open spec fn rat_two() -> RatV {
    RatV { n: 2, d: 1 }
}

/// The Pythagorean pattern: `f1(a)^2 + f2(a)^2` with `{f1, f2} = {sin, cos}`
/// and structurally equal arguments.
pub open spec fn is_pyth_pair(t1: ExprV, t2: ExprV) -> bool {
    match (t1, t2) {
        (ExprV::BinaryOp(BinaryOp::Pow, s1, e1), ExprV::BinaryOp(BinaryOp::Pow, s2, e2)) => match (
            *s1,
            *s2,
            *e1,
            *e2,
        ) {
            (
                ExprV::Function(f1, a1),
                ExprV::Function(f2, a2),
                ExprV::Number(n1),
                ExprV::Number(n2),
            ) => n1 == rat_two() && n2 == rat_two() && ((f1 == "sin"@ && f2 == "cos"@) || (f1
                == "cos"@ && f2 == "sin"@)) && a1 == a2,
            _ => false,
        },
        _ => false,
    }
}

/// The addition rule on two simplified operands: flatten, collapse the
/// Pythagorean pair, combine like terms, lead with the constant sum when it is
/// not zero, and fold back. When exact arithmetic would overflow, the two
/// operands are left as a plain sum.
pub open spec fn add_combine_v(sa: ExprV, sb: ExprV) -> ExprV {
    let terms = flat_add_v(sa) + flat_add_v(sb);
    if terms.len() == 2 && is_pyth_pair(terms[0], terms[1]) {
        ExprV::Number(rat_one())
    } else {
        match combine_terms_v(terms) {
            None => ExprV::BinaryOp(BinaryOp::Add, Box::new(sa), Box::new(sb)),
            Some(ct) => match partition_consts_v(ct) {
                None => ExprV::BinaryOp(BinaryOp::Add, Box::new(sa), Box::new(sb)),
                Some(sn) => {
                    let all = if sn.0.n != 0 {
                        seq![ExprV::Number(sn.0)] + sn.1
                    } else {
                        sn.1
                    };
                    if all.len() == 0 {
                        ExprV::Number(rat_zero())
                    } else {
                        fold_ops_v(BinaryOp::Add, all)
                    }
                },
            },
        }
    }
}

/// The multiplication rule on two simplified operands: flatten, multiply the
/// constants, collapse to zero on a zero factor, lead with the constant product
/// when it is not one, and fold back. When exact arithmetic would overflow, the
/// two operands are left as a plain product.
pub open spec fn mul_combine_v(sa: ExprV, sb: ExprV) -> ExprV {
    let factors = flat_mul_v(sa) + flat_mul_v(sb);
    match partition_mul_v(factors) {
        None => ExprV::BinaryOp(BinaryOp::Mul, Box::new(sa), Box::new(sb)),
        Some(pn) => {
            if pn.0.n == 0 {
                ExprV::Number(rat_zero())
            } else {
                let all = if pn.0.n != pn.0.d {
                    seq![ExprV::Number(pn.0)] + pn.1
                } else {
                    pn.1
                };
                if all.len() == 0 {
                    ExprV::Number(rat_one())
                } else {
                    fold_ops_v(BinaryOp::Mul, all)
                }
            }
        },
    }
}

/// The division rule on two simplified operands.
pub open spec fn div_rule_v(sa: ExprV, sb: ExprV) -> ExprV {
    match (sa, sb) {
        (ExprV::Number(n1), ExprV::Number(n2)) => match rat_quot(n1, n2) {
            Some(q) => ExprV::Number(q),
            None => ExprV::BinaryOp(BinaryOp::Div, Box::new(sa), Box::new(sb)),
        },
        _ => {
            if sb == ExprV::Number(rat_one()) {
                sa
            } else if sa == ExprV::Number(rat_zero()) {
                ExprV::Number(rat_zero())
            } else {
                ExprV::BinaryOp(BinaryOp::Div, Box::new(sa), Box::new(sb))
            }
        },
    }
}

/// The power rule on two simplified operands: exponent zero gives one,
/// exponent one gives the base.
pub open spec fn pow_rule_v(sa: ExprV, sb: ExprV) -> ExprV {
    match sb {
        ExprV::Number(k) => {
            if k.n == 0 {
                ExprV::Number(rat_one())
            } else if k.n == k.d {
                sa
            } else {
                ExprV::BinaryOp(BinaryOp::Pow, Box::new(sa), Box::new(sb))
            }
        },
        _ => ExprV::BinaryOp(BinaryOp::Pow, Box::new(sa), Box::new(sb)),
    }
}

/// Function application on a simplified argument. A recognized function at a
/// constant argument folds exactly where its exact value is representable:
/// `sin`, `tan` at zero; `cos`, `exp` at zero; `log` at one (non-positive
/// arguments are the domain guard and always stay); `abs` everywhere. All
/// other applications stay unevaluated.
pub open spec fn apply_fn_v(name: Seq<char>, sarg: ExprV) -> ExprV {
    match sarg {
        ExprV::Number(k) => {
            if name == "sin"@ || name == "tan"@ {
                if k.n == 0 {
                    ExprV::Number(rat_zero())
                } else {
                    ExprV::Function(name, Box::new(sarg))
                }
            } else if name == "cos"@ || name == "exp"@ {
                if k.n == 0 {
                    ExprV::Number(rat_one())
                } else {
                    ExprV::Function(name, Box::new(sarg))
                }
            } else if name == "log"@ {
                if k.n == k.d {
                    ExprV::Number(rat_zero())
                } else {
                    ExprV::Function(name, Box::new(sarg))
                }
            } else if name == "abs"@ {
                ExprV::Number(rat_abs(k))
            } else {
                ExprV::Function(name, Box::new(sarg))
            }
        },
        _ => ExprV::Function(name, Box::new(sarg)),
    }
}

/// The whole canonicalizer: children first, then the rule of the node kind.
/// A difference of structurally equal operands collapses to zero; otherwise it
/// is rewritten as a sum with the negated right side, distributing the
/// negation once when that side is itself a sum.
pub open spec fn simp(e: ExprV) -> ExprV
    decreases e,
{
    match e {
        ExprV::Number(_) => e,
        ExprV::Variable(_) => e,
        ExprV::UnaryOp(UnaryOp::Neg, x) => neg_of_v(simp(*x)),
        ExprV::BinaryOp(op, a, b) => {
            let sa = simp(*a);
            let sb = simp(*b);
            match op {
                BinaryOp::Add => add_combine_v(sa, sb),
                BinaryOp::Mul => mul_combine_v(sa, sb),
                BinaryOp::Sub => {
                    if sa == sb {
                        ExprV::Number(rat_zero())
                    } else {
                        match sb {
                            ExprV::BinaryOp(BinaryOp::Add, l, r) => add_combine_v(
                                sa,
                                add_combine_v(neg_of_v(*l), neg_of_v(*r)),
                            ),
                            _ => add_combine_v(sa, neg_of_v(sb)),
                        }
                    }
                },
                BinaryOp::Div => div_rule_v(sa, sb),
                BinaryOp::Pow => pow_rule_v(sa, sb),
            }
        },
        ExprV::Function(name, arg) => apply_fn_v(name, simp(*arg)),
    }
}

// ------------------------------------------------------------------
// Executable canonicalizer, proved against the model above.
// ------------------------------------------------------------------

proof fn lemma_views_concat(a: Seq<Expr>, b: Seq<Expr>)
    ensures
        views_of(a + b) == views_of(a) + views_of(b),
{
    assert(views_of(a + b) =~= views_of(a) + views_of(b));
}

fn flatten_add(e: &Expr) -> (r: Vec<Expr>)
    ensures
        views_of(r@) == flat_add_v(e@),
    decreases *e,
{
    match e {
        Expr::BinaryOp(BinaryOp::Add, a, b) => {
            let mut v = flatten_add(a);
            let mut w = flatten_add(b);
            let ghost v0 = v@;
            v.append(&mut w);
            proof {
                lemma_views_concat(v0, w@);
            }
            v
        },
        _ => {
            let mut v: Vec<Expr> = Vec::new();
            v.push(clone_expr(e));
            proof {
                assert(views_of(v@) =~= flat_add_v(e@));
            }
            v
        },
    }
}

fn flatten_mul(e: &Expr) -> (r: Vec<Expr>)
    ensures
        views_of(r@) == flat_mul_v(e@),
    decreases *e,
{
    match e {
        Expr::BinaryOp(BinaryOp::Mul, a, b) => {
            let mut v = flatten_mul(a);
            let mut w = flatten_mul(b);
            let ghost v0 = v@;
            v.append(&mut w);
            proof {
                lemma_views_concat(v0, w@);
            }
            v
        },
        _ => {
            let mut v: Vec<Expr> = Vec::new();
            v.push(clone_expr(e));
            proof {
                assert(views_of(v@) =~= flat_mul_v(e@));
            }
            v
        },
    }
}

/// The negation rules on an already-simplified operand; see `neg_of_v`.
fn neg_of(e: &Expr) -> (r: Expr)
    ensures
        r@ == neg_of_v(e@),
    decreases *e,
{
    match e {
        Expr::Number(k) => Expr::Number(k.neg_val()),
        Expr::UnaryOp(UnaryOp::Neg, inner) => clone_expr(inner),
        Expr::BinaryOp(BinaryOp::Add, a, b) => Expr::BinaryOp(
            BinaryOp::Add,
            Box::new(neg_of(a)),
            Box::new(neg_of(b)),
        ),
        Expr::BinaryOp(BinaryOp::Sub, a, b) => Expr::BinaryOp(
            BinaryOp::Add,
            Box::new(neg_of(a)),
            Box::new(clone_expr(b)),
        ),
        _ => Expr::UnaryOp(UnaryOp::Neg, Box::new(clone_expr(e))),
    }
}

fn normalize_double_neg(e: &Expr) -> (r: Expr)
    ensures
        r@ == norm_dneg_v(e@),
    decreases *e,
{
    match e {
        Expr::UnaryOp(UnaryOp::Neg, inner) => match &**inner {
            Expr::UnaryOp(UnaryOp::Neg, inner2) => {
                proof {
                    assert(e@ == ExprV::UnaryOp(
                        UnaryOp::Neg,
                        Box::new(crate::ast::expr_view(**inner)),
                    ));
                    assert(crate::ast::expr_view(**inner) == ExprV::UnaryOp(
                        UnaryOp::Neg,
                        Box::new(crate::ast::expr_view(**inner2)),
                    ));
                }
                normalize_double_neg(inner2)
            },
            _ => Expr::UnaryOp(UnaryOp::Neg, Box::new(normalize_double_neg(inner))),
        },
        Expr::BinaryOp(op, a, b) => Expr::BinaryOp(
            *op,
            Box::new(normalize_double_neg(a)),
            Box::new(normalize_double_neg(b)),
        ),
        _ => clone_expr(e),
    }
}

pub open spec fn opt_pair_view(o: Option<(Num, Expr)>) -> Option<(RatV, ExprV)> {
    match o {
        None => None,
        Some(p) => Some((p.0@, p.1@)),
    }
}

fn extract_core(e: &Expr) -> (r: Option<(Num, Expr)>)
    ensures
        opt_pair_view(r) == extract_core_v(e@),
    decreases *e,
{
    match e {
        Expr::Number(k) => Some((*k, Expr::Number(Num::from_int(1)))),
        Expr::UnaryOp(UnaryOp::Neg, inner) => match extract_core(inner) {
            Some(p) => Some((p.0.neg_val(), p.1)),
            None => None,
        },
        Expr::BinaryOp(BinaryOp::Mul, l, r) => {
            let lp = extract_core(l);
            let rp = extract_core(r);
            match (lp, rp) {
                (Some(lq), Some(rq)) => match lq.0.checked_prod(rq.0) {
                    Some(c) => {
                        let one = Expr::Number(Num::from_int(1));
                        let base = if eq_expr(&lq.1, &one) {
                            rq.1
                        } else if eq_expr(&rq.1, &one) {
                            lq.1
                        } else {
                            Expr::BinaryOp(BinaryOp::Mul, Box::new(lq.1), Box::new(rq.1))
                        };
                        Some((c, base))
                    },
                    None => None,
                },
                (Some(lq), None) => {
                    let one = Expr::Number(Num::from_int(1));
                    let base = if eq_expr(&lq.1, &one) {
                        clone_expr(r)
                    } else {
                        Expr::BinaryOp(BinaryOp::Mul, Box::new(lq.1), Box::new(clone_expr(r)))
                    };
                    Some((lq.0, base))
                },
                (None, Some(rq)) => {
                    let one = Expr::Number(Num::from_int(1));
                    let base = if eq_expr(&rq.1, &one) {
                        clone_expr(l)
                    } else {
                        Expr::BinaryOp(BinaryOp::Mul, Box::new(clone_expr(l)), Box::new(rq.1))
                    };
                    Some((rq.0, base))
                },
                (None, None) => None,
            }
        },
        _ => None,
    }
}

fn extract_coefficient(e: &Expr) -> (r: Option<(Num, Expr)>)
    ensures
        opt_pair_view(r) == extract_coef_v(e@),
{
    let ne = normalize_double_neg(e);
    extract_core(&ne)
}

pub open spec fn opt_vec_view(o: Option<Vec<Expr>>) -> Option<Seq<ExprV>> {
    match o {
        None => None,
        Some(v) => Some(views_of(v@)),
    }
}

pub open spec fn num_views(s: Seq<Num>) -> Seq<RatV> {
    s.map_values(|k: Num| k@)
}

fn find_base_idx(bases: &Vec<Expr>, b: &Expr) -> (r: Option<usize>)
    ensures
        match r {
            Some(j) => 0 <= j < bases@.len() && find_from(views_of(bases@), b@, 0) == j as int,
            None => find_from(views_of(bases@), b@, 0) == -1,
        },
{
    let ghost bs = views_of(bases@);
    let n = bases.len();
    let mut j: usize = 0;
    while j < n
        invariant
            0 <= j <= n,
            n == bases@.len(),
            bs == views_of(bases@),
            find_from(bs, b@, 0) == find_from(bs, b@, j as int),
        decreases n - j,
    {
        if eq_expr(&bases[j], b) {
            return Some(j);
        }
        j = j + 1;
    }
    None
}

/// Merge like terms of a flattened sum; `None` when an exact coefficient sum
/// would not fit.
fn combine_like_terms(terms: Vec<Expr>) -> (r: Option<Vec<Expr>>)
    ensures
        opt_vec_view(r) == combine_terms_v(views_of(terms@)),
{
    let ghost ts = views_of(terms@);
    let mut bases: Vec<Expr> = Vec::new();
    let mut coefs: Vec<Num> = Vec::new();
    proof {
        assert(views_of(bases@) =~= Seq::<ExprV>::empty());
        assert(num_views(coefs@) =~= Seq::<RatV>::empty());
        assert(ts.skip(0) =~= ts);
    }
    let n = terms.len();
    let mut i: usize = 0;
    while i < n
        invariant
            0 <= i <= n,
            n == terms@.len(),
            ts == views_of(terms@),
            bases@.len() == coefs@.len(),
            accum_pairs(views_of(bases@), num_views(coefs@), ts.skip(i as int)) == accum_pairs(
                Seq::<ExprV>::empty(),
                Seq::<RatV>::empty(),
                ts,
            ),
        decreases n - i,
    {
        let t = &terms[i];
        proof {
            assert(ts.skip(i as int)[0] == ts[i as int]);
            assert(ts.skip(i as int).drop_first() =~= ts.skip(i as int + 1));
        }
        let cb: (Num, Expr) = match extract_coefficient(t) {
            Some(p) => p,
            None => (Num::from_int(1), clone_expr(t)),
        };
        let (coef, base) = cb;
        match find_base_idx(&bases, &base) {
            None => {
                let ghost bs0 = views_of(bases@);
                let ghost cs0 = num_views(coefs@);
                bases.push(base);
                coefs.push(coef);
                proof {
                    assert(views_of(bases@) =~= bs0.push(base@));
                    assert(num_views(coefs@) =~= cs0.push(coef@));
                }
            },
            Some(j) => {
                let ghost bs0 = views_of(bases@);
                let ghost cs0 = num_views(coefs@);
                match coefs[j].checked_sum(coef) {
                    Some(c2) => {
                        coefs[j] = c2;
                        proof {
                            assert(views_of(bases@) =~= bs0);
                            assert(num_views(coefs@) =~= cs0.update(j as int, c2@));
                        }
                    },
                    None => {
                        return None;
                    },
                }
            },
        }
        i = i + 1;
    }
    proof {
        assert(ts.skip(n as int) =~= Seq::<ExprV>::empty());
    }
    // Emission pass over the accumulated association.
    let ghost bs_acc = views_of(bases@);
    let ghost cs_acc = num_views(coefs@);
    let m = bases.len();
    let mut combined: Vec<Expr> = Vec::new();
    let mut const_terms: Vec<Expr> = Vec::new();
    proof {
        assert(views_of(combined@) =~= Seq::<ExprV>::empty());
        assert(views_of(const_terms@) =~= Seq::<ExprV>::empty());
        assert(bs_acc.skip(0) =~= bs_acc);
        assert(cs_acc.skip(0) =~= cs_acc);
    }
    let mut k: usize = 0;
    while k < m
        invariant
            0 <= k <= m,
            m == bases@.len(),
            bases@.len() == coefs@.len(),
            bs_acc == views_of(bases@),
            cs_acc == num_views(coefs@),
            emit_terms(bs_acc, cs_acc).0 == views_of(combined@) + emit_terms(
                bs_acc.skip(k as int),
                cs_acc.skip(k as int),
            ).0,
            emit_terms(bs_acc, cs_acc).1 == views_of(const_terms@) + emit_terms(
                bs_acc.skip(k as int),
                cs_acc.skip(k as int),
            ).1,
        decreases m - k,
    {
        proof {
            assert(bs_acc.skip(k as int)[0] == bs_acc[k as int]);
            assert(cs_acc.skip(k as int)[0] == cs_acc[k as int]);
            assert(bs_acc.skip(k as int).drop_first() =~= bs_acc.skip(k as int + 1));
            assert(cs_acc.skip(k as int).drop_first() =~= cs_acc.skip(k as int + 1));
        }
        let c = coefs[k];
        let one = Expr::Number(Num::from_int(1));
        if c.is_zero() {
        } else if eq_expr(&bases[k], &one) {
            let ghost cv0 = views_of(const_terms@);
            const_terms.push(Expr::Number(c));
            proof {
                assert(views_of(const_terms@) =~= cv0.push(ExprV::Number(c@)));
                assert(cv0.push(ExprV::Number(c@)) =~= cv0 + seq![ExprV::Number(c@)]);
            }
        } else if c.numer() == 1 && c.denom() == 1 {
            let ghost cb0 = views_of(combined@);
            combined.push(clone_expr(&bases[k]));
            proof {
                assert(views_of(combined@) =~= cb0 + seq![bs_acc[k as int]]);
            }
        } else {
            let ghost cb0 = views_of(combined@);
            let scaled = Expr::BinaryOp(
                BinaryOp::Mul,
                Box::new(Expr::Number(c)),
                Box::new(clone_expr(&bases[k])),
            );
            proof {
                assert(crate::ast::expr_view(Expr::Number(c)) == ExprV::Number(c@));
                assert(bs_acc[k as int] == bases@[k as int]@);
                assert(scaled@ == ExprV::BinaryOp(
                    BinaryOp::Mul,
                    Box::new(ExprV::Number(c@)),
                    Box::new(bs_acc[k as int]),
                ));
            }
            combined.push(scaled);
            proof {
                assert(views_of(combined@) =~= cb0 + seq![
                    ExprV::BinaryOp(
                        BinaryOp::Mul,
                        Box::new(ExprV::Number(c@)),
                        Box::new(bs_acc[k as int]),
                    ),
                ]);
            }
        }
        k = k + 1;
    }
    proof {
        assert(bs_acc.skip(m as int) =~= Seq::<ExprV>::empty());
        assert(cs_acc.skip(m as int) =~= Seq::<RatV>::empty());
    }
    let mut res = combined;
    let mut ct = const_terms;
    let ghost comb_e = res@;
    let ghost ct_e = ct@;
    res.append(&mut ct);
    proof {
        lemma_views_concat(comb_e, ct_e);
    }
    Some(res)
}

/// Sum the numeric terms of a flattened sum into one leading constant.
fn partition_consts(terms: Vec<Expr>) -> (r: Option<(Num, Vec<Expr>)>)
    ensures
        match r {
            Some(p) => partition_consts_v(views_of(terms@)) == Some(
                (p.0@, views_of(p.1@)),
            ),
            None => partition_consts_v(views_of(terms@)) is None,
        },
{
    let ghost ts = views_of(terms@);
    let mut acc = Num::from_int(0);
    let mut non: Vec<Expr> = Vec::new();
    proof {
        assert(views_of(non@) =~= Seq::<ExprV>::empty());
        assert(ts.skip(0) =~= ts);
    }
    let n = terms.len();
    let mut i: usize = 0;
    while i < n
        invariant
            0 <= i <= n,
            n == terms@.len(),
            ts == views_of(terms@),
            partition_step(acc@, views_of(non@), ts.skip(i as int)) == partition_step(
                rat_zero(),
                Seq::<ExprV>::empty(),
                ts,
            ),
        decreases n - i,
    {
        proof {
            assert(ts.skip(i as int)[0] == ts[i as int]);
            assert(ts.skip(i as int).drop_first() =~= ts.skip(i as int + 1));
        }
        let t = &terms[i];
        let t_num: Option<Num> = if let Expr::Number(q) = t {
            Some(*q)
        } else {
            None
        };
        match t_num {
            Some(q) => match acc.checked_sum(q) {
                Some(a2) => {
                    acc = a2;
                },
                None => {
                    return None;
                },
            },
            None => {
                let ghost nv0 = views_of(non@);
                non.push(clone_expr(t));
                proof {
                    assert(views_of(non@) =~= nv0.push(ts[i as int]));
                }
            },
        }
        i = i + 1;
    }
    proof {
        assert(ts.skip(n as int) =~= Seq::<ExprV>::empty());
    }
    Some((acc, non))
}

/// Multiply the numeric factors of a flattened product into one constant.
fn partition_consts_mul(factors: Vec<Expr>) -> (r: Option<(Num, Vec<Expr>)>)
    ensures
        match r {
            Some(p) => partition_mul_v(views_of(factors@)) == Some((p.0@, views_of(p.1@))),
            None => partition_mul_v(views_of(factors@)) is None,
        },
{
    let ghost ts = views_of(factors@);
    let mut acc = Num::from_int(1);
    let mut non: Vec<Expr> = Vec::new();
    proof {
        assert(views_of(non@) =~= Seq::<ExprV>::empty());
        assert(ts.skip(0) =~= ts);
    }
    let n = factors.len();
    let mut i: usize = 0;
    while i < n
        invariant
            0 <= i <= n,
            n == factors@.len(),
            ts == views_of(factors@),
            partition_mul_step(acc@, views_of(non@), ts.skip(i as int)) == partition_mul_step(
                rat_one(),
                Seq::<ExprV>::empty(),
                ts,
            ),
        decreases n - i,
    {
        proof {
            assert(ts.skip(i as int)[0] == ts[i as int]);
            assert(ts.skip(i as int).drop_first() =~= ts.skip(i as int + 1));
        }
        let t = &factors[i];
        let t_num: Option<Num> = if let Expr::Number(q) = t {
            Some(*q)
        } else {
            None
        };
        match t_num {
            Some(q) => match acc.checked_prod(q) {
                Some(a2) => {
                    acc = a2;
                },
                None => {
                    return None;
                },
            },
            None => {
                let ghost nv0 = views_of(non@);
                non.push(clone_expr(t));
                proof {
                    assert(views_of(non@) =~= nv0.push(ts[i as int]));
                }
            },
        }
        i = i + 1;
    }
    proof {
        assert(ts.skip(n as int) =~= Seq::<ExprV>::empty());
    }
    Some((acc, non))
}

fn fold_binary_ops(op: BinaryOp, exprs: Vec<Expr>) -> (r: Expr)
    requires
        exprs@.len() >= 1,
    ensures
        r@ == fold_ops_v(op, views_of(exprs@)),
    decreases exprs@.len(),
{
    let ghost es0 = exprs@;
    let mut v = exprs;
    if v.len() == 1 {
        let r = v.pop().unwrap();
        r
    } else {
        let right = v.pop().unwrap();
        let left = fold_binary_ops(op, v);
        proof {
            assert(views_of(es0).drop_last() =~= views_of(es0.drop_last()));
            assert(views_of(es0).last() == right@);
        }
        Expr::BinaryOp(op, Box::new(left), Box::new(right))
    }
}

fn is_pyth(t1: &Expr, t2: &Expr) -> (r: bool)
    ensures
        r == is_pyth_pair(t1@, t2@),
{
    match (t1, t2) {
        (Expr::BinaryOp(BinaryOp::Pow, s1, e1), Expr::BinaryOp(BinaryOp::Pow, s2, e2)) => match (
            &**s1,
            &**s2,
            &**e1,
            &**e2,
        ) {
            (
                Expr::Function(f1, a1),
                Expr::Function(f2, a2),
                Expr::Number(n1),
                Expr::Number(n2),
            ) => {
                proof {
                    assert(t1@ == ExprV::BinaryOp(
                        BinaryOp::Pow,
                        Box::new(crate::ast::expr_view(**s1)),
                        Box::new(crate::ast::expr_view(**e1)),
                    ));
                    assert(t2@ == ExprV::BinaryOp(
                        BinaryOp::Pow,
                        Box::new(crate::ast::expr_view(**s2)),
                        Box::new(crate::ast::expr_view(**e2)),
                    ));
                    assert(crate::ast::expr_view(**s1) == ExprV::Function(
                        f1@,
                        Box::new(crate::ast::expr_view(**a1)),
                    ));
                    assert(crate::ast::expr_view(**s2) == ExprV::Function(
                        f2@,
                        Box::new(crate::ast::expr_view(**a2)),
                    ));
                    assert(crate::ast::expr_view(**e1) == ExprV::Number(n1@));
                    assert(crate::ast::expr_view(**e2) == ExprV::Number(n2@));
                }
                let two = Num::from_int(2);
                n1.eq_val(two) && n2.eq_val(two) && ((crate::ast::str_eq_lit(f1, "sin") && crate::ast::str_eq_lit(f2, "cos"))
                    || (crate::ast::str_eq_lit(f1, "cos") && crate::ast::str_eq_lit(f2, "sin"))) && eq_expr(a1, a2)
            },
            _ => false,
        },
        _ => false,
    }
}

/// The addition rule on two simplified operands; see `add_combine_v`.
fn add_combine(sa: Expr, sb: Expr) -> (r: Expr)
    ensures
        r@ == add_combine_v(sa@, sb@),
{
    let mut terms = flatten_add(&sa);
    let mut w = flatten_add(&sb);
    let ghost t0 = terms@;
    let ghost w0 = w@;
    terms.append(&mut w);
    proof {
        lemma_views_concat(t0, w0);
    }
    if terms.len() == 2 {
        if is_pyth(&terms[0], &terms[1]) {
            return Expr::Number(Num::from_int(1));
        }
    }
    match combine_like_terms(terms) {
        None => Expr::BinaryOp(BinaryOp::Add, Box::new(sa), Box::new(sb)),
        Some(ct) => match partition_consts(ct) {
            None => Expr::BinaryOp(BinaryOp::Add, Box::new(sa), Box::new(sb)),
            Some(sn) => {
                let (s, non) = sn;
                let mut result: Vec<Expr> = Vec::new();
                if !s.is_zero() {
                    result.push(Expr::Number(s));
                }
                let ghost r0 = result@;
                let mut non_mut = non;
                let ghost n0 = non_mut@;
                result.append(&mut non_mut);
                proof {
                    lemma_views_concat(r0, n0);
                    assert(views_of(r0) =~= (if s@.n != 0 {
                        seq![ExprV::Number(s@)]
                    } else {
                        Seq::<ExprV>::empty()
                    }));
                }
                if result.len() == 0 {
                    Expr::Number(Num::from_int(0))
                } else {
                    fold_binary_ops(BinaryOp::Add, result)
                }
            },
        },
    }
}

/// The multiplication rule on two simplified operands; see `mul_combine_v`.
fn mul_combine(sa: Expr, sb: Expr) -> (r: Expr)
    ensures
        r@ == mul_combine_v(sa@, sb@),
{
    let mut factors = flatten_mul(&sa);
    let mut w = flatten_mul(&sb);
    let ghost t0 = factors@;
    let ghost w0 = w@;
    factors.append(&mut w);
    proof {
        lemma_views_concat(t0, w0);
    }
    match partition_consts_mul(factors) {
        None => Expr::BinaryOp(BinaryOp::Mul, Box::new(sa), Box::new(sb)),
        Some(pn) => {
            let (p, non) = pn;
            if p.is_zero() {
                Expr::Number(Num::from_int(0))
            } else {
                let mut result: Vec<Expr> = Vec::new();
                if !p.is_one() {
                    result.push(Expr::Number(p));
                }
                let ghost r0 = result@;
                let mut non_mut = non;
                let ghost n0 = non_mut@;
                result.append(&mut non_mut);
                proof {
                    lemma_views_concat(r0, n0);
                    assert(views_of(r0) =~= (if p@.n != p@.d {
                        seq![ExprV::Number(p@)]
                    } else {
                        Seq::<ExprV>::empty()
                    }));
                }
                if result.len() == 0 {
                    Expr::Number(Num::from_int(1))
                } else {
                    fold_binary_ops(BinaryOp::Mul, result)
                }
            }
        },
    }
}

/// The function-application rule on a simplified argument; see `apply_fn_v`.
fn apply_fn(name: &String, sarg: Expr) -> (r: Expr)
    ensures
        r@ == apply_fn_v(name@, sarg@),
{
    let arg_num: Option<Num> = if let Expr::Number(k) = &sarg {
        Some(*k)
    } else {
        None
    };
    match arg_num {
        Some(k) => {
            if crate::ast::str_eq_lit(name, "sin") || crate::ast::str_eq_lit(name, "tan") {
                if k.is_zero() {
                    Expr::Number(Num::from_int(0))
                } else {
                    Expr::Function(name.clone(), Box::new(sarg))
                }
            } else if crate::ast::str_eq_lit(name, "cos") || crate::ast::str_eq_lit(name, "exp") {
                if k.is_zero() {
                    Expr::Number(Num::from_int(1))
                } else {
                    Expr::Function(name.clone(), Box::new(sarg))
                }
            } else if crate::ast::str_eq_lit(name, "log") {
                if k.is_one() {
                    Expr::Number(Num::from_int(0))
                } else {
                    Expr::Function(name.clone(), Box::new(sarg))
                }
            } else if crate::ast::str_eq_lit(name, "abs") {
                Expr::Number(k.abs_val())
            } else {
                Expr::Function(name.clone(), Box::new(sarg))
            }
        },
        None => Expr::Function(name.clone(), Box::new(sarg)),
    }
}

/// Rewrite a tree into its reduced form under the fixed rule set: children
/// first, then the rule of the node kind. Total and deterministic; the result
/// is exactly `simp` of the input's view.
pub fn simplify(expr: &Expr) -> (r: Expr)
    ensures
        r@ == simp(expr@),
    decreases *expr,
{
    match expr {
        Expr::Number(_) => clone_expr(expr),
        Expr::Variable(_) => clone_expr(expr),
        Expr::UnaryOp(UnaryOp::Neg, e) => {
            let se = simplify(e);
            neg_of(&se)
        },
        Expr::BinaryOp(op, a, b) => {
            let sa = simplify(a);
            let sb = simplify(b);
            match op {
                BinaryOp::Add => add_combine(sa, sb),
                BinaryOp::Mul => mul_combine(sa, sb),
                BinaryOp::Sub => {
                    if eq_expr(&sa, &sb) {
                        Expr::Number(Num::from_int(0))
                    } else {
                        match sb {
                            Expr::BinaryOp(BinaryOp::Add, l, r) => {
                                let nl = neg_of(&l);
                                let nr = neg_of(&r);
                                let inner = add_combine(nl, nr);
                                add_combine(sa, inner)
                            },
                            other => {
                                let nsb = neg_of(&other);
                                add_combine(sa, nsb)
                            },
                        }
                    }
                },
                BinaryOp::Div => {
                    let quot: Option<Num> = match (&sa, &sb) {
                        (Expr::Number(n1), Expr::Number(n2)) => n1.checked_quot(*n2),
                        _ => None,
                    };
                    let both_num: bool = match (&sa, &sb) {
                        (Expr::Number(_), Expr::Number(_)) => true,
                        _ => false,
                    };
                    if both_num {
                        match quot {
                            Some(q) => Expr::Number(q),
                            None => Expr::BinaryOp(BinaryOp::Div, Box::new(sa), Box::new(sb)),
                        }
                    } else {
                        let one = Expr::Number(Num::from_int(1));
                        let zero = Expr::Number(Num::from_int(0));
                        if eq_expr(&sb, &one) {
                            sa
                        } else if eq_expr(&sa, &zero) {
                            Expr::Number(Num::from_int(0))
                        } else {
                            Expr::BinaryOp(BinaryOp::Div, Box::new(sa), Box::new(sb))
                        }
                    }
                },
                BinaryOp::Pow => {
                    let exp_num: Option<Num> = if let Expr::Number(k) = &sb {
                        Some(*k)
                    } else {
                        None
                    };
                    match exp_num {
                        Some(k) => {
                            if k.is_zero() {
                                Expr::Number(Num::from_int(1))
                            } else if k.is_one() {
                                sa
                            } else {
                                Expr::BinaryOp(BinaryOp::Pow, Box::new(sa), Box::new(sb))
                            }
                        },
                        None => Expr::BinaryOp(BinaryOp::Pow, Box::new(sa), Box::new(sb)),
                    }
                },
            }
        },
        Expr::Function(name, arg) => {
            let sarg = simplify(arg);
            apply_fn(name, sarg)
        },
    }
}

} // verus!
