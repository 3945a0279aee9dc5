use vstd::prelude::*;
use crate::algebra::{
    accum_pairs, add_combine_v, apply_fn_v, div_rule_v, emit_terms, extract_core_v, flat_add_v,
    flat_mul_v, fold_ops_v, is_pyth_pair, mul_combine_v, neg_of_v, norm_dneg_v,
    partition_mul_step, partition_step, pow_rule_v, rat_two, simp,
};
use crate::ast::{BinaryOp, ExprV, UnaryOp};
use crate::num::{rat_one, rat_zero, RatV};

verus! {

/// The shape every canonicalizer output has: no subtraction nodes, and a
/// negation is only ever wrapped around a variable, a product, a quotient, a
/// power or a function call.
pub open spec fn reduced_shape(e: ExprV) -> bool
    decreases e,
{
    match e {
        ExprV::Number(_) => true,
        ExprV::Variable(_) => true,
        ExprV::UnaryOp(UnaryOp::Neg, inner) => reduced_shape(*inner) && !((*inner) is Number)
            && !((*inner) is UnaryOp) && !((*inner) matches ExprV::BinaryOp(BinaryOp::Add, _, _))
            && !((*inner) matches ExprV::BinaryOp(BinaryOp::Sub, _, _)),
        ExprV::BinaryOp(op, a, b) => op != BinaryOp::Sub && reduced_shape(*a) && reduced_shape(
            *b,
        ),
        ExprV::Function(_, arg) => reduced_shape(*arg),
    }
}

pub open spec fn all_reduced(ts: Seq<ExprV>) -> bool {
    forall|k: int| 0 <= k < ts.len() ==> reduced_shape(#[trigger] ts[k])
}

proof fn lemma_neg_of_reduced(x: ExprV)
    requires
        reduced_shape(x),
    ensures
        reduced_shape(neg_of_v(x)),
    decreases x,
{
    match x {
        ExprV::BinaryOp(BinaryOp::Add, a, b) => {
            lemma_neg_of_reduced(*a);
            lemma_neg_of_reduced(*b);
        },
        _ => {},
    }
}

proof fn lemma_norm_dneg_id(x: ExprV)
    requires
        reduced_shape(x),
    ensures
        norm_dneg_v(x) == x,
    decreases x,
{
    match x {
        ExprV::UnaryOp(UnaryOp::Neg, inner) => {
            lemma_norm_dneg_id(*inner);
        },
        ExprV::BinaryOp(op, a, b) => {
            lemma_norm_dneg_id(*a);
            lemma_norm_dneg_id(*b);
        },
        _ => {},
    }
}

proof fn lemma_extract_core_reduced(x: ExprV)
    requires
        reduced_shape(x),
        extract_core_v(x) is Some,
    ensures
        reduced_shape(extract_core_v(x)->Some_0.1),
    decreases x,
{
    match x {
        ExprV::UnaryOp(UnaryOp::Neg, inner) => {
            if extract_core_v(*inner) is Some {
                lemma_extract_core_reduced(*inner);
            }
        },
        ExprV::BinaryOp(BinaryOp::Mul, l, r) => {
            if extract_core_v(*l) is Some {
                lemma_extract_core_reduced(*l);
            }
            if extract_core_v(*r) is Some {
                lemma_extract_core_reduced(*r);
            }
        },
        _ => {},
    }
}

proof fn lemma_accum_reduced(bs: Seq<ExprV>, cs: Seq<RatV>, terms: Seq<ExprV>)
    requires
        all_reduced(bs),
        all_reduced(terms),
        accum_pairs(bs, cs, terms) is Some,
    ensures
        all_reduced(accum_pairs(bs, cs, terms)->Some_0.0),
    decreases terms.len(),
{
    if terms.len() == 0 {
    } else {
        let t = terms[0];
        assert(reduced_shape(t));
        let cb = match extract_core_v(norm_dneg_v(t)) {
            Some(p) => p,
            None => (rat_one(), t),
        };
        lemma_norm_dneg_id(t);
        if extract_core_v(t) is Some {
            lemma_extract_core_reduced(t);
        }
        assert(reduced_shape(cb.1));
        assert(all_reduced(terms.drop_first())) by {
            assert(forall|k: int|
                0 <= k < terms.drop_first().len() ==> #[trigger] terms.drop_first()[k] == terms[
                    k + 1
                ]);
        }
        let i = crate::algebra::find_from(bs, cb.1, 0);
        if i < 0 {
            assert(all_reduced(bs.push(cb.1))) by {
                assert(forall|k: int|
                    0 <= k < bs.len() ==> #[trigger] bs.push(cb.1)[k] == bs[k]);
                assert(bs.push(cb.1)[bs.len() as int] == cb.1);
            }
            lemma_accum_reduced(bs.push(cb.1), cs.push(cb.0), terms.drop_first());
        } else {
            match crate::num::rat_sum(cs[i], cb.0) {
                Some(c2) => {
                    lemma_accum_reduced(bs, cs.update(i, c2), terms.drop_first());
                },
                None => {},
            }
        }
    }
}

proof fn lemma_emit_reduced(bs: Seq<ExprV>, cs: Seq<RatV>)
    requires
        all_reduced(bs),
    ensures
        all_reduced(emit_terms(bs, cs).0),
        all_reduced(emit_terms(bs, cs).1),
    decreases bs.len(),
{
    if bs.len() == 0 || cs.len() == 0 {
    } else {
        assert(all_reduced(bs.drop_first())) by {
            assert(forall|k: int|
                0 <= k < bs.drop_first().len() ==> #[trigger] bs.drop_first()[k] == bs[k + 1]);
        }
        lemma_emit_reduced(bs.drop_first(), cs.drop_first());
        let b = bs[0];
        let c = cs[0];
        let tail = emit_terms(bs.drop_first(), cs.drop_first());
        if c.n == 0 {
        } else if b == ExprV::Number(rat_one()) {
            let item = ExprV::Number(c);
            assert(all_reduced(seq![item] + tail.1)) by {
                assert(forall|k: int|
                    1 <= k < (seq![item] + tail.1).len() ==> (seq![item] + tail.1)[k]
                        == #[trigger] tail.1[k - 1]);
                assert((seq![item] + tail.1)[0] == item);
            }
        } else if c == rat_one() {
            assert(all_reduced(seq![b] + tail.0)) by {
                assert(forall|k: int|
                    1 <= k < (seq![b] + tail.0).len() ==> (seq![b] + tail.0)[k]
                        == #[trigger] tail.0[k - 1]);
                assert((seq![b] + tail.0)[0] == b);
            }
        } else {
            let item = ExprV::BinaryOp(BinaryOp::Mul, Box::new(ExprV::Number(c)), Box::new(b));
            assert(reduced_shape(bs[0]));
            assert(reduced_shape(ExprV::Number(c)));
            assert(reduced_shape(item));
            assert(all_reduced(seq![item] + tail.0)) by {
                assert(forall|k: int|
                    1 <= k < (seq![item] + tail.0).len() ==> (seq![item] + tail.0)[k]
                        == #[trigger] tail.0[k - 1]);
                assert((seq![item] + tail.0)[0] == item);
            }
        }
    }
}

proof fn lemma_flat_add_reduced(e: ExprV)
    requires
        reduced_shape(e),
    ensures
        all_reduced(flat_add_v(e)),
    decreases e,
{
    match e {
        ExprV::BinaryOp(BinaryOp::Add, a, b) => {
            lemma_flat_add_reduced(*a);
            lemma_flat_add_reduced(*b);
            assert(all_reduced(flat_add_v(*a) + flat_add_v(*b))) by {
                assert(forall|k: int|
                    0 <= k < flat_add_v(*a).len() ==> (flat_add_v(*a) + flat_add_v(*b))[k]
                        == #[trigger] flat_add_v(*a)[k]);
                assert(forall|k: int|
                    flat_add_v(*a).len() <= k < (flat_add_v(*a) + flat_add_v(*b)).len() ==> (
                    flat_add_v(*a) + flat_add_v(*b))[k] == #[trigger] flat_add_v(*b)[k
                        - flat_add_v(*a).len()]);
            }
        },
        _ => {
            assert(flat_add_v(e) == seq![e]);
            assert(flat_add_v(e)[0] == e);
        },
    }
}

proof fn lemma_flat_mul_reduced(e: ExprV)
    requires
        reduced_shape(e),
    ensures
        all_reduced(flat_mul_v(e)),
    decreases e,
{
    match e {
        ExprV::BinaryOp(BinaryOp::Mul, a, b) => {
            lemma_flat_mul_reduced(*a);
            lemma_flat_mul_reduced(*b);
            assert(all_reduced(flat_mul_v(*a) + flat_mul_v(*b))) by {
                assert(forall|k: int|
                    0 <= k < flat_mul_v(*a).len() ==> (flat_mul_v(*a) + flat_mul_v(*b))[k]
                        == #[trigger] flat_mul_v(*a)[k]);
                assert(forall|k: int|
                    flat_mul_v(*a).len() <= k < (flat_mul_v(*a) + flat_mul_v(*b)).len() ==> (
                    flat_mul_v(*a) + flat_mul_v(*b))[k] == #[trigger] flat_mul_v(*b)[k
                        - flat_mul_v(*a).len()]);
            }
        },
        _ => {
            assert(flat_mul_v(e) == seq![e]);
            assert(flat_mul_v(e)[0] == e);
        },
    }
}

proof fn lemma_fold_reduced(op: BinaryOp, es: Seq<ExprV>)
    requires
        op != BinaryOp::Sub,
        es.len() >= 1,
        all_reduced(es),
    ensures
        reduced_shape(fold_ops_v(op, es)),
    decreases es.len(),
{
    if es.len() <= 1 {
        assert(reduced_shape(es[0]));
    } else {
        assert(all_reduced(es.drop_last())) by {
            assert(forall|k: int|
                0 <= k < es.drop_last().len() ==> #[trigger] es.drop_last()[k] == es[k]);
        }
        lemma_fold_reduced(op, es.drop_last());
        assert(reduced_shape(es.last()));
    }
}

proof fn lemma_partition_reduced(acc: RatV, non: Seq<ExprV>, terms: Seq<ExprV>)
    requires
        all_reduced(non),
        all_reduced(terms),
        partition_step(acc, non, terms) is Some,
    ensures
        all_reduced(partition_step(acc, non, terms)->Some_0.1),
    decreases terms.len(),
{
    if terms.len() == 0 {
    } else {
        assert(reduced_shape(terms[0]));
        assert(all_reduced(terms.drop_first())) by {
            assert(forall|k: int|
                0 <= k < terms.drop_first().len() ==> #[trigger] terms.drop_first()[k] == terms[
                    k + 1
                ]);
        }
        match terms[0] {
            ExprV::Number(k) => {
                match crate::num::rat_sum(acc, k) {
                    Some(a2) => {
                        lemma_partition_reduced(a2, non, terms.drop_first());
                    },
                    None => {},
                }
            },
            _ => {
                assert(all_reduced(non.push(terms[0]))) by {
                    assert(forall|k: int|
                        0 <= k < non.len() ==> #[trigger] non.push(terms[0])[k] == non[k]);
                    assert(non.push(terms[0])[non.len() as int] == terms[0]);
                }
                lemma_partition_reduced(acc, non.push(terms[0]), terms.drop_first());
            },
        }
    }
}

proof fn lemma_partition_mul_reduced(acc: RatV, non: Seq<ExprV>, terms: Seq<ExprV>)
    requires
        all_reduced(non),
        all_reduced(terms),
        partition_mul_step(acc, non, terms) is Some,
    ensures
        all_reduced(partition_mul_step(acc, non, terms)->Some_0.1),
    decreases terms.len(),
{
    if terms.len() == 0 {
    } else {
        assert(reduced_shape(terms[0]));
        assert(all_reduced(terms.drop_first())) by {
            assert(forall|k: int|
                0 <= k < terms.drop_first().len() ==> #[trigger] terms.drop_first()[k] == terms[
                    k + 1
                ]);
        }
        match terms[0] {
            ExprV::Number(k) => {
                match crate::num::rat_prod(acc, k) {
                    Some(a2) => {
                        lemma_partition_mul_reduced(a2, non, terms.drop_first());
                    },
                    None => {},
                }
            },
            _ => {
                assert(all_reduced(non.push(terms[0]))) by {
                    assert(forall|k: int|
                        0 <= k < non.len() ==> #[trigger] non.push(terms[0])[k] == non[k]);
                    assert(non.push(terms[0])[non.len() as int] == terms[0]);
                }
                lemma_partition_mul_reduced(acc, non.push(terms[0]), terms.drop_first());
            },
        }
    }
}

proof fn lemma_concat_reduced(a: Seq<ExprV>, b: Seq<ExprV>)
    requires
        all_reduced(a),
        all_reduced(b),
    ensures
        all_reduced(a + b),
{
    assert(forall|k: int| 0 <= k < a.len() ==> (a + b)[k] == #[trigger] a[k]);
    assert(forall|k: int|
        a.len() <= k < (a + b).len() ==> (a + b)[k] == #[trigger] b[k - a.len()]);
}

proof fn lemma_add_combine_reduced(sa: ExprV, sb: ExprV)
    requires
        reduced_shape(sa),
        reduced_shape(sb),
    ensures
        reduced_shape(add_combine_v(sa, sb)),
{
    lemma_flat_add_reduced(sa);
    lemma_flat_add_reduced(sb);
    let terms = flat_add_v(sa) + flat_add_v(sb);
    lemma_concat_reduced(flat_add_v(sa), flat_add_v(sb));
    if terms.len() == 2 && is_pyth_pair(terms[0], terms[1]) {
    } else {
        match accum_pairs(Seq::<ExprV>::empty(), Seq::<RatV>::empty(), terms) {
            None => {},
            Some(ps) => {
                lemma_accum_reduced(Seq::<ExprV>::empty(), Seq::<RatV>::empty(), terms);
                lemma_emit_reduced(ps.0, ps.1);
                let ct = emit_terms(ps.0, ps.1).0 + emit_terms(ps.0, ps.1).1;
                lemma_concat_reduced(emit_terms(ps.0, ps.1).0, emit_terms(ps.0, ps.1).1);
                match crate::algebra::partition_consts_v(ct) {
                    None => {},
                    Some(sn) => {
                        lemma_partition_reduced(rat_zero(), Seq::<ExprV>::empty(), ct);
                        let all = if sn.0.n != 0 {
                            seq![ExprV::Number(sn.0)] + sn.1
                        } else {
                            sn.1
                        };
                        if sn.0.n != 0 {
                            lemma_concat_reduced(seq![ExprV::Number(sn.0)], sn.1);
                            assert(all_reduced(seq![ExprV::Number(sn.0)])) by {
                                assert(seq![ExprV::Number(sn.0)][0] == ExprV::Number(sn.0));
                            }
                        }
                        assert(all_reduced(all));
                        if all.len() == 0 {
                        } else {
                            lemma_fold_reduced(BinaryOp::Add, all);
                        }
                    },
                }
            },
        }
    }
}

proof fn lemma_mul_combine_reduced(sa: ExprV, sb: ExprV)
    requires
        reduced_shape(sa),
        reduced_shape(sb),
    ensures
        reduced_shape(mul_combine_v(sa, sb)),
{
    lemma_flat_mul_reduced(sa);
    lemma_flat_mul_reduced(sb);
    let factors = flat_mul_v(sa) + flat_mul_v(sb);
    lemma_concat_reduced(flat_mul_v(sa), flat_mul_v(sb));
    match crate::algebra::partition_mul_v(factors) {
        None => {},
        Some(pn) => {
            lemma_partition_mul_reduced(rat_one(), Seq::<ExprV>::empty(), factors);
            if pn.0.n == 0 {
            } else {
                let all = if pn.0.n != pn.0.d {
                    seq![ExprV::Number(pn.0)] + pn.1
                } else {
                    pn.1
                };
                if pn.0.n != pn.0.d {
                    lemma_concat_reduced(seq![ExprV::Number(pn.0)], pn.1);
                    assert(all_reduced(seq![ExprV::Number(pn.0)])) by {
                        assert(seq![ExprV::Number(pn.0)][0] == ExprV::Number(pn.0));
                    }
                }
                assert(all_reduced(all));
                if all.len() == 0 {
                } else {
                    lemma_fold_reduced(BinaryOp::Mul, all);
                }
            }
        },
    }
}

/// Every canonicalizer output has the reduced shape: in particular it holds
/// no subtraction node and no directly nested negations.
pub proof fn lemma_simp_reduced(e: ExprV)
    ensures
        reduced_shape(simp(e)),
    decreases e,
{
    match e {
        ExprV::Number(_) => {},
        ExprV::Variable(_) => {},
        ExprV::UnaryOp(UnaryOp::Neg, x) => {
            lemma_simp_reduced(*x);
            lemma_neg_of_reduced(simp(*x));
        },
        ExprV::BinaryOp(op, a, b) => {
            lemma_simp_reduced(*a);
            lemma_simp_reduced(*b);
            let sa = simp(*a);
            let sb = simp(*b);
            match op {
                BinaryOp::Add => {
                    lemma_add_combine_reduced(sa, sb);
                },
                BinaryOp::Mul => {
                    lemma_mul_combine_reduced(sa, sb);
                },
                BinaryOp::Sub => {
                    if sa == sb {
                    } else {
                        match sb {
                            ExprV::BinaryOp(BinaryOp::Add, l, r) => {
                                lemma_neg_of_reduced(*l);
                                lemma_neg_of_reduced(*r);
                                lemma_add_combine_reduced(neg_of_v(*l), neg_of_v(*r));
                                lemma_add_combine_reduced(
                                    sa,
                                    add_combine_v(neg_of_v(*l), neg_of_v(*r)),
                                );
                            },
                            _ => {
                                lemma_neg_of_reduced(sb);
                                lemma_add_combine_reduced(sa, neg_of_v(sb));
                            },
                        }
                    }
                },
                BinaryOp::Div => {},
                BinaryOp::Pow => {},
            }
        },
        ExprV::Function(name, arg) => {
            lemma_simp_reduced(*arg);
        },
    }
}

proof fn lemma_neg_of_involution(x: ExprV)
    requires
        reduced_shape(x),
    ensures
        neg_of_v(neg_of_v(x)) == x,
    decreases x,
{
    match x {
        ExprV::BinaryOp(BinaryOp::Add, a, b) => {
            lemma_neg_of_involution(*a);
            lemma_neg_of_involution(*b);
        },
        _ => {},
    }
}

/// Double negation: for every expression, simplifying `-(-e)` gives exactly
/// the simplification of `e`.
pub proof fn lemma_double_negation(e: ExprV)
    ensures
        simp(
            ExprV::UnaryOp(UnaryOp::Neg, Box::new(ExprV::UnaryOp(UnaryOp::Neg, Box::new(e)))),
        ) == simp(e),
{
    lemma_simp_reduced(e);
    lemma_neg_of_involution(simp(e));
    let inner = ExprV::UnaryOp(UnaryOp::Neg, Box::new(e));
    let outer = ExprV::UnaryOp(UnaryOp::Neg, Box::new(inner));
    assert(simp(inner) == neg_of_v(simp(e)));
    assert(simp(outer) == neg_of_v(simp(inner)));
}

/// Subtracting any expression from itself simplifies to zero: both operands
/// simplify to the same tree, and a difference of structurally equal operands
/// collapses.
pub proof fn lemma_self_subtraction(e: ExprV)
    ensures
        simp(ExprV::BinaryOp(BinaryOp::Sub, Box::new(e), Box::new(e))) == ExprV::Number(
            rat_zero(),
        ),
{
}

/// The domain guard for the logarithm: a non-positive constant argument is
/// never evaluated, the call stays as an unevaluated `log` node.
pub proof fn lemma_log_domain_guard(k: RatV)
    requires
        k.d >= 1,
        k.n <= 0,
    ensures
        simp(ExprV::Function("log"@, Box::new(ExprV::Number(k)))) == ExprV::Function(
            "log"@,
            Box::new(ExprV::Number(k)),
        ),
{
    reveal_strlit("sin");
    reveal_strlit("tan");
    reveal_strlit("cos");
    reveal_strlit("exp");
    reveal_strlit("log");
    reveal_strlit("abs");
    assert("sin"@.index(0) == 's');
    assert("tan"@.index(0) == 't');
    assert("cos"@.index(0) == 'c');
    assert("exp"@.index(0) == 'e');
    assert("log"@.index(0) == 'l');
    assert("abs"@.index(0) == 'a');
    let arg = ExprV::Number(k);
    assert("log"@ != "sin"@ && "log"@ != "tan"@ && "log"@ != "cos"@ && "log"@ != "exp"@);
    assert(simp(arg) == arg);
    assert(simp(ExprV::Function("log"@, Box::new(arg))) == apply_fn_v("log"@, arg));
    assert(apply_fn_v("log"@, arg) == ExprV::Function("log"@, Box::new(arg)));
}

/// The Pythagorean identity: `sin(a)^2 + cos(a)^2` simplifies to one, in
/// either operand order, for every argument whose simplified form is not the
/// constant zero (at zero both squares fold to constants first and the
/// pattern no longer applies).
pub proof fn lemma_pythagorean_identity(a: ExprV)
    requires
        !match simp(a) {
            ExprV::Number(k) => k.n == 0,
            _ => false,
        },
    ensures
        simp(
            ExprV::BinaryOp(
                BinaryOp::Add,
                Box::new(
                    ExprV::BinaryOp(
                        BinaryOp::Pow,
                        Box::new(ExprV::Function("sin"@, Box::new(a))),
                        Box::new(ExprV::Number(rat_two())),
                    ),
                ),
                Box::new(
                    ExprV::BinaryOp(
                        BinaryOp::Pow,
                        Box::new(ExprV::Function("cos"@, Box::new(a))),
                        Box::new(ExprV::Number(rat_two())),
                    ),
                ),
            ),
        ) == ExprV::Number(rat_one()),
        simp(
            ExprV::BinaryOp(
                BinaryOp::Add,
                Box::new(
                    ExprV::BinaryOp(
                        BinaryOp::Pow,
                        Box::new(ExprV::Function("cos"@, Box::new(a))),
                        Box::new(ExprV::Number(rat_two())),
                    ),
                ),
                Box::new(
                    ExprV::BinaryOp(
                        BinaryOp::Pow,
                        Box::new(ExprV::Function("sin"@, Box::new(a))),
                        Box::new(ExprV::Number(rat_two())),
                    ),
                ),
            ),
        ) == ExprV::Number(rat_one()),
{
    reveal_strlit("sin");
    reveal_strlit("tan");
    reveal_strlit("cos");
    reveal_strlit("exp");
    reveal_strlit("log");
    reveal_strlit("abs");
    assert("sin"@.index(0) == 's');
    assert("tan"@.index(0) == 't');
    assert("cos"@.index(0) == 'c');
    assert("exp"@.index(0) == 'e');
    assert("log"@.index(0) == 'l');
    assert("abs"@.index(0) == 'a');
    assert("sin"@ != "tan"@ && "sin"@ != "cos"@ && "sin"@ != "exp"@ && "sin"@ != "log"@
        && "sin"@ != "abs"@);
    assert("cos"@ != "sin"@ && "cos"@ != "tan"@ && "cos"@ != "exp"@ && "cos"@ != "log"@
        && "cos"@ != "abs"@);
    let sa = simp(a);
    let two = ExprV::Number(rat_two());
    let sin_n = ExprV::Function("sin"@, Box::new(sa));
    let cos_n = ExprV::Function("cos"@, Box::new(sa));
    assert(simp(ExprV::Function("sin"@, Box::new(a))) == sin_n);
    assert(simp(ExprV::Function("cos"@, Box::new(a))) == cos_n);
    assert(simp(two) == two);
    let sin2 = ExprV::BinaryOp(BinaryOp::Pow, Box::new(sin_n), Box::new(two));
    let cos2 = ExprV::BinaryOp(BinaryOp::Pow, Box::new(cos_n), Box::new(two));
    assert(simp(
        ExprV::BinaryOp(
            BinaryOp::Pow,
            Box::new(ExprV::Function("sin"@, Box::new(a))),
            Box::new(two),
        ),
    ) == pow_rule_v(sin_n, two));
    assert(pow_rule_v(sin_n, two) == sin2);
    assert(simp(
        ExprV::BinaryOp(
            BinaryOp::Pow,
            Box::new(ExprV::Function("cos"@, Box::new(a))),
            Box::new(two),
        ),
    ) == pow_rule_v(cos_n, two));
    assert(pow_rule_v(cos_n, two) == cos2);
    assert(flat_add_v(sin2) == seq![sin2]);
    assert(flat_add_v(cos2) == seq![cos2]);
    let terms_sc = flat_add_v(sin2) + flat_add_v(cos2);
    assert(terms_sc.len() == 2);
    assert(terms_sc[0] == sin2 && terms_sc[1] == cos2);
    assert(is_pyth_pair(sin2, cos2));
    assert(add_combine_v(sin2, cos2) == ExprV::Number(rat_one()));
    let terms_cs = flat_add_v(cos2) + flat_add_v(sin2);
    assert(terms_cs[0] == cos2 && terms_cs[1] == sin2);
    assert(is_pyth_pair(cos2, sin2));
    assert(add_combine_v(cos2, sin2) == ExprV::Number(rat_one()));
    assert(simp(
        ExprV::BinaryOp(
            BinaryOp::Add,
            Box::new(
                ExprV::BinaryOp(
                    BinaryOp::Pow,
                    Box::new(ExprV::Function("sin"@, Box::new(a))),
                    Box::new(ExprV::Number(rat_two())),
                ),
            ),
            Box::new(
                ExprV::BinaryOp(
                    BinaryOp::Pow,
                    Box::new(ExprV::Function("cos"@, Box::new(a))),
                    Box::new(ExprV::Number(rat_two())),
                ),
            ),
        ),
    ) == add_combine_v(sin2, cos2));
    assert(simp(
        ExprV::BinaryOp(
            BinaryOp::Add,
            Box::new(
                ExprV::BinaryOp(
                    BinaryOp::Pow,
                    Box::new(ExprV::Function("cos"@, Box::new(a))),
                    Box::new(ExprV::Number(rat_two())),
                ),
            ),
            Box::new(
                ExprV::BinaryOp(
                    BinaryOp::Pow,
                    Box::new(ExprV::Function("sin"@, Box::new(a))),
                    Box::new(ExprV::Number(rat_two())),
                ),
            ),
        ),
    ) == add_combine_v(cos2, sin2));
}


/// Like-term combination: for any two reduced coefficients whose exact sum
/// `s` exists and is neither zero nor one, `c1*v + c2*v` simplifies to `s*v`.
pub proof fn lemma_combine_like_terms(c1: RatV, c2: RatV, v: Seq<char>)
    requires
        crate::num::norm_rat(c1.n, c1.d) == Some(c1),
        crate::num::norm_rat(c2.n, c2.d) == Some(c2),
        c1.n != 0 && c1.n != c1.d,
        c2.n != 0 && c2.n != c2.d,
        crate::num::rat_sum(c1, c2) is Some,
        crate::num::rat_sum(c1, c2)->Some_0.n != 0,
        crate::num::rat_sum(c1, c2)->Some_0 != rat_one(),
    ensures
        simp(
            ExprV::BinaryOp(
                BinaryOp::Add,
                Box::new(
                    ExprV::BinaryOp(
                        BinaryOp::Mul,
                        Box::new(ExprV::Number(c1)),
                        Box::new(ExprV::Variable(v)),
                    ),
                ),
                Box::new(
                    ExprV::BinaryOp(
                        BinaryOp::Mul,
                        Box::new(ExprV::Number(c2)),
                        Box::new(ExprV::Variable(v)),
                    ),
                ),
            ),
        ) == ExprV::BinaryOp(
            BinaryOp::Mul,
            Box::new(ExprV::Number(crate::num::rat_sum(c1, c2)->Some_0)),
            Box::new(ExprV::Variable(v)),
        ),
{
    let s = crate::num::rat_sum(c1, c2)->Some_0;
    let x = ExprV::Variable(v);
    let n1 = ExprV::Number(c1);
    let n2 = ExprV::Number(c2);
    let m1 = ExprV::BinaryOp(BinaryOp::Mul, Box::new(n1), Box::new(x));
    let m2 = ExprV::BinaryOp(BinaryOp::Mul, Box::new(n2), Box::new(x));
    let scaled = ExprV::BinaryOp(BinaryOp::Mul, Box::new(ExprV::Number(s)), Box::new(x));
    let empty_e = Seq::<ExprV>::empty();
    let empty_r = Seq::<RatV>::empty();
    let one_bs = empty_e.push(x);
    let one_x = seq![x];
    assert(one_bs =~= one_x);
    assert(one_x.drop_first() =~= empty_e);

    // each operand simplifies to itself
    assert(crate::num::rat_prod(rat_one(), c1) == Some(c1));
    assert(crate::num::rat_prod(rat_one(), c2) == Some(c2));
    assert(flat_mul_v(n1) == seq![n1]);
    assert(flat_mul_v(n2) == seq![n2]);
    assert(flat_mul_v(x) == one_x);
    let f1 = flat_mul_v(n1) + flat_mul_v(x);
    let f2 = flat_mul_v(n2) + flat_mul_v(x);
    assert(f1 =~= seq![n1, x]);
    assert(f2 =~= seq![n2, x]);
    assert(seq![n1, x].drop_first() =~= one_x);
    assert(seq![n2, x].drop_first() =~= one_x);
    assert(partition_mul_step(c1, one_x, empty_e) == Some((c1, one_x)));
    assert(partition_mul_step(c2, one_x, empty_e) == Some((c2, one_x)));
    assert(partition_mul_step(c1, empty_e, one_x) == Some((c1, one_x)));
    assert(partition_mul_step(c2, empty_e, one_x) == Some((c2, one_x)));
    assert(partition_mul_step(rat_one(), empty_e, seq![n1, x]) == Some((c1, one_x)));
    assert(partition_mul_step(rat_one(), empty_e, seq![n2, x]) == Some((c2, one_x)));
    let all1 = seq![n1] + one_x;
    let all2 = seq![n2] + one_x;
    assert(all1 =~= seq![n1, x]);
    assert(all2 =~= seq![n2, x]);
    assert(seq![n1, x].drop_last() =~= seq![n1]);
    assert(seq![n2, x].drop_last() =~= seq![n2]);
    assert(fold_ops_v(BinaryOp::Mul, seq![n1]) == n1);
    assert(fold_ops_v(BinaryOp::Mul, seq![n2]) == n2);
    assert(fold_ops_v(BinaryOp::Mul, seq![n1, x]) == m1);
    assert(fold_ops_v(BinaryOp::Mul, seq![n2, x]) == m2);
    assert(mul_combine_v(n1, x) == m1);
    assert(mul_combine_v(n2, x) == m2);
    assert(simp(n1) == n1);
    assert(simp(n2) == n2);
    assert(simp(x) == x);
    assert(simp(m1) == m1);
    assert(simp(m2) == m2);

    // the outer sum flattens to the two terms
    assert(flat_add_v(m1) == seq![m1]);
    assert(flat_add_v(m2) == seq![m2]);
    let terms = flat_add_v(m1) + flat_add_v(m2);
    assert(terms =~= seq![m1, m2]);
    assert(!is_pyth_pair(m1, m2));

    // coefficient extraction of both terms
    assert(norm_dneg_v(n1) == n1);
    assert(norm_dneg_v(n2) == n2);
    assert(norm_dneg_v(x) == x);
    assert(norm_dneg_v(m1) == m1);
    assert(norm_dneg_v(m2) == m2);
    assert(extract_core_v(n1) == Some((c1, ExprV::Number(rat_one()))));
    assert(extract_core_v(n2) == Some((c2, ExprV::Number(rat_one()))));
    assert(extract_core_v(x) is None);
    assert(extract_core_v(m1) == Some((c1, x)));
    assert(extract_core_v(m2) == Some((c2, x)));

    // accumulation: the first term is pushed, the second merges into it
    let cs1 = empty_r.push(c1);
    let cs2 = cs1.update(0, s);
    assert(crate::algebra::find_from(empty_e, x, 0) == -1);
    assert(crate::algebra::find_from(one_bs, x, 0) == 0);
    assert(terms.drop_first() =~= seq![m2]);
    assert(seq![m2].drop_first() =~= empty_e);
    assert(accum_pairs(one_bs, cs2, empty_e) == Some((one_bs, cs2)));
    assert(cs1[0] == c1);
    assert(crate::num::rat_sum(cs1[0], c2) == Some(s));
    assert(accum_pairs(one_bs, cs1, seq![m2]) == Some((one_bs, cs2)));
    assert(accum_pairs(empty_e, empty_r, terms) == Some((one_bs, cs2)));

    // emission: one scaled term and no constant terms
    assert(one_bs.drop_first() =~= empty_e);
    assert(cs2.drop_first() =~= empty_r);
    assert(emit_terms(empty_e, empty_r) == (empty_e, empty_e));
    assert(one_bs[0] == x && cs2[0] == s);
    assert(x != ExprV::Number(rat_one()));
    assert(emit_terms(one_bs, cs2).0 =~= seq![scaled]);
    assert(emit_terms(one_bs, cs2).1 =~= empty_e);
    let ct = emit_terms(one_bs, cs2).0 + emit_terms(one_bs, cs2).1;
    assert(ct =~= seq![scaled]);

    // partition: no numeric terms, the constant sum stays zero
    assert(seq![scaled].drop_first() =~= empty_e);
    assert(partition_step(rat_zero(), empty_e.push(scaled), empty_e) == Some(
        (rat_zero(), empty_e.push(scaled)),
    ));
    assert(empty_e.push(scaled) =~= seq![scaled]);
    assert(partition_step(rat_zero(), empty_e, seq![scaled]) == Some(
        (rat_zero(), seq![scaled]),
    ));
    assert(fold_ops_v(BinaryOp::Add, seq![scaled]) == scaled);
    assert(add_combine_v(m1, m2) == scaled);
    assert(simp(
        ExprV::BinaryOp(BinaryOp::Add, Box::new(m1), Box::new(m2)),
    ) == add_combine_v(simp(m1), simp(m2)));
}

/// A power with exponent zero simplifies to one, for every base expression.
pub proof fn lemma_pow_zero(e: ExprV)
    ensures
        simp(
            ExprV::BinaryOp(BinaryOp::Pow, Box::new(e), Box::new(ExprV::Number(rat_zero()))),
        ) == ExprV::Number(rat_one()),
{
    assert(simp(ExprV::Number(rat_zero())) == ExprV::Number(rat_zero()));
    assert(simp(
        ExprV::BinaryOp(BinaryOp::Pow, Box::new(e), Box::new(ExprV::Number(rat_zero()))),
    ) == pow_rule_v(simp(e), ExprV::Number(rat_zero())));
}

/// A power with exponent one simplifies to the simplified base, for every
/// base expression.
pub proof fn lemma_pow_one(e: ExprV)
    ensures
        simp(
            ExprV::BinaryOp(BinaryOp::Pow, Box::new(e), Box::new(ExprV::Number(rat_one()))),
        ) == simp(e),
{
    assert(simp(ExprV::Number(rat_one())) == ExprV::Number(rat_one()));
    assert(simp(
        ExprV::BinaryOp(BinaryOp::Pow, Box::new(e), Box::new(ExprV::Number(rat_one()))),
    ) == pow_rule_v(simp(e), ExprV::Number(rat_one())));
}

/// No sum or difference anywhere in the tree.
pub open spec fn sum_free(e: ExprV) -> bool
    decreases e,
{
    match e {
        ExprV::Number(_) => true,
        ExprV::Variable(_) => true,
        ExprV::UnaryOp(UnaryOp::Neg, inner) => sum_free(*inner),
        ExprV::BinaryOp(op, a, b) => (op == BinaryOp::Mul || op == BinaryOp::Div || op
            == BinaryOp::Pow) && sum_free(*a) && sum_free(*b),
        ExprV::Function(_, arg) => sum_free(*arg),
    }
}

/// Every numeric constant in the tree has a positive denominator, as every
/// constant the executable library builds does.
pub open spec fn nums_valid(e: ExprV) -> bool
    decreases e,
{
    match e {
        ExprV::Number(k) => 1 <= k.d,
        ExprV::Variable(_) => true,
        ExprV::UnaryOp(UnaryOp::Neg, inner) => nums_valid(*inner),
        ExprV::BinaryOp(op, a, b) => nums_valid(*a) && nums_valid(*b),
        ExprV::Function(_, arg) => nums_valid(*arg),
    }
}

/// The tree and all of its subtrees are fixed points of the canonicalizer.
pub open spec fn deep_fix(x: ExprV) -> bool
    decreases x,
{
    simp(x) == x && match x {
        ExprV::UnaryOp(UnaryOp::Neg, inner) => deep_fix(*inner),
        ExprV::BinaryOp(op, a, b) => deep_fix(*a) && deep_fix(*b),
        ExprV::Function(_, arg) => deep_fix(*arg),
        _ => true,
    }
}

/// A fraction that reduction maps to itself.
pub open spec fn norm_fix(k: RatV) -> bool {
    crate::num::norm_rat(k.n, k.d) == Some(k)
}

pub open spec fn is_mul_node(x: ExprV) -> bool {
    x matches ExprV::BinaryOp(BinaryOp::Mul, _, _)
}

pub open spec fn factor_list(xs: Seq<ExprV>) -> bool {
    forall|k: int|
        0 <= k < xs.len() ==> (!is_mul_node(#[trigger] xs[k]) && deep_fix(xs[k]) && nums_valid(
            xs[k],
        ) && sum_free(xs[k]))
}

pub open spec fn all_nonnum(xs: Seq<ExprV>) -> bool {
    forall|k: int| 0 <= k < xs.len() ==> !((#[trigger] xs[k]) is Number)
}

proof fn lemma_flat_mul_factors(x: ExprV)
    requires
        deep_fix(x),
        nums_valid(x),
        sum_free(x),
    ensures
        factor_list(flat_mul_v(x)),
    decreases x,
{
    match x {
        ExprV::BinaryOp(BinaryOp::Mul, a, b) => {
            lemma_flat_mul_factors(*a);
            lemma_flat_mul_factors(*b);
            let fa = flat_mul_v(*a);
            let fb = flat_mul_v(*b);
            assert(forall|k: int| 0 <= k < fa.len() ==> (fa + fb)[k] == #[trigger] fa[k]);
            assert(forall|k: int|
                fa.len() <= k < (fa + fb).len() ==> (fa + fb)[k] == #[trigger] fb[k - fa.len()]);
        },
        _ => {
            assert(flat_mul_v(x) == seq![x]);
            assert(flat_mul_v(x)[0] == x);
        },
    }
}

proof fn lemma_fold_flat_mul_inverse(all: Seq<ExprV>)
    requires
        all.len() >= 1,
        forall|k: int| 0 <= k < all.len() ==> !is_mul_node(#[trigger] all[k]),
    ensures
        flat_mul_v(fold_ops_v(BinaryOp::Mul, all)) == all,
    decreases all.len(),
{
    if all.len() == 1 {
        assert(fold_ops_v(BinaryOp::Mul, all) == all[0]);
        assert(flat_mul_v(all[0]) == seq![all[0]]);
        assert(flat_mul_v(all[0]) =~= all);
    } else {
        assert(forall|k: int|
            0 <= k < all.drop_last().len() ==> #[trigger] all.drop_last()[k] == all[k]);
        lemma_fold_flat_mul_inverse(all.drop_last());
        let f = fold_ops_v(BinaryOp::Mul, all);
        assert(f == ExprV::BinaryOp(
            BinaryOp::Mul,
            Box::new(fold_ops_v(BinaryOp::Mul, all.drop_last())),
            Box::new(all.last()),
        ));
        assert(flat_mul_v(all.last()) == seq![all.last()]);
        assert(flat_mul_v(f) == all.drop_last() + seq![all.last()]);
        assert(all.drop_last() + seq![all.last()] =~= all);
    }
}

proof fn lemma_norm_fix_one()
    ensures
        norm_fix(rat_one()),
{
    assert(crate::num::gcd_int(1, 0) == 1);
    assert(crate::num::gcd_int(1, 1) == 1);
}

proof fn lemma_fold_mul_props(all: Seq<ExprV>)
    requires
        all.len() >= 1,
        forall|k: int| 0 <= k < all.len() ==> nums_valid(#[trigger] all[k]) && sum_free(all[k]),
    ensures
        nums_valid(fold_ops_v(BinaryOp::Mul, all)),
        sum_free(fold_ops_v(BinaryOp::Mul, all)),
    decreases all.len(),
{
    if all.len() <= 1 {
        assert(nums_valid(all[0]) && sum_free(all[0]));
    } else {
        assert(forall|k: int|
            0 <= k < all.drop_last().len() ==> #[trigger] all.drop_last()[k] == all[k]);
        lemma_fold_mul_props(all.drop_last());
        assert(nums_valid(all.last()) && sum_free(all.last()));
    }
}

proof fn lemma_partition_mul_nonnum(acc: RatV, non0: Seq<ExprV>, ts: Seq<ExprV>)
    requires
        all_nonnum(ts),
    ensures
        partition_mul_step(acc, non0, ts) == Some((acc, non0 + ts)),
    decreases ts.len(),
{
    if ts.len() == 0 {
        assert(non0 + ts =~= non0);
    } else {
        assert(!(ts[0] is Number));
        assert(forall|k: int|
            0 <= k < ts.drop_first().len() ==> #[trigger] ts.drop_first()[k] == ts[k + 1]);
        lemma_partition_mul_nonnum(acc, non0.push(ts[0]), ts.drop_first());
        assert(non0.push(ts[0]) + ts.drop_first() =~= non0 + ts);
    }
}

proof fn lemma_partition_mul_props(acc: RatV, non0: Seq<ExprV>, ts: Seq<ExprV>)
    requires
        norm_fix(acc),
        1 <= acc.d,
        factor_list(non0),
        all_nonnum(non0),
        factor_list(ts),
        partition_mul_step(acc, non0, ts) is Some,
    ensures
        norm_fix(partition_mul_step(acc, non0, ts)->Some_0.0),
        1 <= partition_mul_step(acc, non0, ts)->Some_0.0.d,
        factor_list(partition_mul_step(acc, non0, ts)->Some_0.1),
        all_nonnum(partition_mul_step(acc, non0, ts)->Some_0.1),
    decreases ts.len(),
{
    if ts.len() == 0 {
    } else {
        assert(deep_fix(ts[0]) && nums_valid(ts[0]) && sum_free(ts[0]) && !is_mul_node(ts[0]));
        assert(forall|k: int|
            0 <= k < ts.drop_first().len() ==> #[trigger] ts.drop_first()[k] == ts[k + 1]);
        match ts[0] {
            ExprV::Number(k) => {
                assert(1 <= k.d);
                match crate::num::rat_prod(acc, k) {
                    Some(a2) => {
                        assert(1 <= acc.d * k.d) by (nonlinear_arith)
                            requires
                                1 <= acc.d,
                                1 <= k.d,
                        ;
                        crate::num::lemma_norm_rat_idempotent(acc.n * k.n, acc.d * k.d);
                        assert(norm_fix(a2));
                        assert(1 <= a2.d);
                        lemma_partition_mul_props(a2, non0, ts.drop_first());
                    },
                    None => {},
                }
            },
            _ => {
                assert(factor_list(non0.push(ts[0]))) by {
                    assert(forall|k: int|
                        0 <= k < non0.len() ==> #[trigger] non0.push(ts[0])[k] == non0[k]);
                    assert(non0.push(ts[0])[non0.len() as int] == ts[0]);
                }
                assert(all_nonnum(non0.push(ts[0]))) by {
                    assert(forall|k: int|
                        0 <= k < non0.len() ==> #[trigger] non0.push(ts[0])[k] == non0[k]);
                    assert(non0.push(ts[0])[non0.len() as int] == ts[0]);
                }
                lemma_partition_mul_props(acc, non0.push(ts[0]), ts.drop_first());
            },
        }
    }
}

/// Shape of a product list as the multiplication rule emits it: an optional
/// leading reduced constant that is neither zero nor one, followed by
/// non-numeric factors.
pub open spec fn mul_list_shape(all: Seq<ExprV>) -> bool {
    all_nonnum(all) || (all.len() >= 1 && (all[0] matches ExprV::Number(p)) && (match all[0] {
        ExprV::Number(p) => norm_fix(p) && 1 <= p.d && p.n != 0 && p.n != p.d,
        _ => false,
    }) && all_nonnum(all.drop_first()))
}

#[verifier::rlimit(40)]
proof fn lemma_mul_combine_of_list(sa: ExprV, sb: ExprV, all: Seq<ExprV>)
    requires
        all.len() >= 2,
        mul_list_shape(all),
        flat_mul_v(sa) + flat_mul_v(sb) == all,
    ensures
        mul_combine_v(sa, sb) == fold_ops_v(BinaryOp::Mul, all),
{
    let empty_e = Seq::<ExprV>::empty();
    if all_nonnum(all) {
        lemma_partition_mul_nonnum(rat_one(), empty_e, all);
        assert(partition_mul_step(rat_one(), empty_e, all) == Some((rat_one(), empty_e + all)));
        assert(empty_e + all =~= all);
    } else {
        let p = all[0]->Number_0;
        let rest = all.drop_first();
        assert(crate::num::rat_prod(rat_one(), p) == crate::num::norm_rat(1 * p.n, 1 * p.d));
        assert(1 * p.n == p.n && 1 * p.d == p.d);
        assert(crate::num::rat_prod(rat_one(), p) == Some(p));
        lemma_partition_mul_nonnum(p, empty_e, rest);
        assert(partition_mul_step(rat_one(), empty_e, all) == partition_mul_step(p, empty_e, rest));
        assert(partition_mul_step(p, empty_e, rest) == Some((p, empty_e + rest)));
        assert(empty_e + rest =~= rest);
        assert(p.n != 0 && p.n != p.d);
        assert(seq![ExprV::Number(p)] + rest =~= all);
    }
}

#[verifier::rlimit(40)]
proof fn lemma_fold_mul_fix(all: Seq<ExprV>)
    requires
        all.len() >= 1,
        factor_list(all),
        mul_list_shape(all),
    ensures
        deep_fix(fold_ops_v(BinaryOp::Mul, all)),
    decreases all.len(),
{
    if all.len() == 1 {
        assert(fold_ops_v(BinaryOp::Mul, all) == all[0]);
        assert(deep_fix(all[0]));
    } else {
        let prefix = all.drop_last();
        let last = all.last();
        assert(forall|k: int| 0 <= k < prefix.len() ==> #[trigger] prefix[k] == all[k]);
        assert(factor_list(prefix));
        assert(mul_list_shape(prefix)) by {
            if all_nonnum(all) {
                assert(all_nonnum(prefix));
            } else {
                assert(prefix[0] == all[0]);
                assert(forall|k: int|
                    0 <= k < prefix.drop_first().len() ==> #[trigger] prefix.drop_first()[k]
                        == all.drop_first()[k]);
                assert(all_nonnum(prefix.drop_first()));
            }
        }
        lemma_fold_mul_fix(prefix);
        let foldl = fold_ops_v(BinaryOp::Mul, prefix);
        let f = fold_ops_v(BinaryOp::Mul, all);
        assert(f == ExprV::BinaryOp(BinaryOp::Mul, Box::new(foldl), Box::new(last)));
        assert(deep_fix(last));
        assert(simp(foldl) == foldl);
        assert(simp(last) == last);
        assert(simp(f) == mul_combine_v(foldl, last));
        assert(forall|k: int|
            0 <= k < prefix.len() ==> !is_mul_node(#[trigger] prefix[k]));
        lemma_fold_flat_mul_inverse(prefix);
        assert(flat_mul_v(last) == seq![last]);
        assert(flat_mul_v(foldl) + flat_mul_v(last) =~= all);
        lemma_mul_combine_of_list(foldl, last, all);
        assert(simp(f) == f);
    }
}

#[verifier::rlimit(60)]
proof fn lemma_mul_combine_bundle(sa: ExprV, sb: ExprV)
    requires
        deep_fix(sa),
        nums_valid(sa),
        sum_free(sa),
        deep_fix(sb),
        nums_valid(sb),
        sum_free(sb),
    ensures
        deep_fix(mul_combine_v(sa, sb)),
        nums_valid(mul_combine_v(sa, sb)),
        sum_free(mul_combine_v(sa, sb)),
{
    lemma_flat_mul_factors(sa);
    lemma_flat_mul_factors(sb);
    let fa = flat_mul_v(sa);
    let fb = flat_mul_v(sb);
    let ts = fa + fb;
    assert(factor_list(ts)) by {
        assert(forall|k: int| 0 <= k < fa.len() ==> (fa + fb)[k] == #[trigger] fa[k]);
        assert(forall|k: int|
            fa.len() <= k < (fa + fb).len() ==> (fa + fb)[k] == #[trigger] fb[k - fa.len()]);
    }
    let empty_e = Seq::<ExprV>::empty();
    match crate::algebra::partition_mul_v(ts) {
        None => {
            let s = ExprV::BinaryOp(BinaryOp::Mul, Box::new(sa), Box::new(sb));
            assert(mul_combine_v(sa, sb) == s);
            assert(simp(s) == mul_combine_v(simp(sa), simp(sb)));
            assert(simp(sa) == sa && simp(sb) == sb);
            assert(simp(s) == s);
        },
        Some(pn) => {
            lemma_norm_fix_one();
            assert(factor_list(empty_e));
            assert(all_nonnum(empty_e));
            lemma_partition_mul_props(rat_one(), empty_e, ts);
            let p = pn.0;
            let non = pn.1;
            if p.n == 0 {
                let s = ExprV::Number(rat_zero());
                assert(mul_combine_v(sa, sb) == s);
                assert(simp(s) == s);
            } else {
                let all = if p.n != p.d {
                    seq![ExprV::Number(p)] + non
                } else {
                    non
                };
                assert(factor_list(all)) by {
                    if p.n != p.d {
                        assert(forall|k: int|
                            1 <= k < all.len() ==> all[k] == #[trigger] non[k - 1]);
                        assert(all[0] == ExprV::Number(p));
                        assert(simp(ExprV::Number(p)) == ExprV::Number(p));
                        assert(deep_fix(ExprV::Number(p)));
                        assert(1 <= p.d);
                    }
                }
                assert(mul_list_shape(all)) by {
                    if p.n != p.d {
                        assert(all[0] == ExprV::Number(p));
                        assert(all.drop_first() =~= non);
                    }
                }
                if all.len() == 0 {
                    let s = ExprV::Number(rat_one());
                    assert(mul_combine_v(sa, sb) == s);
                    assert(simp(s) == s);
                } else {
                    lemma_fold_mul_fix(all);
                    lemma_fold_mul_props(all);
                    assert(mul_combine_v(sa, sb) == fold_ops_v(BinaryOp::Mul, all));
                }
            }
        },
    }
}

#[verifier::rlimit(100)]
proof fn lemma_simp_deep_sum_free(e: ExprV)
    requires
        sum_free(e),
        nums_valid(e),
    ensures
        deep_fix(simp(e)),
        nums_valid(simp(e)),
        sum_free(simp(e)),
    decreases e,
{
    match e {
        ExprV::Number(_) => {
            assert(simp(e) == e);
        },
        ExprV::Variable(_) => {
            assert(simp(e) == e);
        },
        ExprV::UnaryOp(UnaryOp::Neg, x) => {
            lemma_simp_deep_sum_free(*x);
            let sx = simp(*x);
            assert(simp(e) == neg_of_v(sx));
            match sx {
                ExprV::Number(k) => {
                    let s = ExprV::Number(crate::num::rat_neg(k));
                    assert(neg_of_v(sx) == s);
                    assert(simp(s) == s);
                    assert(1 <= k.d);
                },
                ExprV::UnaryOp(UnaryOp::Neg, i) => {
                    assert(neg_of_v(sx) == *i);
                    assert(deep_fix(*i));
                    assert(nums_valid(*i));
                    assert(sum_free(*i));
                },
                ExprV::BinaryOp(op2, a2, b2) => {
                    assert(op2 != BinaryOp::Add && op2 != BinaryOp::Sub);
                    let s = ExprV::UnaryOp(UnaryOp::Neg, Box::new(sx));
                    assert(neg_of_v(sx) == s);
                    assert(simp(s) == neg_of_v(simp(sx)));
                    assert(simp(sx) == sx);
                    assert(simp(s) == s);
                },
                ExprV::Variable(_) => {
                    let s = ExprV::UnaryOp(UnaryOp::Neg, Box::new(sx));
                    assert(neg_of_v(sx) == s);
                    assert(simp(s) == neg_of_v(simp(sx)));
                    assert(simp(sx) == sx);
                    assert(simp(s) == s);
                },
                ExprV::Function(_, _) => {
                    let s = ExprV::UnaryOp(UnaryOp::Neg, Box::new(sx));
                    assert(neg_of_v(sx) == s);
                    assert(simp(s) == neg_of_v(simp(sx)));
                    assert(simp(sx) == sx);
                    assert(simp(s) == s);
                },
            }
        },
        ExprV::BinaryOp(op, a, b) => {
            lemma_simp_deep_sum_free(*a);
            lemma_simp_deep_sum_free(*b);
            let sa = simp(*a);
            let sb = simp(*b);
            if op == BinaryOp::Mul {
                assert(simp(e) == mul_combine_v(sa, sb));
                lemma_mul_combine_bundle(sa, sb);
            } else if op == BinaryOp::Div {
                assert(simp(e) == div_rule_v(sa, sb));
                match (sa, sb) {
                    (ExprV::Number(n1), ExprV::Number(n2)) => {
                        match crate::num::rat_quot(n1, n2) {
                            Some(q) => {
                                let s = ExprV::Number(q);
                                assert(div_rule_v(sa, sb) == s);
                                assert(simp(s) == s);
                                assert(1 <= q.d);
                            },
                            None => {
                                let s = ExprV::BinaryOp(
                                    BinaryOp::Div,
                                    Box::new(sa),
                                    Box::new(sb),
                                );
                                assert(div_rule_v(sa, sb) == s);
                                assert(simp(s) == div_rule_v(simp(sa), simp(sb)));
                                assert(simp(sa) == sa && simp(sb) == sb);
                                assert(simp(s) == s);
                            },
                        }
                    },
                    _ => {
                        if sb == ExprV::Number(rat_one()) {
                            assert(div_rule_v(sa, sb) == sa);
                        } else if sa == ExprV::Number(rat_zero()) {
                            let s = ExprV::Number(rat_zero());
                            assert(div_rule_v(sa, sb) == s);
                            assert(simp(s) == s);
                        } else {
                            let s = ExprV::BinaryOp(BinaryOp::Div, Box::new(sa), Box::new(sb));
                            assert(div_rule_v(sa, sb) == s);
                            assert(simp(s) == div_rule_v(simp(sa), simp(sb)));
                            assert(simp(sa) == sa && simp(sb) == sb);
                            assert(simp(s) == s);
                        }
                    },
                }
            } else {
                assert(op == BinaryOp::Pow);
                assert(simp(e) == pow_rule_v(sa, sb));
                match sb {
                    ExprV::Number(k) => {
                        if k.n == 0 {
                            let s = ExprV::Number(rat_one());
                            assert(pow_rule_v(sa, sb) == s);
                            assert(simp(s) == s);
                        } else if k.n == k.d {
                            assert(pow_rule_v(sa, sb) == sa);
                        } else {
                            let s = ExprV::BinaryOp(BinaryOp::Pow, Box::new(sa), Box::new(sb));
                            assert(pow_rule_v(sa, sb) == s);
                            assert(simp(s) == pow_rule_v(simp(sa), simp(sb)));
                            assert(simp(sa) == sa && simp(sb) == sb);
                            assert(simp(s) == s);
                        }
                    },
                    _ => {
                        let s = ExprV::BinaryOp(BinaryOp::Pow, Box::new(sa), Box::new(sb));
                        assert(pow_rule_v(sa, sb) == s);
                        assert(simp(s) == pow_rule_v(simp(sa), simp(sb)));
                        assert(simp(sa) == sa && simp(sb) == sb);
                        assert(simp(s) == s);
                    },
                }
            }
        },
        ExprV::Function(name, arg) => {
            lemma_simp_deep_sum_free(*arg);
            let sarg = simp(*arg);
            assert(simp(e) == apply_fn_v(name, sarg));
            let s = apply_fn_v(name, sarg);
            match s {
                ExprV::Number(q) => {
                    assert(simp(s) == s);
                    assert(1 <= q.d) by {
                        match sarg {
                            ExprV::Number(k) => {
                                assert(1 <= k.d);
                            },
                            _ => {},
                        }
                    }
                },
                _ => {
                    assert(s == ExprV::Function(name, Box::new(sarg)));
                    assert(simp(s) == apply_fn_v(name, simp(sarg)));
                    assert(simp(sarg) == sarg);
                    assert(simp(s) == s);
                },
            }
        },
    }
}

/// Idempotence on the sum- and difference-free fragment: for every expression
/// built without additions and subtractions (and with well-formed constants)
/// one pass of the canonicalizer reaches a fixed point. On full trees a
/// second pass can differ: the Pythagorean collapse can become applicable
/// only after constant terms are eliminated, and a like-term merge with
/// coefficient one can expose a sum that a second pass flattens further.
pub proof fn lemma_simp_idempotent_sum_free(e: ExprV)
    requires
        sum_free(e),
        nums_valid(e),
    ensures
        simp(simp(e)) == simp(e),
{
    lemma_simp_deep_sum_free(e);
}

} // verus!








