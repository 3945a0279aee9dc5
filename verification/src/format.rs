use vstd::prelude::*;
use crate::ast::{BinaryOp, Expr, ExprV, UnaryOp};
use crate::num::{abs_int, RatV};

verus! {

pub open spec fn digit_char(d: int) -> char {
    if d == 0 {
        '0'
    } else if d == 1 {
        '1'
    } else if d == 2 {
        '2'
    } else if d == 3 {
        '3'
    } else if d == 4 {
        '4'
    } else if d == 5 {
        '5'
    } else if d == 6 {
        '6'
    } else if d == 7 {
        '7'
    } else if d == 8 {
        '8'
    } else {
        '9'
    }
}

/// Decimal digits of a non-negative integer, most significant first.
pub open spec fn dec_digits(n: int) -> Seq<char>
    decreases n,
    when n >= 0
{
    if n <= 9 {
        seq![digit_char(n)]
    } else {
        dec_digits(n / 10).push(digit_char(n % 10))
    }
}

/// A signed integer in decimal.
pub open spec fn fmt_int(n: int) -> Seq<char> {
    if n < 0 {
        seq!['-'] + dec_digits(-n)
    } else {
        dec_digits(n)
    }
}

/// The fractional digits of `r / d` by long division, up to `fuel` digits;
/// `None` when the expansion does not terminate within that many digits.
pub open spec fn frac_digits(r: int, d: int, fuel: nat) -> Option<Seq<char>>
    decreases fuel,
{
    if r == 0 {
        Some(Seq::<char>::empty())
    } else if fuel == 0 {
        None
    } else {
        let r10 = r * 10;
        match frac_digits(r10 % d, d, (fuel - 1) as nat) {
            Some(s) => Some(seq![digit_char(r10 / d)] + s),
            None => None,
        }
    }
}

/// How many fractional digits the renderer will expand before falling back to
/// an explicit quotient form.
pub open spec fn frac_digit_limit() -> nat {
    27
}

/// A numeric constant in decimal: an integer without a decimal point, a
/// terminating fraction as `int.frac`, and a fraction with no short
/// terminating expansion as the re-parseable quotient `(n / d)`.
pub open spec fn fmt_rat(k: RatV) -> Seq<char>
    recommends
        k.d >= 1,
{
    if k.d == 1 {
        fmt_int(k.n)
    } else {
        let m = abs_int(k.n);
        let sign = if k.n < 0 {
            seq!['-']
        } else {
            Seq::<char>::empty()
        };
        match frac_digits(m % k.d, k.d, frac_digit_limit()) {
            Some(fd) => sign + dec_digits(m / k.d) + seq!['.'] + fd,
            None => seq!['('] + fmt_int(k.n) + seq![' ', '/', ' '] + dec_digits(k.d) + seq![')'],
        }
    }
}

pub open spec fn op_text(op: BinaryOp) -> Seq<char> {
    match op {
        BinaryOp::Add => seq!['+'],
        BinaryOp::Sub => seq!['-'],
        BinaryOp::Mul => seq!['*'],
        BinaryOp::Div => seq!['/'],
        BinaryOp::Pow => seq!['^'],
    }
}

/// Plain-text rendering: every binary operation fully parenthesized as
/// `(a op b)`, so the output is always re-parseable without ambiguity.
pub open spec fn fmt_plain(e: ExprV) -> Seq<char>
    decreases e,
{
    match e {
        ExprV::Number(k) => fmt_rat(k),
        ExprV::Variable(s) => s,
        ExprV::UnaryOp(UnaryOp::Neg, x) => seq!['-'] + fmt_plain(*x),
        ExprV::BinaryOp(op, a, b) => seq!['('] + fmt_plain(*a) + seq![' '] + op_text(op) + seq![
            ' ',
        ] + fmt_plain(*b) + seq![')'],
        ExprV::Function(name, arg) => name + seq!['('] + fmt_plain(*arg) + seq![')'],
    }
}

/// LaTeX rendering: division becomes `\frac{}{}`, powers brace their
/// exponent, recognized functions use their control sequences, `abs` is
/// wrapped in absolute-value bars, and multiplication is a space-separated
/// juxtaposition.
pub open spec fn fmt_latex(e: ExprV) -> Seq<char>
    decreases e,
{
    match e {
        ExprV::Number(k) => fmt_rat(k),
        ExprV::Variable(s) => s,
        ExprV::UnaryOp(UnaryOp::Neg, x) => seq!['-'] + fmt_latex(*x),
        ExprV::BinaryOp(op, a, b) => match op {
            BinaryOp::Add => fmt_latex(*a) + seq![' ', '+', ' '] + fmt_latex(*b),
            BinaryOp::Sub => fmt_latex(*a) + seq![' ', '-', ' '] + fmt_latex(*b),
            BinaryOp::Mul => fmt_latex(*a) + seq![' '] + fmt_latex(*b),
            BinaryOp::Div => "\\frac{"@ + fmt_latex(*a) + "}{"@ + fmt_latex(*b) + seq!['}'],
            BinaryOp::Pow => fmt_latex(*a) + "^{"@ + fmt_latex(*b) + seq!['}'],
        },
        ExprV::Function(name, arg) => {
            if name == "abs"@ {
                "\\left|"@ + fmt_latex(*arg) + "\\right|"@
            } else {
                let shown = if name == "sin"@ {
                    "\\sin"@
                } else if name == "cos"@ {
                    "\\cos"@
                } else if name == "tan"@ {
                    "\\tan"@
                } else if name == "log"@ {
                    "\\log"@
                } else if name == "exp"@ {
                    "\\exp"@
                } else {
                    name
                };
                shown + "\\left("@ + fmt_latex(*arg) + "\\right)"@
            }
        },
    }
}

fn push_digit(out: &mut String, d: u128)
    requires
        d <= 9,
    ensures
        final(out)@ == old(out)@.push(digit_char(d as int)),
{
    proof {
        reveal_strlit("0");
        reveal_strlit("1");
        reveal_strlit("2");
        reveal_strlit("3");
        reveal_strlit("4");
        reveal_strlit("5");
        reveal_strlit("6");
        reveal_strlit("7");
        reveal_strlit("8");
        reveal_strlit("9");
    }
    let ghost pre = out@;
    if d == 0 {
        out.append("0");
    } else if d == 1 {
        out.append("1");
    } else if d == 2 {
        out.append("2");
    } else if d == 3 {
        out.append("3");
    } else if d == 4 {
        out.append("4");
    } else if d == 5 {
        out.append("5");
    } else if d == 6 {
        out.append("6");
    } else if d == 7 {
        out.append("7");
    } else if d == 8 {
        out.append("8");
    } else {
        out.append("9");
    }
    proof {
        assert(out@ =~= pre.push(digit_char(d as int)));
    }
}

fn push_dec_digits(out: &mut String, n: u128)
    ensures
        final(out)@ == old(out)@ + dec_digits(n as int),
    decreases n,
{
    if n <= 9 {
        let ghost pre = out@;
        push_digit(out, n);
        proof {
            assert(out@ =~= pre + dec_digits(n as int));
        }
    } else {
        let ghost pre = out@;
        push_dec_digits(out, n / 10);
        push_digit(out, n % 10);
        proof {
            assert(out@ =~= pre + dec_digits(n as int));
        }
    }
}

/// Append the decimal rendering of the constant `k`; see `fmt_rat`.
fn push_rat(out: &mut String, k: crate::num::Num)
    ensures
        final(out)@ == old(out)@ + fmt_rat(k@),
{
    proof {
        use_type_invariant(k);
        reveal_strlit("-");
        reveal_strlit(".");
        reveal_strlit("(");
        reveal_strlit(")");
        reveal_strlit(" / ");
    }
    let n: i64 = k.numer();
    let d: i64 = k.denom();
    let m: u128 = if n < 0 {
        (-(n as i128)) as u128
    } else {
        n as u128
    };
    if d == 1 {
        let ghost pre = out@;
        if n < 0 {
            out.append("-");
            proof {
                assert(out@ =~= pre + seq!['-']);
            }
        }
        push_dec_digits(out, m);
        proof {
            assert(out@ =~= pre + fmt_int(n as int));
        }
    } else {
        let du: u128 = d as u128;
        // First pass: does the expansion terminate within the digit limit?
        let mut r: u128 = m % du;
        let mut fuel: u64 = 27;
        while r != 0 && fuel > 0
            invariant
                r < du,
                du == d as int,
                1 <= d,
                frac_digits(m as int % d as int, d as int, frac_digit_limit()) is Some
                    <==> frac_digits(r as int, d as int, fuel as nat) is Some,
            decreases fuel,
        {
            proof {
                assert((r * 10) as int % d as int == (r as int * 10) % (d as int));
            }
            let r10: u128 = r * 10;
            r = r10 % du;
            fuel = fuel - 1;
        }
        let ghost pre = out@;
        if r == 0 {
            // Terminating expansion: sign, integer part, point, digits.
            if n < 0 {
                out.append("-");
            }
            push_dec_digits(out, m / du);
            out.append(".");
            let ghost mid = out@;
            let mut r2: u128 = m % du;
            let mut fuel2: u64 = 27;
            while r2 != 0
                invariant
                    r2 < du,
                    du == d as int,
                    1 <= d,
                    frac_digits(r2 as int, d as int, fuel2 as nat) is Some,
                    out@ + match frac_digits(r2 as int, d as int, fuel2 as nat) {
                        Some(s) => s,
                        None => Seq::<char>::empty(),
                    } == mid + match frac_digits(m as int % d as int, d as int, frac_digit_limit()) {
                        Some(s) => s,
                        None => Seq::<char>::empty(),
                    },
                decreases fuel2,
            {
                let r10: u128 = r2 * 10;
                proof {
                    assert(r10 as int / du as int <= 9) by (nonlinear_arith)
                        requires
                            r2 < du,
                            du >= 1,
                            r10 == r2 * 10,
                    ;
                }
                push_digit(out, r10 / du);
                r2 = r10 % du;
                proof {
                    assert(fuel2 > 0);
                }
                fuel2 = fuel2 - 1;
            }
            proof {
                assert(out@ =~= pre + fmt_rat(k@));
            }
        } else {
            // No short terminating expansion: render as a quotient.
            out.append("(");
            if n < 0 {
                out.append("-");
            }
            let ghost pre2 = out@;
            push_dec_digits(out, m);
            proof {
                assert(pre2 =~= pre + seq!['('] + (if n < 0 {
                    seq!['-']
                } else {
                    Seq::<char>::empty()
                }));
            }
            out.append(" / ");
            push_dec_digits(out, du);
            out.append(")");
            proof {
                assert(out@ =~= pre + fmt_rat(k@));
            }
        }
    }
}

fn push_plain(e: &Expr, out: &mut String)
    ensures
        final(out)@ == old(out)@ + fmt_plain(e@),
    decreases *e,
{
    proof {
        reveal_strlit("-");
        reveal_strlit("(");
        reveal_strlit(")");
        reveal_strlit(" ");
        reveal_strlit("+");
        reveal_strlit("*");
        reveal_strlit("/");
        reveal_strlit("^");
    }
    let ghost pre = out@;
    match e {
        Expr::Number(k) => {
            push_rat(out, *k);
        },
        Expr::Variable(s) => {
            out.append(s.as_str());
        },
        Expr::UnaryOp(UnaryOp::Neg, x) => {
            out.append("-");
            push_plain(x, out);
            proof {
                assert(out@ =~= pre + fmt_plain(e@));
            }
        },
        Expr::BinaryOp(op, a, b) => {
            out.append("(");
            push_plain(a, out);
            out.append(" ");
            match op {
                BinaryOp::Add => out.append("+"),
                BinaryOp::Sub => out.append("-"),
                BinaryOp::Mul => out.append("*"),
                BinaryOp::Div => out.append("/"),
                BinaryOp::Pow => out.append("^"),
            }
            out.append(" ");
            push_plain(b, out);
            out.append(")");
            proof {
                assert(out@ =~= pre + fmt_plain(e@));
            }
        },
        Expr::Function(name, arg) => {
            out.append(name.as_str());
            out.append("(");
            push_plain(arg, out);
            out.append(")");
            proof {
                assert(out@ =~= pre + fmt_plain(e@));
            }
        },
    }
}

/// Render a tree to plain text; the result is exactly `fmt_plain` of the view.
pub fn format_expr(expr: &Expr) -> (r: String)
    ensures
        r@ == fmt_plain(expr@),
{
    let mut out = String::new();
    push_plain(expr, &mut out);
    out
}

fn push_latex(e: &Expr, out: &mut String)
    ensures
        final(out)@ == old(out)@ + fmt_latex(e@),
    decreases *e,
{
    proof {
        reveal_strlit("-");
        reveal_strlit(" + ");
        reveal_strlit(" - ");
        reveal_strlit(" ");
        reveal_strlit("}");
        reveal_strlit("\\frac{");
        reveal_strlit("}{");
        reveal_strlit("^{");
        reveal_strlit("\\left|");
        reveal_strlit("\\right|");
        reveal_strlit("\\left(");
        reveal_strlit("\\right)");
        reveal_strlit("\\sin");
        reveal_strlit("\\cos");
        reveal_strlit("\\tan");
        reveal_strlit("\\log");
        reveal_strlit("\\exp");
        reveal_strlit("sin");
        reveal_strlit("cos");
        reveal_strlit("tan");
        reveal_strlit("log");
        reveal_strlit("exp");
        reveal_strlit("abs");
    }
    let ghost pre = out@;
    match e {
        Expr::Number(k) => {
            push_rat(out, *k);
        },
        Expr::Variable(s) => {
            out.append(s.as_str());
        },
        Expr::UnaryOp(UnaryOp::Neg, x) => {
            out.append("-");
            push_latex(x, out);
            proof {
                assert(out@ =~= pre + fmt_latex(e@));
            }
        },
        Expr::BinaryOp(op, a, b) => {
            match op {
                BinaryOp::Add => {
                    push_latex(a, out);
                    out.append(" + ");
                    push_latex(b, out);
                },
                BinaryOp::Sub => {
                    push_latex(a, out);
                    out.append(" - ");
                    push_latex(b, out);
                },
                BinaryOp::Mul => {
                    push_latex(a, out);
                    out.append(" ");
                    push_latex(b, out);
                },
                BinaryOp::Div => {
                    out.append("\\frac{");
                    push_latex(a, out);
                    out.append("}{");
                    push_latex(b, out);
                    out.append("}");
                },
                BinaryOp::Pow => {
                    push_latex(a, out);
                    out.append("^{");
                    push_latex(b, out);
                    out.append("}");
                },
            }
            proof {
                assert(out@ =~= pre + fmt_latex(e@));
            }
        },
        Expr::Function(name, arg) => {
            let is_abs = crate::ast::str_eq_lit(name, "abs");
            if is_abs {
                out.append("\\left|");
                push_latex(arg, out);
                out.append("\\right|");
            } else {
                if crate::ast::str_eq_lit(name, "sin") {
                    out.append("\\sin");
                } else if crate::ast::str_eq_lit(name, "cos") {
                    out.append("\\cos");
                } else if crate::ast::str_eq_lit(name, "tan") {
                    out.append("\\tan");
                } else if crate::ast::str_eq_lit(name, "log") {
                    out.append("\\log");
                } else if crate::ast::str_eq_lit(name, "exp") {
                    out.append("\\exp");
                } else {
                    out.append(name.as_str());
                }
                out.append("\\left(");
                push_latex(arg, out);
                out.append("\\right)");
            }
            proof {
                assert(out@ =~= pre + fmt_latex(e@));
            }
        },
    }
}

/// Render a tree to LaTeX; the result is exactly `fmt_latex` of the view.
pub fn format_expr_latex(expr: &Expr) -> (r: String)
    ensures
        r@ == fmt_latex(expr@),
{
    let mut out = String::new();
    push_latex(expr, &mut out);
    out
}

} // verus!
