use vstd::prelude::*;
use crate::parser::is_ws_char;

verus! {

/// Replace every non-overlapping, leftmost occurrence of `pat` in `s[i..]`
/// by `rep`, scanning left to right.
pub open spec fn replace_from(s: Seq<char>, i: int, pat: Seq<char>, rep: Seq<char>) -> Seq<char>
    decreases s.len() - i,
    when 0 <= i <= s.len() && pat.len() >= 1
{
    if i + pat.len() <= s.len() && s.subrange(i, i + pat.len()) == pat {
        rep + replace_from(s, i + pat.len(), pat, rep)
    } else if i < s.len() {
        seq![s[i]] + replace_from(s, i + 1, pat, rep)
    } else {
        Seq::<char>::empty()
    }
}

/// Position of the next closing brace at or after `i` (`s.len()` if none).
pub open spec fn brace_end(s: Seq<char>, i: int) -> int
    decreases s.len() - i,
    when 0 <= i <= s.len()
{
    if i < s.len() && s[i] != '}' {
        brace_end(s, i + 1)
    } else {
        i
    }
}

pub open spec fn ws_end(s: Seq<char>, i: int) -> int
    decreases s.len() - i,
    when 0 <= i <= s.len()
{
    if i < s.len() && is_ws_char(s[i]) {
        ws_end(s, i + 1)
    } else {
        i
    }
}

/// Whether a single-level `\frac{A}{B}` group starts at `i`, and where its
/// parts lie: positions of the two opening braces and their matching closing
/// braces. The contents may not contain a brace (the single-level limitation).
pub open spec fn frac_parts(s: Seq<char>, i: int) -> (bool, int, int, int, int)
    recommends
        0 <= i <= s.len(),
{
    if i + 5 <= s.len() && s.subrange(i, i + 5) == "\\frac"@ {
        let j1 = ws_end(s, i + 5);
        if i <= j1 && j1 < s.len() && s[j1] == '{' {
            let k1 = brace_end(s, j1 + 1);
            if j1 < k1 + 1 && k1 < s.len() {
                let j2 = ws_end(s, k1 + 1);
                if k1 < j2 && j2 < s.len() && s[j2] == '{' {
                    let k2 = brace_end(s, j2 + 1);
                    if j2 < k2 + 1 && k2 < s.len() {
                        (true, j1, k1, j2, k2)
                    } else {
                        (false, 0, 0, 0, 0)
                    }
                } else {
                    (false, 0, 0, 0, 0)
                }
            } else {
                (false, 0, 0, 0, 0)
            }
        } else {
            (false, 0, 0, 0, 0)
        }
    } else {
        (false, 0, 0, 0, 0)
    }
}

/// Rewrite every `\frac{A}{B}` in `s[i..]` to `(A)/(B)`, scanning left to
/// right; the brace match is single-level and does not handle nested braces.
pub open spec fn frac_from(s: Seq<char>, i: int) -> Seq<char>
    decreases s.len() - i,
    when 0 <= i <= s.len()
{
    let p = frac_parts(s, i);
    if p.0 && i < p.4 + 1 <= s.len() {
        seq!['('] + s.subrange(p.1 + 1, p.2) + seq![')', '/', '('] + s.subrange(p.3 + 1, p.4)
            + seq![')'] + frac_from(s, p.4 + 1)
    } else if i < s.len() {
        seq![s[i]] + frac_from(s, i + 1)
    } else {
        Seq::<char>::empty()
    }
}

/// The whole pre-pass: rewrite the recognized control sequences to bare
/// names, rewrite `\frac{A}{B}` to `(A)/(B)`, and strip `$` delimiters.
pub open spec fn latex_normalize(s: Seq<char>) -> Seq<char> {
    let s1 = replace_from(s, 0, "\\sin"@, "sin"@);
    let s2 = replace_from(s1, 0, "\\cos"@, "cos"@);
    let s3 = replace_from(s2, 0, "\\tan"@, "tan"@);
    let s4 = replace_from(s3, 0, "\\log"@, "log"@);
    let s5 = replace_from(s4, 0, "\\exp"@, "exp"@);
    let s6 = replace_from(s5, 0, "\\abs"@, "abs"@);
    let s7 = frac_from(s6, 0);
    replace_from(s7, 0, "$"@, ""@)
}

/// Whether `pat` occurs in `s` starting at `i`.
fn matches_at(s: &str, n: usize, i: usize, pat: &str, m: usize) -> (r: bool)
    requires
        n == s@.len(),
        m == pat@.len(),
        m >= 1,
        i <= n,
    ensures
        r == (i + pat@.len() <= s@.len() && s@.subrange(i as int, i + pat@.len()) == pat@),
{
    if m > n - i {
        return false;
    }
    let mut k: usize = 0;
    while k < m
        invariant
            0 <= k <= m,
            i + m <= n,
            n == s@.len(),
            m == pat@.len(),
            forall|t: int| 0 <= t < k ==> s@[i + t] == pat@[t],
        decreases m - k,
    {
        let a = s.get_char(i + k);
        let b = pat.get_char(k);
        if a != b {
            proof {
                assert(s@.subrange(i as int, i + pat@.len())[k as int] != pat@[k as int]);
            }
            return false;
        }
        k = k + 1;
    }
    proof {
        assert(s@.subrange(i as int, i + pat@.len()) =~= pat@);
    }
    true
}

#[verifier::loop_isolation(false)]
fn replace_all_lit(s: &str, pat: &str, rep: &str) -> (r: String)
    requires
        pat@.len() >= 1,
    ensures
        r@ == replace_from(s@, 0, pat@, rep@),
{
    let n = s.unicode_len();
    let m = pat.unicode_len();
    let mut out = String::new();
    let mut i: usize = 0;
    while i < n
        invariant
            0 <= i <= n,
            n == s@.len(),
            m == pat@.len(),
            replace_from(s@, 0, pat@, rep@) == out@ + replace_from(s@, i as int, pat@, rep@),
        decreases n - i,
    {
        if matches_at(s, n, i, pat, m) {
            out.append(rep);
            i = i + m;
        } else {
            out.append(s.substring_char(i, i + 1));
            proof {
                assert(s@.subrange(i as int, i as int + 1) =~= seq![s@[i as int]]);
            }
            i = i + 1;
        }
    }
    out
}

#[verifier::loop_isolation(false)]
fn rewrite_frac(s: &str) -> (r: String)
    ensures
        r@ == frac_from(s@, 0),
{
    proof {
        reveal_strlit("\\frac");
    }
    let n = s.unicode_len();
    let mut out = String::new();
    let mut i: usize = 0;
    while i < n
        invariant
            0 <= i <= n,
            n == s@.len(),
            frac_from(s@, 0) == out@ + frac_from(s@, i as int),
        decreases n - i,
    {
        let mut matched = false;
        if matches_at(s, n, i, "\\frac", 5) {
            // first argument
            let mut j1: usize = i + 5;
            while j1 < n && is_ws_exec(s.get_char(j1))
                invariant
                    i + 5 <= j1 <= n,
                    n == s@.len(),
                    ws_end(s@, i + 5) == ws_end(s@, j1 as int),
                decreases n - j1,
            {
                j1 = j1 + 1;
            }
            if j1 < n && s.get_char(j1) == '{' {
                let mut k1: usize = j1 + 1;
                while k1 < n && s.get_char(k1) != '}'
                    invariant
                        j1 + 1 <= k1 <= n,
                        n == s@.len(),
                        brace_end(s@, j1 + 1) == brace_end(s@, k1 as int),
                    decreases n - k1,
                {
                    k1 = k1 + 1;
                }
                if k1 < n {
                    // second argument
                    let mut j2: usize = k1 + 1;
                    while j2 < n && is_ws_exec(s.get_char(j2))
                        invariant
                            k1 + 1 <= j2 <= n,
                            n == s@.len(),
                            ws_end(s@, k1 + 1) == ws_end(s@, j2 as int),
                        decreases n - j2,
                    {
                        j2 = j2 + 1;
                    }
                    if j2 < n && s.get_char(j2) == '{' {
                        let mut k2: usize = j2 + 1;
                        while k2 < n && s.get_char(k2) != '}'
                            invariant
                                j2 + 1 <= k2 <= n,
                                n == s@.len(),
                                brace_end(s@, j2 + 1) == brace_end(s@, k2 as int),
                            decreases n - k2,
                        {
                            k2 = k2 + 1;
                        }
                        if k2 < n {
                            proof {
                                reveal_strlit("(");
                                reveal_strlit(")/(");
                                reveal_strlit(")");
                            }
                            out.append("(");
                            out.append(s.substring_char(j1 + 1, k1));
                            out.append(")/(");
                            out.append(s.substring_char(j2 + 1, k2));
                            out.append(")");
                            i = k2 + 1;
                            matched = true;
                        }
                    }
                }
            }
        }
        if !matched {
            out.append(s.substring_char(i, i + 1));
            proof {
                assert(s@.subrange(i as int, i as int + 1) =~= seq![s@[i as int]]);
            }
            i = i + 1;
        }
    }
    out
}

fn is_ws_exec(c: char) -> (r: bool)
    ensures
        r == is_ws_char(c),
{
    c == ' ' || c == '\t' || c == '\n' || c == '\r'
}

/// Rewrite a LaTeX-like input to plain infix notation; the result is exactly
/// `latex_normalize` of the input text.
pub fn latex_to_math_expr(latex: &str) -> (r: String)
    ensures
        r@ == latex_normalize(latex@),
{
    proof {
        reveal_strlit("\\sin");
        reveal_strlit("\\cos");
        reveal_strlit("\\tan");
        reveal_strlit("\\log");
        reveal_strlit("\\exp");
        reveal_strlit("\\abs");
        reveal_strlit("$");
    }
    let s1 = replace_all_lit(latex, "\\sin", "sin");
    let s2 = replace_all_lit(s1.as_str(), "\\cos", "cos");
    let s3 = replace_all_lit(s2.as_str(), "\\tan", "tan");
    let s4 = replace_all_lit(s3.as_str(), "\\log", "log");
    let s5 = replace_all_lit(s4.as_str(), "\\exp", "exp");
    let s6 = replace_all_lit(s5.as_str(), "\\abs", "abs");
    let s7 = rewrite_frac(s6.as_str());
    replace_all_lit(s7.as_str(), "$", "")
}

} // verus!
