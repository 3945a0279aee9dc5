use vstd::prelude::*;
use crate::ast::{BinaryOp, Expr, ExprV, UnaryOp};
use crate::num::{norm_rat, Num};

verus! {

/// The reportable parse failures. `DepthLimitExceeded` is the defined failure
/// for inputs nested beyond `MAX_PARSE_DEPTH`, in place of unbounded
/// recursion.
#[derive(Clone, Copy, Debug, PartialEq, Eq, Structural)]
pub enum ParseError {
    UnexpectedCharacter(char),
    UnexpectedEndOfInput,
    ExpectedClosingParen,
    ExpectedClosingParenAfterCall,
    InvalidNumericLiteral,
    TrailingInput,
    DepthLimitExceeded,
}

/// How deeply parenthesized groups, function calls and stacked negations may
/// nest before the parser reports `DepthLimitExceeded`.
pub const MAX_PARSE_DEPTH: usize = 500;

pub open spec fn is_ws_char(c: char) -> bool {
    c == ' ' || c == '\t' || c == '\n' || c == '\r'
}

pub open spec fn is_digit_char(c: char) -> bool {
    48 <= c as int <= 57
}

pub open spec fn is_alpha_char(c: char) -> bool {
    (65 <= c as int <= 90) || (97 <= c as int <= 122)
}

pub open spec fn is_ident_char(c: char) -> bool {
    is_alpha_char(c) || is_digit_char(c) || c == '_'
}

pub open spec fn is_num_char(c: char) -> bool {
    is_digit_char(c) || c == '.'
}

/// Position after skipping whitespace from `i`.
pub open spec fn sp_ws(s: Seq<char>, i: int) -> int
    decreases s.len() - i,
    when 0 <= i <= s.len()
{
    if i < s.len() && is_ws_char(s[i]) {
        sp_ws(s, i + 1)
    } else {
        i
    }
}

/// End of the maximal run of digits and decimal points starting at `i`.
pub open spec fn num_end(s: Seq<char>, i: int) -> int
    decreases s.len() - i,
    when 0 <= i <= s.len()
{
    if i < s.len() && is_num_char(s[i]) {
        num_end(s, i + 1)
    } else {
        i
    }
}

/// End of the maximal run of identifier characters starting at `i`.
pub open spec fn ident_end(s: Seq<char>, i: int) -> int
    decreases s.len() - i,
    when 0 <= i <= s.len()
{
    if i < s.len() && is_ident_char(s[i]) {
        ident_end(s, i + 1)
    } else {
        i
    }
}

/// Largest mantissa the numeric scanner will extend by one more digit.
pub open spec fn mant_cap() -> int {
    100_000_000_000_000_000
}

/// Scan the literal run `s[i..j)`: mantissa of all digits, number of decimal
/// points, number of digits after the first point, total digits, and whether
/// the mantissa stayed under the cap throughout.
pub open spec fn scan_num(
    s: Seq<char>,
    i: int,
    j: int,
    mant: int,
    dots: int,
    fracd: int,
    digs: int,
    okf: bool,
) -> (int, int, int, int, bool)
    decreases j - i,
    when i <= j
{
    if i >= j {
        (mant, dots, fracd, digs, okf)
    } else {
        let c = s[i];
        if c == '.' {
            scan_num(s, i + 1, j, mant, dots + 1, fracd, digs, okf)
        } else {
            let d = c as int - 48;
            let fr = if dots > 0 {
                fracd + 1
            } else {
                fracd
            };
            if mant < mant_cap() {
                scan_num(s, i + 1, j, mant * 10 + d, dots, fr, digs + 1, okf)
            } else {
                scan_num(s, i + 1, j, mant, dots, fr, digs + 1, false)
            }
        }
    }
}

pub open spec fn pow10(k: nat) -> int
    decreases k,
{
    if k == 0 {
        1
    } else {
        10 * pow10((k - 1) as nat)
    }
}

/// Parse a numeric literal at `i`: the maximal run of digits and points,
/// valid when it has at least one digit, at most one point, a mantissa under
/// the cap and at most 18 fractional digits; its value is the exact fraction
/// `mantissa / 10^fracd`.
pub open spec fn sp_number(s: Seq<char>, i: int) -> (Result<ExprV, ParseError>, int)
    recommends
        0 <= i <= s.len(),
{
    let j = num_end(s, i);
    let t = scan_num(s, i, j, 0, 0, 0, 0, true);
    if t.3 >= 1 && t.1 <= 1 && t.4 && t.2 <= 18 {
        match norm_rat(t.0, pow10(t.2 as nat)) {
            Some(k) => (Ok(ExprV::Number(k)), j),
            None => (Err(ParseError::InvalidNumericLiteral), j),
        }
    } else {
        (Err(ParseError::InvalidNumericLiteral), j)
    }
}

// The productions below mirror the recursive-descent grammar. They terminate
// lexicographically in (unread input, grammar rank); where that requires the
// fact that a subterm never moved the position backwards, the recursion is
// guarded, and the guard's other branch is never reached.
pub open spec fn sp_expr(s: Seq<char>, i: int, d: nat) -> (Result<ExprV, ParseError>, int)
    decreases s.len() - i, 9nat, d,
    when 0 <= i <= s.len()
{
    if d == 0 {
        (Err(ParseError::DepthLimitExceeded), i)
    } else {
        sp_add_sub(s, i, (d - 1) as nat)
    }
}

pub open spec fn sp_add_sub(s: Seq<char>, i: int, d: nat) -> (Result<ExprV, ParseError>, int)
    decreases s.len() - i, 8nat, d,
    when 0 <= i <= s.len()
{
    let r = sp_mul_div(s, i, d);
    match r.0 {
        Err(e) => (Err(e), r.1),
        Ok(node) => {
            if i <= r.1 <= s.len() {
                sp_add_sub_loop(s, node, r.1, d)
            } else {
                (Err(ParseError::UnexpectedEndOfInput), i)
            }
        },
    }
}

pub open spec fn sp_add_sub_loop(s: Seq<char>, acc: ExprV, i: int, d: nat) -> (
    Result<ExprV, ParseError>,
    int,
)
    decreases s.len() - i, 7nat, d,
    when 0 <= i <= s.len()
{
    let iw = sp_ws(s, i);
    if i <= iw < s.len() && (s[iw] == '+' || s[iw] == '-') {
        let op = if s[iw] == '+' {
            BinaryOp::Add
        } else {
            BinaryOp::Sub
        };
        let r = sp_mul_div(s, iw + 1, d);
        match r.0 {
            Err(e) => (Err(e), r.1),
            Ok(rhs) => {
                let acc2 = ExprV::BinaryOp(op, Box::new(acc), Box::new(rhs));
                if i < r.1 <= s.len() {
                    sp_add_sub_loop(s, acc2, r.1, d)
                } else {
                    (Err(ParseError::UnexpectedEndOfInput), i)
                }
            },
        }
    } else {
        if 0 <= iw <= s.len() {
            (Ok(acc), iw)
        } else {
            (Ok(acc), i)
        }
    }
}

pub open spec fn sp_mul_div(s: Seq<char>, i: int, d: nat) -> (Result<ExprV, ParseError>, int)
    decreases s.len() - i, 6nat, d,
    when 0 <= i <= s.len()
{
    let r = sp_pow(s, i, d);
    match r.0 {
        Err(e) => (Err(e), r.1),
        Ok(node) => {
            if i <= r.1 <= s.len() {
                sp_mul_div_loop(s, node, r.1, d)
            } else {
                (Err(ParseError::UnexpectedEndOfInput), i)
            }
        },
    }
}

pub open spec fn sp_mul_div_loop(s: Seq<char>, acc: ExprV, i: int, d: nat) -> (
    Result<ExprV, ParseError>,
    int,
)
    decreases s.len() - i, 5nat, d,
    when 0 <= i <= s.len()
{
    let iw = sp_ws(s, i);
    if i <= iw < s.len() && (s[iw] == '*' || s[iw] == '/') {
        let op = if s[iw] == '*' {
            BinaryOp::Mul
        } else {
            BinaryOp::Div
        };
        let r = sp_pow(s, iw + 1, d);
        match r.0 {
            Err(e) => (Err(e), r.1),
            Ok(rhs) => {
                let acc2 = ExprV::BinaryOp(op, Box::new(acc), Box::new(rhs));
                if i < r.1 <= s.len() {
                    sp_mul_div_loop(s, acc2, r.1, d)
                } else {
                    (Err(ParseError::UnexpectedEndOfInput), i)
                }
            },
        }
    } else if i <= iw < s.len() && (is_digit_char(s[iw]) || is_alpha_char(s[iw]) || s[iw]
        == '(') {
        // Implicit multiplication: the next character starts another operand.
        let r = sp_pow(s, iw, d);
        match r.0 {
            Err(e) => (Err(e), r.1),
            Ok(rhs) => {
                let acc2 = ExprV::BinaryOp(BinaryOp::Mul, Box::new(acc), Box::new(rhs));
                if i < r.1 <= s.len() {
                    sp_mul_div_loop(s, acc2, r.1, d)
                } else {
                    (Err(ParseError::UnexpectedEndOfInput), i)
                }
            },
        }
    } else {
        if 0 <= iw <= s.len() {
            (Ok(acc), iw)
        } else {
            (Ok(acc), i)
        }
    }
}

pub open spec fn sp_pow(s: Seq<char>, i: int, d: nat) -> (Result<ExprV, ParseError>, int)
    decreases s.len() - i, 4nat, d,
    when 0 <= i <= s.len()
{
    let r = sp_unary(s, i, d);
    match r.0 {
        Err(e) => (Err(e), r.1),
        Ok(base) => {
            let j = r.1;
            if i <= j <= s.len() {
                let jw = sp_ws(s, j);
                if i <= jw <= s.len() {
                    if jw < s.len() && s[jw] == '^' {
                        let r2 = sp_unary(s, jw + 1, d);
                        match r2.0 {
                            Err(e) => (Err(e), r2.1),
                            Ok(ex) => (
                                Ok(
                                    ExprV::BinaryOp(
                                        BinaryOp::Pow,
                                        Box::new(base),
                                        Box::new(ex),
                                    ),
                                ),
                                r2.1,
                            ),
                        }
                    } else {
                        (Ok(base), jw)
                    }
                } else {
                    (Ok(base), j)
                }
            } else {
                (Err(ParseError::UnexpectedEndOfInput), i)
            }
        },
    }
}

pub open spec fn sp_unary(s: Seq<char>, i: int, d: nat) -> (Result<ExprV, ParseError>, int)
    decreases s.len() - i, 3nat, d,
    when 0 <= i <= s.len()
{
    let iw = sp_ws(s, i);
    if i <= iw < s.len() && s[iw] == '-' {
        if d == 0 {
            (Err(ParseError::DepthLimitExceeded), iw)
        } else {
            let r = sp_unary(s, iw + 1, (d - 1) as nat);
            match r.0 {
                Err(e) => (Err(e), r.1),
                Ok(x) => (Ok(ExprV::UnaryOp(UnaryOp::Neg, Box::new(x))), r.1),
            }
        }
    } else if i <= iw <= s.len() {
        sp_atom(s, iw, d)
    } else {
        (Err(ParseError::UnexpectedEndOfInput), i)
    }
}

pub open spec fn sp_atom(s: Seq<char>, i: int, d: nat) -> (Result<ExprV, ParseError>, int)
    decreases s.len() - i, 2nat, d,
    when 0 <= i <= s.len()
{
    let iw = sp_ws(s, i);
    if !(i <= iw <= s.len()) {
        (Err(ParseError::UnexpectedEndOfInput), i)
    } else if iw >= s.len() {
        (Err(ParseError::UnexpectedEndOfInput), iw)
    } else if is_num_char(s[iw]) {
        sp_number(s, iw)
    } else if is_alpha_char(s[iw]) {
        sp_ident_or_call(s, iw, d)
    } else if s[iw] == '(' {
        let r = sp_expr(s, iw + 1, d);
        match r.0 {
            Err(e) => (Err(e), r.1),
            Ok(inner) => {
                if iw + 1 <= r.1 <= s.len() {
                    let jw = sp_ws(s, r.1);
                    if jw < s.len() && s[jw] == ')' {
                        (Ok(inner), jw + 1)
                    } else {
                        (Err(ParseError::ExpectedClosingParen), jw)
                    }
                } else {
                    (Err(ParseError::ExpectedClosingParen), r.1)
                }
            },
        }
    } else {
        (Err(ParseError::UnexpectedCharacter(s[iw])), iw)
    }
}

pub open spec fn sp_ident_or_call(s: Seq<char>, i: int, d: nat) -> (
    Result<ExprV, ParseError>,
    int,
)
    decreases s.len() - i, 1nat, d,
    when 0 <= i <= s.len()
{
    let j = ident_end(s, i);
    if !(i <= j <= s.len()) {
        (Err(ParseError::UnexpectedEndOfInput), i)
    } else {
        let name = s.subrange(i, j);
        let k = sp_ws(s, j);
        if i <= k < s.len() && s[k] == '(' {
            let r = sp_expr(s, k + 1, d);
            match r.0 {
                Err(e) => (Err(e), r.1),
                Ok(arg) => {
                    if k + 1 <= r.1 <= s.len() {
                        let kw = sp_ws(s, r.1);
                        if kw < s.len() && s[kw] == ')' {
                            (Ok(ExprV::Function(name, Box::new(arg))), kw + 1)
                        } else {
                            (Err(ParseError::ExpectedClosingParenAfterCall), kw)
                        }
                    } else {
                        (Err(ParseError::ExpectedClosingParenAfterCall), r.1)
                    }
                },
            }
        } else {
            if i <= k <= s.len() {
                (Ok(ExprV::Variable(name)), k)
            } else {
                (Ok(ExprV::Variable(name)), j)
            }
        }
    }
}

proof fn lemma_num_end_bounds(s: Seq<char>, i: int)
    requires
        0 <= i <= s.len(),
    ensures
        i <= num_end(s, i) <= s.len(),
    decreases s.len() - i,
{
    if i < s.len() && is_num_char(s[i]) {
        lemma_num_end_bounds(s, i + 1);
    }
}

proof fn lemma_ident_end_bounds(s: Seq<char>, i: int)
    requires
        0 <= i <= s.len(),
    ensures
        i <= ident_end(s, i) <= s.len(),
    decreases s.len() - i,
{
    if i < s.len() && is_ident_char(s[i]) {
        lemma_ident_end_bounds(s, i + 1);
    }
}

proof fn lemma_pow10_pos(k: nat)
    ensures
        pow10(k) >= 1,
    decreases k,
{
    if k > 0 {
        lemma_pow10_pos((k - 1) as nat);
    }
}

proof fn lemma_pow10_mono(a: nat, b: nat)
    requires
        a <= b,
    ensures
        pow10(a) <= pow10(b),
    decreases b,
{
    if a < b {
        lemma_pow10_mono(a, (b - 1) as nat);
        lemma_pow10_pos((b - 1) as nat);
    }
}

proof fn lemma_pow10_18()
    ensures
        pow10(18) == 1_000_000_000_000_000_000,
{
    assert(pow10(0) == 1);
    assert(pow10(1) == 10);
    assert(pow10(2) == 100);
    assert(pow10(3) == 1000);
    assert(pow10(4) == 10000);
    assert(pow10(5) == 100000);
    assert(pow10(6) == 1000000);
    assert(pow10(7) == 10000000);
    assert(pow10(8) == 100000000);
    assert(pow10(9) == 1000000000);
    assert(pow10(10) == 10000000000);
    assert(pow10(11) == 100000000000);
    assert(pow10(12) == 1000000000000);
    assert(pow10(13) == 10000000000000);
    assert(pow10(14) == 100000000000000);
    assert(pow10(15) == 1000000000000000);
    assert(pow10(16) == 10000000000000000);
    assert(pow10(17) == 100000000000000000);
    assert(pow10(18) == 1000000000000000000);
}

pub open spec fn res_view(r: Result<Expr, ParseError>) -> Result<ExprV, ParseError> {
    match r {
        Ok(e) => Ok(e@),
        Err(x) => Err(x),
    }
}

/// Character-by-character cursor over the input text.
pub struct Parser {
    src: String,
    len: usize,
    pos: usize,
}

impl Parser {
    pub closed spec fn text(&self) -> Seq<char> {
        self.src@
    }

    pub closed spec fn at(&self) -> int {
        self.pos as int
    }

    pub closed spec fn wf(&self) -> bool {
        self.len == self.text().len() && 0 <= self.at() <= self.text().len()
    }

    /// A cursor at the start of `input`.
    pub fn new(input: &str) -> (p: Parser)
        ensures
            p.wf(),
            p.text() == input@,
            p.at() == 0,
    {
        let src: String = input.to_owned();
        let len = src.as_str().unicode_len();
        Parser { src, len, pos: 0 }
    }

    fn curr(&self) -> (c: Option<char>)
        requires
            self.wf(),
        ensures
            c == (if self.at() < self.text().len() {
                Some(self.text()[self.at()])
            } else {
                None::<char>
            }),
    {
        if self.pos < self.len {
            Some(self.src.as_str().get_char(self.pos))
        } else {
            None
        }
    }

    fn at_num_char(&self) -> (r: bool)
        requires
            self.wf(),
        ensures
            r == (self.at() < self.text().len() && is_num_char(self.text()[self.at()])),
    {
        if self.pos < self.len {
            let c = self.src.as_str().get_char(self.pos);
            is_digit_exec(c) || c == '.'
        } else {
            false
        }
    }

    fn at_ident_char(&self) -> (r: bool)
        requires
            self.wf(),
        ensures
            r == (self.at() < self.text().len() && is_ident_char(self.text()[self.at()])),
    {
        if self.pos < self.len {
            let c = self.src.as_str().get_char(self.pos);
            is_ident_exec(c)
        } else {
            false
        }
    }

    /// Advance past the current character, if any.
    pub fn bump(&mut self)
        requires
            old(self).wf(),
        ensures
            final(self).wf(),
            final(self).text() == old(self).text(),
            final(self).at() == (if old(self).at() < old(self).text().len() {
                old(self).at() + 1
            } else {
                old(self).at()
            }),
    {
        if self.pos < self.len {
            self.pos = self.pos + 1;
        }
    }

    /// Advance past any whitespace.
    #[verifier::loop_isolation(false)]
    pub fn skip_whitespace(&mut self)
        requires
            old(self).wf(),
        ensures
            final(self).wf(),
            final(self).text() == old(self).text(),
            old(self).at() <= final(self).at(),
            final(self).at() == sp_ws(old(self).text(), old(self).at()),
    {
        loop
            invariant
                self.wf(),
                self.text() == old(self).text(),
                old(self).at() <= self.at(),
                sp_ws(self.text(), self.at()) == sp_ws(old(self).text(), old(self).at()),
            decreases self.text().len() - self.at(),
        {
            if self.pos < self.len {
                let c = self.src.as_str().get_char(self.pos);
                if c == ' ' || c == '\t' || c == '\n' || c == '\r' {
                    self.pos = self.pos + 1;
                } else {
                    return ;
                }
            } else {
                return ;
            }
        }
    }

    fn parse_expr(&mut self, d: usize) -> (r: Result<Expr, ParseError>)
        requires
            old(self).wf(),
        ensures
            final(self).wf(),
            final(self).text() == old(self).text(),
            old(self).at() <= final(self).at(),
            res_view(r) == sp_expr(old(self).text(), old(self).at(), d as nat).0,
            final(self).at() == sp_expr(old(self).text(), old(self).at(), d as nat).1,
        decreases self.text().len() - self.at(), 9nat,
    {
        if d == 0 {
            return Err(ParseError::DepthLimitExceeded);
        }
        self.parse_add_sub(d - 1)
    }

    #[verifier::loop_isolation(false)]
    fn parse_add_sub(&mut self, d: usize) -> (r: Result<Expr, ParseError>)
        requires
            old(self).wf(),
        ensures
            final(self).wf(),
            final(self).text() == old(self).text(),
            old(self).at() <= final(self).at(),
            r is Ok ==> old(self).at() < final(self).at(),
            res_view(r) == sp_add_sub(old(self).text(), old(self).at(), d as nat).0,
            final(self).at() == sp_add_sub(old(self).text(), old(self).at(), d as nat).1,
        decreases self.text().len() - self.at(), 8nat,
    {
        let ghost s = old(self).text();
        let ghost i0 = old(self).at();
        let first = self.parse_mul_div(d);
        let mut node = match first {
            Err(e) => {
                return Err(e);
            },
            Ok(n) => n,
        };
        loop
            invariant
                self.wf(),
                self.text() == s,
                i0 < self.at(),
                sp_add_sub_loop(s, node@, self.at(), d as nat) == sp_add_sub(s, i0, d as nat),
            decreases self.text().len() - self.at(),
        {
            self.skip_whitespace();
            let c = self.curr();
            match c {
                Some('+') => {
                    self.bump();
                    match self.parse_mul_div(d) {
                        Err(e) => {
                            return Err(e);
                        },
                        Ok(rhs) => {
                            node = crate::ast::mk_bin(BinaryOp::Add, node, rhs);
                        },
                    }
                },
                Some('-') => {
                    self.bump();
                    match self.parse_mul_div(d) {
                        Err(e) => {
                            return Err(e);
                        },
                        Ok(rhs) => {
                            node = crate::ast::mk_bin(BinaryOp::Sub, node, rhs);
                        },
                    }
                },
                _ => {
                    return Ok(node);
                },
            }
        }
    }

    #[verifier::loop_isolation(false)]
    fn parse_mul_div(&mut self, d: usize) -> (r: Result<Expr, ParseError>)
        requires
            old(self).wf(),
        ensures
            final(self).wf(),
            final(self).text() == old(self).text(),
            old(self).at() <= final(self).at(),
            r is Ok ==> old(self).at() < final(self).at(),
            res_view(r) == sp_mul_div(old(self).text(), old(self).at(), d as nat).0,
            final(self).at() == sp_mul_div(old(self).text(), old(self).at(), d as nat).1,
        decreases self.text().len() - self.at(), 6nat,
    {
        let ghost s = old(self).text();
        let ghost i0 = old(self).at();
        let first = self.parse_pow(d);
        let mut node = match first {
            Err(e) => {
                return Err(e);
            },
            Ok(n) => n,
        };
        loop
            invariant
                self.wf(),
                self.text() == s,
                i0 < self.at(),
                sp_mul_div_loop(s, node@, self.at(), d as nat) == sp_mul_div(s, i0, d as nat),
            decreases self.text().len() - self.at(),
        {
            self.skip_whitespace();
            let c = self.curr();
            match c {
                Some('*') => {
                    self.bump();
                    match self.parse_pow(d) {
                        Err(e) => {
                            return Err(e);
                        },
                        Ok(rhs) => {
                            node = crate::ast::mk_bin(BinaryOp::Mul, node, rhs);
                        },
                    }
                },
                Some('/') => {
                    self.bump();
                    match self.parse_pow(d) {
                        Err(e) => {
                            return Err(e);
                        },
                        Ok(rhs) => {
                            node = crate::ast::mk_bin(BinaryOp::Div, node, rhs);
                        },
                    }
                },
                Some(c2) => {
                    if is_digit_exec(c2) || is_alpha_exec(c2) || c2 == '(' {
                        // Implicit multiplication before another operand.
                        match self.parse_pow(d) {
                            Err(e) => {
                                return Err(e);
                            },
                            Ok(rhs) => {
                                node = crate::ast::mk_bin(BinaryOp::Mul, node, rhs);
                            },
                        }
                    } else {
                        return Ok(node);
                    }
                },
                _ => {
                    return Ok(node);
                },
            }
        }
    }

    fn parse_pow(&mut self, d: usize) -> (r: Result<Expr, ParseError>)
        requires
            old(self).wf(),
        ensures
            final(self).wf(),
            final(self).text() == old(self).text(),
            old(self).at() <= final(self).at(),
            r is Ok ==> old(self).at() < final(self).at(),
            res_view(r) == sp_pow(old(self).text(), old(self).at(), d as nat).0,
            final(self).at() == sp_pow(old(self).text(), old(self).at(), d as nat).1,
        decreases self.text().len() - self.at(), 4nat,
    {
        let base = match self.parse_unary(d) {
            Err(e) => {
                return Err(e);
            },
            Ok(b) => b,
        };
        self.skip_whitespace();
        let c = self.curr();
        if c == Some('^') {
            self.bump();
            match self.parse_unary(d) {
                Err(e) => Err(e),
                Ok(ex) => Ok(crate::ast::mk_bin(BinaryOp::Pow, base, ex)),
            }
        } else {
            Ok(base)
        }
    }

    fn parse_unary(&mut self, d: usize) -> (r: Result<Expr, ParseError>)
        requires
            old(self).wf(),
        ensures
            final(self).wf(),
            final(self).text() == old(self).text(),
            old(self).at() <= final(self).at(),
            r is Ok ==> old(self).at() < final(self).at(),
            res_view(r) == sp_unary(old(self).text(), old(self).at(), d as nat).0,
            final(self).at() == sp_unary(old(self).text(), old(self).at(), d as nat).1,
        decreases self.text().len() - self.at(), 3nat,
    {
        self.skip_whitespace();
        let c = self.curr();
        if c == Some('-') {
            if d == 0 {
                return Err(ParseError::DepthLimitExceeded);
            }
            self.bump();
            match self.parse_unary(d - 1) {
                Err(e) => Err(e),
                Ok(x) => Ok(crate::ast::mk_neg(x)),
            }
        } else {
            self.parse_atom(d)
        }
    }

    fn parse_atom(&mut self, d: usize) -> (r: Result<Expr, ParseError>)
        requires
            old(self).wf(),
        ensures
            final(self).wf(),
            final(self).text() == old(self).text(),
            old(self).at() <= final(self).at(),
            r is Ok ==> old(self).at() < final(self).at(),
            res_view(r) == sp_atom(old(self).text(), old(self).at(), d as nat).0,
            final(self).at() == sp_atom(old(self).text(), old(self).at(), d as nat).1,
        decreases self.text().len() - self.at(), 2nat,
    {
        self.skip_whitespace();
        let c = match self.curr() {
            None => {
                return Err(ParseError::UnexpectedEndOfInput);
            },
            Some(c) => c,
        };
        if is_digit_exec(c) || c == '.' {
            self.parse_number()
        } else if is_alpha_exec(c) {
            self.parse_ident_or_func(d)
        } else if c == '(' {
            self.bump();
            let inner = match self.parse_expr(d) {
                Err(e) => {
                    return Err(e);
                },
                Ok(x) => x,
            };
            self.skip_whitespace();
            if self.curr() != Some(')') {
                return Err(ParseError::ExpectedClosingParen);
            }
            self.bump();
            Ok(inner)
        } else {
            Err(ParseError::UnexpectedCharacter(c))
        }
    }

    #[verifier::loop_isolation(false)]
    fn parse_number(&mut self) -> (r: Result<Expr, ParseError>)
        requires
            old(self).wf(),
        ensures
            final(self).wf(),
            final(self).text() == old(self).text(),
            old(self).at() <= final(self).at(),
            r is Ok ==> old(self).at() < final(self).at(),
            res_view(r) == sp_number(old(self).text(), old(self).at()).0,
            final(self).at() == sp_number(old(self).text(), old(self).at()).1,
        decreases self.text().len() - self.at(),
    {
        let ghost s = old(self).text();
        let ghost i0 = old(self).at();
        proof {
            lemma_num_end_bounds(s, i0);
        }
        let ghost jj = num_end(s, i0);
        let mut mant: u128 = 0;
        let mut dots: usize = 0;
        let mut fracd: usize = 0;
        let mut digs: usize = 0;
        let mut okf: bool = true;
        while self.at_num_char()
            invariant
                self.wf(),
                self.text() == s,
                i0 <= self.at() <= jj <= s.len(),
                num_end(s, self.at()) == jj,
                dots <= self.at() - i0,
                fracd <= self.at() - i0,
                digs <= self.at() - i0,
                mant < 1_000_000_000_000_000_000,
                scan_num(s, i0, jj, 0, 0, 0, 0, true) == scan_num(
                    s,
                    self.at(),
                    jj,
                    mant as int,
                    dots as int,
                    fracd as int,
                    digs as int,
                    okf,
                ),
            decreases self.text().len() - self.at(),
        {
            let c = self.src.as_str().get_char(self.pos);
            proof {
                lemma_num_end_bounds(s, self.at() + 1);
            }
            if c == '.' {
                dots = dots + 1;
            } else {
                let dv: u128 = (c as u32) as u128 - 48;
                if dots > 0 {
                    fracd = fracd + 1;
                }
                if mant < 100_000_000_000_000_000 {
                    mant = mant * 10 + dv;
                } else {
                    okf = false;
                }
                digs = digs + 1;
            }
            self.pos = self.pos + 1;
        }
        proof {
            assert(num_end(s, self.at()) == self.at());
            assert(self.at() == jj);
        }
        if digs >= 1 && dots <= 1 && okf && fracd <= 18 {
            let mut den: u128 = 1;
            let mut kk: usize = 0;
            while kk < fracd
                invariant
                    kk <= fracd <= 18,
                    den as int == pow10(kk as nat),
                    den <= 1_000_000_000_000_000_000,
                decreases fracd - kk,
            {
                proof {
                    lemma_pow10_mono((kk + 1) as nat, fracd as nat);
                    lemma_pow10_mono(fracd as nat, 18);
                    lemma_pow10_18();
                }
                den = den * 10;
                kk = kk + 1;
            }
            proof {
                lemma_pow10_pos(fracd as nat);
            }
            match Num::new_frac(mant as i64, den as i64) {
                Some(k) => Ok(Expr::Number(k)),
                None => Err(ParseError::InvalidNumericLiteral),
            }
        } else {
            Err(ParseError::InvalidNumericLiteral)
        }
    }

    #[verifier::loop_isolation(false)]
    fn parse_ident_or_func(&mut self, d: usize) -> (r: Result<Expr, ParseError>)
        requires
            old(self).wf(),
        ensures
            final(self).wf(),
            final(self).text() == old(self).text(),
            old(self).at() <= final(self).at(),
            (r is Ok && old(self).at() < old(self).text().len() && is_ident_char(
                old(self).text()[old(self).at()],
            )) ==> old(self).at() < final(self).at(),
            res_view(r) == sp_ident_or_call(old(self).text(), old(self).at(), d as nat).0,
            final(self).at() == sp_ident_or_call(old(self).text(), old(self).at(), d as nat).1,
        decreases self.text().len() - self.at(), 1nat,
    {
        let ghost s = old(self).text();
        let ghost i0 = old(self).at();
        let start = self.pos;
        while self.at_ident_char()
            invariant
                self.wf(),
                self.text() == s,
                i0 <= self.at() <= s.len(),
                start as int == i0,
                ident_end(s, self.at()) == ident_end(s, i0),
            decreases self.text().len() - self.at(),
        {
            self.pos = self.pos + 1;
        }
        proof {
            assert(ident_end(s, self.at()) == self.at());
            lemma_ident_end_bounds(s, i0);
        }
        let j = self.pos;
        let name: String = self.src.as_str().substring_char(start, j).to_owned();
        proof {
            assert(name@ == s.subrange(i0, j as int));
        }
        self.skip_whitespace();
        if self.curr() == Some('(') {
            self.bump();
            let arg = match self.parse_expr(d) {
                Err(e) => {
                    return Err(e);
                },
                Ok(x) => x,
            };
            self.skip_whitespace();
            if self.curr() != Some(')') {
                return Err(ParseError::ExpectedClosingParenAfterCall);
            }
            self.bump();
            Ok(crate::ast::mk_fun(name, arg))
        } else {
            let r = Expr::Variable(name);
            proof {
                assert(r@ == ExprV::Variable(s.subrange(i0, j as int)));
            }
            Ok(r)
        }
    }
}

fn is_digit_exec(c: char) -> (r: bool)
    ensures
        r == is_digit_char(c),
{
    let u = c as u32;
    48 <= u && u <= 57
}

fn is_alpha_exec(c: char) -> (r: bool)
    ensures
        r == is_alpha_char(c),
{
    let u = c as u32;
    (65 <= u && u <= 90) || (97 <= u && u <= 122)
}

fn is_ident_exec(c: char) -> (r: bool)
    ensures
        r == is_ident_char(c),
{
    let u = c as u32;
    (65 <= u && u <= 90) || (97 <= u && u <= 122) || (48 <= u && u <= 57) || c == '_'
}

/// Parse an infix expression into a tree; the result is exactly `sp_parse`
/// of the input text.
pub fn parse(expr: &str) -> (r: Result<Expr, ParseError>)
    ensures
        res_view(r) == sp_parse(expr@),
{
    let mut parser = Parser::new(expr);
    parser.skip_whitespace();
    let parsed = match parser.parse_expr(MAX_PARSE_DEPTH) {
        Err(e) => {
            return Err(e);
        },
        Ok(x) => x,
    };
    parser.skip_whitespace();
    match parser.curr() {
        Some(_) => Err(ParseError::TrailingInput),
        None => Ok(parsed),
    }
}

/// The whole grammar: skip leading whitespace, parse one expression, and
/// reject any unconsumed input after it.
pub open spec fn sp_parse(s: Seq<char>) -> Result<ExprV, ParseError> {
    let i0 = sp_ws(s, 0);
    if !(0 <= i0 <= s.len()) {
        Err(ParseError::UnexpectedEndOfInput)
    } else {
        let r = sp_expr(s, i0, MAX_PARSE_DEPTH as nat);
        match r.0 {
            Err(e) => Err(e),
            Ok(ast) => {
                if 0 <= r.1 <= s.len() {
                    let j = sp_ws(s, r.1);
                    if j < s.len() {
                        Err(ParseError::TrailingInput)
                    } else {
                        Ok(ast)
                    }
                } else {
                    Err(ParseError::TrailingInput)
                }
            },
        }
    }
}

} // verus!
