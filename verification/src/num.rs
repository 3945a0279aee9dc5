use vstd::prelude::*;

verus! {

/// Mathematical value of a numeric constant: the exact fraction `n / d`.
///
/// A well-formed value keeps `d >= 1`; the sign lives in `n`.
pub struct RatV {
    pub n: int,
    pub d: int,
}

pub open spec fn rat_zero() -> RatV {
    RatV { n: 0, d: 1 }
}

pub open spec fn rat_one() -> RatV {
    RatV { n: 1, d: 1 }
}

pub open spec fn abs_int(x: int) -> int {
    if x < 0 {
        -x
    } else {
        x
    }
}

/// Euclid's greatest common divisor on non-negative arguments.
pub open spec fn gcd_int(a: int, b: int) -> int
    recommends
        a >= 0,
        b >= 0,
    decreases b,
    when 0 <= b
{
    if b <= 0 {
        a
    } else {
        gcd_int(b, a % b)
    }
}

/// Largest magnitude a stored numerator or denominator may take.
pub open spec fn rat_limit() -> int {
    0x7fff_ffff_ffff_ffff
}

/// Reduce `n / d` (with `d >= 1`) by the greatest common divisor and check that
/// both parts stay representable; `None` when they do not.
pub open spec fn norm_rat(n: int, d: int) -> Option<RatV>
    recommends
        1 <= d,
{
    let g = gcd_int(abs_int(n), d);
    if g < 1 {
        None
    } else {
        let m = abs_int(n) / g;
        let dd = d / g;
        if m <= rat_limit() && 1 <= dd && dd <= rat_limit() {
            Some(RatV { n: if n < 0 { -m } else { m }, d: dd })
        } else {
            None
        }
    }
}

pub open spec fn rat_sum(x: RatV, y: RatV) -> Option<RatV> {
    norm_rat(x.n * y.d + y.n * x.d, x.d * y.d)
}

pub open spec fn rat_prod(x: RatV, y: RatV) -> Option<RatV> {
    norm_rat(x.n * y.n, x.d * y.d)
}

/// Exact quotient `x / y`; `None` when `y` is zero.
pub open spec fn rat_quot(x: RatV, y: RatV) -> Option<RatV> {
    if y.n == 0 {
        None
    } else if y.n < 0 {
        norm_rat(-(x.n * y.d), x.d * -y.n)
    } else {
        norm_rat(x.n * y.d, x.d * y.n)
    }
}

pub open spec fn rat_neg(x: RatV) -> RatV {
    RatV { n: -x.n, d: x.d }
}

pub open spec fn rat_abs(x: RatV) -> RatV {
    RatV { n: abs_int(x.n), d: x.d }
}

pub open spec fn divides(k: int, x: int) -> bool {
    exists|m: int| x == #[trigger] (k * m)
}

proof fn lemma_gcd_divides(a: int, b: int)
    requires
        a >= 0,
        b >= 0,
    ensures
        divides(gcd_int(a, b), a),
        divides(gcd_int(a, b), b),
    decreases b,
{
    let g = gcd_int(a, b);
    if b <= 0 {
        assert(a == g * 1);
        assert(b == g * 0);
    } else {
        lemma_gcd_divides(b, a % b);
        let gr = gcd_int(b, a % b);
        let m1 = choose|m: int| b == #[trigger] (gr * m);
        let m2 = choose|m: int| (a % b) == #[trigger] (gr * m);
        vstd::arithmetic::div_mod::lemma_fundamental_div_mod(a, b);
        let q = a / b;
        assert(a == gr * (m1 * q + m2)) by (nonlinear_arith)
            requires
                a == b * q + (a % b),
                b == gr * m1,
                (a % b) == gr * m2,
        ;
    }
}

proof fn lemma_gcd_pos(a: int, b: int)
    requires
        a >= 0,
        b >= 1,
    ensures
        gcd_int(a, b) >= 1,
    decreases b,
{
    if a % b >= 1 {
        lemma_gcd_pos(b, a % b);
    } else {
        assert(gcd_int(a, b) == gcd_int(b, 0));
        assert(gcd_int(b, 0) == b);
    }
}

proof fn lemma_gcd_greatest(c: int, a: int, b: int)
    requires
        c >= 1,
        a >= 0,
        b >= 0,
        divides(c, a),
        divides(c, b),
    ensures
        divides(c, gcd_int(a, b)),
    decreases b,
{
    if b <= 0 {
    } else {
        let ma = choose|m: int| a == #[trigger] (c * m);
        let mb = choose|m: int| b == #[trigger] (c * m);
        vstd::arithmetic::div_mod::lemma_fundamental_div_mod(a, b);
        let q = a / b;
        assert((a % b) == c * (ma - mb * q)) by (nonlinear_arith)
            requires
                a == b * q + (a % b),
                a == c * ma,
                b == c * mb,
        ;
        lemma_gcd_greatest(c, b, a % b);
    }
}

/// Reduction is idempotent: a reduced fraction reduces to itself, so every
/// constant the library folds is already in lowest terms.
pub proof fn lemma_norm_rat_idempotent(n: int, d: int)
    requires
        1 <= d,
        norm_rat(n, d) is Some,
    ensures
        norm_rat(norm_rat(n, d)->Some_0.n, norm_rat(n, d)->Some_0.d) == norm_rat(n, d),
{
    let r = norm_rat(n, d)->Some_0;
    let a = abs_int(n);
    let g = gcd_int(a, d);
    lemma_gcd_divides(a, d);
    let ma = choose|m: int| a == #[trigger] (g * m);
    let md = choose|m: int| d == #[trigger] (g * m);
    assert(a / g == ma) by {
        vstd::arithmetic::div_mod::lemma_div_multiples_vanish(ma, g);
        assert(g * ma == a);
    }
    assert(d / g == md) by {
        vstd::arithmetic::div_mod::lemma_div_multiples_vanish(md, g);
        assert(g * md == d);
    }
    assert(ma >= 0 && md >= 1) by (nonlinear_arith)
        requires
            a == g * ma,
            d == g * md,
            a >= 0,
            d >= 1,
            g >= 1,
    ;
    assert(abs_int(r.n) == ma);
    assert(r.d == md);
    let h = gcd_int(ma, md);
    lemma_gcd_pos(ma, md);
    lemma_gcd_divides(ma, md);
    let mah = choose|m: int| ma == #[trigger] (h * m);
    let mdh = choose|m: int| md == #[trigger] (h * m);
    assert(divides(g * h, a)) by {
        assert(a == (g * h) * mah) by (nonlinear_arith)
            requires
                a == g * ma,
                ma == h * mah,
        ;
    }
    assert(divides(g * h, d)) by {
        assert(d == (g * h) * mdh) by (nonlinear_arith)
            requires
                d == g * md,
                md == h * mdh,
        ;
    }
    assert(g * h >= 1) by (nonlinear_arith)
        requires
            g >= 1,
            h >= 1,
    ;
    lemma_gcd_greatest(g * h, a, d);
    let w = choose|m: int| g == #[trigger] ((g * h) * m);
    assert(h == 1) by (nonlinear_arith)
        requires
            g == (g * h) * w,
            g >= 1,
            h >= 1,
    ;
    assert(gcd_int(abs_int(r.n), r.d) == 1);
    assert(abs_int(r.n) / 1 == abs_int(r.n)) by {
        vstd::arithmetic::div_mod::lemma_div_multiples_vanish(abs_int(r.n), 1);
    }
    assert(r.d / 1 == r.d) by {
        vstd::arithmetic::div_mod::lemma_div_multiples_vanish(r.d, 1);
    }
    if n < 0 {
        assert(ma >= 1) by (nonlinear_arith)
            requires
                a == g * ma,
                a >= 1,
                g >= 1,
                ma >= 0,
        ;
        assert(r.n < 0);
    } else {
        assert(r.n >= 0);
    }
    assert(abs_int(r.n) <= rat_limit());
    assert(1 <= r.d <= rat_limit());
    assert(norm_rat(r.n, r.d) == Some(
        RatV {
            n: if r.n < 0 {
                -abs_int(r.n)
            } else {
                abs_int(r.n)
            },
            d: r.d,
        },
    ));
    assert((if r.n < 0 {
        -abs_int(r.n)
    } else {
        abs_int(r.n)
    }) == r.n);
    assert(r == (RatV { n: r.n, d: r.d }));
    assert(norm_rat(n, d) == Some(r));
}

/// Reduction by the greatest common divisor keeps the value: the reduced
/// fraction and the original fraction are cross-multiplication equal.
pub proof fn lemma_norm_rat_value(n: int, d: int)
    requires
        1 <= d,
        norm_rat(n, d) is Some,
    ensures
        norm_rat(n, d)->Some_0.n * d == n * norm_rat(n, d)->Some_0.d,
        1 <= norm_rat(n, d)->Some_0.d,
{
    let g = gcd_int(abs_int(n), d);
    lemma_gcd_divides(abs_int(n), d);
    let ma = choose|m: int| abs_int(n) == #[trigger] (g * m);
    let md = choose|m: int| d == #[trigger] (g * m);
    assert(abs_int(n) / g == ma) by {
        vstd::arithmetic::div_mod::lemma_div_multiples_vanish(ma, g);
        assert(g * ma == abs_int(n));
    }
    assert(d / g == md) by {
        vstd::arithmetic::div_mod::lemma_div_multiples_vanish(md, g);
        assert(g * md == d);
    }
    assert(ma * d == abs_int(n) * md) by (nonlinear_arith)
        requires
            abs_int(n) == g * ma,
            d == g * md,
    ;
    if n < 0 {
        assert((-ma) * d == n * md) by (nonlinear_arith)
            requires
                ma * d == abs_int(n) * md,
                abs_int(n) == -n,
        ;
    }
}

/// The folded sum is the exact rational sum of its operands.
pub proof fn lemma_rat_sum_exact(x: RatV, y: RatV)
    requires
        x.d >= 1,
        y.d >= 1,
        rat_sum(x, y) is Some,
    ensures
        rat_sum(x, y)->Some_0.n * (x.d * y.d) == (x.n * y.d + y.n * x.d) * rat_sum(
            x,
            y,
        )->Some_0.d,
{
    assert(1 <= x.d * y.d) by (nonlinear_arith)
        requires
            x.d >= 1,
            y.d >= 1,
    ;
    lemma_norm_rat_value(x.n * y.d + y.n * x.d, x.d * y.d);
}

/// The folded product is the exact rational product of its operands.
pub proof fn lemma_rat_prod_exact(x: RatV, y: RatV)
    requires
        x.d >= 1,
        y.d >= 1,
        rat_prod(x, y) is Some,
    ensures
        rat_prod(x, y)->Some_0.n * (x.d * y.d) == (x.n * y.n) * rat_prod(x, y)->Some_0.d,
{
    assert(1 <= x.d * y.d) by (nonlinear_arith)
        requires
            x.d >= 1,
            y.d >= 1,
    ;
    lemma_norm_rat_value(x.n * y.n, x.d * y.d);
}

/// The folded quotient is the exact rational quotient of its operands.
pub proof fn lemma_rat_quot_exact(x: RatV, y: RatV)
    requires
        x.d >= 1,
        y.d >= 1,
        rat_quot(x, y) is Some,
    ensures
        rat_quot(x, y)->Some_0.n * (x.d * y.n) == (x.n * y.d) * rat_quot(x, y)->Some_0.d,
{
    if y.n < 0 {
        assert(1 <= x.d * -y.n) by (nonlinear_arith)
            requires
                x.d >= 1,
                y.n < 0,
        ;
        lemma_norm_rat_value(-(x.n * y.d), x.d * -y.n);
        let r = rat_quot(x, y)->Some_0;
        assert(r.n * (x.d * y.n) == (x.n * y.d) * r.d) by (nonlinear_arith)
            requires
                r.n * (x.d * -y.n) == (-(x.n * y.d)) * r.d,
        ;
    } else {
        assert(1 <= x.d * y.n) by (nonlinear_arith)
            requires
                x.d >= 1,
                y.n > 0,
        ;
        lemma_norm_rat_value(x.n * y.d, x.d * y.n);
    }
}

/// An exact numeric constant, kept as a fraction of 64-bit integers.
///
/// Values are only built through the constructors here, which reduce by the
/// greatest common divisor, keep the denominator positive and keep both parts
/// within `rat_limit()`.
#[derive(Clone, Copy, PartialEq, Eq, Structural, Debug)]
pub struct Num {
    n: i64,
    d: i64,
}

impl View for Num {
    type V = RatV;

    closed spec fn view(&self) -> RatV {
        RatV { n: self.n as int, d: self.d as int }
    }
}

#[verifier::type_invariant]
pub open spec fn num_inv(x: Num) -> bool {
    1 <= x@.d <= rat_limit() && -rat_limit() <= x@.n <= rat_limit()
}

pub open spec fn opt_num_view(o: Option<Num>) -> Option<RatV> {
    match o {
        Option::None => Option::<RatV>::None,
        Option::Some(x) => Option::Some(x@),
    }
}

fn gcd_u128(a0: u128, b0: u128) -> (g: u128)
    ensures
        g as int == gcd_int(a0 as int, b0 as int),
{
    let mut a: u128 = a0;
    let mut b: u128 = b0;
    while b != 0
        invariant
            gcd_int(a as int, b as int) == gcd_int(a0 as int, b0 as int),
        decreases b,
    {
        let r: u128 = a % b;
        a = b;
        b = r;
    }
    a
}

/// Build the reduced fraction `(sign) a / d`; mirrors `norm_rat`.
fn norm_parts(neg: bool, a: u128, d: u128) -> (r: Option<Num>)
    requires
        1 <= d,
    ensures
        opt_num_view(r) == norm_rat(if neg { -(a as int) } else { a as int }, d as int),
{
    let g: u128 = gcd_u128(a, d);
    if g < 1 {
        None
    } else {
        let m: u128 = a / g;
        let dd: u128 = d / g;
        if m <= 0x7fff_ffff_ffff_ffff && 1 <= dd && dd <= 0x7fff_ffff_ffff_ffff {
            let mm: i64 = m as i64;
            let r = Num { n: if neg { -mm } else { mm }, d: dd as i64 };
            Some(r)
        } else {
            None
        }
    }
}

impl Num {
    /// The integer `n` as a constant. `i64::MIN` is excluded so that negation
    /// always stays representable.
    pub fn from_int(n: i64) -> (r: Num)
        requires
            n > i64::MIN,
        ensures
            r@ == (RatV { n: n as int, d: 1 }),
    {
        Num { n, d: 1 }
    }

    /// The reduced fraction `n / d`; `None` when `d < 1` or the reduced parts
    /// do not fit.
    pub fn new_frac(n: i64, d: i64) -> (r: Option<Num>)
        ensures
            opt_num_view(r) == (if 1 <= d {
                norm_rat(n as int, d as int)
            } else {
                Option::<RatV>::None
            }),
    {
        if d < 1 {
            None
        } else {
            let ni: i128 = n as i128;
            let neg: bool = ni < 0;
            let a: u128 = if ni < 0 { (-ni) as u128 } else { ni as u128 };
            norm_parts(neg, a, d as u128)
        }
    }

    pub fn numer(self) -> (r: i64)
        ensures
            r as int == self@.n,
    {
        self.n
    }

    pub fn denom(self) -> (r: i64)
        ensures
            r as int == self@.d,
    {
        self.d
    }

    /// Equality of stored fractions, stated over the views.
    pub fn eq_val(self, other: Num) -> (r: bool)
        ensures
            r == (self@ == other@),
    {
        self.n == other.n && self.d == other.d
    }

    pub fn is_zero(self) -> (r: bool)
        ensures
            r == (self@.n == 0),
    {
        self.n == 0
    }

    /// Whether the value equals one, compared exactly (`n == d`).
    pub fn is_one(self) -> (r: bool)
        ensures
            r == (self@.n == self@.d),
    {
        self.n == self.d
    }

    pub fn neg_val(self) -> (r: Num)
        ensures
            r@ == rat_neg(self@),
    {
        proof {
            use_type_invariant(self);
        }
        Num { n: -self.n, d: self.d }
    }

    pub fn abs_val(self) -> (r: Num)
        ensures
            r@ == rat_abs(self@),
    {
        proof {
            use_type_invariant(self);
        }
        if self.n < 0 {
            Num { n: -self.n, d: self.d }
        } else {
            Num { n: self.n, d: self.d }
        }
    }

    pub fn checked_sum(self, other: Num) -> (r: Option<Num>)
        ensures
            opt_num_view(r) == rat_sum(self@, other@),
    {
        proof {
            use_type_invariant(self);
            use_type_invariant(other);
        }
        let an: i128 = self.n as i128;
        let ad: i128 = self.d as i128;
        let bn: i128 = other.n as i128;
        let bd: i128 = other.d as i128;
        proof {
            assert(an * bd <= 0x7fff_ffff_ffff_ffff * 0x7fff_ffff_ffff_ffff
                && an * bd >= -(0x7fff_ffff_ffff_ffff * 0x7fff_ffff_ffff_ffff)) by (nonlinear_arith)
                requires
                    -rat_limit() <= an <= rat_limit(),
                    1 <= bd <= rat_limit(),
            ;
            assert(bn * ad <= 0x7fff_ffff_ffff_ffff * 0x7fff_ffff_ffff_ffff
                && bn * ad >= -(0x7fff_ffff_ffff_ffff * 0x7fff_ffff_ffff_ffff)) by (nonlinear_arith)
                requires
                    -rat_limit() <= bn <= rat_limit(),
                    1 <= ad <= rat_limit(),
            ;
            assert(1 <= ad * bd <= 0x7fff_ffff_ffff_ffff * 0x7fff_ffff_ffff_ffff)
                by (nonlinear_arith)
                requires
                    1 <= ad <= rat_limit(),
                    1 <= bd <= rat_limit(),
            ;
        }
        let num: i128 = an * bd + bn * ad;
        let den: i128 = ad * bd;
        let neg: bool = num < 0;
        let mag: u128 = if num < 0 { (-num) as u128 } else { num as u128 };
        norm_parts(neg, mag, den as u128)
    }

    pub fn checked_prod(self, other: Num) -> (r: Option<Num>)
        ensures
            opt_num_view(r) == rat_prod(self@, other@),
    {
        proof {
            use_type_invariant(self);
            use_type_invariant(other);
        }
        let an: i128 = self.n as i128;
        let ad: i128 = self.d as i128;
        let bn: i128 = other.n as i128;
        let bd: i128 = other.d as i128;
        proof {
            assert(an * bn <= 0x7fff_ffff_ffff_ffff * 0x7fff_ffff_ffff_ffff
                && an * bn >= -(0x7fff_ffff_ffff_ffff * 0x7fff_ffff_ffff_ffff)) by (nonlinear_arith)
                requires
                    -rat_limit() <= an <= rat_limit(),
                    -rat_limit() <= bn <= rat_limit(),
            ;
            assert(1 <= ad * bd <= 0x7fff_ffff_ffff_ffff * 0x7fff_ffff_ffff_ffff)
                by (nonlinear_arith)
                requires
                    1 <= ad <= rat_limit(),
                    1 <= bd <= rat_limit(),
            ;
        }
        let num: i128 = an * bn;
        let den: i128 = ad * bd;
        let neg: bool = num < 0;
        let mag: u128 = if num < 0 { (-num) as u128 } else { num as u128 };
        norm_parts(neg, mag, den as u128)
    }

    pub fn checked_quot(self, other: Num) -> (r: Option<Num>)
        ensures
            opt_num_view(r) == rat_quot(self@, other@),
    {
        proof {
            use_type_invariant(self);
            use_type_invariant(other);
        }
        if other.n == 0 {
            return None;
        }
        let an: i128 = self.n as i128;
        let ad: i128 = self.d as i128;
        let bn: i128 = other.n as i128;
        let bd: i128 = other.d as i128;
        proof {
            assert(an * bd <= 0x7fff_ffff_ffff_ffff * 0x7fff_ffff_ffff_ffff
                && an * bd >= -(0x7fff_ffff_ffff_ffff * 0x7fff_ffff_ffff_ffff)) by (nonlinear_arith)
                requires
                    -rat_limit() <= an <= rat_limit(),
                    1 <= bd <= rat_limit(),
            ;
            assert((bn < 0 ==> 1 <= ad * -bn <= 0x7fff_ffff_ffff_ffff * 0x7fff_ffff_ffff_ffff)
                && (bn > 0 ==> 1 <= ad * bn <= 0x7fff_ffff_ffff_ffff * 0x7fff_ffff_ffff_ffff))
                by (nonlinear_arith)
                requires
                    1 <= ad <= rat_limit(),
                    -rat_limit() <= bn <= rat_limit(),
                    bn != 0,
            ;
        }
        let num: i128 = an * bd;
        let den: i128 = if bn < 0 { ad * (-bn) } else { ad * bn };
        let neg: bool = if bn < 0 { num > 0 } else { num < 0 };
        let mag: u128 = if num < 0 { (-num) as u128 } else { num as u128 };
        norm_parts(neg, mag, den as u128)
    }
}

} // verus!
