//! Exact rational numbers.
//!
//! Every quantity in the ledger — grams of a nutrient, a serving size, a
//! portion factor — is a rational number `num / den` held in machine
//! integers.  Arithmetic is exact: each operation either returns a value
//! denoting precisely the mathematical result, or reports that the result
//! does not fit.  Specifications speak about [`Ratio`], the same pair over
//! unbounded integers, related by cross-multiplication equality.
use vstd::arithmetic::div_mod::lemma_fundamental_div_mod;
use vstd::arithmetic::mul::{lemma_mul_is_commutative, lemma_mul_is_distributive_add_other_way};
use vstd::prelude::*;

use crate::text::{digit_char, digit_val, first_char, is_digit, is_digit_char};

verus! {

/// A rational number as a pair of unbounded integers, for specifications.
#[verifier::ext_equal]
pub struct Ratio {
    pub num: int,
    pub den: int,
}

/// A well-formed ratio has a positive denominator.
pub open spec fn ratio_wf(r: Ratio) -> bool {
    r.den >= 1
}

/// Two ratios denote the same rational number.
pub open spec fn ratio_eq(a: Ratio, b: Ratio) -> bool {
    a.num * b.den == b.num * a.den
}

/// The sum of two ratios.
pub open spec fn ratio_add(a: Ratio, b: Ratio) -> Ratio {
    Ratio { num: a.num * b.den + b.num * a.den, den: a.den * b.den }
}

/// The product of two ratios.
pub open spec fn ratio_mul(a: Ratio, b: Ratio) -> Ratio {
    Ratio { num: a.num * b.num, den: a.den * b.den }
}

/// The quotient `a / b`, with the sign kept in the numerator.
pub open spec fn ratio_div(a: Ratio, b: Ratio) -> Ratio {
    if b.num >= 0 {
        Ratio { num: a.num * b.den, den: a.den * b.num }
    } else {
        Ratio { num: -(a.num * b.den), den: -(a.den * b.num) }
    }
}

/// The ratio denoting the integer `n`.
pub open spec fn ratio_int(n: int) -> Ratio {
    Ratio { num: n, den: 1 }
}

/// `ratio_eq` is transitive on well-formed ratios.
pub proof fn lemma_ratio_eq_trans(a: Ratio, b: Ratio, c: Ratio)
    requires
        ratio_wf(a),
        ratio_wf(b),
        ratio_wf(c),
        ratio_eq(a, b),
        ratio_eq(b, c),
    ensures
        ratio_eq(a, c),
{
    assert((a.num * b.den) * c.den == (b.num * a.den) * c.den) by (nonlinear_arith)
        requires
            a.num * b.den == b.num * a.den,
    ;
    assert((b.num * c.den) * a.den == (c.num * b.den) * a.den) by (nonlinear_arith)
        requires
            b.num * c.den == c.num * b.den,
    ;
    assert((a.num * c.den) * b.den == (c.num * a.den) * b.den) by (nonlinear_arith)
        requires
            (a.num * b.den) * c.den == (b.num * a.den) * c.den,
            (b.num * c.den) * a.den == (c.num * b.den) * a.den,
    ;
    assert(a.num * c.den == c.num * a.den) by (nonlinear_arith)
        requires
            (a.num * c.den) * b.den == (c.num * a.den) * b.den,
            b.den >= 1,
    ;
}

/// The sum of well-formed ratios is well-formed.
pub proof fn lemma_ratio_add_wf(a: Ratio, b: Ratio)
    requires
        ratio_wf(a),
        ratio_wf(b),
    ensures
        ratio_wf(ratio_add(a, b)),
{
    assert(a.den * b.den >= 1) by (nonlinear_arith)
        requires
            a.den >= 1,
            b.den >= 1,
    ;
}

/// The product of well-formed ratios is well-formed.
pub proof fn lemma_ratio_mul_wf(a: Ratio, b: Ratio)
    requires
        ratio_wf(a),
        ratio_wf(b),
    ensures
        ratio_wf(ratio_mul(a, b)),
{
    assert(a.den * b.den >= 1) by (nonlinear_arith)
        requires
            a.den >= 1,
            b.den >= 1,
    ;
}

/// Addition respects `ratio_eq` in both arguments.
pub proof fn lemma_ratio_add_congr(a1: Ratio, a2: Ratio, b1: Ratio, b2: Ratio)
    requires
        ratio_wf(a1),
        ratio_wf(a2),
        ratio_wf(b1),
        ratio_wf(b2),
        ratio_eq(a1, a2),
        ratio_eq(b1, b2),
    ensures
        ratio_eq(ratio_add(a1, b1), ratio_add(a2, b2)),
{
    let n1 = a1.num;
    let d1 = a1.den;
    let n2 = a2.num;
    let d2 = a2.den;
    let m1 = b1.num;
    let e1 = b1.den;
    let m2 = b2.num;
    let e2 = b2.den;
    lemma_mul_is_distributive_add_other_way(d2 * e2, n1 * e1, m1 * d1);
    lemma_mul_shuffle(n1, e1, d2, e2);
    lemma_mul_shuffle(m1, d1, d2, e2);
    assert(m1 * e2 * (d1 * d2) == m1 * d2 * (d1 * e2)) by {
        lemma_mul_shuffle(m1, e2, d1, d2);
        lemma_mul_shuffle(m1, d2, d1, e2);
        lemma_mul_is_commutative(e2, d2);
    }
    assert((n1 * e1 + m1 * d1) * (d2 * e2) == (n1 * d2) * (e1 * e2) + (m1 * e2) * (d1 * d2));
    lemma_mul_is_distributive_add_other_way(d1 * e1, n2 * e2, m2 * d2);
    lemma_mul_shuffle(n2, e2, d1, e1);
    lemma_mul_shuffle(m2, d2, d1, e1);
    assert(n2 * d1 * (e2 * e1) == n2 * d1 * (e1 * e2)) by {
        lemma_mul_is_commutative(e2, e1);
    }
    assert(m2 * d1 * (d2 * e1) == m2 * e1 * (d1 * d2)) by {
        lemma_mul_shuffle(m2, d1, d2, e1);
        lemma_mul_shuffle(m2, e1, d2, d1);
        lemma_mul_is_commutative(d2, d1);
    }
    assert((n2 * e2 + m2 * d2) * (d1 * e1) == (n2 * d1) * (e1 * e2) + (m2 * e1) * (d1 * d2));
    assert((n1 * d2) * (e1 * e2) == (n2 * d1) * (e1 * e2)) by (nonlinear_arith)
        requires
            n1 * d2 == n2 * d1,
    ;
    assert((m1 * e2) * (d1 * d2) == (m2 * e1) * (d1 * d2)) by (nonlinear_arith)
        requires
            m1 * e2 == m2 * e1,
    ;
}

/// Multiplication respects `ratio_eq` in both arguments.
pub proof fn lemma_ratio_mul_congr(a1: Ratio, a2: Ratio, b1: Ratio, b2: Ratio)
    requires
        ratio_eq(a1, a2),
        ratio_eq(b1, b2),
    ensures
        ratio_eq(ratio_mul(a1, b1), ratio_mul(a2, b2)),
{
    assert((a1.num * b1.num) * (a2.den * b2.den) == (a2.num * b2.num) * (a1.den * b1.den))
        by (nonlinear_arith)
        requires
            a1.num * a2.den == a2.num * a1.den,
            b1.num * b2.den == b2.num * b1.den,
    ;
}

/// A rational number: `num / den` with `den >= 1`.
///
/// The pair is not kept reduced, so two values denoting the same number can
/// differ in their fields; `==` compares by cross-multiplication, the same
/// relation the specifications use.
#[derive(Clone, Copy, Debug)]
pub struct Rat {
    pub num: i64,
    pub den: i64,
}

impl View for Rat {
    type V = Ratio;

    open spec fn view(&self) -> Ratio {
        Ratio { num: self.num as int, den: self.den as int }
    }
}

impl PartialEq for Rat {
    /// Equality as rational numbers, by cross-multiplication.
    fn eq(&self, other: &Rat) -> (r: bool) {
        proof {
            lemma_i64_products_fit(self.num as int, other.den as int);
            lemma_i64_products_fit(other.num as int, self.den as int);
        }
        let l: i128 = (self.num as i128) * (other.den as i128);
        let rr: i128 = (other.num as i128) * (self.den as i128);
        l == rr
    }
}

impl vstd::std_specs::cmp::PartialEqSpecImpl for Rat {
    open spec fn obeys_eq_spec() -> bool {
        true
    }

    open spec fn eq_spec(&self, other: &Rat) -> bool {
        ratio_eq(self@, other@)
    }
}

impl Rat {
    /// A well-formed value has a positive denominator.
    pub open spec fn wf(self) -> bool {
        ratio_wf(self@)
    }

    /// Build `num / den`.  A denominator below 1 is replaced by 1, so the
    /// result is always well-formed.
    pub fn new(num: i64, den: i64) -> (r: Rat)
        ensures
            r.wf(),
            den >= 1 ==> r@ == (Ratio { num: num as int, den: den as int }),
    {
        if den >= 1 {
            Rat { num, den }
        } else {
            Rat { num, den: 1 }
        }
    }

    /// The rational denoting the integer `n`.
    pub fn from_int(n: i64) -> (r: Rat)
        ensures
            r.wf(),
            r@ == ratio_int(n as int),
    {
        Rat { num: n, den: 1 }
    }

    /// True when the value is zero.
    pub fn is_zero(&self) -> (r: bool)
        ensures
            r == (self@.num == 0),
    {
        self.num == 0
    }

    /// True when the value is strictly positive.
    pub fn is_pos(&self) -> (r: bool)
        requires
            self.wf(),
        ensures
            r == (self@.num > 0),
    {
        self.num > 0
    }

    /// Exact sum.  `None` means the result does not fit in this
    /// representation; on operands whose fields are at most two billion in
    /// magnitude it always succeeds.
    pub fn add(self, other: Rat) -> (r: Option<Rat>)
        requires
            self.wf(),
            other.wf(),
        ensures
            match r {
                Some(v) => {
                    &&& v.wf()
                    &&& ratio_eq(v@, ratio_add(self@, other@))
                    &&& rat_within(v@, ratio_add(rat_bound(self@), rat_bound(other@)))
                },
                None => true,
            },
            rat_small(self, 2000000000) && rat_small(other, 2000000000) ==> r is Some,
            bound_fits(ratio_add(rat_bound(self@), rat_bound(other@))) ==> r is Some,
    {
        proof {
            lemma_num_den_fit(self.num as int, other.den as int);
            lemma_num_den_fit(other.num as int, self.den as int);
            lemma_num_den_fit(self.den as int, other.den as int);
        }
        let num: i128 = (self.num as i128) * (other.den as i128) + (other.num as i128) * (self.den
            as i128);
        let den: i128 = (self.den as i128) * (other.den as i128);
        proof {
            assert(den >= 1) by (nonlinear_arith)
                requires
                    self.den >= 1,
                    other.den >= 1,
                    den == (self.den as i128) * (other.den as i128),
            ;
            let b = ratio_add(rat_bound(self@), rat_bound(other@));
            assert(mag(num as int) <= b.num && den == b.den) by (nonlinear_arith)
                requires
                    self.den >= 1,
                    other.den >= 1,
                    num == (self.num as i128) * (other.den as i128) + (other.num as i128) * (
                    self.den as i128),
                    den == (self.den as i128) * (other.den as i128),
                    b.num == mag(self@.num) * other@.den + mag(other@.num) * self@.den,
                    b.den == self@.den * other@.den,
                    mag(num as int) == (if num >= 0 { num as int } else { -(num as int) }),
                    mag(self@.num) == (if self@.num >= 0 { self@.num } else { -self@.num }),
                    mag(other@.num) == (if other@.num >= 0 { other@.num } else { -other@.num }),
            ;
            if rat_small(self, 2000000000) && rat_small(other, 2000000000) {
                assert(-0x7fffffffffffffff <= num <= 0x7fffffffffffffff && den
                    <= 0x7fffffffffffffff) by (nonlinear_arith)
                    requires
                        -2000000000 <= self.num <= 2000000000,
                        -2000000000 <= other.num <= 2000000000,
                        1 <= self.den <= 2000000000,
                        1 <= other.den <= 2000000000,
                        num == (self.num as i128) * (other.den as i128) + (other.num as i128) * (
                        self.den as i128),
                        den == (self.den as i128) * (other.den as i128),
                ;
            }
        }
        reduce_frac(num, den)
    }

    /// Exact product, under the same fitting rule as `add`.
    pub fn mul(self, other: Rat) -> (r: Option<Rat>)
        requires
            self.wf(),
            other.wf(),
        ensures
            match r {
                Some(v) => {
                    &&& v.wf()
                    &&& ratio_eq(v@, ratio_mul(self@, other@))
                    &&& rat_within(v@, ratio_mul(rat_bound(self@), rat_bound(other@)))
                },
                None => true,
            },
            rat_small(self, 2000000000) && rat_small(other, 2000000000) ==> r is Some,
            bound_fits(ratio_mul(rat_bound(self@), rat_bound(other@))) ==> r is Some,
    {
        proof {
            lemma_i64_products_fit(self.num as int, other.num as int);
            lemma_num_den_fit(self.den as int, other.den as int);
        }
        let num: i128 = (self.num as i128) * (other.num as i128);
        let den: i128 = (self.den as i128) * (other.den as i128);
        proof {
            assert(den >= 1) by (nonlinear_arith)
                requires
                    self.den >= 1,
                    other.den >= 1,
                    den == (self.den as i128) * (other.den as i128),
            ;
            let b = ratio_mul(rat_bound(self@), rat_bound(other@));
            assert(mag(num as int) <= b.num && den == b.den) by (nonlinear_arith)
                requires
                    self.den >= 1,
                    other.den >= 1,
                    num == (self.num as i128) * (other.num as i128),
                    den == (self.den as i128) * (other.den as i128),
                    b.num == mag(self@.num) * mag(other@.num),
                    b.den == self@.den * other@.den,
                    mag(num as int) == (if num >= 0 { num as int } else { -(num as int) }),
                    mag(self@.num) == (if self@.num >= 0 { self@.num } else { -self@.num }),
                    mag(other@.num) == (if other@.num >= 0 { other@.num } else { -other@.num }),
            ;
            if rat_small(self, 2000000000) && rat_small(other, 2000000000) {
                assert(-0x7fffffffffffffff <= num <= 0x7fffffffffffffff && den
                    <= 0x7fffffffffffffff) by (nonlinear_arith)
                    requires
                        -2000000000 <= self.num <= 2000000000,
                        -2000000000 <= other.num <= 2000000000,
                        1 <= self.den <= 2000000000,
                        1 <= other.den <= 2000000000,
                        num == (self.num as i128) * (other.num as i128),
                        den == (self.den as i128) * (other.den as i128),
                ;
            }
        }
        reduce_frac(num, den)
    }

    /// Exact quotient by a non-zero rational, under the same fitting rule
    /// as `add`.
    pub fn div(self, other: Rat) -> (r: Option<Rat>)
        requires
            self.wf(),
            other.wf(),
            other@.num != 0,
        ensures
            match r {
                Some(v) => {
                    &&& v.wf()
                    &&& ratio_eq(v@, ratio_div(self@, other@))
                    &&& rat_within(v@, bound_div(rat_bound(self@), rat_bound(other@)))
                },
                None => true,
            },
            rat_small(self, 2000000000) && rat_small(other, 2000000000) ==> r is Some,
            bound_fits(bound_div(rat_bound(self@), rat_bound(other@))) ==> r is Some,
    {
        proof {
            lemma_num_den_fit(self.num as int, other.den as int);
            lemma_i64_products_fit(self.den as int, other.num as int);
        }
        let mut num: i128 = (self.num as i128) * (other.den as i128);
        let mut den: i128 = (self.den as i128) * (other.num as i128);
        if other.num < 0 {
            num = -num;
            den = -den;
        }
        proof {
            assert(den >= 1) by (nonlinear_arith)
                requires
                    self.den >= 1,
                    other.num != 0,
                    other.num >= 0 ==> den == (self.den as i128) * (other.num as i128),
                    other.num < 0 ==> den == -((self.den as i128) * (other.num as i128)),
            ;
            let b = bound_div(rat_bound(self@), rat_bound(other@));
            assert(mag(num as int) <= b.num && den <= b.den) by (nonlinear_arith)
                requires
                    self.den >= 1,
                    other.den >= 1,
                    other.num != 0,
                    other.num >= 0 ==> num == (self.num as i128) * (other.den as i128) && den
                        == (self.den as i128) * (other.num as i128),
                    other.num < 0 ==> num == -((self.num as i128) * (other.den as i128)) && den
                        == -((self.den as i128) * (other.num as i128)),
                    b.num == mag(self@.num) * other@.den,
                    b.den == self@.den * mag(other@.num),
                    mag(num as int) == (if num >= 0 { num as int } else { -(num as int) }),
                    mag(self@.num) == (if self@.num >= 0 { self@.num } else { -self@.num }),
                    mag(other@.num) == (if other@.num >= 0 { other@.num } else { -other@.num }),
            ;
            if rat_small(self, 2000000000) && rat_small(other, 2000000000) {
                assert(-0x7fffffffffffffff <= num <= 0x7fffffffffffffff && den
                    <= 0x7fffffffffffffff) by (nonlinear_arith)
                    requires
                        -2000000000 <= self.num <= 2000000000,
                        -2000000000 <= other.num <= 2000000000,
                        1 <= self.den <= 2000000000,
                        1 <= other.den <= 2000000000,
                        other.num >= 0 ==> num == (self.num as i128) * (other.den as i128) && den
                            == (self.den as i128) * (other.num as i128),
                        other.num < 0 ==> num == -((self.num as i128) * (other.den as i128)) && den
                            == -((self.den as i128) * (other.num as i128)),
                ;
            }
        }
        reduce_frac(num, den)
    }
}

/// All fields of the value are at most `b` in magnitude.
pub open spec fn rat_small(r: Rat, b: int) -> bool {
    -b <= r@.num <= b && r@.den <= b
}

/// Products of four factors may be paired in either way.
pub proof fn lemma_mul_shuffle(a: int, b: int, c: int, d: int)
    ensures
        (a * b) * (c * d) == (a * c) * (b * d),
{
    assert((a * b) * (c * d) == (a * c) * (b * d)) by (nonlinear_arith);
}

/// The product of two i64 values fits inside i128.
proof fn lemma_i64_products_fit(a: int, b: int)
    requires
        -0x8000000000000000 <= a <= 0x7fffffffffffffff,
        -0x8000000000000000 <= b <= 0x7fffffffffffffff,
    ensures
        -0x40000000000000000000000000000000 <= a * b <= 0x40000000000000000000000000000000,
{
    assert(-0x40000000000000000000000000000000 <= a * b <= 0x40000000000000000000000000000000)
        by (nonlinear_arith)
        requires
            -0x8000000000000000 <= a <= 0x7fffffffffffffff,
            -0x8000000000000000 <= b <= 0x7fffffffffffffff,
    ;
}

/// The product of an i64 value with a positive i64 denominator stays well
/// clear of the i128 limits, so even a sum of two such products fits.
proof fn lemma_num_den_fit(a: int, d: int)
    requires
        -0x8000000000000000 <= a <= 0x7fffffffffffffff,
        1 <= d <= 0x7fffffffffffffff,
    ensures
        -0x3fffffffffffffff8000000000000000 <= a * d <= 0x3fffffffffffffff8000000000000000,
{
    assert(-0x3fffffffffffffff8000000000000000 <= a * d <= 0x3fffffffffffffff8000000000000000)
        by (nonlinear_arith)
        requires
            -0x8000000000000000 <= a <= 0x7fffffffffffffff,
            1 <= d <= 0x7fffffffffffffff,
    ;
}

/// Greatest common divisor by Euclid's algorithm; only positivity is
/// promised, the divisibility facts the callers need are re-checked by them
/// at run time.
fn gcd_u128(a: u128, b: u128) -> (g: u128)
    ensures
        g >= 1,
{
    let mut x = a;
    let mut y = b;
    while y != 0
        invariant
            true,
        decreases y,
    {
        let t = x % y;
        x = y;
        y = t;
    }
    if x == 0 {
        1
    } else {
        x
    }
}

/// Bring `num / den` into `Rat`'s range, dividing out a common factor
/// first.  `None` means even the reduced pair does not fit in i64.
fn reduce_frac(num: i128, den: i128) -> (r: Option<Rat>)
    requires
        den >= 1,
        num > -0x80000000000000000000000000000000,
    ensures
        match r {
            Some(v) => {
                &&& v.wf()
                &&& ratio_eq(v@, Ratio { num: num as int, den: den as int })
                &&& mag(v@.num) <= mag(num as int)
                &&& v@.den <= den
            },
            None => true,
        },
        -0x7fffffffffffffff <= num <= 0x7fffffffffffffff && den <= 0x7fffffffffffffff ==> r
            is Some,
{
    let neg = num < 0;
    let mag: u128 = if neg {
        (-num) as u128
    } else {
        num as u128
    };
    let dmag: u128 = den as u128;
    let g0 = gcd_u128(mag, dmag);
    let g: u128 = if mag % g0 == 0 && dmag % g0 == 0 {
        g0
    } else {
        1
    };
    assert(mag % g == 0 && dmag % g == 0 && g >= 1);
    let rn = mag / g;
    let rd = dmag / g;
    proof {
        lemma_fundamental_div_mod(mag as int, g as int);
        lemma_fundamental_div_mod(dmag as int, g as int);
        assert(mag == g * rn && dmag == g * rd);
        assert(rd >= 1) by (nonlinear_arith)
            requires
                dmag == g * rd,
                dmag >= 1,
                g >= 1,
                rd >= 0,
        ;
        assert(rn <= mag && rd <= dmag) by (nonlinear_arith)
            requires
                mag == g * rn,
                dmag == g * rd,
                g >= 1,
                rn >= 0,
                rd >= 0,
        ;
    }
    if rn <= 0x7fffffffffffffff && rd <= 0x7fffffffffffffff {
        let n64: i64 = if neg {
            -(rn as i64)
        } else {
            rn as i64
        };
        let d64: i64 = rd as i64;
        let v = Rat { num: n64, den: d64 };
        proof {
            assert(v@.num * (den as int) == (num as int) * v@.den) by (nonlinear_arith)
                requires
                    mag == g * rn,
                    dmag == g * rd,
                    g >= 1,
                    neg ==> v@.num == -(rn as int) && num == -(mag as int),
                    !neg ==> v@.num == rn as int && num == mag as int,
                    v@.den == rd as int,
                    den == dmag as int,
            ;
        }
        Some(v)
    } else {
        None
    }
}

} // verus!

verus! {

/// Ten to the power `k`.
pub open spec fn pow10(k: nat) -> int
    decreases k,
{
    if k == 0 {
        1
    } else {
        10 * pow10((k - 1) as nat)
    }
}

/// True of 1, 10, 100, ...
pub open spec fn is_pow10(d: int) -> bool
    decreases d,
{
    if d < 1 {
        false
    } else if d == 1 {
        true
    } else if d % 10 != 0 {
        false
    } else {
        is_pow10(d / 10)
    }
}

/// The exponent of a power of ten.
pub open spec fn pow10_log(d: int) -> nat
    decreases d,
{
    if d <= 1 {
        0
    } else {
        pow10_log(d / 10) + 1
    }
}

/// Powers of ten are positive.
pub proof fn lemma_pow10_pos(k: nat)
    ensures
        pow10(k) >= 1,
    decreases k,
{
    if k > 0 {
        lemma_pow10_pos((k - 1) as nat);
    }
}

/// `pow10` produces powers of ten, and `pow10_log` inverts it.
pub proof fn lemma_pow10_is_pow10(k: nat)
    ensures
        is_pow10(pow10(k)),
        pow10_log(pow10(k)) == k,
    decreases k,
{
    if k == 0 {
    } else {
        lemma_pow10_is_pow10((k - 1) as nat);
        lemma_pow10_pos((k - 1) as nat);
        let p = pow10((k - 1) as nat);
        assert(pow10(k) == 10 * p);
        assert((10 * p) % 10 == 0 && (10 * p) / 10 == p) by (nonlinear_arith)
            requires
                p >= 1,
        ;
    }
}

/// A power of ten is `pow10` of its own logarithm.
pub proof fn lemma_pow10_log(d: int)
    requires
        is_pow10(d),
    ensures
        d == pow10(pow10_log(d)),
    decreases d,
{
    if d > 1 {
        lemma_pow10_log(d / 10);
        assert(d == 10 * (d / 10)) by (nonlinear_arith)
            requires
                d % 10 == 0,
                d > 1,
        ;
    }
}

/// All characters are ASCII digits.
pub open spec fn all_digits(s: Seq<char>) -> bool {
    forall|i: int| 0 <= i < s.len() ==> is_digit(s[i])
}

/// The decimal digits of a natural number, most significant first.
pub open spec fn dec_digits(n: nat) -> Seq<char>
    decreases n,
{
    if n < 10 {
        seq![digit_char(n as int)]
    } else {
        dec_digits(n / 10) + seq![digit_char((n % 10) as int)]
    }
}

/// The numeric value of a digit string.
pub open spec fn digits_val(s: Seq<char>) -> int
    decreases s.len(),
{
    if s.len() == 0 {
        0
    } else {
        digits_val(s.drop_last()) * 10 + digit_val(s.last())
    }
}

/// A digit string denotes a non-negative number.
pub proof fn lemma_digits_val_nonneg(s: Seq<char>)
    requires
        all_digits(s),
    ensures
        digits_val(s) >= 0,
    decreases s.len(),
{
    if s.len() > 0 {
        lemma_digits_val_nonneg(s.drop_last());
        assert(digits_val(s.drop_last()) * 10 >= 0) by (nonlinear_arith)
            requires
                digits_val(s.drop_last()) >= 0,
        ;
    }
}

/// Reading back the digit written for a value below ten gives the value.
proof fn lemma_digit_char_val(d: int)
    requires
        0 <= d < 10,
    ensures
        is_digit(digit_char(d)),
        digit_val(digit_char(d)) == d,
{
    assert('0' as u32 == 48 && '1' as u32 == 49 && '2' as u32 == 50 && '3' as u32 == 51 && '4'
        as u32 == 52 && '5' as u32 == 53 && '6' as u32 == 54 && '7' as u32 == 55 && '8' as u32 == 56
        && '9' as u32 == 57);
}

/// `dec_digits` writes digits only, at least one, and reading them back
/// gives the number itself.
pub proof fn lemma_dec_digits(n: nat)
    ensures
        all_digits(dec_digits(n)),
        dec_digits(n).len() >= 1,
        digits_val(dec_digits(n)) == n,
    decreases n,
{
    if n < 10 {
        let s = dec_digits(n);
        assert(s.drop_last() =~= Seq::<char>::empty());
        lemma_digit_char_val(n as int);
        assert(s.last() == digit_char(n as int));
        assert(digits_val(s) == digits_val(Seq::<char>::empty()) * 10 + digit_val(s.last()));
    } else {
        lemma_dec_digits(n / 10);
        let a = dec_digits(n / 10);
        let d = (n % 10) as int;
        let s = a + seq![digit_char(d)];
        assert(s.drop_last() =~= a);
        assert(s.last() == digit_char(d));
        assert(0 <= d < 10) by {
            vstd::arithmetic::div_mod::lemma_mod_bound(n as int, 10);
        }
        lemma_digit_char_val(d);
        vstd::arithmetic::div_mod::lemma_fundamental_div_mod(n as int, 10);
        assert(digits_val(s) == (n / 10) * 10 + d);
        assert(forall|i: int| 0 <= i < s.len() ==> is_digit(#[trigger] s[i]));
    }
}

/// Concatenating digit strings multiplies the front by the right power of
/// ten and adds the back.
pub proof fn lemma_digits_val_append(a: Seq<char>, b: Seq<char>)
    ensures
        digits_val(a + b) == digits_val(a) * pow10(b.len()) + digits_val(b),
    decreases b.len(),
{
    if b.len() == 0 {
        assert(a + b =~= a);
    } else {
        let b0 = b.drop_last();
        lemma_digits_val_append(a, b0);
        assert((a + b).drop_last() =~= a + b0);
        assert((a + b).last() == b.last());
        assert(digits_val(a + b) == (digits_val(a) * pow10(b0.len()) + digits_val(b0)) * 10
            + digit_val(b.last()));
        assert((digits_val(a) * pow10(b0.len())) * 10 == digits_val(a) * (10 * pow10(b0.len())))
            by (nonlinear_arith)
        ;
        assert(pow10(b.len()) == 10 * pow10(b0.len()));
    }
}

/// A run of zero characters.
pub open spec fn zeros(m: nat) -> Seq<char> {
    Seq::new(m, |i: int| '0')
}

/// `s` left-padded with zeros to at least `m` characters.
pub open spec fn zero_pad(s: Seq<char>, m: nat) -> Seq<char> {
    if s.len() >= m {
        s
    } else {
        zeros((m - s.len()) as nat) + s
    }
}

/// Zeros carry no value.
pub proof fn lemma_zeros_val(m: nat)
    ensures
        all_digits(zeros(m)),
        digits_val(zeros(m)) == 0,
    decreases m,
{
    if m > 0 {
        lemma_zeros_val((m - 1) as nat);
        assert(zeros(m).drop_last() =~= zeros((m - 1) as nat));
        assert(zeros(m).last() == '0');
        lemma_digit_char_val(0);
        assert(digit_val('0') == 0);
    }
}

/// Zero padding changes only the length of a digit string.
pub proof fn lemma_zero_pad(s: Seq<char>, m: nat)
    requires
        all_digits(s),
    ensures
        all_digits(zero_pad(s, m)),
        digits_val(zero_pad(s, m)) == digits_val(s),
        zero_pad(s, m).len() == if s.len() >= m {
            s.len()
        } else {
            m
        },
{
    if s.len() < m {
        let z = zeros((m - s.len()) as nat);
        lemma_zeros_val((m - s.len()) as nat);
        lemma_digits_val_append(z, s);
        assert(digits_val(z) * pow10(s.len()) == 0) by (nonlinear_arith)
            requires
                digits_val(z) == 0,
        ;
        assert(forall|i: int|
            0 <= i < zero_pad(s, m).len() ==> is_digit(#[trigger] zero_pad(s, m)[i]));
    }
}

} // verus!

verus! {

/// `pow10` grows strictly faster than its argument.
pub proof fn lemma_pow10_gt(k: nat)
    ensures
        pow10(k) > k,
    decreases k,
{
    if k > 0 {
        lemma_pow10_gt((k - 1) as nat);
        assert(10 * pow10((k - 1) as nat) > k) by (nonlinear_arith)
            requires
                pow10((k - 1) as nat) > k - 1,
                k >= 1,
        ;
    }
}

/// `pow10` is monotone.
pub proof fn lemma_pow10_mono(a: nat, b: nat)
    requires
        a <= b,
    ensures
        pow10(a) <= pow10(b),
    decreases b,
{
    if a < b {
        lemma_pow10_mono(a, (b - 1) as nat);
        lemma_pow10_pos((b - 1) as nat);
        assert(10 * pow10((b - 1) as nat) >= pow10((b - 1) as nat)) by (nonlinear_arith)
            requires
                pow10((b - 1) as nat) >= 1,
        ;
    }
}

/// `init` carried over the digits of `s`.
pub open spec fn accum_val(init: int, s: Seq<char>) -> int {
    init * pow10(s.len()) + digits_val(s)
}

/// The accumulated value is never negative.
proof fn lemma_accum_nonneg(init: int, s: Seq<char>)
    requires
        init >= 0,
        all_digits(s),
    ensures
        accum_val(init, s) >= 0,
{
    lemma_digits_val_nonneg(s);
    lemma_pow10_pos(s.len());
    assert(init * pow10(s.len()) >= 0) by (nonlinear_arith)
        requires
            init >= 0,
            pow10(s.len()) >= 1,
    ;
}

/// Accumulating one more digit multiplies by ten and adds it.
proof fn lemma_accum_step(init: int, s: Seq<char>, j: int)
    requires
        0 <= j < s.len(),
    ensures
        accum_val(init, s.take(j + 1)) == accum_val(init, s.take(j)) * 10 + digit_val(s[j]),
{
    assert(s.take(j + 1).drop_last() =~= s.take(j));
    assert(s.take(j + 1).last() == s[j]);
    assert(init * pow10((j + 1) as nat) == (init * pow10(j as nat)) * 10) by (nonlinear_arith)
        requires
            pow10((j + 1) as nat) == 10 * pow10(j as nat),
    ;
    assert(pow10((j + 1) as nat) == 10 * pow10(j as nat));
}

/// The accumulated value over a prefix never exceeds the value over the
/// whole digit string.
proof fn lemma_accum_mono(init: int, s: Seq<char>, j: int)
    requires
        0 <= j <= s.len(),
        init >= 0,
        all_digits(s),
    ensures
        accum_val(init, s.take(j)) <= accum_val(init, s),
    decreases s.len() - j,
{
    if j == s.len() {
        assert(s.take(j) =~= s);
    } else {
        lemma_accum_step(init, s, j);
        assert(all_digits(s.take(j))) by {
            assert(forall|i: int| 0 <= i < j ==> s.take(j)[i] == s[i]);
        }
        lemma_accum_nonneg(init, s.take(j));
        assert(accum_val(init, s.take(j)) * 10 >= accum_val(init, s.take(j))) by (nonlinear_arith)
            requires
                accum_val(init, s.take(j)) >= 0,
        ;
        assert(digit_val(s[j]) >= 0);
        lemma_accum_mono(init, s, j + 1);
    }
}

/// Append one decimal digit character to a string.
fn push_digit(s: &mut String, d: u64)
    requires
        d < 10,
    ensures
        final(s)@ == old(s)@.push(digit_char(d as int)),
{
    proof {
        reveal_strlit("0");
        reveal_strlit("1");
        reveal_strlit("2");
        reveal_strlit("3");
        reveal_strlit("4");
        reveal_strlit("5");
        reveal_strlit("6");
        reveal_strlit("7");
        reveal_strlit("8");
        reveal_strlit("9");
    }
    if d == 0 {
        s.append("0");
    } else if d == 1 {
        s.append("1");
    } else if d == 2 {
        s.append("2");
    } else if d == 3 {
        s.append("3");
    } else if d == 4 {
        s.append("4");
    } else if d == 5 {
        s.append("5");
    } else if d == 6 {
        s.append("6");
    } else if d == 7 {
        s.append("7");
    } else if d == 8 {
        s.append("8");
    } else {
        s.append("9");
    }
    proof {
        assert(final(s)@ =~= old(s)@.push(digit_char(d as int)));
    }
}

/// Write a natural number in decimal.
fn fmt_u64(n: u64) -> (s: String)
    ensures
        s@ == dec_digits(n as nat),
    decreases n,
{
    if n < 10 {
        let mut s = String::new();
        push_digit(&mut s, n);
        proof {
            assert(s@ =~= dec_digits(n as nat));
        }
        s
    } else {
        let mut s = fmt_u64(n / 10);
        push_digit(&mut s, n % 10);
        proof {
            assert(s@ =~= dec_digits((n / 10) as nat) + seq![
                digit_char(((n as nat) % 10) as int),
            ]);
        }
        s
    }
}

/// Compute a power of ten, or report that it exceeds the representation.
fn pow10_checked(k: usize) -> (r: Option<i64>)
    ensures
        match r {
            Some(d) => d == pow10(k as nat) && 1 <= d,
            None => pow10(k as nat) > 0x7fffffffffffffff,
        },
{
    let mut d: i64 = 1;
    let mut i: usize = 0;
    while i < k
        invariant
            0 <= i <= k,
            d == pow10(i as nat),
            1 <= d,
        decreases k - i,
    {
        if d > 0x7fffffffffffffff / 10 {
            proof {
                assert(10 * (d as int) > 0x7fffffffffffffff) by (nonlinear_arith)
                    requires
                        (d as int) > 0x7fffffffffffffffint / 10,
                ;
                lemma_pow10_mono(((i + 1) as nat), k as nat);
            }
            return None;
        }
        d = d * 10;
        i = i + 1;
    }
    Some(d)
}

/// Read a run of digits, carrying `init` as the value already read.
/// Fails on a non-digit or when the value leaves the representation.
fn accum_digits(s: &str, init: i64) -> (r: Option<i64>)
    requires
        0 <= init,
    ensures
        match r {
            Some(v) => all_digits(s@) && v == accum_val(init as int, s@) && 0 <= v
                <= 0x7fffffffffffffff,
            None => !all_digits(s@) || accum_val(init as int, s@) > 0x7fffffffffffffff,
        },
{
    let n = s.unicode_len();
    let mut val: i64 = init;
    let mut i: usize = 0;
    proof {
        assert(s@.take(0) =~= Seq::<char>::empty());
        assert(init * pow10(0) == init) by (nonlinear_arith)
            requires
                pow10(0) == 1,
        ;
    }
    while i < n
        invariant
            0 <= i <= n,
            n == s@.len(),
            0 <= init,
            all_digits(s@.take(i as int)),
            val == accum_val(init as int, s@.take(i as int)),
            0 <= val <= 0x7fffffffffffffff,
        decreases n - i,
    {
        let c = s.get_char(i);
        if !is_digit_char(c) {
            return None;
        }
        let d: i64 = ((c as u32) - 48) as i64;
        proof {
            lemma_accum_step(init as int, s@, i as int);
        }
        if val > (0x7fffffffffffffff - d) / 10 {
            proof {
                assert((val as int) * 10 + d > 0x7fffffffffffffff) by (nonlinear_arith)
                    requires
                        (val as int) > (0x7fffffffffffffffint - (d as int)) / 10,
                        0 <= (d as int) < 10,
                ;
                if all_digits(s@) {
                    lemma_accum_mono(init as int, s@, i + 1);
                }
            }
            return None;
        }
        val = val * 10 + d;
        proof {
            assert(all_digits(s@.take(i + 1))) by {
                assert(forall|q: int|
                    0 <= q < i + 1 ==> s@.take(i + 1)[q] == s@[q]);
            }
        }
        i = i + 1;
    }
    proof {
        assert(s@.take(n as int) =~= s@);
    }
    Some(val)
}

/// What a digit-and-dot literal denotes: an unsigned decimal number,
/// `None` when the text is not of the form `[0-9]*\.?[0-9]+` or when the
/// value leaves the representation.
pub open spec fn spec_parse_udec(s: Seq<char>) -> Option<Ratio> {
    let di = first_char(s, '.');
    if di == -1 {
        if s.len() >= 1 && all_digits(s) && digits_val(s) <= 0x7fffffffffffffff {
            Some(Ratio { num: digits_val(s), den: 1 })
        } else {
            None
        }
    } else {
        let ip = s.take(di);
        let fp = s.skip(di + 1);
        if all_digits(ip) && all_digits(fp) && fp.len() >= 1 && digits_val(ip + fp)
            <= 0x7fffffffffffffff && pow10(fp.len()) <= 0x7fffffffffffffff {
            Some(Ratio { num: digits_val(ip + fp), den: pow10(fp.len()) })
        } else {
            None
        }
    }
}

/// A decimal literal with an optional leading minus sign.
pub open spec fn spec_parse_dec(s: Seq<char>) -> Option<Ratio> {
    if s.len() >= 1 && s[0] == '-' {
        match spec_parse_udec(s.skip(1)) {
            Some(r) => Some(Ratio { num: -r.num, den: r.den }),
            None => None,
        }
    } else {
        spec_parse_udec(s)
    }
}

/// Parse an unsigned decimal literal.
pub fn parse_udec(s: &str) -> (r: Option<Rat>)
    ensures
        match r {
            Some(v) => {
                &&& spec_parse_udec(s@) == Some(v@)
                &&& v.wf()
                &&& is_pow10(v@.den)
                &&& 0 <= v@.num <= 0x7fffffffffffffff
                &&& v@.den <= 0x7fffffffffffffff
            },
            None => spec_parse_udec(s@) is None,
        },
{
    let n = s.unicode_len();
    match find_dot(s) {
        None => {
            if n == 0 {
                return None;
            }
            match accum_digits(s, 0) {
                Some(v) => {
                    proof {
                        assert(0 * pow10(s@.len()) == 0) by (nonlinear_arith);
                    }
                    Some(Rat { num: v, den: 1 })
                },
                None => {
                    proof {
                        if all_digits(s@) {
                            assert(0 * pow10(s@.len()) == 0) by (nonlinear_arith);
                        }
                    }
                    None
                },
            }
        },
        Some(j) => {
            let ip = s.substring_char(0, j);
            let fp = s.substring_char(j + 1, n);
            proof {
                assert(ip@ =~= s@.take(j as int));
                assert(fp@ =~= s@.skip(j + 1));
            }
            let kf = fp.unicode_len();
            if kf == 0 {
                return None;
            }
            match accum_digits(ip, 0) {
                None => {
                    proof {
                        if all_digits(ip@) && all_digits(fp@) {
                            lemma_digits_val_append(ip@, fp@);
                            lemma_digits_val_nonneg(fp@);
                            lemma_pow10_pos(fp@.len());
                            assert(0 * pow10(ip@.len()) == 0) by (nonlinear_arith);
                            assert(digits_val(ip@) * pow10(fp@.len()) >= digits_val(ip@))
                                by (nonlinear_arith)
                                requires
                                    digits_val(ip@) >= 0,
                                    pow10(fp@.len()) >= 1,
                            ;
                            lemma_digits_val_nonneg(ip@);
                        }
                    }
                    None
                },
                Some(v1) => {
                    proof {
                        assert(0 * pow10(ip@.len()) == 0) by (nonlinear_arith);
                        lemma_digits_val_append(ip@, fp@);
                    }
                    match accum_digits(fp, v1) {
                        None => None,
                        Some(v2) => {
                            match pow10_checked(kf) {
                                None => None,
                                Some(d) => {
                                    proof {
                                        lemma_pow10_is_pow10(kf as nat);
                                        assert(v2 == digits_val(ip@ + fp@));
                                    }
                                    Some(Rat { num: v2, den: d })
                                },
                            }
                        },
                    }
                },
            }
        },
    }
}

/// Find the first dot, with the `first_char` characterization.
fn find_dot(s: &str) -> (r: Option<usize>)
    ensures
        match r {
            Some(j) => 0 <= j < s@.len() && first_char(s@, '.') == j,
            None => first_char(s@, '.') == -1,
        },
{
    let n = s.unicode_len();
    let mut i: usize = 0;
    while i < n
        invariant
            0 <= i <= n,
            n == s@.len(),
            forall|q: int| 0 <= q < i ==> s@[q] != '.',
        decreases n - i,
    {
        if s.get_char(i) == '.' {
            proof {
                crate::text::lemma_first_char_is(s@, '.', i as int);
            }
            return Some(i);
        }
        i = i + 1;
    }
    proof {
        crate::text::lemma_first_char_none(s@, '.');
    }
    None
}

/// Parse a decimal literal with an optional leading minus sign.
pub fn parse_dec(s: &str) -> (r: Option<Rat>)
    ensures
        match r {
            Some(v) => {
                &&& spec_parse_dec(s@) == Some(v@)
                &&& v.wf()
                &&& is_pow10(v@.den)
                &&& -0x7fffffffffffffff <= v@.num <= 0x7fffffffffffffff
                &&& v@.den <= 0x7fffffffffffffff
            },
            None => spec_parse_dec(s@) is None,
        },
{
    let n = s.unicode_len();
    if n >= 1 && s.get_char(0) == '-' {
        let body = s.substring_char(1, n);
        proof {
            assert(body@ =~= s@.skip(1));
        }
        match parse_udec(body) {
            Some(v) => Some(Rat { num: -v.num, den: v.den }),
            None => None,
        }
    } else {
        parse_udec(s)
    }
}

} // verus!

verus! {

/// The canonical text of `num` scaled down by ten to the `k`: the digits of
/// the magnitude, zero-padded so that a dot can sit `k` places from the
/// right, with a minus sign for negative numbers.
pub open spec fn dec_render(num: int, k: nat) -> Seq<char> {
    let mag = (if num >= 0 {
        num
    } else {
        -num
    }) as nat;
    let ds = zero_pad(dec_digits(mag), k + 1);
    let body = if k == 0 {
        ds
    } else {
        ds.take(ds.len() - k) + seq!['.'] + ds.skip(ds.len() - k)
    };
    if num < 0 {
        seq!['-'] + body
    } else {
        body
    }
}

/// The canonical text of a ratio whose denominator is a power of ten.
pub open spec fn spec_render(r: Ratio) -> Seq<char> {
    dec_render(r.num, pow10_log(r.den))
}

/// A value that the decimal codec round-trips: positive power-of-ten
/// denominator, numerator within the symmetric representation range.
pub open spec fn ratio_decimal(r: Ratio) -> bool {
    &&& ratio_wf(r)
    &&& is_pow10(r.den)
    &&& -0x7fffffffffffffff <= r.num <= 0x7fffffffffffffff
    &&& r.den <= 0x7fffffffffffffff
}

impl Rat {
    /// The value is in decimal form: its denominator is a power of ten.
    pub open spec fn decimal(self) -> bool {
        ratio_decimal(self@)
    }

    /// Executable test for `decimal`.
    pub fn is_decimal(&self) -> (r: bool)
        ensures
            r == self.decimal(),
    {
        if self.num == -0x8000000000000000 {
            return false;
        }
        let mut d = self.den;
        if d < 1 {
            return false;
        }
        while d > 1
            invariant
                d >= 1,
                is_pow10(d as int) == is_pow10(self.den as int),
                self.den >= 1,
            decreases d,
        {
            if d % 10 != 0 {
                return false;
            }
            d = d / 10;
        }
        true
    }

    /// Render the value as decimal text.
    pub fn render(&self) -> (s: String)
        requires
            self.decimal(),
        ensures
            s@ == spec_render(self@),
    {
        let mut k: usize = 0;
        let mut d = self.den;
        proof {
            lemma_pow10_pos(0);
        }
        while d > 1
            invariant
                d >= 1,
                is_pow10(d as int),
                self.den == (d as int) * pow10(k as nat),
                pow10_log(self@.den) == pow10_log(d as int) + k,
                pow10(k as nat) <= self.den,
                k <= 18,
                self.decimal(),
            decreases d,
        {
            proof {
                assert(d % 10 == 0 && is_pow10(d as int / 10));
                lemma_fundamental_div_mod(d as int, 10);
                lemma_pow10_pos((k + 1) as nat);
                assert(pow10((k + 1) as nat) == 10 * pow10(k as nat));
                assert(d as int / 10 >= 1) by (nonlinear_arith)
                    requires
                        d as int > 1,
                        d == 10 * (d as int / 10),
                ;
                assert(self.den == ((d as int) / 10) * pow10((k + 1) as nat)) by (nonlinear_arith)
                    requires
                        self.den == (d as int) * pow10(k as nat),
                        d == 10 * (d as int / 10),
                        pow10((k + 1) as nat) == 10 * pow10(k as nat),
                ;
                assert(pow10((k + 1) as nat) <= self.den) by (nonlinear_arith)
                    requires
                        self.den == ((d as int) / 10) * pow10((k + 1) as nat),
                        (d as int) / 10 >= 1,
                        pow10((k + 1) as nat) >= 1,
                ;
                lemma_pow10_gt((k + 1) as nat);
                if k + 1 > 18 {
                    assert(pow10(19) > 0x7fffffffffffffff) by {
                        reveal_with_fuel(pow10, 21);
                    }
                    lemma_pow10_mono(19, (k + 1) as nat);
                }
            }
            d = d / 10;
            k = k + 1;
        }
        let ghost kk = k as nat;
        proof {
            assert(pow10_log(self@.den) == kk);
            assert(self.den == pow10(kk)) by (nonlinear_arith)
                requires
                    self.den == (d as int) * pow10(kk),
                    d == 1,
            ;
        }
        let neg = self.num < 0;
        let mag: u64 = if neg {
            (-self.num) as u64
        } else {
            self.num as u64
        };
        let digits = fmt_u64(mag);
        proof {
            lemma_dec_digits(mag as nat);
        }
        let dl = digits.as_str().unicode_len();
        let mut padded = String::new();
        let mut c: usize = dl;
        while c < k + 1
            invariant
                dl <= c,
                c <= k + 1 || c == dl,
                k <= 18,
                dl == digits@.len(),
                padded@ =~= zeros((c - dl) as nat),
            decreases k + 1 - c,
        {
            proof {
                reveal_strlit("0");
                assert(zeros((c + 1 - dl) as nat) =~= zeros((c - dl) as nat) + seq!['0']);
            }
            padded.append("0");
            c = c + 1;
        }
        padded.append(digits.as_str());
        proof {
            assert(padded@ =~= zero_pad(dec_digits(mag as nat), (kk + 1) as nat));
            lemma_zero_pad(dec_digits(mag as nat), (kk + 1) as nat);
        }
        let pl = padded.as_str().unicode_len();
        let mut out = String::new();
        if neg {
            proof {
                reveal_strlit("-");
            }
            out.append("-");
        }
        if k == 0 {
            out.append(padded.as_str());
            proof {
                assert(out@ =~= spec_render(self@));
            }
            out
        } else {
            let head = padded.as_str().substring_char(0, pl - k);
            let tail = padded.as_str().substring_char(pl - k, pl);
            out.append(head);
            proof {
                reveal_strlit(".");
            }
            out.append(".");
            out.append(tail);
            proof {
                let ds = zero_pad(dec_digits(mag as nat), (kk + 1) as nat);
                assert(head@ =~= ds.take(ds.len() - kk));
                assert(tail@ =~= ds.skip(ds.len() - kk));
                assert(out@ =~= spec_render(self@));
            }
            out
        }
    }
}

/// Reading back the canonical text of a decimal value gives the value
/// itself, field for field.
pub proof fn lemma_dec_round_trip(r: Ratio)
    requires
        ratio_decimal(r),
    ensures
        spec_parse_dec(spec_render(r)) == Some(r),
{
    let k = pow10_log(r.den);
    lemma_pow10_log(r.den);
    let mag = (if r.num >= 0 {
        r.num
    } else {
        -r.num
    }) as nat;
    let ds0 = dec_digits(mag);
    lemma_dec_digits(mag);
    let ds = zero_pad(ds0, (k + 1) as nat);
    lemma_zero_pad(ds0, (k + 1) as nat);
    let body = if k == 0 {
        ds
    } else {
        ds.take(ds.len() - k) + seq!['.'] + ds.skip(ds.len() - k)
    };
    assert('-' as u32 == 45 && '.' as u32 == 46);
    assert(!is_digit('-') && !is_digit('.'));
    if k == 0 {
        assert(body.len() >= 1 && is_digit(body[0]));
        lemma_first_char_none_digits(body);
        assert(spec_parse_udec(body) == Some(Ratio { num: mag as int, den: 1 }));
    } else {
        let l = ds.len();
        let ip = ds.take(l - k);
        let fp = ds.skip(l - k);
        assert(l >= k + 1);
        assert forall|i: int| 0 <= i < l - k implies body[i] != '.' by {
            assert(body[i] == ip[i]);
            assert(is_digit(ds[i]));
        }
        assert(body[l - k] == '.');
        crate::text::lemma_first_char_is(body, '.', l - k);
        assert(body.take(l - k) =~= ip);
        assert(body.skip(l - k + 1) =~= fp);
        assert(all_digits(ip)) by {
            assert(forall|i: int| 0 <= i < ip.len() ==> ip[i] == ds[i]);
        }
        assert(all_digits(fp)) by {
            assert(forall|i: int| 0 <= i < fp.len() ==> fp[i] == ds[i + l - k]);
        }
        assert(fp.len() == k);
        assert(ip + fp =~= ds);
        assert(digits_val(ip + fp) == mag);
        assert(spec_parse_udec(body) == Some(Ratio { num: mag as int, den: pow10(k) }));
    }
    if r.num < 0 {
        let rendered = seq!['-'] + body;
        assert(rendered[0] == '-');
        assert(rendered.skip(1) =~= body);
        assert(spec_parse_dec(rendered) == Some(Ratio { num: -(mag as int), den: r.den }));
        assert(-(mag as int) == r.num);
    } else {
        assert(body[0] != '-') by {
            assert(is_digit(body[0]));
        }
        assert(spec_render(r) == body);
    }
}

/// A digit string holds no dot.
proof fn lemma_first_char_none_digits(s: Seq<char>)
    requires
        all_digits(s),
    ensures
        first_char(s, '.') == -1,
{
    assert('.' as u32 == 46);
    assert forall|i: int| 0 <= i < s.len() implies s[i] != '.' by {
        assert(is_digit(s[i]));
    }
    crate::text::lemma_first_char_none(s, '.');
}

} // verus!

verus! {

/// The canonical text of a non-negative decimal value is made of digits
/// and at most one dot; it starts and ends with a digit.
pub proof fn lemma_render_chars(r: Ratio)
    requires
        ratio_decimal(r),
        r.num >= 0,
    ensures
        spec_render(r).len() >= 1,
        is_digit(spec_render(r)[0]),
        is_digit(spec_render(r)[spec_render(r).len() - 1]),
        forall|i: int|
            0 <= i < spec_render(r).len() ==> crate::text::is_num_char(#[trigger] spec_render(r)[i]),
{
    let k = pow10_log(r.den);
    let mag = r.num as nat;
    let ds0 = dec_digits(mag);
    lemma_dec_digits(mag);
    let ds = zero_pad(ds0, (k + 1) as nat);
    lemma_zero_pad(ds0, (k + 1) as nat);
    let s = spec_render(r);
    if k == 0 {
        assert(s =~= ds);
        assert forall|i: int| 0 <= i < s.len() implies crate::text::is_num_char(#[trigger] s[i]) by {
            assert(is_digit(ds[i]));
        }
    } else {
        let l = ds.len();
        assert(l >= k + 1);
        assert(s == ds.take(l - k) + seq!['.'] + ds.skip(l - k));
        assert(s.len() == l + 1);
        assert forall|i: int| 0 <= i < s.len() implies crate::text::is_num_char(#[trigger] s[i]) by {
            if i < l - k {
                assert(s[i] == ds[i]);
                assert(is_digit(ds[i]));
            } else if i == l - k {
                assert(s[i] == '.');
            } else {
                assert(s[i] == ds[i - 1]);
                assert(is_digit(ds[i - 1]));
            }
        }
        assert(s[0] == ds[0]);
        assert(is_digit(ds[0]));
        assert(s[s.len() - 1] == ds[l - 1]);
        assert(is_digit(ds[l - 1]));
    }
}

} // verus!

verus! {

/// The quotient of well-formed ratios by a non-zero divisor is
/// well-formed.
pub proof fn lemma_ratio_div_wf(a: Ratio, b: Ratio)
    requires
        ratio_wf(a),
        ratio_wf(b),
        b.num != 0,
    ensures
        ratio_wf(ratio_div(a, b)),
{
    if b.num >= 0 {
        assert(a.den * b.num >= 1) by (nonlinear_arith)
            requires
                a.den >= 1,
                b.num >= 1,
        ;
    } else {
        assert(-(a.den * b.num) >= 1) by (nonlinear_arith)
            requires
                a.den >= 1,
                b.num <= -1,
        ;
    }
}

/// Division respects `ratio_eq` in the dividend.
pub proof fn lemma_ratio_div_congr(a1: Ratio, a2: Ratio, b: Ratio)
    requires
        ratio_eq(a1, a2),
    ensures
        ratio_eq(ratio_div(a1, b), ratio_div(a2, b)),
{
    assert((a1.num * b.den) * (a2.den * b.num) == (a2.num * b.den) * (a1.den * b.num))
        by (nonlinear_arith)
        requires
            a1.num * a2.den == a2.num * a1.den,
    ;
    if b.num < 0 {
        assert((-(a1.num * b.den)) * (-(a2.den * b.num)) == (-(a2.num * b.den)) * (-(a1.den
            * b.num))) by (nonlinear_arith)
            requires
                (a1.num * b.den) * (a2.den * b.num) == (a2.num * b.den) * (a1.den * b.num),
        ;
    }
}

/// Scaling then dividing equals dividing then scaling.
pub proof fn lemma_ratio_div_scale(k: Ratio, a: Ratio, b: Ratio)
    ensures
        ratio_eq(ratio_div(ratio_mul(k, a), b), ratio_mul(k, ratio_div(a, b))),
{
    let l = ratio_div(ratio_mul(k, a), b);
    let r = ratio_mul(k, ratio_div(a, b));
    if b.num >= 0 {
        assert(((k.num * a.num) * b.den) * (k.den * (a.den * b.num)) == (k.num * (a.num * b.den))
            * ((k.den * a.den) * b.num)) by (nonlinear_arith);
    } else {
        assert((-((k.num * a.num) * b.den)) * (k.den * (-(a.den * b.num))) == (k.num * (-(a.num
            * b.den))) * (-((k.den * a.den) * b.num))) by (nonlinear_arith);
    }
}

/// `(a*b)*(c*d) == c*(a*(b*d))`.
proof fn lemma_mul_r1(a: int, b: int, c: int, d: int)
    ensures
        (a * b) * (c * d) == c * (a * (b * d)),
{
    assert((a * b) * (c * d) == c * (a * (b * d))) by (nonlinear_arith);
}

/// `(a*b)*(a*c) == a*(a*(b*c))`.
proof fn lemma_mul_r2(a: int, b: int, c: int)
    ensures
        (a * b) * (a * c) == a * (a * (b * c)),
{
    assert((a * b) * (a * c) == a * (a * (b * c))) by (nonlinear_arith);
}

/// `w*(k*(k*p)) == (k*w)*(k*p)`.
proof fn lemma_mul_r3(w: int, k: int, p: int)
    ensures
        w * (k * (k * p)) == (k * w) * (k * p),
{
    assert(w * (k * (k * p)) == (k * w) * (k * p)) by (nonlinear_arith);
}

/// Scaling distributes over addition, up to `ratio_eq`.
pub proof fn lemma_ratio_scale_add(k: Ratio, a: Ratio, b: Ratio)
    ensures
        ratio_eq(ratio_mul(k, ratio_add(a, b)), ratio_add(ratio_mul(k, a), ratio_mul(k, b))),
{
    let kn = k.num;
    let kd = k.den;
    let an = a.num;
    let ad = a.den;
    let bn = b.num;
    let bd = b.den;
    let s = an * bd + bn * ad;
    let p0 = ad * bd;
    let l = ratio_mul(k, ratio_add(a, b));
    let r = ratio_add(ratio_mul(k, a), ratio_mul(k, b));
    assert(l.num == kn * s && l.den == kd * p0);
    assert(r.num == (kn * an) * (kd * bd) + (kn * bn) * (kd * ad) && r.den == (kd * ad) * (kd
        * bd));
    lemma_mul_r2(kd, ad, bd);
    vstd::arithmetic::mul::lemma_mul_is_distributive_add(kn, an * bd, bn * ad);
    lemma_mul_r1(kn, an, kd, bd);
    lemma_mul_r1(kn, bn, kd, ad);
    vstd::arithmetic::mul::lemma_mul_is_distributive_add(kd, kn * (an * bd), kn * (bn * ad));
    assert(r.num == kd * (kn * s));
    lemma_mul_r3(kn * s, kd, p0);
    assert(l.num * r.den == r.num * l.den);
}

} // verus!

verus! {

/// Multiplication is associative, up to `ratio_eq` it is even structural.
pub proof fn lemma_ratio_mul_assoc(a: Ratio, b: Ratio, c: Ratio)
    ensures
        ratio_mul(ratio_mul(a, b), c) == ratio_mul(a, ratio_mul(b, c)),
{
    assert((a.num * b.num) * c.num == a.num * (b.num * c.num)) by (nonlinear_arith);
    assert((a.den * b.den) * c.den == a.den * (b.den * c.den)) by (nonlinear_arith);
}

/// Multiplication is commutative.
pub proof fn lemma_ratio_mul_comm(a: Ratio, b: Ratio)
    ensures
        ratio_mul(a, b) == ratio_mul(b, a),
{
    assert(a.num * b.num == b.num * a.num) by (nonlinear_arith);
    assert(a.den * b.den == b.den * a.den) by (nonlinear_arith);
}

} // verus!

verus! {

/// Write `n` in decimal, left-padded with zeros to at least `width`
/// digits.
pub fn fmt_u64_pad(n: u64, width: usize) -> (s: String)
    requires
        width <= 32,
    ensures
        s@ == zero_pad(dec_digits(n as nat), width as nat),
{
    let digits = fmt_u64(n);
    proof {
        lemma_dec_digits(n as nat);
    }
    let dl = digits.as_str().unicode_len();
    let mut out = String::new();
    let mut c: usize = dl;
    while c < width
        invariant
            dl <= c,
            c <= width || c == dl,
            width <= 32,
            dl == digits@.len(),
            out@ =~= zeros((c - dl) as nat),
        decreases width - c,
    {
        proof {
            reveal_strlit("0");
            assert(zeros((c + 1 - dl) as nat) =~= zeros((c - dl) as nat) + seq!['0']);
        }
        out.append("0");
        c = c + 1;
    }
    out.append(digits.as_str());
    proof {
        assert(out@ =~= zero_pad(dec_digits(n as nat), width as nat));
    }
    out
}

} // verus!

verus! {

/// The magnitude of an integer.
pub open spec fn mag(x: int) -> int {
    if x >= 0 {
        x
    } else {
        -x
    }
}

/// The tight magnitude bound of a ratio: the numerator's magnitude and
/// the denominator itself.
pub open spec fn rat_bound(r: Ratio) -> Ratio {
    Ratio { num: mag(r.num), den: r.den }
}

/// A well-formed magnitude bound: non-negative numerator bound, positive
/// denominator bound.
pub open spec fn bound_ok(b: Ratio) -> bool {
    b.num >= 0 && b.den >= 1
}

/// The bound stays within the machine representation.
pub open spec fn bound_fits(b: Ratio) -> bool {
    b.num <= 0x7fffffffffffffff && b.den <= 0x7fffffffffffffff
}

/// The value `r` is within the bound `b`: numerator magnitude and
/// denominator both at most the bound's.
pub open spec fn rat_within(r: Ratio, b: Ratio) -> bool {
    mag(r.num) <= b.num && 1 <= r.den <= b.den
}

/// The magnitude bound of a quotient of values within the bounds `a` and
/// `b`.  Sums and products within bounds stay within `ratio_add` and
/// `ratio_mul` of the bounds; quotients stay within this.
pub open spec fn bound_div(a: Ratio, b: Ratio) -> Ratio {
    Ratio { num: a.num * b.den, den: a.den * b.num }
}

/// One bound is below another, component for component.
pub open spec fn bound_le(a: Ratio, b: Ratio) -> bool {
    a.num <= b.num && a.den <= b.den
}

/// Sum bounds grow with their operand bounds.
pub proof fn lemma_bound_mono_add(a1: Ratio, b1: Ratio, a2: Ratio, b2: Ratio)
    requires
        bound_ok(a1),
        bound_ok(b1),
        bound_ok(a2),
        bound_ok(b2),
        bound_le(a1, a2),
        bound_le(b1, b2),
    ensures
        bound_le(ratio_add(a1, b1), ratio_add(a2, b2)),
        bound_ok(ratio_add(a1, b1)),
{
    assert(a1.num * b1.den <= a2.num * b2.den && b1.num * a1.den <= b2.num * a2.den && a1.den
        * b1.den <= a2.den * b2.den && a1.num * b1.den >= 0 && b1.num * a1.den >= 0 && a1.den
        * b1.den >= 1) by (nonlinear_arith)
        requires
            0 <= a1.num <= a2.num,
            0 <= b1.num <= b2.num,
            1 <= a1.den <= a2.den,
            1 <= b1.den <= b2.den,
    ;
}

/// Product bounds grow with their operand bounds.
pub proof fn lemma_bound_mono_mul(a1: Ratio, b1: Ratio, a2: Ratio, b2: Ratio)
    requires
        bound_ok(a1),
        bound_ok(b1),
        bound_ok(a2),
        bound_ok(b2),
        bound_le(a1, a2),
        bound_le(b1, b2),
    ensures
        bound_le(ratio_mul(a1, b1), ratio_mul(a2, b2)),
        bound_ok(ratio_mul(a1, b1)),
{
    assert(a1.num * b1.num <= a2.num * b2.num && a1.den * b1.den <= a2.den * b2.den && a1.num
        * b1.num >= 0 && a1.den * b1.den >= 1) by (nonlinear_arith)
        requires
            0 <= a1.num <= a2.num,
            0 <= b1.num <= b2.num,
            1 <= a1.den <= a2.den,
            1 <= b1.den <= b2.den,
    ;
}

/// Quotient bounds grow with the dividend's bound.
pub proof fn lemma_bound_mono_div(a1: Ratio, a2: Ratio, b: Ratio)
    requires
        bound_ok(a1),
        bound_ok(a2),
        bound_ok(b),
        bound_le(a1, a2),
    ensures
        bound_le(bound_div(a1, b), bound_div(a2, b)),
        b.num >= 1 ==> bound_ok(bound_div(a1, b)),
{
    assert(a1.num * b.den <= a2.num * b.den && a1.den * b.num <= a2.den * b.num && a1.num * b.den
        >= 0 && (b.num >= 1 ==> a1.den * b.num >= 1)) by (nonlinear_arith)
        requires
            0 <= a1.num <= a2.num,
            1 <= a1.den <= a2.den,
            b.num >= 0,
            b.den >= 1,
    ;
}

} // verus!

verus! {

/// A sum bound is at least as wide as either operand bound.
pub proof fn lemma_bound_grow_add(a: Ratio, b: Ratio)
    requires
        bound_ok(a),
        bound_ok(b),
    ensures
        bound_le(a, ratio_add(a, b)),
        bound_le(b, ratio_add(a, b)),
        bound_ok(ratio_add(a, b)),
{
    assert(a.num * b.den + b.num * a.den >= a.num && a.num * b.den + b.num * a.den >= b.num
        && a.den * b.den >= a.den && a.den * b.den >= b.den && a.num * b.den + b.num * a.den >= 0
        && a.den * b.den >= 1) by (nonlinear_arith)
        requires
            a.num >= 0,
            b.num >= 0,
            a.den >= 1,
            b.den >= 1,
    ;
}

} // verus!
