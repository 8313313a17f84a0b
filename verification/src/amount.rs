//! Money amounts: decimal numbers held by their parts (a 96-bit mantissa and
//! a scale), with the arithmetic, comparison and rounding of
//! `rust_decimal::Decimal`.

use rust_decimal::Decimal;
use vstd::prelude::*;

verus! {

/// Largest mantissa of a decimal: 96 bits.
pub const DECIMAL_MAX_MANTISSA: i128 = 79228162514264337593543950335i128;

/// Largest scale (number of decimal places) of a decimal.
pub const MAX_DECIMAL_SCALE: u32 = 28u32;

/// `10^n`.
pub open spec fn pow10(n: nat) -> int
    decreases n,
{
    if n == 0 {
        1
    } else {
        10 * pow10((n - 1) as nat)
    }
}

/// An amount of money: the decimal `mantissa / 10^scale`.
#[derive(Clone, Copy, Debug)]
pub struct Amount {
    pub mantissa: i128,
    pub scale: u32,
}

/// The result of `rust_decimal::Decimal::checked_add` on the decimals with
/// these parts, as (mantissa, scale), or `None` when it overflows.
pub uninterp spec fn decimal_sum(a_mantissa: int, a_scale: int, b_mantissa: int, b_scale: int) -> Option<(int, int)>;

/// The result of `rust_decimal::Decimal::checked_sub` on the decimals with
/// these parts, as (mantissa, scale), or `None` when it overflows.
pub uninterp spec fn decimal_difference(a_mantissa: int, a_scale: int, b_mantissa: int, b_scale: int) -> Option<(int, int)>;

/// The amount with the given parts, if there are any.
pub open spec fn amount_of(parts: Option<(int, int)>) -> Option<Amount> {
    match parts {
        Some((m, s)) => Some(Amount { mantissa: m as i128, scale: s as u32 }),
        None => None,
    }
}

/// Both operands are decimals and neither is zero.
pub open spec fn both_nonzero(a: Amount, b: Amount) -> bool {
    a.wf() && b.wf() && a.mantissa != 0 && b.mantissa != 0
}

/// The larger of the two scales.
pub open spec fn common_scale(a: Amount, b: Amount) -> int {
    if a.scale >= b.scale { a.scale as int } else { b.scale as int }
}

/// `a`'s mantissa brought to scale `s` (not below its own).
pub open spec fn mantissa_at(a: Amount, s: int) -> int {
    a.mantissa * pow10((s - a.scale) as nat)
}

/// The exact sum's mantissa at the larger of the two scales.
pub open spec fn aligned_sum(a: Amount, b: Amount) -> int {
    mantissa_at(a, common_scale(a, b)) + mantissa_at(b, common_scale(a, b))
}

/// The exact difference's mantissa at the larger of the two scales.
pub open spec fn aligned_difference(a: Amount, b: Amount) -> int {
    mantissa_at(a, common_scale(a, b)) - mantissa_at(b, common_scale(a, b))
}

/// A mantissa fits 96 bits.
pub open spec fn fits_mantissa(m: int) -> bool {
    -DECIMAL_MAX_MANTISSA <= m <= DECIMAL_MAX_MANTISSA
}

/// `m / k` rounded to the nearest integer, ties to the even neighbour, the
/// rounding applied to the magnitude and the sign kept.
pub open spec fn div_round_half_even(m: int, k: int) -> int {
    let a = if m < 0 { -m } else { m };
    let q = a / k;
    let r = a % k;
    let q2 = if r * 2 > k || (r * 2 == k && q % 2 == 1) { q + 1 } else { q };
    if m < 0 { -q2 } else { q2 }
}

/// Mantissa and scale of the decimal `mantissa / 10^scale` rounded to `dp`
/// decimal places: unchanged when it has at most `dp`, else scale `dp` and the
/// mantissa rounded half to even.
pub open spec fn round_dp_parts(mantissa: int, scale: int, dp: int) -> (int, int) {
    if scale <= dp {
        (mantissa, scale)
    } else {
        (div_round_half_even(mantissa, pow10((scale - dp) as nat)), dp)
    }
}

impl Amount {
    /// A valid decimal: the mantissa fits 96 bits and the scale is at most 28.
    pub open spec fn wf(self) -> bool {
        fits_mantissa(self.mantissa as int) && self.scale <= MAX_DECIMAL_SCALE
    }

    /// The value in units of `10^-28`, exact for every valid decimal.
    pub open spec fn value(self) -> int {
        self.mantissa * pow10((MAX_DECIMAL_SCALE - self.scale) as nat)
    }

    /// The decimal `a + b` as rust_decimal computes it: `None` when an
    /// operand is not a valid decimal; the other operand when one is zero;
    /// the exact sum at the larger scale when it fits 96 bits; otherwise
    /// rust_decimal's rounded result, or `None` on overflow.
    pub open spec fn sum(a: Amount, b: Amount) -> Option<Amount> {
        if !(a.wf() && b.wf()) {
            None
        } else if a.mantissa == 0 {
            Some(b)
        } else if b.mantissa == 0 {
            Some(a)
        } else if fits_mantissa(aligned_sum(a, b)) {
            Some(Amount { mantissa: aligned_sum(a, b) as i128, scale: common_scale(a, b) as u32 })
        } else {
            amount_of(decimal_sum(a.mantissa as int, a.scale as int, b.mantissa as int, b.scale as int))
        }
    }

    /// The decimal `a - b` as rust_decimal computes it: `None` when an
    /// operand is not a valid decimal; `-b` when `a` is zero and `a` when `b`
    /// is zero; the exact difference at the larger scale when it fits 96
    /// bits; otherwise rust_decimal's rounded result, or `None` on overflow.
    pub open spec fn difference(a: Amount, b: Amount) -> Option<Amount> {
        if !(a.wf() && b.wf()) {
            None
        } else if a.mantissa == 0 {
            Some(Amount { mantissa: (-b.mantissa) as i128, scale: b.scale })
        } else if b.mantissa == 0 {
            Some(a)
        } else if fits_mantissa(aligned_difference(a, b)) {
            Some(Amount { mantissa: aligned_difference(a, b) as i128, scale: common_scale(a, b) as u32 })
        } else {
            amount_of(
                decimal_difference(a.mantissa as int, a.scale as int, b.mantissa as int, b.scale as int),
            )
        }
    }
}

/// Calls `rust_decimal::Decimal::checked_add`. Claimed of rust_decimal 1.43
/// (`ops/add.rs`): the result is `decimal_sum` of the parts, and a valid
/// decimal; adding to a zero gives the other operand unchanged; for two
/// non-zero operands whose exact sum, at the larger scale, fits 96 bits, the
/// result is that exact sum at that scale. Not stated: which rounded result
/// comes back when the exact sum needs more than 96 bits at that scale.
#[verifier::external_body]
fn decimal_checked_add(a: Amount, b: Amount) -> (r: Option<Amount>)
    requires
        a.wf(),
        b.wf(),
    ensures
        r == amount_of(decimal_sum(a.mantissa as int, a.scale as int, b.mantissa as int, b.scale as int)),
        r matches Some(x) ==> x.wf(),
        a.mantissa == 0 ==> r == Some(b),
        a.mantissa != 0 && b.mantissa == 0 ==> r == Some(a),
        both_nonzero(a, b) && fits_mantissa(aligned_sum(a, b)) ==> r == Some(
            Amount { mantissa: aligned_sum(a, b) as i128, scale: common_scale(a, b) as u32 },
        ),
{
    let x = Decimal::from_i128_with_scale(a.mantissa, a.scale);
    let y = Decimal::from_i128_with_scale(b.mantissa, b.scale);
    match x.checked_add(y) {
        Some(d) => Some(Amount { mantissa: d.mantissa(), scale: d.scale() }),
        None => None,
    }
}

/// Calls `rust_decimal::Decimal::checked_sub`. Claimed of rust_decimal 1.43
/// (`ops/add.rs`): the result is `decimal_difference` of the parts, and a
/// valid decimal; subtracting from a zero gives the other operand negated,
/// subtracting a zero gives `a` unchanged; for two non-zero operands whose
/// exact difference, at the larger scale, fits 96 bits, the result is that
/// exact difference at that scale. Not stated: which rounded result comes
/// back when the exact difference needs more than 96 bits at that scale.
#[verifier::external_body]
fn decimal_checked_sub(a: Amount, b: Amount) -> (r: Option<Amount>)
    requires
        a.wf(),
        b.wf(),
    ensures
        r == amount_of(
            decimal_difference(a.mantissa as int, a.scale as int, b.mantissa as int, b.scale as int),
        ),
        r matches Some(x) ==> x.wf(),
        a.mantissa == 0 ==> r == Some(Amount { mantissa: (-b.mantissa) as i128, scale: b.scale }),
        a.mantissa != 0 && b.mantissa == 0 ==> r == Some(a),
        both_nonzero(a, b) && fits_mantissa(aligned_difference(a, b)) ==> r == Some(
            Amount { mantissa: aligned_difference(a, b) as i128, scale: common_scale(a, b) as u32 },
        ),
{
    let x = Decimal::from_i128_with_scale(a.mantissa, a.scale);
    let y = Decimal::from_i128_with_scale(b.mantissa, b.scale);
    match x.checked_sub(y) {
        Some(d) => Some(Amount { mantissa: d.mantissa(), scale: d.scale() }),
        None => None,
    }
}

/// Calls `<` on `rust_decimal::Decimal`. Claimed of rust_decimal 1.43
/// (`ops/cmp.rs`): the comparison is exact, by value.
#[verifier::external_body]
fn decimal_less_than(a: Amount, b: Amount) -> (r: bool)
    requires
        a.wf(),
        b.wf(),
    ensures
        r == (a.value() < b.value()),
{
    Decimal::from_i128_with_scale(a.mantissa, a.scale) < Decimal::from_i128_with_scale(b.mantissa, b.scale)
}

/// Calls `==` on `rust_decimal::Decimal`. Claimed of rust_decimal 1.43
/// (`decimal.rs`, `ops/cmp.rs`): equality is exact, by value, whatever the
/// scales.
#[verifier::external_body]
fn decimal_equal(a: Amount, b: Amount) -> (r: bool)
    requires
        a.wf(),
        b.wf(),
    ensures
        r == (a.value() == b.value()),
{
    Decimal::from_i128_with_scale(a.mantissa, a.scale) == Decimal::from_i128_with_scale(b.mantissa, b.scale)
}

/// Calls `rust_decimal::Decimal::round_dp(dp)` on the decimal
/// `mantissa / 10^scale` and returns the mantissa and scale of the result.
/// Claimed of rust_decimal 1.43 (`round_dp_with_strategy` with
/// `MidpointNearestEven`): a decimal with at most `dp` decimal places comes
/// back unchanged; otherwise the result has scale `dp` and its mantissa is
/// the magnitude divided by `10^(scale-dp)`, rounded half to even, with the
/// sign kept. The result is again a valid decimal.
#[verifier::external_body]
fn decimal_round_dp(mantissa: i128, scale: u32, dp: u32) -> (r: (i128, u32))
    requires
        fits_mantissa(mantissa as int),
        scale <= MAX_DECIMAL_SCALE,
    ensures
        (r.0 as int, r.1 as int) == round_dp_parts(mantissa as int, scale as int, dp as int),
        fits_mantissa(r.0 as int),
        r.1 <= MAX_DECIMAL_SCALE,
{
    let rounded = Decimal::from_i128_with_scale(mantissa, scale).round_dp(dp);
    (rounded.mantissa(), rounded.scale())
}

/// Number of decimal places amounts are rounded to when a row is read.
pub const AMOUNT_DECIMAL_PLACES: u32 = 4u32;

/// The decimal rounded to four decimal places, when it is a valid decimal.
pub open spec fn rounded_amount(raw: Amount) -> Option<Amount> {
    if raw.wf() {
        let (m, s) = round_dp_parts(raw.mantissa as int, raw.scale as int, AMOUNT_DECIMAL_PLACES as int);
        Some(Amount { mantissa: m as i128, scale: s as u32 })
    } else {
        None
    }
}

impl Amount {
    /// Zero.
    pub fn zero() -> (r: Amount)
        ensures
            r == (Amount { mantissa: 0, scale: 0 }),
    {
        Amount { mantissa: 0, scale: 0 }
    }

    /// The decimal `mantissa / 10^scale`, if it is a valid decimal.
    pub fn new(mantissa: i128, scale: u32) -> (r: Option<Amount>)
        ensures
            r == (if (Amount { mantissa, scale }).wf() {
                Some(Amount { mantissa, scale })
            } else {
                None::<Amount>
            }),
    {
        if -DECIMAL_MAX_MANTISSA <= mantissa && mantissa <= DECIMAL_MAX_MANTISSA
            && scale <= MAX_DECIMAL_SCALE {
            Some(Amount { mantissa, scale })
        } else {
            None
        }
    }

    /// The amount is a valid decimal.
    pub fn is_valid(self) -> (r: bool)
        ensures
            r == self.wf(),
    {
        -DECIMAL_MAX_MANTISSA <= self.mantissa && self.mantissa <= DECIMAL_MAX_MANTISSA
            && self.scale <= MAX_DECIMAL_SCALE
    }

    /// The amount rounded to four decimal places (half to even), if it is a
    /// valid decimal.
    pub fn round_dp4(self) -> (r: Option<Amount>)
        ensures
            r == rounded_amount(self),
    {
        if !self.is_valid() {
            return None;
        }
        let (m, s) = decimal_round_dp(self.mantissa, self.scale, AMOUNT_DECIMAL_PLACES);
        Some(Amount { mantissa: m, scale: s })
    }

    /// The sum as rust_decimal computes it (see `Amount::sum`), `None` on
    /// overflow; exact in value when it fits 96 bits at the larger scale.
    pub fn checked_add(self, other: Amount) -> (r: Option<Amount>)
        ensures
            r == Amount::sum(self, other),
            r matches Some(x) ==> x.wf(),
            self.wf() && other.wf() && fits_mantissa(aligned_sum(self, other)) ==> (r matches Some(x)
                && x.value() == self.value() + other.value()),
    {
        if self.is_valid() && other.is_valid() {
            proof {
                lemma_exact_when_fits(self, other);
            }
            decimal_checked_add(self, other)
        } else {
            None
        }
    }

    /// The difference as rust_decimal computes it (see
    /// `Amount::difference`), `None` on overflow; exact in value when it fits
    /// 96 bits at the larger scale.
    pub fn checked_sub(self, other: Amount) -> (r: Option<Amount>)
        ensures
            r == Amount::difference(self, other),
            r matches Some(x) ==> x.wf(),
            self.wf() && other.wf() && fits_mantissa(aligned_difference(self, other)) ==> (r matches Some(x)
                && x.value() == self.value() - other.value()),
    {
        if self.is_valid() && other.is_valid() {
            proof {
                lemma_exact_when_fits(self, other);
            }
            decimal_checked_sub(self, other)
        } else {
            None
        }
    }

    /// Strictly greater than zero.
    pub fn is_positive(self) -> (r: bool)
        ensures
            r == (self.mantissa > 0),
    {
        self.mantissa > 0
    }

    /// Strictly less than `other`, by value.
    pub fn less_than(self, other: Amount) -> (r: bool)
        requires
            self.wf(),
            other.wf(),
        ensures
            r == (self.value() < other.value()),
    {
        decimal_less_than(self, other)
    }
}

impl PartialEq for Amount {
    /// Equal by value, whatever the scales; an amount that is not a valid
    /// decimal equals only an amount with the same parts.
    fn eq(&self, other: &Amount) -> (r: bool) {
        if self.is_valid() && other.is_valid() {
            decimal_equal(*self, *other)
        } else {
            self.mantissa == other.mantissa && self.scale == other.scale
        }
    }
}

impl vstd::std_specs::cmp::PartialEqSpecImpl for Amount {
    open spec fn obeys_eq_spec() -> bool {
        true
    }

    open spec fn eq_spec(&self, other: &Amount) -> bool {
        if self.wf() && other.wf() {
            self.value() == other.value()
        } else {
            self.mantissa == other.mantissa && self.scale == other.scale
        }
    }
}

impl Eq for Amount {
}

/// A positive mantissa makes a positive value, a zero one a zero value.
pub proof fn lemma_value_sign(a: Amount)
    ensures
        a.mantissa > 0 <==> a.value() > 0,
        a.mantissa == 0 <==> a.value() == 0,
        a.mantissa < 0 <==> a.value() < 0,
{
    lemma_pow10_positive((MAX_DECIMAL_SCALE - a.scale) as nat);
    let p = pow10((MAX_DECIMAL_SCALE - a.scale) as nat);
    let m = a.mantissa as int;
    assert(m > 0 <==> m * p > 0) by (nonlinear_arith)
        requires
            p > 0,
    ;
    assert(m < 0 <==> m * p < 0) by (nonlinear_arith)
        requires
            p > 0,
    ;
}

/// A sum or difference that fits 96 bits at the larger scale is computed,
/// and exactly: its value is the sum or difference of the values.
pub proof fn lemma_exact_when_fits(a: Amount, b: Amount)
    requires
        a.wf(),
        b.wf(),
    ensures
        fits_mantissa(aligned_sum(a, b)) ==> (Amount::sum(a, b) matches Some(x) && x.wf()
            && x.value() == a.value() + b.value()),
        fits_mantissa(aligned_difference(a, b)) ==> (Amount::difference(a, b) matches Some(x) && x.wf()
            && x.value() == a.value() - b.value()),
{
    lemma_value_sign(a);
    lemma_value_sign(b);
    lemma_negated_value(b);
    lemma_aligned_sum_value(a, b);
}

/// Rounding to four places picks the nearest decimal with four places: a
/// decimal with at most four places comes back unchanged; any other comes
/// back with exactly four places, a valid decimal, and moved by at most half
/// of the last kept place (`10^-4 / 2`, that is `10^24 / 2` in units of
/// `10^-28`).
pub proof fn lemma_rounding_is_nearest(raw: Amount)
    requires
        raw.wf(),
    ensures
        rounded_amount(raw) is Some,
        raw.scale <= AMOUNT_DECIMAL_PLACES ==> rounded_amount(raw) == Some(raw),
        raw.scale > AMOUNT_DECIMAL_PLACES ==> ({
            let r = rounded_amount(raw).unwrap();
            let d = r.value() - raw.value();
            &&& r.scale == AMOUNT_DECIMAL_PLACES
            &&& r.wf()
            &&& 2 * d <= pow10(24) && -pow10(24) <= 2 * d
        }),
{
    if raw.scale > AMOUNT_DECIMAL_PLACES {
        let n = (raw.scale - AMOUNT_DECIMAL_PLACES) as nat;
        let k = pow10(n);
        let p = pow10((MAX_DECIMAL_SCALE - raw.scale) as nat);
        lemma_pow10_at_least_ten(n);
        lemma_pow10_positive((MAX_DECIMAL_SCALE - raw.scale) as nat);
        lemma_pow10_add(n, (MAX_DECIMAL_SCALE - raw.scale) as nat);
        assert((n + (MAX_DECIMAL_SCALE - raw.scale) as nat) as nat == 24nat);
        let m = raw.mantissa as int;
        let q2 = div_round_half_even(m, k);
        lemma_div_round_nearest(m, k);
        let e = q2 * k - m;
        assert(q2 * pow10(24) - m * p == e * p) by (nonlinear_arith)
            requires
                pow10(24) == k * p,
                e == q2 * k - m,
        ;
        assert(2 * (e * p) <= k * p && -(k * p) <= 2 * (e * p)) by (nonlinear_arith)
            requires
                2 * e <= k,
                -k <= 2 * e,
                p > 0,
        ;
        assert(pow10(0) == 1);
    }
}

/// `10^n` is at least 10 when `n` is positive.
proof fn lemma_pow10_at_least_ten(n: nat)
    requires
        n > 0,
    ensures
        pow10(n) >= 10,
{
    lemma_pow10_positive((n - 1) as nat);
}

/// Rounding `m / k` half to even lands within half of `k` of `m` when scaled
/// back, and does not grow the magnitude beyond `|m| / 10 + 1` for `k >= 10`.
proof fn lemma_div_round_nearest(m: int, k: int)
    requires
        k >= 10,
        fits_mantissa(m),
    ensures
        2 * (div_round_half_even(m, k) * k - m) <= k,
        -k <= 2 * (div_round_half_even(m, k) * k - m),
        fits_mantissa(div_round_half_even(m, k)),
{
    let a = if m < 0 { -m } else { m };
    let q = a / k;
    let r = a % k;
    vstd::arithmetic::div_mod::lemma_fundamental_div_mod(a, k);
    vstd::arithmetic::div_mod::lemma_mod_pos_bound(a, k);
    let q2 = if r * 2 > k || (r * 2 == k && q % 2 == 1) { q + 1 } else { q };
    assert(q2 * k - a == (if q2 == q { -r } else { k - r })) by (nonlinear_arith)
        requires
            a == k * q + r,
            q2 == q || q2 == q + 1,
    ;
    assert(q >= 0 && 10 * q <= a) by (nonlinear_arith)
        requires
            a == k * q + r,
            0 <= r < k,
            k >= 10,
            a >= 0,
    ;
    if m < 0 {
        assert(div_round_half_even(m, k) == -q2);
        assert((-q2) * k - m == -(q2 * k - a)) by (nonlinear_arith)
            requires
                a == -m,
        ;
    } else {
        assert(div_round_half_even(m, k) == q2);
    }
}

/// Bringing a non-negative mantissa to a larger scale keeps it non-negative.
pub proof fn lemma_mantissa_at_nonneg(a: Amount, s: int)
    requires
        a.mantissa >= 0,
        a.scale <= s,
    ensures
        mantissa_at(a, s) >= 0,
{
    lemma_pow10_positive((s - a.scale) as nat);
    let p = pow10((s - a.scale) as nat);
    let m = a.mantissa as int;
    assert(m * p >= 0) by (nonlinear_arith)
        requires
            m >= 0,
            p > 0,
    ;
}

/// Negating the mantissa negates the value.
proof fn lemma_negated_value(a: Amount)
    requires
        a.wf(),
    ensures
        (Amount { mantissa: (-a.mantissa) as i128, scale: a.scale }).value() == -a.value(),
{
    let p = pow10((MAX_DECIMAL_SCALE - a.scale) as nat);
    let m = a.mantissa as int;
    assert((-m) * p == -(m * p)) by (nonlinear_arith);
}

/// `10^(n+m) = 10^n * 10^m`.
proof fn lemma_pow10_add(n: nat, m: nat)
    ensures
        pow10(n + m) == pow10(n) * pow10(m),
    decreases n,
{
    if n > 0 {
        lemma_pow10_add((n - 1) as nat, m);
        let a = pow10((n - 1) as nat);
        let b = pow10(m);
        assert(pow10(n + m) == 10 * pow10(((n - 1) + m) as nat));
        assert(10 * (a * b) == (10 * a) * b) by (nonlinear_arith);
    }
}

/// A mantissa brought to a larger scale keeps its value.
proof fn lemma_aligned_value(a: Amount, s: int)
    requires
        a.scale <= s <= MAX_DECIMAL_SCALE,
    ensures
        mantissa_at(a, s) * pow10((MAX_DECIMAL_SCALE - s) as nat) == a.value(),
{
    let n = (s - a.scale) as nat;
    let k = (MAX_DECIMAL_SCALE - s) as nat;
    lemma_pow10_add(n, k);
    assert((n + k) as nat == (MAX_DECIMAL_SCALE - a.scale) as nat);
    let m = a.mantissa as int;
    let p = pow10(n);
    let q = pow10(k);
    assert((m * p) * q == m * (p * q)) by (nonlinear_arith);
}

/// The exact sum and difference at the larger scale have the sum and the
/// difference of the values.
proof fn lemma_aligned_sum_value(a: Amount, b: Amount)
    requires
        a.wf(),
        b.wf(),
    ensures
        (Amount { mantissa: aligned_sum(a, b) as i128, scale: common_scale(a, b) as u32 }).value()
            == a.value() + b.value() || !fits_mantissa(aligned_sum(a, b)),
        (Amount { mantissa: aligned_difference(a, b) as i128, scale: common_scale(a, b) as u32 }).value()
            == a.value() - b.value() || !fits_mantissa(aligned_difference(a, b)),
{
    let c = common_scale(a, b);
    lemma_aligned_value(a, c);
    lemma_aligned_value(b, c);
    let x = mantissa_at(a, c);
    let y = mantissa_at(b, c);
    let q = pow10((MAX_DECIMAL_SCALE - c) as nat);
    assert((x + y) * q == x * q + y * q) by (nonlinear_arith);
    assert((x - y) * q == x * q - y * q) by (nonlinear_arith);
}

proof fn lemma_pow10_positive(n: nat)
    ensures
        pow10(n) > 0,
    decreases n,
{
    if n > 0 {
        lemma_pow10_positive((n - 1) as nat);
    }
}

} // verus!
