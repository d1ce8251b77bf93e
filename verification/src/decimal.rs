//! Exact decimal amounts.
//!
//! An [`Amount`] is a signed 96-bit mantissa and a scale of at most 28: the
//! number `mantissa / 10^scale`. The arithmetic itself is done by the
//! `rust_decimal` crate; this module states what that arithmetic returns and
//! builds the checked operations of the ledger on it.

use rust_decimal::Decimal;
use vstd::prelude::*;

verus! {

/// The largest scale an amount can have.
pub const MAX_SCALE: u32 = 28;

/// The largest magnitude of a mantissa: `2^96 - 1`.
pub const MAX_MANTISSA: i128 = 0xFFFF_FFFF_FFFF_FFFF_FFFF_FFFF;

/// `10^n`.
pub open spec fn pow10(n: nat) -> int
    decreases n,
{
    if n == 0 {
        1
    } else {
        10 * pow10((n - 1) as nat)
    }
}

/// The larger of two scales.
pub open spec fn max_scale(s1: nat, s2: nat) -> nat {
    if s1 >= s2 {
        s1
    } else {
        s2
    }
}

/// A mantissa and a scale that a decimal can hold.
pub open spec fn repr_valid(mantissa: int, scale: nat) -> bool {
    -MAX_MANTISSA <= mantissa <= MAX_MANTISSA && scale <= MAX_SCALE
}

/// The number `mantissa / 10^scale`, counted in units of `10^-28`, the finest
/// step a decimal can hold. Two representations stand for the same number
/// exactly when their values are equal.
pub open spec fn repr_value(mantissa: int, scale: nat) -> int {
    mantissa * pow10((MAX_SCALE - scale) as nat)
}

/// The mantissa of the exact sum of two decimals, written at the larger of
/// their scales.
pub open spec fn aligned_sum(m1: int, s1: nat, m2: int, s2: nat) -> int {
    let s = max_scale(s1, s2);
    m1 * pow10((s - s1) as nat) + m2 * pow10((s - s2) as nat)
}

/// The exact sum, written at the larger scale, has a mantissa of 96 bits.
pub open spec fn sum_fits(m1: int, s1: nat, m2: int, s2: nat) -> bool {
    -MAX_MANTISSA <= aligned_sum(m1, s1, m2, s2) <= MAX_MANTISSA
}

/// The decimal `sum` is the exact sum of the decimals `a` and `b`, at a scale
/// no larger than the larger of theirs. Each is a mantissa and a scale.
pub open spec fn is_sum(a: (int, nat), b: (int, nat), sum: (int, nat)) -> bool {
    repr_value(sum.0, sum.1) == repr_value(a.0, a.1) + repr_value(b.0, b.1) && sum.1 <= max_scale(
        a.1,
        b.1,
    )
}

/// The decimal `diff` is the exact difference of the decimals `a` and `b`, at
/// a scale no larger than the larger of theirs.
pub open spec fn is_difference(a: (int, nat), b: (int, nat), diff: (int, nat)) -> bool {
    repr_value(diff.0, diff.1) == repr_value(a.0, a.1) - repr_value(b.0, b.1) && diff.1
        <= max_scale(a.1, b.1)
}

/// `x / q` rounded to the nearest integer, a tie going to the even neighbour.
pub open spec fn round_half_even(x: int, q: int) -> int {
    let lo = x / q;
    let rem = x % q;
    if 2 * rem < q {
        lo
    } else if 2 * rem > q {
        lo + 1
    } else if lo % 2 == 0 {
        lo
    } else {
        lo + 1
    }
}

/// The representation left by rounding to `dp` fractional digits: unchanged
/// where the scale is already within `dp`, else the mantissa rounded half to
/// even at scale `dp`.
pub open spec fn rounded_repr(mantissa: int, scale: nat, dp: nat) -> (int, nat) {
    if scale <= dp {
        (mantissa, scale)
    } else {
        (round_half_even(mantissa, pow10((scale - dp) as nat)), dp)
    }
}

/// The text that `rust_decimal` prints for the decimal `mantissa / 10^scale`.
pub uninterp spec fn decimal_text(mantissa: int, scale: nat) -> Seq<char>;

/// `Decimal::round_dp`, on a decimal built by `Decimal::from_i128_with_scale`
/// and read back by `mantissa` and `scale`. Claimed: a scale within `dp`
/// leaves the decimal as it is; a larger one becomes `dp`, the mantissa
/// divided by the power of ten between them and rounded half to even.
#[verifier::external_body]
fn decimal_round_dp(mantissa: i128, scale: u32, dp: u32) -> (r: (i128, u32))
    requires
        repr_valid(mantissa as int, scale as nat),
    ensures
        (r.0 as int, r.1 as nat) == rounded_repr(mantissa as int, scale as nat, dp as nat),
{
    let d = Decimal::from_i128_with_scale(mantissa, scale).round_dp(dp);
    (d.mantissa(), d.scale())
}

/// `Decimal::checked_add`. Claimed: whatever comes back is a decimal; and
/// where the exact sum, written at the larger of the two scales, has a
/// mantissa of 96 bits, that sum comes back, at a scale no larger than that
/// one. Nothing is claimed of the other inputs, on which the crate rounds or
/// reports an overflow.
#[verifier::external_body]
fn decimal_checked_add(m1: i128, s1: u32, m2: i128, s2: u32) -> (r: Option<(i128, u32)>)
    requires
        repr_valid(m1 as int, s1 as nat),
        repr_valid(m2 as int, s2 as nat),
    ensures
        r matches Some(v) ==> repr_valid(v.0 as int, v.1 as nat),
        sum_fits(m1 as int, s1 as nat, m2 as int, s2 as nat) ==> r is Some,
        r matches Some(v) ==> (sum_fits(m1 as int, s1 as nat, m2 as int, s2 as nat) ==> is_sum(
            (m1 as int, s1 as nat),
            (m2 as int, s2 as nat),
            (v.0 as int, v.1 as nat),
        )),
{
    let a = Decimal::from_i128_with_scale(m1, s1);
    let b = Decimal::from_i128_with_scale(m2, s2);
    match a.checked_add(b) {
        Some(d) => Some((d.mantissa(), d.scale())),
        None => None,
    }
}

/// `Decimal::checked_sub`. Claimed: whatever comes back is a decimal; and
/// where the exact difference, written at the larger of the two scales, has a
/// mantissa of 96 bits, that difference comes back, at a scale no larger than
/// that one. Nothing is claimed of the other inputs.
#[verifier::external_body]
fn decimal_checked_sub(m1: i128, s1: u32, m2: i128, s2: u32) -> (r: Option<(i128, u32)>)
    requires
        repr_valid(m1 as int, s1 as nat),
        repr_valid(m2 as int, s2 as nat),
    ensures
        r matches Some(v) ==> repr_valid(v.0 as int, v.1 as nat),
        sum_fits(m1 as int, s1 as nat, -(m2 as int), s2 as nat) ==> r is Some,
        r matches Some(v) ==> (sum_fits(m1 as int, s1 as nat, -(m2 as int), s2 as nat)
            ==> is_difference(
            (m1 as int, s1 as nat),
            (m2 as int, s2 as nat),
            (v.0 as int, v.1 as nat),
        )),
{
    let a = Decimal::from_i128_with_scale(m1, s1);
    let b = Decimal::from_i128_with_scale(m2, s2);
    match a.checked_sub(b) {
        Some(d) => Some((d.mantissa(), d.scale())),
        None => None,
    }
}

/// `>=` on two decimals. Claimed: it compares the numbers, whatever their
/// scales.
#[verifier::external_body]
fn decimal_ge(m1: i128, s1: u32, m2: i128, s2: u32) -> (r: bool)
    requires
        repr_valid(m1 as int, s1 as nat),
        repr_valid(m2 as int, s2 as nat),
    ensures
        r == (repr_value(m1 as int, s1 as nat) >= repr_value(m2 as int, s2 as nat)),
{
    let a = Decimal::from_i128_with_scale(m1, s1);
    let b = Decimal::from_i128_with_scale(m2, s2);
    a.ge(&b)
}

/// `to_string` on a decimal. Claimed: the text depends on the mantissa and
/// the scale alone.
#[verifier::external_body]
fn decimal_to_string(mantissa: i128, scale: u32) -> (r: String)
    requires
        repr_valid(mantissa as int, scale as nat),
    ensures
        r@ == decimal_text(mantissa as int, scale as nat),
{
    Decimal::from_i128_with_scale(mantissa, scale).to_string()
}

/// Every power of ten is positive.
pub proof fn lemma_pow10_positive(n: nat)
    ensures
        pow10(n) >= 1,
    decreases n,
{
    if n > 0 {
        lemma_pow10_positive((n - 1) as nat);
    }
}

/// Powers of ten grow with the exponent.
pub proof fn lemma_pow10_monotone(a: nat, b: nat)
    requires
        a <= b,
    ensures
        pow10(a) <= pow10(b),
    decreases b,
{
    if a < b {
        lemma_pow10_monotone(a, (b - 1) as nat);
        lemma_pow10_positive((b - 1) as nat);
    }
}

/// `10^(a + b) == 10^a * 10^b`.
pub proof fn lemma_pow10_adds(a: nat, b: nat)
    ensures
        pow10(a + b) == pow10(a) * pow10(b),
    decreases a,
{
    if a > 0 {
        lemma_pow10_adds((a - 1) as nat, b);
        let x = pow10((a - 1) as nat);
        let y = pow10(b);
        assert(pow10(a + b) == 10 * pow10((a - 1 + b) as nat));
        assert(10 * (x * y) == (10 * x) * y) by (nonlinear_arith);
    } else {
        assert(pow10(a + b) == pow10(b));
        assert(1 * pow10(b) == pow10(b));
    }
}

/// The largest power of ten that a scale can ask for.
pub proof fn lemma_pow10_max(n: nat)
    requires
        n <= MAX_SCALE,
    ensures
        1 <= pow10(n) <= 10_000_000_000_000_000_000_000_000_000,
{
    assert(pow10(28) == 10_000_000_000_000_000_000_000_000_000) by {
        reveal_with_fuel(pow10, 29);
    }
    lemma_pow10_monotone(n, 28);
    lemma_pow10_positive(n);
}

/// `10^n` for a scale `n`.
pub fn pow10_exec(n: u32) -> (r: i128)
    requires
        n <= MAX_SCALE,
    ensures
        r == pow10(n as nat),
        1 <= r <= 10_000_000_000_000_000_000_000_000_000,
{
    let mut r: i128 = 1;
    let mut i: u32 = 0;
    while i < n
        invariant
            i <= n <= MAX_SCALE,
            r == pow10(i as nat),
            1 <= r <= 10_000_000_000_000_000_000_000_000_000,
        decreases n - i,
    {
        proof {
            lemma_pow10_max((i + 1) as nat);
        }
        r = r * 10;
        i = i + 1;
    }
    r
}

/// Whether the exact sum of two decimals, written at the larger of their
/// scales, has a mantissa of 96 bits.
fn sum_fits_exec(m1: i128, s1: u32, m2: i128, s2: u32) -> (r: bool)
    requires
        repr_valid(m1 as int, s1 as nat),
        repr_valid(m2 as int, s2 as nat),
    ensures
        r == sum_fits(m1 as int, s1 as nat, m2 as int, s2 as nat),
{
    let s: u32 = if s1 >= s2 {
        s1
    } else {
        s2
    };
    let lift1: i128 = pow10_exec(s - s1);
    let lift2: i128 = pow10_exec(s - s2);
    assert(lift1 == 1 || lift2 == 1);
    assert(m1 * 1 == m1 && m2 * 1 == m2);
    match (m1.checked_mul(lift1), m2.checked_mul(lift2)) {
        (Some(a), Some(b)) => match a.checked_add(b) {
            Some(m) => -MAX_MANTISSA <= m && m <= MAX_MANTISSA,
            None => false,
        },
        _ => false,
    }
}

/// An exact decimal number.
#[derive(Clone, Copy, Debug)]
pub struct Amount {
    pub mantissa: i128,
    pub scale: u32,
}

impl Amount {
    /// The mantissa fits 96 bits and the scale is at most 28.
    pub open spec fn wf(&self) -> bool {
        repr_valid(self.mantissa as int, self.scale as nat)
    }

    /// The number in units of `10^-28`.
    pub open spec fn value(&self) -> int {
        repr_value(self.mantissa as int, self.scale as nat)
    }

    /// What rounding to `dp` fractional digits leaves.
    pub open spec fn rounded(&self, dp: nat) -> Amount {
        let r = rounded_repr(self.mantissa as int, self.scale as nat, dp);
        Amount { mantissa: r.0 as i128, scale: r.1 as u32 }
    }

    /// The sum with `other` can be held exactly.
    pub open spec fn can_add(&self, other: &Amount) -> bool {
        sum_fits(
            self.mantissa as int,
            self.scale as nat,
            other.mantissa as int,
            other.scale as nat,
        )
    }

    /// The difference to `other` can be held exactly.
    pub open spec fn can_sub(&self, other: &Amount) -> bool {
        sum_fits(
            self.mantissa as int,
            self.scale as nat,
            -(other.mantissa as int),
            other.scale as nat,
        )
    }

    /// The amount can be written at the larger of its scale and that of
    /// `other`.
    pub open spec fn fits_beside(&self, other: &Amount) -> bool {
        sum_fits(self.mantissa as int, self.scale as nat, 0, other.scale as nat)
    }

    /// The text of the amount.
    pub open spec fn text(&self) -> Seq<char> {
        decimal_text(self.mantissa as int, self.scale as nat)
    }

    /// The amount `mantissa / 10^scale`, where a decimal can hold it.
    pub fn new(mantissa: i128, scale: u32) -> (r: Option<Amount>)
        ensures
            r is Some <==> repr_valid(mantissa as int, scale as nat),
            r matches Some(a) ==> a.mantissa == mantissa && a.scale == scale,
    {
        if scale <= MAX_SCALE && -MAX_MANTISSA <= mantissa && mantissa <= MAX_MANTISSA {
            Some(Amount { mantissa, scale })
        } else {
            None
        }
    }

    /// Zero.
    pub fn zero() -> (r: Amount)
        ensures
            r.wf(),
            r.mantissa == 0,
            r.scale == 0,
            r.value() == 0,
    {
        Amount { mantissa: 0, scale: 0 }
    }

    /// Whether the amount is zero.
    pub fn is_zero(&self) -> (r: bool)
        ensures
            r == (self.mantissa == 0),
    {
        self.mantissa == 0
    }

    /// Whether the amount is zero or more.
    pub fn is_sign_positive(&self) -> (r: bool)
        ensures
            r == (self.mantissa >= 0),
    {
        self.mantissa >= 0
    }

    /// The magnitude of the amount, at the same scale.
    pub fn abs(&self) -> (r: Amount)
        requires
            self.wf(),
        ensures
            r.wf(),
            r.scale == self.scale,
            r.mantissa == if self.mantissa >= 0 {
                self.mantissa as int
            } else {
                -self.mantissa
            },
    {
        if self.mantissa >= 0 {
            *self
        } else {
            Amount { mantissa: -self.mantissa, scale: self.scale }
        }
    }

    /// Whether the amount is at least `other`.
    pub fn ge(&self, other: &Amount) -> (r: bool)
        requires
            self.wf(),
            other.wf(),
        ensures
            r == (self.value() >= other.value()),
    {
        decimal_ge(self.mantissa, self.scale, other.mantissa, other.scale)
    }

    /// The amount rounded half to even to at most `dp` fractional digits.
    pub fn round_dp(&self, dp: u32) -> (r: Amount)
        requires
            self.wf(),
        ensures
            r.wf(),
            r == self.rounded(dp as nat),
            r.scale <= dp,
            self.mantissa >= 0 ==> r.mantissa >= 0,
            self.scale <= dp ==> r == *self,
    {
        let (mantissa, scale) = decimal_round_dp(self.mantissa, self.scale, dp);
        proof {
            lemma_round_sign(self.mantissa as int, self.scale as nat, dp as nat);
            lemma_round_valid(self.mantissa as int, self.scale as nat, dp as nat);
        }
        Amount { mantissa, scale }
    }

    /// The exact sum, or `None` where a decimal cannot hold it at the larger
    /// of the two scales.
    pub fn checked_add(&self, other: &Amount) -> (r: Option<Amount>)
        requires
            self.wf(),
            other.wf(),
        ensures
            r is Some <==> self.can_add(other),
            r matches Some(a) ==> a.wf() && a.value() == self.value() + other.value() && a.scale
                <= max_scale(self.scale as nat, other.scale as nat),
    {
        if !sum_fits_exec(self.mantissa, self.scale, other.mantissa, other.scale) {
            return None;
        }
        match decimal_checked_add(self.mantissa, self.scale, other.mantissa, other.scale) {
            Some((mantissa, scale)) => Some(Amount { mantissa, scale }),
            None => None,
        }
    }

    /// The exact difference, or `None` where a decimal cannot hold it at the
    /// larger of the two scales.
    pub fn checked_sub(&self, other: &Amount) -> (r: Option<Amount>)
        requires
            self.wf(),
            other.wf(),
        ensures
            r is Some <==> self.can_sub(other),
            r matches Some(a) ==> a.wf() && a.value() == self.value() - other.value() && a.scale
                <= max_scale(self.scale as nat, other.scale as nat),
    {
        if !sum_fits_exec(self.mantissa, self.scale, -other.mantissa, other.scale) {
            return None;
        }
        match decimal_checked_sub(self.mantissa, self.scale, other.mantissa, other.scale) {
            Some((mantissa, scale)) => Some(Amount { mantissa, scale }),
            None => None,
        }
    }

    /// The amount as text, with as many fractional digits as its scale.
    pub fn to_string(&self) -> (r: String)
        requires
            self.wf(),
        ensures
            r@ == self.text(),
    {
        decimal_to_string(self.mantissa, self.scale)
    }
}

/// Rounding keeps a decimal's sign: what is zero or more stays so, and what is
/// zero or less stays so.
pub proof fn lemma_round_sign(mantissa: int, scale: nat, dp: nat)
    ensures
        mantissa >= 0 ==> rounded_repr(mantissa, scale, dp).0 >= 0,
        rounded_repr(mantissa, scale, dp).1 <= dp,
{
    if scale > dp {
        let q = pow10((scale - dp) as nat);
        lemma_pow10_positive((scale - dp) as nat);
        if mantissa >= 0 {
            assert(mantissa / q >= 0) by (nonlinear_arith)
                requires
                    mantissa >= 0,
                    q >= 1,
            ;
        }
    }
}

/// A value has the sign of its mantissa.
pub proof fn lemma_value_sign(mantissa: int, scale: nat)
    requires
        scale <= MAX_SCALE,
    ensures
        repr_value(mantissa, scale) >= 0 <==> mantissa >= 0,
        repr_value(mantissa, scale) == 0 <==> mantissa == 0,
{
    let p = pow10((MAX_SCALE - scale) as nat);
    lemma_pow10_positive((MAX_SCALE - scale) as nat);
    assert((mantissa * p >= 0 <==> mantissa >= 0) && (mantissa * p == 0 <==> mantissa == 0))
        by (nonlinear_arith)
        requires
            p >= 1,
    ;
}

/// The value of an aligned sum is the sum of the two values.
pub proof fn lemma_aligned_sum_value(m1: int, s1: nat, m2: int, s2: nat)
    requires
        s1 <= MAX_SCALE,
        s2 <= MAX_SCALE,
    ensures
        repr_value(aligned_sum(m1, s1, m2, s2), max_scale(s1, s2)) == repr_value(m1, s1)
            + repr_value(m2, s2),
{
    let s = max_scale(s1, s2);
    let rest = pow10((MAX_SCALE - s) as nat);
    let lift1 = pow10((s - s1) as nat);
    let lift2 = pow10((s - s2) as nat);
    lemma_pow10_adds((s - s1) as nat, (MAX_SCALE - s) as nat);
    lemma_pow10_adds((s - s2) as nat, (MAX_SCALE - s) as nat);
    assert(pow10((MAX_SCALE - s1) as nat) == lift1 * rest);
    assert(pow10((MAX_SCALE - s2) as nat) == lift2 * rest);
    assert((m1 * lift1 + m2 * lift2) * rest == m1 * (lift1 * rest) + m2 * (lift2 * rest))
        by (nonlinear_arith);
}

/// Two decimals that are zero or more, with no more than `dp` fractional
/// digits each, can be added exactly wherever their sum, written with `dp`
/// fractional digits, has a mantissa of 96 bits.
pub proof fn lemma_sum_fits_within(m1: int, s1: nat, m2: int, s2: nat, dp: nat)
    requires
        m1 >= 0,
        m2 >= 0,
        s1 <= dp <= MAX_SCALE,
        s2 <= dp,
        repr_value(m1, s1) + repr_value(m2, s2) <= MAX_MANTISSA * pow10((MAX_SCALE - dp) as nat),
    ensures
        sum_fits(m1, s1, m2, s2),
{
    let s = max_scale(s1, s2);
    let sum = aligned_sum(m1, s1, m2, s2);
    let rest = pow10((MAX_SCALE - s) as nat);
    let low = pow10((MAX_SCALE - dp) as nat);
    let lift1 = pow10((s - s1) as nat);
    let lift2 = pow10((s - s2) as nat);
    lemma_aligned_sum_value(m1, s1, m2, s2);
    lemma_pow10_positive((s - s1) as nat);
    lemma_pow10_positive((s - s2) as nat);
    lemma_pow10_positive((MAX_SCALE - dp) as nat);
    lemma_pow10_monotone((MAX_SCALE - dp) as nat, (MAX_SCALE - s) as nat);
    assert(sum >= 0) by (nonlinear_arith)
        requires
            sum == m1 * lift1 + m2 * lift2,
            m1 >= 0,
            m2 >= 0,
            lift1 >= 1,
            lift2 >= 1,
    ;
    assert(sum <= MAX_MANTISSA) by (nonlinear_arith)
        requires
            sum * rest <= MAX_MANTISSA * low,
            1 <= low <= rest,
            sum >= 0,
    ;
}

/// What was added exactly can be taken again exactly: where `held` and `size`
/// are zero or more and `sum` is their exact sum, at a scale no larger than
/// the larger of theirs, `sum - size` can be held, and is `held`.
pub proof fn lemma_sub_undoes_add(held: Amount, size: Amount, sum: Amount)
    requires
        held.wf(),
        size.wf(),
        sum.wf(),
        held.mantissa >= 0,
        size.mantissa >= 0,
        held.can_add(&size),
        sum.value() == held.value() + size.value(),
        sum.scale <= max_scale(held.scale as nat, size.scale as nat),
    ensures
        sum.value() >= size.value(),
        sum.can_sub(&size),
{
    let s = max_scale(held.scale as nat, size.scale as nat);
    let t = max_scale(sum.scale as nat, size.scale as nat);
    let diff = aligned_sum(sum.mantissa as int, sum.scale as nat, -(size.mantissa as int), size.scale as nat);
    let part = held.mantissa * pow10((s - held.scale) as nat);
    let other = size.mantissa * pow10((s - size.scale) as nat);
    let rest = pow10((MAX_SCALE - s) as nat);
    let step = pow10((s - t) as nat);
    lemma_value_sign(held.mantissa as int, held.scale as nat);
    lemma_aligned_sum_value(sum.mantissa as int, sum.scale as nat, -(size.mantissa as int), size.scale as nat);
    lemma_pow10_positive((s - held.scale) as nat);
    lemma_pow10_positive((s - size.scale) as nat);
    lemma_pow10_positive((MAX_SCALE - s) as nat);
    lemma_pow10_positive((s - t) as nat);
    lemma_pow10_adds((s - held.scale) as nat, (MAX_SCALE - s) as nat);
    lemma_pow10_adds((s - t) as nat, (MAX_SCALE - s) as nat);
    assert(repr_value(-(size.mantissa as int), size.scale as nat) == -size.value())
        by (nonlinear_arith);
    assert(held.value() == part * rest) by (nonlinear_arith)
        requires
            held.value() == held.mantissa * pow10((MAX_SCALE - held.scale) as nat),
            pow10((MAX_SCALE - held.scale) as nat) == pow10((s - held.scale) as nat) * rest,
            part == held.mantissa * pow10((s - held.scale) as nat),
    ;
    assert(diff * step == part) by (nonlinear_arith)
        requires
            diff * pow10((MAX_SCALE - t) as nat) == part * rest,
            pow10((MAX_SCALE - t) as nat) == step * rest,
            rest >= 1,
    ;
    assert(0 <= part <= MAX_MANTISSA) by (nonlinear_arith)
        requires
            part == held.mantissa * pow10((s - held.scale) as nat),
            other == size.mantissa * pow10((s - size.scale) as nat),
            part + other <= MAX_MANTISSA,
            held.mantissa >= 0,
            size.mantissa >= 0,
            pow10((s - held.scale) as nat) >= 1,
            pow10((s - size.scale) as nat) >= 1,
    ;
    assert(0 <= diff <= part) by (nonlinear_arith)
        requires
            diff * step == part,
            step >= 1,
            part >= 0,
    ;
}

/// What was taken exactly can be added again exactly, where the amount held
/// before can be written at the larger of the two scales: where `held` and
/// `size` are zero or more and `diff` is their exact difference, at a scale
/// no larger than the larger of theirs, `diff + size` can be held.
pub proof fn lemma_add_undoes_sub(held: Amount, size: Amount, diff: Amount)
    requires
        held.wf(),
        size.wf(),
        diff.wf(),
        held.mantissa >= 0,
        size.mantissa >= 0,
        held.fits_beside(&size),
        diff.value() == held.value() - size.value(),
        diff.scale <= max_scale(held.scale as nat, size.scale as nat),
    ensures
        diff.can_add(&size),
{
    let s = max_scale(held.scale as nat, size.scale as nat);
    let t = max_scale(diff.scale as nat, size.scale as nat);
    let sum = aligned_sum(diff.mantissa as int, diff.scale as nat, size.mantissa as int, size.scale as nat);
    let part = held.mantissa * pow10((s - held.scale) as nat);
    let rest = pow10((MAX_SCALE - s) as nat);
    let step = pow10((s - t) as nat);
    lemma_aligned_sum_value(diff.mantissa as int, diff.scale as nat, size.mantissa as int, size.scale as nat);
    lemma_pow10_positive((s - held.scale) as nat);
    lemma_pow10_positive((s - size.scale) as nat);
    lemma_pow10_positive((MAX_SCALE - s) as nat);
    lemma_pow10_positive((s - t) as nat);
    lemma_pow10_adds((s - held.scale) as nat, (MAX_SCALE - s) as nat);
    lemma_pow10_adds((s - t) as nat, (MAX_SCALE - s) as nat);
    assert(0 * pow10((s - size.scale) as nat) == 0);
    assert(held.value() == part * rest) by (nonlinear_arith)
        requires
            held.value() == held.mantissa * pow10((MAX_SCALE - held.scale) as nat),
            pow10((MAX_SCALE - held.scale) as nat) == pow10((s - held.scale) as nat) * rest,
            part == held.mantissa * pow10((s - held.scale) as nat),
    ;
    assert(sum * step == part) by (nonlinear_arith)
        requires
            sum * pow10((MAX_SCALE - t) as nat) == part * rest,
            pow10((MAX_SCALE - t) as nat) == step * rest,
            rest >= 1,
    ;
    assert(part >= 0) by (nonlinear_arith)
        requires
            part == held.mantissa * pow10((s - held.scale) as nat),
            held.mantissa >= 0,
            pow10((s - held.scale) as nat) >= 1,
    ;
    assert(0 <= sum <= part) by (nonlinear_arith)
        requires
            sum * step == part,
            step >= 1,
            part >= 0,
    ;
}

/// Rounding a decimal leaves a decimal.
pub proof fn lemma_round_valid(mantissa: int, scale: nat, dp: nat)
    requires
        repr_valid(mantissa, scale),
    ensures
        repr_valid(rounded_repr(mantissa, scale, dp).0, rounded_repr(mantissa, scale, dp).1),
{
    if scale > dp {
        let q = pow10((scale - dp) as nat);
        lemma_pow10_positive((scale - dp) as nat);
        assert(q >= 10) by {
            lemma_pow10_monotone(1, (scale - dp) as nat);
            assert(pow10(1) == 10) by {
                reveal_with_fuel(pow10, 2);
            }
        }
        let lo = mantissa / q;
        assert(-MAX_MANTISSA <= lo && lo + 1 <= MAX_MANTISSA) by (nonlinear_arith)
            requires
                lo == mantissa / q,
                q >= 10,
                -MAX_MANTISSA <= mantissa <= MAX_MANTISSA,
        ;
    }
}

} // verus!
