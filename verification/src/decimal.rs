//! Exact decimal numbers: a signed 96-bit mantissa and a power of ten.
//!
//! A [`Decimal`] holds the two integers that make up a
//! `rust_decimal::Decimal`. Ordering, minimum and subtraction are done by that
//! crate; the functions that call it are the only unverified code here.

use vstd::prelude::*;

verus! {

/// The largest magnitude of a mantissa: 2^96 - 1.
pub const MAX_MANTISSA: i128 = 79_228_162_514_264_337_593_543_950_335;

/// The largest scale: a value has at most this many digits after the point.
pub const MAX_SCALE: u32 = 28;

/// The number `mantissa / 10^scale`.
#[derive(Clone, Copy, Debug)]
pub struct Decimal {
    mantissa: i128,
    scale: u32,
}

/// The view of a [`Decimal`]: its two integers.
pub ghost struct DecimalView {
    pub mantissa: int,
    pub scale: nat,
}

/// Ten to the power `n`.
pub open spec fn pow10(n: nat) -> int
    decreases n,
{
    if n == 0 {
        1
    } else {
        10 * pow10((n - 1) as nat)
    }
}

/// The mantissa and scale of what `rust_decimal` returns for `a - b`, given
/// the mantissas and scales of `a` and `b`, where the two scales differ.
pub uninterp spec fn unaligned_difference(
    a_mantissa: int,
    a_scale: nat,
    b_mantissa: int,
    b_scale: nat,
) -> (int, nat);

impl DecimalView {
    /// The mantissa fits in 96 bits and the scale is at most 28.
    pub open spec fn wf(self) -> bool {
        &&& -MAX_MANTISSA <= self.mantissa <= MAX_MANTISSA
        &&& self.scale <= MAX_SCALE
    }

    /// The value, counted in units of 10^-28: an integer for every
    /// well-formed decimal, and equal for two decimals exactly when they
    /// denote the same number.
    pub open spec fn units(self) -> int {
        self.mantissa * pow10((MAX_SCALE - self.scale) as nat)
    }

    /// The difference `self - other` of two decimals with
    /// `0 <= other <= self`. Where the scales agree it is exact and keeps the
    /// scale; where they differ it is what `rust_decimal` computes.
    pub open spec fn minus(self, other: DecimalView) -> DecimalView {
        if self.scale == other.scale {
            DecimalView { mantissa: self.mantissa - other.mantissa, scale: self.scale }
        } else {
            let d = unaligned_difference(self.mantissa, self.scale, other.mantissa, other.scale);
            DecimalView { mantissa: d.0, scale: d.1 }
        }
    }

    /// No rounding took place in `self.minus(other)`.
    pub open spec fn minus_is_exact(self, other: DecimalView) -> bool {
        self.minus(other).units() == self.units() - other.units()
    }
}

impl View for Decimal {
    type V = DecimalView;

    closed spec fn view(&self) -> DecimalView {
        DecimalView { mantissa: self.mantissa as int, scale: self.scale as nat }
    }
}

impl Decimal {
    /// The decimal `mantissa / 10^scale`, or `None` where the mantissa needs
    /// more than 96 bits or the scale is over 28.
    pub fn new(mantissa: i128, scale: u32) -> (r: Option<Decimal>)
        ensures
            r is Some <==> -MAX_MANTISSA <= mantissa <= MAX_MANTISSA && scale <= MAX_SCALE,
            r is Some ==> r.unwrap()@ == (DecimalView {
                mantissa: mantissa as int,
                scale: scale as nat,
            }),
    {
        if scale <= MAX_SCALE && mantissa <= MAX_MANTISSA && mantissa >= -MAX_MANTISSA {
            Some(Decimal { mantissa, scale })
        } else {
            None
        }
    }

    /// Zero, with scale 0.
    pub fn zero() -> (r: Decimal)
        ensures
            r@ == (DecimalView { mantissa: 0, scale: 0 }),
    {
        Decimal { mantissa: 0, scale: 0 }
    }

    /// The mantissa: the number without its decimal point.
    pub fn mantissa(&self) -> (m: i128)
        ensures
            m == self@.mantissa,
    {
        self.mantissa
    }

    /// The scale: the number of digits after the decimal point.
    pub fn scale(&self) -> (s: u32)
        ensures
            s == self@.scale,
    {
        self.scale
    }
}

/// Every power of ten is positive.
pub proof fn lemma_pow10_positive(n: nat)
    ensures
        pow10(n) > 0,
    decreases n,
{
    if n > 0 {
        lemma_pow10_positive((n - 1) as nat);
    }
}

/// A decimal has the sign of its mantissa.
pub proof fn lemma_units_sign(d: DecimalView)
    ensures
        d.units() > 0 <==> d.mantissa > 0,
        d.units() == 0 <==> d.mantissa == 0,
        d.units() < 0 <==> d.mantissa < 0,
{
    let p = pow10((MAX_SCALE - d.scale) as nat);
    lemma_pow10_positive((MAX_SCALE - d.scale) as nat);
    assert(d.mantissa > 0 ==> d.mantissa * p > 0) by (nonlinear_arith)
        requires p > 0;
    assert(d.mantissa < 0 ==> d.mantissa * p < 0) by (nonlinear_arith)
        requires p > 0;
    assert(d.mantissa == 0 ==> d.mantissa * p == 0) by (nonlinear_arith);
}

/// Subtraction of two decimals of one scale is exact.
pub proof fn lemma_aligned_minus_exact(a: DecimalView, b: DecimalView)
    requires
        a.scale == b.scale,
    ensures
        a.minus_is_exact(b),
{
    let p = pow10((MAX_SCALE - a.scale) as nat);
    assert((a.mantissa - b.mantissa) * p == a.mantissa * p - b.mantissa * p) by (nonlinear_arith);
}

/// Calls `>` of `rust_decimal::Decimal` (its `PartialOrd`, which goes by its
/// `Ord::cmp`) on the decimals made of the two arguments with
/// `Decimal::from_i128_with_scale`.
///
/// Believed, not proved: the comparison goes by the numbers that the two
/// decimals denote, whatever their scales, so that `1.0` and `1.00` are
/// neither greater than the other.
#[verifier::external_body]
pub(crate) fn greater_than(a: Decimal, b: Decimal) -> (r: bool)
    requires
        a@.wf(),
        b@.wf(),
    ensures
        r == (a@.units() > b@.units()),
{
    let x = rust_decimal::Decimal::from_i128_with_scale(a.mantissa, a.scale);
    let y = rust_decimal::Decimal::from_i128_with_scale(b.mantissa, b.scale);
    x > y
}

/// Calls `rust_decimal::Decimal::min`.
///
/// Believed, not proved: it returns its second argument where the first
/// denotes the greater number, and its first argument otherwise, in either
/// case with the mantissa and scale that the argument has.
#[verifier::external_body]
pub(crate) fn minimum(a: Decimal, b: Decimal) -> (r: Decimal)
    requires
        a@.wf(),
        b@.wf(),
    ensures
        r@ == (if a@.units() > b@.units() { b@ } else { a@ }),
{
    let x = rust_decimal::Decimal::from_i128_with_scale(a.mantissa, a.scale);
    let y = rust_decimal::Decimal::from_i128_with_scale(b.mantissa, b.scale);
    let m = x.min(y);
    Decimal { mantissa: m.mantissa(), scale: m.scale() }
}

/// Calls `-` of `rust_decimal::Decimal` (its `Sub`), which panics where the
/// difference is out of range. It is called for `0 <= b <= a` only, where
/// the difference lies between 0 and `a`.
///
/// Believed, not proved: the call returns; what it returns has a mantissa of
/// at most 96 bits and a scale of at most 28, as every `rust_decimal::Decimal`
/// has; and where `a` and `b` have the same scale, the result has that scale
/// and the difference of the two mantissas as its mantissa. Where the scales
/// differ, nothing is claimed of the result but that it depends on the two
/// arguments alone: the crate then aligns the scales, and rounds where the
/// exact difference does not fit.
#[verifier::external_body]
pub(crate) fn subtract(a: Decimal, b: Decimal) -> (r: Decimal)
    requires
        a@.wf(),
        b@.wf(),
        0 <= b@.units() <= a@.units(),
    ensures
        r@.wf(),
        a@.scale == b@.scale ==> r@ == (DecimalView {
            mantissa: a@.mantissa - b@.mantissa,
            scale: a@.scale,
        }),
        a@.scale != b@.scale ==> (r@.mantissa, r@.scale) == unaligned_difference(
            a@.mantissa,
            a@.scale,
            b@.mantissa,
            b@.scale,
        ),
{
    let x = rust_decimal::Decimal::from_i128_with_scale(a.mantissa, a.scale);
    let y = rust_decimal::Decimal::from_i128_with_scale(b.mantissa, b.scale);
    let d = x - y;
    Decimal { mantissa: d.mantissa(), scale: d.scale() }
}

} // verus!
