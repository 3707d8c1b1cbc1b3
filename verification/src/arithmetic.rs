//! Fixed-point fractions ("parts per billion / million / quintillion").
//!
//! The three types hold the number of parts as a plain integer. All arithmetic
//! on them is done by `sp-arithmetic`; the wrappers at the end of this file
//! state what its source computes.

use vstd::prelude::*;

verus! {

/// Number of parts that make up one whole [`Perbill`].
pub const PERBILL_ACCURACY: u32 = 1_000_000_000;

/// Number of parts that make up one whole [`Permill`].
pub const PERMILL_ACCURACY: u32 = 1_000_000;

/// Number of parts that make up one whole [`Perquintill`].
pub const PERQUINTILL_ACCURACY: u64 = 1_000_000_000_000_000_000;

/// `x * parts / accuracy`, rounded to the nearest integer, a tie going down.
///
/// Written the way `sp-arithmetic` evaluates it: the whole multiples of
/// `accuracy` in `x` are scaled exactly, and only the remainder is rounded.
pub open spec fn spec_mul_nearest(x: int, parts: int, accuracy: int) -> int {
    let rem_mul = (x % accuracy) * parts;
    let correction = if rem_mul % accuracy > accuracy / 2 {
        rem_mul / accuracy + 1
    } else {
        rem_mul / accuracy
    };
    (x / accuracy) * parts + correction
}

/// The fraction `p / q` in parts of `accuracy`, rounded down; a zero
/// denominator or a numerator above the denominator gives one whole.
pub open spec fn spec_from_rational(p: int, q: int, accuracy: int) -> int {
    if q == 0 || p > q {
        accuracy
    } else {
        (accuracy * p) / q
    }
}

/// `x` hundredths (at most 100 of them) in parts of `accuracy`, rounded down.
pub open spec fn spec_from_percent(x: int, accuracy: int) -> int {
    (if x > 100 { 100 } else { x }) * accuracy / 100
}

/// `x` thousandths (at most 1000 of them) in parts of `accuracy`, rounded down.
pub open spec fn spec_from_perthousand(x: int, accuracy: int) -> int {
    (if x > 1000 { 1000 } else { x }) * accuracy / 1000
}

/// Parts per billion.
#[derive(Clone, Copy, Debug, PartialEq, Eq, Structural)]
pub struct Perbill {
    pub parts: u32,
}

/// Parts per million.
#[derive(Clone, Copy, Debug, PartialEq, Eq, Structural)]
pub struct Permill {
    pub parts: u32,
}

/// Parts per quintillion.
#[derive(Clone, Copy, Debug, PartialEq, Eq, Structural)]
pub struct Perquintill {
    pub parts: u64,
}

impl Perbill {
    /// A fraction never exceeds one whole.
    pub open spec fn wf(self) -> bool {
        self.parts <= PERBILL_ACCURACY
    }

    pub fn zero() -> (r: Perbill)
        ensures
            r.parts == 0,
            r.wf(),
    {
        Perbill { parts: 0 }
    }

    pub fn one() -> (r: Perbill)
        ensures
            r.parts == PERBILL_ACCURACY,
            r.wf(),
    {
        Perbill { parts: PERBILL_ACCURACY }
    }

    /// Builds a fraction from its parts; more than one whole is cut to one.
    pub fn from_parts(parts: u32) -> (r: Perbill)
        ensures
            r.wf(),
            r.parts == if parts > PERBILL_ACCURACY { PERBILL_ACCURACY } else { parts },
    {
        if parts > PERBILL_ACCURACY {
            Perbill { parts: PERBILL_ACCURACY }
        } else {
            Perbill { parts }
        }
    }

    pub fn deconstruct(self) -> (r: u32)
        ensures
            r == self.parts,
    {
        self.parts
    }

    /// `x` percent; anything above 100 counts as 100.
    pub fn from_percent(x: u32) -> (r: Perbill)
        ensures
            r.wf(),
            r.parts == spec_from_percent(x as int, PERBILL_ACCURACY as int),
    {
        let parts = perbill_from_percent(x);
        assert(spec_from_percent(x as int, PERBILL_ACCURACY as int) <= PERBILL_ACCURACY) by {
            let c: int = if x > 100 { 100 } else { x as int };
            assert(c * 1_000_000_000 / 100 <= 1_000_000_000);
        }
        Perbill { parts }
    }

    /// `x` per thousand; anything above 1000 counts as 1000.
    pub fn from_perthousand(x: u32) -> (r: Perbill)
        ensures
            r.wf(),
            r.parts == spec_from_perthousand(x as int, PERBILL_ACCURACY as int),
    {
        let parts = perbill_from_perthousand(x);
        assert(spec_from_perthousand(x as int, PERBILL_ACCURACY as int) <= PERBILL_ACCURACY) by {
            let c: int = if x > 1000 { 1000 } else { x as int };
            assert(c * 1_000_000_000 / 1000 <= 1_000_000_000);
        }
        Perbill { parts }
    }

    /// What is missing from `self` to one whole.
    pub fn left_from_one(self) -> (r: Perbill)
        requires
            self.wf(),
        ensures
            r.wf(),
            r.parts == PERBILL_ACCURACY - self.parts,
    {
        Perbill { parts: perbill_left_from_one(self.parts) }
    }

    /// The product of two fractions, rounded down to whole parts.
    pub fn mul(self, rhs: Perbill) -> (r: Perbill)
        requires
            self.wf(),
            rhs.wf(),
        ensures
            r.wf(),
            r.parts == (self.parts as int * rhs.parts as int) / (PERBILL_ACCURACY as int),
    {
        let parts = perbill_mul_perbill(self.parts, rhs.parts);
        assert((self.parts as int * rhs.parts as int) / 1_000_000_000 <= 1_000_000_000) by (nonlinear_arith)
            requires
                self.parts <= 1_000_000_000,
                rhs.parts <= 1_000_000_000,
        ;
        Perbill { parts }
    }

    /// This fraction of `x`, rounded to the nearest integer (a tie goes down).
    pub fn mul_balance(self, x: u128) -> (r: u128)
        requires
            self.wf(),
        ensures
            r == spec_mul_nearest(x as int, self.parts as int, PERBILL_ACCURACY as int),
            r <= x,
    {
        proof {
            lemma_mul_nearest_bound(x as int, self.parts as int, PERBILL_ACCURACY as int);
        }
        perbill_mul_balance(self.parts, x)
    }
}

impl Permill {
    /// A fraction never exceeds one whole.
    pub open spec fn wf(self) -> bool {
        self.parts <= PERMILL_ACCURACY
    }

    pub fn zero() -> (r: Permill)
        ensures
            r.parts == 0,
            r.wf(),
    {
        Permill { parts: 0 }
    }

    pub fn one() -> (r: Permill)
        ensures
            r.parts == PERMILL_ACCURACY,
            r.wf(),
    {
        Permill { parts: PERMILL_ACCURACY }
    }

    /// Builds a fraction from its parts; more than one whole is cut to one.
    pub fn from_parts(parts: u32) -> (r: Permill)
        ensures
            r.wf(),
            r.parts == if parts > PERMILL_ACCURACY { PERMILL_ACCURACY } else { parts },
    {
        if parts > PERMILL_ACCURACY {
            Permill { parts: PERMILL_ACCURACY }
        } else {
            Permill { parts }
        }
    }

    pub fn deconstruct(self) -> (r: u32)
        ensures
            r == self.parts,
    {
        self.parts
    }

    /// `x` percent; anything above 100 counts as 100.
    pub fn from_percent(x: u32) -> (r: Permill)
        ensures
            r.wf(),
            r.parts == spec_from_percent(x as int, PERMILL_ACCURACY as int),
    {
        let parts = permill_from_percent(x);
        assert(spec_from_percent(x as int, PERMILL_ACCURACY as int) <= PERMILL_ACCURACY) by {
            let c: int = if x > 100 { 100 } else { x as int };
            assert(c * 1_000_000 / 100 <= 1_000_000);
        }
        Permill { parts }
    }

    /// The fraction `p / q`, rounded down; one whole if `q` is zero or `p`
    /// exceeds `q`.
    pub fn from_rational(p: u64, q: u64) -> (r: Permill)
        ensures
            r.wf(),
            r.parts == spec_from_rational(p as int, q as int, PERMILL_ACCURACY as int),
    {
        let parts = permill_from_rational(p, q);
        proof {
            lemma_from_rational_bound(p as int, q as int, PERMILL_ACCURACY as int);
        }
        Permill { parts }
    }

    /// This fraction of `x`, rounded to the nearest integer (a tie goes down).
    pub fn mul_balance(self, x: u128) -> (r: u128)
        requires
            self.wf(),
        ensures
            r == spec_mul_nearest(x as int, self.parts as int, PERMILL_ACCURACY as int),
            r <= x,
    {
        proof {
            lemma_mul_nearest_bound(x as int, self.parts as int, PERMILL_ACCURACY as int);
        }
        permill_mul_balance(self.parts, x)
    }
}

impl Perquintill {
    /// A fraction never exceeds one whole.
    pub open spec fn wf(self) -> bool {
        self.parts <= PERQUINTILL_ACCURACY
    }

    pub fn zero() -> (r: Perquintill)
        ensures
            r.parts == 0,
            r.wf(),
    {
        Perquintill { parts: 0 }
    }

    pub fn one() -> (r: Perquintill)
        ensures
            r.parts == PERQUINTILL_ACCURACY,
            r.wf(),
    {
        Perquintill { parts: PERQUINTILL_ACCURACY }
    }

    /// Builds a fraction from its parts; more than one whole is cut to one.
    pub fn from_parts(parts: u64) -> (r: Perquintill)
        ensures
            r.wf(),
            r.parts == if parts > PERQUINTILL_ACCURACY { PERQUINTILL_ACCURACY } else { parts },
    {
        if parts > PERQUINTILL_ACCURACY {
            Perquintill { parts: PERQUINTILL_ACCURACY }
        } else {
            Perquintill { parts }
        }
    }

    pub fn deconstruct(self) -> (r: u64)
        ensures
            r == self.parts,
    {
        self.parts
    }

    /// The fraction `p / q`, rounded down; one whole if `q` is zero or `p`
    /// exceeds `q`.
    pub fn from_rational(p: u128, q: u128) -> (r: Perquintill)
        ensures
            r.wf(),
            r.parts == spec_from_rational(p as int, q as int, PERQUINTILL_ACCURACY as int),
    {
        let parts = perquintill_from_rational(p, q);
        proof {
            lemma_from_rational_bound(p as int, q as int, PERQUINTILL_ACCURACY as int);
        }
        Perquintill { parts }
    }

    /// This fraction of `x`, rounded to the nearest integer (a tie goes down).
    pub fn mul_balance(self, x: u128) -> (r: u128)
        requires
            self.wf(),
        ensures
            r == spec_mul_nearest(x as int, self.parts as int, PERQUINTILL_ACCURACY as int),
            r <= x,
    {
        proof {
            lemma_mul_nearest_bound(x as int, self.parts as int, PERQUINTILL_ACCURACY as int);
        }
        perquintill_mul_balance(self.parts, x)
    }
}

/// A fraction built from a ratio never exceeds one whole.
pub proof fn lemma_from_rational_bound(p: int, q: int, accuracy: int)
    requires
        0 <= p,
        0 <= q,
        0 < accuracy,
    ensures
        0 <= spec_from_rational(p, q, accuracy) <= accuracy,
{
    if q != 0 && p <= q {
        assert(0 <= (accuracy * p) / q <= accuracy) by (nonlinear_arith)
            requires
                0 <= p <= q,
                0 < q,
                0 < accuracy,
        ;
    }
}

/// A fraction of `x` lies between zero and `x`; the whole of `x` is `x` and
/// nothing of it is zero.
pub proof fn lemma_mul_nearest_bound(x: int, parts: int, accuracy: int)
    requires
        0 <= x,
        0 <= parts <= accuracy,
        2 <= accuracy,
    ensures
        0 <= spec_mul_nearest(x, parts, accuracy) <= x,
        parts == accuracy ==> spec_mul_nearest(x, parts, accuracy) == x,
        parts == 0 ==> spec_mul_nearest(x, parts, accuracy) == 0,
{
    let hi = x / accuracy;
    let lo = x % accuracy;
    let rem_mul = lo * parts;
    assert(x == hi * accuracy + lo && 0 <= lo < accuracy && 0 <= hi) by (nonlinear_arith)
        requires
            hi == x / accuracy,
            lo == x % accuracy,
            0 <= x,
            0 < accuracy,
    ;
    assert(0 <= hi * parts <= hi * accuracy) by (nonlinear_arith)
        requires
            0 <= hi,
            0 <= parts <= accuracy,
    ;
    assert(0 <= rem_mul <= lo * accuracy) by (nonlinear_arith)
        requires
            rem_mul == lo * parts,
            0 <= lo,
            0 <= parts <= accuracy,
    ;
    let q = rem_mul / accuracy;
    let r = rem_mul % accuracy;
    assert(rem_mul == q * accuracy + r && 0 <= r < accuracy && 0 <= q) by (nonlinear_arith)
        requires
            q == rem_mul / accuracy,
            r == rem_mul % accuracy,
            0 <= rem_mul,
            0 < accuracy,
    ;
    assert(q <= lo && (r > 0 ==> q < lo)) by (nonlinear_arith)
        requires
            rem_mul == q * accuracy + r,
            0 <= r < accuracy,
            rem_mul <= lo * accuracy,
            0 < accuracy,
    ;
    if parts == accuracy {
        assert(hi * parts == hi * accuracy);
        assert(q == lo && r == 0) by (nonlinear_arith)
            requires
                lo * accuracy == q * accuracy + r,
                0 <= r < accuracy,
                0 < accuracy,
        ;
    }
    if parts == 0 {
        assert(hi * parts == 0) by (nonlinear_arith)
            requires
                parts == 0,
        ;
        assert(rem_mul == 0) by (nonlinear_arith)
            requires
                rem_mul == lo * parts,
                parts == 0,
        ;
    }
}

/// Calls `sp_arithmetic::Perbill::from_percent`. Its source cuts `x` to 100,
/// multiplies by the accuracy in 64 bits and divides by 100.
#[verifier::external_body]
fn perbill_from_percent(x: u32) -> (r: u32)
    ensures
        r == spec_from_percent(x as int, PERBILL_ACCURACY as int),
{
    sp_arithmetic::Perbill::from_percent(x).deconstruct()
}

/// Calls `sp_arithmetic::Perbill::from_perthousand`. Its source cuts `x` to
/// 1000, multiplies by the accuracy in 64 bits and divides by 1000.
#[verifier::external_body]
fn perbill_from_perthousand(x: u32) -> (r: u32)
    ensures
        r == spec_from_perthousand(x as int, PERBILL_ACCURACY as int),
{
    sp_arithmetic::Perbill::from_perthousand(x).deconstruct()
}

/// Calls `sp_arithmetic::PerThing::left_from_one` on a `Perbill`, which
/// subtracts the parts from the accuracy (saturating, so it cannot fail).
#[verifier::external_body]
fn perbill_left_from_one(parts: u32) -> (r: u32)
    requires
        parts <= PERBILL_ACCURACY,
    ensures
        r == PERBILL_ACCURACY - parts,
{
    sp_arithmetic::PerThing::left_from_one(sp_arithmetic::Perbill::from_parts(parts)).deconstruct()
}

/// Calls `Perbill * Perbill` of `sp-arithmetic`: the parts are multiplied in
/// 64 bits and divided by the accuracy, rounding down.
#[verifier::external_body]
fn perbill_mul_perbill(a: u32, b: u32) -> (r: u32)
    requires
        a <= PERBILL_ACCURACY,
        b <= PERBILL_ACCURACY,
    ensures
        r == (a as int * b as int) / (PERBILL_ACCURACY as int),
{
    (sp_arithmetic::Perbill::from_parts(a) * sp_arithmetic::Perbill::from_parts(b)).deconstruct()
}

/// Calls `Perbill * u128` of `sp-arithmetic`, its overflow-free
/// multiplication with rounding to the nearest integer, ties down.
#[verifier::external_body]
fn perbill_mul_balance(parts: u32, x: u128) -> (r: u128)
    requires
        parts <= PERBILL_ACCURACY,
    ensures
        r == spec_mul_nearest(x as int, parts as int, PERBILL_ACCURACY as int),
{
    sp_arithmetic::Perbill::from_parts(parts) * x
}

/// Calls `sp_arithmetic::Permill::from_percent`. Its source cuts `x` to 100,
/// multiplies by the accuracy in 64 bits and divides by 100.
#[verifier::external_body]
fn permill_from_percent(x: u32) -> (r: u32)
    ensures
        r == spec_from_percent(x as int, PERMILL_ACCURACY as int),
{
    sp_arithmetic::Permill::from_percent(x).deconstruct()
}

/// Calls `sp_arithmetic::Permill::from_rational` on 64-bit arguments. Its
/// source gives one whole for a zero denominator or a numerator above the
/// denominator, and otherwise `accuracy * p / q` computed in 128 bits and
/// rounded down.
#[verifier::external_body]
fn permill_from_rational(p: u64, q: u64) -> (r: u32)
    ensures
        r == spec_from_rational(p as int, q as int, PERMILL_ACCURACY as int),
{
    sp_arithmetic::Permill::from_rational(p, q).deconstruct()
}

/// Calls `Permill * u128` of `sp-arithmetic`, its overflow-free
/// multiplication with rounding to the nearest integer, ties down.
#[verifier::external_body]
fn permill_mul_balance(parts: u32, x: u128) -> (r: u128)
    requires
        parts <= PERMILL_ACCURACY,
    ensures
        r == spec_mul_nearest(x as int, parts as int, PERMILL_ACCURACY as int),
{
    sp_arithmetic::Permill::from_parts(parts) * x
}

/// Calls `sp_arithmetic::Perquintill::from_rational` on 128-bit arguments.
/// Its source gives one whole for a zero denominator or a numerator above
/// the denominator, and otherwise `accuracy * p / q` computed in 256 bits and
/// rounded down.
#[verifier::external_body]
fn perquintill_from_rational(p: u128, q: u128) -> (r: u64)
    ensures
        r == spec_from_rational(p as int, q as int, PERQUINTILL_ACCURACY as int),
{
    sp_arithmetic::Perquintill::from_rational(p, q).deconstruct()
}

/// Calls `Perquintill * u128` of `sp-arithmetic`, its overflow-free
/// multiplication with rounding to the nearest integer, ties down.
#[verifier::external_body]
fn perquintill_mul_balance(parts: u64, x: u128) -> (r: u128)
    requires
        parts <= PERQUINTILL_ACCURACY,
    ensures
        r == spec_mul_nearest(x as int, parts as int, PERQUINTILL_ACCURACY as int),
{
    sp_arithmetic::Perquintill::from_parts(parts) * x
}

} // verus!
