//! Execution weights: the two-dimensional cost of a call and the cost table
//! of the address-unification calls.
//!
//! The arithmetic on weights is done by `sp-weights`; the wrappers at the end
//! of this file state what its source computes.

use vstd::prelude::*;

verus! {

/// Sum of two 64-bit numbers that stops at the largest one.
pub open spec fn spec_saturating_add(a: u64, b: u64) -> u64 {
    if a + b > u64::MAX {
        u64::MAX
    } else {
        (a + b) as u64
    }
}

/// Product of two 64-bit numbers that stops at the largest one.
pub open spec fn spec_saturating_mul(a: u64, b: u64) -> u64 {
    if a * b > u64::MAX {
        u64::MAX
    } else {
        (a * b) as u64
    }
}

/// Cost of a call: computation time and proof size.
#[derive(Clone, Copy, Debug, PartialEq, Eq, Structural)]
pub struct Weight {
    pub ref_time: u64,
    pub proof_size: u64,
}

/// Cost of one database read and of one database write, in computation time.
#[derive(Clone, Copy, Debug, PartialEq, Eq, Structural)]
pub struct RuntimeDbWeight {
    pub read: u64,
    pub write: u64,
}

impl Weight {
    /// Component-wise saturating sum.
    pub open spec fn spec_saturating_add(self, rhs: Weight) -> Weight {
        Weight {
            ref_time: self::spec_saturating_add(self.ref_time, rhs.ref_time),
            proof_size: self::spec_saturating_add(self.proof_size, rhs.proof_size),
        }
    }

    pub fn from_parts(ref_time: u64, proof_size: u64) -> (r: Weight)
        ensures
            r == (Weight { ref_time, proof_size }),
    {
        Weight { ref_time, proof_size }
    }

    pub fn ref_time(&self) -> (r: u64)
        ensures
            r == self.ref_time,
    {
        self.ref_time
    }

    pub fn proof_size(&self) -> (r: u64)
        ensures
            r == self.proof_size,
    {
        self.proof_size
    }

    /// Adds two weights, each component stopping at the largest number.
    pub fn saturating_add(self, rhs: Weight) -> (r: Weight)
        ensures
            r == self.spec_saturating_add(rhs),
    {
        weight_saturating_add(self, rhs)
    }
}

impl RuntimeDbWeight {
    /// Cost of `r` reads.
    pub open spec fn spec_reads(self, r: u64) -> Weight {
        Weight { ref_time: spec_saturating_mul(self.read, r), proof_size: 0 }
    }

    /// Cost of `w` writes.
    pub open spec fn spec_writes(self, w: u64) -> Weight {
        Weight { ref_time: spec_saturating_mul(self.write, w), proof_size: 0 }
    }

    /// Cost of `r` reads and `w` writes together.
    pub open spec fn spec_reads_writes(self, r: u64, w: u64) -> Weight {
        Weight {
            ref_time: spec_saturating_add(
                spec_saturating_mul(self.read, r),
                spec_saturating_mul(self.write, w),
            ),
            proof_size: 0,
        }
    }

    pub fn reads(self, r: u64) -> (res: Weight)
        ensures
            res == self.spec_reads(r),
    {
        db_weight_reads(self, r)
    }

    pub fn writes(self, w: u64) -> (res: Weight)
        ensures
            res == self.spec_writes(w),
    {
        db_weight_writes(self, w)
    }

    pub fn reads_writes(self, r: u64, w: u64) -> (res: Weight)
        ensures
            res == self.spec_reads_writes(r, w),
    {
        db_weight_reads_writes(self, r, w)
    }
}

/// Measured base cost of `claim_account`, in computation time.
pub const CLAIM_ACCOUNT_REF_TIME: u64 = 96_814_000;

/// Measured base cost of `claim_default_account`, in computation time.
pub const CLAIM_DEFAULT_ACCOUNT_REF_TIME: u64 = 42_210_000;

/// Estimated proof size of either claim.
pub const CLAIM_PROOF_SIZE: u64 = 3593;

/// Weight functions of the address-unification calls, for a chain whose
/// database costs are `db_weight`.
#[derive(Clone, Copy, Debug, PartialEq, Eq, Structural)]
pub struct WeightInfo {
    pub db_weight: RuntimeDbWeight,
}

impl WeightInfo {
    /// Base cost, proof size, then `reads` reads and `writes` writes.
    pub open spec fn spec_claim(self, base: u64, reads: u64, writes: u64) -> Weight {
        (Weight { ref_time: base, proof_size: 0 }).spec_saturating_add(
            Weight { ref_time: 0, proof_size: CLAIM_PROOF_SIZE },
        ).spec_saturating_add(self.db_weight.spec_reads(reads)).spec_saturating_add(
            self.db_weight.spec_writes(writes),
        )
    }

    pub fn new(db_weight: RuntimeDbWeight) -> (r: WeightInfo)
        ensures
            r.db_weight == db_weight,
    {
        WeightInfo { db_weight }
    }

    /// Claiming an account with a signature: four reads and two writes on top
    /// of the measured base cost.
    pub fn claim_account(&self) -> (r: Weight)
        ensures
            r == self.spec_claim(CLAIM_ACCOUNT_REF_TIME, 4, 2),
            r.proof_size == CLAIM_PROOF_SIZE,
    {
        Weight::from_parts(CLAIM_ACCOUNT_REF_TIME, 0)
            .saturating_add(Weight::from_parts(0, CLAIM_PROOF_SIZE))
            .saturating_add(self.db_weight.reads(4))
            .saturating_add(self.db_weight.writes(2))
    }

    /// Claiming the default account: three reads and two writes on top of the
    /// measured base cost.
    pub fn claim_default_account(&self) -> (r: Weight)
        ensures
            r == self.spec_claim(CLAIM_DEFAULT_ACCOUNT_REF_TIME, 3, 2),
            r.proof_size == CLAIM_PROOF_SIZE,
    {
        Weight::from_parts(CLAIM_DEFAULT_ACCOUNT_REF_TIME, 0)
            .saturating_add(Weight::from_parts(0, CLAIM_PROOF_SIZE))
            .saturating_add(self.db_weight.reads(3))
            .saturating_add(self.db_weight.writes(2))
    }
}

/// Calls `sp_weights::Weight::saturating_add`, which adds the two components
/// separately with `u64::saturating_add`.
#[verifier::external_body]
fn weight_saturating_add(a: Weight, b: Weight) -> (r: Weight)
    ensures
        r == a.spec_saturating_add(b),
{
    let sum = sp_weights::Weight::from_parts(a.ref_time, a.proof_size)
        .saturating_add(sp_weights::Weight::from_parts(b.ref_time, b.proof_size));
    Weight { ref_time: sum.ref_time(), proof_size: sum.proof_size() }
}

/// Calls `sp_weights::RuntimeDbWeight::reads`: the read cost times `r`,
/// saturating, as computation time; no proof size.
#[verifier::external_body]
fn db_weight_reads(db: RuntimeDbWeight, r: u64) -> (res: Weight)
    ensures
        res == db.spec_reads(r),
{
    let w = (sp_weights::RuntimeDbWeight { read: db.read, write: db.write }).reads(r);
    Weight { ref_time: w.ref_time(), proof_size: w.proof_size() }
}

/// Calls `sp_weights::RuntimeDbWeight::writes`: the write cost times `w`,
/// saturating, as computation time; no proof size.
#[verifier::external_body]
fn db_weight_writes(db: RuntimeDbWeight, w: u64) -> (res: Weight)
    ensures
        res == db.spec_writes(w),
{
    let w = (sp_weights::RuntimeDbWeight { read: db.read, write: db.write }).writes(w);
    Weight { ref_time: w.ref_time(), proof_size: w.proof_size() }
}

/// Calls `sp_weights::RuntimeDbWeight::reads_writes`: the saturating sum of
/// the cost of `r` reads and of `w` writes, as computation time.
#[verifier::external_body]
fn db_weight_reads_writes(db: RuntimeDbWeight, r: u64, w: u64) -> (res: Weight)
    ensures
        res == db.spec_reads_writes(r, w),
{
    let w = (sp_weights::RuntimeDbWeight { read: db.read, write: db.write }).reads_writes(r, w);
    Weight { ref_time: w.ref_time(), proof_size: w.proof_size() }
}

} // verus!
