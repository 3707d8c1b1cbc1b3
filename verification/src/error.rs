//! The reasons for which a staking call is turned down.

use vstd::prelude::*;

verus! {

/// Why a call was rejected. A rejected call changes nothing.
#[derive(Clone, Copy, Debug, PartialEq, Eq, Structural)]
pub enum Error {
    /// The account is not part of the delegators set.
    DelegatorNotFound,
    /// The account is not part of the collator candidates set.
    CandidateNotFound,
    /// The account is already part of the delegators set.
    DelegatorExists,
    /// The account is already part of the collator candidates set.
    CandidateExists,
    /// The account tried to stake more or less by zero.
    ValStakeZero,
    /// The account has not staked enough to be a candidate.
    ValStakeBelowMin,
    /// The account has staked more than a candidate may.
    ValStakeAboveMax,
    /// The delegator's total stake would fall below the minimum.
    NomStakeBelowMin,
    /// A single delegation would fall below the minimum.
    DelegationBelowMin,
    /// The candidate has already asked to leave.
    AlreadyLeaving,
    /// The candidate has not asked to leave.
    NotLeaving,
    /// The candidate's exit is not due yet.
    CannotLeaveYet,
    /// The unstaking backlog is full; it has to be unlocked first.
    CannotJoinBeforeUnlocking,
    /// The account is already delegating.
    AlreadyDelegating,
    /// The account is not delegating yet.
    NotYetDelegating,
    /// The delegator has used up the delegations of this round.
    DelegationsPerRoundExceeded,
    /// The candidate's delegator set is full and the stake is too low to
    /// replace anyone.
    TooManyDelegators,
    /// Leaving would bring the number of candidates below the minimum.
    TooFewCollatorCandidates,
    /// A leaving candidate cannot change its stake.
    CannotStakeIfLeaving,
    /// A leaving candidate cannot be delegated to.
    CannotDelegateIfLeaving,
    /// The delegator delegates to as many candidates as allowed.
    MaxCollatorsPerDelegatorExceeded,
    /// The delegator already delegates to this candidate.
    AlreadyDelegatedCollator,
    /// The delegator does not delegate to this candidate.
    DelegationNotFound,
    /// More was to be taken off a stake than there is.
    Underflow,
    /// A sum of stakes does not fit the balance type.
    Overflow,
    /// A value was set below its minimum.
    CannotSetBelowMin,
    /// A value was set above its maximum.
    CannotSetAboveMax,
    /// The unstaking backlog has no room for another entry.
    NoMoreUnstaking,
    /// There is nothing unstaked to unlock.
    UnstakingIsEmpty,
    /// The account's free balance does not cover the stake.
    InsufficientBalance,
}

} // verus!
