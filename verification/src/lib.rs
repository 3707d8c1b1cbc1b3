//! Delegated proof-of-stake collator selection, reward distribution and the
//! yearly inflation schedule that feeds the reward pool.
//!
//! The staking engine ([`state::StakePallet`]) keeps the candidates, their
//! delegators, the unstaking backlogs and the list of top candidates, of
//! which the first few are selected to author blocks. The inflation
//! controller ([`inflation::InflationManager`]) recalculates once a year how
//! much is minted per block. Both are plain state machines: the host tells
//! them what happens and carries out what they answer.
//!
//! Every function in this crate is verified with Verus. The few calls into
//! `sp-arithmetic` and `sp-weights` sit behind small wrappers whose contracts
//! are stated but not proved; each of them says so in its documentation.

/// Fractions in parts per billion, million and quintillion.
pub mod arithmetic;
/// Execution weights and the cost table of the address-unification calls.
pub mod weights;
/// The inflation schedule and its one-time installation.
pub mod inflation;
/// The ordered set of stakes.
pub mod set;
/// The reasons for which a staking call is turned down.
pub mod error;
/// First indices and prefix sums of sequences.
pub mod seq_lib;
/// The unstaking backlog of an account.
pub mod unstaking;
/// A map from account to value.
pub mod account_map;
/// Candidates, delegators, rounds and reports.
pub mod types;
/// How a session's reward pot is split.
pub mod rewards;
/// The running sum of the stake behind the selected candidates.
pub mod tally;
/// The state of the staking engine and what is always true of it.
pub mod state;
/// The building blocks of the engine's calls.
pub mod engine;
/// The calls of a candidate.
pub mod candidates;
/// The calls of a delegator.
pub mod delegators;
/// Reading the state, and unlocking what has matured.
pub mod queries;
/// Rounds, sessions and the settings of governance.
pub mod rounds;
/// Taking a candidate out of the pool.
pub mod removal;
/// A delegator leaves.
pub mod leaving;
/// What holds of every state and of calls taken together.
pub mod laws;
/// Names of the failures of the access-control store.
pub mod rbac;
