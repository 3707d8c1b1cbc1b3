//! The inflation schedule: once a year the inflation rate is recalculated
//! and the reward minted per block is derived from it.
//!
//! The controller is a plain state machine. The host tells it the block that
//! is being finalised and the current total issuance; it answers with its new
//! state and the amount the host has to mint into the reward pot.

use vstd::prelude::*;
use crate::arithmetic::{spec_mul_nearest, Perbill, PERBILL_ACCURACY};
use crate::weights::{RuntimeDbWeight, Weight};

verus! {

pub type Balance = u128;

pub type BlockNumber = u64;

/// Number of blocks in a year at one block every twelve seconds.
pub const BLOCKS_PER_YEAR: BlockNumber = 2_628_000;

/// Version of the stored state that this code reads and writes.
pub const STORAGE_VERSION: u16 = 2;

/// The pair of rates that the schedule moves once a year.
#[derive(Clone, Copy, Debug, PartialEq, Eq, Structural)]
pub struct InflationParameters {
    pub inflation_rate: Perbill,
    pub disinflation_rate: Perbill,
}

/// What the schedule is configured with. It is installed once and never
/// changes afterwards.
#[derive(Clone, Copy, Debug, PartialEq, Eq, Structural)]
pub struct InflationConfiguration {
    /// Inflation of the first year, and the share by which it shrinks yearly.
    pub inflation_parameters: InflationParameters,
    /// Inflation from the stagnation year on.
    pub inflation_stagnation_rate: Perbill,
    /// First year in which inflation no longer shrinks.
    pub inflation_stagnation_year: u32,
}

impl InflationParameters {
    pub open spec fn wf(self) -> bool {
        self.inflation_rate.wf() && self.disinflation_rate.wf()
    }

    /// 3.5 % inflation shrinking by 10 % a year.
    pub open spec fn spec_default() -> InflationParameters {
        InflationParameters {
            inflation_rate: Perbill { parts: 35_000_000 },
            disinflation_rate: Perbill { parts: 100_000_000 },
        }
    }
}

impl Default for InflationParameters {
    fn default() -> (r: InflationParameters)
        ensures
            r == InflationParameters::spec_default(),
            r.wf(),
    {
        let r = InflationParameters {
            inflation_rate: Perbill::from_perthousand(35),
            disinflation_rate: Perbill::from_percent(10),
        };
        assert(r.inflation_rate.parts == 35_000_000 && r.disinflation_rate.parts == 100_000_000);
        r
    }
}

impl InflationConfiguration {
    pub open spec fn wf(self) -> bool {
        self.inflation_parameters.wf() && self.inflation_stagnation_rate.wf()
    }

    /// The default parameters, flattening at 1 % from year 13 on.
    pub open spec fn spec_default() -> InflationConfiguration {
        InflationConfiguration {
            inflation_parameters: InflationParameters::spec_default(),
            inflation_stagnation_rate: Perbill { parts: 10_000_000 },
            inflation_stagnation_year: 13,
        }
    }
}

impl Default for InflationConfiguration {
    fn default() -> (r: InflationConfiguration)
        ensures
            r == InflationConfiguration::spec_default(),
            r.wf(),
    {
        let r = InflationConfiguration {
            inflation_parameters: InflationParameters::default(),
            inflation_stagnation_rate: Perbill::from_percent(1),
            inflation_stagnation_year: 13,
        };
        assert(r.inflation_stagnation_rate.parts == 10_000_000);
        r
    }
}

/// The parameters of year `year`, given those of the year before.
///
/// From the stagnation year on, inflation is the stagnation rate and the
/// accumulated disinflation is held. In the first year inflation is the
/// configured rate and nothing has been taken off yet. In every other year
/// the accumulated disinflation shrinks by the configured share, and
/// inflation is the configured rate times what has accumulated.
pub open spec fn spec_update_inflation_parameters(
    config: InflationConfiguration,
    previous: InflationParameters,
    year: u128,
) -> InflationParameters {
    if year >= config.inflation_stagnation_year as u128 {
        InflationParameters {
            inflation_rate: config.inflation_stagnation_rate,
            disinflation_rate: previous.disinflation_rate,
        }
    } else {
        let accumulated: int = if year <= 1 {
            PERBILL_ACCURACY as int
        } else {
            (previous.disinflation_rate.parts as int * (PERBILL_ACCURACY
                - config.inflation_parameters.disinflation_rate.parts) as int) / (
            PERBILL_ACCURACY as int)
        };
        InflationParameters {
            inflation_rate: Perbill {
                parts: ((config.inflation_parameters.inflation_rate.parts as int * accumulated) / (
                PERBILL_ACCURACY as int)) as u32,
            },
            disinflation_rate: Perbill { parts: accumulated as u32 },
        }
    }
}

/// Reward minted per block: the yearly inflation of the issuance, spread
/// evenly over the blocks of a year (rounded down).
pub open spec fn spec_rewards_per_block(
    parameters: InflationParameters,
    total_issuance: Balance,
) -> int {
    spec_mul_nearest(
        total_issuance as int,
        parameters.inflation_rate.parts as int,
        PERBILL_ACCURACY as int,
    ) / (BLOCKS_PER_YEAR as int)
}

/// What the pot is short of the `desired` issuance.
pub open spec fn spec_fund_difference(total_issuance: Balance, desired: Balance) -> Balance {
    if total_issuance < desired {
        (desired - total_issuance) as Balance
    } else {
        0
    }
}

pub fn update_inflation_parameters(
    config: &InflationConfiguration,
    previous: &InflationParameters,
    year: u128,
) -> (r: InflationParameters)
    requires
        config.wf(),
        previous.wf(),
    ensures
        r == spec_update_inflation_parameters(*config, *previous, year),
        r.wf(),
        year < config.inflation_stagnation_year as u128 ==> r.inflation_rate.parts
            <= config.inflation_parameters.inflation_rate.parts,
        1 < year ==> r.disinflation_rate.parts <= previous.disinflation_rate.parts,
{
    if year >= config.inflation_stagnation_year as u128 {
        InflationParameters {
            inflation_rate: config.inflation_stagnation_rate,
            disinflation_rate: previous.disinflation_rate,
        }
    } else {
        let accumulated = if year <= 1 {
            Perbill::one()
        } else {
            previous.disinflation_rate.mul(config.inflation_parameters.disinflation_rate.left_from_one())
        };
        let inflation_rate = config.inflation_parameters.inflation_rate.mul(accumulated);
        proof {
            let a = config.inflation_parameters.inflation_rate.parts as int;
            let p = previous.disinflation_rate.parts as int;
            let l = (PERBILL_ACCURACY - config.inflation_parameters.disinflation_rate.parts) as int;
            let c = accumulated.parts as int;
            assert((a * c) / 1_000_000_000 <= a) by (nonlinear_arith)
                requires
                    0 <= a,
                    0 <= c <= 1_000_000_000,
            ;
            assert((p * l) / 1_000_000_000 <= p) by (nonlinear_arith)
                requires
                    0 <= p,
                    0 <= l <= 1_000_000_000,
            ;
        }
        InflationParameters { inflation_rate, disinflation_rate: accumulated }
    }
}

pub fn rewards_per_block(parameters: &InflationParameters, total_issuance: Balance) -> (r: Balance)
    requires
        parameters.wf(),
    ensures
        r == spec_rewards_per_block(*parameters, total_issuance),
{
    let yearly = parameters.inflation_rate.mul_balance(total_issuance);
    yearly / (BLOCKS_PER_YEAR as u128)
}

/// The state of the inflation controller.
#[derive(Clone, Copy, Debug, PartialEq, Eq, Structural)]
pub struct InflationManager {
    pub inflation_configuration: InflationConfiguration,
    pub inflation_parameters: InflationParameters,
    /// Years since kick-off; zero before it.
    pub current_year: u128,
    /// Block at whose end the parameters are recalculated next.
    pub do_recalculation_at: BlockNumber,
    /// Reward minted per block.
    pub block_rewards: Balance,
    /// Issuance that the kick-off tops the chain up to.
    pub default_total_issuance: Balance,
    /// Version of the state as it is stored.
    pub storage_version: u16,
}

/// What a step of the controller asks of the host.
#[derive(Clone, Copy, Debug, PartialEq, Eq, Structural)]
pub struct InflationOutcome {
    /// Amount to mint into the reward pot.
    pub minted: Balance,
    /// Whether the parameters have been recalculated in this block.
    pub recalculated: bool,
}

/// Adding a year to a block number; it stops at the largest block number.
pub open spec fn spec_next_recalculation(now: BlockNumber) -> BlockNumber {
    if now + BLOCKS_PER_YEAR > u64::MAX {
        u64::MAX
    } else {
        (now + BLOCKS_PER_YEAR) as BlockNumber
    }
}

/// Adding one to the year; it stops at the largest number.
pub open spec fn spec_next_year(year: u128) -> u128 {
    if year == u128::MAX {
        year
    } else {
        (year + 1) as u128
    }
}

impl InflationManager {
    pub open spec fn wf(self) -> bool {
        self.inflation_configuration.wf() && self.inflation_parameters.wf()
    }

    /// The state after the kick-off or a yearly recalculation at block `now`,
    /// where `issuance` is the total issuance once the pot has been funded.
    pub open spec fn spec_recalculated(self, now: BlockNumber, issuance: Balance) -> InflationManager {
        let year = spec_next_year(self.current_year);
        let parameters = spec_update_inflation_parameters(
            self.inflation_configuration,
            self.inflation_parameters,
            year,
        );
        InflationManager {
            inflation_parameters: parameters,
            current_year: year,
            do_recalculation_at: spec_next_recalculation(now),
            block_rewards: spec_rewards_per_block(parameters, issuance) as Balance,
            ..self
        }
    }

    /// What the kick-off mints: the shortfall of the issuance, and only in
    /// year zero.
    pub open spec fn spec_minted(self, total_issuance: Balance) -> Balance {
        if self.current_year == 0 {
            spec_fund_difference(total_issuance, self.default_total_issuance)
        } else {
            0
        }
    }

    /// The state after block `now` has been finalised.
    pub open spec fn spec_on_finalize(self, now: BlockNumber, total_issuance: Balance) -> InflationManager {
        if now == self.do_recalculation_at {
            self.spec_recalculated(
                now,
                (total_issuance + self.spec_minted(total_issuance)) as Balance,
            )
        } else {
            self
        }
    }

    /// The controller before kick-off: year zero, the parameters at their
    /// default, a fixed reward per block, and the kick-off scheduled at
    /// `do_initialize_at`.
    pub fn new(
        inflation_configuration: InflationConfiguration,
        do_initialize_at: BlockNumber,
        block_reward_before_initialize: Balance,
        default_total_issuance: Balance,
    ) -> (r: InflationManager)
        requires
            inflation_configuration.wf(),
        ensures
            r.wf(),
            r == (InflationManager {
                inflation_configuration,
                inflation_parameters: InflationParameters::spec_default(),
                current_year: 0,
                do_recalculation_at: do_initialize_at,
                block_rewards: block_reward_before_initialize,
                default_total_issuance,
                storage_version: STORAGE_VERSION,
            }),
    {
        InflationManager {
            inflation_configuration,
            inflation_parameters: InflationParameters::default(),
            current_year: 0,
            do_recalculation_at: do_initialize_at,
            block_rewards: block_reward_before_initialize,
            default_total_issuance,
            storage_version: STORAGE_VERSION,
        }
    }

    pub fn inflation_configuration(&self) -> (r: InflationConfiguration)
        ensures
            r == self.inflation_configuration,
    {
        self.inflation_configuration
    }

    pub fn inflation_parameters(&self) -> (r: InflationParameters)
        ensures
            r == self.inflation_parameters,
    {
        self.inflation_parameters
    }

    pub fn current_year(&self) -> (r: u128)
        ensures
            r == self.current_year,
    {
        self.current_year
    }

    pub fn do_recalculation_at(&self) -> (r: BlockNumber)
        ensures
            r == self.do_recalculation_at,
    {
        self.do_recalculation_at
    }

    pub fn block_rewards(&self) -> (r: Balance)
        ensures
            r == self.block_rewards,
    {
        self.block_rewards
    }

    /// Moves to the next year at block `now`, with `issuance` in circulation.
    fn recalculate(&mut self, now: BlockNumber, issuance: Balance)
        requires
            old(self).wf(),
        ensures
            *final(self) == old(self).spec_recalculated(now, issuance),
            final(self).wf(),
    {
        let year = if self.current_year == u128::MAX {
            self.current_year
        } else {
            self.current_year + 1
        };
        let parameters = update_inflation_parameters(
            &self.inflation_configuration,
            &self.inflation_parameters,
            year,
        );
        self.current_year = year;
        self.inflation_parameters = parameters;
        self.do_recalculation_at = now.saturating_add(BLOCKS_PER_YEAR);
        self.block_rewards = rewards_per_block(&parameters, issuance);
    }

    /// Finalises block `now`. If a recalculation is due at this block, the
    /// year advances, the parameters and the reward per block are
    /// recalculated and the next recalculation is scheduled a year later; at
    /// the kick-off (year zero) the pot is first funded up to the default
    /// issuance. In any other block nothing changes.
    pub fn on_finalize(&mut self, now: BlockNumber, total_issuance: Balance) -> (r: InflationOutcome)
        requires
            old(self).wf(),
        ensures
            final(self).wf(),
            *final(self) == old(self).spec_on_finalize(now, total_issuance),
            r.recalculated == (now == old(self).do_recalculation_at),
            r.minted == if r.recalculated {
                old(self).spec_minted(total_issuance)
            } else {
                0
            },
    {
        if now == self.do_recalculation_at {
            let minted = if self.current_year == 0 {
                MigrateToV0::fund_difference_balances(total_issuance, self.default_total_issuance)
            } else {
                0
            };
            self.recalculate(now, total_issuance + minted);
            InflationOutcome { minted, recalculated: true }
        } else {
            InflationOutcome { minted: 0, recalculated: false }
        }
    }

    /// Hands the whole pot to a destination account. Only the root origin
    /// may do so; the answer is the amount to transfer.
    pub fn transfer_all_pot(&self, origin_is_root: bool, pot_balance: Balance) -> (r: Result<
        Balance,
        BadOrigin,
    >)
        ensures
            origin_is_root ==> r == Ok::<Balance, BadOrigin>(pot_balance),
            !origin_is_root ==> r == Err::<Balance, BadOrigin>(BadOrigin),
    {
        if origin_is_root {
            Ok(pot_balance)
        } else {
            Err(BadOrigin)
        }
    }
}

/// The caller is not allowed to make this call.
#[derive(Clone, Copy, Debug, PartialEq, Eq, Structural)]
pub struct BadOrigin;

/// What a storage migration did.
#[derive(Clone, Copy, Debug, PartialEq, Eq, Structural)]
pub struct MigrationOutcome {
    /// Database cost of the migration.
    pub weight: Weight,
    /// Amount to mint into the reward pot.
    pub minted: Balance,
}

/// One-time installation of the inflation schedule on a chain whose stored
/// state predates it.
pub struct MigrateToV0;

impl MigrateToV0 {
    /// The state after the migration at block `now`: the schedule is in its
    /// first year, whatever was stored before.
    pub open spec fn spec_migrated(
        manager: InflationManager,
        now: BlockNumber,
        issuance: Balance,
    ) -> InflationManager {
        let parameters = spec_update_inflation_parameters(
            manager.inflation_configuration,
            manager.inflation_parameters,
            1,
        );
        InflationManager {
            inflation_parameters: parameters,
            current_year: 1,
            do_recalculation_at: spec_next_recalculation(now),
            block_rewards: spec_rewards_per_block(parameters, issuance) as Balance,
            storage_version: STORAGE_VERSION,
            ..manager
        }
    }

    /// The amount to mint into the pot so that the issuance reaches
    /// `desired_issuance`; nothing if it is there already.
    pub fn fund_difference_balances(now_total_issuance: Balance, desired_issuance: Balance) -> (r:
        Balance)
        ensures
            r == spec_fund_difference(now_total_issuance, desired_issuance),
    {
        if now_total_issuance < desired_issuance {
            desired_issuance - now_total_issuance
        } else {
            0
        }
    }

    /// Runs the migration if the stored version is older than this code's:
    /// funds the pot, starts year one, schedules the next recalculation a
    /// year after `now` and derives the reward per block. A state that is
    /// already current is left alone. The weight is that of the reads and
    /// writes made.
    pub fn on_runtime_upgrade(
        manager: &mut InflationManager,
        now: BlockNumber,
        total_issuance: Balance,
        db_weight: RuntimeDbWeight,
    ) -> (r: MigrationOutcome)
        requires
            old(manager).wf(),
        ensures
            final(manager).wf(),
            old(manager).storage_version < STORAGE_VERSION ==> {
                &&& r.minted == spec_fund_difference(
                    total_issuance,
                    old(manager).default_total_issuance,
                )
                &&& *final(manager) == Self::spec_migrated(
                    *old(manager),
                    now,
                    (total_issuance + r.minted) as Balance,
                )
                &&& r.weight == db_weight.spec_reads_writes(4, 5)
            },
            old(manager).storage_version >= STORAGE_VERSION ==> {
                &&& r.minted == 0
                &&& *final(manager) == *old(manager)
                &&& r.weight == db_weight.spec_reads_writes(1, 0)
            },
    {
        let mut weight_writes: u64 = 0;
        let mut weight_reads: u64 = 1;
        let mut minted: Balance = 0;
        if manager.storage_version < STORAGE_VERSION {
            minted = Self::fund_difference_balances(total_issuance, manager.default_total_issuance);
            // the configuration is installed as it stands
            weight_writes += 1;
            manager.current_year = 1;
            weight_writes += 1;
            let parameters = update_inflation_parameters(
                &manager.inflation_configuration,
                &manager.inflation_parameters,
                1,
            );
            weight_reads += 1;
            manager.inflation_parameters = parameters;
            weight_writes += 1;
            manager.do_recalculation_at = now.saturating_add(BLOCKS_PER_YEAR);
            weight_reads += 1;
            weight_writes += 1;
            manager.block_rewards = rewards_per_block(&parameters, total_issuance + minted);
            weight_reads += 1;
            weight_writes += 1;
            manager.storage_version = STORAGE_VERSION;
        }
        MigrationOutcome { weight: db_weight.reads_writes(weight_reads, weight_writes), minted }
    }
}

/// Runs the pending storage migration; see [`MigrateToV0::on_runtime_upgrade`].
pub fn on_runtime_upgrade(
    manager: &mut InflationManager,
    now: BlockNumber,
    total_issuance: Balance,
    db_weight: RuntimeDbWeight,
) -> (r: MigrationOutcome)
    requires
        old(manager).wf(),
    ensures
        final(manager).wf(),
        old(manager).storage_version < STORAGE_VERSION ==> {
            &&& r.minted == spec_fund_difference(total_issuance, old(manager).default_total_issuance)
            &&& *final(manager) == MigrateToV0::spec_migrated(
                *old(manager),
                now,
                (total_issuance + r.minted) as Balance,
            )
            &&& r.weight == db_weight.spec_reads_writes(4, 5)
        },
        old(manager).storage_version >= STORAGE_VERSION ==> {
            &&& r.minted == 0
            &&& *final(manager) == *old(manager)
            &&& r.weight == db_weight.spec_reads_writes(1, 0)
        },
{
    MigrateToV0::on_runtime_upgrade(manager, now, total_issuance, db_weight)
}

} // verus!
