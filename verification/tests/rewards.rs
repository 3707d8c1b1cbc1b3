use parachain_staking::arithmetic::Permill;
use parachain_staking::rewards::{
    base_reward, get_collator_reward_per_session, get_delgators_reward_per_session,
};
use parachain_staking::set::{OrderedSet, Stake};
use parachain_staking::types::{Candidate, CandidateStatus, Reward};

fn backed_candidate(commission: Permill) -> Candidate {
    Candidate {
        id: 1,
        stake: 500,
        delegators: OrderedSet::from_sorted_set(vec![
            Stake { owner: 2, amount: 600 },
            Stake { owner: 3, amount: 400 },
        ]),
        total: 1500,
        status: CandidateStatus::Active,
        commission,
    }
}

#[test]
fn base_reward_is_the_weighted_share_of_the_pot() {
    assert_eq!(base_reward(10, 500, 50000, 1000), 100);
    assert_eq!(base_reward(10, 600, 50000, 1000), 120);
    assert_eq!(base_reward(2, 32, 184, 5000), 1739);
    assert_eq!(base_reward(2, 16, 184, 5000), 870);
    assert_eq!(base_reward(1, 1, 3, 1000), 333);
    assert_eq!(base_reward(2, 1, 3, 1000), 667);
    // nothing staked in the session, or more than the whole: the whole pot
    assert_eq!(base_reward(1, 5, 0, 1000), 1000);
    assert_eq!(base_reward(3, 5, 10, 1000), 1000);
    // a weight beyond the balance type counts as the largest balance
    assert_eq!(base_reward(2, u128::MAX, u128::MAX, 1000), 1000);
    assert_eq!(base_reward(0, 500, 50000, 1000), 0);
    assert_eq!(base_reward(10, 500, 50000, 0), 0);
}

#[test]
fn without_commission_everyone_earns_its_share() {
    let state = backed_candidate(Permill::zero());
    assert_eq!(
        get_collator_reward_per_session(&state, 10, 50000, 1000),
        Reward { owner: 1, amount: 100 }
    );
    assert_eq!(
        get_delgators_reward_per_session(&state, 10, 50000, 1000),
        vec![Reward { owner: 2, amount: 120 }, Reward { owner: 3, amount: 80 }]
    );
}

#[test]
fn commission_moves_part_of_the_delegators_share_to_the_collator() {
    let state = backed_candidate(Permill::from_percent(10));
    assert_eq!(
        get_collator_reward_per_session(&state, 10, 50000, 1000),
        Reward { owner: 1, amount: 120 }
    );
    assert_eq!(
        get_delgators_reward_per_session(&state, 10, 50000, 1000),
        vec![Reward { owner: 2, amount: 108 }, Reward { owner: 3, amount: 72 }]
    );
    let state = backed_candidate(Permill::from_percent(25));
    assert_eq!(get_collator_reward_per_session(&state, 10, 50000, 1000).amount, 150);
    assert_eq!(
        get_delgators_reward_per_session(&state, 10, 50000, 1000),
        vec![Reward { owner: 2, amount: 90 }, Reward { owner: 3, amount: 60 }]
    );
}

#[test]
fn full_commission_leaves_the_delegators_nothing() {
    let state = backed_candidate(Permill::from_percent(100));
    assert_eq!(
        get_collator_reward_per_session(&state, 10, 50000, 1000),
        Reward { owner: 1, amount: 300 }
    );
    assert_eq!(
        get_delgators_reward_per_session(&state, 10, 50000, 1000),
        vec![Reward { owner: 2, amount: 0 }, Reward { owner: 3, amount: 0 }]
    );
}

#[test]
fn a_candidate_without_delegators_earns_only_its_own_share() {
    let state = Candidate::new(7, 500);
    assert_eq!(
        get_collator_reward_per_session(&state, 10, 50000, 1000),
        Reward { owner: 7, amount: 100 }
    );
    assert_eq!(get_delgators_reward_per_session(&state, 10, 50000, 1000), vec![]);
}
