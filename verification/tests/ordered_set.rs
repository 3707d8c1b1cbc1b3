use parachain_staking::set::{BoundedInsertError, OrderedSet, Stake};

fn stake(owner: u64, amount: u128) -> Stake {
    Stake { owner, amount }
}

fn owners(set: &OrderedSet) -> Vec<u64> {
    set.to_vec().iter().map(|s| s.owner).collect()
}

#[test]
fn new_owner_goes_behind_equal_amounts() {
    let mut set = OrderedSet::new();
    assert!(set.is_empty());
    assert!(set.insert(stake(1, 10)));
    assert!(set.insert(stake(2, 20)));
    assert!(set.insert(stake(3, 10)));
    assert!(set.insert(stake(4, 20)));
    assert!(set.insert(stake(5, 15)));
    assert_eq!(
        set.to_vec(),
        vec![stake(2, 20), stake(4, 20), stake(5, 15), stake(1, 10), stake(3, 10)]
    );
    assert_eq!(set.len(), 5);
    assert_eq!(set.position(5), Some(2));
    assert_eq!(set.position(9), None);
    assert_eq!(set.find(3), Some(stake(3, 10)));
    assert_eq!(set.find(9), None);
    assert!(set.contains(4));
    assert!(!set.contains(9));
    assert_eq!(set.get(0), Some(stake(2, 20)));
    assert_eq!(set.get(5), None);
}

#[test]
fn raised_amount_moves_behind_those_with_as_much() {
    let mut set =
        OrderedSet::from_sorted_set(vec![stake(1, 30), stake(2, 20), stake(3, 20), stake(4, 10)]);
    // 4 reaches 20: it passes nobody who has 20 already
    assert!(!set.insert(stake(4, 20)));
    assert_eq!(owners(&set), vec![1, 2, 3, 4]);
    // 4 reaches 30: behind 1, in front of the others
    assert!(!set.insert(stake(4, 30)));
    assert_eq!(set.to_vec(), vec![stake(1, 30), stake(4, 30), stake(2, 20), stake(3, 20)]);
    // 3 overtakes everybody
    assert!(!set.insert(stake(3, 31)));
    assert_eq!(owners(&set), vec![3, 1, 4, 2]);
}

#[test]
fn lowered_amount_stays_in_front_of_those_with_as_much() {
    let mut set =
        OrderedSet::from_sorted_set(vec![stake(1, 30), stake(2, 20), stake(3, 20), stake(4, 10)]);
    // 1 comes down to 20: it stays in front of 2 and 3
    assert!(!set.insert(stake(1, 20)));
    assert_eq!(set.to_vec(), vec![stake(1, 20), stake(2, 20), stake(3, 20), stake(4, 10)]);
    // 2 comes down to 10: behind 3, in front of 4
    assert!(!set.insert(stake(2, 10)));
    assert_eq!(owners(&set), vec![1, 3, 2, 4]);
    // 1 falls to the end
    assert!(!set.insert(stake(1, 5)));
    assert_eq!(owners(&set), vec![3, 2, 4, 1]);
}

#[test]
fn same_amount_changes_nothing() {
    let mut set = OrderedSet::from_sorted_set(vec![stake(1, 20), stake(2, 20), stake(3, 20)]);
    assert!(!set.insert(stake(2, 20)));
    assert_eq!(owners(&set), vec![1, 2, 3]);
}

#[test]
fn remove_hands_the_entry_back() {
    let mut set = OrderedSet::from_sorted_set(vec![stake(1, 30), stake(2, 20), stake(3, 10)]);
    assert_eq!(set.remove(2), Some(stake(2, 20)));
    assert_eq!(set.to_vec(), vec![stake(1, 30), stake(3, 10)]);
    assert_eq!(set.remove(2), None);
    assert_eq!(set.to_vec(), vec![stake(1, 30), stake(3, 10)]);
    assert_eq!(set.remove(1), Some(stake(1, 30)));
    assert_eq!(set.remove(3), Some(stake(3, 10)));
    assert!(set.is_empty());
}

#[test]
fn bounded_insert_with_room() {
    let mut set = OrderedSet::new();
    assert_eq!(set.try_insert_bounded(stake(1, 10), 2), Ok(true));
    assert_eq!(set.try_insert_bounded(stake(2, 20), 2), Ok(true));
    assert_eq!(owners(&set), vec![2, 1]);
}

#[test]
fn bounded_insert_evicts_the_lowest_latest_entry() {
    let mut set = OrderedSet::from_sorted_set(vec![stake(1, 20), stake(2, 10), stake(3, 10)]);
    assert_eq!(
        set.try_insert_bounded(stake(4, 11), 3),
        Err(BoundedInsertError::Evicted(stake(3, 10)))
    );
    assert_eq!(set.to_vec(), vec![stake(1, 20), stake(4, 11), stake(2, 10)]);
}

#[test]
fn bounded_insert_rejects_what_does_not_exceed_the_lowest() {
    let mut set = OrderedSet::from_sorted_set(vec![stake(1, 20), stake(2, 10)]);
    assert_eq!(set.try_insert_bounded(stake(3, 10), 2), Err(BoundedInsertError::Rejected));
    assert_eq!(set.try_insert_bounded(stake(3, 9), 2), Err(BoundedInsertError::Rejected));
    assert_eq!(set.to_vec(), vec![stake(1, 20), stake(2, 10)]);
}

#[test]
fn bounded_insert_updates_a_member_of_a_full_set() {
    let mut set = OrderedSet::from_sorted_set(vec![stake(1, 20), stake(2, 10)]);
    assert_eq!(set.try_insert_bounded(stake(2, 5), 2), Ok(false));
    assert_eq!(set.try_insert_bounded(stake(2, 25), 2), Ok(false));
    assert_eq!(set.to_vec(), vec![stake(2, 25), stake(1, 20)]);
}

#[test]
fn bounded_insert_without_capacity_rejects() {
    let mut set = OrderedSet::new();
    assert_eq!(set.try_insert_bounded(stake(1, 10), 0), Err(BoundedInsertError::Rejected));
    assert!(set.is_empty());
}

#[test]
fn from_vec_sorts_and_keeps_the_later_stake_of_an_owner() {
    let set = OrderedSet::from_vec(vec![
        stake(11, 110),
        stake(12, 120),
        stake(13, 110),
        stake(11, 130),
    ]);
    assert_eq!(set.to_vec(), vec![stake(11, 130), stake(12, 120), stake(13, 110)]);
    assert_eq!(OrderedSet::from_vec(vec![]), OrderedSet::new());
    let copy = set.clone_set();
    assert_eq!(copy, set);
}
