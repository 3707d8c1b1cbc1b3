use parachain_staking::arithmetic::{Perbill, Permill, Perquintill};

#[test]
fn perbill_from_percent_and_perthousand() {
    assert_eq!(Perbill::from_percent(0).deconstruct(), 0);
    assert_eq!(Perbill::from_percent(1).deconstruct(), 10_000_000);
    assert_eq!(Perbill::from_percent(10).deconstruct(), 100_000_000);
    assert_eq!(Perbill::from_percent(100).deconstruct(), 1_000_000_000);
    assert_eq!(Perbill::from_percent(250).deconstruct(), 1_000_000_000);
    assert_eq!(Perbill::from_perthousand(35).deconstruct(), 35_000_000);
    assert_eq!(Perbill::from_perthousand(1000).deconstruct(), 1_000_000_000);
    assert_eq!(Perbill::from_perthousand(4000).deconstruct(), 1_000_000_000);
    assert_eq!(Perbill::from_percent(7).deconstruct(), sp_arithmetic::Perbill::from_percent(7).deconstruct());
}

#[test]
fn perbill_from_parts_cuts_at_one() {
    assert_eq!(Perbill::from_parts(5).deconstruct(), 5);
    assert_eq!(Perbill::from_parts(1_000_000_001).deconstruct(), 1_000_000_000);
    assert_eq!(Perbill::from_parts(u32::MAX), Perbill::one());
    assert_eq!(Perbill::zero().deconstruct(), 0);
    assert_eq!(Permill::from_parts(1_000_001), Permill::one());
    assert_eq!(Permill::zero().deconstruct(), 0);
    assert_eq!(Perquintill::from_parts(u64::MAX), Perquintill::one());
    assert_eq!(Perquintill::from_parts(7).deconstruct(), 7);
    assert_eq!(Perquintill::zero().deconstruct(), 0);
}

#[test]
fn perbill_left_from_one() {
    assert_eq!(Perbill::from_percent(10).left_from_one().deconstruct(), 900_000_000);
    assert_eq!(Perbill::one().left_from_one().deconstruct(), 0);
    assert_eq!(Perbill::zero().left_from_one().deconstruct(), 1_000_000_000);
}

#[test]
fn perbill_product_rounds_down() {
    let a = Perbill::from_parts(900_000_000);
    assert_eq!(a.mul(a).deconstruct(), 810_000_000);
    // 0.3486784401 has one digit too many
    let b = Perbill::from_parts(387_420_489);
    assert_eq!(b.mul(a).deconstruct(), 348_678_440);
    assert_eq!(Perbill::from_parts(1).mul(Perbill::from_parts(999_999_999)).deconstruct(), 0);
    assert_eq!(Perbill::one().mul(Perbill::from_parts(123)).deconstruct(), 123);
    assert_eq!(Perbill::zero().mul(Perbill::one()).deconstruct(), 0);
}

#[test]
fn perbill_of_a_balance_rounds_to_nearest_ties_down() {
    let half = Perbill::from_percent(50);
    assert_eq!(half.mul_balance(3), 1);
    assert_eq!(half.mul_balance(4), 2);
    assert_eq!(half.mul_balance(5), 2);
    let third = Perbill::from_parts(333_333_333);
    assert_eq!(third.mul_balance(10), 3);
    assert_eq!(third.mul_balance(2), 1);
    assert_eq!(third.mul_balance(1), 0);
    assert_eq!(Perbill::one().mul_balance(u128::MAX), u128::MAX);
    assert_eq!(Perbill::zero().mul_balance(u128::MAX), 0);
    assert_eq!(
        Perbill::from_perthousand(35).mul_balance(4_200_000_000_000_000_000_000_000_000),
        147_000_000_000_000_000_000_000_000
    );
    for (parts, x) in [(1u32, 499_999_999u128), (1, 500_000_000), (1, 500_000_001), (999_999_999, u128::MAX)] {
        assert_eq!(
            Perbill::from_parts(parts).mul_balance(x),
            sp_arithmetic::Perbill::from_parts(parts) * x
        );
    }
    assert_eq!(Perbill::from_parts(1).mul_balance(500_000_000), 0);
    assert_eq!(Perbill::from_parts(1).mul_balance(500_000_001), 1);
}

#[test]
fn permill_from_percent_rational_and_product() {
    assert_eq!(Permill::from_percent(10).deconstruct(), 100_000);
    assert_eq!(Permill::from_percent(100), Permill::one());
    assert_eq!(Permill::from_percent(101), Permill::one());
    assert_eq!(Permill::from_rational(10, 100).deconstruct(), 100_000);
    assert_eq!(Permill::from_rational(1, 3).deconstruct(), 333_333);
    assert_eq!(Permill::from_rational(2, 3).deconstruct(), 666_666);
    assert_eq!(Permill::from_rational(0, 5).deconstruct(), 0);
    assert_eq!(Permill::from_rational(5, 5), Permill::one());
    assert_eq!(Permill::from_rational(6, 5), Permill::one());
    assert_eq!(Permill::from_rational(1, 0), Permill::one());
    assert_eq!(Permill::from_rational(u64::MAX - 1, u64::MAX).deconstruct(), 999_999);
    assert_eq!(Permill::from_percent(10).mul_balance(120), 12);
    assert_eq!(Permill::from_percent(90).mul_balance(120), 108);
    assert_eq!(Permill::from_percent(50).mul_balance(1), 0);
    assert_eq!(Permill::from_percent(50).mul_balance(3), 1);
    assert_eq!(Permill::from_parts(500_001).mul_balance(1), 1);
    assert_eq!(Permill::one().mul_balance(u128::MAX), u128::MAX);
}

#[test]
fn perquintill_from_rational_rounds_down() {
    assert_eq!(Perquintill::from_rational(1, 3).deconstruct(), 333_333_333_333_333_333);
    assert_eq!(Perquintill::from_rational(2, 3).deconstruct(), 666_666_666_666_666_666);
    assert_eq!(Perquintill::from_rational(6000, 50000).deconstruct(), 120_000_000_000_000_000);
    assert_eq!(Perquintill::from_rational(0, 1).deconstruct(), 0);
    assert_eq!(Perquintill::from_rational(7, 7), Perquintill::one());
    assert_eq!(Perquintill::from_rational(8, 7), Perquintill::one());
    assert_eq!(Perquintill::from_rational(1, 0), Perquintill::one());
    assert_eq!(Perquintill::from_rational(u128::MAX - 1, u128::MAX).deconstruct(), 999_999_999_999_999_999);
    assert_eq!(
        Perquintill::from_rational(u128::MAX / 3, u128::MAX).deconstruct(),
        sp_arithmetic::Perquintill::from_rational(u128::MAX / 3, u128::MAX).deconstruct()
    );
}

#[test]
fn perquintill_of_a_balance_rounds_to_nearest_ties_down() {
    let third = Perquintill::from_rational(1, 3);
    assert_eq!(third.mul_balance(300), 100);
    assert_eq!(third.mul_balance(1000), 333);
    assert_eq!(Perquintill::from_rational(2, 3).mul_balance(1000), 667);
    assert_eq!(Perquintill::from_rational(1, 2).mul_balance(3), 1);
    assert_eq!(Perquintill::from_rational(1, 2).mul_balance(5), 2);
    assert_eq!(Perquintill::one().mul_balance(u128::MAX), u128::MAX);
    assert_eq!(Perquintill::zero().mul_balance(u128::MAX), 0);
    for (parts, x) in [(1u64, u128::MAX), (999_999_999_999_999_999, u128::MAX), (123_456_789, 987_654_321_000_000_000_000)] {
        assert_eq!(
            Perquintill::from_parts(parts).mul_balance(x),
            sp_arithmetic::Perquintill::from_parts(parts) * x
        );
    }
}
