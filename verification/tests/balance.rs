use project_token::balance::Balance;

#[test]
fn addition_is_exact_within_range() {
    assert_eq!(Balance(40).saturating_add(Balance(2)), Balance(42));
    assert_eq!(Balance(0).saturating_add(Balance(0)), Balance(0));
}

#[test]
fn addition_clamps_at_the_largest_amount() {
    assert_eq!(Balance(u128::MAX).saturating_add(Balance(1)), Balance(u128::MAX));
    assert_eq!(Balance(u128::MAX - 1).saturating_add(Balance(1)), Balance(u128::MAX));
    assert_eq!(Balance(u128::MAX).saturating_add(Balance(u128::MAX)), Balance::max());
}

#[test]
fn subtraction_is_exact_within_range() {
    assert_eq!(Balance(40).saturating_sub(Balance(2)), Balance(38));
    assert_eq!(Balance(7).saturating_sub(Balance(7)), Balance(0));
}

#[test]
fn subtraction_clamps_at_zero() {
    assert_eq!(Balance(2).saturating_sub(Balance(40)), Balance(0));
    assert_eq!(Balance(0).saturating_sub(Balance(u128::MAX)), Balance::zero());
}

#[test]
fn multiplication_is_exact_within_range() {
    assert_eq!(Balance(6).saturating_mul(Balance(7)), Balance(42));
    assert_eq!(Balance(u128::MAX).saturating_mul(Balance(0)), Balance(0));
    assert_eq!(Balance(u128::MAX).saturating_mul(Balance(1)), Balance(u128::MAX));
}

#[test]
fn multiplication_clamps_at_the_largest_amount() {
    assert_eq!(Balance(u128::MAX).saturating_mul(Balance(2)), Balance(u128::MAX));
    assert_eq!(Balance(1 << 64).saturating_mul(Balance(1 << 64)), Balance(u128::MAX));
    assert_eq!(Balance(1 << 64).saturating_mul(Balance(1 << 63)), Balance(1 << 127));
}

#[test]
fn zero_and_default_are_no_tokens() {
    assert_eq!(Balance::zero(), Balance(0));
    assert_eq!(Balance::default(), Balance(0));
    assert!(Balance::zero().is_zero());
    assert!(!Balance(1).is_zero());
}

#[test]
fn blocks_convert_one_to_one() {
    assert_eq!(Balance::from_blocks(0), Balance(0));
    assert_eq!(Balance::from_blocks(u64::MAX), Balance(u64::MAX as u128));
}

#[test]
fn less_than_is_strict() {
    assert!(Balance(1).less_than(&Balance(2)));
    assert!(!Balance(2).less_than(&Balance(2)));
    assert!(!Balance(3).less_than(&Balance(2)));
}
