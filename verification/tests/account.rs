use project_token::account::{AccountData, DecreaseOp, TokenError};
use project_token::balance::Balance;

fn account(free: u128, reserved: u128) -> AccountData {
    AccountData { free_balance: Balance(free), reserved_balance: Balance(reserved) }
}

#[test]
fn default_account_is_empty() {
    assert_eq!(AccountData::default(), account(0, 0));
}

#[test]
fn increase_adds_to_the_free_balance() {
    let mut a = account(10, 3);
    a.increase_liquidity_by(Balance(5));
    assert_eq!(a, account(15, 3));
}

#[test]
fn increase_clamps_at_the_largest_amount() {
    let mut a = account(u128::MAX - 1, 3);
    a.increase_liquidity_by(Balance(5));
    assert_eq!(a, account(u128::MAX, 3));
}

#[test]
fn decrease_takes_from_the_free_balance() {
    let mut a = account(10, 3);
    a.decrease_liquidity_by(Balance(4));
    assert_eq!(a, account(6, 3));
}

#[test]
fn decrease_clamps_at_zero() {
    let mut a = account(10, 3);
    a.decrease_liquidity_by(Balance(11));
    assert_eq!(a, account(0, 3));
}

#[test]
fn decrease_to_dust_removes_the_account() {
    let a = account(100, 0);
    assert_eq!(
        a.decrease_with_ex_deposit(Balance(95), Balance(10)),
        Ok(DecreaseOp::Remove(Balance(95), Balance(5)))
    );
}

#[test]
fn decrease_above_the_deposit_reduces_the_account() {
    let a = account(100, 0);
    assert_eq!(
        a.decrease_with_ex_deposit(Balance(50), Balance(10)),
        Ok(DecreaseOp::Reduce(Balance(50)))
    );
}

#[test]
fn decrease_beyond_the_free_balance_is_refused() {
    let a = account(100, 0);
    assert_eq!(
        a.decrease_with_ex_deposit(Balance(101), Balance(10)),
        Err(TokenError::InsufficientFreeBalanceForDecreasing)
    );
}

#[test]
fn decrease_of_everything_removes_the_account_without_dust() {
    let a = account(100, 0);
    assert_eq!(
        a.decrease_with_ex_deposit(Balance(100), Balance(0)),
        Ok(DecreaseOp::Remove(Balance(100), Balance(0)))
    );
}

#[test]
fn decrease_to_exactly_the_deposit_reduces_the_account() {
    let a = account(100, 0);
    assert_eq!(
        a.decrease_with_ex_deposit(Balance(90), Balance(10)),
        Ok(DecreaseOp::Reduce(Balance(90)))
    );
    assert_eq!(
        a.decrease_with_ex_deposit(Balance(91), Balance(10)),
        Ok(DecreaseOp::Remove(Balance(91), Balance(9)))
    );
}

#[test]
fn reserved_balance_counts_towards_the_deposit() {
    let a = account(100, 7);
    assert_eq!(
        a.decrease_with_ex_deposit(Balance(97), Balance(10)),
        Ok(DecreaseOp::Reduce(Balance(97)))
    );
    assert_eq!(
        a.decrease_with_ex_deposit(Balance(98), Balance(10)),
        Ok(DecreaseOp::Remove(Balance(98), Balance(9)))
    );
    assert_eq!(
        a.decrease_with_ex_deposit(Balance(100), Balance(10)),
        Ok(DecreaseOp::Remove(Balance(100), Balance(7)))
    );
}

#[test]
fn reserved_balance_does_not_cover_a_decrease() {
    let a = account(5, 100);
    assert_eq!(
        a.decrease_with_ex_deposit(Balance(6), Balance(1)),
        Err(TokenError::InsufficientFreeBalanceForDecreasing)
    );
}

#[test]
fn outcome_follows_the_total_left_for_many_amounts() {
    let a = account(40, 3);
    let deposit: u128 = 12;
    for amount in 0..=45u128 {
        let outcome = a.decrease_with_ex_deposit(Balance(amount), Balance(deposit));
        if amount > 40 {
            assert_eq!(outcome, Err(TokenError::InsufficientFreeBalanceForDecreasing));
        } else {
            let left = 40 - amount + 3;
            if left == 0 || left < deposit {
                assert_eq!(outcome, Ok(DecreaseOp::Remove(Balance(amount), Balance(left))));
            } else {
                assert_eq!(outcome, Ok(DecreaseOp::Reduce(Balance(amount))));
            }
        }
    }
}

#[test]
fn total_left_clamps_at_the_largest_amount() {
    let a = account(u128::MAX, u128::MAX);
    assert_eq!(
        a.decrease_with_ex_deposit(Balance(1), Balance(u128::MAX)),
        Ok(DecreaseOp::Reduce(Balance(1)))
    );
}

#[test]
fn total_balance_is_free_and_reserved() {
    assert_eq!(account(10, 3)._total_balance(), Balance(13));
    assert_eq!(account(u128::MAX, 3)._total_balance(), Balance(u128::MAX));
}
