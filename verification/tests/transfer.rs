use project_token::account::{AccountData, DecreaseOp, TokenError};
use project_token::balance::Balance;
use project_token::transfer::{Output, Outputs};

fn batch(amounts: &[u128]) -> Outputs<u64> {
    let mut outputs = Vec::new();
    for (i, amount) in amounts.iter().enumerate() {
        outputs.push(Output { beneficiary: i as u64 + 1, amount: Balance(*amount) });
    }
    Outputs(outputs)
}

#[test]
fn total_of_an_empty_batch_is_zero() {
    assert_eq!(batch(&[]).total_amount(), Balance(0));
}

#[test]
fn total_is_the_sum_of_the_amounts() {
    assert_eq!(batch(&[5]).total_amount(), Balance(5));
    assert_eq!(batch(&[5, 7, 30]).total_amount(), Balance(42));
}

#[test]
fn total_clamps_at_the_largest_amount() {
    assert_eq!(batch(&[u128::MAX, 1]).total_amount(), Balance(u128::MAX));
    assert_eq!(batch(&[u128::MAX - 2, 1, 1, 1, 1]).total_amount(), Balance(u128::MAX));
    assert_eq!(batch(&[u128::MAX - 2, 1, 1]).total_amount(), Balance(u128::MAX));
    assert_eq!(batch(&[u128::MAX - 2, 1]).total_amount(), Balance(u128::MAX - 1));
}

#[test]
fn iteration_yields_the_outputs_in_order() {
    let outputs = batch(&[5, 7, 30]);
    let seen: Vec<(u64, Balance)> = outputs.iter().map(|o| (o.beneficiary, o.amount)).collect();
    assert_eq!(seen, vec![(1, Balance(5)), (2, Balance(7)), (3, Balance(30))]);
    assert_eq!(batch(&[]).iter().count(), 0);
}

#[test]
fn batch_converts_into_its_outputs() {
    let outputs: Vec<Output<u64>> = Vec::from(batch(&[5, 7]));
    assert_eq!(
        outputs,
        vec![
            Output { beneficiary: 1, amount: Balance(5) },
            Output { beneficiary: 2, amount: Balance(7) },
        ]
    );
}

#[test]
fn batch_is_applied_only_if_the_sender_covers_its_total() {
    let sender = AccountData { free_balance: Balance(40), reserved_balance: Balance(0) };
    let affordable = batch(&[10, 20]);
    assert_eq!(
        sender.decrease_with_ex_deposit(affordable.total_amount(), Balance(5)),
        Ok(DecreaseOp::Reduce(Balance(30)))
    );
    let mut first = AccountData::default();
    let mut second = AccountData::default();
    let credits: Vec<Balance> = affordable.iter().map(|o| o.amount).collect();
    first.increase_liquidity_by(credits[0]);
    second.increase_liquidity_by(credits[1]);
    assert_eq!(first.free_balance, Balance(10));
    assert_eq!(second.free_balance, Balance(20));

    let too_much = batch(&[10, 20, 11]);
    assert_eq!(
        sender.decrease_with_ex_deposit(too_much.total_amount(), Balance(5)),
        Err(TokenError::InsufficientFreeBalanceForDecreasing)
    );
}
