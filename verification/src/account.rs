//! The balance record of one account for one token.
//!
//! An account holds a free balance, which it may transfer, and a reserved
//! balance, which it owns but which other subsystems have set aside. No
//! account may persist with a total holding below the existential deposit of
//! the token: a decrease that would leave less removes the account, and what
//! is left of its holding is dust to be swept.

use vstd::prelude::*;
use crate::balance::{clamp, Balance};

verus! {

/// Why an operation on the ledger was refused.
#[derive(Clone, Copy, Debug, PartialEq, Eq, Structural)]
pub enum TokenError {
    /// A decrease was asked for more than the free balance of the account.
    InsufficientFreeBalanceForDecreasing,
}

/// What a caller must do to an account to take an amount out of it.
#[derive(Clone, Copy, Debug, PartialEq, Eq, Structural)]
pub enum DecreaseOp {
    /// Reduce the free balance by this amount.
    Reduce(Balance),
    /// Remove the account: the amount taken out, and the dust left behind.
    Remove(Balance, Balance),
}

/// The balances of one account.
#[derive(Clone, Copy, Debug, PartialEq, Eq, Structural)]
pub struct AccountData {
    /// The part of the holding that may be transferred.
    pub free_balance: Balance,
    /// The part of the holding that is owned but set aside.
    pub reserved_balance: Balance,
}

impl Default for AccountData {
    fn default() -> (account: Self)
        ensures
            account.free_balance@ == 0,
            account.reserved_balance@ == 0,
    {
        AccountData { free_balance: Balance::zero(), reserved_balance: Balance::zero() }
    }
}

impl AccountData {
    /// The total holding of the account.
    pub open spec fn total(&self) -> int {
        clamp(self.free_balance@ + self.reserved_balance@)
    }

    /// The total holding that is left once `amount` has been taken out of the
    /// free balance.
    pub open spec fn total_after_decrease(&self, amount: Balance) -> int {
        clamp(clamp(self.free_balance@ - amount@) + self.reserved_balance@)
    }

    /// What taking `amount` out of the account comes to, for a token with the
    /// given existential deposit.
    pub open spec fn decrease_outcome(
        &self,
        amount: Balance,
        existential_deposit: Balance,
    ) -> Result<DecreaseOp, TokenError> {
        let new_total = self.total_after_decrease(amount);
        if self.free_balance@ < amount@ {
            Err(TokenError::InsufficientFreeBalanceForDecreasing)
        } else if new_total == 0 || new_total < existential_deposit@ {
            Ok(DecreaseOp::Remove(amount, Balance(new_total as u128)))
        } else {
            Ok(DecreaseOp::Reduce(amount))
        }
    }

    /// Adds `amount` to the free balance.
    pub fn increase_liquidity_by(&mut self, amount: Balance)
        ensures
            final(self).free_balance@ == clamp(old(self).free_balance@ + amount@),
            final(self).reserved_balance == old(self).reserved_balance,
    {
        self.free_balance = self.free_balance.saturating_add(amount);
    }

    /// Takes `amount` out of the free balance, as far as it goes.
    pub fn decrease_liquidity_by(&mut self, amount: Balance)
        ensures
            final(self).free_balance@ == clamp(old(self).free_balance@ - amount@),
            final(self).reserved_balance == old(self).reserved_balance,
    {
        self.free_balance = self.free_balance.saturating_sub(amount);
    }

    /// Decides how `amount` is to be taken out of the account.
    ///
    /// The decrease is refused if the free balance does not cover it. If the
    /// total holding left would be zero or below `existential_deposit`, the
    /// account is to be removed and the holding left is dust. Otherwise the
    /// free balance is to be reduced.
    pub fn decrease_with_ex_deposit(&self, amount: Balance, existential_deposit: Balance) -> (outcome:
        Result<DecreaseOp, TokenError>)
        ensures
            outcome == self.decrease_outcome(amount, existential_deposit),
            outcome is Err <==> self.free_balance@ < amount@,
            outcome is Ok ==> (outcome->Ok_0 is Reduce <==> self.total_after_decrease(amount) != 0
                && self.total_after_decrease(amount) >= existential_deposit@),
            outcome is Ok ==> (outcome->Ok_0 is Remove <==> self.total_after_decrease(amount) == 0
                || self.total_after_decrease(amount) < existential_deposit@),
    {
        if self.free_balance.less_than(&amount) {
            return Err(TokenError::InsufficientFreeBalanceForDecreasing);
        }
        let new_total = self.free_balance.saturating_sub(amount).saturating_add(
            self.reserved_balance,
        );
        if new_total.is_zero() || new_total.less_than(&existential_deposit) {
            Ok(DecreaseOp::Remove(amount, new_total))
        } else {
            Ok(DecreaseOp::Reduce(amount))
        }
    }

    /// The total holding: free and reserved balance together.
    pub fn _total_balance(&self) -> (total: Balance)
        ensures
            total@ == self.total(),
    {
        self.free_balance.saturating_add(self.reserved_balance)
    }
}

} // verus!
