//! The record of one token.
//!
//! The record holds the total issuance of the token, the existential deposit
//! its accounts must keep, the state of its offering, the policy that governs
//! its transfers and the checkpoint of its patronage credit. The issuance is
//! kept by whoever mints and burns, not derived from the accounts.

use vstd::prelude::*;
use crate::account::TokenError;
use crate::balance::{clamp, Balance, BlockNumber};
use crate::hashing::{zero_digest, Hash256};
use crate::patronage::PatronageData;

verus! {

/// Who may receive a transfer of the token.
#[derive(Clone, Copy, Debug, PartialEq, Eq)]
pub enum TransferPolicy {
    /// Any account.
    Permissionless,
    /// The accounts of an allow-list, known by its Merkle commitment.
    Permissioned(Hash256),
}

impl Default for TransferPolicy {
    fn default() -> (policy: Self)
        ensures
            policy == TransferPolicy::Permissionless,
    {
        TransferPolicy::Permissionless
    }
}

/// The state of the offering of the token.
#[derive(Clone, Copy, Debug, PartialEq, Eq, Structural)]
pub enum OfferingState {
    /// No offering takes place.
    Idle,
    /// The token is on sale.
    Sale,
    /// The token is offered along a bonding curve.
    BondingCurve,
}

impl Default for OfferingState {
    fn default() -> (state: Self)
        ensures
            state == OfferingState::Idle,
    {
        OfferingState::Idle
    }
}

/// The record of a token.
#[derive(Clone, Copy, Debug, PartialEq, Eq)]
pub struct TokenData {
    /// The sum of all holdings of the token.
    pub current_total_issuance: Balance,
    /// The least total holding an account of the token may keep.
    pub existential_deposit: Balance,
    /// The state of the offering.
    pub issuance_state: OfferingState,
    /// The policy for transfers.
    pub transfer_policy: TransferPolicy,
    /// The checkpoint of the patronage credit.
    pub patronage_info: PatronageData,
}

impl Default for TokenData {
    fn default() -> (token: Self)
        ensures
            token == (TokenData {
                current_total_issuance: Balance(0),
                existential_deposit: Balance(0),
                issuance_state: OfferingState::Idle,
                transfer_policy: TransferPolicy::Permissionless,
                patronage_info: PatronageData {
                    rate: Balance(0),
                    tally: Balance(0),
                    last_tally_update_block: 0,
                },
            }),
    {
        TokenData {
            current_total_issuance: Balance::zero(),
            existential_deposit: Balance::zero(),
            issuance_state: OfferingState::Idle,
            transfer_policy: TransferPolicy::Permissionless,
            patronage_info: PatronageData {
                rate: Balance::zero(),
                tally: Balance::zero(),
                last_tally_update_block: 0,
            },
        }
    }
}

impl TokenData {
    /// Records that `amount` tokens were minted.
    pub fn increase_issuance_by(&mut self, amount: Balance)
        ensures
            final(self).current_total_issuance@ == clamp(
                old(self).current_total_issuance@ + amount@,
            ),
            final(self).existential_deposit == old(self).existential_deposit,
            final(self).issuance_state == old(self).issuance_state,
            final(self).transfer_policy == old(self).transfer_policy,
            final(self).patronage_info == old(self).patronage_info,
    {
        self.current_total_issuance = self.current_total_issuance.saturating_add(amount);
    }

    /// Records that `amount` tokens were burned.
    pub fn decrease_issuance_by(&mut self, amount: Balance)
        ensures
            final(self).current_total_issuance@ == clamp(
                old(self).current_total_issuance@ - amount@,
            ),
            final(self).existential_deposit == old(self).existential_deposit,
            final(self).issuance_state == old(self).issuance_state,
            final(self).transfer_policy == old(self).transfer_policy,
            final(self).patronage_info == old(self).patronage_info,
    {
        self.current_total_issuance = self.current_total_issuance.saturating_sub(amount);
    }
}

/// The parameters a token is issued with.
#[derive(Clone, Copy, Debug, PartialEq, Eq)]
pub struct TokenIssuanceParameters {
    /// The issuance the token starts with.
    pub initial_issuance: Balance,
    /// The state of the offering the token starts in.
    pub initial_state: OfferingState,
    /// The existential deposit of the token.
    pub existential_deposit: Balance,
    /// The symbol of the token.
    pub symbol: Hash256,
    /// The transfer policy the token starts with.
    pub transfer_policy: TransferPolicy,
    /// The patronage rate the token starts with.
    pub patronage_rate: Balance,
}

impl Default for TokenIssuanceParameters {
    fn default() -> (parameters: Self)
        ensures
            parameters.initial_issuance@ == 0,
            parameters.initial_state == OfferingState::Idle,
            parameters.existential_deposit@ == 0,
            parameters.symbol@ == zero_digest(),
            parameters.transfer_policy == TransferPolicy::Permissionless,
            parameters.patronage_rate@ == 0,
    {
        TokenIssuanceParameters {
            initial_issuance: Balance::zero(),
            initial_state: OfferingState::Idle,
            existential_deposit: Balance::zero(),
            symbol: Hash256::default(),
            transfer_policy: TransferPolicy::Permissionless,
            patronage_rate: Balance::zero(),
        }
    }
}

impl TokenIssuanceParameters {
    /// The record of a token issued with these parameters at `block`.
    pub open spec fn built_at(&self, block: BlockNumber) -> TokenData {
        TokenData {
            current_total_issuance: self.initial_issuance,
            existential_deposit: self.existential_deposit,
            issuance_state: self.initial_state,
            transfer_policy: self.transfer_policy,
            patronage_info: PatronageData {
                rate: self.patronage_rate,
                tally: Balance(0),
                last_tally_update_block: block,
            },
        }
    }

    /// Builds the record of a token issued with these parameters at `block`.
    /// No credit has accrued yet, and accrual starts at `block`.
    pub fn try_build(self, block: BlockNumber) -> (token: Result<TokenData, TokenError>)
        ensures
            token == Ok::<TokenData, TokenError>(self.built_at(block)),
    {
        let patronage_info = PatronageData {
            last_tally_update_block: block,
            tally: Balance::zero(),
            rate: self.patronage_rate,
        };
        Ok(
            TokenData {
                current_total_issuance: self.initial_issuance,
                issuance_state: self.initial_state,
                existential_deposit: self.existential_deposit,
                transfer_policy: self.transfer_policy,
                patronage_info,
            },
        )
    }
}

} // verus!
