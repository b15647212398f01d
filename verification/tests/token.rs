use project_token::account::TokenError;
use project_token::balance::Balance;
use project_token::hashing::Hash256;
use project_token::patronage::PatronageData;
use project_token::token::{OfferingState, TokenData, TokenIssuanceParameters, TransferPolicy};

fn token(issuance: u128) -> TokenData {
    TokenData {
        current_total_issuance: Balance(issuance),
        existential_deposit: Balance(5),
        issuance_state: OfferingState::Sale,
        transfer_policy: TransferPolicy::Permissioned(Hash256([7u8; 32])),
        patronage_info: PatronageData {
            rate: Balance(2),
            tally: Balance(3),
            last_tally_update_block: 4,
        },
    }
}

#[test]
fn defaults_are_the_first_variants() {
    assert_eq!(TransferPolicy::default(), TransferPolicy::Permissionless);
    assert_eq!(OfferingState::default(), OfferingState::Idle);
    assert_eq!(Hash256::default(), Hash256([0u8; 32]));
}

#[test]
fn default_token_is_empty() {
    let t = TokenData::default();
    assert_eq!(t.current_total_issuance, Balance(0));
    assert_eq!(t.existential_deposit, Balance(0));
    assert_eq!(t.issuance_state, OfferingState::Idle);
    assert_eq!(t.transfer_policy, TransferPolicy::Permissionless);
    assert_eq!(t.patronage_info, PatronageData::default());
}

#[test]
fn default_parameters_are_empty() {
    let p = TokenIssuanceParameters::default();
    assert_eq!(p.initial_issuance, Balance(0));
    assert_eq!(p.initial_state, OfferingState::Idle);
    assert_eq!(p.existential_deposit, Balance(0));
    assert_eq!(p.symbol, Hash256([0u8; 32]));
    assert_eq!(p.transfer_policy, TransferPolicy::Permissionless);
    assert_eq!(p.patronage_rate, Balance(0));
}

#[test]
fn minting_increases_the_issuance() {
    let mut t = token(100);
    t.increase_issuance_by(Balance(11));
    assert_eq!(t, token(111));
}

#[test]
fn minting_clamps_at_the_largest_amount() {
    let mut t = token(u128::MAX - 3);
    t.increase_issuance_by(Balance(11));
    assert_eq!(t, token(u128::MAX));
}

#[test]
fn burning_decreases_the_issuance() {
    let mut t = token(100);
    t.decrease_issuance_by(Balance(11));
    assert_eq!(t, token(89));
}

#[test]
fn burning_clamps_at_zero() {
    let mut t = token(100);
    t.decrease_issuance_by(Balance(101));
    assert_eq!(t, token(0));
}

#[test]
fn build_seeds_the_patronage_checkpoint() {
    let parameters = TokenIssuanceParameters {
        initial_issuance: Balance(1000),
        initial_state: OfferingState::BondingCurve,
        existential_deposit: Balance(10),
        symbol: Hash256([1u8; 32]),
        transfer_policy: TransferPolicy::Permissioned(Hash256([2u8; 32])),
        patronage_rate: Balance(3),
    };
    let built: Result<TokenData, TokenError> = parameters.try_build(77);
    assert_eq!(
        built,
        Ok(TokenData {
            current_total_issuance: Balance(1000),
            existential_deposit: Balance(10),
            issuance_state: OfferingState::BondingCurve,
            transfer_policy: TransferPolicy::Permissioned(Hash256([2u8; 32])),
            patronage_info: PatronageData {
                rate: Balance(3),
                tally: Balance(0),
                last_tally_update_block: 77,
            },
        })
    );
    let token = built.unwrap();
    assert_eq!(token.patronage_info.outstanding_credit(77), Balance(0));
    assert_eq!(token.patronage_info.outstanding_credit(80), Balance(9));
}

#[test]
fn build_of_default_parameters_succeeds() {
    let built = TokenIssuanceParameters::default().try_build(0);
    assert_eq!(built, Ok(TokenData::default()));
}
