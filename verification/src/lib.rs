//! Accounting core of a fungible-token ledger.
//!
//! The crate holds the per-account balance record, the token-wide issuance
//! record with its lazily accrued patronage credit, the transfer batch, and a
//! Merkle commitment scheme that gates transfers of permissioned tokens.
//! Every function carries a contract stated over mathematical models of the
//! data, and every contract is machine-checked.

pub mod balance;
pub mod hashing;
pub mod merkle;
pub mod merkle_tree;
pub mod account;
pub mod patronage;
pub mod token;
pub mod transfer;
