//! Token amounts with clamping arithmetic.
//!
//! Ledger code must never abort in the middle of a mutation, so every
//! operation on a [`Balance`] is total: a result above the largest
//! representable amount becomes that amount, a result below zero becomes zero.

use vstd::prelude::*;

verus! {

/// A block height, as supplied by the host of the ledger.
pub type BlockNumber = u64;

/// An unsigned amount of tokens.
#[derive(Clone, Copy, Debug, PartialEq, Eq, Structural, PartialOrd, Ord, Hash)]
pub struct Balance(pub u128);

/// The largest amount a [`Balance`] can hold.
pub open spec fn max_balance() -> int {
    u128::MAX as int
}

/// The amount closest to `x` that a [`Balance`] can hold.
pub open spec fn clamp(x: int) -> int {
    if x < 0 {
        0
    } else if x > max_balance() {
        max_balance()
    } else {
        x
    }
}

impl View for Balance {
    type V = int;

    open spec fn view(&self) -> int {
        self.0 as int
    }
}

impl Default for Balance {
    fn default() -> (zero: Self)
        ensures
            zero@ == 0,
    {
        Balance(0)
    }
}

impl Balance {
    /// The largest amount.
    pub fn max() -> (top: Self)
        ensures
            top@ == max_balance(),
    {
        Balance(u128::MAX)
    }

    /// The amount of no tokens.
    pub fn zero() -> (zero: Self)
        ensures
            zero@ == 0,
    {
        Balance(0)
    }

    /// Whether this is the amount of no tokens.
    pub fn is_zero(&self) -> (empty: bool)
        ensures
            empty <==> self@ == 0,
    {
        self.0 == 0
    }

    /// The amount that stands for a span of blocks, one token unit per block.
    pub fn from_blocks(blocks: BlockNumber) -> (amount: Self)
        ensures
            amount@ == blocks,
    {
        Balance(blocks as u128)
    }

    /// Sum of two amounts, clamped to the largest amount.
    pub fn saturating_add(self, rhs: Self) -> (sum: Self)
        ensures
            sum@ == clamp(self@ + rhs@),
    {
        Balance(self.0.saturating_add(rhs.0))
    }

    /// Difference of two amounts, clamped to zero.
    pub fn saturating_sub(self, rhs: Self) -> (difference: Self)
        ensures
            difference@ == clamp(self@ - rhs@),
    {
        Balance(self.0.saturating_sub(rhs.0))
    }

    /// Product of two amounts, clamped to the largest amount.
    pub fn saturating_mul(self, rhs: Self) -> (product: Self)
        ensures
            product@ == clamp(self@ * rhs@),
    {
        match self.0.checked_mul(rhs.0) {
            Some(product) => Balance(product),
            None => Balance(u128::MAX),
        }
    }

    /// Whether this amount is strictly below `other`.
    pub fn less_than(&self, other: &Self) -> (below: bool)
        ensures
            below <==> self@ < other@,
    {
        self.0 < other.0
    }
}

/// Clamping keeps the order of the exact results.
pub proof fn lemma_clamp_monotonic(x: int, y: int)
    requires
        x <= y,
    ensures
        clamp(x) <= clamp(y),
{
}

} // verus!
