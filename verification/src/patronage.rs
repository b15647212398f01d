//! Patronage: a credit that accrues with every block.
//!
//! The credit is not written anywhere as it grows. A checkpoint holds what
//! had accrued when the rate was last changed, the block of that change and
//! the rate since; what has accrued by a later block is computed from these
//! on demand. Changing the rate first moves the checkpoint, so that a new
//! rate never alters credit accrued under the old one.

use vstd::prelude::*;
use vstd::arithmetic::mul::lemma_mul_inequality;
use crate::balance::{clamp, lemma_clamp_monotonic, Balance, BlockNumber};

verus! {

/// The checkpoint of a patronage credit.
#[derive(Clone, Copy, Debug, PartialEq, Eq, Structural)]
pub struct PatronageData {
    /// Credit accrued per block.
    pub rate: Balance,
    /// Credit that had accrued at the checkpoint.
    pub tally: Balance,
    /// Block of the checkpoint.
    pub last_tally_update_block: BlockNumber,
}

impl Default for PatronageData {
    fn default() -> (patronage: Self)
        ensures
            patronage.rate@ == 0,
            patronage.tally@ == 0,
            patronage.last_tally_update_block == 0,
    {
        PatronageData { rate: Balance::zero(), tally: Balance::zero(), last_tally_update_block: 0 }
    }
}

impl PatronageData {
    /// The number of blocks from the checkpoint to `block`; none if `block`
    /// lies before the checkpoint.
    pub open spec fn blocks_since_update(&self, block: BlockNumber) -> int {
        if block >= self.last_tally_update_block {
            block - self.last_tally_update_block
        } else {
            0
        }
    }

    /// The credit accrued by `block`: the tally and the rate for every block
    /// since the checkpoint, each clamped to the range of a balance.
    pub open spec fn credit_at(&self, block: BlockNumber) -> int {
        clamp(clamp(self.blocks_since_update(block) * self.rate@) + self.tally@)
    }

    /// The checkpoint after a change of the rate to `new_rate` at `block`: the
    /// credit accrued by then is the tally, and accrual goes on from `block`
    /// at the new rate.
    pub open spec fn with_rate_at(&self, new_rate: Balance, block: BlockNumber) -> PatronageData {
        PatronageData {
            rate: new_rate,
            tally: Balance(self.credit_at(block) as u128),
            last_tally_update_block: block,
        }
    }

    /// The credit accrued by `block`.
    pub fn outstanding_credit(&self, block: BlockNumber) -> (credit: Balance)
        ensures
            credit@ == self.credit_at(block),
    {
        let period = block.saturating_sub(self.last_tally_update_block);
        let accrued = Balance::from_blocks(period).saturating_mul(self.rate);
        accrued.saturating_add(self.tally)
    }

    /// Changes the rate to `new_rate` from `block` on. The credit accrued by
    /// `block` under the old rate becomes the tally.
    pub fn set_new_rate_at_block(&mut self, new_rate: Balance, block: BlockNumber)
        ensures
            *final(self) == old(self).with_rate_at(new_rate, block),
            final(self).credit_at(block) == old(self).credit_at(block),
    {
        proof {
            lemma_rate_change_keeps_credit(*self, new_rate, block);
        }
        self.tally = self.outstanding_credit(block);
        self.last_tally_update_block = block;
        self.rate = new_rate;
    }

    /// Starts the accrual anew at `block`, at the same rate and with no
    /// credit accrued.
    pub fn reset_tally_at_block(&mut self, block: BlockNumber)
        ensures
            *final(self) == (PatronageData {
                rate: old(self).rate,
                tally: Balance(0),
                last_tally_update_block: block,
            }),
    {
        self.last_tally_update_block = block;
        self.tally = Balance::zero();
    }
}

/// The credit never shrinks as blocks pass, the checkpoint left as it is.
pub proof fn lemma_credit_monotonic(patronage: PatronageData, earlier: BlockNumber, later: BlockNumber)
    requires
        earlier <= later,
    ensures
        patronage.credit_at(earlier) <= patronage.credit_at(later),
{
    let rate = patronage.rate@;
    let short = patronage.blocks_since_update(earlier);
    let long = patronage.blocks_since_update(later);
    lemma_mul_inequality(short, long, rate);
    lemma_clamp_monotonic(short * rate, long * rate);
    lemma_clamp_monotonic(
        clamp(short * rate) + patronage.tally@,
        clamp(long * rate) + patronage.tally@,
    );
}

/// While it fits a balance, the credit is the tally and the rate for every
/// block since the checkpoint.
pub proof fn lemma_credit_exact(patronage: PatronageData, block: BlockNumber)
    requires
        block >= patronage.last_tally_update_block,
        patronage.tally@ + patronage.rate@ * (block - patronage.last_tally_update_block)
            <= u128::MAX,
    ensures
        patronage.credit_at(block) == patronage.tally@ + patronage.rate@ * (block
            - patronage.last_tally_update_block),
{
    let rate = patronage.rate@;
    let blocks = block - patronage.last_tally_update_block;
    assert(blocks * rate == rate * blocks) by (nonlinear_arith);
    assert(0 <= rate * blocks) by (nonlinear_arith)
        requires
            0 <= rate,
            0 <= blocks,
    ;
}

/// A change of rate at a block leaves the credit accrued by that block as it
/// was.
pub proof fn lemma_rate_change_keeps_credit(
    patronage: PatronageData,
    new_rate: Balance,
    block: BlockNumber,
)
    ensures
        patronage.with_rate_at(new_rate, block).credit_at(block) == patronage.credit_at(block),
{
    let after = patronage.with_rate_at(new_rate, block);
    assert(after.blocks_since_update(block) * after.rate@ == 0) by (nonlinear_arith)
        requires
            after.blocks_since_update(block) == 0,
    ;
}

} // verus!
