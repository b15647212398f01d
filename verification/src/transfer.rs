//! A batch of transfers from one sender.
//!
//! The batch is applied as a whole: its total is checked against the holding
//! of the sender once, and only then is each beneficiary credited.

use vstd::prelude::*;
use vstd::std_specs::slice::into_iter_elts;
use crate::balance::{clamp, Balance};

verus! {

/// One transfer of a batch: who receives, and how much.
#[derive(Clone, Debug, PartialEq, Eq)]
pub struct Output<AccountId> {
    /// The account that receives the amount.
    pub beneficiary: AccountId,
    /// The amount due.
    pub amount: Balance,
}

/// The transfers of a batch, in order.
#[derive(Clone, Debug, PartialEq, Eq)]
pub struct Outputs<AccountId>(pub Vec<Output<AccountId>>);

/// The exact sum of the amounts of `outputs`.
pub open spec fn sum_of_amounts<AccountId>(outputs: Seq<Output<AccountId>>) -> int
    decreases outputs.len(),
{
    if outputs.len() == 0 {
        0
    } else {
        sum_of_amounts(outputs.drop_last()) + outputs.last().amount@
    }
}

/// The sum of amounts is never negative.
pub proof fn lemma_sum_of_amounts_nonnegative<AccountId>(outputs: Seq<Output<AccountId>>)
    ensures
        0 <= sum_of_amounts(outputs),
    decreases outputs.len(),
{
    if outputs.len() > 0 {
        lemma_sum_of_amounts_nonnegative(outputs.drop_last());
    }
}

impl<AccountId> View for Outputs<AccountId> {
    type V = Seq<Output<AccountId>>;

    open spec fn view(&self) -> Seq<Output<AccountId>> {
        self.0@
    }
}

impl<AccountId> Outputs<AccountId> {
    /// The sum of all amounts of the batch, clamped to the largest amount.
    pub fn total_amount(&self) -> (total: Balance)
        ensures
            total@ == clamp(sum_of_amounts(self@)),
    {
        let mut total = Balance::zero();
        let mut i: usize = 0;
        assert(self@.take(0) =~= Seq::empty());
        while i < self.0.len()
            invariant
                i <= self.0.len(),
                total@ == clamp(sum_of_amounts(self@.take(i as int))),
            decreases self.0.len() - i,
        {
            proof {
                let seen = self@.take(i + 1);
                assert(seen.drop_last() =~= self@.take(i as int));
                assert(seen.last() == self@[i as int]);
                lemma_sum_of_amounts_nonnegative(self@.take(i as int));
            }
            total = total.saturating_add(self.0[i].amount);
            i += 1;
        }
        assert(self@.take(self.0.len() as int) =~= self@);
        total
    }

    /// The transfers of the batch, in order.
    pub fn iter(&self) -> (outputs: core::slice::Iter<'_, Output<AccountId>>)
        ensures
            into_iter_elts(outputs) == self@,
    {
        self.0.as_slice().iter()
    }
}

impl<AccountId> From<Outputs<AccountId>> for Vec<Output<AccountId>> {
    fn from(v: Outputs<AccountId>) -> (outputs: Self) {
        v.0
    }
}

impl<AccountId> vstd::std_specs::convert::FromSpecImpl<Outputs<AccountId>> for Vec<Output<AccountId>> {
    open spec fn obeys_from_spec() -> bool {
        true
    }

    open spec fn from_spec(v: Outputs<AccountId>) -> Self {
        v.0
    }
}

} // verus!
