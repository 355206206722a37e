//! Signed amounts of money.

use vstd::prelude::*;

verus! {

/// What is left of a revenue after a cost, in minor units. It may be a loss:
/// the two amounts are 128 bits wide each, so their difference is kept as a
/// sign and a magnitude.
#[derive(Clone, Copy, Debug, PartialEq, Eq)]
pub struct Profit {
    loss: bool,
    magnitude: u128,
}

impl View for Profit {
    type V = int;

    closed spec fn view(&self) -> int {
        if self.loss {
            -(self.magnitude as int)
        } else {
            self.magnitude as int
        }
    }
}

impl Profit {
    /// Zero is never written as a loss.
    pub closed spec fn wf(&self) -> bool {
        self.loss ==> self.magnitude > 0
    }

    /// The profit on `revenue` after `cost`.
    pub fn between(revenue: u128, cost: u128) -> (profit: Profit)
        ensures
            profit@ == revenue - cost,
            profit.wf(),
    {
        if revenue >= cost {
            Profit { loss: false, magnitude: revenue - cost }
        } else {
            Profit { loss: true, magnitude: cost - revenue }
        }
    }

    /// Whether the cost was more than the revenue.
    pub fn is_loss(&self) -> (loss: bool)
        requires
            self.wf(),
        ensures
            loss == (self@ < 0),
    {
        self.loss
    }

    /// The size of the profit or of the loss.
    pub fn magnitude(&self) -> (magnitude: u128)
        ensures
            magnitude == if self@ < 0 {
                -self@
            } else {
                self@
            },
    {
        self.magnitude
    }
}

} // verus!
