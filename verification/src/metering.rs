//! Metering guard.
//!
//! Every call is charged before its handler may touch the ledger. The
//! budget is supplied per call by the surrounding execution context; a
//! charge that the budget cannot cover aborts the call with no effect.

use vstd::prelude::*;

verus! {

/// The flat cost charged for an operation that may mutate the ledger.
pub const OP_COST: u64 = 100_000;

/// A per-call resource budget.
pub struct Budget {
    /// What remains of the budget.
    pub remaining: u64,
}

impl Budget {
    pub fn new(limit: u64) -> (r: Budget)
        ensures
            r.remaining == limit,
    {
        Budget { remaining: limit }
    }

    /// Charges `amount` if the budget covers it; otherwise leaves the
    /// budget untouched and reports failure.
    pub fn charge(&mut self, amount: u64) -> (r: bool)
        ensures
            r == (old(self).remaining >= amount),
            r ==> final(self).remaining == old(self).remaining - amount,
            !r ==> final(self).remaining == old(self).remaining,
    {
        if self.remaining >= amount {
            self.remaining = self.remaining - amount;
            true
        } else {
            false
        }
    }
}

} // verus!
