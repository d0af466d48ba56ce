//! Total value locked.
//!
//! A pair of native token amounts (base and quote) with pointwise addition.
//! Used to state and check conservation of locked value; never used to charge
//! accounts.

use vstd::prelude::*;

verus! {

/// Value locked by resting orders: base for asks, quote for bids.
#[derive(Clone, Copy, PartialEq, Eq, Structural, Debug)]
pub struct Tvl {
    pub base_locked: u128,
    pub quote_locked: u128,
}

impl Tvl {
    /// Pointwise sum; the caller must know neither component overflows.
    pub fn add(self, rhs: Tvl) -> (r: Tvl)
        requires
            self.base_locked + rhs.base_locked <= u128::MAX,
            self.quote_locked + rhs.quote_locked <= u128::MAX,
        ensures
            r.base_locked == self.base_locked + rhs.base_locked,
            r.quote_locked == self.quote_locked + rhs.quote_locked,
    {
        Tvl {
            base_locked: self.base_locked + rhs.base_locked,
            quote_locked: self.quote_locked + rhs.quote_locked,
        }
    }
}

impl Default for Tvl {
    /// The zero value: nothing locked.
    fn default() -> (r: Self)
        ensures
            r.base_locked == 0,
            r.quote_locked == 0,
    {
        Tvl { base_locked: 0, quote_locked: 0 }
    }
}

} // verus!
