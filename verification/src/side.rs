use vstd::prelude::*;

verus! {

/// Direction of an order: bids buy base with quote, asks sell base for quote.
#[derive(Clone, Copy, Debug, PartialEq, Eq, Structural)]
pub enum Side {
    Buy,
    Sell,
}

impl Side {
    /// Short lower-case name, mirroring the usual display form.
    pub fn name(&self) -> (r: &'static str)
        ensures
            *self == Side::Buy ==> r@ == "buy"@,
            *self == Side::Sell ==> r@ == "sell"@,
    {
        match self {
            Side::Buy => "buy",
            Side::Sell => "sell",
        }
    }
}

} // verus!
