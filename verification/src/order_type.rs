use vstd::prelude::*;

verus! {

/// How an incoming order behaves against resting liquidity.
#[derive(Clone, Copy, Debug, PartialEq, Eq, Structural)]
pub enum OrderType {
    /// Order fills at the specified price or better. Any part of the order
    /// not immediately filled will be posted.
    Limit,
    /// Fill as much as can be immediately filled and cancel the remainder.
    ImmediateOrCancel,
    /// Ensure the order posts to the book. If any part would immediately
    /// fill, cancel the order completely.
    PostOnly,
    /// Immediately fill the whole order or cancel it completely.
    FillOrKill,
    /// Fill as much as possible at market price and refund unused funds.
    Market,
}

impl OrderType {
    /// Whether an unfilled remainder of this order type rests on the book.
    pub open spec fn can_post(self) -> bool {
        !(self == OrderType::FillOrKill || self == OrderType::ImmediateOrCancel || self
            == OrderType::Market)
    }
}

} // verus!
