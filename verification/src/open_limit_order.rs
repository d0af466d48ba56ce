//! Resting orders.
//!
//! An `OpenLimitOrder` is one order resting on the book. Price, side, and
//! price rank are not stored as sources of truth: the containing side derives
//! them from the order's position and fills them in when an order is handed
//! out. While stored, those fields may be `None`.

use crate::account::AccountId;
use crate::calculator::{
    bid_quote_value_in_range, bid_quote_value_spec, get_bid_quote_value,
};
use crate::order_id::{new_order_id, order_id_value, OrderId};
use crate::side::Side;
use crate::tvl::Tvl;
use crate::{ClientId, LotBalance, SequenceNumber};
use vstd::prelude::*;

verus! {

/// One order resting on the book.
#[derive(Debug)]
pub struct OpenLimitOrder {
    pub sequence_number: SequenceNumber,
    pub owner_id: AccountId,
    pub open_qty_lots: LotBalance,
    pub client_id: Option<ClientId>,
    /// Limit price (price per one whole base token) in quote lots. Derived
    /// from container position; filled in when the order is handed out.
    pub limit_price_lots: Option<LotBalance>,
    /// Bid or ask. Derived from which side holds the order; filled in when
    /// the order is handed out.
    pub side: Option<Side>,
    /// Index of the order's price level, best first. Filled in when the order
    /// is handed out.
    pub price_rank: Option<u32>,
}

impl OpenLimitOrder {
    /// Field-for-field equality, with the owner compared as an identity.
    pub open spec fn same_order(self, other: OpenLimitOrder) -> bool {
        &&& self.sequence_number == other.sequence_number
        &&& self.owner_id@ == other.owner_id@
        &&& self.open_qty_lots == other.open_qty_lots
        &&& self.client_id == other.client_id
        &&& self.limit_price_lots == other.limit_price_lots
        &&& self.side == other.side
        &&& self.price_rank == other.price_rank
    }

    /// The stored limit price; the caller must know it has been initialized.
    pub fn unwrap_price(&self) -> (r: LotBalance)
        requires
            self.limit_price_lots is Some,
        ensures
            r == self.limit_price_lots.unwrap(),
    {
        match self.limit_price_lots {
            Some(p) => p,
            None => vstd::pervasive::unreached(),
        }
    }

    /// Set the derived limit price.
    pub fn initialize_price(&mut self, v: LotBalance)
        ensures
            *final(self) == (OpenLimitOrder { limit_price_lots: Some(v), ..*old(self) }),
    {
        self.limit_price_lots = Some(v);
    }

    /// The stored side; the caller must know it has been initialized.
    pub fn unwrap_side(&self) -> (r: Side)
        requires
            self.side is Some,
        ensures
            r == self.side.unwrap(),
    {
        match self.side {
            Some(s) => s,
            None => vstd::pervasive::unreached(),
        }
    }

    /// Set the derived side.
    pub fn initialize_side(&mut self, v: Side)
        ensures
            *final(self) == (OpenLimitOrder { side: Some(v), ..*old(self) }),
    {
        self.side = Some(v);
    }

    /// The stored price rank; the caller must know it has been initialized.
    pub fn unwrap_price_rank(&self) -> (r: u32)
        requires
            self.price_rank is Some,
        ensures
            r == self.price_rank.unwrap(),
    {
        match self.price_rank {
            Some(x) => x,
            None => vstd::pervasive::unreached(),
        }
    }

    /// Set the derived price rank.
    pub fn initialize_price_rank(&mut self, v: u32)
        ensures
            *final(self) == (OpenLimitOrder { price_rank: Some(v), ..*old(self) }),
    {
        self.price_rank = Some(v);
    }

    /// The order's packed identifier; side and price must be initialized.
    pub fn id(&self) -> (r: OrderId)
        requires
            self.side is Some,
            self.limit_price_lots is Some,
        ensures
            r.val() == order_id_value(
                self.side.unwrap(),
                self.limit_price_lots.unwrap(),
                self.sequence_number,
            ),
    {
        new_order_id(self.unwrap_side(), self.unwrap_price(), self.sequence_number)
    }
}

/// Native base amount this order locks: its open quantity for an ask, zero
/// for a bid.
pub open spec fn order_base_locked(o: OpenLimitOrder, base_lot_size: int) -> int
    recommends
        o.side is Some,
{
    if o.side == Some(Side::Sell) {
        o.open_qty_lots * base_lot_size
    } else {
        0
    }
}

/// Native quote amount this order locks: the bid's quote value, zero for an
/// ask.
pub open spec fn order_quote_locked(
    o: OpenLimitOrder,
    base_lot_size: int,
    quote_lot_size: int,
    base_denomination: int,
) -> int
    recommends
        o.side is Some,
{
    if o.side == Some(Side::Buy) {
        bid_quote_value_spec(
            o.open_qty_lots as int,
            o.limit_price_lots.unwrap() as int,
            base_lot_size,
            quote_lot_size,
            base_denomination,
        )
    } else {
        0
    }
}

/// The arithmetic behind [`OpenLimitOrder::value_locked`] stays in range.
pub open spec fn order_tvl_in_range(
    o: OpenLimitOrder,
    base_lot_size: int,
    quote_lot_size: int,
    base_denomination: int,
) -> bool {
    &&& o.side is Some
    &&& o.side == Some(Side::Buy) ==> o.limit_price_lots is Some && bid_quote_value_in_range(
        o.open_qty_lots as int,
        o.limit_price_lots.unwrap() as int,
        base_lot_size,
        quote_lot_size,
        base_denomination,
    )
    &&& o.side == Some(Side::Sell) ==> o.open_qty_lots * base_lot_size < crate::bn::b128()
}

impl OpenLimitOrder {
    /// The native value this resting order locks: base for an ask, quote for
    /// a bid.
    pub fn value_locked(
        &self,
        base_lot_size: u128,
        quote_lot_size: u128,
        base_denomination: u128,
    ) -> (r: Tvl)
        requires
            order_tvl_in_range(
                *self,
                base_lot_size as int,
                quote_lot_size as int,
                base_denomination as int,
            ),
        ensures
            r.base_locked == order_base_locked(*self, base_lot_size as int),
            r.quote_locked == order_quote_locked(
                *self,
                base_lot_size as int,
                quote_lot_size as int,
                base_denomination as int,
            ),
    {
        match self.unwrap_side() {
            Side::Buy => Tvl {
                base_locked: 0,
                quote_locked: get_bid_quote_value(
                    self.open_qty_lots,
                    self.unwrap_price(),
                    base_lot_size,
                    quote_lot_size,
                    base_denomination,
                ),
            },
            Side::Sell => {
                proof {
                    vstd::arithmetic::mul::lemma_mul_upper_bound(
                        self.open_qty_lots as int,
                        crate::bn::b64() - 1,
                        base_lot_size as int,
                        crate::bn::b128() - 1,
                    );
                    vstd::arithmetic::mul::lemma_mul_upper_bound(
                        0,
                        self.open_qty_lots as int,
                        0,
                        base_lot_size as int,
                    );
                }
                Tvl { base_locked: (self.open_qty_lots as u128) * base_lot_size, quote_locked: 0 }
            },
        }
    }
}

impl Clone for OpenLimitOrder {
    fn clone(&self) -> (r: Self)
        ensures
            r == *self,
    {
        OpenLimitOrder {
            sequence_number: self.sequence_number,
            owner_id: self.owner_id.clone(),
            open_qty_lots: self.open_qty_lots,
            client_id: self.client_id,
            limit_price_lots: self.limit_price_lots,
            side: self.side,
            price_rank: self.price_rank,
        }
    }
}

impl PartialEq for OpenLimitOrder {
    fn eq(&self, other: &OpenLimitOrder) -> (r: bool) {
        let side_eq = match (self.side, other.side) {
            (None, None) => true,
            (Some(a), Some(b)) => a == b,
            _ => false,
        };
        let price_eq = match (self.limit_price_lots, other.limit_price_lots) {
            (None, None) => true,
            (Some(a), Some(b)) => a == b,
            _ => false,
        };
        let client_eq = match (self.client_id, other.client_id) {
            (None, None) => true,
            (Some(a), Some(b)) => a == b,
            _ => false,
        };
        let rank_eq = match (self.price_rank, other.price_rank) {
            (None, None) => true,
            (Some(a), Some(b)) => a == b,
            _ => false,
        };
        self.sequence_number == other.sequence_number && self.owner_id == other.owner_id
            && self.open_qty_lots == other.open_qty_lots && client_eq && price_eq && side_eq
            && rank_eq
    }
}

impl vstd::std_specs::cmp::PartialEqSpecImpl for OpenLimitOrder {
    open spec fn obeys_eq_spec() -> bool {
        true
    }

    open spec fn eq_spec(&self, other: &OpenLimitOrder) -> bool {
        self.same_order(*other)
    }
}

} // verus!
