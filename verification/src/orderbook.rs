//! The orderbook: two sorted sides plus the cross-cutting queries that
//! identify, fetch, and cancel resting orders. The matching engine itself
//! lives in [`crate::matching`].

use crate::account::AccountId;
use crate::l2::{
    has_key, idx_of, max_entry_idx, min_entry_idx, side_base_locked, side_quote_locked,
    side_tvl_in_range, VecL2,
};
use crate::open_limit_order::OpenLimitOrder;
use crate::order_id::{get_order_id_parts, id_price, id_sequence, id_side, OrderId};
use crate::order_type::OrderType;
use crate::side::Side;
use crate::tvl::Tvl;
use crate::{ClientId, LotBalance, SequenceNumber};
use vstd::prelude::*;

verus! {

/// The immediate outcome of creating a new order.
#[derive(Clone, Copy, Debug, PartialEq, Eq, Structural)]
pub enum OrderOutcome {
    /// The order was completely filled and not placed on the book.
    Filled,
    /// The order was partially filled. The remainder was placed on the book.
    PartialFill,
    /// The order was cancelled.
    Cancelled,
    /// The order was placed on the book. No part of the order was
    /// immediately filled.
    Posted,
    /// The order was not placed and no changes have been made to the user's
    /// account.
    Rejected,
}

/// A fatal invariant violation found while processing an order. The
/// on-chain host aborts the whole transaction on these; callers that want
/// that behavior test the result and abort themselves.
#[derive(Clone, Copy, Debug, PartialEq, Eq, Structural)]
pub enum EngineError {
    /// A non-market order reached posting without a limit price.
    MissingLimitPrice,
    /// The incoming order would trade against the same user's resting order.
    SelfTrade,
    /// A narrowing overflowed, a product needed more than 256 bits, a
    /// divisor was zero, or a balance would have gone negative.
    ArithmeticOverflow,
}

/// An order ready to be processed by the matching engine.
#[derive(Debug, Clone, Copy)]
pub struct NewOrder {
    pub sequence_number: SequenceNumber,
    pub limit_price_lots: Option<LotBalance>,
    /// Quote budget for a buy. One of the two stopping controls, along with
    /// `max_qty_lots`.
    pub available_quote_lots: Option<LotBalance>,
    /// Maximum base quantity to trade.
    pub max_qty_lots: LotBalance,
    pub side: Side,
    pub order_type: OrderType,
    pub base_denomination: u128,
    pub quote_lot_size: u128,
    pub base_lot_size: u128,
    pub client_id: Option<ClientId>,
}

impl NewOrder {
    /// The shape every order must have: a positive quantity, and a positive
    /// limit price unless it is a market order.
    pub open spec fn valid(self) -> bool {
        &&& self.order_type != OrderType::Market ==> self.limit_price_lots is Some
            && self.limit_price_lots.unwrap() > 0
        &&& self.max_qty_lots > 0
    }

    /// Runtime check of [`NewOrder::valid`].
    pub fn is_valid(&self) -> (r: bool)
        ensures
            r == self.valid(),
    {
        let limit_ok = match (self.order_type, self.limit_price_lots) {
            (OrderType::Market, _) => true,
            (_, Some(p)) => p > 0,
            (_, None) => false,
        };
        limit_ok && self.max_qty_lots > 0
    }

    /// Callers must only hand the engine valid orders; the host aborts
    /// otherwise. Validity is carried in the precondition here.
    pub fn assert_valid(&self)
        requires
            self.valid(),
    {
    }

    /// The native value a user must lock to place this order: its full quote
    /// budget for a buy, its full base quantity for a sell.
    pub fn value_locked(&self) -> (r: Tvl)
        requires
            self.side == Side::Buy ==> self.available_quote_lots is Some
                && self.available_quote_lots.unwrap() * self.quote_lot_size < crate::bn::b128(),
            self.side == Side::Sell ==> self.max_qty_lots * self.base_lot_size < crate::bn::b128(),
        ensures
            self.side == Side::Buy ==> r == (Tvl {
                base_locked: 0,
                quote_locked: (self.available_quote_lots.unwrap() * self.quote_lot_size) as u128,
            }),
            self.side == Side::Sell ==> r == (Tvl {
                base_locked: (self.max_qty_lots * self.base_lot_size) as u128,
                quote_locked: 0,
            }),
    {
        match self.side {
            Side::Buy => {
                let avail = match self.available_quote_lots {
                    Some(a) => a,
                    None => vstd::pervasive::unreached(),
                };
                proof {
                    vstd::arithmetic::mul::lemma_mul_nonnegative(
                        avail as int,
                        self.quote_lot_size as int,
                    );
                }
                Tvl { base_locked: 0, quote_locked: (avail as u128) * self.quote_lot_size }
            },
            Side::Sell => {
                proof {
                    vstd::arithmetic::mul::lemma_mul_nonnegative(
                        self.max_qty_lots as int,
                        self.base_lot_size as int,
                    );
                }
                Tvl {
                    base_locked: (self.max_qty_lots as u128) * self.base_lot_size,
                    quote_locked: 0,
                }
            },
        }
    }
}

/// A match ready to be executed: one fill against one resting maker order.
#[derive(Debug)]
pub struct Match {
    pub maker_order_id: OrderId,
    pub maker_user_id: AccountId,
    pub fill_qty_lots: LotBalance,
    pub fill_price_lots: LotBalance,
    pub native_quote_paid: u128,
    /// Rank of the maker's price level in the book the walk saw.
    pub maker_order_price_rank: u32,
    /// Whether executing the match removed the maker order from the book.
    /// `None` on a candidate match from the pure walk; the apply step
    /// decides and sets it, so every match in a final report carries `Some`.
    pub maker_order_removed: Option<bool>,
}

impl Match {
    /// Whether the maker order was removed; the flag must have been decided.
    pub fn did_remove_maker_order(&self) -> (r: bool)
        requires
            self.maker_order_removed is Some,
        ensures
            r == self.maker_order_removed.unwrap(),
    {
        match self.maker_order_removed {
            Some(b) => b,
            None => vstd::pervasive::unreached(),
        }
    }
}

impl Clone for Match {
    fn clone(&self) -> (r: Self)
        ensures
            r.maker_order_id == self.maker_order_id,
            r.maker_user_id@ == self.maker_user_id@,
            r.fill_qty_lots == self.fill_qty_lots,
            r.fill_price_lots == self.fill_price_lots,
            r.native_quote_paid == self.native_quote_paid,
            r.maker_order_price_rank == self.maker_order_price_rank,
            r.maker_order_removed == self.maker_order_removed,
    {
        Match {
            maker_order_id: self.maker_order_id,
            maker_user_id: self.maker_user_id.clone(),
            fill_qty_lots: self.fill_qty_lots,
            fill_price_lots: self.fill_price_lots,
            native_quote_paid: self.native_quote_paid,
            maker_order_price_rank: self.maker_order_price_rank,
            maker_order_removed: self.maker_order_removed,
        }
    }
}

/// Total base lots filled across a list of matches.
pub open spec fn matches_fill_total(ms: Seq<Match>) -> int
    decreases ms.len(),
{
    if ms.len() == 0 {
        0
    } else {
        matches_fill_total(ms.drop_last()) + ms.last().fill_qty_lots
    }
}

/// Native quote paid across a list of matches.
pub open spec fn matches_quote_traded(ms: Seq<Match>) -> int
    decreases ms.len(),
{
    if ms.len() == 0 {
        0
    } else {
        matches_quote_traded(ms.drop_last()) + ms.last().native_quote_paid
    }
}

/// Native base traded across a list of matches.
pub open spec fn matches_base_traded(ms: Seq<Match>, base_lot_size: int) -> int
    decreases ms.len(),
{
    if ms.len() == 0 {
        0
    } else {
        matches_base_traded(ms.drop_last(), base_lot_size) + ms.last().fill_qty_lots
            * base_lot_size
    }
}

/// Result of running the matching engine. Used to settle account balance
/// changes.
#[derive(Debug)]
pub struct PlaceOrderResult {
    pub id: OrderId,
    pub fill_qty_lots: LotBalance,
    pub open_qty_lots: LotBalance,
    /// For a bid: the amount spent taking liquidity off the book (if any).
    /// For an ask: not used.
    pub quote_amount_lots: LotBalance,
    pub outcome: OrderOutcome,
    pub matches: Vec<Match>,
    /// Price rank of the new order. `None` if the order didn't post.
    pub price_rank: Option<u32>,
    /// Best resting bid after the order was placed. `None` if the bid side
    /// is empty.
    pub best_bid: Option<LotBalance>,
    /// Best resting ask after the order was placed. `None` if the ask side
    /// is empty.
    pub best_ask: Option<LotBalance>,
}

impl PlaceOrderResult {
    /// Whether any part of the order rests on the book.
    pub fn is_posted(&self) -> (r: bool)
        ensures
            r == (self.open_qty_lots > 0),
    {
        self.open_qty_lots > 0
    }

    /// The native value that changed hands through this result's matches.
    pub fn value_locked(
        &self,
        base_lot_size: u128,
        _quote_lot_size: u128,
        _base_denomination: u128,
    ) -> (r: Tvl)
        requires
            forall|i: int|
                0 <= i < self.matches@.len() ==> (#[trigger] self.matches@[i]).fill_qty_lots
                    * base_lot_size < crate::bn::b128(),
            matches_quote_traded(self.matches@) < crate::bn::b128(),
            matches_base_traded(self.matches@, base_lot_size as int) < crate::bn::b128(),
        ensures
            r.quote_locked == matches_quote_traded(self.matches@),
            r.base_locked == matches_base_traded(self.matches@, base_lot_size as int),
    {
        let ghost ms = self.matches@;
        let n = self.matches.len();
        let mut quote: u128 = 0;
        let mut base: u128 = 0;
        let mut i: usize = 0;
        proof {
            assert(ms.take(0) =~= Seq::<Match>::empty());
        }
        while i < n
            invariant
                n == ms.len(),
                ms == self.matches@,
                i <= n,
                quote == matches_quote_traded(ms.take(i as int)),
                base == matches_base_traded(ms.take(i as int), base_lot_size as int),
                forall|k: int|
                    0 <= k < ms.len() ==> (#[trigger] ms[k]).fill_qty_lots * base_lot_size
                        < crate::bn::b128(),
                matches_quote_traded(ms) < crate::bn::b128(),
                matches_base_traded(ms, base_lot_size as int) < crate::bn::b128(),
            decreases n - i,
        {
            proof {
                let t1 = ms.take(i + 1);
                assert(t1.drop_last() =~= ms.take(i as int));
                assert(t1.last() == ms[i as int]);
                lemma_matches_traded_prefix(ms, base_lot_size as int, i + 1);
                lemma_matches_traded_prefix(ms, base_lot_size as int, i as int);
                vstd::arithmetic::mul::lemma_mul_nonnegative(
                    ms[i as int].fill_qty_lots as int,
                    base_lot_size as int,
                );
            }
            quote = quote + self.matches[i].native_quote_paid;
            base = base + (self.matches[i].fill_qty_lots as u128) * base_lot_size;
            i = i + 1;
        }
        proof {
            assert(ms.take(n as int) =~= ms);
        }
        Tvl { base_locked: base, quote_locked: quote }
    }
}

/// Prefixes of the traded sums are bounded by the whole.
pub proof fn lemma_matches_traded_prefix(ms: Seq<Match>, base_lot_size: int, i: int)
    requires
        base_lot_size >= 0,
        0 <= i <= ms.len(),
    ensures
        0 <= matches_quote_traded(ms.take(i)) <= matches_quote_traded(ms),
        0 <= matches_base_traded(ms.take(i), base_lot_size) <= matches_base_traded(
            ms,
            base_lot_size,
        ),
    decreases ms.len(),
{
    if ms.len() == 0 {
        assert(ms.take(i) =~= ms);
    } else {
        vstd::arithmetic::mul::lemma_mul_nonnegative(
            ms.last().fill_qty_lots as int,
            base_lot_size,
        );
        if i == ms.len() {
            assert(ms.take(i) =~= ms);
            lemma_matches_traded_prefix(ms.drop_last(), base_lot_size, ms.len() - 1);
        } else {
            assert(ms.take(i) =~= ms.drop_last().take(i));
            lemma_matches_traded_prefix(ms.drop_last(), base_lot_size, i);
        }
    }
}

/// A settlement report reduced to native amounts, for host-facing views.
#[derive(Debug, PartialEq)]
pub struct PlaceOrderResultView {
    pub id: OrderId,
    pub outcome: OrderOutcome,
    /// Amount of base immediately traded.
    pub base_fill_quantity: u128,
    /// Amount of quote immediately traded.
    pub quote_fill_quantity: u128,
    /// Amount of base still open.
    pub open_quantity: u128,
}

impl PlaceOrderResult {
    /// Reduce the report to native amounts.
    pub fn into_view(self, base_lot_size: u128, quote_lot_size: u128) -> (r: PlaceOrderResultView)
        requires
            self.fill_qty_lots * base_lot_size < crate::bn::b128(),
            self.open_qty_lots * base_lot_size < crate::bn::b128(),
            self.quote_amount_lots * quote_lot_size < crate::bn::b128(),
        ensures
            r.id == self.id,
            r.outcome == self.outcome,
            r.base_fill_quantity == self.fill_qty_lots * base_lot_size,
            r.open_quantity == self.open_qty_lots * base_lot_size,
            r.quote_fill_quantity == self.quote_amount_lots * quote_lot_size,
    {
        proof {
            vstd::arithmetic::mul::lemma_mul_nonnegative(
                self.fill_qty_lots as int,
                base_lot_size as int,
            );
            vstd::arithmetic::mul::lemma_mul_nonnegative(
                self.open_qty_lots as int,
                base_lot_size as int,
            );
            vstd::arithmetic::mul::lemma_mul_nonnegative(
                self.quote_amount_lots as int,
                quote_lot_size as int,
            );
        }
        PlaceOrderResultView {
            id: self.id,
            outcome: self.outcome,
            base_fill_quantity: (self.fill_qty_lots as u128) * base_lot_size,
            open_quantity: (self.open_qty_lots as u128) * base_lot_size,
            quote_fill_quantity: (self.quote_amount_lots as u128) * quote_lot_size,
        }
    }
}

/// Intermediate result of the match walk.
#[derive(Debug)]
pub struct MatchOrderResult {
    pub unfilled_qty_lots: LotBalance,
    pub unused_quote_lots: Option<LotBalance>,
    pub matches: Vec<Match>,
}

/// The orderbook: a bid side and an ask side.
#[derive(Debug)]
pub struct Orderbook {
    pub bids: VecL2,
    pub asks: VecL2,
}

/// A ghost snapshot of the book: the two entry sequences.
pub ghost struct BookSnap {
    pub bids: Seq<(u64, OpenLimitOrder)>,
    pub asks: Seq<(u64, OpenLimitOrder)>,
}

/// The snapshot's entries for a side.
pub open spec fn snap_side(s: BookSnap, side: Side) -> Seq<(u64, OpenLimitOrder)> {
    if side == Side::Buy {
        s.bids
    } else {
        s.asks
    }
}

/// The order an ID refers to within a snapshot, as it would be handed out.
pub open spec fn snap_lookup(s: BookSnap, order_id: OrderId) -> Option<OpenLimitOrder> {
    let side = id_side(order_id.val() as int);
    let price = id_price(order_id.val() as int) as u64;
    let seq = id_sequence(order_id.val() as int) as u64;
    let e = snap_side(s, side);
    if has_key(e, price, seq) {
        Some(crate::l2::init_entry(e, side == Side::Buy, idx_of(e, price, seq)))
    } else {
        None
    }
}

/// The snapshot after removing the order an ID refers to, if it rests here.
pub open spec fn snap_remove(s: BookSnap, order_id: OrderId) -> BookSnap {
    let side = id_side(order_id.val() as int);
    let price = id_price(order_id.val() as int) as u64;
    let seq = id_sequence(order_id.val() as int) as u64;
    let e = snap_side(s, side);
    if has_key(e, price, seq) {
        let i = idx_of(e, price, seq);
        if side == Side::Buy {
            BookSnap { bids: s.bids.remove(i), ..s }
        } else {
            BookSnap { asks: s.asks.remove(i), ..s }
        }
    } else {
        s
    }
}

/// Folding a batch of cancellations over a snapshot: the final snapshot and
/// the orders that were still resting, in batch order.
pub open spec fn cancel_fold(s: BookSnap, ids: Seq<OrderId>) -> (BookSnap, Seq<OpenLimitOrder>)
    decreases ids.len(),
{
    if ids.len() == 0 {
        (s, Seq::empty())
    } else {
        let deleted0: Seq<OpenLimitOrder> = match snap_lookup(s, ids[0]) {
            Some(o) => seq![o],
            None => Seq::empty(),
        };
        let rec = cancel_fold(snap_remove(s, ids[0]), ids.skip(1));
        (rec.0, deleted0 + rec.1)
    }
}

/// The concrete orderbook backed by sorted vectors.
pub type VecOrderbook = Orderbook;

impl Orderbook {
    /// Well-formed: both sides sorted, bids descending and asks ascending.
    pub open spec fn wf(self) -> bool {
        &&& self.bids.wf()
        &&& self.asks.wf()
        &&& self.bids.reverse_prices
        &&& !self.asks.reverse_prices
    }

    /// This book as a ghost snapshot.
    pub open spec fn snap(self) -> BookSnap {
        BookSnap { bids: self.bids.orders@, asks: self.asks.orders@ }
    }

    /// The side container for a direction.
    pub open spec fn side_l2(self, side: Side) -> VecL2 {
        if side == Side::Buy {
            self.bids
        } else {
            self.asks
        }
    }

    /// Price of the best (highest-priced) resting bid.
    pub open spec fn best_bid_price(self) -> Option<LotBalance> {
        if self.bids.entries().len() == 0 {
            None
        } else {
            Some(self.bids.entries()[max_entry_idx(self.bids.entries())].0)
        }
    }

    /// Price of the best (lowest-priced) resting ask.
    pub open spec fn best_ask_price(self) -> Option<LotBalance> {
        if self.asks.entries().len() == 0 {
            None
        } else {
            Some(self.asks.entries()[min_entry_idx(self.asks.entries())].0)
        }
    }

    /// The order a given ID refers to, if it rests on the book, as it would
    /// be handed out.
    pub open spec fn order_lookup(self, order_id: OrderId) -> Option<OpenLimitOrder> {
        let side = id_side(order_id.val() as int);
        let price = id_price(order_id.val() as int) as u64;
        let seq = id_sequence(order_id.val() as int) as u64;
        let l2 = self.side_l2(side);
        if has_key(l2.entries(), price, seq) {
            Some(l2.init_order(idx_of(l2.entries(), price, seq)))
        } else {
            None
        }
    }

    pub fn new(bids: VecL2, asks: VecL2) -> (r: Orderbook)
        ensures
            r.bids == bids,
            r.asks == asks,
    {
        Orderbook { bids, asks }
    }

    /// The best-priced resting order on a side: the highest bid or the
    /// lowest ask.
    pub fn find_bbo(&self, side: Side) -> (r: Option<OpenLimitOrder>)
        requires
            self.bids.entries().len() < u32::MAX,
            self.asks.entries().len() < u32::MAX,
        ensures
            side == Side::Buy ==> {
                &&& self.bids.entries().len() == 0 ==> r is None
                &&& self.bids.entries().len() > 0 ==> (r matches Some(o) && o
                    == self.bids.init_order(max_entry_idx(self.bids.entries())))
            },
            side == Side::Sell ==> {
                &&& self.asks.entries().len() == 0 ==> r is None
                &&& self.asks.entries().len() > 0 ==> (r matches Some(o) && o
                    == self.asks.init_order(min_entry_idx(self.asks.entries())))
            },
    {
        match side {
            Side::Buy => self.bids.max_order(),
            Side::Sell => self.asks.min_order(),
        }
    }

    /// Fetch a resting order by ID, if it exists.
    pub fn get_order(&self, order_id: OrderId) -> (r: Option<OpenLimitOrder>)
        requires
            self.wf(),
            self.bids.entries().len() < u32::MAX,
            self.asks.entries().len() < u32::MAX,
        ensures
            r == self.order_lookup(order_id),
    {
        let (side, price_lots, seq) = get_order_id_parts(order_id);
        let order = match side {
            Side::Buy => self.bids.get_order(price_lots, seq),
            Side::Sell => self.asks.get_order(price_lots, seq),
        };
        match order {
            Some(mut order) => {
                order.initialize_side(side);
                Some(order)
            },
            None => None,
        }
    }

    /// Remove an order from the book by ID, returning it if it rested here.
    /// Removing an unknown ID returns `None` and changes nothing.
    pub fn remove_order(&mut self, order_id: OrderId) -> (r: Option<OpenLimitOrder>)
        requires
            old(self).wf(),
            old(self).bids.entries().len() < u32::MAX,
            old(self).asks.entries().len() < u32::MAX,
        ensures
            final(self).wf(),
            r == old(self).order_lookup(order_id),
            final(self).bids.reverse_prices == old(self).bids.reverse_prices,
            final(self).asks.reverse_prices == old(self).asks.reverse_prices,
            ({
                let side = id_side(order_id.val() as int);
                let price = id_price(order_id.val() as int) as u64;
                let seq = id_sequence(order_id.val() as int) as u64;
                let l2 = old(self).side_l2(side);
                if has_key(l2.entries(), price, seq) {
                    let i = idx_of(l2.entries(), price, seq);
                    if side == Side::Buy {
                        final(self).bids.orders@ == old(self).bids.orders@.remove(i) && final(self).asks == old(self).asks
                    } else {
                        final(self).asks.orders@ == old(self).asks.orders@.remove(i) && final(self).bids == old(self).bids
                    }
                } else {
                    final(self).bids == old(self).bids && final(self).asks == old(self).asks
                }
            }),
    {
        let (side, price_lots, seq) = get_order_id_parts(order_id);
        let order = match side {
            Side::Buy => self.bids.delete_order(price_lots, seq),
            Side::Sell => self.asks.delete_order(price_lots, seq),
        };
        match order {
            Some(mut order) => {
                order.initialize_side(side);
                Some(order)
            },
            None => None,
        }
    }

    /// Cancel an order by ID. Idempotent: cancelling an unknown ID returns
    /// `None` without error.
    pub fn cancel_order(&mut self, order_id: OrderId) -> (r: Option<OpenLimitOrder>)
        requires
            old(self).wf(),
            old(self).bids.entries().len() < u32::MAX,
            old(self).asks.entries().len() < u32::MAX,
        ensures
            final(self).wf(),
            r == old(self).order_lookup(order_id),
            final(self).bids.reverse_prices == old(self).bids.reverse_prices,
            final(self).asks.reverse_prices == old(self).asks.reverse_prices,
            ({
                let side = id_side(order_id.val() as int);
                let price = id_price(order_id.val() as int) as u64;
                let seq = id_sequence(order_id.val() as int) as u64;
                let l2 = old(self).side_l2(side);
                if has_key(l2.entries(), price, seq) {
                    let i = idx_of(l2.entries(), price, seq);
                    if side == Side::Buy {
                        final(self).bids.orders@ == old(self).bids.orders@.remove(i) && final(self).asks == old(self).asks
                    } else {
                        final(self).asks.orders@ == old(self).asks.orders@.remove(i) && final(self).bids == old(self).bids
                    }
                } else {
                    final(self).bids == old(self).bids && final(self).asks == old(self).asks
                }
            }),
    {
        self.remove_order(order_id)
    }

    /// Cancel a batch of orders, returning those that were still resting.
    /// IDs that no longer exist are skipped: they may have filled since they
    /// were issued, which is not an error.
    pub fn cancel_orders(&mut self, order_ids: Vec<OrderId>) -> (r: Vec<OpenLimitOrder>)
        requires
            old(self).wf(),
            old(self).bids.entries().len() < u32::MAX,
            old(self).asks.entries().len() < u32::MAX,
        ensures
            final(self).wf(),
            final(self).bids.reverse_prices == old(self).bids.reverse_prices,
            final(self).asks.reverse_prices == old(self).asks.reverse_prices,
            final(self).bids.entries().len() <= old(self).bids.entries().len(),
            final(self).asks.entries().len() <= old(self).asks.entries().len(),
            // every id in the batch no longer rests on the book
            forall|k: int|
                0 <= k < order_ids@.len() ==> final(self).order_lookup(#[trigger] order_ids@[k])
                    is None,
            // the book ends as the fold of the removals, and the removed
            // orders are reported exactly, in batch order
            final(self).snap() == cancel_fold(old(self).snap(), order_ids@).0,
            r@ == cancel_fold(old(self).snap(), order_ids@).1,
    {
        let ghost ids = order_ids@;
        let n = order_ids.len();
        let mut deleted: Vec<OpenLimitOrder> = Vec::new();
        let mut i: usize = 0;
        proof {
            assert(ids.skip(0) =~= ids);
            assert(deleted@ =~= Seq::<OpenLimitOrder>::empty());
            assert(deleted@ + cancel_fold(self.snap(), ids).1 =~= cancel_fold(self.snap(), ids).1);
        }
        while i < n
            invariant
                self.wf(),
                self.bids.reverse_prices == old(self).bids.reverse_prices,
                self.asks.reverse_prices == old(self).asks.reverse_prices,
                self.bids.entries().len() <= old(self).bids.entries().len(),
                self.asks.entries().len() <= old(self).asks.entries().len(),
                old(self).bids.entries().len() < u32::MAX,
                old(self).asks.entries().len() < u32::MAX,
                n == ids.len(),
                ids == order_ids@,
                i <= n,
                deleted@.len() <= i,
                forall|k: int|
                    0 <= k < i ==> self.order_lookup(#[trigger] ids[k]) is None,
                cancel_fold(old(self).snap(), ids).0 == cancel_fold(
                    self.snap(),
                    ids.skip(i as int),
                ).0,
                cancel_fold(old(self).snap(), ids).1 == deleted@ + cancel_fold(
                    self.snap(),
                    ids.skip(i as int),
                ).1,
            decreases n - i,
        {
            let oid = order_ids[i];
            let ghost prev = *self;
            let removed = self.remove_order(oid);
            proof {
                lemma_remove_clears_key(prev, *self, oid);
                assert forall|k: int| 0 <= k < i + 1 implies self.order_lookup(#[trigger] ids[k])
                    is None by {
                    if k < i {
                        lemma_remove_preserves_absence(prev, *self, ids[k], oid);
                    }
                }
                // one step of the cancellation fold
                let rest = ids.skip(i as int);
                assert(rest[0] == oid);
                assert(rest.skip(1) =~= ids.skip(i + 1));
                assert(self.snap() == snap_remove(prev.snap(), oid));
                assert(removed == snap_lookup(prev.snap(), oid));
            }
            match removed {
                Some(order) => {
                    deleted.push(order);
                    proof {
                        assert(deleted@ =~= deleted@.drop_last().push(deleted@.last()));
                        assert(deleted@.drop_last() + (seq![deleted@.last()] + cancel_fold(
                            self.snap(),
                            ids.skip(i + 1),
                        ).1) =~= deleted@ + cancel_fold(self.snap(), ids.skip(i + 1)).1);
                    }
                },
                None => {
                    // the order may have filled since the id was issued
                    proof {
                        assert(Seq::<OpenLimitOrder>::empty() + cancel_fold(
                            self.snap(),
                            ids.skip(i + 1),
                        ).1 =~= cancel_fold(self.snap(), ids.skip(i + 1)).1);
                    }
                },
            }
            i = i + 1;
        }
        proof {
            assert(ids.skip(n as int) =~= Seq::<OrderId>::empty());
            assert(deleted@ + Seq::<OpenLimitOrder>::empty() =~= deleted@);
        }
        deleted
    }

    /// The native value locked by every resting order on both sides.
    pub fn value_locked(
        &self,
        base_lot_size: u128,
        quote_lot_size: u128,
        base_denomination: u128,
    ) -> (r: Tvl)
        requires
            self.wf(),
            base_denomination > 0,
            side_tvl_in_range(
                self.bids.entries(),
                true,
                base_lot_size as int,
                quote_lot_size as int,
                base_denomination as int,
            ),
            side_tvl_in_range(
                self.asks.entries(),
                false,
                base_lot_size as int,
                quote_lot_size as int,
                base_denomination as int,
            ),
        ensures
            r.base_locked == side_base_locked(self.asks.entries(), base_lot_size as int),
            r.quote_locked == side_quote_locked(
                self.bids.entries(),
                base_lot_size as int,
                quote_lot_size as int,
                base_denomination as int,
            ),
    {
        let a = self.asks.value_locked(base_lot_size, quote_lot_size, base_denomination);
        let b = self.bids.value_locked(base_lot_size, quote_lot_size, base_denomination);
        a.add(b)
    }
}

/// After `remove_order(oid)`, `oid` no longer resolves.
proof fn lemma_remove_clears_key(prev: Orderbook, cur: Orderbook, oid: OrderId)
    requires
        prev.wf(),
        cur.bids.reverse_prices == prev.bids.reverse_prices,
        cur.asks.reverse_prices == prev.asks.reverse_prices,
        ({
            let side = id_side(oid.val() as int);
            let price = id_price(oid.val() as int) as u64;
            let seq = id_sequence(oid.val() as int) as u64;
            let l2 = prev.side_l2(side);
            if has_key(l2.entries(), price, seq) {
                let i = idx_of(l2.entries(), price, seq);
                if side == Side::Buy {
                    cur.bids.orders@ == prev.bids.orders@.remove(i) && cur.asks == prev.asks
                } else {
                    cur.asks.orders@ == prev.asks.orders@.remove(i) && cur.bids == prev.bids
                }
            } else {
                cur.bids == prev.bids && cur.asks == prev.asks
            }
        }),
    ensures
        cur.order_lookup(oid) is None,
{
    let side = id_side(oid.val() as int);
    let price = id_price(oid.val() as int) as u64;
    let seq = id_sequence(oid.val() as int) as u64;
    let l2 = prev.side_l2(side);
    let s = l2.entries();
    if has_key(s, price, seq) {
        let i = idx_of(s, price, seq);
        let s2 = cur.side_l2(side).entries();
        assert(s2 == s.remove(i));
        if has_key(s2, price, seq) {
            let j = idx_of(s2, price, seq);
            assert(0 <= j < s2.len() && key_matches_at(s2, j, price, seq));
            let j_orig: int = if j < i {
                j
            } else {
                j + 1
            };
            assert(s2[j] == s[j_orig]);
            crate::l2::lemma_key_unique(
                s,
                l2.reverse_prices,
                i,
                j_orig,
                price,
                seq,
            );
            assert(false);
        }
    } else {
        if has_key(cur.side_l2(side).entries(), price, seq) {
            let j = idx_of(cur.side_l2(side).entries(), price, seq);
            assert(has_key(s, price, seq));
        }
    }
}

/// A key matches at an index (helper to steer triggers).
pub open spec fn key_matches_at(
    s: Seq<(u64, OpenLimitOrder)>,
    i: int,
    price: u64,
    seq: u64,
) -> bool {
    crate::l2::key_matches(s[i], price, seq)
}

/// Removing one order cannot make another id appear.
proof fn lemma_remove_preserves_absence(prev: Orderbook, cur: Orderbook, oid: OrderId, removed: OrderId)
    requires
        prev.wf(),
        prev.order_lookup(oid) is None,
        cur.bids.reverse_prices == prev.bids.reverse_prices,
        cur.asks.reverse_prices == prev.asks.reverse_prices,
        ({
            let side = id_side(removed.val() as int);
            let price = id_price(removed.val() as int) as u64;
            let seq = id_sequence(removed.val() as int) as u64;
            let l2 = prev.side_l2(side);
            if has_key(l2.entries(), price, seq) {
                let i = idx_of(l2.entries(), price, seq);
                if side == Side::Buy {
                    cur.bids.orders@ == prev.bids.orders@.remove(i) && cur.asks == prev.asks
                } else {
                    cur.asks.orders@ == prev.asks.orders@.remove(i) && cur.bids == prev.bids
                }
            } else {
                cur.bids == prev.bids && cur.asks == prev.asks
            }
        }),
    ensures
        cur.order_lookup(oid) is None,
{
    let side = id_side(oid.val() as int);
    let price = id_price(oid.val() as int) as u64;
    let seq = id_sequence(oid.val() as int) as u64;
    let s = prev.side_l2(side).entries();
    let s2 = cur.side_l2(side).entries();
    if has_key(s2, price, seq) {
        let j = idx_of(s2, price, seq);
        assert(0 <= j < s2.len() && key_matches_at(s2, j, price, seq));
        // every entry of the new side came from the old side
        let rside = id_side(removed.val() as int);
        if rside == side && has_key(
            prev.side_l2(rside).entries(),
            id_price(removed.val() as int) as u64,
            id_sequence(removed.val() as int) as u64,
        ) {
            let i = idx_of(
                prev.side_l2(rside).entries(),
                id_price(removed.val() as int) as u64,
                id_sequence(removed.val() as int) as u64,
            );
            let j_orig: int = if j < i {
                j
            } else {
                j + 1
            };
            assert(s2[j] == s[j_orig]);
            assert(has_key(s, price, seq));
        } else {
            assert(s2 == s);
            assert(has_key(s, price, seq));
        }
    }
}

impl Default for Orderbook {
    /// An empty book: a descending bid side and an ascending ask side.
    fn default() -> (r: Self)
        ensures
            r.wf(),
            r.bids.entries().len() == 0,
            r.asks.entries().len() == 0,
    {
        let bids = VecL2::new(true);
        let asks = VecL2::new(false);
        Orderbook { bids, asks }
    }
}

} // verus!
