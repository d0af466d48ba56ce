//! The matching engine.
//!
//! `place_order` drives an incoming order through an order-type-specific
//! state machine: a pure walk over the opposite side collects candidate
//! matches (`match_walk`), the outcome is decided, the matches are applied
//! to the book, any remainder posts, and a settlement report is assembled.
//!
//! The walk and its effect on the book are specified by the spec functions
//! here; the executable code is proved to follow them step for step. Fatal
//! conditions (self-trade, missing limit price, arithmetic out of range)
//! surface as `EngineError` from `try_place_order`; `place_order` requires
//! them absent, mirroring the host abort the engine's environment performs.

use crate::calculator::{
    base_purchasable_in_range, base_purchasable_spec, bid_quote_value_in_range,
    bid_quote_value_spec,
};
use crate::l2::{rank_spec, save_spec, VecL2};
use crate::account::AccountId;
use crate::open_limit_order::OpenLimitOrder;
use crate::order_id::order_id_value;
use crate::orderbook::{EngineError, Match, MatchOrderResult, NewOrder, Orderbook, OrderOutcome, PlaceOrderResult};
use crate::order_type::OrderType;
use crate::side::Side;
use vstd::prelude::*;

verus! {

/// One candidate match as the walk records it: plain values only.
pub ghost struct MatchSpec {
    /// The maker's resting price (also the fill price).
    pub maker_price: u64,
    /// The maker's sequence number.
    pub maker_seq: u64,
    /// The maker's owner, as an identity.
    pub maker_owner: Seq<char>,
    /// The maker's open quantity when the walk reached it.
    pub maker_open_before: u64,
    /// The traded quantity.
    pub fill_qty_lots: u64,
    /// The native quote the taker pays for this fill.
    pub native_quote_paid: u128,
    /// Rank of the maker's price level in the side the walk saw.
    pub price_rank: u32,
    /// Whether the fill consumes the maker completely.
    pub removed: bool,
}

/// Walk state: candidate matches plus the running residuals.
pub ghost struct Walk {
    pub matches: Seq<MatchSpec>,
    /// Base lots still wanted.
    pub unfilled_qty_lots: int,
    /// Native quote still spendable (buys with a budget only).
    pub unused_quote: Option<int>,
    /// The first fatal condition encountered, if any.
    pub fatal: Option<EngineError>,
}

/// Whether an incoming order's limit allows trading at a resting price.
/// Market orders (no limit) always cross.
pub open spec fn crosses(order: NewOrder, price: u64) -> bool {
    match order.limit_price_lots {
        None => true,
        Some(limit) => if order.side == Side::Buy {
            price <= limit
        } else {
            price >= limit
        },
    }
}

/// The side the makers rest on: opposite the incoming order.
pub open spec fn maker_side_of(order: NewOrder) -> Side {
    if order.side == Side::Buy {
        Side::Sell
    } else {
        Side::Buy
    }
}

/// The walk's starting state: the full quantity unfilled, and for a budgeted
/// order the budget in native quote. Computing the native budget overflows
/// 128 bits for extreme inputs; that is fatal immediately.
pub open spec fn walk_init(order: NewOrder) -> Walk {
    match order.available_quote_lots {
        Some(l) => if l * order.quote_lot_size >= crate::bn::b128() {
            Walk {
                matches: Seq::empty(),
                unfilled_qty_lots: order.max_qty_lots as int,
                unused_quote: None,
                fatal: Some(EngineError::ArithmeticOverflow),
            }
        } else {
            Walk {
                matches: Seq::empty(),
                unfilled_qty_lots: order.max_qty_lots as int,
                unused_quote: Some(l * order.quote_lot_size),
                fatal: None,
            }
        },
        None => Walk {
            matches: Seq::empty(),
            unfilled_qty_lots: order.max_qty_lots as int,
            unused_quote: None,
            fatal: None,
        },
    }
}

/// The pure match walk from entry `i` onward, starting in state `st`.
///
/// For each resting order, best first: stop when the incoming limit no
/// longer crosses or nothing is left to fill; abort on a self-trade; clamp
/// the fill by the maker's quantity, the taker's remaining quantity, and (for
/// budgeted orders) what the remaining quote can buy; stop when the clamp
/// yields zero; otherwise record the match and continue with reduced
/// residuals.
pub open spec fn walk_from(
    opp: Seq<(u64, OpenLimitOrder)>,
    opp_reverse: bool,
    user: Seq<char>,
    order: NewOrder,
    i: int,
    st: Walk,
) -> Walk
    decreases opp.len() - i,
{
    if st.fatal is Some || i < 0 || i >= opp.len() {
        st
    } else {
        let price = opp[i].0;
        let maker = opp[i].1;
        if !crosses(order, price) {
            st
        } else if st.unfilled_qty_lots == 0 {
            st
        } else if maker.owner_id@ == user {
            Walk { fatal: Some(EngineError::SelfTrade), ..st }
        } else {
            let base_cap = vstd::math::min(maker.open_qty_lots as int, st.unfilled_qty_lots);
            let tq_opt: Option<int> = match st.unused_quote {
                Some(q) => if base_purchasable_in_range(
                    q,
                    price as int,
                    order.quote_lot_size as int,
                    order.base_lot_size as int,
                    order.base_denomination as int,
                ) {
                    Some(
                        vstd::math::min(
                            base_cap,
                            base_purchasable_spec(
                                q,
                                price as int,
                                order.quote_lot_size as int,
                                order.base_lot_size as int,
                                order.base_denomination as int,
                            ),
                        ),
                    )
                } else {
                    None
                },
                None => Some(base_cap),
            };
            match tq_opt {
                None => Walk { fatal: Some(EngineError::ArithmeticOverflow), ..st },
                Some(tq) => if tq == 0 {
                    st
                } else if !bid_quote_value_in_range(
                    tq,
                    price as int,
                    order.base_lot_size as int,
                    order.quote_lot_size as int,
                    order.base_denomination as int,
                ) {
                    Walk { fatal: Some(EngineError::ArithmeticOverflow), ..st }
                } else {
                    let paid = bid_quote_value_spec(
                        tq,
                        price as int,
                        order.base_lot_size as int,
                        order.quote_lot_size as int,
                        order.base_denomination as int,
                    );
                    // rounding safety keeps `paid` within the remaining
                    // budget (see `lemma_fill_cost_within_budget`), so the
                    // budget update cannot underflow
                    {
                        let m = MatchSpec {
                            maker_price: price,
                            maker_seq: maker.sequence_number,
                            maker_owner: maker.owner_id@,
                            maker_open_before: maker.open_qty_lots,
                            fill_qty_lots: tq as u64,
                            native_quote_paid: paid as u128,
                            price_rank: rank_spec(opp, opp_reverse, price) as u32,
                            removed: tq == maker.open_qty_lots,
                        };
                        walk_from(
                            opp,
                            opp_reverse,
                            user,
                            order,
                            i + 1,
                            Walk {
                                matches: st.matches.push(m),
                                unfilled_qty_lots: st.unfilled_qty_lots - tq,
                                unused_quote: match st.unused_quote {
                                    Some(q) => Some(q - paid),
                                    None => None,
                                },
                                fatal: None,
                            },
                        )
                    }
                },
            }
        }
    }
}

/// The full walk for an order against a book.
pub open spec fn match_walk(book: Orderbook, user: Seq<char>, order: NewOrder) -> Walk {
    let opp = book.side_l2(maker_side_of(order)).orders@;
    walk_from(opp, order.side == Side::Sell, user, order, 0, walk_init(order))
}

/// The walk's fatal condition, including the final conversion of the unused
/// budget back to quote lots, which divides by the quote lot size.
pub open spec fn match_fatal(order: NewOrder, w: Walk) -> Option<EngineError> {
    if w.fatal is Some {
        w.fatal
    } else if order.available_quote_lots is Some && order.quote_lot_size == 0 {
        Some(EngineError::ArithmeticOverflow)
    } else {
        None
    }
}

/// Base lots filled across the walk's matches.
pub open spec fn sum_fills(ms: Seq<MatchSpec>) -> int
    decreases ms.len(),
{
    if ms.len() == 0 {
        0
    } else {
        sum_fills(ms.drop_last()) + ms.last().fill_qty_lots
    }
}

/// Native quote paid across the walk's matches.
pub open spec fn sum_paid(ms: Seq<MatchSpec>) -> int
    decreases ms.len(),
{
    if ms.len() == 0 {
        0
    } else {
        sum_paid(ms.drop_last()) + ms.last().native_quote_paid
    }
}

/// Match `j` describes the resting entry at the same index, with a positive
/// fill bounded by the maker's quantity, the exact quote cost, and the rank
/// of the maker's price in the walked side.
pub open spec fn aligned_at(
    opp: Seq<(u64, OpenLimitOrder)>,
    opp_reverse: bool,
    ms: Seq<MatchSpec>,
    order: NewOrder,
    j: int,
) -> bool {
    let m = ms[j];
    let e = opp[j];
    &&& m.maker_price == e.0
    &&& m.maker_seq == e.1.sequence_number
    &&& m.maker_owner == e.1.owner_id@
    &&& m.maker_open_before == e.1.open_qty_lots
    &&& 0 < m.fill_qty_lots <= m.maker_open_before
    &&& m.removed == (m.fill_qty_lots == m.maker_open_before)
    &&& m.native_quote_paid == bid_quote_value_spec(
        m.fill_qty_lots as int,
        m.maker_price as int,
        order.base_lot_size as int,
        order.quote_lot_size as int,
        order.base_denomination as int,
    )
    &&& m.price_rank == rank_spec(opp, opp_reverse, m.maker_price) as u32
    &&& crosses(order, m.maker_price)
}

/// The walked side after its matches execute: fully consumed makers leave,
/// the partially consumed maker keeps its place with its quantity reduced.
pub open spec fn consume(
    s: Seq<(u64, OpenLimitOrder)>,
    ms: Seq<MatchSpec>,
) -> Seq<(u64, OpenLimitOrder)>
    decreases ms.len(),
{
    if ms.len() == 0 || s.len() == 0 {
        s
    } else if ms[0].removed {
        consume(s.skip(1), ms.skip(1))
    } else {
        seq![
            (
                s[0].0,
                OpenLimitOrder {
                    open_qty_lots: (s[0].1.open_qty_lots - ms[0].fill_qty_lots) as u64,
                    ..s[0].1
                },
            ),
        ] + consume(s.skip(1), ms.skip(1))
    }
}

/// Number of matches that leave their maker resting (partial fills).
pub open spec fn kept_count(ms: Seq<MatchSpec>) -> int
    decreases ms.len(),
{
    if ms.len() == 0 {
        0
    } else {
        (if ms[0].removed {
            0int
        } else {
            1int
        }) + kept_count(ms.skip(1))
    }
}

/// What a non-fatal walk guarantees: one aligned match per visited entry,
/// residuals that only shrink and never go negative, and exact bookkeeping
/// between residuals and the recorded fills and payments.
pub proof fn lemma_walk_from_props(
    opp: Seq<(u64, OpenLimitOrder)>,
    opp_reverse: bool,
    user: Seq<char>,
    order: NewOrder,
    i: int,
    st: Walk,
)
    requires
        0 <= i <= opp.len(),
        st.fatal is None,
        st.matches.len() == i,
        st.unfilled_qty_lots >= 0,
        st.unused_quote matches Some(q) ==> q >= 0,
        forall|j: int| 0 <= j < i ==> aligned_at(opp, opp_reverse, st.matches, order, j),
    ensures
        ({
            let w = walk_from(opp, opp_reverse, user, order, i, st);
            w.fatal is None ==> {
                &&& i <= w.matches.len() <= opp.len()
                &&& forall|j: int|
                    0 <= j < w.matches.len() ==> aligned_at(opp, opp_reverse, w.matches, order, j)
                &&& 0 <= w.unfilled_qty_lots <= st.unfilled_qty_lots
                &&& (w.unused_quote is Some <==> st.unused_quote is Some)
                &&& (w.unused_quote matches Some(q) ==> 0 <= q <= st.unused_quote.unwrap())
                &&& w.unfilled_qty_lots + sum_fills(w.matches) == st.unfilled_qty_lots + sum_fills(
                    st.matches,
                )
                &&& (st.unused_quote matches Some(q0) ==> w.unused_quote.unwrap() + sum_paid(
                    w.matches,
                ) == q0 + sum_paid(st.matches))
            }
        }),
    decreases opp.len() - i,
{
    let w = walk_from(opp, opp_reverse, user, order, i, st);
    if i >= opp.len() {
        return ;
    }
    let price = opp[i].0;
    let maker = opp[i].1;
    if !crosses(order, price) || st.unfilled_qty_lots == 0 {
        return ;
    }
    if maker.owner_id@ == user {
        return ;
    }
    let base_cap = vstd::math::min(maker.open_qty_lots as int, st.unfilled_qty_lots);
    let bls = order.base_lot_size as int;
    let qls = order.quote_lot_size as int;
    let bd = order.base_denomination as int;
    match st.unused_quote {
        Some(q) => {
            if !base_purchasable_in_range(q, price as int, qls, bls, bd) {
                return ;
            }
            let cap = base_purchasable_spec(q, price as int, qls, bls, bd);
            let tq = vstd::math::min(base_cap, cap);
            if tq == 0 {
                return ;
            }
            if !bid_quote_value_in_range(tq, price as int, bls, qls, bd) {
                return ;
            }
            let paid = bid_quote_value_spec(tq, price as int, bls, qls, bd);
            crate::calculator::lemma_fill_cost_within_budget(q, tq, price as int, bls, qls, bd);
            let m = MatchSpec {
                maker_price: price,
                maker_seq: maker.sequence_number,
                maker_owner: maker.owner_id@,
                maker_open_before: maker.open_qty_lots,
                fill_qty_lots: tq as u64,
                native_quote_paid: paid as u128,
                price_rank: rank_spec(opp, opp_reverse, price) as u32,
                removed: tq == maker.open_qty_lots,
            };
            let st2 = Walk {
                matches: st.matches.push(m),
                unfilled_qty_lots: st.unfilled_qty_lots - tq,
                unused_quote: Some(q - paid),
                fatal: None,
            };
            assert(paid >= 0) by {
                lemma_bqv_nonneg(tq, price as int, bls, qls, bd);
            }
            assert(st.matches.push(m).drop_last() =~= st.matches);
            assert(sum_fills(st2.matches) == sum_fills(st.matches) + tq);
            assert(sum_paid(st2.matches) == sum_paid(st.matches) + paid);
            assert forall|j: int| 0 <= j < i + 1 implies aligned_at(
                opp,
                opp_reverse,
                st2.matches,
                order,
                j,
            ) by {
                if j < i {
                    assert(aligned_at(opp, opp_reverse, st.matches, order, j));
                    assert(st2.matches[j] == st.matches[j]);
                }
            }
            lemma_walk_from_props(opp, opp_reverse, user, order, i + 1, st2);
            assert(w == walk_from(opp, opp_reverse, user, order, i + 1, st2));
        },
        None => {
            let tq = base_cap;
            if tq == 0 {
                return ;
            }
            if !bid_quote_value_in_range(tq, price as int, bls, qls, bd) {
                return ;
            }
            let paid = bid_quote_value_spec(tq, price as int, bls, qls, bd);
            let m = MatchSpec {
                maker_price: price,
                maker_seq: maker.sequence_number,
                maker_owner: maker.owner_id@,
                maker_open_before: maker.open_qty_lots,
                fill_qty_lots: tq as u64,
                native_quote_paid: paid as u128,
                price_rank: rank_spec(opp, opp_reverse, price) as u32,
                removed: tq == maker.open_qty_lots,
            };
            let st2 = Walk {
                matches: st.matches.push(m),
                unfilled_qty_lots: st.unfilled_qty_lots - tq,
                unused_quote: None,
                fatal: None,
            };
            assert(st.matches.push(m).drop_last() =~= st.matches);
            assert(sum_fills(st2.matches) == sum_fills(st.matches) + tq);
            assert forall|j: int| 0 <= j < i + 1 implies aligned_at(
                opp,
                opp_reverse,
                st2.matches,
                order,
                j,
            ) by {
                if j < i {
                    assert(aligned_at(opp, opp_reverse, st.matches, order, j));
                    assert(st2.matches[j] == st.matches[j]);
                }
            }
            lemma_walk_from_props(opp, opp_reverse, user, order, i + 1, st2);
            assert(w == walk_from(opp, opp_reverse, user, order, i + 1, st2));
        },
    }
}

/// The quote value of a fill is never negative.
pub proof fn lemma_bqv_nonneg(qty: int, price: int, bls: int, qls: int, bd: int)
    requires
        qty >= 0,
        price >= 0,
        bls >= 0,
        qls >= 0,
        bd > 0,
    ensures
        bid_quote_value_spec(qty, price, bls, qls, bd) >= 0,
{
    vstd::arithmetic::mul::lemma_mul_nonnegative(qty, bls);
    vstd::arithmetic::mul::lemma_mul_nonnegative(qty * bls, price);
    vstd::arithmetic::mul::lemma_mul_nonnegative(qty * bls * price, qls);
    vstd::arithmetic::div_mod::lemma_div_pos_is_pos(qty * bls * price * qls, bd);
}

/// Prefixes of `sum_fills` are bounded by the whole.
pub proof fn lemma_sum_fills_prefix(ms: Seq<MatchSpec>, i: int)
    requires
        0 <= i <= ms.len(),
    ensures
        0 <= sum_fills(ms.take(i)) <= sum_fills(ms),
    decreases ms.len(),
{
    if ms.len() == 0 {
        assert(ms.take(i) =~= ms);
    } else if i == ms.len() {
        assert(ms.take(i) =~= ms);
        lemma_sum_fills_prefix(ms.drop_last(), ms.len() - 1);
    } else {
        assert(ms.take(i) =~= ms.drop_last().take(i));
        lemma_sum_fills_prefix(ms.drop_last(), i);
    }
}

/// How applying the first `k+1` matches relates to applying the first `k`:
/// one removal or one in-place reduction at the position past the makers
/// kept so far.
pub proof fn lemma_consume_step(s: Seq<(u64, OpenLimitOrder)>, ms: Seq<MatchSpec>, k: int)
    requires
        0 <= k < ms.len(),
        ms.len() <= s.len(),
    ensures
        ({
            let c = consume(s, ms.take(k));
            let kept = kept_count(ms.take(k));
            &&& 0 <= kept <= k
            &&& c.len() == s.len() - (k - kept)
            &&& kept < c.len()
            &&& c[kept] == s[k]
            &&& kept_count(ms.take(k + 1)) == kept + (if ms[k].removed {
                0int
            } else {
                1int
            })
            &&& (ms[k].removed ==> consume(s, ms.take(k + 1)) == c.remove(kept))
            &&& (!ms[k].removed ==> consume(s, ms.take(k + 1)) == c.update(
                kept,
                (
                    s[k].0,
                    OpenLimitOrder {
                        open_qty_lots: (s[k].1.open_qty_lots - ms[k].fill_qty_lots) as u64,
                        ..s[k].1
                    },
                ),
            ))
        }),
    decreases k,
{
    let c = consume(s, ms.take(k));
    let kept = kept_count(ms.take(k));
    if k == 0 {
        assert(ms.take(0) =~= Seq::<MatchSpec>::empty());
        assert(c == s);
        assert(kept == 0);
        let t1 = ms.take(1);
        assert(t1.len() == 1 && t1[0] == ms[0]);
        if ms[0].removed {
            assert(consume(s, t1) == consume(s.skip(1), t1.skip(1)));
            assert(t1.skip(1) =~= Seq::<MatchSpec>::empty());
            assert(consume(s.skip(1), t1.skip(1)) == s.skip(1));
            assert(s.skip(1) =~= s.remove(0));
        } else {
            assert(t1.skip(1) =~= Seq::<MatchSpec>::empty());
            assert(consume(s.skip(1), t1.skip(1)) == s.skip(1));
            assert(consume(s, t1) == seq![
                (
                    s[0].0,
                    OpenLimitOrder {
                        open_qty_lots: (s[0].1.open_qty_lots - ms[0].fill_qty_lots) as u64,
                        ..s[0].1
                    },
                ),
            ] + s.skip(1));
            assert(seq![
                (
                    s[0].0,
                    OpenLimitOrder {
                        open_qty_lots: (s[0].1.open_qty_lots - ms[0].fill_qty_lots) as u64,
                        ..s[0].1
                    },
                ),
            ] + s.skip(1) =~= s.update(
                0,
                (
                    s[0].0,
                    OpenLimitOrder {
                        open_qty_lots: (s[0].1.open_qty_lots - ms[0].fill_qty_lots) as u64,
                        ..s[0].1
                    },
                ),
            ));
        }
    } else {
        let s1 = s.skip(1);
        let ms1 = ms.skip(1);
        assert(ms.take(k).skip(1) =~= ms1.take(k - 1));
        assert(ms.take(k + 1).skip(1) =~= ms1.take(k - 1 + 1));
        assert(ms.take(k)[0] == ms[0]);
        assert(ms.take(k + 1)[0] == ms[0]);
        assert(ms1[k - 1] == ms[k]);
        assert(s1[k - 1] == s[k]);
        lemma_consume_step(s1, ms1, k - 1);
        let c1 = consume(s1, ms1.take(k - 1));
        let kept1 = kept_count(ms1.take(k - 1));
        // kept_count over the first element
        assert(kept_count(ms.take(k)) == (if ms[0].removed {
            0int
        } else {
            1int
        }) + kept1);
        assert(kept_count(ms.take(k + 1)) == (if ms[0].removed {
            0int
        } else {
            1int
        }) + kept_count(ms1.take(k)));
        if ms[0].removed {
            assert(c == consume(s1, ms1.take(k - 1)));
            assert(consume(s, ms.take(k + 1)) == consume(s1, ms1.take(k)));
            if ms[k].removed {
                assert(consume(s1, ms1.take(k)) == c1.remove(kept1));
            } else {
                assert(consume(s1, ms1.take(k)) == c1.update(
                    kept1,
                    (
                        s1[k - 1].0,
                        OpenLimitOrder {
                            open_qty_lots: (s1[k - 1].1.open_qty_lots - ms1[k
                                - 1].fill_qty_lots) as u64,
                            ..s1[k - 1].1
                        },
                    ),
                ));
            }
        } else {
            let head = seq![
                (
                    s[0].0,
                    OpenLimitOrder {
                        open_qty_lots: (s[0].1.open_qty_lots - ms[0].fill_qty_lots) as u64,
                        ..s[0].1
                    },
                ),
            ];
            assert(c == head + c1);
            assert(consume(s, ms.take(k + 1)) == head + consume(s1, ms1.take(k)));
            assert(kept == 1 + kept1);
            assert(c[kept] == c1[kept1]);
            if ms[k].removed {
                assert(consume(s1, ms1.take(k)) == c1.remove(kept1));
                assert(head + c1.remove(kept1) =~= (head + c1).remove(1 + kept1));
            } else {
                let upd = (
                    s[k].0,
                    OpenLimitOrder {
                        open_qty_lots: (s[k].1.open_qty_lots - ms[k].fill_qty_lots) as u64,
                        ..s[k].1
                    },
                );
                assert(consume(s1, ms1.take(k)) == c1.update(kept1, upd));
                assert(head + c1.update(kept1, upd) =~= (head + c1).update(1 + kept1, upd));
            }
        }
    }
}


/// An executable `Match` carries exactly what a walk-level match records:
/// the maker's identity and key, the fill, its cost, and the maker's rank.
/// The removal flag is not the walk's to decide, so it is left aside here.
pub open spec fn match_fields_correspond(m: Match, w: MatchSpec, maker_side: Side) -> bool {
    &&& m.maker_order_id.val() == order_id_value(maker_side, w.maker_price, w.maker_seq)
    &&& m.maker_user_id@ == w.maker_owner
    &&& m.fill_qty_lots == w.fill_qty_lots
    &&& m.fill_price_lots == w.maker_price
    &&& m.native_quote_paid == w.native_quote_paid
    &&& m.maker_order_price_rank == w.price_rank
}

/// A fully executed `Match` as the final report carries it: the walk-level
/// fields plus the removal flag the apply step decided.
pub open spec fn match_corresponds(m: Match, w: MatchSpec, maker_side: Side) -> bool {
    &&& match_fields_correspond(m, w, maker_side)
    &&& m.maker_order_removed == Some(w.removed)
}

/// Whether step B of the engine rejects the order outright: a post-only
/// order that would take, or a fill-or-kill order that cannot fill whole.
pub open spec fn place_rejected_spec(order: NewOrder, w: Walk) -> bool {
    ||| (order.order_type == OrderType::PostOnly && w.unfilled_qty_lots < order.max_qty_lots)
    ||| (order.order_type == OrderType::FillOrKill && w.unfilled_qty_lots > 0)
}

/// Whether an unfilled remainder will rest on the book.
pub open spec fn place_posts(order: NewOrder, w: Walk) -> bool {
    !place_rejected_spec(order, w) && order.order_type.can_post() && w.unfilled_qty_lots > 0
}

/// The fatal condition `place_order` runs into, if any: a fatal walk, or a
/// posting remainder without a limit price.
pub open spec fn place_fatal(book: Orderbook, user: Seq<char>, order: NewOrder) -> Option<
    EngineError,
> {
    let w = match_walk(book, user, order);
    if match_fatal(order, w) is Some {
        match_fatal(order, w)
    } else if place_posts(order, w) && order.limit_price_lots is None {
        Some(EngineError::MissingLimitPrice)
    } else {
        None
    }
}

/// Step E: the report's outcome for a non-rejected order.
pub open spec fn place_outcome_spec(order: NewOrder, w: Walk) -> OrderOutcome {
    if w.unfilled_qty_lots == 0 {
        OrderOutcome::Filled
    } else if order.order_type == OrderType::Market {
        OrderOutcome::Filled
    } else if w.unfilled_qty_lots == order.max_qty_lots && order.order_type.can_post() {
        OrderOutcome::Posted
    } else {
        OrderOutcome::PartialFill
    }
}

/// Step F: quote lots spent, computed as the budget minus the unused
/// remainder in lots, saturating at zero.
pub open spec fn place_quote_amount(order: NewOrder, w: Walk) -> int {
    let avail0: int = match order.available_quote_lots {
        Some(a) => a as int,
        None => 0,
    };
    let ul: int = match w.unused_quote {
        Some(q) => q / order.quote_lot_size as int,
        None => 0,
    };
    if avail0 >= ul {
        avail0 - ul
    } else {
        0
    }
}

/// The order that posting leaves on the book.
pub open spec fn posted_order_matches(
    po: OpenLimitOrder,
    order: NewOrder,
    user: Seq<char>,
    open: int,
) -> bool {
    &&& po.sequence_number == order.sequence_number
    &&& po.owner_id@ == user
    &&& po.open_qty_lots == open
    &&& po.client_id == order.client_id
    &&& po.limit_price_lots == order.limit_price_lots
    &&& po.side == Some(order.side)
    &&& po.price_rank is None
}

/// The full contract of a (non-fatal) `place_order` call: how the book
/// changed and what the report holds, all in terms of the pure match walk.
pub open spec fn place_order_post(
    pre: Orderbook,
    post: Orderbook,
    user: Seq<char>,
    order: NewOrder,
    res: PlaceOrderResult,
) -> bool {
    let w = match_walk(pre, user, order);
    let rejected = place_rejected_spec(order, w);
    let can_post = order.order_type.can_post();
    let posts = can_post && w.unfilled_qty_lots > 0;
    &&& post.bids.reverse_prices == pre.bids.reverse_prices
    &&& post.asks.reverse_prices == pre.asks.reverse_prices
    &&& res.id.val() == order_id_value(
        order.side,
        (match order.limit_price_lots {
            Some(l) => l,
            None => 0,
        }),
        order.sequence_number,
    )
    &&& (rejected ==> {
        &&& post.bids == pre.bids
        &&& post.asks == pre.asks
        &&& res.outcome == OrderOutcome::Rejected
        &&& res.fill_qty_lots == 0
        &&& res.open_qty_lots == 0
        &&& res.quote_amount_lots == 0
        &&& res.matches@.len() == 0
        &&& res.fill_qty_lots == crate::orderbook::matches_fill_total(res.matches@)
        &&& res.price_rank is None
        &&& res.best_bid == pre.best_bid_price()
        &&& res.best_ask == pre.best_ask_price()
    })
    &&& (!rejected ==> {
        &&& (order.side == Side::Buy ==> post.asks.orders@ == consume(
            pre.asks.orders@,
            w.matches,
        ))
        &&& (order.side == Side::Sell ==> post.bids.orders@ == consume(
            pre.bids.orders@,
            w.matches,
        ))
        &&& (posts ==> (exists|po: OpenLimitOrder|
            {
                &&& #[trigger] posted_order_matches(po, order, user, w.unfilled_qty_lots)
                &&& (order.side == Side::Buy ==> post.bids.orders@ == save_spec(
                    pre.bids.orders@,
                    true,
                    (order.limit_price_lots.unwrap(), po),
                ))
                &&& (order.side == Side::Sell ==> post.asks.orders@ == save_spec(
                    pre.asks.orders@,
                    false,
                    (order.limit_price_lots.unwrap(), po),
                ))
            }))
        &&& (!posts ==> (order.side == Side::Buy ==> post.bids == pre.bids) && (order.side
            == Side::Sell ==> post.asks == pre.asks))
        &&& res.fill_qty_lots == order.max_qty_lots - w.unfilled_qty_lots
        &&& res.fill_qty_lots == crate::orderbook::matches_fill_total(res.matches@)
        &&& res.open_qty_lots == (if can_post {
            w.unfilled_qty_lots
        } else {
            0
        })
        &&& res.outcome == place_outcome_spec(order, w)
        &&& res.quote_amount_lots == place_quote_amount(order, w)
        &&& res.matches@.len() == w.matches.len()
        &&& (forall|j: int|
            0 <= j < w.matches.len() ==> match_corresponds(
                #[trigger] res.matches@[j],
                w.matches[j],
                maker_side_of(order),
            ))
        &&& res.price_rank == (if res.open_qty_lots > 0 {
            Some(
                (rank_spec(
                    post.side_l2(order.side).orders@,
                    order.side == Side::Buy,
                    order.limit_price_lots.unwrap(),
                ) as u32),
            )
        } else {
            None::<u32>
        })
        &&& res.best_bid == post.best_bid_price()
        &&& res.best_ask == post.best_ask_price()
    })
    &&& res.fill_qty_lots <= order.max_qty_lots
    &&& (order.available_quote_lots matches Some(a) ==> res.quote_amount_lots <= a)
}

/// The report's fill total equals the walk's, given the field-for-field
/// correspondence between report matches and walk matches.
proof fn lemma_fill_total_eq(res_ms: Seq<Match>, ms: Seq<MatchSpec>)
    requires
        res_ms.len() == ms.len(),
        forall|j: int|
            0 <= j < ms.len() ==> (#[trigger] res_ms[j]).fill_qty_lots == ms[j].fill_qty_lots,
    ensures
        crate::orderbook::matches_fill_total(res_ms) == sum_fills(ms),
    decreases ms.len(),
{
    if ms.len() > 0 {
        let dl = ms.drop_last();
        let rdl = res_ms.drop_last();
        assert(forall|j: int| 0 <= j < dl.len() ==> dl[j] == ms[j] && rdl[j] == res_ms[j]);
        lemma_fill_total_eq(rdl, dl);
        assert(res_ms.last() == res_ms[ms.len() - 1]);
    }
}

/// Saving can add at most one entry.
pub proof fn lemma_save_spec_len(
    s: Seq<(u64, OpenLimitOrder)>,
    reverse: bool,
    e: (u64, OpenLimitOrder),
)
    ensures
        s.len() <= save_spec(s, reverse, e).len() <= s.len() + 1,
    decreases s.len(),
{
    if s.len() == 0 {
    } else if crate::l2::key_matches(s[0], e.0, e.1.sequence_number) {
    } else if crate::l2::entry_before(reverse, e, s[0]) {
    } else {
        lemma_save_spec_len(s.skip(1), reverse, e);
    }
}

} // verus!

verus! {

impl Orderbook {
    /// Match an order against the book without changing it: walk the
    /// opposite side in price-time priority and collect the candidate
    /// matches and residuals. Each candidate's removal flag is left unset;
    /// only the apply step decides it. Returns the first fatal condition
    /// instead of aborting.
    pub fn match_order(&self, user_id: &AccountId, order: &NewOrder) -> (r: Result<
        MatchOrderResult,
        EngineError,
    >)
        requires
            self.wf(),
            self.bids.entries().len() < u32::MAX,
            self.asks.entries().len() < u32::MAX,
        ensures
            ({
                let w = match_walk(*self, user_id@, *order);
                &&& (match_fatal(*order, w) matches Some(e) ==> r == Err::<
                    MatchOrderResult,
                    EngineError,
                >(e))
                &&& (match_fatal(*order, w) is None ==> (r matches Ok(mr) && {
                    &&& mr.unfilled_qty_lots == w.unfilled_qty_lots
                    &&& mr.unused_quote_lots == (match w.unused_quote {
                        Some(q) => Some(((q / order.quote_lot_size as int)) as u64),
                        None => None::<u64>,
                    })
                    &&& mr.matches@.len() == w.matches.len()
                    &&& (forall|j: int|
                        0 <= j < w.matches.len() ==> match_fields_correspond(
                            #[trigger] mr.matches@[j],
                            w.matches[j],
                            maker_side_of(*order),
                        ) && mr.matches@[j].maker_order_removed is None)
                }))
            }),
    {
        let is_buy = match order.side {
            Side::Buy => true,
            Side::Sell => false,
        };
        let opp: &VecL2 = if is_buy {
            &self.asks
        } else {
            &self.bids
        };
        let ghost opp_s = opp.orders@;
        let ghost rev = (order.side == Side::Sell);
        let ghost user = user_id@;
        let ghost mside = maker_side_of(*order);
        let ghost w_all = match_walk(*self, user, *order);
        let maker_side_exec = if is_buy {
            Side::Sell
        } else {
            Side::Buy
        };

        let mut unfilled: u64 = order.max_qty_lots;
        let mut unused: Option<u128> = None;
        match order.available_quote_lots {
            Some(l) => {
                match (l as u128).checked_mul(order.quote_lot_size) {
                    Some(q) => {
                        unused = Some(q);
                    },
                    None => {
                        proof {
                            assert(walk_init(*order).fatal == Some(
                                EngineError::ArithmeticOverflow,
                            ));
                            assert(w_all == walk_init(*order));
                        }
                        return Err(EngineError::ArithmeticOverflow);
                    },
                }
            },
            None => {},
        }
        let ghost q0: int = match unused {
            Some(q) => q as int,
            None => 0,
        };
        proof {
            if order.available_quote_lots is Some {
                vstd::arithmetic::mul::lemma_mul_nonnegative(
                    order.available_quote_lots.unwrap() as int,
                    order.quote_lot_size as int,
                );
            }
            assert(walk_init(*order) == (Walk {
                matches: Seq::<MatchSpec>::empty(),
                unfilled_qty_lots: order.max_qty_lots as int,
                unused_quote: match unused {
                    Some(q) => Some(q as int),
                    None => None::<int>,
                },
                fatal: None::<EngineError>,
            }));
        }

        let mut matches_vec: Vec<Match> = Vec::new();
        let ghost mut gms: Seq<MatchSpec> = Seq::empty();
        let n = opp.orders.len();
        let mut i: usize = 0;
        while i < n
            invariant_except_break
                self.wf(),
                is_buy == (order.side == Side::Buy),
                maker_side_exec == mside,
                w_all == match_walk(*self, user_id@, *order),
                opp.orders@ == opp_s,
                opp.reverse_prices == rev,
                rev == (order.side == Side::Sell),
                mside == maker_side_of(*order),
                user == user_id@,
                n == opp_s.len(),
                n < u32::MAX,
                i <= n,
                walk_from(
                    opp_s,
                    rev,
                    user,
                    *order,
                    i as int,
                    Walk {
                        matches: gms,
                        unfilled_qty_lots: unfilled as int,
                        unused_quote: match unused {
                            Some(q) => Some(q as int),
                            None => None::<int>,
                        },
                        fatal: None::<EngineError>,
                    },
                ) == w_all,
                matches_vec@.len() == gms.len(),
                forall|j: int|
                    0 <= j < gms.len() ==> match_fields_correspond(
                        #[trigger] matches_vec@[j],
                        gms[j],
                        mside,
                    ) && matches_vec@[j].maker_order_removed is None,
                unused is Some <==> order.available_quote_lots is Some,
                (unused matches Some(q) ==> q as int <= q0),
                q0 == (match order.available_quote_lots {
                    Some(l) => l * order.quote_lot_size,
                    None => 0,
                }),
            ensures
                w_all == (Walk {
                    matches: gms,
                    unfilled_qty_lots: unfilled as int,
                    unused_quote: match unused {
                        Some(q) => Some(q as int),
                        None => None::<int>,
                    },
                    fatal: None::<EngineError>,
                }),
                matches_vec@.len() == gms.len(),
                forall|j: int|
                    0 <= j < gms.len() ==> match_fields_correspond(
                        #[trigger] matches_vec@[j],
                        gms[j],
                        mside,
                    ) && matches_vec@[j].maker_order_removed is None,
                unused is Some <==> order.available_quote_lots is Some,
                (unused matches Some(q) ==> q as int <= q0),
                q0 == (match order.available_quote_lots {
                    Some(l) => l * order.quote_lot_size,
                    None => 0,
                }),
            decreases n - i,
        {
            let ghost cur = Walk {
                matches: gms,
                unfilled_qty_lots: unfilled as int,
                unused_quote: match unused {
                    Some(q) => Some(q as int),
                    None => None::<int>,
                },
                fatal: None::<EngineError>,
            };
            let trade_price = opp.orders[i].0;
            let maker_open = opp.orders[i].1.open_qty_lots;
            let crossed = match order.limit_price_lots {
                None => true,
                Some(limit) => if is_buy {
                    trade_price <= limit
                } else {
                    trade_price >= limit
                },
            };
            proof {
                assert(crossed == crosses(*order, trade_price));
            }
            if !crossed {
                proof {
                    assert(walk_from(opp_s, rev, user, *order, i as int, cur) == cur);
                }
                break ;
            }
            if unfilled == 0 {
                proof {
                    assert(walk_from(opp_s, rev, user, *order, i as int, cur) == cur);
                }
                break ;
            }
            if opp.orders[i].1.owner_id == *user_id {
                proof {
                    assert(walk_from(opp_s, rev, user, *order, i as int, cur) == (Walk {
                        fatal: Some(EngineError::SelfTrade),
                        ..cur
                    }));
                }
                return Err(EngineError::SelfTrade);
            }
            let base_cap = if maker_open < unfilled {
                maker_open
            } else {
                unfilled
            };
            proof {
                assert(base_cap as int == vstd::math::min(maker_open as int, unfilled as int));
            }
            let trade_qty: u64 = match unused {
                Some(remaining) => {
                    match crate::calculator::checked_base_purchasable(
                        remaining,
                        trade_price,
                        order.quote_lot_size,
                        order.base_lot_size,
                        order.base_denomination,
                    ) {
                        Some(bp) => {
                            if bp < base_cap {
                                bp
                            } else {
                                base_cap
                            }
                        },
                        None => {
                            proof {
                                assert(walk_from(opp_s, rev, user, *order, i as int, cur)
                                    == (Walk {
                                    fatal: Some(EngineError::ArithmeticOverflow),
                                    ..cur
                                }));
                            }
                            return Err(EngineError::ArithmeticOverflow);
                        },
                    }
                },
                None => base_cap,
            };
            if trade_qty == 0 {
                proof {
                    assert(walk_from(opp_s, rev, user, *order, i as int, cur) == cur);
                }
                break ;
            }
            let native_quote_paid = match crate::calculator::checked_bid_quote_value(
                trade_qty,
                trade_price,
                order.base_lot_size,
                order.quote_lot_size,
                order.base_denomination,
            ) {
                Some(p) => p,
                None => {
                    proof {
                        assert(walk_from(opp_s, rev, user, *order, i as int, cur) == (Walk {
                            fatal: Some(EngineError::ArithmeticOverflow),
                            ..cur
                        }));
                    }
                    return Err(EngineError::ArithmeticOverflow);
                },
            };
            unfilled = unfilled - trade_qty;
            match unused {
                Some(q) => {
                    proof {
                        crate::calculator::lemma_fill_cost_within_budget(
                            q as int,
                            trade_qty as int,
                            trade_price as int,
                            order.base_lot_size as int,
                            order.quote_lot_size as int,
                            order.base_denomination as int,
                        );
                    }
                    unused = Some(q - native_quote_paid);
                },
                None => {},
            }
            let rank = opp.get_price_rank(trade_price);
            let maker_seq = opp.orders[i].1.sequence_number;
            let m = Match {
                maker_order_id: crate::order_id::new_order_id(
                    maker_side_exec,
                    trade_price,
                    maker_seq,
                ),
                maker_user_id: opp.orders[i].1.owner_id.clone(),
                fill_qty_lots: trade_qty,
                fill_price_lots: trade_price,
                native_quote_paid,
                maker_order_price_rank: rank,
                // the walk only proposes; the apply step decides removal
                maker_order_removed: None,
            };
            matches_vec.push(m);
            proof {
                let mspec = MatchSpec {
                    maker_price: trade_price,
                    maker_seq: maker_seq,
                    maker_owner: opp_s[i as int].1.owner_id@,
                    maker_open_before: maker_open,
                    fill_qty_lots: trade_qty,
                    native_quote_paid: native_quote_paid,
                    price_rank: rank,
                    removed: (trade_qty == maker_open),
                };
                let next = Walk {
                    matches: gms.push(mspec),
                    unfilled_qty_lots: unfilled as int,
                    unused_quote: match unused {
                        Some(q) => Some(q as int),
                        None => None::<int>,
                    },
                    fatal: None::<EngineError>,
                };
                assert(walk_from(opp_s, rev, user, *order, i as int, cur) == walk_from(
                    opp_s,
                    rev,
                    user,
                    *order,
                    i + 1,
                    next,
                ));
                gms = gms.push(mspec);
                assert(matches_vec@[gms.len() - 1] == m);
                assert(match_fields_correspond(m, mspec, mside));
            }
            i = i + 1;
        }
        let unused_quote_lots: Option<u64> = match unused {
            Some(q) => {
                if order.quote_lot_size == 0 {
                    return Err(EngineError::ArithmeticOverflow);
                }
                proof {
                    vstd::arithmetic::div_mod::lemma_div_is_ordered(
                        q as int,
                        q0,
                        order.quote_lot_size as int,
                    );
                    vstd::arithmetic::div_mod::lemma_div_multiples_vanish(
                        order.available_quote_lots.unwrap() as int,
                        order.quote_lot_size as int,
                    );
                    vstd::arithmetic::mul::lemma_mul_is_commutative(
                        order.available_quote_lots.unwrap() as int,
                        order.quote_lot_size as int,
                    );
                    vstd::arithmetic::div_mod::lemma_div_pos_is_pos(
                        q as int,
                        order.quote_lot_size as int,
                    );
                }
                Some((q / order.quote_lot_size) as u64)
            },
            None => None,
        };
        Ok(MatchOrderResult { unfilled_qty_lots: unfilled, unused_quote_lots, matches: matches_vec })
    }
}

} // verus!

verus! {

/// Execute the matches against the side they rest on: each fully consumed
/// maker leaves the book, each partially consumed maker keeps its place with
/// its quantity reduced. This step alone decides each match's removal flag,
/// by comparing the fill against the maker's resting quantity, and sets it
/// on the report's match. Returns the total quantity filled.
fn apply_matches(l2: &mut VecL2, matches: &mut Vec<Match>, Ghost(ms): Ghost<Seq<MatchSpec>>) -> (fill:
    u64)
    requires
        old(l2).wf(),
        ms.len() == old(matches)@.len(),
        ms.len() <= old(l2).orders@.len(),
        sum_fills(ms) < crate::bn::b64(),
        forall|j: int|
            0 <= j < ms.len() ==> {
                &&& (#[trigger] ms[j]).maker_price == old(l2).orders@[j].0
                &&& ms[j].maker_seq == old(l2).orders@[j].1.sequence_number
                &&& ms[j].maker_open_before == old(l2).orders@[j].1.open_qty_lots
                &&& 0 < ms[j].fill_qty_lots <= ms[j].maker_open_before
                &&& ms[j].removed == (ms[j].fill_qty_lots == ms[j].maker_open_before)
            },
        forall|j: int|
            0 <= j < ms.len() ==> (#[trigger] old(matches)@[j]).fill_qty_lots
                == ms[j].fill_qty_lots,
    ensures
        final(l2).orders@ == consume(old(l2).orders@, ms),
        final(l2).orders@.len() <= old(l2).orders@.len(),
        final(l2).reverse_prices == old(l2).reverse_prices,
        final(l2).wf(),
        fill == sum_fills(ms),
        final(matches)@.len() == old(matches)@.len(),
        forall|j: int|
            0 <= j < ms.len() ==> final(matches)@[j] == (Match {
                maker_order_removed: Some(ms[j].removed),
                ..old(matches)@[j]
            }),
{
    let ghost s0 = l2.orders@;
    let ghost ms0 = matches@;
    let ghost reverse = l2.reverse_prices;
    let n = matches.len();
    let mut fill: u64 = 0;
    let mut keep: usize = 0;
    let mut k: usize = 0;
    proof {
        assert(ms.take(0) =~= Seq::<MatchSpec>::empty());
        assert(consume(s0, ms.take(0)) == s0);
        assert(sum_fills(ms.take(0)) == 0);
        assert(kept_count(ms.take(0)) == 0);
    }
    while k < n
        invariant
            l2.wf(),
            l2.reverse_prices == reverse,
            n == ms.len(),
            n == matches@.len(),
            ms0 == old(matches)@,
            ms0.len() == n,
            ms.len() <= s0.len(),
            sum_fills(ms) < crate::bn::b64(),
            forall|j: int|
                0 <= j < ms.len() ==> {
                    &&& (#[trigger] ms[j]).maker_price == s0[j].0
                    &&& ms[j].maker_seq == s0[j].1.sequence_number
                    &&& ms[j].maker_open_before == s0[j].1.open_qty_lots
                    &&& 0 < ms[j].fill_qty_lots <= ms[j].maker_open_before
                    &&& ms[j].removed == (ms[j].fill_qty_lots == ms[j].maker_open_before)
                },
            forall|j: int|
                0 <= j < ms.len() ==> (#[trigger] ms0[j]).fill_qty_lots == ms[j].fill_qty_lots,
            k <= n,
            keep == kept_count(ms.take(k as int)),
            l2.orders@ == consume(s0, ms.take(k as int)),
            l2.orders@.len() <= s0.len(),
            fill == sum_fills(ms.take(k as int)),
            forall|j: int|
                0 <= j < k ==> matches@[j] == (Match {
                    maker_order_removed: Some(ms[j].removed),
                    ..ms0[j]
                }),
            forall|j: int| k <= j < n ==> matches@[j] == ms0[j],
        decreases n - k,
    {
        let ghost cur = l2.orders@;
        let ghost mcur = matches@;
        proof {
            lemma_consume_step(s0, ms, k as int);
            lemma_sum_fills_prefix(ms, k + 1);
            assert(ms.take(k + 1).drop_last() =~= ms.take(k as int));
            assert(ms.take(k + 1).last() == ms[k as int]);
            assert(sum_fills(ms.take(k + 1)) == sum_fills(ms.take(k as int)) + ms[k
                as int].fill_qty_lots);
            assert(cur[keep as int] == s0[k as int]);
        }
        let mfill = matches[k].fill_qty_lots;
        // decide removal from the book itself: the fill consumes the maker
        // exactly when it equals the maker's resting quantity
        let resting = l2.orders[keep].1.open_qty_lots;
        let m_removed = mfill == resting;
        proof {
            assert(resting == ms[k as int].maker_open_before);
            assert(m_removed == ms[k as int].removed);
        }
        let mut m = matches.remove(k);
        m.maker_order_removed = Some(m_removed);
        matches.insert(k, m);
        proof {
            assert(matches@ =~= mcur.update(
                k as int,
                (Match { maker_order_removed: Some(ms[k as int].removed), ..ms0[k as int] }),
            ));
        }
        if m_removed {
            let _ = l2.orders.remove(keep);
            proof {
                assert(l2.orders@ == cur.remove(keep as int));
                assert forall|a: int, b: int|
                    0 <= a < b < l2.orders@.len() implies crate::l2::entry_before(
                    reverse,
                    l2.orders@[a],
                    l2.orders@[b],
                ) by {
                    let ka = keep as int;
                    if b < ka {
                        assert(crate::l2::entry_before(reverse, cur[a], cur[b]));
                    } else if a < ka {
                        assert(crate::l2::entry_before(reverse, cur[a], cur[b + 1]));
                    } else {
                        assert(crate::l2::entry_before(reverse, cur[a + 1], cur[b + 1]));
                    }
                }
            }
        } else {
            let price_k = l2.orders[keep].0;
            let mut ord = l2.orders[keep].1.clone();
            proof {
                assert(ord.open_qty_lots == ms[k as int].maker_open_before);
            }
            ord.open_qty_lots = ord.open_qty_lots - mfill;
            let _ = l2.orders.remove(keep);
            l2.orders.insert(keep, (price_k, ord));
            proof {
                let upd = (
                    s0[k as int].0,
                    OpenLimitOrder {
                        open_qty_lots: (s0[k as int].1.open_qty_lots - ms[k
                            as int].fill_qty_lots) as u64,
                        ..s0[k as int].1
                    },
                );
                assert(ord == upd.1);
                assert(l2.orders@ =~= cur.update(keep as int, upd));
                assert forall|a: int, b: int|
                    0 <= a < b < l2.orders@.len() implies crate::l2::entry_before(
                    reverse,
                    l2.orders@[a],
                    l2.orders@[b],
                ) by {
                    assert(crate::l2::entry_before(reverse, cur[a], cur[b]));
                }
            }
            keep = keep + 1;
        }
        fill = fill + mfill;
        k = k + 1;
    }
    proof {
        assert(ms.take(n as int) =~= ms);
    }
    fill
}

impl Orderbook {
    fn get_price_rank(&self, side: Side, price_lots: u64) -> (r: u32)
        requires
            self.bids.entries().len() < u32::MAX,
            self.asks.entries().len() < u32::MAX,
        ensures
            r == rank_spec(
                self.side_l2(side).orders@,
                self.side_l2(side).reverse_prices,
                price_lots,
            ),
    {
        match side {
            Side::Buy => self.bids.get_price_rank(price_lots),
            Side::Sell => self.asks.get_price_rank(price_lots),
        }
    }

    /// Place a new order and run the matching engine, reporting fatal
    /// conditions as errors instead of aborting. On `Err` the book is
    /// unchanged. On `Ok` the book has been updated and the report describes
    /// the fills, the posting, and the post-trade best bid and ask; see
    /// [`place_order_post`].
    pub fn try_place_order(&mut self, user_id: &AccountId, order: NewOrder) -> (r: Result<
        PlaceOrderResult,
        EngineError,
    >)
        requires
            old(self).wf(),
            old(self).bids.entries().len() < u32::MAX - 1,
            old(self).asks.entries().len() < u32::MAX - 1,
        ensures
            final(self).wf(),
            (place_fatal(*old(self), user_id@, order) matches Some(e) ==> r == Err::<
                PlaceOrderResult,
                EngineError,
            >(e) && final(self).bids == old(self).bids && final(self).asks == old(self).asks),
            (place_fatal(*old(self), user_id@, order) is None ==> (r matches Ok(res)
                && place_order_post(*old(self), *final(self), user_id@, order, res))),
    {
        let ghost pre = *self;
        let ghost user = user_id@;
        let ghost w = match_walk(pre, user, order);
        let order_id = crate::order_id::new_order_id(
            order.side,
            match order.limit_price_lots {
                Some(l) => l,
                None => 0,
            },
            order.sequence_number,
        );
        let mut mr = match self.match_order(user_id, &order) {
            Ok(mr) => mr,
            Err(e) => {
                return Err(e);
            },
        };
        proof {
            assert(match_fatal(order, w) is None);
            assert(w.fatal is None);
            if order.available_quote_lots is Some {
                vstd::arithmetic::mul::lemma_mul_nonnegative(
                    order.available_quote_lots.unwrap() as int,
                    order.quote_lot_size as int,
                );
            }
            let opp_s = pre.side_l2(maker_side_of(order)).orders@;
            lemma_walk_from_props(
                opp_s,
                order.side == Side::Sell,
                user,
                order,
                0,
                walk_init(order),
            );
        }
        let unfilled_qty_lots = mr.unfilled_qty_lots;
        let rejected: bool = match order.order_type {
            OrderType::PostOnly => unfilled_qty_lots < order.max_qty_lots,
            OrderType::FillOrKill => unfilled_qty_lots > 0,
            _ => false,
        };
        if rejected {
            proof {
                assert(crate::orderbook::matches_fill_total(Seq::<Match>::empty()) == 0);
            }
            let best_bid = match self.find_bbo(Side::Buy) {
                Some(o) => Some(o.unwrap_price()),
                None => None,
            };
            let best_ask = match self.find_bbo(Side::Sell) {
                Some(o) => Some(o.unwrap_price()),
                None => None,
            };
            return Ok(
                PlaceOrderResult {
                    id: order_id,
                    fill_qty_lots: 0,
                    open_qty_lots: 0,
                    quote_amount_lots: 0,
                    outcome: OrderOutcome::Rejected,
                    matches: Vec::new(),
                    price_rank: None,
                    best_bid,
                    best_ask,
                },
            );
        }
        let can_post = match order.order_type {
            OrderType::FillOrKill => false,
            OrderType::ImmediateOrCancel => false,
            OrderType::Market => false,
            _ => true,
        };
        if unfilled_qty_lots > 0 && can_post && order.limit_price_lots.is_none() {
            return Err(EngineError::MissingLimitPrice);
        }
        // Step C: execute the matches against the walked side.
        let ghost gms = w.matches;
        let ghost opp_pre = pre.side_l2(maker_side_of(order)).orders@;
        proof {
            assert(mr.matches@.len() == gms.len());
            assert(sum_fills(gms) == order.max_qty_lots - w.unfilled_qty_lots);
            assert forall|j: int| 0 <= j < gms.len() implies {
                &&& (#[trigger] gms[j]).maker_price == opp_pre[j].0
                &&& gms[j].maker_seq == opp_pre[j].1.sequence_number
                &&& gms[j].maker_open_before == opp_pre[j].1.open_qty_lots
                &&& 0 < gms[j].fill_qty_lots <= gms[j].maker_open_before
                &&& gms[j].removed == (gms[j].fill_qty_lots == gms[j].maker_open_before)
            } by {
                assert(aligned_at(opp_pre, order.side == Side::Sell, gms, order, j));
            }
            assert forall|j: int|
                0 <= j < gms.len() implies (#[trigger] mr.matches@[j]).fill_qty_lots
                == gms[j].fill_qty_lots by {
                assert(match_fields_correspond(mr.matches@[j], gms[j], maker_side_of(order)));
            }
        }
        let ghost pre_matches = mr.matches@;
        let fill_qty_lots = match order.side {
            Side::Buy => apply_matches(&mut self.asks, &mut mr.matches, Ghost(gms)),
            Side::Sell => apply_matches(&mut self.bids, &mut mr.matches, Ghost(gms)),
        };
        proof {
            // the apply step set each match's removal flag; together with the
            // walk-level fields this is the full report correspondence
            assert forall|j: int|
                0 <= j < gms.len() implies match_corresponds(
                #[trigger] mr.matches@[j],
                gms[j],
                maker_side_of(order),
            ) by {
                assert(match_fields_correspond(pre_matches[j], gms[j], maker_side_of(order)));
                assert(mr.matches@[j] == (Match {
                    maker_order_removed: Some(gms[j].removed),
                    ..pre_matches[j]
                }));
            }
        }
        // Step E: outcome.
        let outcome = if unfilled_qty_lots == 0 {
            OrderOutcome::Filled
        } else if match order.order_type {
            OrderType::Market => true,
            _ => false,
        } {
            OrderOutcome::Filled
        } else if unfilled_qty_lots == order.max_qty_lots && can_post {
            OrderOutcome::Posted
        } else {
            OrderOutcome::PartialFill
        };
        // Step D: post the remainder.
        if unfilled_qty_lots > 0 && can_post {
            let limit = match order.limit_price_lots {
                Some(l) => l,
                None => vstd::pervasive::unreached(),
            };
            let posted = OpenLimitOrder {
                sequence_number: order.sequence_number,
                owner_id: user_id.clone(),
                open_qty_lots: unfilled_qty_lots,
                client_id: order.client_id,
                limit_price_lots: Some(limit),
                side: Some(order.side),
                price_rank: None,
            };
            let ghost posted_g = posted;
            match order.side {
                Side::Buy => self.bids.save_order(posted),
                Side::Sell => self.asks.save_order(posted),
            }
            proof {
                assert(posted_order_matches(posted_g, order, user, w.unfilled_qty_lots));
                lemma_save_spec_len(
                    pre.side_l2(order.side).orders@,
                    order.side == Side::Buy,
                    (limit, posted_g),
                );
            }
        }
        let open_qty_lots = if can_post {
            unfilled_qty_lots
        } else {
            0
        };
        proof {
            assert(self.bids.entries().len() < u32::MAX);
            assert(self.asks.entries().len() < u32::MAX);
        }
        // Step F: result assembly.
        let price_rank: Option<u32> = if open_qty_lots > 0 {
            let limit = match order.limit_price_lots {
                Some(l) => l,
                None => vstd::pervasive::unreached(),
            };
            Some(self.get_price_rank(order.side, limit))
        } else {
            None
        };
        let best_bid = match self.find_bbo(Side::Buy) {
            Some(o) => Some(o.unwrap_price()),
            None => None,
        };
        let best_ask = match self.find_bbo(Side::Sell) {
            Some(o) => Some(o.unwrap_price()),
            None => None,
        };
        proof {
            if order.available_quote_lots is Some {
                let avail = order.available_quote_lots.unwrap() as int;
                let q = w.unused_quote.unwrap();
                let qls = order.quote_lot_size as int;
                assert(order.quote_lot_size > 0);
                vstd::arithmetic::div_mod::lemma_div_is_ordered(q, avail * qls, qls);
                vstd::arithmetic::div_mod::lemma_div_multiples_vanish(avail, qls);
                vstd::arithmetic::mul::lemma_mul_is_commutative(avail, qls);
                vstd::arithmetic::div_mod::lemma_div_pos_is_pos(q, qls);
            }
        }
        let quote_amount_lots: u64 = match (order.available_quote_lots, mr.unused_quote_lots) {
            (Some(a), Some(ul)) => {
                if a >= ul {
                    a - ul
                } else {
                    0
                }
            },
            _ => 0,
        };
        proof {
            assert forall|j: int|
                0 <= j < gms.len() implies (#[trigger] mr.matches@[j]).fill_qty_lots
                == gms[j].fill_qty_lots by {
                assert(match_corresponds(mr.matches@[j], gms[j], maker_side_of(order)));
            }
            lemma_fill_total_eq(mr.matches@, gms);
        }
        Ok(
            PlaceOrderResult {
                id: order_id,
                fill_qty_lots,
                open_qty_lots,
                quote_amount_lots,
                outcome,
                matches: mr.matches,
                price_rank,
                best_bid,
                best_ask,
            },
        )
    }

    /// Place a new order and run the matching engine. This modifies the
    /// orderbook and returns a struct containing information needed to
    /// settle account balance changes resulting from the order.
    ///
    /// Callers must rule out the fatal conditions (`place_fatal`); the host
    /// environment treats them as transaction aborts. Use
    /// [`Orderbook::try_place_order`] to surface them as errors instead.
    pub fn place_order(&mut self, user_id: &AccountId, order: NewOrder) -> (r: PlaceOrderResult)
        requires
            old(self).wf(),
            old(self).bids.entries().len() < u32::MAX - 1,
            old(self).asks.entries().len() < u32::MAX - 1,
            place_fatal(*old(self), user_id@, order) is None,
        ensures
            final(self).wf(),
            place_order_post(*old(self), *final(self), user_id@, order, r),
    {
        match self.try_place_order(user_id, order) {
            Ok(r) => r,
            Err(_) => vstd::pervasive::unreached(),
        }
    }
}

} // verus!
