//! Laws of the book and of the engine, stated and proved once, for every
//! input they hold of.
//!
//! The sort invariant of a side and the order-id round trip live with their
//! types; this module holds the cross-cutting laws: price ranks are
//! monotone, the ranks reported on consecutive matches never decrease, and a
//! `place_order` call never creates locked value.

use crate::calculator::bid_quote_value_spec;
use crate::l2::{
    eff_price, entry_before, has_key, price_levels, rank_spec, save_spec, side_base_locked,
    side_quote_locked,
};
use crate::matching::{
    aligned_at, consume, match_corresponds, match_walk, maker_side_of, place_fatal,
    place_order_post, place_posts, place_rejected_spec, posted_order_matches, sum_fills, sum_paid,
    walk_init,
};
use crate::open_limit_order::OpenLimitOrder;
use crate::orderbook::{
    matches_base_traded, matches_quote_traded, Match, NewOrder, Orderbook, PlaceOrderResult,
};
use crate::order_type::OrderType;
use crate::side::Side;
use vstd::prelude::*;

verus! {

/// A filter by a weaker predicate keeps at least as many elements.
proof fn lemma_filter_mono(s: Seq<u64>, p1: spec_fn(u64) -> bool, p2: spec_fn(u64) -> bool)
    requires
        forall|q: u64| #[trigger] p1(q) ==> p2(q),
    ensures
        s.filter(p1).len() <= s.filter(p2).len(),
    decreases s.len(),
{
    reveal_with_fuel(Seq::filter, 2);
    if s.len() > 0 {
        lemma_filter_mono(s.drop_last(), p1, p2);
    }
}

/// Price-rank monotonicity: the better of two prices never has the larger
/// rank. On an ask side better means cheaper; on a bid side better means
/// dearer.
pub proof fn lemma_price_rank_monotone(
    s: Seq<(u64, OpenLimitOrder)>,
    reverse: bool,
    p1: u64,
    p2: u64,
)
    requires
        eff_price(reverse, p1) <= eff_price(reverse, p2),
    ensures
        rank_spec(s, reverse, p1) <= rank_spec(s, reverse, p2),
{
    lemma_filter_mono(
        price_levels(s),
        |q: u64| eff_price(reverse, q) < eff_price(reverse, p1),
        |q: u64| eff_price(reverse, q) < eff_price(reverse, p2),
    );
}

/// A rank never exceeds the number of entries.
pub proof fn lemma_rank_bounded(s: Seq<(u64, OpenLimitOrder)>, reverse: bool, p: u64)
    ensures
        0 <= rank_spec(s, reverse, p) <= s.len(),
{
    let pred = |q: u64| eff_price(reverse, q) < eff_price(reverse, p);
    price_levels(s).lemma_filter_len(pred);
    crate::l2::lemma_price_levels_len(s);
}

/// Rank agrees with walk order: the maker price ranks on consecutive
/// matches of a non-fatal walk never decrease. The walk visits resting
/// orders best-price first, and ranks are monotone along that order.
pub proof fn lemma_match_ranks_nondecreasing(
    book: Orderbook,
    user: Seq<char>,
    order: NewOrder,
    j: int,
)
    requires
        book.wf(),
        book.bids.entries().len() < u32::MAX,
        book.asks.entries().len() < u32::MAX,
        match_walk(book, user, order).fatal is None,
        0 <= j,
        j + 1 < match_walk(book, user, order).matches.len(),
    ensures
        match_walk(book, user, order).matches[j].price_rank <= match_walk(
            book,
            user,
            order,
        ).matches[j + 1].price_rank,
{
    let opp = book.side_l2(maker_side_of(order)).orders@;
    let rev = (order.side == Side::Sell);
    let w = match_walk(book, user, order);
    if order.available_quote_lots is Some {
        vstd::arithmetic::mul::lemma_mul_nonnegative(
            order.available_quote_lots.unwrap() as int,
            order.quote_lot_size as int,
        );
    }
    crate::matching::lemma_walk_from_props(opp, rev, user, order, 0, walk_init(order));
    assert(aligned_at(opp, rev, w.matches, order, j));
    assert(aligned_at(opp, rev, w.matches, order, j + 1));
    let pj = w.matches[j].maker_price;
    let pj1 = w.matches[j + 1].maker_price;
    // the walked side is sorted best-first
    assert(entry_before(rev, opp[j], opp[j + 1]));
    assert(eff_price(rev, pj) <= eff_price(rev, pj1));
    lemma_price_rank_monotone(opp, rev, pj, pj1);
    lemma_rank_bounded(opp, rev, pj);
    lemma_rank_bounded(opp, rev, pj1);
}


/// Floor division is superadditive: `a/d + b/d <= (a+b)/d`.
proof fn lemma_div_superadd(a: int, b: int, d: int)
    requires
        a >= 0,
        b >= 0,
        d > 0,
    ensures
        a / d + b / d <= (a + b) / d,
{
    vstd::arithmetic::div_mod::lemma_fundamental_div_mod(a, d);
    vstd::arithmetic::div_mod::lemma_fundamental_div_mod(b, d);
    vstd::arithmetic::div_mod::lemma_mod_division_less_than_divisor(a, d);
    vstd::arithmetic::div_mod::lemma_mod_division_less_than_divisor(b, d);
    let x = a / d + b / d;
    assert(d * x == d * (a / d) + d * (b / d)) by {
        vstd::arithmetic::mul::lemma_mul_is_distributive_add(d, a / d, b / d);
    }
    assert(d * x <= a + b);
    vstd::arithmetic::div_mod::lemma_div_is_ordered(d * x, a + b, d);
    vstd::arithmetic::div_mod::lemma_div_multiples_vanish(x, d);
}

/// The quote-value numerator distributes over quantities.
proof fn lemma_bqv_numerator_add(q1: int, q2: int, p: int, bls: int, qls: int)
    ensures
        (q1 + q2) * bls * p * qls == q1 * bls * p * qls + q2 * bls * p * qls,
{
    vstd::arithmetic::mul::lemma_mul_is_distributive_add_other_way(bls, q1, q2);
    vstd::arithmetic::mul::lemma_mul_is_distributive_add_other_way(p, q1 * bls, q2 * bls);
    vstd::arithmetic::mul::lemma_mul_is_distributive_add_other_way(
        qls,
        q1 * bls * p,
        q2 * bls * p,
    );
}

/// Splitting a quantity across two fills never pays more than the whole:
/// `bqv(q1) + bqv(q2) <= bqv(q1 + q2)` at one price.
pub proof fn lemma_bqv_superadd(q1: int, q2: int, p: int, bls: int, qls: int, bd: int)
    requires
        q1 >= 0,
        q2 >= 0,
        p >= 0,
        bls >= 0,
        qls >= 0,
        bd > 0,
    ensures
        bid_quote_value_spec(q1, p, bls, qls, bd) + bid_quote_value_spec(q2, p, bls, qls, bd)
            <= bid_quote_value_spec(q1 + q2, p, bls, qls, bd),
{
    lemma_bqv_numerator_add(q1, q2, p, bls, qls);
    lemma_numerator_nonneg(q1, p, bls, qls);
    lemma_numerator_nonneg(q2, p, bls, qls);
    lemma_div_superadd(q1 * bls * p * qls, q2 * bls * p * qls, bd);
}

/// The quote-value numerator is nonnegative.
proof fn lemma_numerator_nonneg(q: int, p: int, bls: int, qls: int)
    requires
        q >= 0,
        p >= 0,
        bls >= 0,
        qls >= 0,
    ensures
        q * bls * p * qls >= 0,
        q * bls >= 0,
        q * bls * p >= 0,
{
    vstd::arithmetic::mul::lemma_mul_nonnegative(q, bls);
    vstd::arithmetic::mul::lemma_mul_nonnegative(q * bls, p);
    vstd::arithmetic::mul::lemma_mul_nonnegative(q * bls * p, qls);
}

/// A fill at a better (lower) price never pays more than at a worse one.
pub proof fn lemma_bqv_price_monotone(q: int, p1: int, p2: int, bls: int, qls: int, bd: int)
    requires
        q >= 0,
        0 <= p1 <= p2,
        bls >= 0,
        qls >= 0,
        bd > 0,
    ensures
        bid_quote_value_spec(q, p1, bls, qls, bd) <= bid_quote_value_spec(q, p2, bls, qls, bd),
{
    lemma_numerator_nonneg(q, p1, bls, qls);
    lemma_numerator_nonneg(q, p2, bls, qls);
    assert((q * bls) * p1 <= (q * bls) * p2) by {
        vstd::arithmetic::mul::lemma_mul_inequality(p1, p2, q * bls);
        vstd::arithmetic::mul::lemma_mul_is_commutative(p1, q * bls);
        vstd::arithmetic::mul::lemma_mul_is_commutative(p2, q * bls);
    }
    assert(q * bls * p1 * qls <= q * bls * p2 * qls) by {
        vstd::arithmetic::mul::lemma_mul_inequality(q * bls * p1, q * bls * p2, qls);
    }
    vstd::arithmetic::div_mod::lemma_div_is_ordered(q * bls * p1 * qls, q * bls * p2 * qls, bd);
}

/// `sum_fills` decomposed at the front.
proof fn lemma_sum_fills_cons(ms: Seq<crate::matching::MatchSpec>)
    requires
        ms.len() > 0,
    ensures
        sum_fills(ms) == ms[0].fill_qty_lots + sum_fills(ms.skip(1)),
    decreases ms.len(),
{
    if ms.len() == 1 {
        assert(ms.skip(1) =~= Seq::<crate::matching::MatchSpec>::empty());
        assert(ms.drop_last() =~= Seq::<crate::matching::MatchSpec>::empty());
    } else {
        lemma_sum_fills_cons(ms.drop_last());
        assert(ms.drop_last()[0] == ms[0]);
        assert(ms.skip(1).drop_last() =~= ms.drop_last().skip(1));
        assert(ms.skip(1).last() == ms.last());
    }
}

/// `sum_paid` decomposed at the front.
proof fn lemma_sum_paid_cons(ms: Seq<crate::matching::MatchSpec>)
    requires
        ms.len() > 0,
    ensures
        sum_paid(ms) == ms[0].native_quote_paid + sum_paid(ms.skip(1)),
    decreases ms.len(),
{
    if ms.len() == 1 {
        assert(ms.skip(1) =~= Seq::<crate::matching::MatchSpec>::empty());
        assert(ms.drop_last() =~= Seq::<crate::matching::MatchSpec>::empty());
    } else {
        lemma_sum_paid_cons(ms.drop_last());
        assert(ms.drop_last()[0] == ms[0]);
        assert(ms.skip(1).drop_last() =~= ms.drop_last().skip(1));
        assert(ms.skip(1).last() == ms.last());
    }
}

/// The base-locked sum decomposed at the front.
proof fn lemma_side_base_cons(s: Seq<(u64, OpenLimitOrder)>, bls: int)
    requires
        s.len() > 0,
    ensures
        side_base_locked(s, bls) == s[0].1.open_qty_lots * bls + side_base_locked(s.skip(1), bls),
    decreases s.len(),
{
    if s.len() == 1 {
        assert(s.skip(1) =~= Seq::<(u64, OpenLimitOrder)>::empty());
        assert(s.drop_last() =~= Seq::<(u64, OpenLimitOrder)>::empty());
    } else {
        lemma_side_base_cons(s.drop_last(), bls);
        assert(s.drop_last()[0] == s[0]);
        assert(s.skip(1).drop_last() =~= s.drop_last().skip(1));
        assert(s.skip(1).last() == s.last());
    }
}

/// The quote-locked sum decomposed at the front.
proof fn lemma_side_quote_cons(s: Seq<(u64, OpenLimitOrder)>, bls: int, qls: int, bd: int)
    requires
        s.len() > 0,
    ensures
        side_quote_locked(s, bls, qls, bd) == bid_quote_value_spec(
            s[0].1.open_qty_lots as int,
            s[0].0 as int,
            bls,
            qls,
            bd,
        ) + side_quote_locked(s.skip(1), bls, qls, bd),
    decreases s.len(),
{
    if s.len() == 1 {
        assert(s.skip(1) =~= Seq::<(u64, OpenLimitOrder)>::empty());
        assert(s.drop_last() =~= Seq::<(u64, OpenLimitOrder)>::empty());
    } else {
        lemma_side_quote_cons(s.drop_last(), bls, qls, bd);
        assert(s.drop_last()[0] == s[0]);
        assert(s.skip(1).drop_last() =~= s.drop_last().skip(1));
        assert(s.skip(1).last() == s.last());
    }
}

/// Inserting an entry adds exactly its term to the base-locked sum.
proof fn lemma_side_base_insert(s: Seq<(u64, OpenLimitOrder)>, i: int, e: (u64, OpenLimitOrder), bls: int)
    requires
        0 <= i <= s.len(),
    ensures
        side_base_locked(s.insert(i, e), bls) == side_base_locked(s, bls) + e.1.open_qty_lots
            * bls,
    decreases s.len(),
{
    if i == s.len() {
        assert(s.insert(i, e) =~= s.push(e));
        assert(s.push(e).drop_last() =~= s);
        assert(s.push(e).last() == e);
    } else {
        assert(s.insert(i, e).drop_last() =~= s.drop_last().insert(i, e));
        assert(s.insert(i, e).last() == s.last());
        lemma_side_base_insert(s.drop_last(), i, e, bls);
    }
}

/// Inserting an entry adds exactly its term to the quote-locked sum.
proof fn lemma_side_quote_insert(
    s: Seq<(u64, OpenLimitOrder)>,
    i: int,
    e: (u64, OpenLimitOrder),
    bls: int,
    qls: int,
    bd: int,
)
    requires
        0 <= i <= s.len(),
    ensures
        side_quote_locked(s.insert(i, e), bls, qls, bd) == side_quote_locked(s, bls, qls, bd)
            + bid_quote_value_spec(e.1.open_qty_lots as int, e.0 as int, bls, qls, bd),
    decreases s.len(),
{
    if i == s.len() {
        assert(s.insert(i, e) =~= s.push(e));
        assert(s.push(e).drop_last() =~= s);
        assert(s.push(e).last() == e);
    } else {
        assert(s.insert(i, e).drop_last() =~= s.drop_last().insert(i, e));
        assert(s.insert(i, e).last() == s.last());
        lemma_side_quote_insert(s.drop_last(), i, e, bls, qls, bd);
    }
}

/// Saving an order whose key is not yet on the side adds exactly its term to
/// both locked-value sums.
proof fn lemma_save_fresh_tvl(
    s: Seq<(u64, OpenLimitOrder)>,
    reverse: bool,
    e: (u64, OpenLimitOrder),
    bls: int,
    qls: int,
    bd: int,
)
    requires
        !has_key(s, e.0, e.1.sequence_number),
    ensures
        side_base_locked(save_spec(s, reverse, e), bls) == side_base_locked(s, bls)
            + e.1.open_qty_lots * bls,
        side_quote_locked(save_spec(s, reverse, e), bls, qls, bd) == side_quote_locked(
            s,
            bls,
            qls,
            bd,
        ) + bid_quote_value_spec(e.1.open_qty_lots as int, e.0 as int, bls, qls, bd),
    decreases s.len(),
{
    if s.len() == 0 {
        assert(save_spec(s, reverse, e) =~= s.insert(0, e));
        lemma_side_base_insert(s, 0, e, bls);
        lemma_side_quote_insert(s, 0, e, bls, qls, bd);
    } else if crate::l2::key_matches(s[0], e.0, e.1.sequence_number) {
        assert(has_key(s, e.0, e.1.sequence_number));
    } else if entry_before(reverse, e, s[0]) {
        lemma_side_base_insert(s, 0, e, bls);
        lemma_side_quote_insert(s, 0, e, bls, qls, bd);
    } else {
        let rest = s.skip(1);
        assert(!has_key(rest, e.0, e.1.sequence_number)) by {
            if has_key(rest, e.0, e.1.sequence_number) {
                let j = crate::l2::idx_of(rest, e.0, e.1.sequence_number);
                assert(crate::l2::key_matches(s[j + 1], e.0, e.1.sequence_number));
            }
        }
        lemma_save_fresh_tvl(rest, reverse, e, bls, qls, bd);
        let t = save_spec(rest, reverse, e);
        assert(save_spec(s, reverse, e) == seq![s[0]] + t);
        assert((seq![s[0]] + t)[0] == s[0]);
        assert((seq![s[0]] + t).skip(1) =~= t);
        lemma_side_base_cons(seq![s[0]] + t, bls);
        lemma_side_quote_cons(seq![s[0]] + t, bls, qls, bd);
        lemma_side_base_cons(s, bls);
        lemma_side_quote_cons(s, bls, qls, bd);
        assert(s.skip(1) == rest);
    }
}

/// Executing aligned matches moves base off the side exactly: what remains
/// plus what traded equals what was there.
proof fn lemma_consume_base(s: Seq<(u64, OpenLimitOrder)>, ms: Seq<crate::matching::MatchSpec>, bls: int)
    requires
        bls >= 0,
        ms.len() <= s.len(),
        forall|j: int|
            0 <= j < ms.len() ==> {
                &&& (#[trigger] ms[j]).maker_open_before == s[j].1.open_qty_lots
                &&& 0 < ms[j].fill_qty_lots <= ms[j].maker_open_before
                &&& ms[j].removed == (ms[j].fill_qty_lots == ms[j].maker_open_before)
            },
    ensures
        side_base_locked(consume(s, ms), bls) + sum_fills(ms) * bls == side_base_locked(s, bls),
    decreases ms.len(),
{
    if ms.len() == 0 {
    } else {
        let s1 = s.skip(1);
        let ms1 = ms.skip(1);
        assert(forall|j: int|
            0 <= j < ms1.len() ==> {
                &&& (#[trigger] ms1[j]).maker_open_before == s1[j].1.open_qty_lots
                &&& 0 < ms1[j].fill_qty_lots <= ms1[j].maker_open_before
                &&& ms1[j].removed == (ms1[j].fill_qty_lots == ms1[j].maker_open_before)
            });
        lemma_consume_base(s1, ms1, bls);
        lemma_sum_fills_cons(ms);
        lemma_side_base_cons(s, bls);
        assert((ms[0].fill_qty_lots + sum_fills(ms1)) * bls == ms[0].fill_qty_lots * bls
            + sum_fills(ms1) * bls) by {
            vstd::arithmetic::mul::lemma_mul_is_distributive_add_other_way(
                bls,
                ms[0].fill_qty_lots as int,
                sum_fills(ms1),
            );
        }
        if ms[0].removed {
            assert(consume(s, ms) == consume(s1, ms1));
        } else {
            let head = (
                s[0].0,
                OpenLimitOrder {
                    open_qty_lots: (s[0].1.open_qty_lots - ms[0].fill_qty_lots) as u64,
                    ..s[0].1
                },
            );
            assert(consume(s, ms) == seq![head] + consume(s1, ms1));
            lemma_side_base_cons(seq![head] + consume(s1, ms1), bls);
            assert((seq![head] + consume(s1, ms1))[0] == head);
            assert((seq![head] + consume(s1, ms1)).skip(1) =~= consume(s1, ms1));
            assert(head.1.open_qty_lots * bls + ms[0].fill_qty_lots * bls == s[0].1.open_qty_lots
                * bls) by {
                vstd::arithmetic::mul::lemma_mul_is_distributive_add_other_way(
                    bls,
                    head.1.open_qty_lots as int,
                    ms[0].fill_qty_lots as int,
                );
            }
        }
    }
}

/// Executing aligned matches never frees more quote than was locked: what
/// remains plus what the taker paid is at most what was there. (Floor
/// division can strand dust, so this is an inequality.)
proof fn lemma_consume_quote(
    s: Seq<(u64, OpenLimitOrder)>,
    ms: Seq<crate::matching::MatchSpec>,
    bls: int,
    qls: int,
    bd: int,
)
    requires
        bls >= 0,
        qls >= 0,
        bd > 0,
        ms.len() <= s.len(),
        forall|j: int|
            0 <= j < ms.len() ==> {
                &&& (#[trigger] ms[j]).maker_price == s[j].0
                &&& ms[j].maker_open_before == s[j].1.open_qty_lots
                &&& 0 < ms[j].fill_qty_lots <= ms[j].maker_open_before
                &&& ms[j].removed == (ms[j].fill_qty_lots == ms[j].maker_open_before)
                &&& ms[j].native_quote_paid == bid_quote_value_spec(
                    ms[j].fill_qty_lots as int,
                    ms[j].maker_price as int,
                    bls,
                    qls,
                    bd,
                )
            },
    ensures
        side_quote_locked(consume(s, ms), bls, qls, bd) + sum_paid(ms) <= side_quote_locked(
            s,
            bls,
            qls,
            bd,
        ),
    decreases ms.len(),
{
    if ms.len() == 0 {
    } else {
        let s1 = s.skip(1);
        let ms1 = ms.skip(1);
        assert(forall|j: int|
            0 <= j < ms1.len() ==> {
                &&& (#[trigger] ms1[j]).maker_price == s1[j].0
                &&& ms1[j].maker_open_before == s1[j].1.open_qty_lots
                &&& 0 < ms1[j].fill_qty_lots <= ms1[j].maker_open_before
                &&& ms1[j].removed == (ms1[j].fill_qty_lots == ms1[j].maker_open_before)
                &&& ms1[j].native_quote_paid == bid_quote_value_spec(
                    ms1[j].fill_qty_lots as int,
                    ms1[j].maker_price as int,
                    bls,
                    qls,
                    bd,
                )
            });
        lemma_consume_quote(s1, ms1, bls, qls, bd);
        lemma_sum_paid_cons(ms);
        lemma_side_quote_cons(s, bls, qls, bd);
        if ms[0].removed {
            assert(consume(s, ms) == consume(s1, ms1));
        } else {
            let head = (
                s[0].0,
                OpenLimitOrder {
                    open_qty_lots: (s[0].1.open_qty_lots - ms[0].fill_qty_lots) as u64,
                    ..s[0].1
                },
            );
            assert(consume(s, ms) == seq![head] + consume(s1, ms1));
            lemma_side_quote_cons(seq![head] + consume(s1, ms1), bls, qls, bd);
            assert((seq![head] + consume(s1, ms1))[0] == head);
            assert((seq![head] + consume(s1, ms1)).skip(1) =~= consume(s1, ms1));
            lemma_bqv_superadd(
                head.1.open_qty_lots as int,
                ms[0].fill_qty_lots as int,
                s[0].0 as int,
                bls,
                qls,
                bd,
            );
        }
    }
}

/// A sequence of fills at prices no worse than `limit` pays at most the
/// quote value of the total quantity at `limit`.
proof fn lemma_sum_paid_bounded(
    ms: Seq<crate::matching::MatchSpec>,
    limit: u64,
    bls: int,
    qls: int,
    bd: int,
)
    requires
        bls >= 0,
        qls >= 0,
        bd > 0,
        forall|j: int|
            0 <= j < ms.len() ==> {
                &&& (#[trigger] ms[j]).maker_price <= limit
                &&& ms[j].native_quote_paid == bid_quote_value_spec(
                    ms[j].fill_qty_lots as int,
                    ms[j].maker_price as int,
                    bls,
                    qls,
                    bd,
                )
            },
    ensures
        sum_paid(ms) <= bid_quote_value_spec(sum_fills(ms), limit as int, bls, qls, bd),
        sum_fills(ms) >= 0,
    decreases ms.len(),
{
    if ms.len() == 0 {
        lemma_numerator_nonneg(0, limit as int, bls, qls);
        vstd::arithmetic::div_mod::lemma_div_pos_is_pos(0, bd);
    } else {
        let dl = ms.drop_last();
        assert(forall|j: int| 0 <= j < dl.len() ==> dl[j] == ms[j]);
        lemma_sum_paid_bounded(dl, limit, bls, qls, bd);
        let last = ms.last();
        assert(last == ms[ms.len() - 1]);
        lemma_bqv_price_monotone(
            last.fill_qty_lots as int,
            last.maker_price as int,
            limit as int,
            bls,
            qls,
            bd,
        );
        lemma_bqv_superadd(sum_fills(dl), last.fill_qty_lots as int, limit as int, bls, qls, bd);
    }
}

/// The report's traded sums equal the walk's, given the field-for-field
/// correspondence between report matches and walk matches.
proof fn lemma_traded_eq(
    res_ms: Seq<Match>,
    ms: Seq<crate::matching::MatchSpec>,
    bls: int,
)
    requires
        bls >= 0,
        res_ms.len() == ms.len(),
        forall|j: int|
            0 <= j < ms.len() ==> (#[trigger] res_ms[j]).native_quote_paid
                == ms[j].native_quote_paid && res_ms[j].fill_qty_lots == ms[j].fill_qty_lots,
    ensures
        matches_quote_traded(res_ms) == sum_paid(ms),
        matches_base_traded(res_ms, bls) == sum_fills(ms) * bls,
    decreases ms.len(),
{
    if ms.len() == 0 {
        assert(sum_fills(ms) * bls == 0) by {
            vstd::arithmetic::mul::lemma_mul_by_zero_is_zero(bls);
        }
    } else {
        let dl = ms.drop_last();
        let rdl = res_ms.drop_last();
        assert(forall|j: int| 0 <= j < dl.len() ==> dl[j] == ms[j] && rdl[j] == res_ms[j]);
        lemma_traded_eq(rdl, dl, bls);
        assert((sum_fills(dl) + ms.last().fill_qty_lots) * bls == sum_fills(dl) * bls
            + ms.last().fill_qty_lots * bls) by {
            vstd::arithmetic::mul::lemma_mul_is_distributive_add_other_way(
                bls,
                sum_fills(dl),
                ms.last().fill_qty_lots as int,
            );
        }
        assert(res_ms.last() == res_ms[ms.len() - 1]);
    }
}

/// Conservation of value: across a `place_order` call, the value locked in
/// the book plus the value traded through the report's matches never exceeds
/// the value locked before plus the value the new order brought (its base
/// quantity for a sell, its full quote budget for a buy).
///
/// Base value is conserved exactly. Quote value can only shrink: floor
/// division may strand dust, but no call ever creates locked value.
///
/// A limit buy must be fully funded (its budget covers its whole quantity at
/// its limit price), which is what the surrounding settlement layer locks;
/// posting also relies on the caller-guaranteed uniqueness of `(price,
/// sequence number)`.
pub proof fn lemma_place_order_conserves_value(
    pre: Orderbook,
    post: Orderbook,
    user: Seq<char>,
    order: NewOrder,
    res: PlaceOrderResult,
)
    requires
        pre.wf(),
        order.base_denomination > 0,
        place_fatal(pre, user, order) is None,
        place_order_post(pre, post, user, order, res),
        order.side == Side::Buy ==> order.available_quote_lots is Some,
        order.side == Side::Buy && order.order_type != OrderType::Market
            ==> order.limit_price_lots is Some && bid_quote_value_spec(
            order.max_qty_lots as int,
            order.limit_price_lots.unwrap() as int,
            order.base_lot_size as int,
            order.quote_lot_size as int,
            order.base_denomination as int,
        ) <= order.available_quote_lots.unwrap() * order.quote_lot_size,
        place_posts(order, match_walk(pre, user, order)) ==> !has_key(
            pre.side_l2(order.side).orders@,
            order.limit_price_lots.unwrap(),
            order.sequence_number,
        ),
    ensures
        side_base_locked(post.asks.orders@, order.base_lot_size as int) + matches_base_traded(
            res.matches@,
            order.base_lot_size as int,
        ) <= side_base_locked(pre.asks.orders@, order.base_lot_size as int) + (
        if order.side == Side::Sell {
            order.max_qty_lots * order.base_lot_size
        } else {
            0
        }),
        side_quote_locked(
            post.bids.orders@,
            order.base_lot_size as int,
            order.quote_lot_size as int,
            order.base_denomination as int,
        ) + matches_quote_traded(res.matches@) <= side_quote_locked(
            pre.bids.orders@,
            order.base_lot_size as int,
            order.quote_lot_size as int,
            order.base_denomination as int,
        ) + (if order.side == Side::Buy {
            order.available_quote_lots.unwrap() * order.quote_lot_size
        } else {
            0
        }),
{
    let bls = order.base_lot_size as int;
    let qls = order.quote_lot_size as int;
    let bd = order.base_denomination as int;
    let w = match_walk(pre, user, order);
    let opp = pre.side_l2(maker_side_of(order)).orders@;
    let rev = (order.side == Side::Sell);
    if order.available_quote_lots is Some {
        vstd::arithmetic::mul::lemma_mul_nonnegative(
            order.available_quote_lots.unwrap() as int,
            qls,
        );
    }
    if order.side == Side::Sell {
        vstd::arithmetic::mul::lemma_mul_nonnegative(order.max_qty_lots as int, bls);
    }
    crate::matching::lemma_walk_from_props(opp, rev, user, order, 0, walk_init(order));
    let rejected = place_rejected_spec(order, w);
    if rejected {
        assert(res.matches@ =~= Seq::<Match>::empty());
        assert(matches_quote_traded(res.matches@) == 0);
        assert(matches_base_traded(res.matches@, bls) == 0);
        return ;
    }
    // traded sums equal walk sums
    assert forall|j: int|
        0 <= j < w.matches.len() implies (#[trigger] res.matches@[j]).native_quote_paid
        == w.matches[j].native_quote_paid && res.matches@[j].fill_qty_lots
        == w.matches[j].fill_qty_lots by {
        assert(match_corresponds(res.matches@[j], w.matches[j], maker_side_of(order)));
    }
    lemma_traded_eq(res.matches@, w.matches, bls);
    // alignment of the walk's matches against the walked side
    assert forall|j: int|
        0 <= j < w.matches.len() implies {
        &&& (#[trigger] w.matches[j]).maker_price == opp[j].0
        &&& w.matches[j].maker_open_before == opp[j].1.open_qty_lots
        &&& 0 < w.matches[j].fill_qty_lots <= w.matches[j].maker_open_before
        &&& w.matches[j].removed == (w.matches[j].fill_qty_lots == w.matches[j].maker_open_before)
        &&& w.matches[j].native_quote_paid == bid_quote_value_spec(
            w.matches[j].fill_qty_lots as int,
            w.matches[j].maker_price as int,
            bls,
            qls,
            bd,
        )
        &&& crate::matching::crosses(order, w.matches[j].maker_price)
    } by {
        assert(aligned_at(opp, rev, w.matches, order, j));
    }
    let posts = order.order_type.can_post() && w.unfilled_qty_lots > 0;
    assert(sum_fills(w.matches) == order.max_qty_lots - w.unfilled_qty_lots);
    if order.side == Side::Buy {
        // ask side: exact base conservation
        assert(post.asks.orders@ == consume(pre.asks.orders@, w.matches));
        lemma_consume_base(pre.asks.orders@, w.matches, bls);
        // bid side: the posted remainder plus what was paid fit in the budget
        let avail = order.available_quote_lots.unwrap() as int;
        assert(w.unused_quote is Some);
        assert(w.unused_quote.unwrap() + sum_paid(w.matches) == avail * qls);
        assert(sum_paid(w.matches) <= avail * qls);
        if posts {
            let limit = order.limit_price_lots.unwrap();
            assert(order.order_type != OrderType::Market);
            assert forall|j: int|
                0 <= j < w.matches.len() implies (#[trigger] w.matches[j]).maker_price
                <= limit by {
                assert(crate::matching::crosses(order, w.matches[j].maker_price));
            }
            lemma_sum_paid_bounded(w.matches, limit, bls, qls, bd);
            lemma_bqv_superadd(
                sum_fills(w.matches),
                w.unfilled_qty_lots,
                limit as int,
                bls,
                qls,
                bd,
            );
            let po = choose|po: OpenLimitOrder|
                {
                    &&& #[trigger] posted_order_matches(po, order, user, w.unfilled_qty_lots)
                    &&& (order.side == Side::Buy ==> post.bids.orders@ == save_spec(
                        pre.bids.orders@,
                        true,
                        (order.limit_price_lots.unwrap(), po),
                    ))
                    &&& (order.side == Side::Sell ==> post.asks.orders@ == save_spec(
                        pre.asks.orders@,
                        false,
                        (order.limit_price_lots.unwrap(), po),
                    ))
                };
            assert(posted_order_matches(po, order, user, w.unfilled_qty_lots));
            lemma_save_fresh_tvl(pre.bids.orders@, true, (limit, po), bls, qls, bd);
        } else {
            assert(post.bids == pre.bids);
        }
    } else {
        // bid side: quote never grows
        assert(post.bids.orders@ == consume(pre.bids.orders@, w.matches));
        lemma_consume_quote(pre.bids.orders@, w.matches, bls, qls, bd);
        // ask side: exact base conservation including the posted remainder
        crate::matching::lemma_sum_fills_prefix(w.matches, w.matches.len() as int);
        assert(w.matches.take(w.matches.len() as int) =~= w.matches);
        assert(sum_fills(w.matches) * bls <= order.max_qty_lots * bls) by {
            vstd::arithmetic::mul::lemma_mul_inequality(
                sum_fills(w.matches),
                order.max_qty_lots as int,
                bls,
            );
        }
        if posts {
            let limit = order.limit_price_lots.unwrap();
            let po = choose|po: OpenLimitOrder|
                {
                    &&& #[trigger] posted_order_matches(po, order, user, w.unfilled_qty_lots)
                    &&& (order.side == Side::Buy ==> post.bids.orders@ == save_spec(
                        pre.bids.orders@,
                        true,
                        (order.limit_price_lots.unwrap(), po),
                    ))
                    &&& (order.side == Side::Sell ==> post.asks.orders@ == save_spec(
                        pre.asks.orders@,
                        false,
                        (order.limit_price_lots.unwrap(), po),
                    ))
                };
            assert(posted_order_matches(po, order, user, w.unfilled_qty_lots));
            lemma_save_fresh_tvl(pre.asks.orders@, false, (limit, po), bls, qls, bd);
            assert(sum_fills(w.matches) * bls + w.unfilled_qty_lots * bls == order.max_qty_lots
                * bls) by {
                vstd::arithmetic::mul::lemma_mul_is_distributive_add_other_way(
                    bls,
                    sum_fills(w.matches),
                    w.unfilled_qty_lots,
                );
            }
        } else {
            assert(post.asks == pre.asks);
        }
    }
}

} // verus!
