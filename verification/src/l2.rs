//! One side of the orderbook.
//!
//! A side is a flat vector of `(price, order)` entries kept strictly sorted
//! by `(effective price, sequence number)`, where the effective price
//! reverses for bids (`reverse_prices`) so that the best-priced entries
//! always come first. The secondary sequence-number key is time priority and
//! never reverses.
//!
//! Most price levels hold a single order in practice, so a flat sorted
//! vector keeps iteration simple and cheap; every operation's contract is
//! stated against the entry sequence, so a different backing structure could
//! be substituted without touching callers.

use crate::open_limit_order::OpenLimitOrder;
use crate::side::Side;
use crate::{LotBalance, SequenceNumber};
use vstd::prelude::*;

verus! {

/// One side of an orderbook: a price-sorted flat list of resting orders.
#[derive(Debug)]
pub struct VecL2 {
    /// List of (price, order), sorted best-first.
    pub orders: Vec<(LotBalance, OpenLimitOrder)>,
    /// Whether prices sort in reverse (descending) order, as on the bid side.
    pub reverse_prices: bool,
}

/// The sort position of a price: descending sides flip the comparison by
/// complementing against the largest price.
pub open spec fn eff_price(reverse: bool, price: u64) -> int {
    if reverse {
        u64::MAX - price
    } else {
        price as int
    }
}

/// Strict `(effective price, sequence number)` order on entry keys.
pub open spec fn key_before(reverse: bool, p1: u64, s1: u64, p2: u64, s2: u64) -> bool {
    eff_price(reverse, p1) < eff_price(reverse, p2) || (p1 == p2 && s1 < s2)
}

/// Strict order on whole entries.
pub open spec fn entry_before(
    reverse: bool,
    a: (u64, OpenLimitOrder),
    b: (u64, OpenLimitOrder),
) -> bool {
    key_before(reverse, a.0, a.1.sequence_number, b.0, b.1.sequence_number)
}

/// Natural `(price, sequence number)` order, ignoring `reverse_prices`; used
/// by the min/max queries.
pub open spec fn entry_nat_before(a: (u64, OpenLimitOrder), b: (u64, OpenLimitOrder)) -> bool {
    a.0 < b.0 || (a.0 == b.0 && a.1.sequence_number < b.1.sequence_number)
}

/// An entry matches a `(price, sequence number)` key.
pub open spec fn key_matches(e: (u64, OpenLimitOrder), price: u64, seq: u64) -> bool {
    e.0 == price && e.1.sequence_number == seq
}

/// Whether the sequence holds an entry with the given key.
pub open spec fn has_key(s: Seq<(u64, OpenLimitOrder)>, price: u64, seq: u64) -> bool {
    exists|i: int| 0 <= i < s.len() && key_matches(s[i], price, seq)
}

/// The index of the entry with the given key (unique in a sorted side).
pub open spec fn idx_of(s: Seq<(u64, OpenLimitOrder)>, price: u64, seq: u64) -> int {
    choose|i: int| 0 <= i < s.len() && key_matches(s[i], price, seq)
}

/// The distinct prices of a sequence of entries, one per adjacent run.
pub open spec fn price_levels(s: Seq<(u64, OpenLimitOrder)>) -> Seq<u64>
    decreases s.len(),
{
    if s.len() == 0 {
        Seq::empty()
    } else if s.len() >= 2 && s[s.len() - 2].0 == s.last().0 {
        price_levels(s.drop_last())
    } else {
        price_levels(s.drop_last()).push(s.last().0)
    }
}

/// Dense rank of a price among the side's unique price levels, best first:
/// the number of levels strictly better than `price`. Equals the level's
/// index when present, and the insertion index when absent.
pub open spec fn rank_spec(s: Seq<(u64, OpenLimitOrder)>, reverse: bool, price: u64) -> int {
    price_levels(s).filter(|q: u64| eff_price(reverse, q) < eff_price(reverse, price)).len() as int
}

/// The entry sequence that results from saving `e`: replace in place when the
/// key is already present, insert at the sort position when it is new.
pub open spec fn save_spec(
    s: Seq<(u64, OpenLimitOrder)>,
    reverse: bool,
    e: (u64, OpenLimitOrder),
) -> Seq<(u64, OpenLimitOrder)>
    decreases s.len(),
{
    if s.len() == 0 {
        seq![e]
    } else if key_matches(s[0], e.0, e.1.sequence_number) {
        s.update(0, e)
    } else if entry_before(reverse, e, s[0]) {
        s.insert(0, e)
    } else {
        seq![s[0]] + save_spec(s.skip(1), reverse, e)
    }
}

/// The index of the entry least in natural `(price, sequence)` order.
pub open spec fn min_entry_idx(s: Seq<(u64, OpenLimitOrder)>) -> int
    decreases s.len(),
{
    if s.len() <= 1 {
        0
    } else {
        let m = min_entry_idx(s.drop_last());
        if entry_nat_before(s.last(), s[m]) {
            s.len() - 1
        } else {
            m
        }
    }
}

/// The index of the entry greatest in natural `(price, sequence)` order.
pub open spec fn max_entry_idx(s: Seq<(u64, OpenLimitOrder)>) -> int
    decreases s.len(),
{
    if s.len() <= 1 {
        0
    } else {
        let m = max_entry_idx(s.drop_last());
        if entry_nat_before(s[m], s.last()) {
            s.len() - 1
        } else {
            m
        }
    }
}

/// An entry as a side hands it out: price, side, and rank filled in from
/// the entry's position.
pub open spec fn init_entry(
    s: Seq<(u64, OpenLimitOrder)>,
    reverse: bool,
    i: int,
) -> OpenLimitOrder {
    OpenLimitOrder {
        limit_price_lots: Some(s[i].0),
        side: Some(
            if reverse {
                Side::Buy
            } else {
                Side::Sell
            },
        ),
        price_rank: Some(rank_spec(s, reverse, s[i].0) as u32),
        ..s[i].1
    }
}

impl VecL2 {
    /// The entry sequence this side holds.
    pub open spec fn entries(self) -> Seq<(u64, OpenLimitOrder)> {
        self.orders@
    }

    /// Well-formed: strictly sorted by `(effective price, sequence number)`.
    /// Strictness makes `(price, sequence number)` keys unique.
    pub open spec fn wf(self) -> bool {
        sorted_entries(self.orders@, self.reverse_prices)
    }

    /// The side this container represents, derived from its sort direction.
    pub open spec fn spec_side(self) -> Side {
        if self.reverse_prices {
            Side::Buy
        } else {
            Side::Sell
        }
    }

    /// An entry as it is handed out: price, side, and rank filled in.
    pub open spec fn init_order(self, i: int) -> OpenLimitOrder {
        init_entry(self.orders@, self.reverse_prices, i)
    }

    /// An empty side.
    pub fn new(reverse_prices: bool) -> (r: VecL2)
        ensures
            r.entries() =~= Seq::<(u64, OpenLimitOrder)>::empty(),
            r.reverse_prices == reverse_prices,
            r.wf(),
    {
        VecL2 { orders: Vec::new(), reverse_prices }
    }

    /// Whether the side holds no orders.
    pub fn is_empty(&self) -> (r: bool)
        ensures
            r == (self.entries().len() == 0),
    {
        self.orders.len() == 0
    }

    fn side(&self) -> (r: Side)
        ensures
            r == self.spec_side(),
    {
        if self.reverse_prices {
            Side::Buy
        } else {
            Side::Sell
        }
    }

    /// Get the dense rank of a price level (see [`rank_spec`]).
    pub fn get_price_rank(&self, price_lots: LotBalance) -> (r: u32)
        requires
            self.entries().len() < u32::MAX,
        ensures
            r == rank_spec(self.entries(), self.reverse_prices, price_lots),
    {
        let reverse = self.reverse_prices;
        let n = self.orders.len();
        let mut count: u32 = 0;
        let mut i: usize = 0;
        proof {
            assert(self.orders@.take(0) =~= Seq::<(u64, OpenLimitOrder)>::empty());
            assert(price_levels(self.orders@.take(0)).filter(
                |q: u64| eff_price(reverse, q) < eff_price(reverse, price_lots),
            ) =~= Seq::<u64>::empty());
        }
        while i < n
            invariant
                n == self.orders@.len() < u32::MAX,
                reverse == self.reverse_prices,
                i <= n,
                count == rank_spec(self.orders@.take(i as int), reverse, price_lots),
                count <= i,
            decreases n - i,
        {
            let e_price = self.orders[i].0;
            let is_new_level = i == 0 || self.orders[i - 1].0 != e_price;
            let better = if reverse {
                e_price > price_lots
            } else {
                e_price < price_lots
            };
            proof {
                let pred = |q: u64| eff_price(reverse, q) < eff_price(reverse, price_lots);
                let t0 = self.orders@.take(i as int);
                let t1 = self.orders@.take(i + 1);
                assert(t1.drop_last() =~= t0);
                assert(t1.last() == self.orders@[i as int]);
                reveal_with_fuel(Seq::filter, 2);
                if i > 0 {
                    assert(t1[i - 1] == self.orders@[i - 1]);
                }
                if is_new_level {
                    assert(price_levels(t1) == price_levels(t0).push(e_price));
                    let lv = price_levels(t0);
                    assert(lv.push(e_price).drop_last() =~= lv);
                    assert(lv.push(e_price).last() == e_price);
                    assert(lv.push(e_price).filter(pred) == if pred(e_price) {
                        lv.filter(pred).push(e_price)
                    } else {
                        lv.filter(pred)
                    });
                } else {
                    assert(price_levels(t1) == price_levels(t0));
                }
                assert(pred(e_price) == better);
                assert(price_levels(t0).filter(pred).len() <= price_levels(t0).len());
                lemma_price_levels_len(t0);
            }
            if is_new_level && better {
                count = count + 1;
            }
            i = i + 1;
        }
        proof {
            assert(self.orders@.take(n as int) =~= self.orders@);
        }
        count
    }

    /// Whether the entry at `i` sorts strictly before the given key.
    fn entry_key_before(&self, i: usize, price: u64, seq: u64) -> (r: bool)
        requires
            i < self.entries().len(),
        ensures
            r == key_before(
                self.reverse_prices,
                self.entries()[i as int].0,
                self.entries()[i as int].1.sequence_number,
                price,
                seq,
            ),
    {
        let p = self.orders[i].0;
        let s = self.orders[i].1.sequence_number;
        if self.reverse_prices {
            p > price || (p == price && s < seq)
        } else {
            p < price || (p == price && s < seq)
        }
    }

    /// Whether the entry at `i` has exactly the given key.
    fn entry_key_matches(&self, i: usize, price: u64, seq: u64) -> (r: bool)
        requires
            i < self.entries().len(),
        ensures
            r == key_matches(self.entries()[i as int], price, seq),
    {
        self.orders[i].0 == price && self.orders[i].1.sequence_number == seq
    }

    /// Save an order: replace the entry with the same `(price, sequence
    /// number)` key if one rests here, insert at the sort position otherwise.
    pub fn save_order(&mut self, order: OpenLimitOrder)
        requires
            old(self).wf(),
            order.limit_price_lots is Some,
            old(self).entries().len() < usize::MAX,
        ensures
            final(self).orders@ == save_spec(
                old(self).orders@,
                old(self).reverse_prices,
                (order.limit_price_lots.unwrap(), order),
            ),
            final(self).reverse_prices == old(self).reverse_prices,
            final(self).wf(),
    {
        let price = order.unwrap_price();
        let seq = order.sequence_number;
        let ghost e = (order.limit_price_lots.unwrap(), order);
        let ghost s = self.orders@;
        let ghost reverse = self.reverse_prices;
        let n = self.orders.len();
        let mut i: usize = 0;
        while i < n && self.entry_key_before(i, price, seq)
            invariant
                *self == *old(self),
                n == s.len(),
                s == self.orders@,
                reverse == self.reverse_prices,
                e.0 == price,
                e.1.sequence_number == seq,
                i <= n,
                forall|j: int| 0 <= j < i ==> entry_before(reverse, #[trigger] s[j], e),
            decreases n - i,
        {
            i = i + 1;
        }
        proof {
            lemma_save_spec_at(s, reverse, e, i as int);
        }
        if i < n && self.entry_key_matches(i, price, seq) {
            let _ = self.orders.remove(i);
            self.orders.insert(i, (price, order));
            proof {
                assert(self.orders@ =~= s.update(i as int, e));
                assert forall|a: int, b: int| 0 <= a < b < self.orders@.len() implies entry_before(
                    reverse,
                    self.orders@[a],
                    self.orders@[b],
                ) by {
                    assert(entry_before(reverse, s[a], s[b]));
                }
            }
        } else {
            self.orders.insert(i, (price, order));
            proof {
                assert(self.orders@ =~= s.insert(i as int, e));
                if i < n {
                    assert(entry_before(reverse, e, s[i as int]));
                }
                assert forall|a: int, b: int| 0 <= a < b < self.orders@.len() implies entry_before(
                    reverse,
                    self.orders@[a],
                    self.orders@[b],
                ) by {
                    let ia = i as int;
                    if a < ia && b == ia {
                        assert(entry_before(reverse, s[a], e));
                    } else if a == ia && b > ia {
                        assert(entry_before(reverse, s[ia], s[b - 1]) || ia == b - 1);
                        if ia < b - 1 {
                            assert(entry_before(reverse, e, s[ia]));
                            assert(entry_before(reverse, s[ia], s[b - 1]));
                        }
                    } else if a < ia && b > ia {
                        assert(entry_before(reverse, s[a], s[b - 1]) || a == b - 1);
                    } else if a > ia && b > ia {
                        assert(entry_before(reverse, s[a - 1], s[b - 1]));
                    }
                }
            }
        }
    }

    /// Look up a resting order by its `(price, sequence number)` key. The
    /// returned copy has price, side, and rank filled in.
    pub fn get_order(&self, price_lots: LotBalance, seq: SequenceNumber) -> (r: Option<
        OpenLimitOrder,
    >)
        requires
            self.wf(),
            self.entries().len() < u32::MAX,
        ensures
            has_key(self.entries(), price_lots, seq) ==> (r matches Some(o) && o
                == self.init_order(idx_of(self.entries(), price_lots, seq))),
            !has_key(self.entries(), price_lots, seq) ==> r is None,
    {
        let ghost s = self.orders@;
        let n = self.orders.len();
        let mut i: usize = 0;
        while i < n
            invariant
                self.wf(),
                n == s.len(),
                n < u32::MAX,
                s == self.orders@,
                i <= n,
                forall|j: int| 0 <= j < i ==> !key_matches(#[trigger] s[j], price_lots, seq),
            decreases n - i,
        {
            if self.entry_key_matches(i, price_lots, seq) {
                let rank = self.get_price_rank(price_lots);
                let mut out = self.orders[i].1.clone();
                out.initialize_price(price_lots);
                out.initialize_side(self.side());
                out.initialize_price_rank(rank);
                proof {
                    lemma_key_unique(
                        s,
                        self.reverse_prices,
                        i as int,
                        idx_of(s, price_lots, seq),
                        price_lots,
                        seq,
                    );
                }
                return Some(out);
            }
            i = i + 1;
        }
        None
    }

    /// Remove a resting order by its `(price, sequence number)` key,
    /// returning it with price, side, and rank filled in. Removing an absent
    /// key changes nothing.
    pub fn delete_order(&mut self, price_lots: LotBalance, seq: SequenceNumber) -> (r: Option<
        OpenLimitOrder,
    >)
        requires
            old(self).wf(),
            old(self).entries().len() < u32::MAX,
        ensures
            final(self).reverse_prices == old(self).reverse_prices,
            final(self).wf(),
            has_key(old(self).entries(), price_lots, seq) ==> (r matches Some(o) && o == old(
                self,
            ).init_order(idx_of(old(self).entries(), price_lots, seq)) && final(self).orders@
                == old(self).orders@.remove(idx_of(old(self).entries(), price_lots, seq))),
            !has_key(old(self).entries(), price_lots, seq) ==> r is None && *final(self) == *old(
                self,
            ),
    {
        let ghost s = self.orders@;
        let ghost reverse = self.reverse_prices;
        let n = self.orders.len();
        let mut i: usize = 0;
        while i < n
            invariant
                *self == *old(self),
                self.wf(),
                n == s.len(),
                n < u32::MAX,
                s == self.orders@,
                reverse == self.reverse_prices,
                i <= n,
                forall|j: int| 0 <= j < i ==> !key_matches(#[trigger] s[j], price_lots, seq),
            decreases n - i,
        {
            if self.entry_key_matches(i, price_lots, seq) {
                let rank = self.get_price_rank(price_lots);
                let side = self.side();
                let entry = self.orders.remove(i);
                let mut out = entry.1;
                out.initialize_price(price_lots);
                out.initialize_side(side);
                out.initialize_price_rank(rank);
                proof {
                    lemma_key_unique(s, reverse, i as int, idx_of(s, price_lots, seq), price_lots, seq);
                    assert forall|a: int, b: int|
                        0 <= a < b < self.orders@.len() implies entry_before(
                        reverse,
                        self.orders@[a],
                        self.orders@[b],
                    ) by {
                        let ia = i as int;
                        if b < ia {
                            assert(entry_before(reverse, s[a], s[b]));
                        } else if a < ia {
                            assert(entry_before(reverse, s[a], s[b + 1]));
                        } else {
                            assert(entry_before(reverse, s[a + 1], s[b + 1]));
                        }
                    }
                }
                return Some(out);
            }
            i = i + 1;
        }
        None
    }

    /// Return number of unique price levels.
    pub fn unique_prices_count(&self) -> (r: u32)
        requires
            self.entries().len() < u32::MAX,
        ensures
            r == price_levels(self.entries()).len(),
    {
        let n = self.orders.len();
        let mut count: u32 = 0;
        let mut i: usize = 0;
        proof {
            assert(self.orders@.take(0) =~= Seq::<(u64, OpenLimitOrder)>::empty());
        }
        while i < n
            invariant
                n == self.orders@.len() < u32::MAX,
                i <= n,
                count == price_levels(self.orders@.take(i as int)).len(),
                count <= i,
            decreases n - i,
        {
            let e_price = self.orders[i].0;
            let is_new_level = i == 0 || self.orders[i - 1].0 != e_price;
            proof {
                let t0 = self.orders@.take(i as int);
                let t1 = self.orders@.take(i + 1);
                assert(t1.drop_last() =~= t0);
                assert(t1.last() == self.orders@[i as int]);
                if i > 0 {
                    assert(t1[i - 1] == self.orders@[i - 1]);
                }
                lemma_price_levels_len(t0);
            }
            if is_new_level {
                count = count + 1;
            }
            i = i + 1;
        }
        proof {
            assert(self.orders@.take(n as int) =~= self.orders@);
        }
        count
    }
}

/// Native base locked by a sequence of ask entries: the sum of
/// `open_qty_lots * base_lot_size`.
pub open spec fn side_base_locked(s: Seq<(u64, OpenLimitOrder)>, base_lot_size: int) -> int
    decreases s.len(),
{
    if s.len() == 0 {
        0
    } else {
        side_base_locked(s.drop_last(), base_lot_size) + s.last().1.open_qty_lots * base_lot_size
    }
}

/// Native quote locked by a sequence of bid entries: the sum of each bid's
/// quote value.
pub open spec fn side_quote_locked(
    s: Seq<(u64, OpenLimitOrder)>,
    base_lot_size: int,
    quote_lot_size: int,
    base_denomination: int,
) -> int
    decreases s.len(),
{
    if s.len() == 0 {
        0
    } else {
        side_quote_locked(s.drop_last(), base_lot_size, quote_lot_size, base_denomination)
            + crate::calculator::bid_quote_value_spec(
            s.last().1.open_qty_lots as int,
            s.last().0 as int,
            base_lot_size,
            quote_lot_size,
            base_denomination,
        )
    }
}

/// The locked-value sums of a side stay computable: every term and the total
/// fit their machine widths.
pub open spec fn side_tvl_in_range(
    s: Seq<(u64, OpenLimitOrder)>,
    reverse: bool,
    base_lot_size: int,
    quote_lot_size: int,
    base_denomination: int,
) -> bool {
    if reverse {
        &&& forall|i: int|
            0 <= i < s.len() ==> crate::calculator::bid_quote_value_in_range(
                (#[trigger] s[i]).1.open_qty_lots as int,
                s[i].0 as int,
                base_lot_size,
                quote_lot_size,
                base_denomination,
            )
        &&& side_quote_locked(s, base_lot_size, quote_lot_size, base_denomination)
            < crate::bn::b128()
    } else {
        &&& forall|i: int|
            0 <= i < s.len() ==> (#[trigger] s[i]).1.open_qty_lots * base_lot_size
                < crate::bn::b128()
        &&& side_base_locked(s, base_lot_size) < crate::bn::b128()
    }
}

/// Every term of the base-locked sum is nonnegative, so prefixes are bounded
/// by the whole.
pub proof fn lemma_side_base_prefix(s: Seq<(u64, OpenLimitOrder)>, base_lot_size: int, i: int)
    requires
        base_lot_size >= 0,
        0 <= i <= s.len(),
    ensures
        0 <= side_base_locked(s.take(i), base_lot_size) <= side_base_locked(s, base_lot_size),
    decreases s.len(),
{
    if s.len() == 0 {
        assert(s.take(i) =~= s);
    } else {
        vstd::arithmetic::mul::lemma_mul_nonnegative(
            s.last().1.open_qty_lots as int,
            base_lot_size,
        );
        if i == s.len() {
            assert(s.take(i) =~= s);
            lemma_side_base_prefix(s.drop_last(), base_lot_size, s.len() - 1);
        } else {
            assert(s.take(i) =~= s.drop_last().take(i));
            lemma_side_base_prefix(s.drop_last(), base_lot_size, i);
        }
    }
}

/// Every term of the quote-locked sum is nonnegative, so prefixes are
/// bounded by the whole.
pub proof fn lemma_side_quote_prefix(
    s: Seq<(u64, OpenLimitOrder)>,
    base_lot_size: int,
    quote_lot_size: int,
    base_denomination: int,
    i: int,
)
    requires
        base_lot_size >= 0,
        quote_lot_size >= 0,
        base_denomination > 0,
        0 <= i <= s.len(),
    ensures
        0 <= side_quote_locked(s.take(i), base_lot_size, quote_lot_size, base_denomination)
            <= side_quote_locked(s, base_lot_size, quote_lot_size, base_denomination),
    decreases s.len(),
{
    if s.len() == 0 {
        assert(s.take(i) =~= s);
    } else {
        let o = s.last().1.open_qty_lots as int;
        let p = s.last().0 as int;
        vstd::arithmetic::mul::lemma_mul_nonnegative(o, base_lot_size);
        vstd::arithmetic::mul::lemma_mul_nonnegative(o * base_lot_size, p);
        vstd::arithmetic::mul::lemma_mul_nonnegative(o * base_lot_size * p, quote_lot_size);
        vstd::arithmetic::div_mod::lemma_div_pos_is_pos(
            o * base_lot_size * p * quote_lot_size,
            base_denomination,
        );
        if i == s.len() {
            assert(s.take(i) =~= s);
            lemma_side_quote_prefix(
                s.drop_last(),
                base_lot_size,
                quote_lot_size,
                base_denomination,
                s.len() - 1,
            );
        } else {
            assert(s.take(i) =~= s.drop_last().take(i));
            lemma_side_quote_prefix(
                s.drop_last(),
                base_lot_size,
                quote_lot_size,
                base_denomination,
                i,
            );
        }
    }
}

/// Entries strictly sorted by `(effective price, sequence number)`.
pub open spec fn sorted_entries(s: Seq<(u64, OpenLimitOrder)>, reverse: bool) -> bool {
    forall|i: int, j: int|
        0 <= i < j < s.len() ==> entry_before(reverse, #[trigger] s[i], #[trigger] s[j])
}

/// Two sorted entries with the same key sit at the same index.
pub proof fn lemma_key_unique(
    s: Seq<(u64, OpenLimitOrder)>,
    reverse: bool,
    i: int,
    j: int,
    price: u64,
    seq: u64,
)
    requires
        sorted_entries(s, reverse),
        0 <= i < s.len(),
        0 <= j < s.len(),
        key_matches(s[i], price, seq),
        key_matches(s[j], price, seq),
    ensures
        i == j,
{
    if i < j {
        assert(entry_before(reverse, s[i], s[j]));
    }
    if j < i {
        assert(entry_before(reverse, s[j], s[i]));
    }
}

/// Where `save_spec` lands, given the sort position of the new entry: it
/// replaces in place when the key at that position matches, and inserts
/// there otherwise.
pub proof fn lemma_save_spec_at(
    s: Seq<(u64, OpenLimitOrder)>,
    reverse: bool,
    e: (u64, OpenLimitOrder),
    i: int,
)
    requires
        0 <= i <= s.len(),
        forall|j: int| 0 <= j < i ==> entry_before(reverse, #[trigger] s[j], e),
        i < s.len() ==> !entry_before(reverse, s[i], e),
    ensures
        i < s.len() && key_matches(s[i], e.0, e.1.sequence_number) ==> save_spec(s, reverse, e)
            == s.update(i, e),
        !(i < s.len() && key_matches(s[i], e.0, e.1.sequence_number)) ==> save_spec(s, reverse, e)
            == s.insert(i, e),
    decreases s.len(),
{
    if s.len() == 0 {
        assert(save_spec(s, reverse, e) =~= s.insert(0, e));
    } else if i == 0 {
        if key_matches(s[0], e.0, e.1.sequence_number) {
        } else {
            // trichotomy: neither before nor key-equal means the new entry
            // sorts strictly earlier
            assert(entry_before(reverse, e, s[0]));
        }
    } else {
        assert(entry_before(reverse, s[0], e));
        assert(!key_matches(s[0], e.0, e.1.sequence_number));
        assert(!entry_before(reverse, e, s[0]));
        let rest = s.skip(1);
        assert(forall|j: int| 0 <= j < i - 1 ==> entry_before(reverse, #[trigger] rest[j], e));
        lemma_save_spec_at(rest, reverse, e, i - 1);
        if i < s.len() && key_matches(s[i], e.0, e.1.sequence_number) {
            assert(rest[i - 1] == s[i]);
            assert(save_spec(s, reverse, e) == seq![s[0]] + rest.update(i - 1, e));
            assert(seq![s[0]] + rest.update(i - 1, e) =~= s.update(i, e));
        } else {
            assert(save_spec(s, reverse, e) == seq![s[0]] + rest.insert(i - 1, e));
            assert(seq![s[0]] + rest.insert(i - 1, e) =~= s.insert(i, e));
        }
    }
}

/// There are no more price levels than entries.
pub proof fn lemma_price_levels_len(s: Seq<(u64, OpenLimitOrder)>)
    ensures
        price_levels(s).len() <= s.len(),
    decreases s.len(),
{
    if s.len() > 0 {
        lemma_price_levels_len(s.drop_last());
    }
}


} // verus!

verus! {

impl VecL2 {
    /// Whether entry `i` comes before entry `j` in natural `(price,
    /// sequence)` order.
    fn entry_nat_before_at(&self, i: usize, j: usize) -> (r: bool)
        requires
            i < self.entries().len(),
            j < self.entries().len(),
        ensures
            r == entry_nat_before(self.entries()[i as int], self.entries()[j as int]),
    {
        let pi = self.orders[i].0;
        let si = self.orders[i].1.sequence_number;
        let pj = self.orders[j].0;
        let sj = self.orders[j].1.sequence_number;
        pi < pj || (pi == pj && si < sj)
    }

    /// The order with the least `(price, sequence number)` in natural order,
    /// with price, side, and rank filled in; `None` on an empty side.
    pub fn min_order(&self) -> (r: Option<OpenLimitOrder>)
        requires
            self.entries().len() < u32::MAX,
        ensures
            self.entries().len() == 0 ==> r is None,
            self.entries().len() > 0 ==> (r matches Some(o) && o == self.init_order(
                min_entry_idx(self.entries()),
            )),
    {
        let ghost s = self.orders@;
        let n = self.orders.len();
        if n == 0 {
            return None;
        }
        let mut best: usize = 0;
        let mut i: usize = 1;
        proof {
            assert(s.take(1).len() == 1);
            assert(min_entry_idx(s.take(1)) == 0);
        }
        while i < n
            invariant
                n == s.len(),
                n < u32::MAX,
                s == self.orders@,
                1 <= i <= n,
                best < i,
                best == min_entry_idx(s.take(i as int)),
            decreases n - i,
        {
            proof {
                let t1 = s.take(i + 1);
                assert(t1.drop_last() =~= s.take(i as int));
                assert(t1.last() == s[i as int]);
                assert(t1[best as int] == s[best as int]);
            }
            if self.entry_nat_before_at(i, best) {
                best = i;
            }
            i = i + 1;
        }
        proof {
            assert(s.take(n as int) =~= s);
        }
        let rank = self.get_price_rank(self.orders[best].0);
        let mut out = self.orders[best].1.clone();
        out.initialize_price(self.orders[best].0);
        out.initialize_side(self.side());
        out.initialize_price_rank(rank);
        Some(out)
    }

    /// The order with the greatest `(price, sequence number)` in natural
    /// order, with price, side, and rank filled in; `None` on an empty side.
    pub fn max_order(&self) -> (r: Option<OpenLimitOrder>)
        requires
            self.entries().len() < u32::MAX,
        ensures
            self.entries().len() == 0 ==> r is None,
            self.entries().len() > 0 ==> (r matches Some(o) && o == self.init_order(
                max_entry_idx(self.entries()),
            )),
    {
        let ghost s = self.orders@;
        let n = self.orders.len();
        if n == 0 {
            return None;
        }
        let mut best: usize = 0;
        let mut i: usize = 1;
        proof {
            assert(s.take(1).len() == 1);
            assert(max_entry_idx(s.take(1)) == 0);
        }
        while i < n
            invariant
                n == s.len(),
                n < u32::MAX,
                s == self.orders@,
                1 <= i <= n,
                best < i,
                best == max_entry_idx(s.take(i as int)),
            decreases n - i,
        {
            proof {
                let t1 = s.take(i + 1);
                assert(t1.drop_last() =~= s.take(i as int));
                assert(t1.last() == s[i as int]);
                assert(t1[best as int] == s[best as int]);
            }
            if self.entry_nat_before_at(best, i) {
                best = i;
            }
            i = i + 1;
        }
        proof {
            assert(s.take(n as int) =~= s);
        }
        let rank = self.get_price_rank(self.orders[best].0);
        let mut out = self.orders[best].1.clone();
        out.initialize_price(self.orders[best].0);
        out.initialize_side(self.side());
        out.initialize_price_rank(rank);
        Some(out)
    }

    /// Orders in container order with price, side, and rank filled in; the
    /// name kept from the lazily-initializing iterator this hands out.
    pub fn initializing_iter(&self) -> (r: Vec<OpenLimitOrder>)
        requires
            self.entries().len() < u32::MAX,
        ensures
            r@.len() == self.entries().len(),
            forall|i: int| 0 <= i < r@.len() ==> r@[i] == self.init_order(i),
    {
        self.iter()
    }

    /// All orders in container order (best-priced first), each with price,
    /// side, and rank filled in.
    pub fn iter(&self) -> (r: Vec<OpenLimitOrder>)
        requires
            self.entries().len() < u32::MAX,
        ensures
            r@.len() == self.entries().len(),
            forall|i: int| 0 <= i < r@.len() ==> r@[i] == self.init_order(i),
    {
        let ghost s = self.orders@;
        let n = self.orders.len();
        let mut out: Vec<OpenLimitOrder> = Vec::new();
        let mut i: usize = 0;
        while i < n
            invariant
                n == s.len(),
                n < u32::MAX,
                s == self.orders@,
                i <= n,
                out@.len() == i,
                forall|j: int| 0 <= j < i ==> out@[j] == self.init_order(j),
            decreases n - i,
        {
            let rank = self.get_price_rank(self.orders[i].0);
            let mut o = self.orders[i].1.clone();
            o.initialize_price(self.orders[i].0);
            o.initialize_side(self.side());
            o.initialize_price_rank(rank);
            out.push(o);
            i = i + 1;
        }
        out
    }

    /// The native value locked by every order resting on this side: base for
    /// an ask side, quote for a bid side.
    pub fn value_locked(
        &self,
        base_lot_size: u128,
        quote_lot_size: u128,
        base_denomination: u128,
    ) -> (r: crate::tvl::Tvl)
        requires
            base_denomination > 0,
            side_tvl_in_range(
                self.entries(),
                self.reverse_prices,
                base_lot_size as int,
                quote_lot_size as int,
                base_denomination as int,
            ),
        ensures
            self.reverse_prices ==> r.base_locked == 0 && r.quote_locked == side_quote_locked(
                self.entries(),
                base_lot_size as int,
                quote_lot_size as int,
                base_denomination as int,
            ),
            !self.reverse_prices ==> r.quote_locked == 0 && r.base_locked == side_base_locked(
                self.entries(),
                base_lot_size as int,
            ),
    {
        let ghost s = self.orders@;
        let reverse = self.reverse_prices;
        let n = self.orders.len();
        let mut acc: u128 = 0;
        let mut i: usize = 0;
        proof {
            assert(s.take(0) =~= Seq::<(u64, OpenLimitOrder)>::empty());
        }
        if reverse {
            while i < n
                invariant
                    reverse == self.reverse_prices,
                    reverse,
                    base_denomination > 0,
                    n == s.len(),
                    s == self.orders@,
                    side_tvl_in_range(
                        s,
                        reverse,
                        base_lot_size as int,
                        quote_lot_size as int,
                        base_denomination as int,
                    ),
                    i <= n,
                    acc == side_quote_locked(
                        s.take(i as int),
                        base_lot_size as int,
                        quote_lot_size as int,
                        base_denomination as int,
                    ),
                decreases n - i,
            {
                proof {
                    let t1 = s.take(i + 1);
                    assert(t1.drop_last() =~= s.take(i as int));
                    assert(t1.last() == s[i as int]);
                    lemma_side_quote_prefix(
                        s,
                        base_lot_size as int,
                        quote_lot_size as int,
                        base_denomination as int,
                        i + 1,
                    );
                    lemma_side_quote_prefix(
                        s,
                        base_lot_size as int,
                        quote_lot_size as int,
                        base_denomination as int,
                        i as int,
                    );
                }
                let v = crate::calculator::get_bid_quote_value(
                    self.orders[i].1.open_qty_lots,
                    self.orders[i].0,
                    base_lot_size,
                    quote_lot_size,
                    base_denomination,
                );
                acc = acc + v;
                i = i + 1;
            }
            proof {
                assert(s.take(n as int) =~= s);
            }
            crate::tvl::Tvl { base_locked: 0, quote_locked: acc }
        } else {
            while i < n
                invariant
                    reverse == self.reverse_prices,
                    !reverse,
                    n == s.len(),
                    s == self.orders@,
                    side_tvl_in_range(
                        s,
                        reverse,
                        base_lot_size as int,
                        quote_lot_size as int,
                        base_denomination as int,
                    ),
                    i <= n,
                    acc == side_base_locked(s.take(i as int), base_lot_size as int),
                decreases n - i,
            {
                proof {
                    let t1 = s.take(i + 1);
                    assert(t1.drop_last() =~= s.take(i as int));
                    assert(t1.last() == s[i as int]);
                    lemma_side_base_prefix(s, base_lot_size as int, i + 1);
                    lemma_side_base_prefix(s, base_lot_size as int, i as int);
                    vstd::arithmetic::mul::lemma_mul_nonnegative(
                        s[i as int].1.open_qty_lots as int,
                        base_lot_size as int,
                    );
                }
                let v = (self.orders[i].1.open_qty_lots as u128) * base_lot_size;
                acc = acc + v;
                i = i + 1;
            }
            proof {
                assert(s.take(n as int) =~= s);
            }
            crate::tvl::Tvl { base_locked: acc, quote_locked: 0 }
        }
    }
}


/// Accumulator for the depth view: completed levels, the price of the level
/// being collected, and its orders so far.
pub ghost struct DepthState {
    pub ret: Seq<(u64, Seq<OpenLimitOrder>)>,
    pub curr_price: Option<u64>,
    pub curr_acc: Seq<OpenLimitOrder>,
}

/// The depth-view scan from entry `i` onward: group consecutive entries of
/// one price into a level, and stop once `depth` levels are complete.
pub open spec fn depth_from(
    s: Seq<(u64, OpenLimitOrder)>,
    reverse: bool,
    depth: int,
    i: int,
    st: DepthState,
) -> DepthState
    decreases s.len() - i,
{
    if i < 0 || i >= s.len() || st.ret.len() >= depth {
        st
    } else {
        let o = init_entry(s, reverse, i);
        let price = s[i].0;
        let st1 = if st.curr_price is None {
            DepthState { curr_price: Some(price), ..st }
        } else {
            st
        };
        let st2 = if st1.curr_price.unwrap() != price {
            DepthState {
                ret: st1.ret.push((st1.curr_price.unwrap(), st1.curr_acc)),
                curr_price: Some(price),
                curr_acc: Seq::empty(),
            }
        } else {
            st1
        };
        depth_from(
            s,
            reverse,
            depth,
            i + 1,
            DepthState { curr_acc: st2.curr_acc.push(o), ..st2 },
        )
    }
}

/// The depth view of a side: up to `depth` complete price levels, best
/// first, each with its orders in time priority, plus the level being
/// collected when the scan stopped mid-level.
pub open spec fn take_depth_spec(
    s: Seq<(u64, OpenLimitOrder)>,
    reverse: bool,
    depth: int,
) -> Seq<(u64, Seq<OpenLimitOrder>)> {
    let st = depth_from(
        s,
        reverse,
        depth,
        0,
        DepthState { ret: Seq::empty(), curr_price: None, curr_acc: Seq::empty() },
    );
    if st.curr_acc.len() > 0 {
        st.ret.push((st.curr_price.unwrap(), st.curr_acc))
    } else {
        st.ret
    }
}

} // verus!

verus! {

impl VecL2 {
    /// Produce a vector of (price, orders at that price), best-priced level
    /// first, scanning until `depth` levels are complete.
    pub fn take_depth(&self, depth: usize) -> (r: Vec<(LotBalance, Vec<OpenLimitOrder>)>)
        requires
            self.entries().len() < u32::MAX,
        ensures
            ({
                let d = take_depth_spec(self.entries(), self.reverse_prices, depth as int);
                &&& r@.len() == d.len()
                &&& forall|k: int|
                    0 <= k < d.len() ==> (#[trigger] r@[k]).0 == d[k].0 && r@[k].1@ == d[k].1
            }),
    {
        let ghost s = self.orders@;
        let ghost rev = self.reverse_prices;
        let ghost d = depth as int;
        let ghost init_st = DepthState {
            ret: Seq::<(u64, Seq<OpenLimitOrder>)>::empty(),
            curr_price: None::<u64>,
            curr_acc: Seq::<OpenLimitOrder>::empty(),
        };
        let orders = self.iter();
        let n = orders.len();
        proof {
            assert forall|j: int| 0 <= j < n implies orders@[j] == init_entry(s, rev, j) by {
                assert(orders@[j] == self.init_order(j));
            }
        }
        let mut ret: Vec<(LotBalance, Vec<OpenLimitOrder>)> = Vec::new();
        let ghost mut retg: Seq<(u64, Seq<OpenLimitOrder>)> = Seq::empty();
        let mut curr_acc: Vec<OpenLimitOrder> = Vec::new();
        let mut curr_price: Option<LotBalance> = None;
        let mut i: usize = 0;
        while i < n && ret.len() < depth
            invariant
                s == self.orders@,
                rev == self.reverse_prices,
                d == depth as int,
                n == s.len(),
                n < u32::MAX,
                orders@.len() == n,
                forall|j: int| 0 <= j < n ==> orders@[j] == init_entry(s, rev, j),
                i <= n,
                retg.len() == ret@.len(),
                forall|k: int|
                    0 <= k < retg.len() ==> (#[trigger] ret@[k]).0 == retg[k].0 && ret@[k].1@
                        == retg[k].1,
                curr_acc@.len() > 0 ==> curr_price is Some,
                depth_from(s, rev, d, 0, init_st) == depth_from(
                    s,
                    rev,
                    d,
                    i as int,
                    DepthState { ret: retg, curr_price: curr_price, curr_acc: curr_acc@ },
                ),
            decreases n - i,
        {
            let ghost cur = DepthState { ret: retg, curr_price: curr_price, curr_acc: curr_acc@ };
            let o = orders[i].clone();
            proof {
                assert(o == init_entry(s, rev, i as int));
            }
            let price = o.unwrap_price();
            if curr_price.is_none() {
                curr_price = Some(price);
            }
            let cp = match curr_price {
                Some(p) => p,
                None => vstd::pervasive::unreached(),
            };
            if cp != price {
                let ghost accg = curr_acc@;
                ret.push((cp, curr_acc));
                curr_acc = Vec::new();
                curr_price = Some(price);
                proof {
                    retg = retg.push((cp, accg));
                }
            }
            curr_acc.push(o);
            proof {
                let next = DepthState { ret: retg, curr_price: curr_price, curr_acc: curr_acc@ };
                assert(depth_from(s, rev, d, i as int, cur) == depth_from(s, rev, d, i + 1, next));
            }
            i = i + 1;
        }
        if curr_acc.len() > 0 {
            let cp = match curr_price {
                Some(p) => p,
                None => vstd::pervasive::unreached(),
            };
            let ghost accg = curr_acc@;
            ret.push((cp, curr_acc));
            proof {
                retg = retg.push((cp, accg));
            }
        }
        ret
    }
}

} // verus!
