//! Order identifiers.
//!
//! An order ID packs the order direction, sequence number, and price into one
//! 128-bit value:
//!
//! ```text
//! [ side | sequence number | price in lots ]
//!   1 bit  63 bits           64 bits
//! ```
//!
//! The packing is total, and a round trip recovers the parts exactly whenever
//! the sequence number fits its 63 bits.

use crate::side::Side;
use vstd::arithmetic::div_mod::{
    lemma_div_is_ordered, lemma_fundamental_div_mod_converse, lemma_mod_division_less_than_divisor,
};
use vstd::prelude::*;

verus! {

/// 2^127: the side bit.
const SIDE_BIT: u128 = 0x8000_0000_0000_0000_0000_0000_0000_0000;

/// 2^64: the width of the price field.
const PRICE_SPAN: u128 = 0x1_0000_0000_0000_0000;

/// 2^63: the modulus that confines a sequence number to its 63 bits.
const SEQ_MOD: u64 = 0x8000_0000_0000_0000;

/// 2^127 as a spec-level integer.
pub open spec fn side_bit() -> int {
    0x8000_0000_0000_0000_0000_0000_0000_0000
}

/// 2^64 as a spec-level integer.
pub open spec fn price_span() -> int {
    0x1_0000_0000_0000_0000
}

/// 2^63 as a spec-level integer.
pub open spec fn seq_mod() -> int {
    0x8000_0000_0000_0000
}

/// The packed value an order ID holds for the given parts.
pub open spec fn order_id_value(side: Side, price: u64, sequence_number: u64) -> int {
    (if side == Side::Buy {
        side_bit()
    } else {
        0
    }) + (sequence_number % (seq_mod() as u64)) * price_span() + price
}

/// The side encoded in a packed order-ID value.
pub open spec fn id_side(v: int) -> Side {
    if v >= side_bit() {
        Side::Buy
    } else {
        Side::Sell
    }
}

/// The price encoded in a packed order-ID value.
pub open spec fn id_price(v: int) -> int {
    v % price_span()
}

/// The sequence number encoded in a packed order-ID value.
pub open spec fn id_sequence(v: int) -> int {
    (v % side_bit()) / price_span()
}

/// An order ID that includes the order direction, price, and a sequence
/// number.
#[derive(Debug, PartialEq, Eq, Hash, PartialOrd, Clone, Copy)]
pub struct OrderId(u128);

impl OrderId {
    /// The packed 128-bit value.
    pub closed spec fn val(self) -> u128 {
        self.0
    }

    /// Order ID into side, price, and sequence number.
    pub fn into_parts(self) -> (r: (Side, u64, u64))
        ensures
            r.0 == id_side(self.val() as int),
            r.1 == id_price(self.val() as int),
            r.2 == id_sequence(self.val() as int),
    {
        get_order_id_parts(self)
    }
}

/// Pack side, price, and sequence number into an order ID. A sequence number
/// wider than 63 bits is silently confined to them.
pub fn new_order_id(side: Side, price: u64, sequence_number: u64) -> (r: OrderId)
    ensures
        r.val() == order_id_value(side, price, sequence_number),
{
    let side_part: u128 = match side {
        Side::Buy => SIDE_BIT,
        Side::Sell => 0,
    };
    let sequence_part: u128 = ((sequence_number % SEQ_MOD) as u128) * PRICE_SPAN;
    let price_part: u128 = price as u128;
    OrderId(side_part + sequence_part + price_part)
}

/// Unpack an order ID into side, price, and sequence number.
pub fn get_order_id_parts(oid: OrderId) -> (r: (Side, u64, u64))
    ensures
        r.0 == id_side(oid.val() as int),
        r.1 == id_price(oid.val() as int),
        r.2 == id_sequence(oid.val() as int),
{
    let v = oid.0;
    let side = if v >= SIDE_BIT {
        Side::Buy
    } else {
        Side::Sell
    };
    let price = (v % PRICE_SPAN) as u64;
    let masked = v % SIDE_BIT;
    proof {
        lemma_mod_division_less_than_divisor(v as int, side_bit());
        lemma_div_is_ordered(masked as int, side_bit() - 1, price_span());
        assert((side_bit() - 1) / price_span() == seq_mod() - 1);
    }
    let seq = (masked / PRICE_SPAN) as u64;
    (side, price, seq)
}

/// Packing then unpacking recovers the side, price, and sequence number
/// exactly, for every price and every sequence number in `[1, 2^63)`.
pub proof fn lemma_order_id_round_trip(side: Side, price: u64, sequence_number: u64)
    requires
        1 <= sequence_number < seq_mod(),
    ensures
        id_side(order_id_value(side, price, sequence_number)) == side,
        id_price(order_id_value(side, price, sequence_number)) == price,
        id_sequence(order_id_value(side, price, sequence_number)) == sequence_number,
{
    let s = sequence_number as int;
    let p = price as int;
    let v = order_id_value(side, price, sequence_number);
    assert(sequence_number % (seq_mod() as u64) == sequence_number) by {
        vstd::arithmetic::div_mod::lemma_small_mod(sequence_number as nat, seq_mod() as nat);
    }
    let sp: int = if side == Side::Buy {
        side_bit()
    } else {
        0
    };
    let spq: int = if side == Side::Buy {
        seq_mod()
    } else {
        0
    };
    assert(v == sp + s * price_span() + p);
    assert(sp == spq * price_span());
    // price: v == (spq + s) * price_span() + p with p in range
    assert(v == (spq + s) * price_span() + p);
    lemma_fundamental_div_mod_converse(v, price_span(), spq + s, p);
    // sequence: v % 2^127 == s * 2^64 + p, then divide by 2^64
    let low = s * price_span() + p;
    assert(low < side_bit() && low >= 0);
    let side_q: int = if side == Side::Buy {
        1
    } else {
        0
    };
    assert(v == side_q * side_bit() + low);
    lemma_fundamental_div_mod_converse(v, side_bit(), side_q, low);
    lemma_fundamental_div_mod_converse(low, price_span(), s, p);
    // side: with the low part below 2^127, the comparison reads the side bit
    assert(id_side(v) == side);
}

} // verus!
