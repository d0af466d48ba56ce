//! Lot math: conversions between lot-denominated quantities and native token
//! amounts.
//!
//! Both functions compute in 256-bit space, multiply before dividing, and
//! truncate only at the final narrowing, so no precision is lost to
//! intermediate rounding.

use crate::bn::{b128, b256, b64, BN};
use vstd::arithmetic::mul::{lemma_mul_inequality, lemma_mul_upper_bound};
use vstd::prelude::*;

verus! {

/// Native quote amount a bid pays: `qty * base_lot_size * price *
/// quote_lot_size / base_denomination`, floored.
pub open spec fn bid_quote_value_spec(
    quantity: int,
    price: int,
    base_lot_size: int,
    quote_lot_size: int,
    base_denomination: int,
) -> int
    recommends
        base_denomination > 0,
{
    quantity * base_lot_size * price * quote_lot_size / base_denomination
}

/// Base lots purchasable with a native quote amount at a price:
/// `quote * base_denomination / quote_lot_size / price / base_lot_size`,
/// each division floored.
pub open spec fn base_purchasable_spec(
    quote_amount: int,
    price: int,
    quote_lot_size: int,
    base_lot_size: int,
    base_denomination: int,
) -> int
    recommends
        quote_lot_size > 0,
        price > 0,
        base_lot_size > 0,
{
    quote_amount * base_denomination / quote_lot_size / price / base_lot_size
}

/// The 256-bit product in `bid_quote_value_spec` stays representable.
pub open spec fn bid_quote_value_in_range(
    quantity: int,
    price: int,
    base_lot_size: int,
    quote_lot_size: int,
    base_denomination: int,
) -> bool {
    &&& base_denomination > 0
    &&& quantity * base_lot_size * price * quote_lot_size < b256()
    &&& bid_quote_value_spec(quantity, price, base_lot_size, quote_lot_size, base_denomination)
        < b128()
}

/// The divisors in `base_purchasable_spec` are nonzero and the result fits a
/// 64-bit lot count.
pub open spec fn base_purchasable_in_range(
    quote_amount: int,
    price: int,
    quote_lot_size: int,
    base_lot_size: int,
    base_denomination: int,
) -> bool {
    &&& quote_lot_size > 0
    &&& price > 0
    &&& base_lot_size > 0
    &&& base_purchasable_spec(quote_amount, price, quote_lot_size, base_lot_size, base_denomination)
        < b64()
}

/// The first two multiplications of the quote-value chain can never need more
/// than 256 bits.
proof fn lemma_bid_quote_prefix_bounds(quantity: int, price: int, base_lot_size: int)
    requires
        0 <= quantity < b64(),
        0 <= price < b64(),
        0 <= base_lot_size < b128(),
    ensures
        quantity * base_lot_size < b256(),
        quantity * base_lot_size * price < b256(),
        quantity * base_lot_size >= 0,
        quantity * base_lot_size * price >= 0,
{
    lemma_mul_upper_bound(quantity, b64() - 1, base_lot_size, b128() - 1);
    lemma_mul_upper_bound(0, quantity, 0, base_lot_size);
    assert((b64() - 1) * (b128() - 1) < b256()) by (nonlinear_arith);
    lemma_mul_upper_bound(quantity * base_lot_size, (b64() - 1) * (b128() - 1), price, b64() - 1);
    lemma_mul_upper_bound(0, quantity * base_lot_size, 0, price);
    assert((b64() - 1) * (b128() - 1) * (b64() - 1) < b256()) by (nonlinear_arith);
}

/// Get the value of a bid in terms of native quote token.
///
/// Conceptually, this is price * quantity.
pub fn get_bid_quote_value(
    quantity: u64,
    price: u64,
    base_lot_size: u128,
    quote_lot_size: u128,
    base_denomination: u128,
) -> (r: u128)
    requires
        bid_quote_value_in_range(
            quantity as int,
            price as int,
            base_lot_size as int,
            quote_lot_size as int,
            base_denomination as int,
        ),
    ensures
        r == bid_quote_value_spec(
            quantity as int,
            price as int,
            base_lot_size as int,
            quote_lot_size as int,
            base_denomination as int,
        ),
{
    match checked_bid_quote_value(quantity, price, base_lot_size, quote_lot_size, base_denomination) {
        Some(r) => r,
        None => vstd::pervasive::unreached(),
    }
}

/// Total version of [`get_bid_quote_value`]: `None` exactly when the
/// computation would overflow 256 bits, divide by zero, or not narrow to 128
/// bits.
pub fn checked_bid_quote_value(
    quantity: u64,
    price: u64,
    base_lot_size: u128,
    quote_lot_size: u128,
    base_denomination: u128,
) -> (r: Option<u128>)
    ensures
        r == if bid_quote_value_in_range(
            quantity as int,
            price as int,
            base_lot_size as int,
            quote_lot_size as int,
            base_denomination as int,
        ) {
            Some(
                (bid_quote_value_spec(
                    quantity as int,
                    price as int,
                    base_lot_size as int,
                    quote_lot_size as int,
                    base_denomination as int,
                ) as u128),
            )
        } else {
            None::<u128>
        },
{
    proof {
        lemma_bid_quote_prefix_bounds(quantity as int, price as int, base_lot_size as int);
    }
    let a = BN::new(quantity as u128).mul(base_lot_size).mul(price as u128);
    let b = match a.checked_mul(quote_lot_size) {
        Some(b) => b,
        None => {
            return None;
        },
    };
    if base_denomination == 0 {
        return None;
    }
    let q = b.div(base_denomination);
    q.try_as_u128()
}

/// Get quantity of base that a given amount of quote is worth in terms of
/// base lots.
///
/// Conceptually, this is quote amount / price.
pub fn get_base_purchasable(
    quote_amount: u128,
    price: u64,
    quote_lot_size: u128,
    base_lot_size: u128,
    base_denomination: u128,
) -> (r: u64)
    requires
        base_purchasable_in_range(
            quote_amount as int,
            price as int,
            quote_lot_size as int,
            base_lot_size as int,
            base_denomination as int,
        ),
    ensures
        r == base_purchasable_spec(
            quote_amount as int,
            price as int,
            quote_lot_size as int,
            base_lot_size as int,
            base_denomination as int,
        ),
{
    match checked_base_purchasable(quote_amount, price, quote_lot_size, base_lot_size, base_denomination) {
        Some(r) => r,
        None => vstd::pervasive::unreached(),
    }
}

/// Total version of [`get_base_purchasable`]: `None` exactly when a divisor
/// is zero or the result does not narrow to 64 bits.
pub fn checked_base_purchasable(
    quote_amount: u128,
    price: u64,
    quote_lot_size: u128,
    base_lot_size: u128,
    base_denomination: u128,
) -> (r: Option<u64>)
    ensures
        r == if base_purchasable_in_range(
            quote_amount as int,
            price as int,
            quote_lot_size as int,
            base_lot_size as int,
            base_denomination as int,
        ) {
            Some(
                (base_purchasable_spec(
                    quote_amount as int,
                    price as int,
                    quote_lot_size as int,
                    base_lot_size as int,
                    base_denomination as int,
                ) as u64),
            )
        } else {
            None::<u64>
        },
{
    proof {
        lemma_mul_upper_bound(
            quote_amount as int,
            b128() - 1,
            base_denomination as int,
            b128() - 1,
        );
        assert((b128() - 1) * (b128() - 1) < b256()) by (nonlinear_arith);
        lemma_mul_upper_bound(0, quote_amount as int, 0, base_denomination as int);
    }
    let a = BN::new(quote_amount).mul(base_denomination);
    if quote_lot_size == 0 || price == 0 || base_lot_size == 0 {
        return None;
    }
    let q = a.div(quote_lot_size).div(price as u128).div(base_lot_size);
    q.try_as_u64()
}

/// Struct for doing math in the orderbook: the three per-market lot
/// parameters bundled together.
pub struct OrderbookCalculator {
    pub base_lot_size: u128,
    pub quote_lot_size: u128,
    pub base_denomination: u128,
}

impl OrderbookCalculator {
    /// Get the value of a bid in terms of native quote token.
    pub fn get_bid_quote_value(&self, quantity: u64, price: u64) -> (r: u128)
        requires
            bid_quote_value_in_range(
                quantity as int,
                price as int,
                self.base_lot_size as int,
                self.quote_lot_size as int,
                self.base_denomination as int,
            ),
        ensures
            r == bid_quote_value_spec(
                quantity as int,
                price as int,
                self.base_lot_size as int,
                self.quote_lot_size as int,
                self.base_denomination as int,
            ),
    {
        get_bid_quote_value(
            quantity,
            price,
            self.base_lot_size,
            self.quote_lot_size,
            self.base_denomination,
        )
    }

    /// Get quantity of base that a given amount of quote is worth in terms of
    /// base lots.
    pub fn get_base_purchasable(&self, quote_amount: u128, price: u64) -> (r: u64)
        requires
            base_purchasable_in_range(
                quote_amount as int,
                price as int,
                self.quote_lot_size as int,
                self.base_lot_size as int,
                self.base_denomination as int,
            ),
        ensures
            r == base_purchasable_spec(
                quote_amount as int,
                price as int,
                self.quote_lot_size as int,
                self.base_lot_size as int,
                self.base_denomination as int,
            ),
    {
        get_base_purchasable(
            quote_amount,
            price,
            self.quote_lot_size,
            self.base_lot_size,
            self.base_denomination,
        )
    }
}


/// If `x` is at most a floor quotient, scaling it back up stays within the
/// dividend: `x <= a / d` implies `x * d <= a`.
proof fn lemma_mul_le_of_le_div(x: int, a: int, d: int)
    requires
        d > 0,
        a >= 0,
        0 <= x <= a / d,
    ensures
        x * d <= a,
{
    vstd::arithmetic::div_mod::lemma_fundamental_div_mod(a, d);
    vstd::arithmetic::div_mod::lemma_mod_division_less_than_divisor(a, d);
    vstd::arithmetic::mul::lemma_mul_is_commutative(d, a / d);
    lemma_mul_inequality(x, a / d, d);
}

/// Rounding safety: a fill no larger than what the remaining quote can buy
/// never costs more than the remaining quote. Both conversions floor, and
/// they compose so that the floored purchasable quantity, priced back up,
/// stays within the budget; the budget subtraction in the match walk can
/// therefore never underflow.
pub proof fn lemma_fill_cost_within_budget(
    quote: int,
    qty: int,
    price: int,
    base_lot_size: int,
    quote_lot_size: int,
    base_denomination: int,
)
    requires
        quote >= 0,
        price > 0,
        base_lot_size > 0,
        quote_lot_size > 0,
        base_denomination > 0,
        0 <= qty <= base_purchasable_spec(
            quote,
            price,
            quote_lot_size,
            base_lot_size,
            base_denomination,
        ),
    ensures
        bid_quote_value_spec(qty, price, base_lot_size, quote_lot_size, base_denomination)
            <= quote,
{
    let n1 = quote * base_denomination;
    vstd::arithmetic::mul::lemma_mul_nonnegative(quote, base_denomination);
    let n2 = n1 / quote_lot_size;
    vstd::arithmetic::div_mod::lemma_div_pos_is_pos(n1, quote_lot_size);
    let n3 = n2 / price;
    vstd::arithmetic::div_mod::lemma_div_pos_is_pos(n2, price);
    // peel the three floor divisions of the purchasable quantity
    lemma_mul_le_of_le_div(qty, n3, base_lot_size);
    lemma_mul_le_of_le_div(qty * base_lot_size, n2, price);
    lemma_mul_le_of_le_div(qty * base_lot_size * price, n1, quote_lot_size);
    // divide the numerator bound by the base denomination
    vstd::arithmetic::div_mod::lemma_div_is_ordered(
        qty * base_lot_size * price * quote_lot_size,
        n1,
        base_denomination,
    );
    vstd::arithmetic::div_mod::lemma_div_multiples_vanish(quote, base_denomination);
    vstd::arithmetic::mul::lemma_mul_is_commutative(quote, base_denomination);
    // the divisions above need nonnegative intermediates
    vstd::arithmetic::mul::lemma_mul_nonnegative(qty, base_lot_size);
    vstd::arithmetic::mul::lemma_mul_nonnegative(qty * base_lot_size, price);
    vstd::arithmetic::mul::lemma_mul_nonnegative(qty * base_lot_size * price, quote_lot_size);
}

} // verus!