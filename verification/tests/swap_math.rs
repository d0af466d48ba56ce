//! Regression for a subtraction overflow seen in production swap math: after
//! one market-buy fill the leftover budget must not fund a further lot at
//! the next price level.

use dex_orderbook::{AccountId, NewOrder, Orderbook, OrderType, Side, VecOrderbook};

fn new_orderbook() -> VecOrderbook {
    Orderbook::default()
}

struct Counter {
    prev: u64,
}

impl Counter {
    fn next(&mut self) -> u64 {
        self.prev += 1;
        self.prev
    }
}

fn new_counter() -> Counter {
    Counter { prev: 0 }
}

#[test]
fn swap_math_bug() {
    let mut counter = new_counter();
    let mut ob = new_orderbook();

    let base_lot_size = 10000000000000000;
    let quote_lot_size = 1000;
    let base_denomination = 10u128.pow(18);

    let maker_order_req_1 = NewOrder {
        // maker 1
        sequence_number: counter.next(),
        side: Side::Sell,
        order_type: OrderType::Limit,
        limit_price_lots: Some(480),
        max_qty_lots: 998, // based on fill event, order only had this much left at time of swap
        available_quote_lots: None,

        quote_lot_size,
        base_denomination,
        base_lot_size,
        client_id: None,
    };

    let maker_order_req_2 = NewOrder {
        // maker 2
        sequence_number: counter.next(),
        side: Side::Sell,
        order_type: OrderType::Limit,
        limit_price_lots: Some(488),
        max_qty_lots: 8568,
        available_quote_lots: None,

        quote_lot_size,
        base_denomination,
        base_lot_size,
        client_id: None,
    };
    ob.place_order(
        &AccountId::new_unchecked("maker".to_string()),
        maker_order_req_1,
    );
    ob.place_order(
        &AccountId::new_unchecked("maker".to_string()),
        maker_order_req_2,
    );

    let res = ob.place_order(
        &AccountId::new_unchecked("taker".to_string()),
        NewOrder {
            // taker (swap)
            sequence_number: counter.next(),

            side: Side::Buy,
            order_type: OrderType::Market,
            limit_price_lots: None,
            max_qty_lots: u64::MAX,
            available_quote_lots: Some(4795), // 4.80 - 0.1% is 4.7952, last 2 is dropped due to lots

            quote_lot_size,
            base_denomination,
            base_lot_size,
            client_id: None,
        },
    );
    // quick rundown of what's happening
    // - the first fill costs 9.98 @ 0.480 = 4.790400
    // - after that, the leftover budget can only buy less than one base lot
    //   at the next price level, so no second fill may happen

    let native_quote_paid = res
        .matches
        .iter()
        .map(|m| m.native_quote_paid)
        .sum::<u128>();

    assert_eq!(
        9980000000000000000,
        res.fill_qty_lots as u128 * base_lot_size,
        "didn't match real txn"
    );

    assert_eq!(native_quote_paid, 4790400,);
}
