//! Concrete checks of the engine's general properties: conservation of
//! value, no over-sell / over-spend, rejected orders leaving the book
//! intact, walk-order ranks, and the fatal-condition reporting.

use dex_orderbook::{
    get_base_purchasable, get_bid_quote_value, AccountId, EngineError, MarketId, NewOrder,
    Orderbook, OrderType, Side, Tvl, VecOrderbook, BN,
};

fn new_orderbook() -> VecOrderbook {
    Orderbook::default()
}

fn limit_order(seq: u64, side: Side, price: u64, qty: u64) -> NewOrder {
    NewOrder {
        sequence_number: seq,
        limit_price_lots: Some(price),
        available_quote_lots: None,
        max_qty_lots: qty,
        side,
        order_type: OrderType::Limit,
        base_denomination: 1,
        quote_lot_size: 1,
        base_lot_size: 1,
        client_id: None,
    }
}

#[test]
fn conservation_of_value_sell_into_bids() {
    // a sell that eats two bids and posts its remainder conserves value:
    // book-after plus traded equals book-before plus the new order's base
    let maker = AccountId::new_unchecked("maker".to_string());
    let taker = AccountId::new_unchecked("taker".to_string());
    let mut ob = new_orderbook();
    ob.place_order(&maker, limit_order(1, Side::Buy, 10, 4));
    ob.place_order(&maker, limit_order(2, Side::Buy, 8, 3));

    let before = ob.value_locked(1, 1, 1);
    assert_eq!(
        before,
        Tvl {
            base_locked: 0,
            quote_locked: 4 * 10 + 3 * 8
        }
    );

    let req = limit_order(3, Side::Sell, 8, 9);
    let res = ob.place_order(&taker, req);
    assert_eq!(res.fill_qty_lots, 7);
    assert_eq!(res.open_qty_lots, 2);
    let traded = res.value_locked(1, 1, 1);
    let after = ob.value_locked(1, 1, 1);
    // base: after (2 posted) + traded (7) == new order's 9
    assert_eq!(after.base_locked + traded.base_locked, 9);
    // quote: nothing created
    assert_eq!(after.quote_locked + traded.quote_locked, before.quote_locked);
}

#[test]
fn no_overspend_budgeted_buy() {
    // a budgeted buy can never spend more quote lots than its budget
    let maker = AccountId::new_unchecked("maker".to_string());
    let taker = AccountId::new_unchecked("taker".to_string());
    let mut ob = new_orderbook();
    ob.place_order(&maker, limit_order(1, Side::Sell, 7, 100));

    let req = NewOrder {
        sequence_number: 2,
        limit_price_lots: None,
        available_quote_lots: Some(30),
        max_qty_lots: u64::MAX,
        side: Side::Buy,
        order_type: OrderType::Market,
        base_denomination: 1,
        quote_lot_size: 1,
        base_lot_size: 1,
        client_id: None,
    };
    let res = ob.place_order(&taker, req);
    // 30 / 7 = 4 lots affordable, paying 28
    assert_eq!(res.fill_qty_lots, 4);
    assert_eq!(res.quote_amount_lots, 28);
    assert!(res.quote_amount_lots <= 30);
    assert!(res.fill_qty_lots <= u64::MAX);
}

#[test]
fn rejected_leaves_book_intact() {
    let maker = AccountId::new_unchecked("maker".to_string());
    let taker = AccountId::new_unchecked("taker".to_string());
    let mut ob = new_orderbook();
    ob.place_order(&maker, limit_order(1, Side::Sell, 5, 5));
    ob.place_order(&maker, limit_order(2, Side::Buy, 3, 2));
    let tvl_before = ob.value_locked(1, 1, 1);

    // post-only that would cross: rejected
    let res = ob.place_order(&taker, {
        let mut o = limit_order(3, Side::Buy, 5, 2);
        o.order_type = OrderType::PostOnly;
        o
    });
    assert_eq!(res.outcome, dex_orderbook::OrderOutcome::Rejected);
    assert_eq!(ob.value_locked(1, 1, 1), tvl_before);
    assert_eq!(ob.find_bbo(Side::Sell).unwrap().unwrap_price(), 5);
    assert_eq!(ob.find_bbo(Side::Buy).unwrap().unwrap_price(), 3);
    // the rejected report snapshots the untouched book
    assert_eq!(res.best_bid, Some(3));
    assert_eq!(res.best_ask, Some(5));
}

#[test]
fn match_ranks_nondecreasing_concrete() {
    // a taker crossing three price levels sees ranks 0, 0, 1, 2 in walk order
    let maker = AccountId::new_unchecked("maker".to_string());
    let taker = AccountId::new_unchecked("taker".to_string());
    let mut ob = new_orderbook();
    ob.place_order(&maker, limit_order(1, Side::Sell, 5, 1));
    ob.place_order(&maker, limit_order(2, Side::Sell, 5, 1));
    ob.place_order(&maker, limit_order(3, Side::Sell, 6, 1));
    ob.place_order(&maker, limit_order(4, Side::Sell, 9, 1));

    let res = ob.place_order(&taker, limit_order(5, Side::Buy, 9, 4));
    assert_eq!(res.matches.len(), 4);
    let ranks: Vec<u32> = res.matches.iter().map(|m| m.maker_order_price_rank).collect();
    assert_eq!(ranks, vec![0, 0, 1, 2]);
    for w in ranks.windows(2) {
        assert!(w[0] <= w[1]);
    }
    for m in res.matches.iter() {
        assert!(m.did_remove_maker_order());
    }
}

#[test]
fn self_trade_reported() {
    let user = AccountId::new_unchecked("one_user".to_string());
    let mut ob = new_orderbook();
    ob.place_order(&user, limit_order(1, Side::Sell, 5, 5));
    let r = ob.try_place_order(&user, limit_order(2, Side::Buy, 5, 1));
    assert_eq!(r.unwrap_err(), EngineError::SelfTrade);
    // the book is unchanged
    assert_eq!(ob.find_bbo(Side::Sell).unwrap().open_qty_lots, 5);
}

#[test]
fn missing_limit_price_reported() {
    let user = AccountId::new_unchecked("u".to_string());
    let mut ob = new_orderbook();
    let mut req = limit_order(1, Side::Buy, 5, 5);
    req.limit_price_lots = None;
    // a limit order with no limit price would post and cannot
    let r = ob.try_place_order(&user, req);
    assert_eq!(r.unwrap_err(), EngineError::MissingLimitPrice);
}

#[test]
fn arithmetic_overflow_reported() {
    let user = AccountId::new_unchecked("u".to_string());
    let mut ob = new_orderbook();
    // the native quote budget (lots times lot size) exceeds 128 bits
    let req = NewOrder {
        sequence_number: 1,
        limit_price_lots: None,
        available_quote_lots: Some(u64::MAX),
        max_qty_lots: 1,
        side: Side::Buy,
        order_type: OrderType::Market,
        base_denomination: 1,
        quote_lot_size: u128::MAX,
        base_lot_size: 1,
        client_id: None,
    };
    let r = ob.try_place_order(&user, req);
    assert_eq!(r.unwrap_err(), EngineError::ArithmeticOverflow);
}

#[test]
fn cancel_list_is_idempotent() {
    // cancelling the same list twice: the second call is a no-op
    let a = AccountId::new_unchecked("a".to_string());
    let b = AccountId::new_unchecked("b".to_string());
    let mut ob = new_orderbook();
    let o1 = ob.place_order(&a, limit_order(1, Side::Buy, 5, 5)).id;
    let o2 = ob.place_order(&b, limit_order(2, Side::Buy, 5, 5)).id;
    let o3 = ob.place_order(&b, limit_order(3, Side::Buy, 5, 5)).id;

    let deleted = ob.cancel_orders(vec![o2, o3]);
    assert_eq!(deleted.len(), 2);
    let deleted_again = ob.cancel_orders(vec![o2, o3]);
    assert_eq!(deleted_again.len(), 0);
    assert!(ob.get_order(o1).is_some());
    assert_eq!(ob.get_order(o2), None);
    assert_eq!(ob.get_order(o3), None);
}

#[test]
fn lot_math_exact_values() {
    // the swap-math parameters, computed directly
    assert_eq!(
        get_bid_quote_value(998, 480, 10_000_000_000_000_000, 1000, 1_000_000_000_000_000_000),
        4_790_400
    );
    // the leftover budget buys zero lots at the next level
    assert_eq!(
        get_base_purchasable(4600, 488, 1000, 10_000_000_000_000_000, 1_000_000_000_000_000_000),
        0
    );
    // and at the filled level it bought exactly 998
    assert_eq!(
        get_base_purchasable(
            4_795_000,
            480,
            1000,
            10_000_000_000_000_000,
            1_000_000_000_000_000_000
        ),
        998
    );
}

#[test]
fn wide_arithmetic_roundtrip() {
    let big = BN::new(1u128 << 100).mul(1u128 << 100);
    assert_eq!(big.div(1u128 << 90).as_u128(), 1u128 << 110);
    let carried = BN::new(u128::MAX).add(5);
    assert_eq!(carried.sub(5).as_u128(), u128::MAX);
    assert!(carried.try_as_u128().is_none());
    assert_eq!(BN::new(10_000).add_bps(250).as_u64(), 10_250);
    assert_eq!(BN::new(10_000).sub_bps(250).as_u64(), 9_750);
    assert_eq!(BN::new(7).mul(3).div(2).as_u64(), 10);
}

#[test]
fn market_id_from_bytes() {
    let data: Vec<u8> = (0u8..40).collect();
    let id = MarketId::new_unchecked(&data);
    assert_eq!(id.0.len(), 32);
    assert_eq!(id.0[0], 0);
    assert_eq!(id.0[31], 31);
}

#[test]
fn into_view_scales_to_native() {
    let maker = AccountId::new_unchecked("maker".to_string());
    let taker = AccountId::new_unchecked("taker".to_string());
    let mut ob = new_orderbook();
    let mut sell = limit_order(1, Side::Sell, 4, 10);
    sell.base_lot_size = 100;
    sell.quote_lot_size = 10;
    sell.base_denomination = 1000;
    ob.place_order(&maker, sell);
    let mut buy = limit_order(2, Side::Buy, 4, 6);
    buy.base_lot_size = 100;
    buy.quote_lot_size = 10;
    buy.base_denomination = 1000;
    buy.available_quote_lots = Some(100);
    let res = ob.place_order(&taker, buy);
    assert!(!res.is_posted());
    let view = res.into_view(100, 10);
    assert_eq!(view.base_fill_quantity, 600);
    assert_eq!(view.open_quantity, 0);
}

#[test]
fn market_order_on_empty_book() {
    // a market order against an empty book trades nothing, never posts, and
    // still reports Filled (market orders surface no leftover)
    let user = AccountId::new_unchecked("u".to_string());
    let mut ob = new_orderbook();
    let req = NewOrder {
        sequence_number: 1,
        limit_price_lots: None,
        available_quote_lots: None,
        max_qty_lots: 5,
        side: Side::Sell,
        order_type: OrderType::Market,
        base_denomination: 1,
        quote_lot_size: 1,
        base_lot_size: 1,
        client_id: None,
    };
    let res = ob.place_order(&user, req);
    assert_eq!(res.outcome, dex_orderbook::OrderOutcome::Filled);
    assert_eq!(res.fill_qty_lots, 0);
    assert_eq!(res.open_qty_lots, 0);
    assert!(res.matches.is_empty());
    assert_eq!(res.best_bid, None);
    assert_eq!(res.best_ask, None);
}

#[test]
fn match_walk_leaves_removal_undecided() {
    // the pure walk proposes matches without touching the book and without
    // deciding removal; the flag is set only when the matches execute
    let maker = AccountId::new_unchecked("maker".to_string());
    let taker = AccountId::new_unchecked("taker".to_string());
    let mut ob = new_orderbook();
    ob.place_order(&maker, limit_order(1, Side::Sell, 5, 5));

    let probe = limit_order(2, Side::Buy, 5, 2);
    let mr = ob.match_order(&taker, &probe).unwrap();
    assert_eq!(mr.matches.len(), 1);
    assert!(mr.matches[0].maker_order_removed.is_none());
    // the walk mutated nothing
    assert_eq!(ob.find_bbo(Side::Sell).unwrap().open_qty_lots, 5);
    // the walk is deterministic: a second call reports the same candidate
    let mr2 = ob.match_order(&taker, &probe).unwrap();
    assert_eq!(mr2.unfilled_qty_lots, mr.unfilled_qty_lots);
    assert_eq!(mr2.matches.len(), 1);
    assert_eq!(mr2.matches[0].fill_qty_lots, mr.matches[0].fill_qty_lots);
    assert!(mr2.matches[0].maker_order_removed.is_none());

    // executing the order decides the flag
    let res = ob.place_order(&taker, probe);
    assert_eq!(res.matches.len(), 1);
    assert_eq!(res.matches[0].maker_order_removed, Some(false));
}
