use dex_orderbook::{
    AccountId, NewOrder, OpenLimitOrder, Orderbook, OrderType, Side, Tvl, VecOrderbook,
};

fn new_orderbook() -> VecOrderbook {
    Orderbook::default()
}

struct Counter {
    prev: u64,
}

impl Counter {
    fn next(&mut self) -> u64 {
        self.prev += 1;
        self.prev
    }
}

fn new_counter() -> Counter {
    Counter { prev: 0 }
}

fn run_basic_tvl() {
    let user = AccountId::new_unchecked("a.near".to_string());
    let base_lot_size = 10;
    let quote_lot_size = 100;
    let base_denomination = 1000;

    // test per-order tvl
    let open_bid = OpenLimitOrder {
        open_qty_lots: 5,
        owner_id: user.clone(),
        sequence_number: 1,
        client_id: None,
        side: Some(Side::Buy),
        limit_price_lots: Some(100),
        price_rank: None,
    };
    assert_eq!(
        open_bid.value_locked(base_lot_size, quote_lot_size, base_denomination),
        Tvl {
            base_locked: 0,
            quote_locked: 500
        },
        "bid tvl mismatch"
    );

    let open_ask = OpenLimitOrder {
        open_qty_lots: 5,
        owner_id: user.clone(),
        sequence_number: 1,
        client_id: None,
        side: Some(Side::Sell),
        limit_price_lots: Some(101), // doesn't matter
        price_rank: None,
    };
    assert_eq!(
        open_ask.value_locked(base_lot_size, quote_lot_size, base_denomination),
        Tvl {
            base_locked: 50,
            quote_locked: 0
        },
        "ask tvl mismatch"
    );

    // test whole orderbook tvl
    let mut counter = new_counter();
    let mut ob = new_orderbook();

    let bid_req = NewOrder {
        sequence_number: counter.next(),
        limit_price_lots: Some(100),
        max_qty_lots: 5,
        side: Side::Buy,
        order_type: OrderType::Limit,
        client_id: None,
        available_quote_lots: Some(5), // formulated to exactly lock the correct balance with no refund
        base_lot_size,
        quote_lot_size,
        base_denomination,
    };
    let ask_req = NewOrder {
        sequence_number: counter.next(),
        limit_price_lots: Some(101), // don't fill
        max_qty_lots: 5,
        side: Side::Sell,
        order_type: OrderType::Limit,
        client_id: None,
        available_quote_lots: None,
        base_lot_size,
        quote_lot_size,
        base_denomination,
    };
    let tvl_before = bid_req.value_locked().add(ask_req.value_locked());

    let _bid_resp = ob.place_order(&user, bid_req);
    let _ask_resp = ob.place_order(&user, ask_req);
    let tvl_after = ob.value_locked(base_lot_size, quote_lot_size, base_denomination);

    assert_eq!(
        tvl_after,
        Tvl {
            base_locked: 50,
            quote_locked: 500
        },
        "ob TVL check failed"
    );
    assert_eq!(tvl_before, tvl_after, "orderbook rugged");
}

#[test]
fn basic_tvl() {
    run_basic_tvl();
}

#[test]
fn fuzz_basic_tvl() {
    run_basic_tvl();
}
