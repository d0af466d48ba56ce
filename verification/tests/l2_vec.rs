use dex_orderbook::{AccountId, OpenLimitOrder, Side, VecL2};

fn make_order(price: u64, sequence_number: u64) -> OpenLimitOrder {
    OpenLimitOrder {
        sequence_number,
        owner_id: AccountId::new_unchecked("a.near".to_string()),
        open_qty_lots: 1,
        client_id: None,
        limit_price_lots: Some(price),
        side: Some(Side::Buy),
        price_rank: None, // doesn't matter for the test
    }
}

#[test]
fn sort_regular() {
    let mut l2 = VecL2::new(false);
    // insert 3 orders, 2 sharing a price
    // should sort like this:           [ 1 1 2 ]
    // with sequence numbers like this: [ 1 3 2 ]
    l2.save_order(make_order(1, 1));
    l2.save_order(make_order(2, 2));
    l2.save_order(make_order(1, 3));

    // check it's sorted by price ascending
    assert_eq!(
        l2.orders.first().unwrap().0,
        1,
        "wrong price for first order"
    );
    assert_eq!(l2.orders.last().unwrap().0, 2, "wrong price for last order");

    // check that orders with a common price are sorted by sequence number ascending
    assert!(
        l2.orders[0].1.sequence_number == 1 && l2.orders[1].1.sequence_number == 3,
        "orders with same price not sorted by sequence number ascending"
    );
}

#[test]
fn sort_reverse() {
    let mut l2 = VecL2::new(true);
    // insert 3 orders, 2 sharing a price
    // should sort like this:           [ 2 1 1 ]
    // with sequence numbers like this: [ 2 1 3 ]
    l2.save_order(make_order(1, 1));
    l2.save_order(make_order(2, 2));
    l2.save_order(make_order(1, 3));

    // check it's sorted by price descending
    assert_eq!(
        l2.orders.first().unwrap().0,
        2,
        "wrong price for first order"
    );
    assert_eq!(l2.orders.last().unwrap().0, 1, "wrong price for last order");

    // though prices are reversed, sequence number should still be sorted ascending
    // for orders with a common price
    assert!(
        l2.orders[1].1.sequence_number == 1 && l2.orders[2].1.sequence_number == 3,
        "orders with same price not sorted by sequence number ascending"
    );
}

#[test]
fn get_price_rank() {
    // sort ascending (ask side); lower prices should have lower rank
    let mut l2 = VecL2::new(false);
    l2.save_order(make_order(1, 1));
    l2.save_order(make_order(1, 2));
    l2.save_order(make_order(2, 3));
    l2.save_order(make_order(4, 4));

    assert_eq!(l2.get_price_rank(1), 0, "wrong price rank for price 1");
    assert_eq!(l2.get_price_rank(2), 1, "wrong price rank for price 2");
    assert_eq!(l2.get_price_rank(3), 2, "wrong price rank for price 3");
    assert_eq!(l2.get_price_rank(5), 3, "wrong price rank for price 5");

    // sort descending (bid side); higher prices should have lower rank
    let mut l2 = VecL2::new(true);
    l2.save_order(make_order(1, 1));
    l2.save_order(make_order(1, 2));
    l2.save_order(make_order(2, 3));
    l2.save_order(make_order(4, 4));

    assert_eq!(l2.get_price_rank(5), 0, "wrong price rank for price 5");
    assert_eq!(l2.get_price_rank(3), 1, "wrong price rank for price 3");
    assert_eq!(l2.get_price_rank(2), 1, "wrong price rank for price 2");
    assert_eq!(l2.get_price_rank(1), 2, "wrong price rank for price 1");
}

#[test]
fn save_order_replaces_same_key() {
    // saving an order with an existing (price, sequence) key replaces it in
    // place instead of inserting a duplicate
    let mut l2 = VecL2::new(false);
    l2.save_order(make_order(7, 1));
    let mut replacement = make_order(7, 1);
    replacement.open_qty_lots = 42;
    l2.save_order(replacement);
    assert_eq!(l2.orders.len(), 1);
    assert_eq!(l2.orders[0].1.open_qty_lots, 42);
}

#[test]
fn unique_prices_counts_levels() {
    let mut l2 = VecL2::new(false);
    assert_eq!(l2.unique_prices_count(), 0);
    l2.save_order(make_order(1, 1));
    l2.save_order(make_order(1, 2));
    l2.save_order(make_order(2, 3));
    l2.save_order(make_order(4, 4));
    assert_eq!(l2.unique_prices_count(), 3);
}

#[test]
fn min_max_orders() {
    let mut l2 = VecL2::new(true);
    assert!(l2.min_order().is_none());
    assert!(l2.max_order().is_none());
    l2.save_order(make_order(3, 1));
    l2.save_order(make_order(9, 2));
    l2.save_order(make_order(5, 3));
    assert_eq!(l2.min_order().unwrap().unwrap_price(), 3);
    assert_eq!(l2.max_order().unwrap().unwrap_price(), 9);
    // iteration hands out bids best (highest) price first
    let all = l2.iter();
    assert_eq!(all.len(), 3);
    assert_eq!(all[0].unwrap_price(), 9);
    assert_eq!(all[0].unwrap_price_rank(), 0);
    assert_eq!(all[2].unwrap_price(), 3);
    assert_eq!(all[2].unwrap_price_rank(), 2);
}

#[test]
fn take_depth_groups_levels() {
    let mut l2 = VecL2::new(false);
    l2.save_order(make_order(1, 1));
    l2.save_order(make_order(1, 2));
    l2.save_order(make_order(2, 3));
    l2.save_order(make_order(4, 4));

    let depth = l2.take_depth(10);
    assert_eq!(depth.len(), 3);
    assert_eq!(depth[0].0, 1);
    assert_eq!(depth[0].1.len(), 2);
    assert_eq!(depth[1].0, 2);
    assert_eq!(depth[1].1.len(), 1);
    assert_eq!(depth[2].0, 4);
    assert_eq!(depth[2].1.len(), 1);

    let top = l2.take_depth(1);
    assert_eq!(top[0].0, 1);
    assert_eq!(top[0].1.len(), 2);
}
