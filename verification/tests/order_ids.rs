use dex_orderbook::{get_order_id_parts, new_order_id, Side};

#[test]
fn test_order_id_round_trip_buy() {
    let side = Side::Buy;
    let price = 456u64;
    let sequence_number = 123;

    let order_id = new_order_id(side, price, sequence_number);
    let (s, p, sn) = get_order_id_parts(order_id);

    assert_eq!(side, s, "Wrong side");
    assert_eq!(price, p, "Wrong price");
    assert_eq!(sequence_number, sn, "Wrong sequence number");
}

#[test]
fn test_order_id_round_trip_sell() {
    let side = Side::Sell;
    let price = 456u64;
    let sequence_number = 123;

    let order_id = new_order_id(side, price, sequence_number);
    let (s, p, sn) = get_order_id_parts(order_id);

    assert_eq!(side, s, "Wrong side");
    assert_eq!(price, p, "Wrong price");
    assert_eq!(sequence_number, sn, "Wrong sequence number");
}

#[test]
fn test_order_id_round_trip_extremes() {
    // price zero (a market order's id) and the largest 63-bit sequence
    for side in [Side::Buy, Side::Sell] {
        for price in [0u64, 1, u64::MAX] {
            for seq in [1u64, 0x7fff_ffff_ffff_ffff] {
                let (s, p, sn) = get_order_id_parts(new_order_id(side, price, seq));
                assert_eq!(side, s);
                assert_eq!(price, p);
                assert_eq!(seq, sn);
            }
        }
    }
}
