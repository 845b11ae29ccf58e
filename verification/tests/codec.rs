use portfolio::codec::{decode_prices, encode_prices};
use portfolio::model::{Currency, PriceInfo, MICRO};

fn price(coin: &str, currency: Currency, value: u64, market_cap: u64, change_24h: i64) -> PriceInfo {
    PriceInfo { coin: String::from(coin), currency, value, market_cap, change_24h }
}

#[test]
fn snapshot_round_trip_keeps_every_field() {
    // Writing a record list to the snapshot form and reading it back
    // yields the same (coin, currency, value, marketCap, change24h)
    // tuples, in order.
    let prices = vec![
        price("BTC", Currency::USD, 50_000 * MICRO, 900_000 * MICRO, 1_234_567),
        price("ETH", Currency::EUR, 3_000 * MICRO, 400_000 * MICRO, -7_654_321),
        price("", Currency::USD, 0, 0, 0),
    ];
    let text = encode_prices(&prices);
    let back = decode_prices(text.as_str()).unwrap();
    assert_eq!(back.len(), prices.len());
    for (a, b) in prices.iter().zip(back.iter()) {
        assert_eq!(a.coin, b.coin);
        assert_eq!(a.currency, b.currency);
        assert_eq!(a.value, b.value);
        assert_eq!(a.market_cap, b.market_cap);
        assert_eq!(a.change_24h, b.change_24h);
    }
}

#[test]
fn snapshot_round_trip_extreme_values() {
    let prices = vec![price("X", Currency::EUR, u64::MAX, u64::MAX, i64::MIN)];
    let back = decode_prices(encode_prices(&prices).as_str()).unwrap();
    assert_eq!(back[0].value, u64::MAX);
    assert_eq!(back[0].market_cap, u64::MAX);
    assert_eq!(back[0].change_24h, i64::MIN);
    let prices = vec![price("Y", Currency::USD, 0, 1, i64::MAX)];
    let back = decode_prices(encode_prices(&prices).as_str()).unwrap();
    assert_eq!(back[0].change_24h, i64::MAX);
}

#[test]
fn empty_snapshot_round_trips() {
    let text = encode_prices(&Vec::new());
    assert_eq!(text, "");
    assert_eq!(decode_prices("").unwrap().len(), 0);
}

#[test]
fn malformed_snapshots_are_rejected() {
    assert!(decode_prices("garbage").is_none());
    assert!(decode_prices("0000000000000000").is_none());
    let good = encode_prices(&vec![price("BTC", Currency::USD, 1, 2, 3)]);
    let mut truncated = String::from(good.as_str());
    truncated.pop();
    assert!(decode_prices(truncated.as_str()).is_none());
}
