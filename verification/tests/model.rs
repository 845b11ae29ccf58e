use portfolio::model::{Currency, Holdings, PriceInfo, MICRO};

fn price(coin: &str, currency: Currency, value: u64, market_cap: u64, change_24h: i64) -> PriceInfo {
    PriceInfo { coin: String::from(coin), currency, value, market_cap, change_24h }
}

#[test]
fn currency_from_str_accepts_both_cases() {
    assert_eq!(Currency::from_str("eur"), Ok(Currency::EUR));
    assert_eq!(Currency::from_str("EUR"), Ok(Currency::EUR));
    assert_eq!(Currency::from_str("usd"), Ok(Currency::USD));
    assert_eq!(Currency::from_str("USD"), Ok(Currency::USD));
}

#[test]
fn currency_from_str_rejects_unknown_codes() {
    assert_eq!(Currency::from_str("gbp"), Err(String::from("gbp")));
    assert_eq!(Currency::from_str(""), Err(String::from("")));
    assert_eq!(Currency::from_str("Usd"), Err(String::from("Usd")));
}

#[test]
fn currency_string_forms() {
    assert_eq!(Currency::EUR.as_str_pair(), ("EUR", "eur"));
    assert_eq!(Currency::USD.as_str_pair(), ("USD", "usd"));
    assert_eq!(Currency::EUR.to_uppercase_str(), "EUR");
    assert_eq!(Currency::USD.to_uppercase_str(), "USD");
}

#[test]
fn micro_scale_is_one_million() {
    assert_eq!(MICRO, 1_000_000);
}

#[test]
fn holdings_start_empty() {
    let h = Holdings::new();
    assert_eq!(h.holdings.len(), 0);
}

#[test]
fn price_duplicate_keeps_fields() {
    let p = price("BTC", Currency::USD, 7 * MICRO, 9 * MICRO, -250_000);
    let q = p.duplicate();
    assert_eq!(q.coin, "BTC");
    assert_eq!(q.currency, Currency::USD);
    assert_eq!(q.value, 7 * MICRO);
    assert_eq!(q.market_cap, 9 * MICRO);
    assert_eq!(q.change_24h, -250_000);
}

#[test]
fn currency_parses_through_from_str_trait() {
    let c: Currency = "usd".parse().unwrap();
    assert_eq!(c, Currency::USD);
    assert!("xyz".parse::<Currency>().is_err());
}
