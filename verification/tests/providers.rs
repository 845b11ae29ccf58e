use portfolio::client::{Coin, CoinMarket, ExchangeRateResponse, Level2, PriceMultiFullResponse,
    Rate};
use portfolio::coin_list::update_coins_with_list;
use portfolio::config::{AthProviderEnum, CoinDef, CoinsData, PriceProviderEnum, ProviderData};
use portfolio::model::{Currency, MICRO};
use portfolio::providers::{convert_currencies, convert_exchange_rates, convert_market_data,
    convert_response, resolve_token_id};

fn level2(price: u64, circulating: u64, change: i64) -> Level2 {
    Level2 {
        from_symbol: String::from("X"),
        price,
        mktcap: 0,
        circulating_supply_mktcap: circulating,
        change_pct_24_hour: change,
    }
}

#[test]
fn currencies_render_uppercase() {
    let list = vec![Currency::USD, Currency::EUR];
    assert_eq!(convert_currencies(&list), vec!["USD", "EUR"]);
}

#[test]
fn response_flattens_symbols_and_currencies() {
    let response = PriceMultiFullResponse {
        raw: vec![
            (
                String::from("BTC"),
                vec![
                    (String::from("USD"), level2(50_000 * MICRO, 900 * MICRO, 1)),
                    (String::from("EUR"), level2(45_000 * MICRO, 800 * MICRO, 2)),
                ],
            ),
            (String::from("ETH"), vec![(String::from("USD"), level2(3_000 * MICRO, 400 * MICRO, 3))]),
        ],
    };
    let records = convert_response(&response).unwrap();
    assert_eq!(records.len(), 3);
    assert_eq!(records[0].coin, "BTC");
    assert_eq!(records[0].currency, Currency::USD);
    assert_eq!(records[0].value, 50_000 * MICRO);
    assert_eq!(records[0].market_cap, 900 * MICRO);
    assert_eq!(records[1].currency, Currency::EUR);
    assert_eq!(records[2].coin, "ETH");
    assert_eq!(records[2].change_24h, 3);
}

#[test]
fn response_with_unknown_currency_fails() {
    let response = PriceMultiFullResponse {
        raw: vec![(String::from("BTC"), vec![(String::from("JPY"), level2(1, 1, 1))])],
    };
    match convert_response(&response) {
        Err(e) => assert_eq!(e, "JPY"),
        Ok(_) => panic!("conversion should fail on an unknown currency"),
    }
}

#[test]
fn exchange_rates_pick_the_usd_quote() {
    let response = ExchangeRateResponse {
        asset_id_base: String::from("BTC"),
        rates: vec![
            Rate {
                time: String::from("t1"),
                asset_id_quote: String::from("EUR"),
                rate: 45_000 * MICRO,
            },
            Rate {
                time: String::from("t2"),
                asset_id_quote: String::from("USD"),
                rate: 50_000 * MICRO,
            },
        ],
    };
    let records = convert_exchange_rates("BTC", &response).unwrap();
    assert_eq!(records.len(), 1);
    assert_eq!(records[0].coin, "BTC");
    assert_eq!(records[0].currency, Currency::USD);
    assert_eq!(records[0].value, 50_000 * MICRO);
    assert_eq!(records[0].market_cap, 0);
}

#[test]
fn exchange_rates_without_usd_fail() {
    let response = ExchangeRateResponse {
        asset_id_base: String::from("BTC"),
        rates: vec![Rate {
            time: String::from("t"),
            asset_id_quote: String::from("EUR"),
            rate: 1,
        }],
    };
    match convert_exchange_rates("BTC", &response) {
        Err(e) => assert_eq!(e, "BTC"),
        Ok(_) => panic!("conversion should fail without a USD rate"),
    }
}

#[test]
fn token_id_comes_from_adapter_data() {
    let data = ProviderData::single("token_id", "bitcoin");
    assert_eq!(resolve_token_id("BTC", Some(&data)), "bitcoin");
    let other = ProviderData::single("something", "else");
    assert_eq!(resolve_token_id("BTC", Some(&other)), "BTC");
    assert_eq!(resolve_token_id("BTC", None), "BTC");
}

#[test]
fn market_data_maps_to_ath_records() {
    let market = vec![CoinMarket {
        id: String::from("bitcoin"),
        symbol: String::from("btc"),
        name: String::from("Bitcoin"),
        current_price: 50_000 * MICRO,
        ath: 69_000 * MICRO,
        ath_change_percentage: -27_500_000,
        ath_date: String::from("2021-11-10"),
        atl: 67,
        atl_change_percentage: 74_000 * MICRO as i64,
        atl_date: String::from("2013-07-06"),
        market_cap: 900 * MICRO,
        price_change_percentage_24h: 1_000_000,
    }];
    let records = convert_market_data("BTC", &market);
    assert_eq!(records.len(), 1);
    assert_eq!(records[0].coin, "BTC");
    assert_eq!(records[0].ath, 69_000 * MICRO);
    assert_eq!(records[0].ath_date, "2021-11-10");
    assert_eq!(records[0].atl, 67);
    assert_eq!(records[0].atl_date, "2013-07-06");
}

#[test]
fn coin_list_update_matches_by_uppercased_symbol() {
    let config = CoinsData {
        coins: vec![
            CoinDef {
                code: String::from("BTC"),
                price_provider: PriceProviderEnum::CryptoCompare,
                price_provider_data: None,
                ath_provider: AthProviderEnum::CoinGecko,
                ath_provider_data: None,
            },
            CoinDef {
                code: String::from("NOPE"),
                price_provider: PriceProviderEnum::CoinAPI,
                price_provider_data: None,
                ath_provider: AthProviderEnum::CoinGecko,
                ath_provider_data: None,
            },
        ],
    };
    let listing = vec![Coin {
        id: String::from("bitcoin"),
        symbol: String::from("btc"),
        name: String::from("Bitcoin"),
    }];
    let (updated, not_found) = update_coins_with_list(&config, &listing);
    assert_eq!(updated.coins.len(), 2);
    let data = updated.coins[0].ath_provider_data.as_ref().unwrap();
    assert_eq!(data.get("token_id").unwrap(), "bitcoin");
    assert!(updated.coins[1].ath_provider_data.is_none());
    assert_eq!(not_found, vec![String::from("NOPE")]);
}

#[test]
fn coin_def_lookup_finds_first_match() {
    let config = CoinsData {
        coins: vec![CoinDef {
            code: String::from("BTC"),
            price_provider: PriceProviderEnum::CryptoCompare,
            price_provider_data: None,
            ath_provider: AthProviderEnum::CoinGecko,
            ath_provider_data: None,
        }],
    };
    assert_eq!(config.get_coin_def("BTC").unwrap().code, "BTC");
    assert!(config.get_coin_def("ETH").is_none());
}

#[test]
fn provider_data_lookup_takes_first_entry() {
    let data = ProviderData {
        entries: vec![
            (String::from("k"), String::from("first")),
            (String::from("k"), String::from("second")),
        ],
    };
    assert_eq!(data.get("k").unwrap(), "first");
    assert!(data.get("missing").is_none());
}

#[test]
fn provider_defaults() {
    assert_eq!(PriceProviderEnum::default(), PriceProviderEnum::CryptoCompare);
    assert_eq!(AthProviderEnum::default(), AthProviderEnum::CoinGecko);
}
