use portfolio::aggregate::{filter_coins, group_coins_by_provider, merge_results};
use portfolio::config::{AthProviderEnum, CoinDef, PriceProviderEnum};
use portfolio::model::{Currency, PriceInfo};

fn coin(code: &str, provider: PriceProviderEnum) -> CoinDef {
    CoinDef {
        code: String::from(code),
        price_provider: provider,
        price_provider_data: None,
        ath_provider: AthProviderEnum::CoinGecko,
        ath_provider_data: None,
    }
}

fn price(coin: &str, value: u64) -> PriceInfo {
    PriceInfo {
        coin: String::from(coin),
        currency: Currency::USD,
        value,
        market_cap: 0,
        change_24h: 0,
    }
}

fn codes(coins: &[CoinDef]) -> Vec<String> {
    coins.iter().map(|c| c.code.clone()).collect()
}

#[test]
fn grouping_is_stable_by_first_appearance() {
    let coins = vec![
        coin("BTC", PriceProviderEnum::CryptoCompare),
        coin("ADA", PriceProviderEnum::CoinAPI),
        coin("ETH", PriceProviderEnum::CryptoCompare),
        coin("SOL", PriceProviderEnum::CoinAPI),
    ];
    let groups = group_coins_by_provider(&coins);
    assert_eq!(groups.len(), 2);
    assert_eq!(groups[0].provider, PriceProviderEnum::CryptoCompare);
    assert_eq!(codes(&groups[0].coins), vec!["BTC", "ETH"]);
    assert_eq!(groups[1].provider, PriceProviderEnum::CoinAPI);
    assert_eq!(codes(&groups[1].coins), vec!["ADA", "SOL"]);
}

#[test]
fn grouping_of_empty_coin_set_is_empty() {
    let groups = group_coins_by_provider(&Vec::new());
    assert!(groups.is_empty());
}

#[test]
fn merge_concatenates_successes_in_call_order() {
    let results = vec![
        Some(vec![price("BTC", 1), price("ETH", 2)]),
        Some(vec![price("ADA", 3)]),
    ];
    let merged = merge_results(&results);
    let names: Vec<&str> = merged.iter().map(|p| p.coin.as_str()).collect();
    assert_eq!(names, vec!["BTC", "ETH", "ADA"]);
}

#[test]
fn failed_provider_equals_absent_provider() {
    // One provider's call fails: the merged output equals the output
    // of a run whose input never contained that provider.
    let with_failure = vec![
        Some(vec![price("BTC", 1)]),
        None,
        Some(vec![price("ADA", 3)]),
    ];
    let without_provider = vec![
        Some(vec![price("BTC", 1)]),
        Some(vec![price("ADA", 3)]),
    ];
    let a = merge_results(&with_failure);
    let b = merge_results(&without_provider);
    assert_eq!(a.len(), b.len());
    for (x, y) in a.iter().zip(b.iter()) {
        assert_eq!(x.coin, y.coin);
        assert_eq!(x.value, y.value);
    }
}

#[test]
fn all_calls_failed_yields_empty_merge() {
    let results: Vec<Option<Vec<PriceInfo>>> = vec![None, None];
    assert!(merge_results(&results).is_empty());
}

#[test]
fn filter_keeps_only_named_coin() {
    let coins = vec![
        coin("BTC", PriceProviderEnum::CryptoCompare),
        coin("ETH", PriceProviderEnum::CoinAPI),
    ];
    let kept = filter_coins(&coins, &Some(String::from("ETH")));
    assert_eq!(codes(&kept), vec!["ETH"]);
    let all = filter_coins(&coins, &None);
    assert_eq!(codes(&all), vec!["BTC", "ETH"]);
}
