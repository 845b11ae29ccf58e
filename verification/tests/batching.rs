use portfolio::batching::{split_coins_inputs, split_symbols, MAX_SYMBOLS_LEN, SYMBOLS_TOLERANCE};
use portfolio::config::{AthProviderEnum, CoinDef, PriceProviderEnum};

fn symbols(names: &[&str]) -> Vec<String> {
    names.iter().map(|s| String::from(*s)).collect()
}

fn coin(code: &str) -> CoinDef {
    CoinDef {
        code: String::from(code),
        price_provider: PriceProviderEnum::CryptoCompare,
        price_provider_data: None,
        ath_provider: AthProviderEnum::CoinGecko,
        ath_provider_data: None,
    }
}

#[test]
fn planner_boundary_arithmetic() {
    // Budget 15, tolerance 5: weights 4, then 4+5=9, and 9+3 would
    // reach 12 >= 10, so the third symbol starts a new group.
    let groups = split_symbols(&symbols(&["AAA", "BBBB", "CC"]), 15, 5);
    assert_eq!(groups, vec![symbols(&["AAA", "BBBB"]), symbols(&["CC"])]);
}

#[test]
fn planner_empty_input_yields_zero_groups() {
    let groups = split_symbols(&symbols(&[]), 15, 5);
    assert!(groups.is_empty());
}

#[test]
fn planner_concatenation_reproduces_input() {
    let input = symbols(&["AB", "CDE", "F", "GHIJ", "KL", "MNOPQ", "R"]);
    let groups = split_symbols(&input, 10, 2);
    let flat: Vec<String> = groups.iter().flat_map(|g| g.iter().cloned()).collect();
    assert_eq!(flat, input);
    for g in &groups {
        assert!(!g.is_empty());
        let weight: usize = g.iter().map(|s| s.len() + 1).sum();
        assert!(weight < 10 - 2);
    }
}

#[test]
fn planner_single_group_under_budget() {
    let groups = split_symbols(&symbols(&["BTC", "ETH"]), 200, 10);
    assert_eq!(groups, vec![symbols(&["BTC", "ETH"])]);
}

#[test]
fn coin_split_uses_default_budget() {
    // 47 four-character codes weigh 5 each; the threshold is
    // 200 - 10 = 190, so 37 codes (weight 185) fill the first group.
    let codes: Vec<String> = (0..47).map(|i| format!("C{:03}", i)).collect();
    let coins: Vec<CoinDef> = codes.iter().map(|c| coin(c)).collect();
    let groups = split_coins_inputs(&coins);
    assert_eq!(MAX_SYMBOLS_LEN, 200);
    assert_eq!(SYMBOLS_TOLERANCE, 10);
    assert_eq!(groups.len(), 2);
    assert_eq!(groups[0].len(), 37);
    assert_eq!(groups[1].len(), 10);
    let flat: Vec<String> = groups.iter().flat_map(|g| g.iter().cloned()).collect();
    assert_eq!(flat, codes);
}
