use portfolio::config::{CoinHolding, WalletDef, WalletsData};
use portfolio::model::{Currency, PriceInfo, ReportOrder, ReportSortBy, MICRO};
use portfolio::report::{
    find_price_info, group_by_token, list_wallets, missing_price_coins, report_holdings,
    report_holdings_checked, report_totals, reverse_lines, sort_report_lines, ReportFilter,
    ReportLine,
};

fn price(coin: &str, currency: Currency, value: u64, market_cap: u64, change_24h: i64) -> PriceInfo {
    PriceInfo { coin: String::from(coin), currency, value, market_cap, change_24h }
}

fn wallet(name: &str, kind: &str, address: &str, holdings: Vec<CoinHolding>) -> WalletDef {
    WalletDef {
        name: String::from(name),
        kind: String::from(kind),
        address: String::from(address),
        holdings,
    }
}

fn holding(coin: &str, amount: u64) -> CoinHolding {
    CoinHolding { coin: String::from(coin), amount }
}

fn line(token: &str, amount: u64, value: u128) -> ReportLine {
    ReportLine {
        token: String::from(token),
        amount,
        value,
        mkt_cap: 0,
        change_24h: 0,
        wallet_name: String::from("W"),
        wallet_kind: String::from("K"),
        wallet_address: String::from("A"),
    }
}

fn example_data() -> (WalletsData, Vec<PriceInfo>) {
    let wallets = WalletsData {
        wallets: vec![wallet(
            "W1",
            "Ledger",
            "addr1",
            vec![holding("BTC", MICRO / 2), holding("ETH", 2 * MICRO)],
        )],
    };
    let prices = vec![
        price("BTC", Currency::USD, 50_000 * MICRO, 900 * MICRO, 1_000_000),
        price("ETH", Currency::USD, 3_000 * MICRO, 400 * MICRO, -2_000_000),
    ];
    (wallets, prices)
}

fn value_desc_filter() -> ReportFilter {
    ReportFilter::new(
        None,
        None,
        None,
        None,
        Currency::USD,
        false,
        ReportSortBy::Value,
        ReportOrder::Desc,
    )
}

#[test]
fn example_report_values_and_total() {
    // Half a bitcoin at 50000 and two ether at 3000 give line values
    // 25000 and 6000; sorted by value descending, bitcoin comes first
    // and the totals row sums to 31000.
    let (wallets, prices) = example_data();
    let filter = value_desc_filter();
    let lines = report_holdings(&wallets, &prices, &filter);
    assert_eq!(lines.len(), 2);
    assert_eq!(lines[0].token, "BTC");
    assert_eq!(lines[0].value, 25_000 * MICRO as u128);
    assert_eq!(lines[1].token, "ETH");
    assert_eq!(lines[1].value, 6_000 * MICRO as u128);
    let totals = report_totals(&lines).unwrap();
    assert_eq!(totals.1, 31_000 * MICRO as u128);
    assert_eq!(totals.0, MICRO / 2 + 2 * MICRO);
}

#[test]
fn holding_without_price_is_skipped_and_reported() {
    // A held coin with no price record in the requested currency is
    // excluded from the lines and the totals, and named as skipped.
    let wallets = WalletsData {
        wallets: vec![wallet(
            "W1",
            "Ledger",
            "addr1",
            vec![holding("BTC", MICRO), holding("DOGE", 5 * MICRO)],
        )],
    };
    let prices = vec![price("BTC", Currency::USD, 10 * MICRO, 0, 0)];
    let filter = value_desc_filter();
    let lines = report_holdings(&wallets, &prices, &filter);
    assert_eq!(lines.len(), 1);
    assert_eq!(lines[0].token, "BTC");
    let totals = report_totals(&lines).unwrap();
    assert_eq!(totals.0, MICRO);
    assert_eq!(totals.1, 10 * MICRO as u128);
    let missing = missing_price_coins(&wallets, &prices, &filter);
    assert_eq!(missing, vec![String::from("DOGE")]);
}

#[test]
fn price_lookup_needs_exact_currency() {
    let prices = vec![
        price("BTC", Currency::EUR, 1, 0, 0),
        price("BTC", Currency::USD, 2, 0, 0),
    ];
    let found = find_price_info("BTC", &prices, &Currency::USD).unwrap();
    assert_eq!(found.value, 2);
    assert!(find_price_info("ETH", &prices, &Currency::USD).is_none());
}

#[test]
fn wallet_filters_exact_match() {
    let (wallets, prices) = example_data();
    let filter = ReportFilter::new(
        None,
        Some(String::from("W2")),
        None,
        None,
        Currency::USD,
        false,
        ReportSortBy::Value,
        ReportOrder::Desc,
    );
    assert!(report_holdings(&wallets, &prices, &filter).is_empty());
    let filter = ReportFilter::new(
        Some(String::from("ETH")),
        Some(String::from("W1")),
        Some(String::from("Ledger")),
        Some(String::from("addr1")),
        Currency::USD,
        false,
        ReportSortBy::Value,
        ReportOrder::Desc,
    );
    let lines = report_holdings(&wallets, &prices, &filter);
    assert_eq!(lines.len(), 1);
    assert_eq!(lines[0].token, "ETH");
}

#[test]
fn grouping_sums_amounts_and_values() {
    // Token lines split across wallets collapse into one line per
    // token; amounts and values sum, so the totals are conserved.
    let lines = vec![line("BTC", 10, 100), line("ETH", 5, 50), line("BTC", 7, 70)];
    let before = report_totals(&lines).unwrap();
    let grouped = group_by_token(&lines);
    assert_eq!(grouped.len(), 2);
    assert_eq!(grouped[0].token, "BTC");
    assert_eq!(grouped[0].amount, 17);
    assert_eq!(grouped[0].value, 170);
    assert_eq!(grouped[0].wallet_name, "-");
    assert_eq!(grouped[1].token, "ETH");
    assert_eq!(grouped[1].amount, 5);
    assert_eq!(grouped[1].value, 50);
    let after = report_totals(&grouped).unwrap();
    assert_eq!(before, after);
}

#[test]
fn grouping_takes_last_seen_market_cap() {
    let mut a = line("BTC", 1, 1);
    a.mkt_cap = 111;
    let mut b = line("BTC", 2, 2);
    b.mkt_cap = 222;
    let grouped = group_by_token(&vec![a, b]);
    assert_eq!(grouped.len(), 1);
    assert_eq!(grouped[0].mkt_cap, 222);
}

#[test]
fn sort_orders_by_each_key() {
    let mut a = line("BBB", 3, 10);
    a.mkt_cap = 5;
    a.change_24h = -1;
    let mut b = line("AAA", 1, 30);
    b.mkt_cap = 9;
    b.change_24h = 4;
    let mut c = line("CCC", 2, 20);
    c.mkt_cap = 1;
    c.change_24h = 0;
    let lines = vec![a, b, c];
    let tokens = |v: &Vec<ReportLine>| -> Vec<String> {
        v.iter().map(|l| l.token.clone()).collect()
    };
    assert_eq!(tokens(&sort_report_lines(&lines, &ReportSortBy::Token)), vec!["AAA", "BBB", "CCC"]);
    assert_eq!(tokens(&sort_report_lines(&lines, &ReportSortBy::Amount)), vec!["AAA", "CCC", "BBB"]);
    assert_eq!(tokens(&sort_report_lines(&lines, &ReportSortBy::Value)), vec!["BBB", "CCC", "AAA"]);
    assert_eq!(tokens(&sort_report_lines(&lines, &ReportSortBy::MktCap)), vec!["CCC", "BBB", "AAA"]);
    assert_eq!(
        tokens(&sort_report_lines(&lines, &ReportSortBy::Change24h)),
        vec!["BBB", "CCC", "AAA"]
    );
}

#[test]
fn sort_is_stable_for_equal_keys() {
    let mut first = line("BTC", 1, 10);
    first.wallet_name = String::from("First");
    let mut second = line("ETH", 2, 10);
    second.wallet_name = String::from("Second");
    let sorted = sort_report_lines(&vec![first, second], &ReportSortBy::Value);
    assert_eq!(sorted[0].wallet_name, "First");
    assert_eq!(sorted[1].wallet_name, "Second");
}

#[test]
fn descending_is_exact_reversal_of_ascending() {
    // Sorting ascending and then reversing equals sorting descending,
    // for every sort key.
    let (wallets, prices) = example_data();
    let keys = [
        ReportSortBy::Token,
        ReportSortBy::Amount,
        ReportSortBy::Value,
        ReportSortBy::MktCap,
        ReportSortBy::Change24h,
    ];
    for key in keys {
        let asc = ReportFilter::new(
            None, None, None, None, Currency::USD, false, key, ReportOrder::Asc,
        );
        let desc = ReportFilter::new(
            None, None, None, None, Currency::USD, false, key, ReportOrder::Desc,
        );
        let up = report_holdings(&wallets, &prices, &asc);
        let down = report_holdings(&wallets, &prices, &desc);
        let reversed = reverse_lines(&up);
        let tokens = |v: &Vec<ReportLine>| -> Vec<String> {
            v.iter().map(|l| l.token.clone()).collect()
        };
        assert_eq!(tokens(&down), tokens(&reversed));
    }
}

#[test]
fn totals_overflow_is_reported() {
    let lines = vec![line("A", u64::MAX, 1), line("B", u64::MAX, 1)];
    assert!(report_totals(&lines).is_none());
}

#[test]
fn wallet_listing_keeps_order() {
    let wallets = WalletsData {
        wallets: vec![
            wallet("W1", "Ledger", "addr1", Vec::new()),
            wallet("W2", "MetaMask", "addr2", Vec::new()),
        ],
    };
    let listed = list_wallets(&wallets);
    assert_eq!(listed.len(), 2);
    assert_eq!(listed[0].wallet_name, "W1");
    assert_eq!(listed[0].wallet_kind, "Ledger");
    assert_eq!(listed[1].wallet_address, "addr2");
}

#[test]
fn duplicate_price_records_resolve_deterministically() {
    // Two records for the same (coin, currency): the lookup always
    // takes the first, so duplicates stay deterministic.
    let prices = vec![
        price("BTC", Currency::USD, 111, 0, 0),
        price("BTC", Currency::USD, 222, 0, 0),
    ];
    assert_eq!(find_price_info("BTC", &prices, &Currency::USD).unwrap().value, 111);
}

#[test]
fn grouped_report_collapses_across_wallets() {
    let wallets = WalletsData {
        wallets: vec![
            wallet("W1", "Ledger", "addr1", vec![holding("BTC", MICRO)]),
            wallet("W2", "MetaMask", "addr2", vec![holding("BTC", 2 * MICRO)]),
        ],
    };
    let prices = vec![price("BTC", Currency::USD, 10 * MICRO, 0, 0)];
    let filter = ReportFilter::new(
        None,
        None,
        None,
        None,
        Currency::USD,
        true,
        ReportSortBy::Value,
        ReportOrder::Desc,
    );
    let lines = report_holdings(&wallets, &prices, &filter);
    assert_eq!(lines.len(), 1);
    assert_eq!(lines[0].token, "BTC");
    assert_eq!(lines[0].amount, 3 * MICRO);
    assert_eq!(lines[0].value, 30 * MICRO as u128);
    assert_eq!(lines[0].wallet_name, "-");
    assert_eq!(lines[0].wallet_address, "-");
}

#[test]
fn report_joins_in_the_requested_currency() {
    let wallets = WalletsData {
        wallets: vec![wallet("W1", "Ledger", "addr1", vec![holding("BTC", MICRO)])],
    };
    let prices = vec![
        price("BTC", Currency::USD, 10 * MICRO, 0, 0),
        price("BTC", Currency::EUR, 9 * MICRO, 0, 0),
    ];
    let filter = ReportFilter::new(
        None,
        None,
        None,
        None,
        Currency::EUR,
        false,
        ReportSortBy::Value,
        ReportOrder::Desc,
    );
    let lines = report_holdings(&wallets, &prices, &filter);
    assert_eq!(lines.len(), 1);
    assert_eq!(lines[0].value, 9 * MICRO as u128);
}

#[test]
fn checked_report_matches_plain_report() {
    let (wallets, prices) = example_data();
    let filter = value_desc_filter();
    let plain = report_holdings(&wallets, &prices, &filter);
    let checked = report_holdings_checked(&wallets, &prices, &filter).unwrap();
    assert_eq!(plain.len(), checked.len());
    for (a, b) in plain.iter().zip(checked.iter()) {
        assert_eq!(a.token, b.token);
        assert_eq!(a.value, b.value);
    }
}
