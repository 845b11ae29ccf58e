use portfolio::model::MICRO;
use portfolio::render::{render_report, render_row, render_wallets_report};
use portfolio::report::{ListWalletLine, ReportLine};

fn example_line() -> ReportLine {
    ReportLine {
        token: String::from("BTC"),
        amount: MICRO / 2,
        value: 25_000 * MICRO as u128,
        mkt_cap: 900 * MICRO,
        change_24h: 1_000_000,
        wallet_name: String::from("W1"),
        wallet_kind: String::from("Ledger"),
        wallet_address: String::from("addr1"),
    }
}

#[test]
fn row_renders_fixed_width_columns() {
    let row = render_row(&example_line());
    assert_eq!(
        row,
        "BTC     |      0.500000 |     25000.00 |                 900.00 | W1                               | addr1                           "
    );
}

#[test]
fn report_renders_frame_rows_and_totals() {
    let rows = render_report(&vec![example_line()]);
    assert_eq!(rows.len(), 8);
    assert_eq!(rows[0], "-".repeat(103));
    assert_eq!(
        rows[1],
        "Token   |        Amount |        Value |                Mkt.Cap | Wallet                           | Address"
    );
    assert_eq!(rows[2], "-".repeat(103));
    assert!(rows[3].starts_with("BTC     |"));
    assert_eq!(rows[4], "-".repeat(103));
    assert_eq!(rows[5], "Amount  |       0.500000  |");
    assert_eq!(rows[6], "Sum     |       25000.00  |");
    assert_eq!(rows[7], "-".repeat(103));
}

#[test]
fn empty_report_still_has_frame_and_zero_totals() {
    let rows = render_report(&Vec::new());
    assert_eq!(rows.len(), 7);
    assert_eq!(rows[4], "Amount  |       0.000000  |");
    assert_eq!(rows[5], "Sum     |           0.00  |");
}

#[test]
fn wallet_listing_renders_rows() {
    let lines = vec![ListWalletLine {
        wallet_name: String::from("W1"),
        wallet_kind: String::from("Ledger"),
        wallet_address: String::from("addr1"),
    }];
    let rows = render_wallets_report(&lines);
    assert_eq!(rows.len(), 5);
    assert_eq!(rows[0], "-".repeat(95));
    assert_eq!(
        rows[1],
        "Wallet                           | Kind                             | Address"
    );
    assert_eq!(
        rows[3],
        "W1                               | Ledger                           | addr1                                                           "
    );
    assert_eq!(rows[4], "-".repeat(95));
}
