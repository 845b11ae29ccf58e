//! Report rendering: the fixed-width table text of a holdings report
//! and of a wallet listing.
//!
//! Rendering is a pure function of the sorted line list: each line
//! becomes one row, and the report closes with a totals row for the
//! summed amount and value.  Quantities print in decimal with a fixed
//! number of fraction digits out of their micro-unit representation.
//! Writing the rows to a sink happens outside the library.

use vstd::prelude::*;

use crate::codec::hex_char;
use crate::model::MICRO;
use crate::report::{lines_view, sum_amount, sum_value, ListWalletLine, ListWalletLineV,
    ReportLine, ReportLineV};

verus! {

broadcast use vstd::string::group_string_axioms;

/// A nonnegative value's decimal digits, most significant first.
pub open spec fn dec_digits(v: int) -> Seq<char>
    decreases v,
{
    if v < 10 {
        seq![hex_char(if v < 0 { 0 } else { v })]
    } else {
        dec_digits(v / 10) + seq![hex_char(v % 10)]
    }
}

/// A nonnegative value as exactly `n` decimal digits, zero-padded.
pub open spec fn dec_pad(v: int, n: nat) -> Seq<char>
    decreases n,
{
    if n == 0 {
        Seq::empty()
    } else {
        dec_pad(v / 10, (n - 1) as nat) + seq![hex_char(v % 10)]
    }
}

/// A micro-unit quantity in decimal with six fraction digits.
pub open spec fn fixed6(v: int) -> Seq<char> {
    dec_digits(v / (MICRO as int)) + seq!['.'] + dec_pad(v % (MICRO as int), 6)
}

/// A micro-unit quantity in decimal with two fraction digits,
/// truncated.
pub open spec fn fixed2(v: int) -> Seq<char> {
    dec_digits(v / (MICRO as int)) + seq!['.'] + dec_pad((v % (MICRO as int)) / 10_000, 2)
}

/// `n` spaces.
pub open spec fn spaces(n: nat) -> Seq<char>
    decreases n,
{
    if n == 0 {
        Seq::empty()
    } else {
        spaces((n - 1) as nat) + seq![' ']
    }
}

/// Text padded with spaces on the left up to a width; longer text
/// stays as it is.
pub open spec fn pad_left(s: Seq<char>, w: nat) -> Seq<char> {
    if s.len() >= w {
        s
    } else {
        spaces((w - s.len()) as nat) + s
    }
}

/// Text padded with spaces on the right up to a width; longer text
/// stays as it is.
pub open spec fn pad_right(s: Seq<char>, w: nat) -> Seq<char> {
    if s.len() >= w {
        s
    } else {
        s + spaces((w - s.len()) as nat)
    }
}

fn digit_str(d: u64) -> (r: &'static str)
    requires
        d < 10,
    ensures
        r@ == seq![hex_char(d as int)],
{
    proof {
        reveal_strlit("0");
        reveal_strlit("1");
        reveal_strlit("2");
        reveal_strlit("3");
        reveal_strlit("4");
        reveal_strlit("5");
        reveal_strlit("6");
        reveal_strlit("7");
        reveal_strlit("8");
        reveal_strlit("9");
    }
    let r: &'static str = if d == 0 {
        "0"
    } else if d == 1 {
        "1"
    } else if d == 2 {
        "2"
    } else if d == 3 {
        "3"
    } else if d == 4 {
        "4"
    } else if d == 5 {
        "5"
    } else if d == 6 {
        "6"
    } else if d == 7 {
        "7"
    } else if d == 8 {
        "8"
    } else {
        "9"
    };
    proof {
        assert(r@ =~= seq![hex_char(d as int)]);
    }
    r
}

fn push_dec(out: &mut String, v: u128)
    ensures
        final(out)@ == old(out)@ + dec_digits(v as int),
    decreases v,
{
    if v < 10 {
        let digit = digit_str(v as u64);
        out.append(digit);
        proof {
            assert(old(out)@ + dec_digits(v as int) =~= old(out)@ + seq![hex_char(v as int)]);
        }
    } else {
        push_dec(out, v / 10);
        let digit = digit_str((v % 10) as u64);
        out.append(digit);
        proof {
            assert(old(out)@ + dec_digits(v as int) =~= (old(out)@ + dec_digits((v / 10) as int))
                + seq![hex_char((v % 10) as int)]);
        }
    }
}

fn push_dec_pad(out: &mut String, v: u128, n: usize)
    ensures
        final(out)@ == old(out)@ + dec_pad(v as int, n as nat),
    decreases n,
{
    if n == 0 {
        proof {
            assert(old(out)@ + dec_pad(v as int, 0) =~= old(out)@);
        }
    } else {
        push_dec_pad(out, v / 10, n - 1);
        let digit = digit_str((v % 10) as u64);
        out.append(digit);
        proof {
            assert(old(out)@ + dec_pad(v as int, n as nat) =~= (old(out)@ + dec_pad(
                (v / 10) as int,
                (n - 1) as nat,
            )) + seq![hex_char((v % 10) as int)]);
        }
    }
}

fn push_fixed6(out: &mut String, v: u128)
    ensures
        final(out)@ == old(out)@ + fixed6(v as int),
{
    push_dec(out, v / (MICRO as u128));
    proof {
        reveal_strlit(".");
    }
    out.append(".");
    push_dec_pad(out, v % (MICRO as u128), 6);
    proof {
        assert("."@ =~= seq!['.']);
        assert(old(out)@ + fixed6(v as int) =~= ((old(out)@ + dec_digits((v / (MICRO as u128))
            as int)) + seq!['.']) + dec_pad((v % (MICRO as u128)) as int, 6));
    }
}

fn push_fixed2(out: &mut String, v: u128)
    ensures
        final(out)@ == old(out)@ + fixed2(v as int),
{
    push_dec(out, v / (MICRO as u128));
    proof {
        reveal_strlit(".");
    }
    out.append(".");
    push_dec_pad(out, (v % (MICRO as u128)) / 10_000, 2);
    proof {
        assert("."@ =~= seq!['.']);
        assert(old(out)@ + fixed2(v as int) =~= ((old(out)@ + dec_digits((v / (MICRO as u128))
            as int)) + seq!['.']) + dec_pad(((v % (MICRO as u128)) / 10_000) as int, 2));
    }
}

fn push_spaces(out: &mut String, n: usize)
    ensures
        final(out)@ == old(out)@ + spaces(n as nat),
    decreases n,
{
    if n == 0 {
        proof {
            assert(old(out)@ + spaces(0) =~= old(out)@);
        }
    } else {
        push_spaces(out, n - 1);
        proof {
            reveal_strlit(" ");
        }
        out.append(" ");
        proof {
            assert(" "@ =~= seq![' ']);
            assert(old(out)@ + spaces(n as nat) =~= (old(out)@ + spaces((n - 1) as nat))
                + seq![' ']);
        }
    }
}

fn push_pad_left(out: &mut String, s: &str, w: usize)
    ensures
        final(out)@ == old(out)@ + pad_left(s@, w as nat),
{
    let l = s.unicode_len();
    if l >= w {
        out.append(s);
    } else {
        push_spaces(out, w - l);
        out.append(s);
        proof {
            assert(old(out)@ + pad_left(s@, w as nat) =~= (old(out)@ + spaces((w - l) as nat))
                + s@);
        }
    }
}

fn push_pad_right(out: &mut String, s: &str, w: usize)
    ensures
        final(out)@ == old(out)@ + pad_right(s@, w as nat),
{
    let l = s.unicode_len();
    out.append(s);
    if l < w {
        push_spaces(out, w - l);
        proof {
            assert(old(out)@ + pad_right(s@, w as nat) =~= (old(out)@ + s@) + spaces(
                (w - l) as nat,
            ));
        }
    }
}

/// The row of one report line: token, amount, value, market
/// capitalization, wallet name and address, in fixed-width columns.
pub open spec fn row_text(l: ReportLineV) -> Seq<char> {
    pad_right(l.token, 8) + "|"@ + pad_left(fixed6(l.amount as int), 14) + " | "@ + pad_left(
        fixed2(l.value as int),
        12,
    ) + " | "@ + pad_left(fixed2(l.mkt_cap as int), 22) + " | "@ + pad_right(l.wallet_name, 32)
        + " | "@ + pad_right(l.wallet_address, 32)
}

/// The row of one report line, as text.
pub fn render_row(l: &ReportLine) -> (r: String)
    ensures
        r@ == row_text(l@),
{
    proof {
        reveal_strlit("|");
        reveal_strlit(" | ");
    }
    let mut out = String::new();
    push_pad_right(&mut out, l.token.as_str(), 8);
    out.append("|");
    push_pad_left_fixed6(&mut out, l.amount as u128, 14);
    out.append(" | ");
    push_pad_left_fixed2(&mut out, l.value, 12);
    out.append(" | ");
    push_pad_left_fixed2(&mut out, l.mkt_cap as u128, 22);
    out.append(" | ");
    push_pad_right(&mut out, l.wallet_name.as_str(), 32);
    out.append(" | ");
    push_pad_right(&mut out, l.wallet_address.as_str(), 32);
    proof {
        assert(out@ =~= row_text(l@));
    }
    out
}

fn push_pad_left_fixed6(out: &mut String, v: u128, w: usize)
    ensures
        final(out)@ == old(out)@ + pad_left(fixed6(v as int), w as nat),
{
    let mut num = String::new();
    push_fixed6(&mut num, v);
    proof {
        assert(num@ =~= fixed6(v as int));
    }
    push_pad_left(out, num.as_str(), w);
}

fn push_pad_left_fixed2(out: &mut String, v: u128, w: usize)
    ensures
        final(out)@ == old(out)@ + pad_left(fixed2(v as int), w as nat),
{
    let mut num = String::new();
    push_fixed2(&mut num, v);
    proof {
        assert(num@ =~= fixed2(v as int));
    }
    push_pad_left(out, num.as_str(), w);
}

/// The closing totals rows: the summed amount, then the summed value.
pub open spec fn totals_rows(ls: Seq<ReportLineV>) -> Seq<Seq<char>> {
    seq![
        "Amount  | "@ + pad_left(fixed6(sum_amount(ls)), 14) + "  |"@,
        "Sum     | "@ + pad_left(fixed2(sum_value(ls)), 14) + "  |"@,
    ]
}

/// The full report text: a framed header row, one row per line in
/// order, and a framed totals block.
pub open spec fn report_rows(ls: Seq<ReportLineV>) -> Seq<Seq<char>> {
    seq![rule_text(), header_text(), rule_text()] + ls.map_values(|l: ReportLineV| row_text(l))
        + seq![rule_text()] + totals_rows(ls) + seq![rule_text()]
}

/// The horizontal rule between the report's blocks.
pub open spec fn rule_text() -> Seq<char> {
    "-------------------------------------------------------------------------------------------------------"@
}

/// The header row naming the report's columns.
pub open spec fn header_text() -> Seq<char> {
    "Token   |        Amount |        Value |                Mkt.Cap | Wallet                           | Address"@
}

/// Renders a finished report as rows of text: frame, header, one row
/// per line, and the totals of amount and value.  The totals must fit
/// their fields, which every caller below machine scale satisfies.
pub fn render_report(report_lines: &Vec<ReportLine>) -> (r: Vec<String>)
    requires
        sum_amount(lines_view(report_lines@)) <= u64::MAX,
        sum_value(lines_view(report_lines@)) <= u128::MAX,
    ensures
        r.deep_view() == report_rows(lines_view(report_lines@)),
{
    let ghost ls = lines_view(report_lines@);
    let mut r: Vec<String> = Vec::new();
    let rule =
        "-------------------------------------------------------------------------------------------------------";
    let header =
        "Token   |        Amount |        Value |                Mkt.Cap | Wallet                           | Address";
    r.push(String::from_str(rule));
    r.push(String::from_str(header));
    r.push(String::from_str(rule));
    let ghost head = seq![rule_text(), header_text(), rule_text()];
    proof {
        assert(r.deep_view() =~= head);
    }
    let n = report_lines.len();
    let mut i: usize = 0;
    while i < n
        invariant
            0 <= i <= n,
            n == report_lines.len(),
            ls == lines_view(report_lines@),
            head == seq![rule_text(), header_text(), rule_text()],
            r.deep_view() == head + ls.take(i as int).map_values(|l: ReportLineV| row_text(l)),
        decreases n - i,
    {
        let row = render_row(&report_lines[i]);
        let ghost prev = r.deep_view();
        r.push(row);
        proof {
            assert(r.deep_view() =~= prev.push(row@));
            assert(ls.take(i + 1).map_values(|l: ReportLineV| row_text(l)) =~= ls.take(
                i as int,
            ).map_values(|l: ReportLineV| row_text(l)).push(row_text(ls[i as int])));
            assert(r.deep_view() =~= head + ls.take(i + 1).map_values(
                |l: ReportLineV| row_text(l),
            ));
        }
        i = i + 1;
    }
    proof {
        assert(ls.take(n as int) =~= ls);
    }
    let totals = match crate::report::report_totals(report_lines) {
        Some(t) => t,
        None => (0, 0),
    };
    r.push(String::from_str(rule));
    proof {
        reveal_strlit("Amount  | ");
        reveal_strlit("Sum     | ");
        reveal_strlit("  |");
    }
    let mut amount_row = String::from_str("Amount  | ");
    push_pad_left_fixed6(&mut amount_row, totals.0 as u128, 14);
    amount_row.append("  |");
    proof {
        assert(amount_row@ =~= "Amount  | "@ + pad_left(fixed6(sum_amount(ls)), 14) + "  |"@);
    }
    r.push(amount_row);
    let mut sum_row = String::from_str("Sum     | ");
    push_pad_left_fixed2(&mut sum_row, totals.1, 14);
    sum_row.append("  |");
    proof {
        assert(sum_row@ =~= "Sum     | "@ + pad_left(fixed2(sum_value(ls)), 14) + "  |"@);
    }
    r.push(sum_row);
    r.push(String::from_str(rule));
    proof {
        assert(r.deep_view() =~= report_rows(ls));
    }
    r
}

/// The row of one wallet listing line.
pub open spec fn wallet_row_text(l: ListWalletLineV) -> Seq<char> {
    pad_right(l.wallet_name, 32) + " | "@ + pad_right(l.wallet_kind, 32) + " | "@ + pad_right(
        l.wallet_address,
        64,
    )
}

/// The header row of the wallet listing.
pub open spec fn wallets_header_text() -> Seq<char> {
    "Wallet                           | Kind                             | Address"@
}

/// The horizontal rule of the wallet listing.
pub open spec fn wallets_rule_text() -> Seq<char> {
    "-----------------------------------------------------------------------------------------------"@
}

/// The full wallet listing text: a framed header and one row per
/// wallet, closed with a rule.
pub open spec fn wallets_rows(ls: Seq<ListWalletLineV>) -> Seq<Seq<char>> {
    seq![wallets_rule_text(), wallets_header_text(), wallets_rule_text()] + ls.map_values(
        |l: ListWalletLineV| wallet_row_text(l),
    ) + seq![wallets_rule_text()]
}

/// Renders the wallet listing as rows of text.
pub fn render_wallets_report(report_lines: &Vec<ListWalletLine>) -> (r: Vec<String>)
    ensures
        r.deep_view() == wallets_rows(report_lines@.map_values(|l: ListWalletLine| l@)),
{
    let ghost ls = report_lines@.map_values(|l: ListWalletLine| l@);
    let mut r: Vec<String> = Vec::new();
    let rule =
        "-----------------------------------------------------------------------------------------------";
    let header = "Wallet                           | Kind                             | Address";
    r.push(String::from_str(rule));
    r.push(String::from_str(header));
    r.push(String::from_str(rule));
    let ghost head = seq![wallets_rule_text(), wallets_header_text(), wallets_rule_text()];
    proof {
        assert(r.deep_view() =~= head);
    }
    let n = report_lines.len();
    let mut i: usize = 0;
    while i < n
        invariant
            0 <= i <= n,
            n == report_lines.len(),
            ls == report_lines@.map_values(|l: ListWalletLine| l@),
            head == seq![wallets_rule_text(), wallets_header_text(), wallets_rule_text()],
            r.deep_view() == head + ls.take(i as int).map_values(
                |l: ListWalletLineV| wallet_row_text(l),
            ),
        decreases n - i,
    {
        let l = &report_lines[i];
        proof {
            reveal_strlit(" | ");
        }
        let mut row = String::new();
        push_pad_right(&mut row, l.wallet_name.as_str(), 32);
        row.append(" | ");
        push_pad_right(&mut row, l.wallet_kind.as_str(), 32);
        row.append(" | ");
        push_pad_right(&mut row, l.wallet_address.as_str(), 64);
        proof {
            assert(row@ =~= wallet_row_text(ls[i as int]));
        }
        let ghost prev = r.deep_view();
        r.push(row);
        proof {
            assert(r.deep_view() =~= prev.push(row@));
            assert(ls.take(i + 1).map_values(|l: ListWalletLineV| wallet_row_text(l)) =~= ls.take(
                i as int,
            ).map_values(|l: ListWalletLineV| wallet_row_text(l)).push(wallet_row_text(
                ls[i as int],
            )));
            assert(r.deep_view() =~= head + ls.take(i + 1).map_values(
                |l: ListWalletLineV| wallet_row_text(l),
            ));
        }
        i = i + 1;
    }
    proof {
        assert(ls.take(n as int) =~= ls);
    }
    r.push(String::from_str(rule));
    proof {
        assert(r.deep_view() =~= wallets_rows(ls));
    }
    r
}

} // verus!
