//! Report engine: joins holdings against aggregated prices, applies
//! coin and wallet filters, optionally groups lines by token, and sorts
//! by a chosen field and direction.
//!
//! A holding with no matching (coin, currency) price is skipped, never
//! fatal; callers can list the skipped coins through
//! [`missing_price_coins`].  A line's value is
//! `amount * price / MICRO` in micro-units, computed exactly.

use vstd::multiset::Multiset;
use vstd::prelude::*;

use crate::config::{CoinHoldingV, WalletDefV, WalletsData};
use crate::model::{
    prices_view, Currency, PriceInfo, PriceInfoV, ReportOrder, ReportSortBy, MICRO,
};

verus! {

/// What a holdings report is restricted to, and how it is presented.
#[derive(Debug)]
pub struct ReportFilter {
    /// Only this coin code, when present.
    pub coin: Option<String>,
    /// Only wallets with this name, when present.
    pub wallet_name: Option<String>,
    /// Only wallets of this kind, when present.
    pub wallet_kind: Option<String>,
    /// Only wallets with this address, when present.
    pub wallet_address: Option<String>,
    /// The currency prices are looked up in.
    pub currency: Currency,
    /// Collapse lines of the same token into one.
    pub group_by_token: bool,
    pub sort_by: ReportSortBy,
    pub order: ReportOrder,
}

/// Mathematical model of a `ReportFilter`.
pub ghost struct ReportFilterV {
    pub coin: Option<Seq<char>>,
    pub wallet_name: Option<Seq<char>>,
    pub wallet_kind: Option<Seq<char>>,
    pub wallet_address: Option<Seq<char>>,
    pub currency: Currency,
    pub group_by_token: bool,
    pub sort_by: ReportSortBy,
    pub order: ReportOrder,
}

/// The model of an optional string.
pub open spec fn opt_view(o: Option<String>) -> Option<Seq<char>> {
    match o {
        Some(s) => Some(s@),
        None => None,
    }
}

impl View for ReportFilter {
    type V = ReportFilterV;

    open spec fn view(&self) -> ReportFilterV {
        ReportFilterV {
            coin: opt_view(self.coin),
            wallet_name: opt_view(self.wallet_name),
            wallet_kind: opt_view(self.wallet_kind),
            wallet_address: opt_view(self.wallet_address),
            currency: self.currency,
            group_by_token: self.group_by_token,
            sort_by: self.sort_by,
            order: self.order,
        }
    }
}

impl Default for ReportFilter {
    /// The default report: everything, in US dollars, ungrouped, sorted
    /// by value descending.
    fn default() -> (r: Self)
        ensures
            r@.coin is None,
            r@.wallet_name is None,
            r@.wallet_kind is None,
            r@.wallet_address is None,
            r@.currency == Currency::USD,
            r@.group_by_token == false,
            r@.sort_by == ReportSortBy::Value,
            r@.order == ReportOrder::Desc,
    {
        Self {
            coin: None,
            wallet_name: None,
            wallet_kind: None,
            wallet_address: None,
            currency: Currency::USD,
            group_by_token: false,
            sort_by: ReportSortBy::Value,
            order: ReportOrder::Desc,
        }
    }
}

impl ReportFilter {
    /// A filter from its parts.
    pub fn new(
        coin: Option<String>,
        wallet_name: Option<String>,
        wallet_kind: Option<String>,
        wallet_address: Option<String>,
        currency: Currency,
        group_by_token: bool,
        sort_by: ReportSortBy,
        order: ReportOrder,
    ) -> (r: Self)
        ensures
            r@.coin == opt_view(coin),
            r@.wallet_name == opt_view(wallet_name),
            r@.wallet_kind == opt_view(wallet_kind),
            r@.wallet_address == opt_view(wallet_address),
            r@.currency == currency,
            r@.group_by_token == group_by_token,
            r@.sort_by == sort_by,
            r@.order == order,
    {
        Self { coin, wallet_name, wallet_kind, wallet_address, currency, group_by_token, sort_by, order }
    }
}

/// One row of a holdings report, joining a holding, its matched price
/// and its wallet's identity.
#[derive(Debug)]
pub struct ReportLine {
    pub token: String,
    /// Held amount in micro-units of the coin.
    pub amount: u64,
    /// Position value in micro-units of the currency.
    pub value: u128,
    /// The token's market capitalization in micro-units.
    pub mkt_cap: u64,
    /// The token's 24-hour change in micro-percent.
    pub change_24h: i64,
    pub wallet_name: String,
    pub wallet_kind: String,
    pub wallet_address: String,
}

/// Mathematical model of a `ReportLine`.
pub ghost struct ReportLineV {
    pub token: Seq<char>,
    pub amount: u64,
    pub value: u128,
    pub mkt_cap: u64,
    pub change_24h: i64,
    pub wallet_name: Seq<char>,
    pub wallet_kind: Seq<char>,
    pub wallet_address: Seq<char>,
}

impl View for ReportLine {
    type V = ReportLineV;

    open spec fn view(&self) -> ReportLineV {
        ReportLineV {
            token: self.token@,
            amount: self.amount,
            value: self.value,
            mkt_cap: self.mkt_cap,
            change_24h: self.change_24h,
            wallet_name: self.wallet_name@,
            wallet_kind: self.wallet_kind@,
            wallet_address: self.wallet_address@,
        }
    }
}

/// The model of a list of report lines.
pub open spec fn lines_view(v: Seq<ReportLine>) -> Seq<ReportLineV> {
    v.map_values(|l: ReportLine| l@)
}

impl ReportLine {
    /// A copy with the same fields.
    pub fn duplicate(&self) -> (r: ReportLine)
        ensures
            r@ == self@,
    {
        ReportLine {
            token: self.token.clone(),
            amount: self.amount,
            value: self.value,
            mkt_cap: self.mkt_cap,
            change_24h: self.change_24h,
            wallet_name: self.wallet_name.clone(),
            wallet_kind: self.wallet_kind.clone(),
            wallet_address: self.wallet_address.clone(),
        }
    }
}

/// Whether a wallet passes the wallet-level filters: each identity
/// filter that is present must exact-match.
pub open spec fn wallet_passes(w: WalletDefV, f: ReportFilterV) -> bool {
    &&& match f.wallet_address {
        Some(a) => w.address == a,
        None => true,
    }
    &&& match f.wallet_kind {
        Some(k) => w.kind == k,
        None => true,
    }
    &&& match f.wallet_name {
        Some(n) => w.name == n,
        None => true,
    }
}

/// Whether a holding passes the coin filter.
pub open spec fn holding_passes(h: CoinHoldingV, f: ReportFilterV) -> bool {
    match f.coin {
        Some(c) => h.coin == c,
        None => true,
    }
}

/// The first price record matching a coin and currency exactly, if any.
pub open spec fn find_price(prices: Seq<PriceInfoV>, coin: Seq<char>, currency: Currency) -> Option<
    PriceInfoV,
>
    decreases prices.len(),
{
    if prices.len() == 0 {
        None
    } else if prices[0].coin == coin && prices[0].currency == currency {
        Some(prices[0])
    } else {
        find_price(prices.drop_first(), coin, currency)
    }
}

proof fn lemma_find_price_skip(prices: Seq<PriceInfoV>, coin: Seq<char>, currency: Currency, i: int)
    requires
        0 <= i <= prices.len(),
        forall|j: int|
            0 <= j < i ==> !((#[trigger] prices[j]).coin == coin && prices[j].currency
                == currency),
    ensures
        find_price(prices, coin, currency) == find_price(prices.skip(i), coin, currency),
    decreases i,
{
    if i > 0 {
        lemma_find_price_skip(prices, coin, currency, i - 1);
        assert(prices.skip(i - 1)[0] == prices[i - 1]);
        assert(prices.skip(i - 1).drop_first() =~= prices.skip(i));
    } else {
        assert(prices.skip(0) =~= prices);
    }
}

/// Looks the price of a coin up in the requested currency: the first
/// record matching both exactly, or nothing when the pair is absent.
pub fn find_price_info<'a>(coin: &str, prices: &'a Vec<PriceInfo>, currency: &Currency) -> (r:
    Option<&'a PriceInfo>)
    ensures
        match r {
            Some(p) => find_price(prices_view(prices@), coin@, *currency) == Some(p@),
            None => find_price(prices_view(prices@), coin@, *currency) is None,
        },
{
    let coin_s = String::from_str(coin);
    let n = prices.len();
    let mut i: usize = 0;
    while i < n
        invariant
            0 <= i <= n,
            n == prices.len(),
            coin_s@ == coin@,
            forall|j: int|
                0 <= j < i ==> !((#[trigger] prices_view(prices@)[j]).coin == coin@ && prices_view(
                    prices@,
                )[j].currency == *currency),
        decreases n - i,
    {
        if prices[i].coin == coin_s && prices[i].currency == *currency {
            proof {
                lemma_find_price_skip(prices_view(prices@), coin@, *currency, i as int);
                assert(prices_view(prices@).skip(i as int)[0] == prices_view(prices@)[i as int]);
            }
            return Some(&prices[i]);
        }
        i = i + 1;
    }
    proof {
        lemma_find_price_skip(prices_view(prices@), coin@, *currency, n as int);
        assert(prices_view(prices@).skip(n as int).len() == 0);
    }
    None
}

/// The value of a position: `amount * price`, scaled back into
/// micro-units.
pub open spec fn line_value(amount: u64, price: u64) -> int {
    (amount * price) / (MICRO as int)
}

/// The report line derived from one holding, its wallet and its
/// matched price record.
pub open spec fn mk_line(w: WalletDefV, h: CoinHoldingV, p: PriceInfoV) -> ReportLineV {
    ReportLineV {
        token: h.coin,
        amount: h.amount,
        value: line_value(h.amount, p.value) as u128,
        mkt_cap: p.market_cap,
        change_24h: p.change_24h,
        wallet_name: w.name,
        wallet_kind: w.kind,
        wallet_address: w.address,
    }
}

/// The lines contributed by a prefix of one wallet's holdings: one line
/// per holding that passes the coin filter and has a matching price.
pub open spec fn holdings_lines(
    w: WalletDefV,
    hs: Seq<CoinHoldingV>,
    prices: Seq<PriceInfoV>,
    f: ReportFilterV,
) -> Seq<ReportLineV>
    decreases hs.len(),
{
    if hs.len() == 0 {
        Seq::empty()
    } else {
        holdings_lines(w, hs.drop_last(), prices, f) + ({
            let h = hs.last();
            if holding_passes(h, f) {
                match find_price(prices, h.coin, f.currency) {
                    Some(p) => seq![mk_line(w, h, p)],
                    None => Seq::empty(),
                }
            } else {
                Seq::empty()
            }
        })
    }
}

/// The ungrouped, unsorted report lines: wallet by wallet, holding by
/// holding, keeping only what passes the filters and has a price.
pub open spec fn report_lines_spec(
    wallets: Seq<WalletDefV>,
    prices: Seq<PriceInfoV>,
    f: ReportFilterV,
) -> Seq<ReportLineV>
    decreases wallets.len(),
{
    if wallets.len() == 0 {
        Seq::empty()
    } else {
        report_lines_spec(wallets.drop_last(), prices, f) + ({
            let w = wallets.last();
            if wallet_passes(w, f) {
                holdings_lines(w, w.holdings, prices, f)
            } else {
                Seq::empty()
            }
        })
    }
}

/// Builds the ungrouped, unsorted report lines for every wallet and
/// holding that pass the filters, skipping holdings without a matching
/// (coin, currency) price.
pub fn build_report_lines(
    wallets_data: &WalletsData,
    prices: &Vec<PriceInfo>,
    filter: &ReportFilter,
) -> (r: Vec<ReportLine>)
    ensures
        lines_view(r@) == report_lines_spec(wallets_data@, prices_view(prices@), filter@),
{
    let ghost ws = wallets_data@;
    let ghost ps = prices_view(prices@);
    let mut r: Vec<ReportLine> = Vec::new();
    let n = wallets_data.wallets.len();
    let mut i: usize = 0;
    while i < n
        invariant
            0 <= i <= n,
            n == wallets_data.wallets.len(),
            ws == wallets_data@,
            ps == prices_view(prices@),
            lines_view(r@) == report_lines_spec(ws.take(i as int), ps, filter@),
        decreases n - i,
    {
        let wallet = &wallets_data.wallets[i];
        proof {
            assert(ws.take(i + 1).drop_last() =~= ws.take(i as int));
            assert(ws.take(i + 1).last() == ws[i as int]);
            assert(ws[i as int] == wallet@);
        }
        let mut skip_wallet = false;
        match &filter.wallet_address {
            Some(wallet_address) => {
                if !(wallet.address == *wallet_address) {
                    skip_wallet = true;
                }
            },
            None => {},
        }
        match &filter.wallet_kind {
            Some(wallet_kind) => {
                if !(wallet.kind == *wallet_kind) {
                    skip_wallet = true;
                }
            },
            None => {},
        }
        match &filter.wallet_name {
            Some(wallet_name) => {
                if !(wallet.name == *wallet_name) {
                    skip_wallet = true;
                }
            },
            None => {},
        }
        assert(skip_wallet == !wallet_passes(ws[i as int], filter@));
        if !skip_wallet {
            let ghost hs = wallet@.holdings;
            let m = wallet.holdings.len();
            let mut j: usize = 0;
            while j < m
                invariant
                    0 <= j <= m,
                    m == wallet.holdings.len(),
                    ws == wallets_data@,
                    ps == prices_view(prices@),
                    hs == wallet@.holdings,
                    lines_view(r@) == report_lines_spec(ws.take(i as int), ps, filter@)
                        + holdings_lines(wallet@, hs.take(j as int), ps, filter@),
                decreases m - j,
            {
                let holding = &wallet.holdings[j];
                proof {
                    assert(hs.take(j + 1).drop_last() =~= hs.take(j as int));
                    assert(hs.take(j + 1).last() == hs[j as int]);
                    assert(hs[j as int] == holding@);
                }
                let mut skip_holding = false;
                match &filter.coin {
                    Some(coin) => {
                        if !(holding.coin == *coin) {
                            skip_holding = true;
                        }
                    },
                    None => {},
                }
                assert(skip_holding == !holding_passes(hs[j as int], filter@));
                if !skip_holding {
                    match find_price_info(holding.coin.as_str(), prices, &filter.currency) {
                        Some(price_info) => {
                            let amount = holding.amount;
                            let price = price_info.value;
                            proof {
                                assert((amount as int) * (price as int) <= (u64::MAX as int) * (
                                u64::MAX as int)) by (nonlinear_arith)
                                    requires
                                        0 <= amount as int <= u64::MAX as int,
                                        0 <= price as int <= u64::MAX as int,
                                ;
                            }
                            let wide: u128 = (amount as u128) * (price as u128);
                            let val_of_coin: u128 = wide / (MICRO as u128);
                            let line = ReportLine {
                                token: holding.coin.clone(),
                                amount,
                                value: val_of_coin,
                                mkt_cap: price_info.market_cap,
                                change_24h: price_info.change_24h,
                                wallet_name: wallet.name.clone(),
                                wallet_kind: wallet.kind.clone(),
                                wallet_address: wallet.address.clone(),
                            };
                            let ghost prev = r@;
                            r.push(line);
                            proof {
                                assert(line@ == mk_line(wallet@, hs[j as int], find_price(
                                    ps,
                                    holding@.coin,
                                    filter@.currency,
                                )->0));
                                assert(lines_view(r@) =~= lines_view(prev).push(line@));
                                assert(lines_view(r@) =~= report_lines_spec(
                                    ws.take(i as int),
                                    ps,
                                    filter@,
                                ) + holdings_lines(wallet@, hs.take(j + 1), ps, filter@));
                            }
                        },
                        None => {
                            proof {
                                assert(holdings_lines(wallet@, hs.take(j + 1), ps, filter@)
                                    =~= holdings_lines(wallet@, hs.take(j as int), ps, filter@));
                            }
                        },
                    }
                } else {
                    proof {
                        assert(holdings_lines(wallet@, hs.take(j + 1), ps, filter@)
                            =~= holdings_lines(wallet@, hs.take(j as int), ps, filter@));
                    }
                }
                j = j + 1;
            }
            proof {
                assert(hs.take(m as int) =~= hs);
                assert(lines_view(r@) =~= report_lines_spec(ws.take(i + 1), ps, filter@));
            }
        } else {
            proof {
                assert(report_lines_spec(ws.take(i + 1), ps, filter@) =~= report_lines_spec(
                    ws.take(i as int),
                    ps,
                    filter@,
                ));
            }
        }
        i = i + 1;
    }
    proof {
        assert(ws.take(n as int) =~= ws);
    }
    r
}

/// The coins of holdings that pass the filters but have no matching
/// price record: the diagnostic companion of the skipped lines.
pub open spec fn missing_coins_spec(
    wallets: Seq<WalletDefV>,
    prices: Seq<PriceInfoV>,
    f: ReportFilterV,
) -> Seq<Seq<char>>
    decreases wallets.len(),
{
    if wallets.len() == 0 {
        Seq::empty()
    } else {
        missing_coins_spec(wallets.drop_last(), prices, f) + ({
            let w = wallets.last();
            if wallet_passes(w, f) {
                missing_coins_of_wallet(w.holdings, prices, f)
            } else {
                Seq::empty()
            }
        })
    }
}

/// The coins of one wallet's holdings that pass the coin filter but
/// have no price in the requested currency.
pub open spec fn missing_coins_of_wallet(
    hs: Seq<CoinHoldingV>,
    prices: Seq<PriceInfoV>,
    f: ReportFilterV,
) -> Seq<Seq<char>>
    decreases hs.len(),
{
    if hs.len() == 0 {
        Seq::empty()
    } else {
        missing_coins_of_wallet(hs.drop_last(), prices, f) + ({
            let h = hs.last();
            if holding_passes(h, f) && find_price(prices, h.coin, f.currency) is None {
                seq![h.coin]
            } else {
                Seq::empty()
            }
        })
    }
}

/// Lists the coins skipped for want of a price, wallet by wallet, so
/// that a caller can emit a diagnostic for each.
pub fn missing_price_coins(
    wallets_data: &WalletsData,
    prices: &Vec<PriceInfo>,
    filter: &ReportFilter,
) -> (r: Vec<String>)
    ensures
        r.deep_view() == missing_coins_spec(wallets_data@, prices_view(prices@), filter@),
{
    let ghost ws = wallets_data@;
    let ghost ps = prices_view(prices@);
    let mut r: Vec<String> = Vec::new();
    let n = wallets_data.wallets.len();
    let mut i: usize = 0;
    while i < n
        invariant
            0 <= i <= n,
            n == wallets_data.wallets.len(),
            ws == wallets_data@,
            ps == prices_view(prices@),
            r.deep_view() == missing_coins_spec(ws.take(i as int), ps, filter@),
        decreases n - i,
    {
        let wallet = &wallets_data.wallets[i];
        proof {
            assert(ws.take(i + 1).drop_last() =~= ws.take(i as int));
            assert(ws.take(i + 1).last() == ws[i as int]);
            assert(ws[i as int] == wallet@);
        }
        let mut skip_wallet = false;
        match &filter.wallet_address {
            Some(wallet_address) => {
                if !(wallet.address == *wallet_address) {
                    skip_wallet = true;
                }
            },
            None => {},
        }
        match &filter.wallet_kind {
            Some(wallet_kind) => {
                if !(wallet.kind == *wallet_kind) {
                    skip_wallet = true;
                }
            },
            None => {},
        }
        match &filter.wallet_name {
            Some(wallet_name) => {
                if !(wallet.name == *wallet_name) {
                    skip_wallet = true;
                }
            },
            None => {},
        }
        assert(skip_wallet == !wallet_passes(ws[i as int], filter@));
        if !skip_wallet {
            let ghost hs = wallet@.holdings;
            let m = wallet.holdings.len();
            let mut j: usize = 0;
            while j < m
                invariant
                    0 <= j <= m,
                    m == wallet.holdings.len(),
                    ws == wallets_data@,
                    ps == prices_view(prices@),
                    hs == wallet@.holdings,
                    r.deep_view() == missing_coins_spec(ws.take(i as int), ps, filter@)
                        + missing_coins_of_wallet(hs.take(j as int), ps, filter@),
                decreases m - j,
            {
                let holding = &wallet.holdings[j];
                proof {
                    assert(hs.take(j + 1).drop_last() =~= hs.take(j as int));
                    assert(hs.take(j + 1).last() == hs[j as int]);
                    assert(hs[j as int] == holding@);
                }
                let mut skip_holding = false;
                match &filter.coin {
                    Some(coin) => {
                        if !(holding.coin == *coin) {
                            skip_holding = true;
                        }
                    },
                    None => {},
                }
                assert(skip_holding == !holding_passes(hs[j as int], filter@));
                if !skip_holding {
                    match find_price_info(holding.coin.as_str(), prices, &filter.currency) {
                        Some(_) => {
                            proof {
                                assert(missing_coins_of_wallet(hs.take(j + 1), ps, filter@)
                                    =~= missing_coins_of_wallet(hs.take(j as int), ps, filter@));
                            }
                        },
                        None => {
                            let ghost prev = r.deep_view();
                            r.push(holding.coin.clone());
                            proof {
                                assert(r.deep_view() =~= prev.push(holding@.coin));
                                assert(r.deep_view() =~= missing_coins_spec(
                                    ws.take(i as int),
                                    ps,
                                    filter@,
                                ) + missing_coins_of_wallet(hs.take(j + 1), ps, filter@));
                            }
                        },
                    }
                } else {
                    proof {
                        assert(missing_coins_of_wallet(hs.take(j + 1), ps, filter@)
                            =~= missing_coins_of_wallet(hs.take(j as int), ps, filter@));
                    }
                }
                j = j + 1;
            }
            proof {
                assert(hs.take(m as int) =~= hs);
                assert(r.deep_view() =~= missing_coins_spec(ws.take(i + 1), ps, filter@));
            }
        } else {
            proof {
                assert(missing_coins_spec(ws.take(i + 1), ps, filter@) =~= missing_coins_spec(
                    ws.take(i as int),
                    ps,
                    filter@,
                ));
            }
        }
        i = i + 1;
    }
    proof {
        assert(ws.take(n as int) =~= ws);
    }
    r
}

/// The distinct tokens of a line list, in order of first appearance.
pub open spec fn tokens_in_order(ls: Seq<ReportLineV>) -> Seq<Seq<char>>
    decreases ls.len(),
{
    if ls.len() == 0 {
        Seq::empty()
    } else {
        let rest = tokens_in_order(ls.drop_last());
        if rest.contains(ls.last().token) {
            rest
        } else {
            rest.push(ls.last().token)
        }
    }
}

/// The total amount of the lines of one token.
pub open spec fn sum_amount_token(ls: Seq<ReportLineV>, t: Seq<char>) -> int
    decreases ls.len(),
{
    if ls.len() == 0 {
        0
    } else {
        sum_amount_token(ls.drop_last(), t) + if ls.last().token == t {
            ls.last().amount as int
        } else {
            0
        }
    }
}

/// The total value of the lines of one token.
pub open spec fn sum_value_token(ls: Seq<ReportLineV>, t: Seq<char>) -> int
    decreases ls.len(),
{
    if ls.len() == 0 {
        0
    } else {
        sum_value_token(ls.drop_last(), t) + if ls.last().token == t {
            ls.last().value as int
        } else {
            0
        }
    }
}

/// The total amount over all lines.
pub open spec fn sum_amount(ls: Seq<ReportLineV>) -> int
    decreases ls.len(),
{
    if ls.len() == 0 {
        0
    } else {
        sum_amount(ls.drop_last()) + ls.last().amount as int
    }
}

/// The total value over all lines.
pub open spec fn sum_value(ls: Seq<ReportLineV>) -> int
    decreases ls.len(),
{
    if ls.len() == 0 {
        0
    } else {
        sum_value(ls.drop_last()) + ls.last().value as int
    }
}

/// The last line of one token, if any: market capitalization and
/// 24-hour change are token properties, so the last-seen value wins.
pub open spec fn last_line_of_token(ls: Seq<ReportLineV>, t: Seq<char>) -> Option<ReportLineV>
    decreases ls.len(),
{
    if ls.len() == 0 {
        None
    } else if ls.last().token == t {
        Some(ls.last())
    } else {
        last_line_of_token(ls.drop_last(), t)
    }
}

/// The collapsed line of one token: amounts and values sum; market
/// capitalization and change take the last-seen value; wallet identity
/// becomes a placeholder, since the line may span wallets.
pub open spec fn grouped_line(ls: Seq<ReportLineV>, t: Seq<char>) -> ReportLineV {
    ReportLineV {
        token: t,
        amount: sum_amount_token(ls, t) as u64,
        value: sum_value_token(ls, t) as u128,
        mkt_cap: last_line_of_token(ls, t)->0.mkt_cap,
        change_24h: last_line_of_token(ls, t)->0.change_24h,
        wallet_name: "-"@,
        wallet_kind: "-"@,
        wallet_address: "-"@,
    }
}

/// The grouped report: one line per distinct token, in order of first
/// appearance.
pub open spec fn group_by_token_spec(ls: Seq<ReportLineV>) -> Seq<ReportLineV> {
    tokens_in_order(ls).map_values(|t: Seq<char>| grouped_line(ls, t))
}

proof fn lemma_token_sums_nonneg(ls: Seq<ReportLineV>, t: Seq<char>)
    ensures
        0 <= sum_amount_token(ls, t),
        0 <= sum_value_token(ls, t),
    decreases ls.len(),
{
    if ls.len() > 0 {
        lemma_token_sums_nonneg(ls.drop_last(), t);
    }
}

proof fn lemma_token_sums_prefix(ls: Seq<ReportLineV>, t: Seq<char>, j: int)
    requires
        0 <= j <= ls.len(),
    ensures
        sum_amount_token(ls.take(j), t) <= sum_amount_token(ls, t),
        sum_value_token(ls.take(j), t) <= sum_value_token(ls, t),
    decreases ls.len() - j,
{
    if j < ls.len() {
        lemma_token_sums_prefix(ls, t, j + 1);
        assert(ls.take(j + 1).drop_last() =~= ls.take(j));
        assert(ls.take(j + 1).last() == ls[j]);
    } else {
        assert(ls.take(j) =~= ls);
    }
}

proof fn lemma_token_le_total(ls: Seq<ReportLineV>, t: Seq<char>)
    ensures
        sum_amount_token(ls, t) <= sum_amount(ls),
        sum_value_token(ls, t) <= sum_value(ls),
    decreases ls.len(),
{
    if ls.len() > 0 {
        lemma_token_le_total(ls.drop_last(), t);
    }
}

proof fn lemma_last_line_some(ls: Seq<ReportLineV>, t: Seq<char>)
    ensures
        (last_line_of_token(ls, t) is Some) <==> tokens_in_order(ls).contains(t),
    decreases ls.len(),
{
    if ls.len() > 0 {
        let dl = ls.drop_last();
        lemma_last_line_some(dl, t);
        crate::aggregate::lemma_push_contains(tokens_in_order(dl), ls.last().token, t);
    }
}

fn vec_contains_token(v: &Vec<String>, t: &String) -> (r: bool)
    ensures
        r == v.deep_view().contains(t@),
{
    let n = v.len();
    let mut i: usize = 0;
    while i < n
        invariant
            0 <= i <= n,
            n == v.len(),
            forall|j: int| 0 <= j < i ==> v.deep_view()[j] != t@,
        decreases n - i,
    {
        if v[i] == *t {
            assert(v.deep_view()[i as int] == t@);
            return true;
        }
        i = i + 1;
    }
    proof {
        if v.deep_view().contains(t@) {
            let j = choose|j: int| 0 <= j < v.deep_view().len() && v.deep_view()[j] == t@;
            assert(false);
        }
    }
    false
}

/// Collapses all lines sharing a token into one line per token.
/// Amounts and values sum; market capitalization takes the last-seen
/// value; wallet identity fields become a placeholder, since grouped
/// lines may span multiple wallets.  The sums must fit the line
/// fields, which every caller below machine scale satisfies.
pub fn group_by_token(report_lines: &Vec<ReportLine>) -> (r: Vec<ReportLine>)
    requires
        sum_amount(lines_view(report_lines@)) <= u64::MAX,
        sum_value(lines_view(report_lines@)) <= u128::MAX,
    ensures
        lines_view(r@) == group_by_token_spec(lines_view(report_lines@)),
{
    let ghost ls = lines_view(report_lines@);
    let n = report_lines.len();

    let mut tokens: Vec<String> = Vec::new();
    let mut i: usize = 0;
    while i < n
        invariant
            0 <= i <= n,
            n == report_lines.len(),
            ls == lines_view(report_lines@),
            tokens.deep_view() == tokens_in_order(ls.take(i as int)),
        decreases n - i,
    {
        proof {
            assert(ls.take(i + 1).drop_last() =~= ls.take(i as int));
            assert(ls.take(i + 1).last() == ls[i as int]);
            assert(ls[i as int] == report_lines@[i as int]@);
        }
        if !vec_contains_token(&tokens, &report_lines[i].token) {
            let ghost prev = tokens.deep_view();
            tokens.push(report_lines[i].token.clone());
            proof {
                assert(tokens.deep_view() =~= prev.push(ls[i as int].token));
            }
        }
        i = i + 1;
    }
    proof {
        assert(ls.take(n as int) =~= ls);
    }

    let mut r: Vec<ReportLine> = Vec::new();
    let m = tokens.len();
    let mut k: usize = 0;
    while k < m
        invariant
            0 <= k <= m,
            m == tokens.len(),
            n == report_lines.len(),
            ls == lines_view(report_lines@),
            sum_amount(ls) <= u64::MAX,
            sum_value(ls) <= u128::MAX,
            tokens.deep_view() == tokens_in_order(ls),
            lines_view(r@) == group_by_token_spec(ls).take(k as int),
        decreases m - k,
    {
        let t = &tokens[k];
        let ghost tv = t@;
        proof {
            lemma_token_le_total(ls, tv);
            lemma_token_sums_nonneg(ls, tv);
        }
        let mut amount_sum: u64 = 0;
        let mut value_sum: u128 = 0;
        let mut last_seen: Option<(u64, i64)> = None;
        let mut j: usize = 0;
        while j < n
            invariant
                0 <= j <= n,
                n == report_lines.len(),
                ls == lines_view(report_lines@),
                tv == t@,
                sum_amount_token(ls, tv) <= u64::MAX,
                sum_value_token(ls, tv) <= u128::MAX,
                amount_sum as int == sum_amount_token(ls.take(j as int), tv),
                value_sum as int == sum_value_token(ls.take(j as int), tv),
                match last_seen {
                    Some(mc) => last_line_of_token(ls.take(j as int), tv) matches Some(l)
                        && l.mkt_cap == mc.0 && l.change_24h == mc.1,
                    None => last_line_of_token(ls.take(j as int), tv) is None,
                },
            decreases n - j,
        {
            proof {
                assert(ls.take(j + 1).drop_last() =~= ls.take(j as int));
                assert(ls.take(j + 1).last() == ls[j as int]);
                assert(ls[j as int] == report_lines@[j as int]@);
                lemma_token_sums_prefix(ls, tv, j + 1);
                lemma_token_sums_nonneg(ls.take(j as int), tv);
            }
            if report_lines[j].token == *t {
                amount_sum = amount_sum + report_lines[j].amount;
                value_sum = value_sum + report_lines[j].value;
                last_seen = Some((report_lines[j].mkt_cap, report_lines[j].change_24h));
            }
            j = j + 1;
        }
        proof {
            assert(ls.take(n as int) =~= ls);
        }
        // Every listed token has at least one line, so a last-seen
        // market capitalization exists.
        proof {
            lemma_last_line_some(ls, tv);
            assert(tokens_in_order(ls).contains(tv)) by {
                assert(tokens.deep_view()[k as int] == tv);
            }
        }
        let mc = match last_seen {
            Some(mc) => mc,
            None => (0, 0),
        };
        let line = ReportLine {
            token: t.clone(),
            amount: amount_sum,
            value: value_sum,
            mkt_cap: mc.0,
            change_24h: mc.1,
            wallet_name: String::from_str("-"),
            wallet_kind: String::from_str("-"),
            wallet_address: String::from_str("-"),
        };
        let ghost prev = lines_view(r@);
        r.push(line);
        proof {
            assert(line@ == grouped_line(ls, tv));
            assert(group_by_token_spec(ls).take(k + 1).drop_last() =~= group_by_token_spec(
                ls,
            ).take(k as int));
            assert(group_by_token_spec(ls)[k as int] == grouped_line(ls, tv));
            assert(lines_view(r@) =~= group_by_token_spec(ls).take(k + 1));
        }
        k = k + 1;
    }
    proof {
        assert(group_by_token_spec(ls).take(m as int) =~= group_by_token_spec(ls));
    }
    r
}

/// The lines whose token is not `t`, order kept.
pub open spec fn lines_not_token(ls: Seq<ReportLineV>, t: Seq<char>) -> Seq<ReportLineV>
    decreases ls.len(),
{
    if ls.len() == 0 {
        Seq::empty()
    } else {
        let rest = lines_not_token(ls.drop_last(), t);
        if ls.last().token == t {
            rest
        } else {
            rest.push(ls.last())
        }
    }
}

proof fn lemma_split_by_token(ls: Seq<ReportLineV>, t: Seq<char>)
    ensures
        sum_amount(ls) == sum_amount_token(ls, t) + sum_amount(lines_not_token(ls, t)),
        sum_value(ls) == sum_value_token(ls, t) + sum_value(lines_not_token(ls, t)),
    decreases ls.len(),
{
    if ls.len() > 0 {
        lemma_split_by_token(ls.drop_last(), t);
        let rest = lines_not_token(ls.drop_last(), t);
        if ls.last().token == t {
        } else {
            assert(rest.push(ls.last()).drop_last() =~= rest);
        }
    }
}

proof fn lemma_other_token_unaffected(ls: Seq<ReportLineV>, t: Seq<char>, u: Seq<char>)
    requires
        u != t,
    ensures
        sum_amount_token(lines_not_token(ls, t), u) == sum_amount_token(ls, u),
        sum_value_token(lines_not_token(ls, t), u) == sum_value_token(ls, u),
    decreases ls.len(),
{
    if ls.len() > 0 {
        lemma_other_token_unaffected(ls.drop_last(), t, u);
        let rest = lines_not_token(ls.drop_last(), t);
        if ls.last().token == t {
        } else {
            assert(rest.push(ls.last()).drop_last() =~= rest);
        }
    }
}

/// The token-by-token totals over a token list.
pub open spec fn sum_amount_tokens(ls: Seq<ReportLineV>, ts: Seq<Seq<char>>) -> int
    decreases ts.len(),
{
    if ts.len() == 0 {
        0
    } else {
        sum_amount_tokens(ls, ts.drop_last()) + sum_amount_token(ls, ts.last())
    }
}

/// The token-by-token value totals over a token list.
pub open spec fn sum_value_tokens(ls: Seq<ReportLineV>, ts: Seq<Seq<char>>) -> int
    decreases ts.len(),
{
    if ts.len() == 0 {
        0
    } else {
        sum_value_tokens(ls, ts.drop_last()) + sum_value_token(ls, ts.last())
    }
}

proof fn lemma_tokens_totals_same(
    ls1: Seq<ReportLineV>,
    ls2: Seq<ReportLineV>,
    ts: Seq<Seq<char>>,
)
    requires
        forall|i: int|
            0 <= i < ts.len() ==> sum_amount_token(ls1, #[trigger] ts[i]) == sum_amount_token(
                ls2,
                ts[i],
            ) && sum_value_token(ls1, ts[i]) == sum_value_token(ls2, ts[i]),
    ensures
        sum_amount_tokens(ls1, ts) == sum_amount_tokens(ls2, ts),
        sum_value_tokens(ls1, ts) == sum_value_tokens(ls2, ts),
    decreases ts.len(),
{
    if ts.len() > 0 {
        let dl = ts.drop_last();
        assert(forall|i: int| 0 <= i < dl.len() ==> dl[i] == ts[i]);
        lemma_tokens_totals_same(ls1, ls2, dl);
    }
}

proof fn lemma_no_token_no_lines(ls: Seq<ReportLineV>, ts: Seq<Seq<char>>)
    requires
        forall|i: int| 0 <= i < ls.len() ==> ts.contains((#[trigger] ls[i]).token),
        ts.len() == 0,
    ensures
        ls.len() == 0,
{
    if ls.len() > 0 {
        assert(ts.contains(ls[0].token));
        let i = choose|i: int| 0 <= i < ts.len() && ts[i] == ls[0].token;
        assert(false);
    }
}

proof fn lemma_sum_over_tokens(ls: Seq<ReportLineV>, ts: Seq<Seq<char>>)
    requires
        forall|i: int, j: int| 0 <= i < j < ts.len() ==> ts[i] != ts[j],
        forall|i: int| 0 <= i < ls.len() ==> ts.contains((#[trigger] ls[i]).token),
    ensures
        sum_amount_tokens(ls, ts) == sum_amount(ls),
        sum_value_tokens(ls, ts) == sum_value(ls),
    decreases ts.len(),
{
    if ts.len() == 0 {
        lemma_no_token_no_lines(ls, ts);
    } else {
        let t = ts.last();
        let dl = ts.drop_last();
        let rest = lines_not_token(ls, t);
        assert(forall|i: int| 0 <= i < dl.len() ==> dl[i] == ts[i]);
        // Lines without token t keep their tokens, which sit in `dl`.
        assert forall|i: int| 0 <= i < rest.len() implies dl.contains(
            (#[trigger] rest[i]).token,
        ) by {
            lemma_not_token_lines_from(ls, t, i);
            let j = choose|j: int|
                0 <= j < ts.len() && ts[j] == rest[i].token && rest[i].token != t;
            assert(j < ts.len() - 1);
            assert(dl[j] == ts[j]);
        }
        lemma_sum_over_tokens(rest, dl);
        assert forall|i: int| 0 <= i < dl.len() implies sum_amount_token(rest, #[trigger] dl[i])
            == sum_amount_token(ls, dl[i]) && sum_value_token(rest, dl[i]) == sum_value_token(
            ls,
            dl[i],
        ) by {
            assert(dl[i] != t);
            lemma_other_token_unaffected(ls, t, dl[i]);
        }
        lemma_tokens_totals_same(rest, ls, dl);
        lemma_split_by_token(ls, t);
    }
}

proof fn lemma_not_token_lines_from(ls: Seq<ReportLineV>, t: Seq<char>, i: int)
    requires
        0 <= i < lines_not_token(ls, t).len(),
    ensures
        lines_not_token(ls, t)[i].token != t,
        exists|j: int| 0 <= j < ls.len() && ls[j] == lines_not_token(ls, t)[i],
    decreases ls.len(),
{
    if ls.len() > 0 {
        let rest = lines_not_token(ls.drop_last(), t);
        if ls.last().token == t {
            lemma_not_token_lines_from(ls.drop_last(), t, i);
            let j = choose|j: int|
                0 <= j < ls.drop_last().len() && ls.drop_last()[j] == lines_not_token(
                    ls.drop_last(),
                    t,
                )[i];
            assert(ls[j] == lines_not_token(ls, t)[i]);
        } else {
            if i < rest.len() {
                lemma_not_token_lines_from(ls.drop_last(), t, i);
                let j = choose|j: int|
                    0 <= j < ls.drop_last().len() && ls.drop_last()[j] == lines_not_token(
                        ls.drop_last(),
                        t,
                    )[i];
                assert(ls[j] == lines_not_token(ls, t)[i]);
            } else {
                assert(lines_not_token(ls, t)[i] == ls.last());
                assert(ls[ls.len() - 1] == lines_not_token(ls, t)[i]);
            }
        }
    }
}

proof fn lemma_tokens_in_order_distinct(ls: Seq<ReportLineV>)
    ensures
        forall|i: int, j: int|
            0 <= i < j < tokens_in_order(ls).len() ==> tokens_in_order(ls)[i]
                != tokens_in_order(ls)[j],
    decreases ls.len(),
{
    if ls.len() > 0 {
        let dl = ls.drop_last();
        lemma_tokens_in_order_distinct(dl);
        let rest = tokens_in_order(dl);
        let t = ls.last().token;
        if !rest.contains(t) {
            assert forall|i: int, j: int|
                0 <= i < j < rest.push(t).len() implies rest.push(t)[i] != rest.push(t)[j] by {
                if j == rest.len() {
                    assert(rest[i] != t);
                }
            }
        }
    }
}

proof fn lemma_tokens_in_order_cover(ls: Seq<ReportLineV>)
    ensures
        forall|i: int|
            0 <= i < ls.len() ==> tokens_in_order(ls).contains((#[trigger] ls[i]).token),
    decreases ls.len(),
{
    if ls.len() > 0 {
        let dl = ls.drop_last();
        lemma_tokens_in_order_cover(dl);
        let rest = tokens_in_order(dl);
        let t = ls.last().token;
        assert forall|i: int| 0 <= i < ls.len() implies tokens_in_order(ls).contains(
            (#[trigger] ls[i]).token,
        ) by {
            if i < dl.len() {
                assert(rest.contains(dl[i].token));
                crate::aggregate::lemma_push_contains(rest, t, dl[i].token);
                assert(ls[i] == dl[i]);
            } else {
                if rest.contains(t) {
                } else {
                    crate::aggregate::lemma_push_contains(rest, t, t);
                }
            }
        }
    }
}

proof fn lemma_grouped_totals(ls: Seq<ReportLineV>, ts: Seq<Seq<char>>)
    requires
        0 <= sum_amount(ls) <= u64::MAX,
        0 <= sum_value(ls) <= u128::MAX,
    ensures
        sum_amount(ts.map_values(|t: Seq<char>| grouped_line(ls, t))) == sum_amount_tokens(
            ls,
            ts,
        ),
        sum_value(ts.map_values(|t: Seq<char>| grouped_line(ls, t))) == sum_value_tokens(ls, ts),
    decreases ts.len(),
{
    let mapped = ts.map_values(|t: Seq<char>| grouped_line(ls, t));
    if ts.len() > 0 {
        lemma_grouped_totals(ls, ts.drop_last());
        assert(mapped.drop_last() =~= ts.drop_last().map_values(
            |t: Seq<char>| grouped_line(ls, t),
        ));
        assert(mapped.last() == grouped_line(ls, ts.last()));
        lemma_token_sums_nonneg(ls, ts.last());
        lemma_token_le_total(ls, ts.last());
        assert(grouped_line(ls, ts.last()).amount as int == sum_amount_token(ls, ts.last()));
        assert(grouped_line(ls, ts.last()).value as int == sum_value_token(ls, ts.last()));
    } else {
        assert(mapped.len() == 0);
    }
}

/// Grouping by token conserves the report's totals: the grouped lines
/// carry the same total amount and the same total value as the lines
/// they collapse, for any partition of holdings across wallets.
pub proof fn lemma_group_preserves_totals(ls: Seq<ReportLineV>)
    requires
        sum_amount(ls) <= u64::MAX,
        sum_value(ls) <= u128::MAX,
    ensures
        sum_amount(group_by_token_spec(ls)) == sum_amount(ls),
        sum_value(group_by_token_spec(ls)) == sum_value(ls),
{
    let ts = tokens_in_order(ls);
    lemma_tokens_in_order_distinct(ls);
    lemma_tokens_in_order_cover(ls);
    lemma_sum_over_tokens(ls, ts);
    lemma_sums_nonneg(ls);
    lemma_grouped_totals(ls, ts);
}

proof fn lemma_sums_nonneg(ls: Seq<ReportLineV>)
    ensures
        0 <= sum_amount(ls),
        0 <= sum_value(ls),
    decreases ls.len(),
{
    if ls.len() > 0 {
        lemma_sums_nonneg(ls.drop_last());
    }
}

/// Lexicographic order on character sequences, by scalar value.
pub open spec fn lex_le(x: Seq<char>, y: Seq<char>) -> bool
    decreases x.len(),
{
    if x.len() == 0 {
        true
    } else if y.len() == 0 {
        false
    } else if (x[0] as u32) < (y[0] as u32) {
        true
    } else if (y[0] as u32) < (x[0] as u32) {
        false
    } else {
        lex_le(x.drop_first(), y.drop_first())
    }
}

/// Whether line `a` sorts at or before line `b` under a sort key:
/// numeric fields compare by value, the token field lexicographically.
pub open spec fn key_le(a: ReportLineV, b: ReportLineV, by: ReportSortBy) -> bool {
    match by {
        ReportSortBy::Token => lex_le(a.token, b.token),
        ReportSortBy::Amount => a.amount <= b.amount,
        ReportSortBy::Value => a.value <= b.value,
        ReportSortBy::MktCap => a.mkt_cap <= b.mkt_cap,
        ReportSortBy::Change24h => a.change_24h <= b.change_24h,
    }
}

proof fn lemma_lex_le_total(x: Seq<char>, y: Seq<char>)
    ensures
        lex_le(x, y) || lex_le(y, x),
    decreases x.len(),
{
    if x.len() > 0 && y.len() > 0 && x[0] as u32 == y[0] as u32 {
        lemma_lex_le_total(x.drop_first(), y.drop_first());
    }
}

proof fn lemma_lex_le_trans(x: Seq<char>, y: Seq<char>, z: Seq<char>)
    requires
        lex_le(x, y),
        lex_le(y, z),
    ensures
        lex_le(x, z),
    decreases x.len(),
{
    if x.len() > 0 && y.len() > 0 && z.len() > 0 && x[0] as u32 == y[0] as u32 && y[0] as u32
        == z[0] as u32 {
        lemma_lex_le_trans(x.drop_first(), y.drop_first(), z.drop_first());
    }
}

/// The sort order is total: two lines always compare one way or the
/// other.
pub proof fn lemma_key_le_total(a: ReportLineV, b: ReportLineV, by: ReportSortBy)
    ensures
        key_le(a, b, by) || key_le(b, a, by),
{
    if by is Token {
        lemma_lex_le_total(a.token, b.token);
    }
}

/// The sort order is transitive.
pub proof fn lemma_key_le_trans(a: ReportLineV, b: ReportLineV, c: ReportLineV, by: ReportSortBy)
    requires
        key_le(a, b, by),
        key_le(b, c, by),
    ensures
        key_le(a, c, by),
{
    if by is Token {
        lemma_lex_le_trans(a.token, b.token, c.token);
    }
}

proof fn lemma_lex_le_skip(x: Seq<char>, y: Seq<char>, i: int)
    requires
        0 <= i <= x.len(),
        i <= y.len(),
        forall|j: int| 0 <= j < i ==> (x[j] as u32) == (y[j] as u32),
    ensures
        lex_le(x, y) == lex_le(x.skip(i), y.skip(i)),
    decreases i,
{
    if i > 0 {
        lemma_lex_le_skip(x, y, i - 1);
        let xs = x.skip(i - 1);
        let ys = y.skip(i - 1);
        assert(xs[0] == x[i - 1]);
        assert(ys[0] == y[i - 1]);
        assert(xs.drop_first() =~= x.skip(i));
        assert(ys.drop_first() =~= y.skip(i));
    } else {
        assert(x.skip(0) =~= x);
        assert(y.skip(0) =~= y);
    }
}

fn str_lex_le(a: &String, b: &String) -> (r: bool)
    ensures
        r == lex_le(a@, b@),
{
    let an = a.as_str().unicode_len();
    let bn = b.as_str().unicode_len();
    let mut i: usize = 0;
    while i < an && i < bn
        invariant
            0 <= i <= an,
            0 <= i <= bn,
            an == a@.len(),
            bn == b@.len(),
            forall|j: int| 0 <= j < i ==> (a@[j] as u32) == (b@[j] as u32),
        decreases an - i,
    {
        let ca = a.as_str().get_char(i);
        let cb = b.as_str().get_char(i);
        if (ca as u32) < (cb as u32) {
            proof {
                lemma_lex_le_skip(a@, b@, i as int);
                assert(a@.skip(i as int)[0] == a@[i as int]);
                assert(b@.skip(i as int)[0] == b@[i as int]);
            }
            return true;
        }
        if (cb as u32) < (ca as u32) {
            proof {
                lemma_lex_le_skip(a@, b@, i as int);
                assert(a@.skip(i as int)[0] == a@[i as int]);
                assert(b@.skip(i as int)[0] == b@[i as int]);
            }
            return false;
        }
        i = i + 1;
    }
    proof {
        lemma_lex_le_skip(a@, b@, i as int);
    }
    if i < bn {
        assert(a@.skip(i as int).len() == 0);
        true
    } else if i < an {
        assert(b@.skip(i as int).len() == 0);
        assert(a@.skip(i as int).len() > 0);
        false
    } else {
        assert(a@.skip(i as int).len() == 0);
        true
    }
}

/// Compares two lines under a sort key.
pub fn line_le(a: &ReportLine, b: &ReportLine, sort_by: &ReportSortBy) -> (r: bool)
    ensures
        r == key_le(a@, b@, *sort_by),
{
    match sort_by {
        ReportSortBy::Token => str_lex_le(&a.token, &b.token),
        ReportSortBy::Amount => a.amount <= b.amount,
        ReportSortBy::Value => a.value <= b.value,
        ReportSortBy::MktCap => a.mkt_cap <= b.mkt_cap,
        ReportSortBy::Change24h => a.change_24h <= b.change_24h,
    }
}

/// Stable insertion of a line into a sorted line list: the new line
/// goes after every line it does not sort strictly before.
pub open spec fn insert_line(s: Seq<ReportLineV>, l: ReportLineV, by: ReportSortBy) -> Seq<
    ReportLineV,
>
    decreases s.len(),
{
    if s.len() > 0 && !key_le(s.last(), l, by) {
        insert_line(s.drop_last(), l, by).push(s.last())
    } else {
        s.push(l)
    }
}

/// Stable insertion sort of a line list under a sort key: the unique
/// sorted permutation in which equal keys keep their input order.
pub open spec fn sort_lines_spec(ls: Seq<ReportLineV>, by: ReportSortBy) -> Seq<ReportLineV>
    decreases ls.len(),
{
    if ls.len() == 0 {
        Seq::empty()
    } else {
        insert_line(sort_lines_spec(ls.drop_last(), by), ls.last(), by)
    }
}

/// Whether a line list is nondecreasing under a sort key.
pub open spec fn sorted_by(s: Seq<ReportLineV>, by: ReportSortBy) -> bool {
    forall|i: int, j: int| 0 <= i < j < s.len() ==> key_le(s[i], s[j], by)
}

proof fn lemma_insert_line_props(s: Seq<ReportLineV>, l: ReportLineV, by: ReportSortBy)
    requires
        sorted_by(s, by),
    ensures
        sorted_by(insert_line(s, l, by), by),
        insert_line(s, l, by).to_multiset() == s.to_multiset().insert(l),
        forall|i: int|
            0 <= i < insert_line(s, l, by).len() ==> insert_line(s, l, by)[i] == l
                || s.contains(#[trigger] insert_line(s, l, by)[i]),
    decreases s.len(),
{
    broadcast use vstd::seq_lib::to_multiset_build;

    let res = insert_line(s, l, by);
    if s.len() > 0 && !key_le(s.last(), l, by) {
        let dl = s.drop_last();
        assert(forall|i: int| 0 <= i < dl.len() ==> dl[i] == s[i]);
        lemma_insert_line_props(dl, l, by);
        let ins = insert_line(dl, l, by);
        lemma_key_le_total(s.last(), l, by);
        // Every element of the inner insertion sorts at or before the
        // closing element.
        assert forall|i: int| 0 <= i < ins.len() implies key_le(ins[i], s.last(), by) by {
            if ins[i] == l {
            } else {
                assert(dl.contains(ins[i]));
                let j = choose|j: int| 0 <= j < dl.len() && dl[j] == ins[i];
                assert(key_le(s[j], s.last(), by));
            }
        }
        assert(sorted_by(res, by)) by {
            assert forall|i: int, j: int| 0 <= i < j < res.len() implies key_le(
                res[i],
                res[j],
                by,
            ) by {
                if j < ins.len() {
                    assert(key_le(ins[i], ins[j], by));
                } else {
                    assert(res[j] == s.last());
                }
            }
        }
        assert(res.to_multiset() =~= s.to_multiset().insert(l)) by {
            assert(res.to_multiset() == ins.to_multiset().insert(s.last()));
            assert(ins.to_multiset() == dl.to_multiset().insert(l));
            assert(dl.push(s.last()) =~= s);
            assert(s.to_multiset() == dl.to_multiset().insert(s.last()));
            assert(dl.to_multiset().insert(l).insert(s.last()) =~= dl.to_multiset().insert(
                s.last(),
            ).insert(l));
        }
        assert forall|i: int| 0 <= i < res.len() implies res[i] == l || s.contains(
            #[trigger] res[i],
        ) by {
            if i < ins.len() {
                if ins[i] == l {
                } else {
                    let j = choose|j: int| 0 <= j < dl.len() && dl[j] == ins[i];
                    assert(s[j] == res[i]);
                }
            } else {
                assert(res[i] == s.last());
                assert(s[s.len() - 1] == res[i]);
            }
        }
    } else {
        assert(res == s.push(l));
        assert forall|i: int, j: int| 0 <= i < j < res.len() implies key_le(
            res[i],
            res[j],
            by,
        ) by {
            if j == s.len() {
                if s.len() > 0 {
                    if i == s.len() - 1 {
                        assert(key_le(s.last(), l, by));
                    } else {
                        assert(key_le(s[i], s.last(), by));
                        lemma_key_le_trans(s[i], s.last(), l, by);
                    }
                }
            }
        }
        assert forall|i: int| 0 <= i < res.len() implies res[i] == l || s.contains(
            #[trigger] res[i],
        ) by {
            if i < s.len() {
                assert(s[i] == res[i]);
            }
        }
    }
}

/// The sort is correct: its result is ordered under the key and is a
/// permutation of its input.
pub proof fn lemma_sort_lines_sorted(ls: Seq<ReportLineV>, by: ReportSortBy)
    ensures
        sorted_by(sort_lines_spec(ls, by), by),
        sort_lines_spec(ls, by).to_multiset() == ls.to_multiset(),
    decreases ls.len(),
{
    broadcast use vstd::seq_lib::to_multiset_build;

    if ls.len() == 0 {
        assert(ls =~= Seq::<ReportLineV>::empty());
    } else {
        let dl = ls.drop_last();
        lemma_sort_lines_sorted(dl, by);
        lemma_insert_line_props(sort_lines_spec(dl, by), ls.last(), by);
        assert(dl.push(ls.last()).to_multiset() =~= dl.to_multiset().insert(ls.last()));
        assert(dl.push(ls.last()) =~= ls);
        assert(ls.to_multiset() == dl.to_multiset().insert(ls.last()));
    }
}

/// The lines of a report in their final order: ascending is the sort's
/// natural order, descending its exact reversal.
pub open spec fn ordered_lines(ls: Seq<ReportLineV>, by: ReportSortBy, order: ReportOrder) -> Seq<
    ReportLineV,
> {
    if order is Desc {
        sort_lines_spec(ls, by).reverse()
    } else {
        sort_lines_spec(ls, by)
    }
}

/// Sorting is stable under reversal: for every sort key, sorting
/// ascending and then reversing gives exactly the descending order,
/// which is therefore nonincreasing and the same permutation.
pub proof fn lemma_sort_reversal(ls: Seq<ReportLineV>, by: ReportSortBy)
    ensures
        ordered_lines(ls, by, ReportOrder::Desc) == ordered_lines(
            ls,
            by,
            ReportOrder::Asc,
        ).reverse(),
        forall|i: int, j: int|
            0 <= i < j < ordered_lines(ls, by, ReportOrder::Desc).len() ==> key_le(
                ordered_lines(ls, by, ReportOrder::Desc)[j],
                ordered_lines(ls, by, ReportOrder::Desc)[i],
                by,
            ),
        ordered_lines(ls, by, ReportOrder::Desc).to_multiset() == ls.to_multiset(),
{
    lemma_sort_lines_sorted(ls, by);
    let sorted = sort_lines_spec(ls, by);
    let rev = sorted.reverse();
    assert forall|i: int, j: int| 0 <= i < j < rev.len() implies key_le(
        rev[j],
        rev[i],
        by,
    ) by {
        assert(rev[i] == sorted[rev.len() - 1 - i]);
        assert(rev[j] == sorted[rev.len() - 1 - j]);
    }
    lemma_reverse_multiset(sorted);
}

proof fn lemma_reverse_multiset(s: Seq<ReportLineV>)
    ensures
        s.reverse().to_multiset() == s.to_multiset(),
    decreases s.len(),
{
    broadcast use vstd::seq_lib::to_multiset_build;
    broadcast use vstd::seq_lib::to_multiset_contains;

    if s.len() == 0 {
        assert(s.reverse() =~= s);
    } else {
        let dl = s.drop_last();
        let x = s.last();
        let single = seq![x];
        let e = Seq::<ReportLineV>::empty();
        lemma_reverse_multiset(dl);
        assert(s.reverse() =~= single + dl.reverse());
        vstd::seq_lib::lemma_multiset_commutative(single, dl.reverse());
        assert(e.push(x).to_multiset() =~= e.to_multiset().insert(x));
        assert(e.push(x) =~= single);
        assert(forall|a: ReportLineV| !e.contains(a));
        assert(e.to_multiset() =~= Multiset::<ReportLineV>::empty());
        assert(single.to_multiset() == e.to_multiset().insert(x));
        assert(dl.push(x).to_multiset() =~= dl.to_multiset().insert(x));
        assert(dl.push(x) =~= s);
        assert(s.to_multiset() == dl.to_multiset().insert(x));
        assert(e.to_multiset().insert(x).add(dl.to_multiset()) =~= dl.to_multiset().insert(x));
    }
}

/// Sorts report lines by the requested key, keeping the input order of
/// lines whose keys tie.
pub fn sort_report_lines(lines: &Vec<ReportLine>, sort_by: &ReportSortBy) -> (r: Vec<ReportLine>)
    ensures
        lines_view(r@) == sort_lines_spec(lines_view(lines@), *sort_by),
{
    let ghost ls = lines_view(lines@);
    let mut out: Vec<ReportLine> = Vec::new();
    let n = lines.len();
    let mut i: usize = 0;
    while i < n
        invariant
            0 <= i <= n,
            n == lines.len(),
            ls == lines_view(lines@),
            lines_view(out@) == sort_lines_spec(ls.take(i as int), *sort_by),
        decreases n - i,
    {
        proof {
            assert(ls.take(i + 1).drop_last() =~= ls.take(i as int));
            assert(ls.take(i + 1).last() == ls[i as int]);
            assert(ls[i as int] == lines@[i as int]@);
        }
        let line = lines[i].duplicate();
        let ghost lv = line@;
        let ghost before = lines_view(out@);
        let mut idx: usize = out.len();
        proof {
            assert(before.take(idx as int) =~= before);
            assert(before.skip(idx as int) =~= Seq::<ReportLineV>::empty());
            assert(insert_line(before, lv, *sort_by) + Seq::<ReportLineV>::empty()
                =~= insert_line(before, lv, *sort_by));
        }
        while idx > 0 && !line_le(&out[idx - 1], &line, sort_by)
            invariant
                0 <= idx <= out.len(),
                before == lines_view(out@),
                lv == line@,
                insert_line(before, lv, *sort_by) == insert_line(
                    before.take(idx as int),
                    lv,
                    *sort_by,
                ) + before.skip(idx as int),
            decreases idx,
        {
            proof {
                let tk = before.take(idx as int);
                assert(tk.len() > 0);
                assert(tk.last() == before[idx - 1]);
                assert(before[idx - 1] == out@[idx - 1]@);
                assert(tk.drop_last() =~= before.take(idx - 1));
                assert(insert_line(tk, lv, *sort_by) == insert_line(
                    before.take(idx - 1),
                    lv,
                    *sort_by,
                ).push(before[idx - 1]));
                assert(insert_line(before.take(idx - 1), lv, *sort_by).push(before[idx - 1])
                    + before.skip(idx as int) =~= insert_line(before.take(idx - 1), lv, *sort_by)
                    + before.skip(idx - 1));
            }
            idx = idx - 1;
        }
        proof {
            let tk = before.take(idx as int);
            if idx > 0 {
                assert(tk.last() == before[idx - 1]);
                assert(before[idx - 1] == out@[idx - 1]@);
                assert(key_le(tk.last(), lv, *sort_by));
            }
            assert(insert_line(tk, lv, *sort_by) == tk.push(lv));
        }
        out.insert(idx, line);
        proof {
            assert(out@.map_values(|l: ReportLine| l@) =~= before.take(idx as int).push(lv)
                + before.skip(idx as int));
            assert(lines_view(out@) =~= insert_line(before, lv, *sort_by));
        }
        i = i + 1;
    }
    proof {
        assert(ls.take(n as int) =~= ls);
    }
    out
}

/// The lines of a finished report: filtered and joined against the
/// prices, grouped when asked, sorted by the chosen key and direction.
pub open spec fn report_spec(
    wallets: Seq<WalletDefV>,
    prices: Seq<PriceInfoV>,
    f: ReportFilterV,
) -> Seq<ReportLineV> {
    let base = report_lines_spec(wallets, prices, f);
    let grouped = if f.group_by_token {
        group_by_token_spec(base)
    } else {
        base
    };
    ordered_lines(grouped, f.sort_by, f.order)
}

/// Derives a holdings report: joins each passing holding against its
/// price, skips the ones without a price, groups by token when asked,
/// and sorts by the filter's key and direction.  When grouping, the
/// totals must fit the line fields, which every caller below machine
/// scale satisfies.
pub fn report_holdings(
    wallets_data: &WalletsData,
    prices: &Vec<PriceInfo>,
    filter: &ReportFilter,
) -> (r: Vec<ReportLine>)
    requires
        filter@.group_by_token ==> sum_amount(
            report_lines_spec(wallets_data@, prices_view(prices@), filter@),
        ) <= u64::MAX && sum_value(
            report_lines_spec(wallets_data@, prices_view(prices@), filter@),
        ) <= u128::MAX,
    ensures
        lines_view(r@) == report_spec(wallets_data@, prices_view(prices@), filter@),
{
    let lines = build_report_lines(wallets_data, prices, filter);
    let lines = if filter.group_by_token {
        group_by_token(&lines)
    } else {
        lines
    };
    let sorted = sort_report_lines(&lines, &filter.sort_by);
    if filter.order == ReportOrder::Desc {
        reverse_lines(&sorted)
    } else {
        sorted
    }
}

/// Derives a holdings report like [`report_holdings`], but checks the
/// grouping bounds itself: when grouping is asked for and a total
/// would not fit its line field, nothing is returned instead.
pub fn report_holdings_checked(
    wallets_data: &WalletsData,
    prices: &Vec<PriceInfo>,
    filter: &ReportFilter,
) -> (r: Option<Vec<ReportLine>>)
    ensures
        r is Some <==> (filter@.group_by_token ==> (sum_amount(
            report_lines_spec(wallets_data@, prices_view(prices@), filter@),
        ) <= u64::MAX && sum_value(
            report_lines_spec(wallets_data@, prices_view(prices@), filter@),
        ) <= u128::MAX)),
        r matches Some(v) ==> lines_view(v@) == report_spec(
            wallets_data@,
            prices_view(prices@),
            filter@,
        ),
{
    if filter.group_by_token {
        let lines = build_report_lines(wallets_data, prices, filter);
        if report_totals(&lines).is_none() {
            return None;
        }
    }
    Some(report_holdings(wallets_data, prices, filter))
}

proof fn lemma_sums_prefix(ls: Seq<ReportLineV>, j: int)
    requires
        0 <= j <= ls.len(),
    ensures
        sum_amount(ls.take(j)) <= sum_amount(ls),
        sum_value(ls.take(j)) <= sum_value(ls),
    decreases ls.len() - j,
{
    if j < ls.len() {
        lemma_sums_prefix(ls, j + 1);
        assert(ls.take(j + 1).drop_last() =~= ls.take(j));
        assert(ls.take(j + 1).last() == ls[j]);
    } else {
        assert(ls.take(j) =~= ls);
    }
}

/// The report's totals row: the sum of amounts and the sum of values,
/// or nothing when a sum exceeds what its field can carry.
pub fn report_totals(lines: &Vec<ReportLine>) -> (r: Option<(u64, u128)>)
    ensures
        r is Some <==> (sum_amount(lines_view(lines@)) <= u64::MAX && sum_value(
            lines_view(lines@),
        ) <= u128::MAX),
        r matches Some(t) ==> t.0 as int == sum_amount(lines_view(lines@)) && t.1 as int
            == sum_value(lines_view(lines@)),
{
    let ghost ls = lines_view(lines@);
    let mut amount: u64 = 0;
    let mut value: u128 = 0;
    let n = lines.len();
    let mut i: usize = 0;
    while i < n
        invariant
            0 <= i <= n,
            n == lines.len(),
            ls == lines_view(lines@),
            amount as int == sum_amount(ls.take(i as int)),
            value as int == sum_value(ls.take(i as int)),
        decreases n - i,
    {
        proof {
            assert(ls.take(i + 1).drop_last() =~= ls.take(i as int));
            assert(ls.take(i + 1).last() == ls[i as int]);
            assert(ls[i as int] == lines@[i as int]@);
            lemma_sums_prefix(ls, i + 1);
        }
        if amount > u64::MAX - lines[i].amount {
            return None;
        }
        if value > u128::MAX - lines[i].value {
            return None;
        }
        amount = amount + lines[i].amount;
        value = value + lines[i].value;
        i = i + 1;
    }
    proof {
        assert(ls.take(n as int) =~= ls);
    }
    Some((amount, value))
}

/// One row of the wallet listing.
#[derive(Debug)]
pub struct ListWalletLine {
    pub wallet_name: String,
    pub wallet_kind: String,
    pub wallet_address: String,
}

/// Mathematical model of a `ListWalletLine`.
pub ghost struct ListWalletLineV {
    pub wallet_name: Seq<char>,
    pub wallet_kind: Seq<char>,
    pub wallet_address: Seq<char>,
}

impl View for ListWalletLine {
    type V = ListWalletLineV;

    open spec fn view(&self) -> ListWalletLineV {
        ListWalletLineV {
            wallet_name: self.wallet_name@,
            wallet_kind: self.wallet_kind@,
            wallet_address: self.wallet_address@,
        }
    }
}

/// The identity row of each configured wallet, in configuration order.
pub open spec fn wallet_list_spec(ws: Seq<WalletDefV>) -> Seq<ListWalletLineV> {
    ws.map_values(
        |w: WalletDefV| ListWalletLineV {
            wallet_name: w.name,
            wallet_kind: w.kind,
            wallet_address: w.address,
        },
    )
}

/// Lists every configured wallet's identity fields, in order.
pub fn list_wallets(wallets_data: &WalletsData) -> (r: Vec<ListWalletLine>)
    ensures
        r@.map_values(|l: ListWalletLine| l@) == wallet_list_spec(wallets_data@),
{
    let mut r: Vec<ListWalletLine> = Vec::new();
    let n = wallets_data.wallets.len();
    let mut i: usize = 0;
    while i < n
        invariant
            0 <= i <= n,
            n == wallets_data.wallets.len(),
            r@.len() == i,
            forall|j: int|
                0 <= j < i ==> r@.map_values(|l: ListWalletLine| l@)[j] == wallet_list_spec(
                    wallets_data@,
                )[j],
        decreases n - i,
    {
        let wallet = &wallets_data.wallets[i];
        let line = ListWalletLine {
            wallet_name: wallet.name.clone(),
            wallet_kind: wallet.kind.clone(),
            wallet_address: wallet.address.clone(),
        };
        r.push(line);
        i = i + 1;
    }
    proof {
        assert(r@.map_values(|l: ListWalletLine| l@) =~= wallet_list_spec(wallets_data@));
    }
    r
}

/// The lines in reverse order.
pub fn reverse_lines(lines: &Vec<ReportLine>) -> (r: Vec<ReportLine>)
    ensures
        lines_view(r@) == lines_view(lines@).reverse(),
{
    let ghost ls = lines_view(lines@);
    let mut r: Vec<ReportLine> = Vec::new();
    let n = lines.len();
    let mut i: usize = 0;
    while i < n
        invariant
            0 <= i <= n,
            n == lines.len(),
            ls == lines_view(lines@),
            lines_view(r@).len() == i,
            forall|j: int| 0 <= j < i ==> lines_view(r@)[j] == ls[n - 1 - j],
        decreases n - i,
    {
        let line = lines[n - 1 - i].duplicate();
        let ghost prev = lines_view(r@);
        r.push(line);
        proof {
            assert(lines_view(r@) =~= prev.push(line@));
        }
        i = i + 1;
    }
    proof {
        assert(lines_view(r@) =~= ls.reverse());
    }
    r
}

} // verus!
