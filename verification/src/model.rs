//! Canonical data model: the provider-independent record shapes that all
//! adapters normalize into, and the report configuration enums.
//!
//! Monetary quantities are fixed-point integers in micro-units: a value of
//! `1_500_000` stands for 1.5 currency units.  Percentages use the same
//! scale.  This keeps every amount, price and derived value exact and
//! machine-checkable.

use vstd::prelude::*;

verus! {

broadcast use vstd::string::group_string_axioms;

/// Number of micro-units in one whole unit of the fixed-point scale.
pub const MICRO: u64 = 1_000_000;

/// Closed set of quote currencies, with a canonical uppercase string form
/// used as the join key against provider responses.
#[derive(Debug, PartialEq, Eq, Structural, Clone, Copy, Hash)]
pub enum Currency {
    EUR,
    USD,
}

/// The canonical uppercase form of a currency, as a character sequence.
pub open spec fn currency_upper(c: Currency) -> Seq<char> {
    match c {
        Currency::EUR => "EUR"@,
        Currency::USD => "USD"@,
    }
}

/// The canonical lowercase form of a currency, as a character sequence.
pub open spec fn currency_lower(c: Currency) -> Seq<char> {
    match c {
        Currency::EUR => "eur"@,
        Currency::USD => "usd"@,
    }
}

/// The currency a code names, if any: the uppercase and lowercase
/// canonical forms are accepted, everything else is not.
pub open spec fn parse_currency(s: Seq<char>) -> Option<Currency> {
    if s == "eur"@ || s == "EUR"@ {
        Some(Currency::EUR)
    } else if s == "usd"@ || s == "USD"@ {
        Some(Currency::USD)
    } else {
        None
    }
}

impl Currency {
    /// Parses a currency code; accepts the uppercase and lowercase forms
    /// and rejects everything else, handing the rejected code back.
    pub fn from_str(val: &str) -> (r: Result<Currency, String>)
        ensures
            r is Ok <==> parse_currency(val@) is Some,
            r is Ok ==> parse_currency(val@) == Some(r->Ok_0),
            r is Err ==> r->Err_0@ == val@,
    {
        proof {
            reveal_strlit("eur");
            reveal_strlit("EUR");
            reveal_strlit("usd");
            reveal_strlit("USD");
            assert("eur"@[0] == 'e' && "EUR"@[0] == 'E' && "usd"@[0] == 'u' && "USD"@[0] == 'U');
            assert("eur"@ != "usd"@ && "eur"@ != "USD"@ && "EUR"@ != "usd"@ && "EUR"@ != "USD"@);
        }
        let v = String::from_str(val);
        if v == String::from_str("eur") || v == String::from_str("EUR") {
            Ok(Currency::EUR)
        } else if v == String::from_str("usd") || v == String::from_str("USD") {
            Ok(Currency::USD)
        } else {
            Err(v)
        }
    }

    /// The uppercase and lowercase string forms, in that order.
    pub fn as_str_pair(&self) -> (r: (&'static str, &'static str))
        ensures
            r.0@ == currency_upper(*self),
            r.1@ == currency_lower(*self),
    {
        match self {
            Currency::EUR => ("EUR", "eur"),
            Currency::USD => ("USD", "usd"),
        }
    }

    /// The canonical uppercase string form.
    pub fn to_uppercase_str(&self) -> (r: &'static str)
        ensures
            r@ == currency_upper(*self),
    {
        self.as_str_pair().0
    }
}

impl core::str::FromStr for Currency {
    type Err = String;

    fn from_str(val: &str) -> Result<Currency, String> {
        Currency::from_str(val)
    }
}

/// One price record per (coin, currency) pair: the unit exchanged between
/// every component downstream of a provider adapter.
#[derive(Debug, Clone)]
pub struct PriceInfo {
    pub coin: String,
    pub currency: Currency,
    /// Unit price in micro-units of the currency.
    pub value: u64,
    /// Market capitalization in micro-units of the currency.
    pub market_cap: u64,
    /// 24-hour change in micro-percent; may be negative.
    pub change_24h: i64,
}

/// Mathematical model of a `PriceInfo`.
pub ghost struct PriceInfoV {
    pub coin: Seq<char>,
    pub currency: Currency,
    pub value: u64,
    pub market_cap: u64,
    pub change_24h: i64,
}

impl View for PriceInfo {
    type V = PriceInfoV;

    open spec fn view(&self) -> PriceInfoV {
        PriceInfoV {
            coin: self.coin@,
            currency: self.currency,
            value: self.value,
            market_cap: self.market_cap,
            change_24h: self.change_24h,
        }
    }
}

/// The model of a list of price records.
pub open spec fn prices_view(v: Seq<PriceInfo>) -> Seq<PriceInfoV> {
    v.map_values(|p: PriceInfo| p@)
}

impl PriceInfo {
    /// A copy with the same fields.
    pub fn duplicate(&self) -> (r: PriceInfo)
        ensures
            r@ == self@,
    {
        PriceInfo {
            coin: self.coin.clone(),
            currency: self.currency,
            value: self.value,
            market_cap: self.market_cap,
            change_24h: self.change_24h,
        }
    }
}

/// All-time-high/low data; produced by ATH-capable adapters only.
#[derive(Debug, Clone)]
pub struct AthInfo {
    pub coin: String,
    /// All-time-high price in micro-units.
    pub ath: u64,
    pub ath_date: String,
    /// Change from the all-time high, in micro-percent.
    pub ath_change_percentage: i64,
    /// All-time-low price in micro-units.
    pub atl: u64,
    pub atl_date: String,
    /// Change from the all-time low, in micro-percent.
    pub atl_change_percentage: i64,
}

/// Mathematical model of an `AthInfo`.
pub ghost struct AthInfoV {
    pub coin: Seq<char>,
    pub ath: u64,
    pub ath_date: Seq<char>,
    pub ath_change_percentage: i64,
    pub atl: u64,
    pub atl_date: Seq<char>,
    pub atl_change_percentage: i64,
}

impl View for AthInfo {
    type V = AthInfoV;

    open spec fn view(&self) -> AthInfoV {
        AthInfoV {
            coin: self.coin@,
            ath: self.ath,
            ath_date: self.ath_date@,
            ath_change_percentage: self.ath_change_percentage,
            atl: self.atl,
            atl_date: self.atl_date@,
            atl_change_percentage: self.atl_change_percentage,
        }
    }
}

/// A wallet's name, as holdings configuration records it.
#[derive(Debug)]
pub struct Wallet {
    pub name: String,
}

/// One held position tied to its wallet.
#[derive(Debug)]
pub struct Holding {
    pub wallet: Wallet,
    pub coin: String,
    /// Held amount in micro-units of the coin.
    pub amount: u64,
}

/// A flat list of held positions.
#[derive(Debug)]
pub struct Holdings {
    pub holdings: Vec<Holding>,
}

impl Holdings {
    /// An empty holdings list.
    pub fn new() -> (r: Self)
        ensures
            r.holdings@.len() == 0,
    {
        Self { holdings: Vec::new() }
    }
}

/// A coin's descriptive configuration entry.
#[derive(Debug)]
pub struct CoinInfo {
    pub code: String,
    pub name: String,
    pub price_provider: PriceInfoProvider,
    pub ath_provider: AthInfoProvider,
    pub market_cap_provider: MarketCapProvider,
}

/// Tag of the source a coin's price is described to come from.
#[derive(Debug, PartialEq, Eq, Structural, Clone, Copy)]
pub enum PriceInfoProvider {
    CoinAPI,
}

/// Tag of the source a coin's all-time-high data is described to come
/// from.
#[derive(Debug, PartialEq, Eq, Structural, Clone, Copy)]
pub enum AthInfoProvider {
    CoinAPI,
}

/// Tag of the source a coin's market capitalization is described to
/// come from.
#[derive(Debug, PartialEq, Eq, Structural, Clone, Copy)]
pub enum MarketCapProvider {
    CoinAPI,
}

/// The field a holdings report is sorted by.
#[derive(Debug, PartialEq, Eq, Structural, Clone, Copy)]
pub enum ReportSortBy {
    Token,
    Amount,
    Value,
    MktCap,
    Change24h,
}

/// The direction a holdings report is sorted in.
#[derive(Debug, PartialEq, Eq, Structural, Clone, Copy)]
pub enum ReportOrder {
    Asc,
    Desc,
}

} // verus!
