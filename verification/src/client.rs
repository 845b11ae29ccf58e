//! Provider response shapes, in the library's own terms.
//!
//! Each price source answers in its own nested format.  The library
//! holds those answers as plain records — strings and fixed-point
//! micro-unit integers — so that the adapters' response parsing and
//! mapping into the canonical model is machine-checked.  The transport
//! that fills these records lives outside the library.  The client
//! handles themselves carry no state.

use vstd::prelude::*;

verus! {

/// Handle for the CoinAPI source.
#[derive(Debug)]
pub struct CoinAPIClient {}

impl CoinAPIClient {
    pub fn new() -> Self {
        Self {}
    }
}

/// Handle for the CoinGecko source.
#[derive(Debug)]
pub struct CoinGeckoClient {}

impl CoinGeckoClient {
    pub fn new() -> Self {
        Self {}
    }
}

/// Handle for the CryptoCompare source.
#[derive(Debug)]
pub struct CryptoCompareClient {}

impl CryptoCompareClient {
    pub fn new() -> Self {
        Self {}
    }
}

/// One exchange rate of a CoinAPI answer.
#[derive(Debug)]
pub struct Rate {
    pub time: String,
    /// The quote currency's code, e.g. "USD".
    pub asset_id_quote: String,
    /// The rate in micro-units of the quote currency.
    pub rate: u64,
}

/// Mathematical model of a `Rate`.
pub ghost struct RateV {
    pub time: Seq<char>,
    pub asset_id_quote: Seq<char>,
    pub rate: u64,
}

impl View for Rate {
    type V = RateV;

    open spec fn view(&self) -> RateV {
        RateV { time: self.time@, asset_id_quote: self.asset_id_quote@, rate: self.rate }
    }
}

/// A CoinAPI exchange-rate answer: one base asset, many quotes.
#[derive(Debug)]
pub struct ExchangeRateResponse {
    pub asset_id_base: String,
    pub rates: Vec<Rate>,
}

/// Mathematical model of an `ExchangeRateResponse`.
pub ghost struct ExchangeRateResponseV {
    pub asset_id_base: Seq<char>,
    pub rates: Seq<RateV>,
}

impl View for ExchangeRateResponse {
    type V = ExchangeRateResponseV;

    open spec fn view(&self) -> ExchangeRateResponseV {
        ExchangeRateResponseV {
            asset_id_base: self.asset_id_base@,
            rates: self.rates@.map_values(|r: Rate| r@),
        }
    }
}

/// One quote of a CryptoCompare answer: the priced fields of a
/// (symbol, currency) pair.
#[derive(Debug)]
pub struct Level2 {
    pub from_symbol: String,
    /// Unit price in micro-units of the currency.
    pub price: u64,
    /// Full market capitalization in micro-units.
    pub mktcap: u64,
    /// Circulating-supply market capitalization in micro-units.
    pub circulating_supply_mktcap: u64,
    /// 24-hour change in micro-percent.
    pub change_pct_24_hour: i64,
}

/// Mathematical model of a `Level2`.
pub ghost struct Level2V {
    pub from_symbol: Seq<char>,
    pub price: u64,
    pub mktcap: u64,
    pub circulating_supply_mktcap: u64,
    pub change_pct_24_hour: i64,
}

impl View for Level2 {
    type V = Level2V;

    open spec fn view(&self) -> Level2V {
        Level2V {
            from_symbol: self.from_symbol@,
            price: self.price,
            mktcap: self.mktcap,
            circulating_supply_mktcap: self.circulating_supply_mktcap,
            change_pct_24_hour: self.change_pct_24_hour,
        }
    }
}

/// A CryptoCompare multi-price answer: per symbol, per currency, one
/// quote.  Entries keep the answer's order, so a repeated key stays
/// deterministic: downstream lookups take the earliest record.
#[derive(Debug)]
pub struct PriceMultiFullResponse {
    pub raw: Vec<(String, Vec<(String, Level2)>)>,
}

impl View for PriceMultiFullResponse {
    type V = Seq<(Seq<char>, Seq<(Seq<char>, Level2V)>)>;

    open spec fn view(&self) -> Seq<(Seq<char>, Seq<(Seq<char>, Level2V)>)> {
        self.raw@.map_values(
            |e: (String, Vec<(String, Level2)>)|
                (e.0@, e.1@.map_values(|q: (String, Level2)| (q.0@, q.1@))),
        )
    }
}

/// One market record of a CoinGecko answer.
#[derive(Debug)]
pub struct CoinMarket {
    pub id: String,
    pub symbol: String,
    pub name: String,
    /// Current price in micro-units.
    pub current_price: u64,
    /// All-time high in micro-units.
    pub ath: u64,
    /// Change from the all-time high in micro-percent.
    pub ath_change_percentage: i64,
    pub ath_date: String,
    /// All-time low in micro-units.
    pub atl: u64,
    /// Change from the all-time low in micro-percent.
    pub atl_change_percentage: i64,
    pub atl_date: String,
    /// Market capitalization in micro-units.
    pub market_cap: u64,
    /// 24-hour price change in micro-percent.
    pub price_change_percentage_24h: i64,
}

/// Mathematical model of a `CoinMarket`.
pub ghost struct CoinMarketV {
    pub id: Seq<char>,
    pub symbol: Seq<char>,
    pub name: Seq<char>,
    pub current_price: u64,
    pub ath: u64,
    pub ath_change_percentage: i64,
    pub ath_date: Seq<char>,
    pub atl: u64,
    pub atl_change_percentage: i64,
    pub atl_date: Seq<char>,
    pub market_cap: u64,
    pub price_change_percentage_24h: i64,
}

impl View for CoinMarket {
    type V = CoinMarketV;

    open spec fn view(&self) -> CoinMarketV {
        CoinMarketV {
            id: self.id@,
            symbol: self.symbol@,
            name: self.name@,
            current_price: self.current_price,
            ath: self.ath,
            ath_change_percentage: self.ath_change_percentage,
            ath_date: self.ath_date@,
            atl: self.atl,
            atl_change_percentage: self.atl_change_percentage,
            atl_date: self.atl_date@,
            market_cap: self.market_cap,
            price_change_percentage_24h: self.price_change_percentage_24h,
        }
    }
}

/// One entry of CoinGecko's coin listing.
#[derive(Debug)]
pub struct Coin {
    pub id: String,
    pub symbol: String,
    pub name: String,
}

/// Mathematical model of a `Coin`.
pub ghost struct CoinV {
    pub id: Seq<char>,
    pub symbol: Seq<char>,
    pub name: Seq<char>,
}

impl View for Coin {
    type V = CoinV;

    open spec fn view(&self) -> CoinV {
        CoinV { id: self.id@, symbol: self.symbol@, name: self.name@ }
    }
}

} // verus!
