//! Provider adapters' pure halves: mapping each source's native answer
//! shape into the canonical model.
//!
//! Request construction and transport live outside the library; the
//! records they fill come back through these functions, whose merging
//! of nested per-symbol and per-currency answers into flat canonical
//! records is machine-checked.

use vstd::prelude::*;

use crate::client::{CoinMarket, CoinMarketV, ExchangeRateResponse, Level2V, PriceMultiFullResponse,
    RateV};
use crate::config::{assoc_lookup, ProviderData};
use crate::model::{currency_upper, parse_currency, prices_view, AthInfo, AthInfoV, Currency,
    PriceInfo, PriceInfoV};

verus! {

broadcast use vstd::string::group_string_axioms;

/// The uppercase string forms of the requested currencies, in order.
pub fn convert_currencies(currencies: &Vec<Currency>) -> (r: Vec<&'static str>)
    ensures
        r@.len() == currencies@.len(),
        forall|i: int| 0 <= i < r@.len() ==> (#[trigger] r@[i])@ == currency_upper(currencies@[i]),
{
    let mut r: Vec<&'static str> = Vec::new();
    let n = currencies.len();
    let mut i: usize = 0;
    while i < n
        invariant
            0 <= i <= n,
            n == currencies.len(),
            r@.len() == i,
            forall|j: int| 0 <= j < i ==> (#[trigger] r@[j])@ == currency_upper(currencies@[j]),
        decreases n - i,
    {
        r.push(currencies[i].to_uppercase_str());
        i = i + 1;
    }
    r
}

/// The canonical record of one quote: symbol, parsed currency, price,
/// circulating-supply market capitalization and 24-hour change.
pub open spec fn quote_record(sym: Seq<char>, currency: Currency, l: Level2V) -> PriceInfoV {
    PriceInfoV {
        coin: sym,
        currency: currency,
        value: l.price,
        market_cap: l.circulating_supply_mktcap,
        change_24h: l.change_pct_24_hour,
    }
}

/// The canonical records of one symbol's quotes, in answer order, or
/// the first currency code that does not parse.
pub open spec fn convert_quotes(sym: Seq<char>, qs: Seq<(Seq<char>, Level2V)>) -> Result<
    Seq<PriceInfoV>,
    Seq<char>,
>
    decreases qs.len(),
{
    if qs.len() == 0 {
        Ok(Seq::empty())
    } else {
        match convert_quotes(sym, qs.drop_last()) {
            Err(e) => Err(e),
            Ok(v) => match parse_currency(qs.last().0) {
                Some(c) => Ok(v.push(quote_record(sym, c, qs.last().1))),
                None => Err(qs.last().0),
            },
        }
    }
}

/// The canonical records of a whole multi-price answer, flattened in
/// answer order, or the first currency code that does not parse.
pub open spec fn convert_response_spec(raw: Seq<(Seq<char>, Seq<(Seq<char>, Level2V)>)>) -> Result<
    Seq<PriceInfoV>,
    Seq<char>,
>
    decreases raw.len(),
{
    if raw.len() == 0 {
        Ok(Seq::empty())
    } else {
        match convert_response_spec(raw.drop_last()) {
            Err(e) => Err(e),
            Ok(v) => match convert_quotes(raw.last().0, raw.last().1) {
                Err(e) => Err(e),
                Ok(w) => Ok(v + w),
            },
        }
    }
}

/// Flattens a CryptoCompare multi-price answer into canonical records:
/// one record per (symbol, currency) pair, in answer order.  The first
/// currency code that is not a known currency fails the conversion and
/// is handed back.
pub fn convert_response(response: &PriceMultiFullResponse) -> (r: Result<Vec<PriceInfo>, String>)
    ensures
        match r {
            Ok(v) => convert_response_spec(response@) == Ok::<Seq<PriceInfoV>, Seq<char>>(
                prices_view(v@),
            ),
            Err(e) => convert_response_spec(response@) is Err && convert_response_spec(
                response@,
            )->Err_0 == e@,
        },
{
    let ghost raw = response@;
    let mut result: Vec<PriceInfo> = Vec::new();
    proof {
        assert(raw.take(0) =~= Seq::<(Seq<char>, Seq<(Seq<char>, Level2V)>)>::empty());
        assert(prices_view(result@) =~= Seq::<PriceInfoV>::empty());
    }
    let n = response.raw.len();
    let mut i: usize = 0;
    while i < n
        invariant
            0 <= i <= n,
            n == response.raw.len(),
            raw == response@,
            convert_response_spec(raw.take(i as int)) == Ok::<Seq<PriceInfoV>, Seq<char>>(
                prices_view(result@),
            ),
        decreases n - i,
    {
        let entry = &response.raw[i];
        let ghost sym = entry.0@;
        let ghost qs = raw[i as int].1;
        proof {
            assert(raw.take(i + 1).drop_last() =~= raw.take(i as int));
            assert(raw.take(i + 1).last() == raw[i as int]);
            assert(raw[i as int].0 == sym);
        }
        let m = entry.1.len();
        let mut j: usize = 0;
        proof {
            let base = convert_response_spec(raw.take(i as int))->Ok_0;
            assert(base == prices_view(result@));
            assert(qs.take(0) =~= Seq::<(Seq<char>, Level2V)>::empty());
            assert(base + Seq::<PriceInfoV>::empty() =~= base);
        }
        while j < m
            invariant
                0 <= i < n,
                0 <= j <= m,
                n == response.raw.len(),
                m == entry.1.len(),
                raw == response@,
                entry == &response.raw[i as int],
                sym == entry.0@,
                qs == raw[i as int].1,
                convert_response_spec(raw.take(i as int)) is Ok,
                convert_quotes(sym, qs.take(j as int)) is Ok,
                prices_view(result@) == convert_response_spec(raw.take(i as int))->Ok_0
                    + convert_quotes(sym, qs.take(j as int))->Ok_0,
            decreases m - j,
        {
            let quote = &entry.1[j];
            proof {
                assert(qs.take(j + 1).drop_last() =~= qs.take(j as int));
                assert(qs.take(j + 1).last() == qs[j as int]);
                assert(qs[j as int] == (quote.0@, quote.1@));
            }
            match Currency::from_str(quote.0.as_str()) {
                Ok(currency) => {
                    let rec = PriceInfo {
                        coin: entry.0.clone(),
                        currency,
                        value: quote.1.price,
                        market_cap: quote.1.circulating_supply_mktcap,
                        change_24h: quote.1.change_pct_24_hour,
                    };
                    let ghost prev = prices_view(result@);
                    let ghost base = convert_response_spec(raw.take(i as int))->Ok_0;
                    let ghost sofar = convert_quotes(sym, qs.take(j as int))->Ok_0;
                    result.push(rec);
                    proof {
                        assert(prices_view(result@) =~= prev.push(rec@));
                        assert(rec@ == quote_record(sym, currency, qs[j as int].1));
                        assert(convert_quotes(sym, qs.take(j + 1)) == Ok::<
                            Seq<PriceInfoV>,
                            Seq<char>,
                        >(sofar.push(rec@)));
                        assert((base + sofar).push(rec@) =~= base + sofar.push(rec@));
                    }
                },
                Err(e) => {
                    proof {
                        assert(convert_quotes(sym, qs.take(j + 1)) == Err::<
                            Seq<PriceInfoV>,
                            Seq<char>,
                        >(qs[j as int].0));
                        crate::providers::lemma_convert_quotes_err(sym, qs, j as int);
                        lemma_convert_response_err(raw, i as int);
                    }
                    return Err(e);
                },
            }
            j = j + 1;
        }
        proof {
            assert(qs.take(m as int) =~= qs);
            assert(convert_response_spec(raw.take(i + 1)) == Ok::<Seq<PriceInfoV>, Seq<char>>(
                prices_view(result@),
            ));
        }
        i = i + 1;
    }
    proof {
        assert(raw.take(n as int) =~= raw);
    }
    Ok(result)
}

proof fn lemma_convert_quotes_err(sym: Seq<char>, qs: Seq<(Seq<char>, Level2V)>, j: int)
    requires
        0 <= j < qs.len(),
        convert_quotes(sym, qs.take(j + 1)) is Err,
    ensures
        convert_quotes(sym, qs) is Err,
        convert_quotes(sym, qs) == convert_quotes(sym, qs.take(j + 1)),
    decreases qs.len() - j,
{
    if j + 1 < qs.len() {
        assert(qs.take(j + 2).drop_last() =~= qs.take(j + 1));
        lemma_convert_quotes_err(sym, qs, j + 1);
    } else {
        assert(qs.take(j + 1) =~= qs);
    }
}

proof fn lemma_convert_response_err(raw: Seq<(Seq<char>, Seq<(Seq<char>, Level2V)>)>, i: int)
    requires
        0 <= i < raw.len(),
        convert_response_spec(raw.take(i)) is Ok,
        convert_quotes(raw[i].0, raw[i].1) is Err,
    ensures
        convert_response_spec(raw) is Err,
        convert_response_spec(raw)->Err_0 == convert_quotes(raw[i].0, raw[i].1)->Err_0,
    decreases raw.len() - i,
{
    assert(raw.take(i + 1).drop_last() =~= raw.take(i));
    assert(raw.take(i + 1).last() == raw[i]);
    if i + 1 < raw.len() {
        lemma_convert_response_err_propagates(raw, i + 1);
    } else {
        assert(raw.take(i + 1) =~= raw);
    }
}

proof fn lemma_convert_response_err_propagates(
    raw: Seq<(Seq<char>, Seq<(Seq<char>, Level2V)>)>,
    i: int,
)
    requires
        0 < i <= raw.len(),
        convert_response_spec(raw.take(i)) is Err,
    ensures
        convert_response_spec(raw) is Err,
        convert_response_spec(raw)->Err_0 == convert_response_spec(raw.take(i))->Err_0,
    decreases raw.len() - i,
{
    if i < raw.len() {
        assert(raw.take(i + 1).drop_last() =~= raw.take(i));
        lemma_convert_response_err_propagates(raw, i + 1);
    } else {
        assert(raw.take(i) =~= raw);
    }
}

/// The first exchange rate quoted in US dollars, if any.
pub open spec fn find_usd_rate(rates: Seq<RateV>) -> Option<RateV>
    decreases rates.len(),
{
    if rates.len() == 0 {
        None
    } else if rates[0].asset_id_quote == "USD"@ {
        Some(rates[0])
    } else {
        find_usd_rate(rates.drop_first())
    }
}

proof fn lemma_find_usd_rate_skip(rates: Seq<RateV>, i: int)
    requires
        0 <= i <= rates.len(),
        forall|j: int| 0 <= j < i ==> (#[trigger] rates[j]).asset_id_quote != "USD"@,
    ensures
        find_usd_rate(rates) == find_usd_rate(rates.skip(i)),
    decreases i,
{
    if i > 0 {
        lemma_find_usd_rate_skip(rates, i - 1);
        assert(rates.skip(i - 1)[0] == rates[i - 1]);
        assert(rates.skip(i - 1).drop_first() =~= rates.skip(i));
    } else {
        assert(rates.skip(0) =~= rates);
    }
}

/// Picks the US-dollar rate out of a CoinAPI exchange-rate answer and
/// turns it into the symbol's canonical price record.  An answer
/// without a US-dollar rate fails, handing the symbol back; the
/// fields this source does not quote are zero.
pub fn convert_exchange_rates(symbol: &str, response: &ExchangeRateResponse) -> (r: Result<
    Vec<PriceInfo>,
    String,
>)
    ensures
        r is Ok <==> find_usd_rate(response@.rates) is Some,
        r matches Ok(v) ==> prices_view(v@) =~= seq![
            PriceInfoV {
                coin: symbol@,
                currency: Currency::USD,
                value: find_usd_rate(response@.rates)->0.rate,
                market_cap: 0u64,
                change_24h: 0i64,
            },
        ],
        r matches Err(e) ==> e@ == symbol@,
{
    let ghost rates = response@.rates;
    let usd = String::from_str("USD");
    let n = response.rates.len();
    let mut i: usize = 0;
    while i < n
        invariant
            0 <= i <= n,
            n == response.rates.len(),
            rates == response@.rates,
            usd@ == "USD"@,
            forall|j: int| 0 <= j < i ==> (#[trigger] rates[j]).asset_id_quote != "USD"@,
        decreases n - i,
    {
        if response.rates[i].asset_id_quote == usd {
            proof {
                lemma_find_usd_rate_skip(rates, i as int);
                assert(rates.skip(i as int)[0] == rates[i as int]);
            }
            let mut prices: Vec<PriceInfo> = Vec::new();
            prices.push(PriceInfo {
                coin: String::from_str(symbol),
                currency: Currency::USD,
                value: response.rates[i].rate,
                market_cap: 0,
                change_24h: 0,
            });
            return Ok(prices);
        }
        i = i + 1;
    }
    proof {
        lemma_find_usd_rate_skip(rates, n as int);
        assert(rates.skip(n as int).len() == 0);
    }
    Err(String::from_str(symbol))
}

/// The provider-native identifier of a symbol: the `token_id` entry of
/// the adapter's data map when present, the raw symbol otherwise.
pub open spec fn token_id_spec(
    symbol: Seq<char>,
    data: Option<Seq<(Seq<char>, Seq<char>)>>,
) -> Seq<char> {
    match data {
        Some(d) => match assoc_lookup(d, "token_id"@) {
            Some(v) => v,
            None => symbol,
        },
        None => symbol,
    }
}

/// Maps a symbol to the identifier a provider knows it by, through the
/// optional `token_id` entry of the adapter data, falling back to the
/// raw symbol.
pub fn resolve_token_id(symbol: &str, additional_data: Option<&ProviderData>) -> (r: String)
    ensures
        r@ == token_id_spec(symbol@, match additional_data {
            Some(d) => Some(d@),
            None => None,
        }),
{
    match additional_data {
        Some(data) => match data.get("token_id") {
            Some(v) => v.clone(),
            None => String::from_str(symbol),
        },
        None => String::from_str(symbol),
    }
}

/// The all-time record derived from one market record, under the
/// symbol the caller asked about.
pub open spec fn ath_record(symbol: Seq<char>, m: CoinMarketV) -> AthInfoV {
    AthInfoV {
        coin: symbol,
        ath: m.ath,
        ath_date: m.ath_date,
        ath_change_percentage: m.ath_change_percentage,
        atl: m.atl,
        atl_date: m.atl_date,
        atl_change_percentage: m.atl_change_percentage,
    }
}

/// Maps a CoinGecko market answer to the symbol's all-time records, in
/// answer order.
pub fn convert_market_data(symbol: &str, market_data: &Vec<CoinMarket>) -> (r: Vec<AthInfo>)
    ensures
        r@.map_values(|a: AthInfo| a@) == market_data@.map_values(|m: CoinMarket| m@).map_values(
            |m: CoinMarketV| ath_record(symbol@, m),
        ),
{
    let ghost ms = market_data@.map_values(|m: CoinMarket| m@);
    let mut r: Vec<AthInfo> = Vec::new();
    let n = market_data.len();
    let mut i: usize = 0;
    while i < n
        invariant
            0 <= i <= n,
            n == market_data.len(),
            ms == market_data@.map_values(|m: CoinMarket| m@),
            r@.len() == i,
            forall|j: int|
                0 <= j < i ==> r@.map_values(|a: AthInfo| a@)[j] == ath_record(symbol@, ms[j]),
        decreases n - i,
    {
        let record = &market_data[i];
        let ath_info = AthInfo {
            coin: String::from_str(symbol),
            ath: record.ath,
            ath_change_percentage: record.ath_change_percentage,
            ath_date: record.ath_date.clone(),
            atl: record.atl,
            atl_change_percentage: record.atl_change_percentage,
            atl_date: record.atl_date.clone(),
        };
        r.push(ath_info);
        i = i + 1;
    }
    proof {
        assert(r@.map_values(|a: AthInfo| a@) =~= ms.map_values(
            |m: CoinMarketV| ath_record(symbol@, m),
        ));
    }
    r
}

} // verus!
