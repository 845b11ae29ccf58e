//! Coin and wallet configuration records.
//!
//! These are read-only inputs for a run.  Loading them from disk happens
//! outside the library; here live the record shapes, the provider tags
//! and the lookup of a coin definition by its code.

use vstd::prelude::*;

verus! {

/// Tag selecting the price adapter a coin is bound to.
#[derive(Debug, PartialEq, Eq, Structural, Clone, Copy, Hash)]
pub enum PriceProviderEnum {
    CoinAPI,
    CoinGecko,
    CryptoCompare,
}

impl Default for PriceProviderEnum {
    fn default() -> (r: Self)
        ensures
            r == PriceProviderEnum::CryptoCompare,
    {
        PriceProviderEnum::CryptoCompare
    }
}

/// Tag selecting the all-time-high adapter a coin is bound to.
#[derive(Debug, PartialEq, Eq, Structural, Clone, Copy, Hash)]
pub enum AthProviderEnum {
    CoinGecko,
}

impl Default for AthProviderEnum {
    fn default() -> (r: Self)
        ensures
            r == AthProviderEnum::CoinGecko,
    {
        AthProviderEnum::CoinGecko
    }
}

/// Opaque string-keyed data passed through to a provider adapter,
/// held as an association list; the first entry with a key wins.
#[derive(Debug)]
pub struct ProviderData {
    pub entries: Vec<(String, String)>,
}

impl View for ProviderData {
    type V = Seq<(Seq<char>, Seq<char>)>;

    open spec fn view(&self) -> Seq<(Seq<char>, Seq<char>)> {
        self.entries@.map_values(|e: (String, String)| (e.0@, e.1@))
    }
}

/// The value under `key` in an association list: the first match, if any.
pub open spec fn assoc_lookup(s: Seq<(Seq<char>, Seq<char>)>, key: Seq<char>) -> Option<
    Seq<char>,
>
    decreases s.len(),
{
    if s.len() == 0 {
        None
    } else if s[0].0 == key {
        Some(s[0].1)
    } else {
        assoc_lookup(s.drop_first(), key)
    }
}

proof fn lemma_assoc_lookup_skip(s: Seq<(Seq<char>, Seq<char>)>, key: Seq<char>, i: int)
    requires
        0 <= i <= s.len(),
        forall|j: int| 0 <= j < i ==> s[j].0 != key,
    ensures
        assoc_lookup(s, key) == assoc_lookup(s.skip(i), key),
    decreases i,
{
    if i > 0 {
        lemma_assoc_lookup_skip(s, key, i - 1);
        assert(s.skip(i - 1)[0] == s[i - 1]);
        assert(s.skip(i - 1).drop_first() =~= s.skip(i));
    } else {
        assert(s.skip(0) =~= s);
    }
}

impl ProviderData {
    /// An empty data map.
    pub fn new() -> (r: ProviderData)
        ensures
            r@ == Seq::<(Seq<char>, Seq<char>)>::empty(),
    {
        let r = ProviderData { entries: Vec::new() };
        proof {
            assert(r@ =~= Seq::<(Seq<char>, Seq<char>)>::empty());
        }
        r
    }

    /// A data map holding one entry.
    pub fn single(key: &str, value: &str) -> (r: ProviderData)
        ensures
            r@ =~= seq![(key@, value@)],
    {
        let mut entries: Vec<(String, String)> = Vec::new();
        entries.push((String::from_str(key), String::from_str(value)));
        ProviderData { entries }
    }

    /// Looks a key up; returns the value of the first entry with that key.
    pub fn get(&self, key: &str) -> (r: Option<&String>)
        ensures
            match r {
                Some(v) => assoc_lookup(self@, key@) == Some(v@),
                None => assoc_lookup(self@, key@) is None,
            },
    {
        let key_s = String::from_str(key);
        let n = self.entries.len();
        let mut i: usize = 0;
        while i < n
            invariant
                0 <= i <= n,
                n == self.entries.len(),
                key_s@ == key@,
                forall|j: int| 0 <= j < i ==> self@[j].0 != key@,
            decreases n - i,
        {
            if self.entries[i].0 == key_s {
                proof {
                    lemma_assoc_lookup_skip(self@, key@, i as int);
                    assert(self@.skip(i as int)[0] == self@[i as int]);
                }
                return Some(&self.entries[i].1);
            }
            i = i + 1;
        }
        proof {
            lemma_assoc_lookup_skip(self@, key@, n as int);
            assert(self@.skip(n as int).len() == 0);
        }
        None
    }

    /// A copy with the same entries.
    pub fn duplicate(&self) -> (r: ProviderData)
        ensures
            r@ == self@,
    {
        let n = self.entries.len();
        let mut entries: Vec<(String, String)> = Vec::new();
        let mut i: usize = 0;
        while i < n
            invariant
                0 <= i <= n,
                n == self.entries.len(),
                entries@.len() == i,
                forall|j: int| 0 <= j < i ==> (entries@[j].0@, entries@[j].1@) == (
                    self.entries@[j].0@,
                    self.entries@[j].1@,
                ),
            decreases n - i,
        {
            entries.push((self.entries[i].0.clone(), self.entries[i].1.clone()));
            i = i + 1;
        }
        let r = ProviderData { entries };
        proof {
            assert(r@ =~= self@);
        }
        r
    }
}

/// One configured coin: its symbol and the providers it is bound to.
#[derive(Debug)]
pub struct CoinDef {
    pub code: String,
    pub price_provider: PriceProviderEnum,
    pub price_provider_data: Option<ProviderData>,
    pub ath_provider: AthProviderEnum,
    pub ath_provider_data: Option<ProviderData>,
}

/// Mathematical model of a `CoinDef`.
pub ghost struct CoinDefV {
    pub code: Seq<char>,
    pub price_provider: PriceProviderEnum,
    pub price_provider_data: Option<Seq<(Seq<char>, Seq<char>)>>,
    pub ath_provider: AthProviderEnum,
    pub ath_provider_data: Option<Seq<(Seq<char>, Seq<char>)>>,
}

/// The model of an optional provider-data map.
pub open spec fn data_view(d: Option<ProviderData>) -> Option<Seq<(Seq<char>, Seq<char>)>> {
    match d {
        Some(p) => Some(p@),
        None => None,
    }
}

impl View for CoinDef {
    type V = CoinDefV;

    open spec fn view(&self) -> CoinDefV {
        CoinDefV {
            code: self.code@,
            price_provider: self.price_provider,
            price_provider_data: data_view(self.price_provider_data),
            ath_provider: self.ath_provider,
            ath_provider_data: data_view(self.ath_provider_data),
        }
    }
}

impl CoinDef {
    /// A copy with the same fields.
    pub fn duplicate(&self) -> (r: CoinDef)
        ensures
            r@ == self@,
    {
        CoinDef {
            code: self.code.clone(),
            price_provider: self.price_provider,
            price_provider_data: match &self.price_provider_data {
                Some(d) => Some(d.duplicate()),
                None => None,
            },
            ath_provider: self.ath_provider,
            ath_provider_data: match &self.ath_provider_data {
                Some(d) => Some(d.duplicate()),
                None => None,
            },
        }
    }
}

/// The loaded coin configuration: every coin the run knows about.
#[derive(Debug)]
pub struct CoinsData {
    pub coins: Vec<CoinDef>,
}

impl View for CoinsData {
    type V = Seq<CoinDefV>;

    open spec fn view(&self) -> Seq<CoinDefV> {
        self.coins@.map_values(|c: CoinDef| c@)
    }
}

/// The first coin definition whose code is `code`, if any.
pub open spec fn find_coin_def(s: Seq<CoinDefV>, code: Seq<char>) -> Option<CoinDefV>
    decreases s.len(),
{
    if s.len() == 0 {
        None
    } else if s[0].code == code {
        Some(s[0])
    } else {
        find_coin_def(s.drop_first(), code)
    }
}

proof fn lemma_find_coin_def_skip(s: Seq<CoinDefV>, code: Seq<char>, i: int)
    requires
        0 <= i <= s.len(),
        forall|j: int| 0 <= j < i ==> s[j].code != code,
    ensures
        find_coin_def(s, code) == find_coin_def(s.skip(i), code),
    decreases i,
{
    if i > 0 {
        lemma_find_coin_def_skip(s, code, i - 1);
        assert(s.skip(i - 1)[0] == s[i - 1]);
        assert(s.skip(i - 1).drop_first() =~= s.skip(i));
    } else {
        assert(s.skip(0) =~= s);
    }
}

impl CoinsData {
    /// Looks a coin definition up by its code: the first definition with
    /// that code, or nothing when the code is not configured.
    pub fn get_coin_def(&self, code: &str) -> (r: Option<&CoinDef>)
        ensures
            match r {
                Some(c) => find_coin_def(self@, code@) == Some(c@),
                None => find_coin_def(self@, code@) is None,
            },
    {
        let code_s = String::from_str(code);
        let n = self.coins.len();
        let mut i: usize = 0;
        while i < n
            invariant
                0 <= i <= n,
                n == self.coins.len(),
                code_s@ == code@,
                forall|j: int| 0 <= j < i ==> self@[j].code != code@,
            decreases n - i,
        {
            if self.coins[i].code == code_s {
                proof {
                    lemma_find_coin_def_skip(self@, code@, i as int);
                    assert(self@.skip(i as int)[0] == self@[i as int]);
                }
                return Some(&self.coins[i]);
            }
            i = i + 1;
        }
        proof {
            lemma_find_coin_def_skip(self@, code@, n as int);
            assert(self@.skip(n as int).len() == 0);
        }
        None
    }
}

/// One wallet: identity fields and the holdings kept in it.
#[derive(Debug)]
pub struct WalletDef {
    pub name: String,
    pub kind: String,
    pub address: String,
    pub holdings: Vec<CoinHolding>,
}

/// One held position: a coin and the held amount in micro-units.
#[derive(Debug)]
pub struct CoinHolding {
    pub coin: String,
    /// Held amount in micro-units of the coin.
    pub amount: u64,
}

/// Mathematical model of a `CoinHolding`.
pub ghost struct CoinHoldingV {
    pub coin: Seq<char>,
    pub amount: u64,
}

impl View for CoinHolding {
    type V = CoinHoldingV;

    open spec fn view(&self) -> CoinHoldingV {
        CoinHoldingV { coin: self.coin@, amount: self.amount }
    }
}

/// Mathematical model of a `WalletDef`.
pub ghost struct WalletDefV {
    pub name: Seq<char>,
    pub kind: Seq<char>,
    pub address: Seq<char>,
    pub holdings: Seq<CoinHoldingV>,
}

impl View for WalletDef {
    type V = WalletDefV;

    open spec fn view(&self) -> WalletDefV {
        WalletDefV {
            name: self.name@,
            kind: self.kind@,
            address: self.address@,
            holdings: self.holdings@.map_values(|h: CoinHolding| h@),
        }
    }
}

/// The loaded wallet configuration.
#[derive(Debug)]
pub struct WalletsData {
    pub wallets: Vec<WalletDef>,
}

impl View for WalletsData {
    type V = Seq<WalletDefV>;

    open spec fn view(&self) -> Seq<WalletDefV> {
        self.wallets@.map_values(|w: WalletDef| w@)
    }
}

} // verus!
