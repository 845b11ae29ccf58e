//! Coin-list reconciliation: matching configured coins against a
//! provider's coin listing and recording each match's native
//! identifier.
//!
//! A configured coin matches a listing entry when the entry's symbol,
//! uppercased letter by letter in the basic Latin range, equals the
//! coin's code.  A matched coin gets the entry's identifier as its
//! `token_id` adapter datum; unmatched coins are kept unchanged and
//! reported.  Reading the listing and writing the updated
//! configuration back happen outside the library.

use vstd::prelude::*;

use crate::client::{Coin, CoinV};
use crate::config::{CoinDef, CoinDefV, CoinsData, ProviderData};

verus! {

broadcast use vstd::string::group_string_axioms;

/// A character's scalar value with basic Latin lowercase letters
/// folded to uppercase.
pub open spec fn upper_val(c: char) -> int {
    if 97 <= c as int <= 122 {
        c as int - 32
    } else {
        c as int
    }
}

/// Whether a listing symbol, uppercased, equals a configured code.
pub open spec fn symbol_matches(sym: Seq<char>, code: Seq<char>) -> bool {
    sym.len() == code.len() && forall|i: int|
        0 <= i < sym.len() ==> upper_val(sym[i]) == code[i] as int
}

/// The first listing entry whose symbol matches a code, if any.
pub open spec fn find_symbol_match(list: Seq<CoinV>, code: Seq<char>) -> Option<CoinV>
    decreases list.len(),
{
    if list.len() == 0 {
        None
    } else if symbol_matches(list[0].symbol, code) {
        Some(list[0])
    } else {
        find_symbol_match(list.drop_first(), code)
    }
}

/// A coin definition after reconciliation: a matched coin carries the
/// listing entry's identifier as its `token_id` datum, an unmatched
/// coin is unchanged.
pub open spec fn updated_coin(c: CoinDefV, list: Seq<CoinV>) -> CoinDefV {
    match find_symbol_match(list, c.code) {
        Some(g) => CoinDefV {
            code: c.code,
            price_provider: c.price_provider,
            price_provider_data: c.price_provider_data,
            ath_provider: c.ath_provider,
            ath_provider_data: Some(seq![("token_id"@, g.id)]),
        },
        None => c,
    }
}

/// The codes of the coins the listing does not cover, in
/// configuration order.
pub open spec fn not_found_codes(coins: Seq<CoinDefV>, list: Seq<CoinV>) -> Seq<Seq<char>>
    decreases coins.len(),
{
    if coins.len() == 0 {
        Seq::empty()
    } else {
        not_found_codes(coins.drop_last(), list) + (
        if find_symbol_match(list, coins.last().code) is None {
            seq![coins.last().code]
        } else {
            Seq::empty()
        })
    }
}

fn symbol_matches_exec(sym: &String, code: &String) -> (r: bool)
    ensures
        r == symbol_matches(sym@, code@),
{
    let sn = sym.as_str().unicode_len();
    let cn = code.as_str().unicode_len();
    if sn != cn {
        return false;
    }
    let mut i: usize = 0;
    while i < sn
        invariant
            0 <= i <= sn,
            sn == sym@.len(),
            sn == cn,
            cn == code@.len(),
            forall|j: int| 0 <= j < i ==> upper_val(sym@[j]) == code@[j] as int,
        decreases sn - i,
    {
        let sc = sym.as_str().get_char(i) as u32;
        let cc = code.as_str().get_char(i) as u32;
        let folded = if sc >= 97 && sc <= 122 {
            sc - 32
        } else {
            sc
        };
        if folded != cc {
            return false;
        }
        i = i + 1;
    }
    true
}

proof fn lemma_find_symbol_match_skip(list: Seq<CoinV>, code: Seq<char>, i: int)
    requires
        0 <= i <= list.len(),
        forall|j: int| 0 <= j < i ==> !symbol_matches((#[trigger] list[j]).symbol, code),
    ensures
        find_symbol_match(list, code) == find_symbol_match(list.skip(i), code),
    decreases i,
{
    if i > 0 {
        lemma_find_symbol_match_skip(list, code, i - 1);
        assert(list.skip(i - 1)[0] == list[i - 1]);
        assert(list.skip(i - 1).drop_first() =~= list.skip(i));
    } else {
        assert(list.skip(0) =~= list);
    }
}

fn find_in_list<'a>(list: &'a Vec<Coin>, code: &String) -> (r: Option<&'a Coin>)
    ensures
        match r {
            Some(c) => find_symbol_match(list@.map_values(|c: Coin| c@), code@) == Some(c@),
            None => find_symbol_match(list@.map_values(|c: Coin| c@), code@) is None,
        },
{
    let ghost lv = list@.map_values(|c: Coin| c@);
    let n = list.len();
    let mut i: usize = 0;
    while i < n
        invariant
            0 <= i <= n,
            n == list.len(),
            lv == list@.map_values(|c: Coin| c@),
            forall|j: int| 0 <= j < i ==> !symbol_matches((#[trigger] lv[j]).symbol, code@),
        decreases n - i,
    {
        if symbol_matches_exec(&list[i].symbol, code) {
            proof {
                lemma_find_symbol_match_skip(lv, code@, i as int);
                assert(lv.skip(i as int)[0] == lv[i as int]);
            }
            return Some(&list[i]);
        }
        i = i + 1;
    }
    proof {
        lemma_find_symbol_match_skip(lv, code@, n as int);
        assert(lv.skip(n as int).len() == 0);
    }
    None
}

/// Reconciles the configured coins with a provider listing: every coin
/// the listing covers gets the listing's identifier as its `token_id`
/// adapter datum, and the codes the listing does not cover come back
/// beside the updated configuration, in order.
pub fn update_coins_with_list(coins_config: &CoinsData, list: &Vec<Coin>) -> (r: (
    CoinsData,
    Vec<String>,
))
    ensures
        r.0@.len() == coins_config@.len(),
        forall|i: int|
            0 <= i < r.0@.len() ==> r.0@[i] == updated_coin(
                coins_config@[i],
                list@.map_values(|c: Coin| c@),
            ),
        r.1.deep_view() == not_found_codes(coins_config@, list@.map_values(|c: Coin| c@)),
{
    let ghost cs = coins_config@;
    let ghost lv = list@.map_values(|c: Coin| c@);
    let mut updated: Vec<CoinDef> = Vec::new();
    let mut not_found: Vec<String> = Vec::new();
    let n = coins_config.coins.len();
    let mut i: usize = 0;
    while i < n
        invariant
            0 <= i <= n,
            n == coins_config.coins.len(),
            cs == coins_config@,
            lv == list@.map_values(|c: Coin| c@),
            updated@.len() == i,
            forall|j: int|
                0 <= j < i ==> updated@.map_values(|c: CoinDef| c@)[j] == updated_coin(
                    cs[j],
                    lv,
                ),
            not_found.deep_view() == not_found_codes(cs.take(i as int), lv),
        decreases n - i,
    {
        let coin = &coins_config.coins[i];
        proof {
            assert(cs.take(i + 1).drop_last() =~= cs.take(i as int));
            assert(cs.take(i + 1).last() == cs[i as int]);
            assert(cs[i as int] == coin@);
        }
        match find_in_list(list, &coin.code) {
            Some(found) => {
                let new_coin = CoinDef {
                    code: coin.code.clone(),
                    price_provider: coin.price_provider,
                    price_provider_data: match &coin.price_provider_data {
                        Some(d) => Some(d.duplicate()),
                        None => None,
                    },
                    ath_provider: coin.ath_provider,
                    ath_provider_data: Some(
                        ProviderData::single("token_id", found.id.as_str()),
                    ),
                };
                updated.push(new_coin);
                proof {
                    assert(not_found.deep_view() =~= not_found_codes(cs.take(i + 1), lv));
                }
            },
            None => {
                let new_coin = coin.duplicate();
                updated.push(new_coin);
                let ghost prev = not_found.deep_view();
                not_found.push(coin.code.clone());
                proof {
                    assert(not_found.deep_view() =~= prev.push(coin@.code));
                    assert(not_found.deep_view() =~= not_found_codes(cs.take(i + 1), lv));
                }
            },
        }
        i = i + 1;
    }
    proof {
        assert(cs.take(n as int) =~= cs);
        assert(updated@.map_values(|c: CoinDef| c@) =~= updated@.map_values(|c: CoinDef| c@));
    }
    let r = CoinsData { coins: updated };
    proof {
        assert(forall|j: int| 0 <= j < n ==> r@[j] == updated_coin(cs[j], lv));
    }
    (r, not_found)
}

} // verus!
