//! Batching planner: splits an ordered list of coin symbols into ordered
//! request groups so that each group's combined length stays under a
//! byte budget.
//!
//! Underlying transport APIs cap URL and query length; the planner keeps
//! that constraint out of the aggregation logic.  The weight of a group
//! is the sum of `len(symbol) + 1` over its symbols (one extra character
//! per symbol for the separator).  The greedy scan accumulates symbols
//! into the current group and closes it as soon as adding the next
//! symbol would meet or exceed `budget - tolerance`.

use vstd::prelude::*;

verus! {

/// Combined-length budget used for providers with a capped query length.
pub const MAX_SYMBOLS_LEN: usize = 200;

/// Safety tolerance subtracted from the budget.
pub const SYMBOLS_TOLERANCE: usize = 10;

/// The weight of one group: the sum of `len + 1` over its symbols.
pub open spec fn batch_weight(g: Seq<Seq<char>>) -> int
    decreases g.len(),
{
    if g.len() == 0 {
        0
    } else {
        batch_weight(g.drop_last()) + g.last().len() + 1
    }
}

/// The planner's state after scanning a prefix of the symbol list:
/// the closed groups, the group being filled, and that group's weight.
pub open spec fn split_scan(syms: Seq<Seq<char>>, limit: int) -> (Seq<Seq<Seq<char>>>, Seq<
    Seq<char>,
>, int)
    decreases syms.len(),
{
    if syms.len() == 0 {
        (Seq::empty(), Seq::empty(), 0)
    } else {
        let (groups, cur, weight) = split_scan(syms.drop_last(), limit);
        let sym = syms.last();
        if weight + sym.len() + 1 >= limit {
            (groups.push(cur), seq![sym], sym.len() as int + 1)
        } else {
            (groups, cur.push(sym), weight + sym.len() + 1)
        }
    }
}

/// The groups the planner returns for a symbol list: the closed groups,
/// plus the last group still being filled when the scan ended.  An empty
/// input yields zero groups.
pub open spec fn split_groups(syms: Seq<Seq<char>>, limit: int) -> Seq<Seq<Seq<char>>> {
    if syms.len() == 0 {
        Seq::empty()
    } else {
        split_scan(syms, limit).0.push(split_scan(syms, limit).1)
    }
}

proof fn lemma_split_scan_invariants(syms: Seq<Seq<char>>, limit: int)
    requires
        limit > 0,
        forall|i: int| 0 <= i < syms.len() ==> (#[trigger] syms[i]).len() + 1 < limit,
    ensures
        ({
            let (groups, cur, weight) = split_scan(syms, limit);
            &&& weight == batch_weight(cur)
            &&& 0 <= weight < limit
            &&& cur.len() == 0 ==> weight == 0
            &&& groups.flatten() + cur == syms
            &&& syms.len() > 0 ==> cur.len() > 0
            &&& forall|i: int| 0 <= i < groups.len() ==> (#[trigger] groups[i]).len() > 0
            &&& forall|i: int| 0 <= i < groups.len() ==> batch_weight(#[trigger] groups[i])
                < limit
        }),
    decreases syms.len(),
{
    broadcast use Seq::lemma_flatten_push;

    if syms.len() == 0 {
        let (groups, cur, weight) = split_scan(syms, limit);
        assert(groups.flatten() + cur =~= syms);
    } else {
        let prefix = syms.drop_last();
        lemma_split_scan_invariants(prefix, limit);
        let (groups, cur, weight) = split_scan(prefix, limit);
        let sym = syms.last();
        assert(forall|i: int| 0 <= i < prefix.len() ==> prefix[i] == syms[i]);
        if weight + sym.len() + 1 >= limit {
            // The current group closes; the symbol starts a new one.
            assert(weight > 0);
            assert(cur.len() > 0);
            assert(seq![sym].drop_last() =~= Seq::<Seq<char>>::empty());
            assert(batch_weight(Seq::<Seq<char>>::empty()) == 0);
            assert(seq![sym].last() == sym);
            assert(batch_weight(seq![sym]) == sym.len() + 1);
            assert(groups.push(cur).flatten() + seq![sym] =~= syms);
        } else {
            assert(cur.push(sym).drop_last() =~= cur);
            assert(batch_weight(cur.push(sym)) == weight + sym.len() + 1);
            assert(groups.flatten() + cur.push(sym) =~= syms);
        }
    }
}

/// Soundness of the batching planner: for every symbol list whose
/// individual symbols fit under the limit, every returned batch weighs
/// less than the limit, no batch is empty, concatenating the batches in
/// order reproduces the input exactly, and a non-empty input yields at
/// least one batch.
pub proof fn lemma_split_groups_sound(syms: Seq<Seq<char>>, limit: int)
    requires
        limit > 0,
        forall|i: int| 0 <= i < syms.len() ==> (#[trigger] syms[i]).len() + 1 < limit,
    ensures
        ({
            let gs = split_groups(syms, limit);
            &&& gs.flatten() == syms
            &&& syms.len() > 0 ==> gs.len() > 0
            &&& forall|i: int| 0 <= i < gs.len() ==> (#[trigger] gs[i]).len() > 0
            &&& forall|i: int| 0 <= i < gs.len() ==> batch_weight(#[trigger] gs[i]) < limit
        }),
{
    broadcast use Seq::lemma_flatten_push;

    let gs = split_groups(syms, limit);
    if syms.len() == 0 {
        assert(gs.flatten() =~= syms);
    } else {
        lemma_split_scan_invariants(syms, limit);
        let (groups, cur, weight) = split_scan(syms, limit);
        assert(gs == groups.push(cur));
        assert(gs.flatten() =~= syms);
        assert(forall|i: int| 0 <= i < groups.len() ==> gs[i] == groups[i]);
        assert(gs[groups.len() as int] == cur);
    }
}

/// Splits `symbols` into ordered groups whose weight stays under
/// `budget - tolerance`, by a greedy linear scan.
pub fn split_symbols(symbols: &Vec<String>, budget: usize, tolerance: usize) -> (r: Vec<
    Vec<String>,
>)
    requires
        tolerance < budget,
    ensures
        r.deep_view() == split_groups(symbols.deep_view(), budget - tolerance),
{
    let limit = budget - tolerance;
    let mut result: Vec<Vec<String>> = Vec::new();
    if symbols.len() == 0 {
        proof {
            assert(result.deep_view() =~= split_groups(symbols.deep_view(), limit as int));
        }
        return result;
    }

    let mut current_group: Vec<String> = Vec::new();
    let mut length: usize = 0;
    let n = symbols.len();
    let mut i: usize = 0;
    while i < n
        invariant
            0 < n == symbols.len(),
            0 <= i <= n,
            0 < limit <= usize::MAX,
            split_scan(symbols.deep_view().take(i as int), limit as int).0
                == result.deep_view(),
            split_scan(symbols.deep_view().take(i as int), limit as int).1
                == current_group.deep_view(),
            length as int == ({
                let w = split_scan(symbols.deep_view().take(i as int), limit as int).2;
                if w <= limit { w } else { limit as int }
            }),
        decreases n - i,
    {
        let ghost prefix = symbols.deep_view().take(i as int);
        let ghost w = split_scan(prefix, limit as int).2;
        let sym_len = symbols[i].as_str().unicode_len();
        proof {
            assert(symbols.deep_view().take(i + 1).drop_last() =~= prefix);
            assert(symbols.deep_view().take(i + 1).last() == symbols.deep_view()[i as int]);
            assert(symbols.deep_view()[i as int] == symbols@[i as int]@);
        }
        if length >= limit || sym_len >= limit - length - 1 {
            // Adding this symbol would reach the threshold: close the group.
            assert(w + sym_len + 1 >= limit);
            result.push(current_group);
            current_group = Vec::new();
            current_group.push(symbols[i].clone());
            if sym_len >= limit {
                length = limit;
            } else {
                length = sym_len + 1;
            }
            proof {
                assert(current_group.deep_view() =~= seq![symbols.deep_view()[i as int]]);
            }
        } else {
            assert(w + sym_len + 1 < limit);
            current_group.push(symbols[i].clone());
            length = length + sym_len + 1;
            proof {
                assert(current_group.deep_view() =~= split_scan(
                    symbols.deep_view().take(i + 1),
                    limit as int,
                ).1);
            }
        }
        i = i + 1;
    }
    proof {
        assert(symbols.deep_view().take(n as int) =~= symbols.deep_view());
    }
    result.push(current_group);
    result
}

/// The symbol of each configured coin, in configuration order.
pub open spec fn coin_codes(s: Seq<crate::config::CoinDefV>) -> Seq<Seq<char>> {
    s.map_values(|c: crate::config::CoinDefV| c.code)
}

/// Splits the configured coins' symbols into request groups under the
/// provider's combined-length budget.
pub fn split_coins_inputs(coins_definitions: &Vec<crate::config::CoinDef>) -> (r: Vec<
    Vec<String>,
>)
    ensures
        r.deep_view() == split_groups(
            coin_codes(coins_definitions@.map_values(|c: crate::config::CoinDef| c@)),
            MAX_SYMBOLS_LEN - SYMBOLS_TOLERANCE,
        ),
{
    let ghost codes_spec = coin_codes(
        coins_definitions@.map_values(|c: crate::config::CoinDef| c@),
    );
    let mut codes: Vec<String> = Vec::new();
    let n = coins_definitions.len();
    let mut i: usize = 0;
    while i < n
        invariant
            0 <= i <= n,
            n == coins_definitions.len(),
            codes_spec == coin_codes(
                coins_definitions@.map_values(|c: crate::config::CoinDef| c@),
            ),
            codes@.len() == i,
            forall|j: int| 0 <= j < i ==> codes@[j]@ == codes_spec[j],
        decreases n - i,
    {
        codes.push(coins_definitions[i].code.clone());
        i = i + 1;
    }
    proof {
        assert(codes.deep_view() =~= codes_spec);
    }
    split_symbols(&codes, MAX_SYMBOLS_LEN, SYMBOLS_TOLERANCE)
}

} // verus!
