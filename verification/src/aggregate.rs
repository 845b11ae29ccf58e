//! Aggregation coordinator: the pure planning and merging rules of the
//! multi-provider price pipeline.
//!
//! The coordinator partitions the configured coins into one group per
//! price provider (stable grouping, in order of first appearance),
//! dispatches one call per group or per batch, and concatenates the
//! successful results while isolating failures.  The calls themselves
//! are network requests and happen outside the library; what stands
//! here is the partition, the optional coin filter, and the merge of
//! per-call outcomes, where a failed call is an absent outcome.

use vstd::prelude::*;

use crate::config::{CoinDef, CoinDefV, PriceProviderEnum};
use crate::model::{prices_view, PriceInfo, PriceInfoV};

verus! {

/// One provider's share of a run: the provider tag and the coins bound
/// to it, in configuration order.
pub struct ProviderGroup {
    pub provider: PriceProviderEnum,
    pub coins: Vec<CoinDef>,
}

/// Mathematical model of a `ProviderGroup`.
pub ghost struct ProviderGroupV {
    pub provider: PriceProviderEnum,
    pub coins: Seq<CoinDefV>,
}

impl View for ProviderGroup {
    type V = ProviderGroupV;

    open spec fn view(&self) -> ProviderGroupV {
        ProviderGroupV {
            provider: self.provider,
            coins: self.coins@.map_values(|c: CoinDef| c@),
        }
    }
}

/// The distinct providers of a coin list, in order of first appearance.
pub open spec fn providers_in_order(s: Seq<CoinDefV>) -> Seq<PriceProviderEnum>
    decreases s.len(),
{
    if s.len() == 0 {
        Seq::empty()
    } else {
        let rest = providers_in_order(s.drop_last());
        if rest.contains(s.last().price_provider) {
            rest
        } else {
            rest.push(s.last().price_provider)
        }
    }
}

/// The coins bound to one provider, in configuration order.
pub open spec fn coins_matching(s: Seq<CoinDefV>, p: PriceProviderEnum) -> Seq<CoinDefV>
    decreases s.len(),
{
    if s.len() == 0 {
        Seq::empty()
    } else {
        let rest = coins_matching(s.drop_last(), p);
        if s.last().price_provider == p {
            rest.push(s.last())
        } else {
            rest
        }
    }
}

/// The stable partition of a coin list into provider groups.
pub open spec fn group_spec(s: Seq<CoinDefV>) -> Seq<ProviderGroupV> {
    providers_in_order(s).map_values(
        |p: PriceProviderEnum| ProviderGroupV { provider: p, coins: coins_matching(s, p) },
    )
}

fn contains_provider(v: &Vec<PriceProviderEnum>, p: PriceProviderEnum) -> (r: bool)
    ensures
        r == v@.contains(p),
{
    let n = v.len();
    let mut i: usize = 0;
    while i < n
        invariant
            0 <= i <= n,
            n == v.len(),
            forall|j: int| 0 <= j < i ==> v@[j] != p,
        decreases n - i,
    {
        if v[i] == p {
            return true;
        }
        i = i + 1;
    }
    false
}

fn coins_for_provider(coins: &Vec<CoinDef>, p: PriceProviderEnum) -> (r: Vec<CoinDef>)
    ensures
        r@.map_values(|c: CoinDef| c@) == coins_matching(
            coins@.map_values(|c: CoinDef| c@),
            p,
        ),
{
    let ghost all = coins@.map_values(|c: CoinDef| c@);
    let mut r: Vec<CoinDef> = Vec::new();
    let n = coins.len();
    let mut i: usize = 0;
    while i < n
        invariant
            0 <= i <= n,
            n == coins.len(),
            all == coins@.map_values(|c: CoinDef| c@),
            r@.map_values(|c: CoinDef| c@) == coins_matching(all.take(i as int), p),
        decreases n - i,
    {
        proof {
            assert(all.take(i + 1).drop_last() =~= all.take(i as int));
            assert(all.take(i + 1).last() == all[i as int]);
        }
        if coins[i].price_provider == p {
            let c = coins[i].duplicate();
            r.push(c);
            proof {
                assert(r@.map_values(|c: CoinDef| c@) =~= coins_matching(all.take(i + 1), p));
            }
        } else {
            proof {
                assert(r@.map_values(|c: CoinDef| c@) =~= coins_matching(all.take(i + 1), p));
            }
        }
        i = i + 1;
    }
    proof {
        assert(all.take(n as int) =~= all);
    }
    r
}

/// Partitions the configured coins into groups keyed by price provider:
/// one group per distinct provider present, in order of first
/// appearance, each holding that provider's coins in configuration
/// order.
pub fn group_coins_by_provider(coins: &Vec<CoinDef>) -> (r: Vec<ProviderGroup>)
    ensures
        r@.map_values(|g: ProviderGroup| g@) == group_spec(coins@.map_values(|c: CoinDef| c@)),
{
    let ghost all = coins@.map_values(|c: CoinDef| c@);
    let mut providers: Vec<PriceProviderEnum> = Vec::new();
    let n = coins.len();
    let mut i: usize = 0;
    while i < n
        invariant
            0 <= i <= n,
            n == coins.len(),
            all == coins@.map_values(|c: CoinDef| c@),
            providers@ == providers_in_order(all.take(i as int)),
        decreases n - i,
    {
        proof {
            assert(all.take(i + 1).drop_last() =~= all.take(i as int));
            assert(all.take(i + 1).last() == all[i as int]);
        }
        if !contains_provider(&providers, coins[i].price_provider) {
            providers.push(coins[i].price_provider);
        }
        i = i + 1;
    }
    proof {
        assert(all.take(n as int) =~= all);
    }

    let mut r: Vec<ProviderGroup> = Vec::new();
    let m = providers.len();
    let mut k: usize = 0;
    while k < m
        invariant
            0 <= k <= m,
            m == providers.len(),
            all == coins@.map_values(|c: CoinDef| c@),
            providers@ == providers_in_order(all),
            r@.map_values(|g: ProviderGroup| g@) == group_spec(all).take(k as int),
        decreases m - k,
    {
        let group_coins = coins_for_provider(coins, providers[k]);
        r.push(ProviderGroup { provider: providers[k], coins: group_coins });
        proof {
            assert(group_spec(all).take(k + 1).drop_last() =~= group_spec(all).take(k as int));
            assert(r@.map_values(|g: ProviderGroup| g@) =~= group_spec(all).take(k + 1));
        }
        k = k + 1;
    }
    proof {
        assert(group_spec(all).take(m as int) =~= group_spec(all));
    }
    r
}

/// The merge of per-call outcomes: the successful record lists
/// concatenated in call order; a failed call contributes nothing.
pub open spec fn merge_spec(rs: Seq<Option<Seq<PriceInfoV>>>) -> Seq<PriceInfoV>
    decreases rs.len(),
{
    if rs.len() == 0 {
        Seq::empty()
    } else {
        merge_spec(rs.drop_last()) + (match rs.last() {
            Some(v) => v,
            None => Seq::empty(),
        })
    }
}

/// The model of a list of per-call outcomes.
pub open spec fn outcomes_view(rs: Seq<Option<Vec<PriceInfo>>>) -> Seq<
    Option<Seq<PriceInfoV>>,
> {
    rs.map_values(
        |o: Option<Vec<PriceInfo>>|
            match o {
                Some(v) => Some(prices_view(v@)),
                None => None,
            },
    )
}

/// Concatenates the successful outcomes of a run's calls, in call
/// order, skipping the failed ones.  A failing batch degrades the
/// result; it never aborts sibling batches or other providers.
pub fn merge_results(results: &Vec<Option<Vec<PriceInfo>>>) -> (r: Vec<PriceInfo>)
    ensures
        prices_view(r@) == merge_spec(outcomes_view(results@)),
{
    let ghost all = outcomes_view(results@);
    let mut r: Vec<PriceInfo> = Vec::new();
    let n = results.len();
    let mut i: usize = 0;
    while i < n
        invariant
            0 <= i <= n,
            n == results.len(),
            all == outcomes_view(results@),
            prices_view(r@) == merge_spec(all.take(i as int)),
        decreases n - i,
    {
        proof {
            assert(all.take(i + 1).drop_last() =~= all.take(i as int));
            assert(all.take(i + 1).last() == all[i as int]);
        }
        match &results[i] {
            Some(batch) => {
                let bn = batch.len();
                let mut j: usize = 0;
                while j < bn
                    invariant
                        0 <= j <= bn,
                        bn == batch.len(),
                        prices_view(r@) == merge_spec(all.take(i as int)) + prices_view(
                            batch@,
                        ).take(j as int),
                    decreases bn - j,
                {
                    let rec = batch[j].duplicate();
                    let ghost prev = r@;
                    r.push(rec);
                    proof {
                        assert(r@ == prev.push(rec));
                        assert(prices_view(r@) =~= prices_view(prev).push(rec@));
                        assert(rec@ == prices_view(batch@)[j as int]);
                        assert(prices_view(batch@).take(j + 1) =~= prices_view(batch@).take(
                            j as int,
                        ).push(rec@));
                        assert(prices_view(r@) =~= merge_spec(all.take(i as int)) + prices_view(
                            batch@,
                        ).take(j + 1));
                    }
                    j = j + 1;
                }
                proof {
                    assert(prices_view(batch@).take(bn as int) =~= prices_view(batch@));
                    assert(all[i as int] == Some(prices_view(batch@)));
                }
            },
            None => {
                proof {
                    assert(prices_view(r@) =~= merge_spec(all.take(i as int)) + Seq::<
                        PriceInfoV,
                    >::empty());
                }
            },
        }
        i = i + 1;
    }
    proof {
        assert(all.take(n as int) =~= all);
    }
    r
}

/// The coins a single-coin filter keeps: all of them without a filter,
/// else exactly those with the filtered code.
pub open spec fn filter_coins_spec(s: Seq<CoinDefV>, coin: Option<Seq<char>>) -> Seq<CoinDefV>
    decreases s.len(),
{
    if s.len() == 0 {
        Seq::empty()
    } else {
        let rest = filter_coins_spec(s.drop_last(), coin);
        let keep = match coin {
            Some(c) => s.last().code == c,
            None => true,
        };
        if keep {
            rest.push(s.last())
        } else {
            rest
        }
    }
}

/// Keeps the coins an optional single-coin filter selects, in
/// configuration order.
pub fn filter_coins(coins: &Vec<CoinDef>, coin: &Option<String>) -> (r: Vec<CoinDef>)
    ensures
        r@.map_values(|c: CoinDef| c@) == filter_coins_spec(
            coins@.map_values(|c: CoinDef| c@),
            crate::report::opt_view(*coin),
        ),
{
    let ghost all = coins@.map_values(|c: CoinDef| c@);
    let ghost cv = crate::report::opt_view(*coin);
    let mut r: Vec<CoinDef> = Vec::new();
    let n = coins.len();
    let mut i: usize = 0;
    while i < n
        invariant
            0 <= i <= n,
            n == coins.len(),
            all == coins@.map_values(|c: CoinDef| c@),
            cv == crate::report::opt_view(*coin),
            r@.map_values(|c: CoinDef| c@) == filter_coins_spec(all.take(i as int), cv),
        decreases n - i,
    {
        proof {
            assert(all.take(i + 1).drop_last() =~= all.take(i as int));
            assert(all.take(i + 1).last() == all[i as int]);
        }
        let keep = match coin {
            Some(c) => coins[i].code == *c,
            None => true,
        };
        assert(keep == (match cv {
            Some(c) => all[i as int].code == c,
            None => true,
        }));
        if keep {
            let c = coins[i].duplicate();
            r.push(c);
        }
        proof {
            assert(r@.map_values(|c: CoinDef| c@) =~= filter_coins_spec(all.take(i + 1), cv));
        }
        i = i + 1;
    }
    proof {
        assert(all.take(n as int) =~= all);
    }
    r
}

/// A coin list with every coin of one provider taken out, order kept.
pub open spec fn drop_provider(s: Seq<CoinDefV>, p: PriceProviderEnum) -> Seq<CoinDefV>
    decreases s.len(),
{
    if s.len() == 0 {
        Seq::empty()
    } else {
        let rest = drop_provider(s.drop_last(), p);
        if s.last().price_provider == p {
            rest
        } else {
            rest.push(s.last())
        }
    }
}

/// A provider list with every occurrence of one provider taken out.
pub open spec fn remove_provider(ps: Seq<PriceProviderEnum>, p: PriceProviderEnum) -> Seq<
    PriceProviderEnum,
>
    decreases ps.len(),
{
    if ps.len() == 0 {
        Seq::empty()
    } else {
        let rest = remove_provider(ps.drop_last(), p);
        if ps.last() == p {
            rest
        } else {
            rest.push(ps.last())
        }
    }
}

pub(crate) proof fn lemma_push_contains<A>(s: Seq<A>, a: A, x: A)
    ensures
        s.push(a).contains(x) <==> (s.contains(x) || a == x),
{
    if s.push(a).contains(x) {
        let i = choose|i: int| 0 <= i < s.push(a).len() && s.push(a)[i] == x;
        if i < s.len() {
            assert(s[i] == x);
        } else {
            assert(a == x);
        }
    }
    if s.contains(x) {
        let i = choose|i: int| 0 <= i < s.len() && s[i] == x;
        assert(s.push(a)[i] == x);
    }
    if a == x {
        assert(s.push(a)[s.len() as int] == x);
    }
}

proof fn lemma_matching_unaffected(s: Seq<CoinDefV>, p: PriceProviderEnum, q: PriceProviderEnum)
    requires
        q != p,
    ensures
        coins_matching(drop_provider(s, p), q) == coins_matching(s, q),
    decreases s.len(),
{
    if s.len() > 0 {
        lemma_matching_unaffected(s.drop_last(), p, q);
        let rest = drop_provider(s.drop_last(), p);
        if s.last().price_provider == p {
        } else {
            assert(rest.push(s.last()).drop_last() =~= rest);
        }
    }
}

proof fn lemma_remove_provider_unfold_push(
    ps: Seq<PriceProviderEnum>,
    a: PriceProviderEnum,
    p: PriceProviderEnum,
)
    ensures
        remove_provider(ps.push(a), p) == if a == p {
            remove_provider(ps, p)
        } else {
            remove_provider(ps, p).push(a)
        },
{
    assert(ps.push(a).drop_last() =~= ps);
    assert(ps.push(a).last() == a);
}

proof fn lemma_remove_provider_contains(
    ps: Seq<PriceProviderEnum>,
    p: PriceProviderEnum,
    q: PriceProviderEnum,
)
    requires
        q != p,
    ensures
        remove_provider(ps, p).contains(q) <==> ps.contains(q),
    decreases ps.len(),
{
    if ps.len() == 0 {
        assert(!ps.contains(q));
    } else {
        let dl = ps.drop_last();
        lemma_remove_provider_contains(dl, p, q);
        lemma_push_contains(dl, ps.last(), q);
        assert(dl.push(ps.last()) =~= ps);
        if ps.last() == p {
        } else {
            lemma_push_contains(remove_provider(dl, p), ps.last(), q);
        }
    }
}

proof fn lemma_providers_after_drop(s: Seq<CoinDefV>, p: PriceProviderEnum)
    ensures
        providers_in_order(drop_provider(s, p)) == remove_provider(providers_in_order(s), p),
    decreases s.len(),
{
    if s.len() > 0 {
        let dl = s.drop_last();
        lemma_providers_after_drop(dl, p);
        let q = s.last().price_provider;
        let pio_dl = providers_in_order(dl);
        if q == p {
            if pio_dl.contains(p) {
            } else {
                lemma_remove_provider_unfold_push(pio_dl, p, p);
            }
        } else {
            let dp = drop_provider(dl, p);
            assert(drop_provider(s, p) == dp.push(s.last()));
            assert(dp.push(s.last()).drop_last() =~= dp);
            lemma_remove_provider_contains(pio_dl, p, q);
            if pio_dl.contains(q) {
                assert(providers_in_order(drop_provider(s, p)) == providers_in_order(dp));
            } else {
                lemma_remove_provider_unfold_push(pio_dl, q, p);
            }
        }
    }
}

proof fn lemma_providers_distinct(s: Seq<CoinDefV>)
    ensures
        forall|i: int, j: int|
            0 <= i < j < providers_in_order(s).len() ==> providers_in_order(s)[i]
                != providers_in_order(s)[j],
    decreases s.len(),
{
    if s.len() > 0 {
        let dl = s.drop_last();
        lemma_providers_distinct(dl);
        let pio_dl = providers_in_order(dl);
        let q = s.last().price_provider;
        if !pio_dl.contains(q) {
            assert forall|i: int, j: int|
                0 <= i < j < pio_dl.push(q).len() implies pio_dl.push(q)[i] != pio_dl.push(
                q,
            )[j] by {
                if j == pio_dl.len() {
                    assert(pio_dl[i] != q);
                }
            }
        }
    }
}

proof fn lemma_remove_provider_absent(ps: Seq<PriceProviderEnum>, p: PriceProviderEnum)
    requires
        !ps.contains(p),
    ensures
        remove_provider(ps, p) == ps,
    decreases ps.len(),
{
    if ps.len() > 0 {
        let dl = ps.drop_last();
        assert(forall|i: int| 0 <= i < dl.len() ==> dl[i] == ps[i]);
        assert(!dl.contains(p));
        lemma_remove_provider_absent(dl, p);
        assert(ps.last() != p);
        assert(dl.push(ps.last()) =~= ps);
    }
}

proof fn lemma_remove_provider_is_remove(
    ps: Seq<PriceProviderEnum>,
    p: PriceProviderEnum,
    k: int,
)
    requires
        0 <= k < ps.len(),
        ps[k] == p,
        forall|i: int, j: int| 0 <= i < j < ps.len() ==> ps[i] != ps[j],
    ensures
        remove_provider(ps, p) == ps.remove(k),
    decreases ps.len(),
{
    let dl = ps.drop_last();
    if k == ps.len() - 1 {
        assert(forall|i: int| 0 <= i < dl.len() ==> dl[i] != p);
        assert(!dl.contains(p));
        lemma_remove_provider_absent(dl, p);
        assert(ps.remove(k) =~= dl);
    } else {
        assert(forall|i: int| 0 <= i < dl.len() ==> dl[i] == ps[i]);
        lemma_remove_provider_is_remove(dl, p, k);
        assert(ps.last() != p);
        assert(dl.remove(k).push(ps.last()) =~= ps.remove(k));
    }
}

/// Removing one provider's coins from the input removes exactly that
/// provider's group from the stable partition and leaves every other
/// group unchanged.
pub proof fn lemma_group_provider_removed(s: Seq<CoinDefV>, p: PriceProviderEnum, k: int)
    requires
        0 <= k < group_spec(s).len(),
        group_spec(s)[k].provider == p,
    ensures
        group_spec(drop_provider(s, p)) == group_spec(s).remove(k),
{
    let ps = providers_in_order(s);
    lemma_providers_distinct(s);
    lemma_providers_after_drop(s, p);
    lemma_remove_provider_is_remove(ps, p, k);
    let kept = ps.remove(k);
    assert forall|i: int| 0 <= i < kept.len() implies kept[i] != p by {
        if i < k {
            assert(kept[i] == ps[i]);
        } else {
            assert(kept[i] == ps[i + 1]);
        }
    }
    assert forall|i: int| 0 <= i < kept.len() implies group_spec(drop_provider(s, p))[i]
        == group_spec(s).remove(k)[i] by {
        lemma_matching_unaffected(s, p, kept[i]);
    }
    assert(group_spec(drop_provider(s, p)) =~= group_spec(s).remove(k));
}

/// Merging outcomes where one call failed gives the same records as
/// merging with that call's slot absent altogether.
pub proof fn lemma_merge_failed_outcome_removed(
    outcomes: Seq<Option<Seq<PriceInfoV>>>,
    k: int,
)
    requires
        0 <= k < outcomes.len(),
        outcomes[k] is None,
    ensures
        merge_spec(outcomes) == merge_spec(outcomes.remove(k)),
    decreases outcomes.len(),
{
    let dl = outcomes.drop_last();
    if k == outcomes.len() - 1 {
        assert(outcomes.remove(k) =~= dl);
        assert(merge_spec(outcomes) =~= merge_spec(dl));
    } else {
        assert(forall|i: int| 0 <= i < dl.len() ==> dl[i] == outcomes[i]);
        lemma_merge_failed_outcome_removed(dl, k);
        assert(outcomes.remove(k).drop_last() =~= dl.remove(k));
        assert(outcomes.remove(k).last() == outcomes.last());
        assert(outcomes.remove(k).len() > 0);
    }
}

/// Failure isolation of the coordinator: when the call for one
/// provider's group fails, the merged output equals the output of a run
/// whose input never contained that provider, given that the calls of
/// the remaining groups return the same outcomes.
pub proof fn lemma_provider_failure_isolated(
    coins: Seq<CoinDefV>,
    outcomes: Seq<Option<Seq<PriceInfoV>>>,
    p: PriceProviderEnum,
    k: int,
)
    requires
        outcomes.len() == group_spec(coins).len(),
        0 <= k < group_spec(coins).len(),
        group_spec(coins)[k].provider == p,
        outcomes[k] is None,
    ensures
        group_spec(drop_provider(coins, p)) == group_spec(coins).remove(k),
        merge_spec(outcomes) == merge_spec(outcomes.remove(k)),
{
    lemma_group_provider_removed(coins, p, k);
    lemma_merge_failed_outcome_removed(outcomes, k);
}

} // verus!
