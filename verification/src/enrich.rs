//! The enrichment pass of the report: for a top holder's other token
//! holdings, keep only what is reportable — not the subject mint, not
//! empty, and priced — value each holding, rank by value, and truncate to
//! the caller's limit.

use vstd::prelude::*;
use vstd::seq_lib::group_to_multiset_ensures;
use crate::metadata::TokenMetadata;

verus! {

/// One other-token holding after its decimals, metadata and price were
/// resolved (or found unresolvable).
pub struct ResolvedHolding {
    /// Mint of the held token.
    pub mint: String,
    /// Raw balance in unscaled integer units.
    pub amount_raw: u64,
    /// Decimals of the held token's mint.
    pub decimals: u8,
    /// Display metadata resolved for the mint.
    pub metadata: TokenMetadata,
    /// Price in micro-USD per whole token, when one could be resolved.
    pub price_micro: Option<u64>,
}

/// One holding that made it into the report, with its computed value.
pub struct EnrichedHolding {
    /// Mint of the held token.
    pub mint: String,
    /// Raw balance in unscaled integer units.
    pub amount_raw: u64,
    /// Decimals of the held token's mint.
    pub decimals: u8,
    /// Display metadata resolved for the mint.
    pub metadata: TokenMetadata,
    /// Price in micro-USD per whole token.
    pub price_micro: u64,
    /// The holding's value in micro-USD: price times the balance scaled
    /// down by the mint's decimals.
    pub value_micro: u128,
}

/// Ten to the `n`th.
pub open spec fn pow10(n: nat) -> int
    decreases n,
{
    if n == 0 {
        1
    } else {
        10 * pow10((n - 1) as nat)
    }
}

/// Micro-USD value of `amount` raw units priced at `price` micro-USD per
/// whole token of `decimals` decimals, rounded down.
pub open spec fn holding_value(price: u64, amount: u64, decimals: u8) -> int {
    (price * amount) / pow10(decimals as nat)
}

/// Whether the enrichment report keeps this holding: it is not the subject
/// mint, it is funded, and it has a price.
pub open spec fn keep_holding(subject: Seq<char>, h: ResolvedHolding) -> bool {
    h.mint@ != subject && h.amount_raw > 0 && h.price_micro is Some
}

/// The report entry a kept holding becomes.
pub open spec fn enriched_of(h: ResolvedHolding) -> EnrichedHolding {
    EnrichedHolding {
        mint: h.mint,
        amount_raw: h.amount_raw,
        decimals: h.decimals,
        metadata: h.metadata,
        price_micro: h.price_micro->Some_0,
        value_micro: holding_value(h.price_micro->Some_0, h.amount_raw, h.decimals) as u128,
    }
}

/// The kept holdings of `s`, in input order, each with its value.
pub open spec fn spec_enrich_all(subject: Seq<char>, s: Seq<ResolvedHolding>) -> Seq<
    EnrichedHolding,
>
    decreases s.len(),
{
    if s.len() == 0 {
        Seq::empty()
    } else {
        spec_enrich_all(subject, s.drop_last()) + if keep_holding(subject, s.last()) {
            seq![enriched_of(s.last())]
        } else {
            Seq::empty()
        }
    }
}

proof fn lemma_enrich_all_elems(subject: Seq<char>, s: Seq<ResolvedHolding>)
    ensures
        forall|j: int|
            0 <= j < spec_enrich_all(subject, s).len() ==> (#[trigger] spec_enrich_all(
                subject,
                s,
            )[j].mint@) != subject && spec_enrich_all(subject, s)[j].amount_raw > 0,
    decreases s.len(),
{
    if s.len() > 0 {
        lemma_enrich_all_elems(subject, s.drop_last());
    }
}

proof fn lemma_pow10_pos(n: nat)
    ensures
        pow10(n) >= 1,
    decreases n,
{
    if n > 0 {
        lemma_pow10_pos((n - 1) as nat);
    }
}

proof fn lemma_pow10_mono(a: nat, b: nat)
    requires
        a <= b,
    ensures
        pow10(a) <= pow10(b),
    decreases b,
{
    if a < b {
        lemma_pow10_mono(a, (b - 1) as nat);
        lemma_pow10_pos((b - 1) as nat);
    }
}

/// Computes a holding's micro-USD value without overflow: the product of
/// two 64-bit values fits a u128, and a divisor too large to represent
/// can only mean a zero value.
pub fn holding_value_micro(price: u64, amount: u64, decimals: u8) -> (r: u128)
    ensures
        r == holding_value(price, amount, decimals),
{
    proof {
        assert((price as int) * (amount as int) <= u128::MAX) by (nonlinear_arith)
            requires
                price <= u64::MAX,
                amount <= u64::MAX,
        ;
    }
    let product = (price as u128) * (amount as u128);
    let mut divisor: u128 = 1;
    let mut k: u8 = 0;
    while k < decimals
        invariant
            k <= decimals,
            divisor == pow10(k as nat),
            product == price * amount,
        decreases decimals - k,
    {
        if divisor > u128::MAX / 10 {
            proof {
                lemma_pow10_pos(k as nat);
                assert(10 * divisor > u128::MAX) by (nonlinear_arith)
                    requires
                        divisor > u128::MAX / 10,
                ;
                lemma_pow10_mono(k as nat + 1, decimals as nat);
                assert(product < pow10(decimals as nat));
                assert(product as int / pow10(decimals as nat) == 0) by (nonlinear_arith)
                    requires
                        0 <= product as int,
                        product < pow10(decimals as nat),
                ;
            }
            return 0;
        }
        proof {
            assert(divisor * 10 <= u128::MAX) by (nonlinear_arith)
                requires
                    divisor <= u128::MAX / 10,
            ;
        }
        divisor = divisor * 10;
        k += 1;
    }
    proof {
        lemma_pow10_pos(decimals as nat);
    }
    product / divisor
}

/// Keeps the reportable holdings in input order and values each: exactly
/// the holdings that are not the subject mint, not empty, and priced.
pub fn filter_holdings(subject: &String, holdings: Vec<ResolvedHolding>) -> (r: Vec<
    EnrichedHolding,
>)
    ensures
        r@ == spec_enrich_all(subject@, holdings@),
        forall|j: int| 0 <= j < r@.len() ==> (#[trigger] r@[j].mint@) != subject@,
        forall|j: int| 0 <= j < r@.len() ==> (#[trigger] r@[j].amount_raw) > 0,
{
    let ghost all = holdings@;
    let mut out: Vec<EnrichedHolding> = Vec::new();
    let mut i: usize = 0;
    while i < holdings.len()
        invariant
            i <= all.len(),
            holdings@ == all,
            out@ == spec_enrich_all(subject@, all.take(i as int)),
        decreases all.len() - i,
    {
        proof {
            assert(all.take(i as int + 1).drop_last() =~= all.take(i as int));
            assert(all.take(i as int + 1).last() == all[i as int]);
        }
        let h = &holdings[i];
        let keep = h.amount_raw > 0 && !(h.mint == *subject);
        if keep {
            match h.price_micro {
                Some(price) => {
                    let value = holding_value_micro(price, h.amount_raw, h.decimals);
                    out.push(EnrichedHolding {
                        mint: h.mint.clone(),
                        amount_raw: h.amount_raw,
                        decimals: h.decimals,
                        metadata: h.metadata.clone(),
                        price_micro: price,
                        value_micro: value,
                    });
                    proof {
                        assert(out@.last() == enriched_of(all[i as int]));
                        assert(out@ =~= spec_enrich_all(subject@, all.take(i as int + 1)));
                    }
                },
                None => {
                },
            }
        }
        proof {
            assert(out@ =~= spec_enrich_all(subject@, all.take(i as int + 1)));
        }
        i += 1;
    }
    proof {
        assert(all.take(all.len() as int) =~= all);
        lemma_enrich_all_elems(subject@, all);
        assert forall|j: int| 0 <= j < out@.len() implies (#[trigger] out@[j].mint@)
            != subject@ by {
            assert(out@[j] == spec_enrich_all(subject@, all)[j]);
        }
        assert forall|j: int| 0 <= j < out@.len() implies (#[trigger] out@[j].amount_raw) > 0 by {
            assert(out@[j] == spec_enrich_all(subject@, all)[j]);
            assert(out@[j].mint@ == spec_enrich_all(subject@, all)[j].mint@);
        }
    }
    out
}

/// Report entries are listed best first: values never increase along the
/// list.
pub open spec fn sorted_desc_value(s: Seq<EnrichedHolding>) -> bool {
    forall|i: int, j: int| 0 <= i < j < s.len() ==> (#[trigger] s[i].value_micro) >= (
    #[trigger] s[j].value_micro)
}

/// Orders report entries by descending value; no entry appears or
/// disappears.
pub fn rank_holdings(holdings: Vec<EnrichedHolding>) -> (r: Vec<EnrichedHolding>)
    ensures
        sorted_desc_value(r@),
        r@.to_multiset() == holdings@.to_multiset(),
        r@.len() == holdings@.len(),
{
    broadcast use group_to_multiset_ensures;

    let mut v = holdings;
    if v.len() == 0 {
        return v;
    }
    let mut i: usize = 1;
    while i < v.len()
        invariant
            1 <= i <= v@.len(),
            v@.len() == holdings@.len(),
            v@.to_multiset() == holdings@.to_multiset(),
            sorted_desc_value(v@.take(i as int)),
        decreases v@.len() - i,
    {
        let ghost before = v@;
        let key = v[i].value_micro;
        let mut j: usize = i;
        while j > 0
            invariant
                j <= i < v@.len(),
                v@ == before,
                forall|m: int| j <= m < i ==> (#[trigger] v@[m].value_micro) < key,
            ensures
                j <= i,
                v@ == before,
                forall|m: int| j <= m < i ==> (#[trigger] v@[m].value_micro) < key,
                j > 0 ==> v@[j - 1].value_micro >= key,
            decreases j,
        {
            if v[j - 1].value_micro >= key {
                break ;
            }
            j -= 1;
        }
        proof {
            assert forall|m: int| 0 <= m < j implies (#[trigger] before[m].value_micro) >= key by {
                assert(before.take(i as int)[m] == before[m]);
                assert(before.take(i as int)[j - 1] == before[j - 1]);
            }
        }
        let item = v.remove(i);
        v.insert(j, item);
        proof {
            let after = v@;
            assert(after.to_multiset() =~= before.to_multiset()) by {
                broadcast use vstd::multiset::group_multiset_axioms;

                vstd::seq_lib::to_multiset_remove(before, i as int);
                vstd::seq_lib::to_multiset_insert(before.remove(i as int), j as int, item);
                vstd::seq_lib::to_multiset_contains(before, item);
                assert(before.contains(before[i as int]));
                assert(before.to_multiset().count(before[i as int]) > 0);
            }
            assert forall|a: int, b: int| 0 <= a < b < i + 1 implies (
            #[trigger] after[a].value_micro) >= (#[trigger] after[b].value_micro) by {
                assert(forall|m: int| 0 <= m < j ==> after[m] == before[m]);
                assert(after[j as int] == before[i as int]);
                assert(forall|m: int| j < m <= i ==> after[m] == before[m - 1]);
            }
            assert(sorted_desc_value(after.take(i as int + 1)));
        }
        i += 1;
    }
    proof {
        assert(v@.take(v@.len() as int) =~= v@);
    }
    v
}

/// Truncates a ranked report to the caller's limit, keeping the front.
pub fn take_top(v: Vec<EnrichedHolding>, limit: usize) -> (r: Vec<EnrichedHolding>)
    ensures
        r@ == v@.take(vstd::math::min(limit as int, v@.len() as int)),
{
    let mut out = v;
    let ghost full = out@;
    if out.len() > limit {
        out.truncate(limit);
    }
    proof {
        assert(out@ =~= full.take(vstd::math::min(limit as int, full.len() as int)));
    }
    out
}

/// Builds a holder's enrichment report in one step: filter, value, rank,
/// truncate. The result never includes the subject mint or an empty
/// holding, is ordered by descending value, holds at most `limit`
/// entries, and every entry is one of the kept input holdings.
pub fn enrich_holdings(subject: &String, holdings: Vec<ResolvedHolding>, limit: usize) -> (r: Vec<
    EnrichedHolding,
>)
    ensures
        forall|j: int| 0 <= j < r@.len() ==> (#[trigger] r@[j].mint@) != subject@,
        forall|j: int| 0 <= j < r@.len() ==> (#[trigger] r@[j].amount_raw) > 0,
        sorted_desc_value(r@),
        r@.len() == vstd::math::min(
            limit as int,
            spec_enrich_all(subject@, holdings@).len() as int,
        ),
        forall|j: int|
            0 <= j < r@.len() ==> spec_enrich_all(subject@, holdings@).contains(#[trigger] r@[j]),
{
    broadcast use group_to_multiset_ensures;

    let ghost kept = spec_enrich_all(subject@, holdings@);
    let filtered = filter_holdings(subject, holdings);
    let ranked = rank_holdings(filtered);
    let top = take_top(ranked, limit);
    proof {
        lemma_enrich_all_elems(subject@, holdings@);
        assert forall|j: int| 0 <= j < top@.len() implies kept.contains(#[trigger] top@[j]) by {
            assert(top@[j] == ranked@[j]);
            assert(ranked@.contains(ranked@[j]));
            assert(ranked@.to_multiset().count(ranked@[j]) > 0);
            assert(kept.contains(ranked@[j]));
        }
        assert forall|j: int| 0 <= j < top@.len() implies (#[trigger] top@[j].mint@) != subject@
            && top@[j].amount_raw > 0 by {
            assert(kept.contains(top@[j]));
            let k = choose|k: int| 0 <= k < kept.len() && kept[k] == top@[j];
            assert(kept[k].mint@ != subject@ && kept[k].amount_raw > 0);
        }
    }
    top
}

} // verus!
