//! Per-owner aggregation of token-account balances and the descending
//! ranking of the result: the heart of the holder-distribution report.
//!
//! Balances stay as unscaled integer units throughout; an owner whose
//! accounts are all empty never enters the result, and the grand total of
//! the aggregate equals the grand total of the input.

use vstd::prelude::*;
use vstd::seq_lib::group_to_multiset_ensures;

verus! {

/// One token account that contributes to an owner's position.
#[derive(Debug)]
pub struct HolderSnapshot {
    /// Address of the token account, as the node reported it.
    pub token_account: String,
}

/// One owner's total position in the subject mint.
#[derive(Debug)]
pub struct AggregatedHolder {
    /// The owner's address, as its 32 raw bytes.
    pub owner: Vec<u8>,
    /// Sum of the raw balances of this owner's token accounts.
    pub total_raw: u128,
    /// The funded token accounts that were merged into the total.
    pub token_accounts: Vec<HolderSnapshot>,
}

/// One decoded, owner-resolved token account handed to the aggregator.
#[derive(Debug)]
pub struct FundedAccount {
    /// Address of the token account itself.
    pub token_account: String,
    /// The owning wallet's address, as its 32 raw bytes.
    pub owner: Vec<u8>,
    /// Raw balance in unscaled integer units; zero is allowed and skipped.
    pub amount: u128,
}

impl AggregatedHolder {
    /// The first token account merged into this holder, shown as a sample
    /// in the report.
    pub fn primary_account(&self) -> (r: Option<&str>)
        ensures
            match r {
                Some(s) => self.token_accounts@.len() > 0 && s@ == self.token_accounts@[0].token_account@,
                None => self.token_accounts@.len() == 0,
            },
    {
        if self.token_accounts.len() == 0 {
            None
        } else {
            Some(self.token_accounts[0].token_account.as_str())
        }
    }

    /// How many token accounts were merged into this holder.
    pub fn account_count(&self) -> (r: usize)
        ensures
            r == self.token_accounts@.len(),
    {
        self.token_accounts.len()
    }
}

/// Sum of the raw balances of a batch of decoded accounts.
pub open spec fn sum_amounts(s: Seq<FundedAccount>) -> int
    decreases s.len(),
{
    if s.len() == 0 {
        0
    } else {
        sum_amounts(s.drop_last()) + s.last().amount
    }
}

/// Sum of the totals of a batch of aggregated holders.
pub open spec fn sum_totals(s: Seq<AggregatedHolder>) -> int
    decreases s.len(),
{
    if s.len() == 0 {
        0
    } else {
        sum_totals(s.drop_last()) + s.last().total_raw
    }
}

/// What the accounts of `s` owned by `o` add up to.
pub open spec fn owner_total(s: Seq<FundedAccount>, o: Seq<u8>) -> int
    decreases s.len(),
{
    if s.len() == 0 {
        0
    } else {
        owner_total(s.drop_last(), o) + if s.last().owner@ == o {
            s.last().amount as int
        } else {
            0
        }
    }
}

/// The token-account addresses of the funded accounts of `s` owned by `o`,
/// in input order.
pub open spec fn owner_snapshots(s: Seq<FundedAccount>, o: Seq<u8>) -> Seq<Seq<char>>
    decreases s.len(),
{
    if s.len() == 0 {
        Seq::empty()
    } else {
        owner_snapshots(s.drop_last(), o) + if s.last().owner@ == o && s.last().amount > 0 {
            seq![s.last().token_account@]
        } else {
            Seq::empty()
        }
    }
}

/// The addresses a holder's snapshot list records.
pub open spec fn snapshot_views(s: Seq<HolderSnapshot>) -> Seq<Seq<char>> {
    s.map_values(|h: HolderSnapshot| h.token_account@)
}

/// An aggregate `r` is faithful to the input `s`: owners are listed once,
/// each with exactly its summed balance and its funded accounts, every
/// funded owner is present, and no empty owner is.
pub open spec fn faithful_aggregate(s: Seq<FundedAccount>, r: Seq<AggregatedHolder>) -> bool {
    &&& forall|j: int, k: int| 0 <= j < k < r.len() ==> r[j].owner@ != r[k].owner@
    &&& forall|j: int| 0 <= j < r.len() ==> (#[trigger] r[j].total_raw) > 0
    &&& forall|j: int| 0 <= j < r.len() ==> (#[trigger] r[j].total_raw) == owner_total(s, r[j].owner@)
    &&& forall|j: int|
        0 <= j < r.len() ==> snapshot_views(#[trigger] r[j].token_accounts@) == owner_snapshots(
            s,
            r[j].owner@,
        )
    &&& forall|i: int|
        0 <= i < s.len() && (#[trigger] s[i].amount) > 0 ==> exists|j: int|
            0 <= j < r.len() && (#[trigger] r[j].owner@) == s[i].owner@
}

proof fn lemma_sum_amounts_nonneg(s: Seq<FundedAccount>)
    ensures
        sum_amounts(s) >= 0,
    decreases s.len(),
{
    if s.len() > 0 {
        lemma_sum_amounts_nonneg(s.drop_last());
    }
}

proof fn lemma_sum_amounts_prefix_le(s: Seq<FundedAccount>, j: int)
    requires
        0 <= j <= s.len(),
    ensures
        sum_amounts(s.take(j)) <= sum_amounts(s),
    decreases s.len() - j,
{
    if j == s.len() {
        assert(s.take(j) =~= s);
    } else {
        assert(s.take(j + 1).drop_last() =~= s.take(j));
        lemma_sum_amounts_prefix_le(s, j + 1);
    }
}

proof fn lemma_owner_total_le_sum(s: Seq<FundedAccount>, o: Seq<u8>)
    ensures
        owner_total(s, o) <= sum_amounts(s),
        owner_total(s, o) >= 0,
    decreases s.len(),
{
    if s.len() > 0 {
        lemma_owner_total_le_sum(s.drop_last(), o);
    }
}

proof fn lemma_owner_total_zero(s: Seq<FundedAccount>, o: Seq<u8>)
    requires
        forall|i: int| 0 <= i < s.len() && (#[trigger] s[i].owner@) == o ==> s[i].amount == 0,
    ensures
        owner_total(s, o) == 0,
        owner_snapshots(s, o) =~= Seq::<Seq<char>>::empty(),
    decreases s.len(),
{
    if s.len() > 0 {
        assert(forall|i: int|
            0 <= i < s.drop_last().len() && (#[trigger] s.drop_last()[i].owner@) == o
                ==> s.drop_last()[i].amount == 0);
        lemma_owner_total_zero(s.drop_last(), o);
    }
}

proof fn lemma_sum_totals_update(s: Seq<AggregatedHolder>, j: int, h: AggregatedHolder)
    requires
        0 <= j < s.len(),
    ensures
        sum_totals(s.update(j, h)) == sum_totals(s) - s[j].total_raw + h.total_raw,
    decreases s.len(),
{
    if j == s.len() - 1 {
        assert(s.update(j, h).drop_last() =~= s.drop_last());
        assert(s.update(j, h).last() == h);
    } else {
        assert(s.update(j, h).drop_last() =~= s.drop_last().update(j, h));
        assert(s.update(j, h).last() == s.last());
        lemma_sum_totals_update(s.drop_last(), j, h);
    }
}

proof fn lemma_sum_totals_remove(s: Seq<AggregatedHolder>, j: int)
    requires
        0 <= j < s.len(),
    ensures
        sum_totals(s.remove(j)) == sum_totals(s) - s[j].total_raw,
    decreases s.len(),
{
    if j == s.len() - 1 {
        assert(s.remove(j) =~= s.drop_last());
    } else {
        assert(s.remove(j).drop_last() =~= s.drop_last().remove(j));
        assert(s.remove(j).last() == s.last());
        lemma_sum_totals_remove(s.drop_last(), j);
    }
}

/// The grand total of a batch of holders depends only on which holders are
/// in it, not on their order: reordering the ranking loses nothing.
pub proof fn lemma_sum_totals_permutation(s1: Seq<AggregatedHolder>, s2: Seq<AggregatedHolder>)
    requires
        s1.to_multiset() == s2.to_multiset(),
    ensures
        sum_totals(s1) == sum_totals(s2),
    decreases s1.len(),
{
    broadcast use group_to_multiset_ensures;

    assert(s1.to_multiset().len() == s1.len());
    assert(s2.to_multiset().len() == s2.len());
    if s1.len() == 0 {
        assert(s2.len() == 0);
    } else {
        let x = s1.last();
        assert(s1.contains(x));
        assert(s2.to_multiset().count(x) > 0);
        assert(s2.contains(x));
        let k = choose|k: int| 0 <= k < s2.len() && s2[k] == x;
        assert(s1.drop_last() =~= s1.remove(s1.len() - 1));
        assert(s1.remove(s1.len() - 1).to_multiset() == s1.to_multiset().remove(x));
        assert(s2.remove(k).to_multiset() == s2.to_multiset().remove(x));
        lemma_sum_totals_permutation(s1.drop_last(), s2.remove(k));
        lemma_sum_totals_remove(s2, k);
    }
}

/// Whether two owner addresses are the same 32 bytes.
fn owner_eq(a: &Vec<u8>, b: &Vec<u8>) -> (r: bool)
    ensures
        r == (a@ == b@),
{
    if a.len() != b.len() {
        return false;
    }
    let n = a.len();
    let mut i: usize = 0;
    while i < n
        invariant
            n == a@.len(),
            n == b@.len(),
            i <= n,
            forall|m: int| 0 <= m < i ==> a@[m] == b@[m],
        decreases n - i,
    {
        if a[i] != b[i] {
            return false;
        }
        i += 1;
    }
    proof {
        assert(a@ =~= b@);
    }
    true
}

/// Merges decoded token accounts into one holder per owner, in first-seen
/// order, skipping empty accounts; each holder carries its summed raw
/// balance and the accounts that produced it, and the totals conserve the
/// input sum.
pub fn aggregate_holders(accounts: &Vec<FundedAccount>) -> (r: Vec<AggregatedHolder>)
    requires
        sum_amounts(accounts@) <= u128::MAX,
    ensures
        faithful_aggregate(accounts@, r@),
        sum_totals(r@) == sum_amounts(accounts@),
{
    let ghost all = accounts@;
    let mut holders: Vec<AggregatedHolder> = Vec::new();
    let mut i: usize = 0;
    while i < accounts.len()
        invariant
            i <= accounts@.len(),
            accounts@ == all,
            sum_amounts(all) <= u128::MAX,
            forall|j: int, k: int|
                0 <= j < k < holders@.len() ==> holders@[j].owner@ != holders@[k].owner@,
            forall|j: int| 0 <= j < holders@.len() ==> (#[trigger] holders@[j].total_raw) > 0,
            forall|j: int|
                0 <= j < holders@.len() ==> (#[trigger] holders@[j].total_raw) == owner_total(
                    all.take(i as int),
                    holders@[j].owner@,
                ),
            forall|j: int|
                0 <= j < holders@.len() ==> snapshot_views(
                    #[trigger] holders@[j].token_accounts@,
                ) == owner_snapshots(all.take(i as int), holders@[j].owner@),
            forall|k: int|
                0 <= k < i && (#[trigger] all[k].amount) > 0 ==> exists|j: int|
                    0 <= j < holders@.len() && (#[trigger] holders@[j].owner@) == all[k].owner@,
            sum_totals(holders@) == sum_amounts(all.take(i as int)),
        decreases accounts@.len() - i,
    {
        let ghost prefix = all.take(i as int);
        let ghost next_prefix = all.take(i as int + 1);
        proof {
            assert(next_prefix.drop_last() =~= prefix);
            assert(next_prefix.last() == all[i as int]);
        }
        let account = &accounts[i];
        if account.amount > 0 {
            // Look for this owner among the holders built so far.
            let mut j: usize = 0;
            let mut found = false;
            while j < holders.len() && !found
                invariant
                    j <= holders@.len(),
                    found ==> j < holders@.len() && holders@[j as int].owner@ == account.owner@,
                    !found ==> forall|m: int| 0 <= m < j ==> (#[trigger] holders@[m].owner@)
                        != account.owner@,
                decreases holders@.len() - j, (if found { 0int } else { 1int }),
            {
                if owner_eq(&holders[j].owner, &account.owner) {
                    found = true;
                } else {
                    j += 1;
                }
            }
            if found {
                proof {
                    lemma_owner_total_le_sum(prefix, account.owner@);
                    lemma_sum_amounts_prefix_le(all, i as int + 1);
                    lemma_sum_amounts_nonneg(prefix);
                }
                let ghost before = holders@;
                let mut entry = holders.remove(j);
                entry.total_raw = entry.total_raw + account.amount;
                entry.token_accounts.push(HolderSnapshot {
                    token_account: account.token_account.clone(),
                });
                holders.insert(j, entry);
                proof {
                    assert(holders@ =~= before.update(j as int, holders@[j as int]));
                    lemma_sum_totals_update(before, j as int, holders@[j as int]);
                    assert(snapshot_views(holders@[j as int].token_accounts@) =~= snapshot_views(
                        before[j as int].token_accounts@,
                    ) + seq![account.token_account@]);
                    assert forall|jj: int| 0 <= jj < holders@.len() implies snapshot_views(
                        #[trigger] holders@[jj].token_accounts@,
                    ) == owner_snapshots(next_prefix, holders@[jj].owner@) by {
                        if jj != j {
                            assert(owner_snapshots(next_prefix, holders@[jj].owner@)
                                =~= owner_snapshots(prefix, holders@[jj].owner@));
                        } else {
                            assert(owner_snapshots(next_prefix, holders@[jj].owner@)
                                =~= owner_snapshots(prefix, holders@[jj].owner@) + seq![
                                account.token_account@,
                            ]);
                        }
                    }
                    assert forall|k: int|
                        0 <= k < i + 1 && (#[trigger] all[k].amount) > 0 implies exists|jj: int|
                        0 <= jj < holders@.len() && (#[trigger] holders@[jj].owner@)
                            == all[k].owner@ by {
                        if k < i {
                            let j0 = choose|j0: int|
                                0 <= j0 < before.len() && (#[trigger] before[j0].owner@)
                                    == all[k].owner@;
                            assert(holders@[j0].owner@ == all[k].owner@);
                        } else {
                            assert(holders@[j as int].owner@ == all[k].owner@);
                        }
                    }
                }
            } else {
                proof {
                    assert(forall|k: int|
                        0 <= k < prefix.len() && (#[trigger] prefix[k].owner@) == account.owner@
                            ==> prefix[k].amount == 0);
                    lemma_owner_total_zero(prefix, account.owner@);
                    lemma_sum_amounts_prefix_le(all, i as int + 1);
                    lemma_sum_amounts_nonneg(prefix);
                }
                let ghost before = holders@;
                let mut snaps: Vec<HolderSnapshot> = Vec::new();
                snaps.push(HolderSnapshot { token_account: account.token_account.clone() });
                holders.push(AggregatedHolder {
                    owner: account.owner.clone(),
                    total_raw: account.amount,
                    token_accounts: snaps,
                });
                proof {
                    assert(holders@.drop_last() =~= before);
                    assert forall|jj: int| 0 <= jj < holders@.len() implies snapshot_views(
                        #[trigger] holders@[jj].token_accounts@,
                    ) == owner_snapshots(next_prefix, holders@[jj].owner@) by {
                        if jj < before.len() {
                            assert(owner_snapshots(next_prefix, holders@[jj].owner@)
                                =~= owner_snapshots(prefix, holders@[jj].owner@));
                        } else {
                            assert(snapshot_views(holders@[jj].token_accounts@) =~= seq![
                                account.token_account@,
                            ]);
                            assert(owner_snapshots(next_prefix, holders@[jj].owner@)
                                =~= owner_snapshots(prefix, holders@[jj].owner@) + seq![
                                account.token_account@,
                            ]);
                        }
                    }
                    assert forall|k: int|
                        0 <= k < i + 1 && (#[trigger] all[k].amount) > 0 implies exists|jj: int|
                        0 <= jj < holders@.len() && (#[trigger] holders@[jj].owner@)
                            == all[k].owner@ by {
                        if k < i {
                            let j0 = choose|j0: int|
                                0 <= j0 < before.len() && (#[trigger] before[j0].owner@)
                                    == all[k].owner@;
                            assert(holders@[j0].owner@ == all[k].owner@);
                        } else {
                            assert(holders@[holders@.len() - 1].owner@ == all[k].owner@);
                        }
                    }
                }
            }
        } else {
            proof {
                assert forall|jj: int| 0 <= jj < holders@.len() implies snapshot_views(
                    #[trigger] holders@[jj].token_accounts@,
                ) == owner_snapshots(next_prefix, holders@[jj].owner@) by {
                    assert(owner_snapshots(next_prefix, holders@[jj].owner@) =~= owner_snapshots(
                        prefix,
                        holders@[jj].owner@,
                    ));
                }
            }
        }
        i += 1;
    }
    proof {
        assert(all.take(accounts@.len() as int) =~= all);
    }
    holders
}

/// Holders are listed best first: totals never increase along the list.
pub open spec fn sorted_desc(s: Seq<AggregatedHolder>) -> bool {
    forall|i: int, j: int| 0 <= i < j < s.len() ==> (#[trigger] s[i].total_raw) >= (
    #[trigger] s[j].total_raw)
}

/// Orders holders by descending total raw balance; no holder appears
/// or disappears.
pub fn rank_holders(holders: Vec<AggregatedHolder>) -> (r: Vec<AggregatedHolder>)
    ensures
        sorted_desc(r@),
        r@.to_multiset() == holders@.to_multiset(),
        r@.len() == holders@.len(),
{
    broadcast use group_to_multiset_ensures;
    broadcast use vstd::seq_lib::to_multiset_insert;

    let mut v = holders;
    if v.len() == 0 {
        return v;
    }
    let mut i: usize = 1;
    while i < v.len()
        invariant
            1 <= i <= v@.len(),
            v@.len() == holders@.len(),
            v@.to_multiset() == holders@.to_multiset(),
            sorted_desc(v@.take(i as int)),
        decreases v@.len() - i,
    {
        let ghost before = v@;
        let key = v[i].total_raw;
        let mut j: usize = i;
        while j > 0
            invariant
                j <= i < v@.len(),
                v@ == before,
                forall|m: int| j <= m < i ==> (#[trigger] v@[m].total_raw) < key,
            ensures
                j <= i,
                v@ == before,
                forall|m: int| j <= m < i ==> (#[trigger] v@[m].total_raw) < key,
                j > 0 ==> v@[j - 1].total_raw >= key,
            decreases j,
        {
            if v[j - 1].total_raw >= key {
                break ;
            }
            j -= 1;
        }
        proof {
            assert forall|m: int| 0 <= m < j implies (#[trigger] before[m].total_raw) >= key by {
                assert(before.take(i as int)[m] == before[m]);
                assert(before.take(i as int)[j - 1] == before[j - 1]);
            }
        }
        let item = v.remove(i);
        v.insert(j, item);
        proof {
            let after = v@;
            assert(after.to_multiset() =~= before.to_multiset()) by {
                broadcast use vstd::multiset::group_multiset_axioms;

                vstd::seq_lib::to_multiset_remove(before, i as int);
                vstd::seq_lib::to_multiset_insert(before.remove(i as int), j as int, item);
                vstd::seq_lib::to_multiset_contains(before, item);
                assert(before.contains(before[i as int]));
                assert(before.to_multiset().count(before[i as int]) > 0);
            }
            assert forall|a: int, b: int| 0 <= a < b < i + 1 implies (#[trigger] after[a].total_raw)
                >= (#[trigger] after[b].total_raw) by {
                assert(forall|m: int| 0 <= m < j ==> after[m] == before[m]);
                assert(after[j as int] == before[i as int]);
                assert(forall|m: int| j < m <= i ==> after[m] == before[m - 1]);
                assert(forall|m: int| 0 <= m < j ==> (#[trigger] before[m].total_raw) >= key);
            }
            assert(sorted_desc(after.take(i as int + 1)));
        }
        i += 1;
    }
    proof {
        assert(v@.take(v@.len() as int) =~= v@);
    }
    v
}

/// Builds the ranked holder list in one step: aggregation then ranking.
/// The conservation, ordering and exclusion guarantees of the report all
/// hold of the result.
pub fn aggregate_and_rank(accounts: &Vec<FundedAccount>) -> (r: Vec<AggregatedHolder>)
    requires
        sum_amounts(accounts@) <= u128::MAX,
    ensures
        sum_totals(r@) == sum_amounts(accounts@),
        sorted_desc(r@),
        forall|j: int| 0 <= j < r@.len() ==> (#[trigger] r@[j].total_raw) > 0,
        forall|j: int| 0 <= j < r@.len() ==> (#[trigger] r@[j].total_raw) == owner_total(
            accounts@,
            r@[j].owner@,
        ),
        forall|j: int|
            0 <= j < r@.len() ==> snapshot_views(#[trigger] r@[j].token_accounts@)
                == owner_snapshots(accounts@, r@[j].owner@),
        forall|j: int, k: int| 0 <= j < k < r@.len() ==> r@[j].owner@ != r@[k].owner@,
        forall|i: int|
            0 <= i < accounts@.len() && (#[trigger] accounts@[i].amount) > 0 ==> exists|j: int|
                0 <= j < r@.len() && (#[trigger] r@[j].owner@) == accounts@[i].owner@,
{
    broadcast use group_to_multiset_ensures;

    let grouped = aggregate_holders(accounts);
    let ranked = rank_holders(grouped);
    proof {
        lemma_sum_totals_permutation(grouped@, ranked@);
        assert forall|j: int| 0 <= j < ranked@.len() implies (#[trigger] ranked@[j].total_raw) > 0
            && ranked@[j].total_raw == owner_total(accounts@, ranked@[j].owner@)
            && snapshot_views(ranked@[j].token_accounts@) == owner_snapshots(
            accounts@,
            ranked@[j].owner@,
        ) by {
            assert(ranked@.contains(ranked@[j]));
            assert(ranked@.to_multiset().count(ranked@[j]) > 0);
            assert(grouped@.contains(ranked@[j]));
            let g = choose|g: int| 0 <= g < grouped@.len() && grouped@[g] == ranked@[j];
            assert(snapshot_views(grouped@[g].token_accounts@) == owner_snapshots(
                accounts@,
                grouped@[g].owner@,
            ));
        }
        assert forall|j: int| 0 <= j < ranked@.len() implies snapshot_views(
            #[trigger] ranked@[j].token_accounts@,
        ) == owner_snapshots(accounts@, ranked@[j].owner@) by {
            assert(ranked@[j].total_raw > 0);
        }
        assert(grouped@.no_duplicates()) by {
            assert forall|a: int, b: int|
                0 <= a < grouped@.len() && 0 <= b < grouped@.len() && a != b implies grouped@[a]
                != grouped@[b] by {
                if a < b {
                    assert(grouped@[a].owner@ != grouped@[b].owner@);
                } else {
                    assert(grouped@[b].owner@ != grouped@[a].owner@);
                }
            }
        }
        grouped@.lemma_multiset_has_no_duplicates();
        ranked@.lemma_multiset_has_no_duplicates_conv();
        assert forall|j: int, k: int| 0 <= j < k < ranked@.len() implies ranked@[j].owner@
            != ranked@[k].owner@ by {
            if ranked@[j].owner@ == ranked@[k].owner@ {
                assert(ranked@.contains(ranked@[j]));
                assert(ranked@.to_multiset().count(ranked@[j]) > 0);
                assert(grouped@.contains(ranked@[j]));
                assert(ranked@.contains(ranked@[k]));
                assert(ranked@.to_multiset().count(ranked@[k]) > 0);
                assert(grouped@.contains(ranked@[k]));
                let gj = choose|g: int| 0 <= g < grouped@.len() && grouped@[g] == ranked@[j];
                let gk = choose|g: int| 0 <= g < grouped@.len() && grouped@[g] == ranked@[k];
                if gj < gk {
                    assert(grouped@[gj].owner@ != grouped@[gk].owner@);
                } else if gk < gj {
                    assert(grouped@[gk].owner@ != grouped@[gj].owner@);
                }
                assert(gj == gk);
                assert(ranked@[j] == ranked@[k]);
                assert(ranked@[j] != ranked@[k]);
            }
        }
        assert forall|i: int|
            0 <= i < accounts@.len() && (#[trigger] accounts@[i].amount) > 0 implies exists|j: int|
            0 <= j < ranked@.len() && (#[trigger] ranked@[j].owner@) == accounts@[i].owner@ by {
            let g = choose|g: int|
                0 <= g < grouped@.len() && (#[trigger] grouped@[g].owner@) == accounts@[i].owner@;
            assert(grouped@.contains(grouped@[g]));
            assert(ranked@.to_multiset().count(grouped@[g]) > 0);
            assert(ranked@.contains(grouped@[g]));
            let j = choose|j: int| 0 <= j < ranked@.len() && ranked@[j] == grouped@[g];
            assert(ranked@[j].owner@ == accounts@[i].owner@);
        }
    }
    ranked
}

} // verus!
