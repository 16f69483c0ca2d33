//! The memoized resolver the report leans on three times over: a cache
//! from mint identifier to a value that is looked up before any fetch and
//! stored after one, so that each mint is fetched at most once per run.
//! Caches are append-or-overwrite for the life of one invocation and
//! never persisted.

use vstd::prelude::*;
use crate::metadata::TokenMetadata;

verus! {

/// One cached binding.
struct CacheEntry<V> {
    key: String,
    value: V,
}

/// A run-scoped memo table keyed by mint identifier.
pub struct MemoCache<V> {
    entries: Vec<CacheEntry<V>>,
}

/// Prices are memoized with their misses: `None` records that the feed
/// had no usable price, so the request is not repeated either.
pub type PriceCache = MemoCache<Option<u64>>;

/// Decimals per mint.
pub type DecimalsCache = MemoCache<u8>;

/// Display metadata per mint.
pub type MetadataCache = MemoCache<TokenMetadata>;

spec fn entries_map<V>(s: Seq<CacheEntry<V>>) -> Map<Seq<char>, V>
    decreases s.len(),
{
    if s.len() == 0 {
        Map::empty()
    } else {
        entries_map(s.drop_last()).insert(s.last().key@, s.last().value)
    }
}

spec fn unique_keys<V>(s: Seq<CacheEntry<V>>) -> bool {
    forall|i: int, j: int| 0 <= i < j < s.len() ==> s[i].key@ != s[j].key@
}

proof fn lemma_map_absent<V>(s: Seq<CacheEntry<V>>, k: Seq<char>)
    requires
        forall|i: int| 0 <= i < s.len() ==> (#[trigger] s[i].key@) != k,
    ensures
        !entries_map(s).contains_key(k),
    decreases s.len(),
{
    if s.len() > 0 {
        lemma_map_absent(s.drop_last(), k);
    }
}

proof fn lemma_map_found<V>(s: Seq<CacheEntry<V>>, i: int)
    requires
        unique_keys(s),
        0 <= i < s.len(),
    ensures
        entries_map(s).contains_key(s[i].key@),
        entries_map(s)[s[i].key@] == s[i].value,
    decreases s.len(),
{
    if i < s.len() - 1 {
        lemma_map_found(s.drop_last(), i);
    }
}

proof fn lemma_map_update<V>(s: Seq<CacheEntry<V>>, i: int, e: CacheEntry<V>)
    requires
        unique_keys(s),
        0 <= i < s.len(),
        e.key@ == s[i].key@,
    ensures
        entries_map(s.update(i, e)) =~= entries_map(s).insert(e.key@, e.value),
    decreases s.len(),
{
    if i == s.len() - 1 {
        assert(s.update(i, e).drop_last() =~= s.drop_last());
        assert(s.update(i, e).last() == e);
    } else {
        assert(s.update(i, e).drop_last() =~= s.drop_last().update(i, e));
        assert(s.update(i, e).last() == s.last());
        lemma_map_update(s.drop_last(), i, e);
        assert(s.last().key@ != e.key@);
    }
}

impl<V> MemoCache<V> {
    /// What the cache knows: a map from mint identifier to stored value.
    pub closed spec fn as_map(&self) -> Map<Seq<char>, V> {
        entries_map(self.entries@)
    }

    /// The cache's internal shape is sound: no mint is recorded twice.
    /// Established by `new` and preserved by every method.
    pub closed spec fn wf(&self) -> bool {
        unique_keys(self.entries@)
    }

    /// An empty cache, fresh for one command invocation.
    pub fn new() -> (r: Self)
        ensures
            r.wf(),
            r.as_map() == Map::<Seq<char>, V>::empty(),
    {
        MemoCache { entries: Vec::new() }
    }

    fn find(&self, key: &String) -> (r: Option<usize>)
        ensures
            match r {
                Some(i) => i < self.entries@.len() && self.entries@[i as int].key@ == key@,
                None => forall|i: int|
                    0 <= i < self.entries@.len() ==> (#[trigger] self.entries@[i].key@) != key@,
            },
    {
        let n = self.entries.len();
        let mut i: usize = 0;
        while i < n
            invariant
                n == self.entries@.len(),
                i <= n,
                forall|m: int| 0 <= m < i ==> (#[trigger] self.entries@[m].key@) != key@,
            decreases n - i,
        {
            if self.entries[i].key == *key {
                return Some(i);
            }
            i += 1;
        }
        None
    }

    /// Looks a mint up: the stored value on a hit, and `None` on a miss,
    /// exactly as the cache's map has it.
    pub fn get(&self, key: &String) -> (r: Option<&V>)
        requires
            self.wf(),
        ensures
            match r {
                Some(v) => self.as_map().contains_key(key@) && *v == self.as_map()[key@],
                None => !self.as_map().contains_key(key@),
            },
    {
        match self.find(key) {
            Some(i) => {
                proof {
                    lemma_map_found(self.entries@, i as int);
                }
                Some(&self.entries[i].value)
            },
            None => {
                proof {
                    lemma_map_absent(self.entries@, key@);
                }
                None
            },
        }
    }

    /// Stores a value for a mint, overwriting what was there.
    pub fn put(&mut self, key: &String, value: V)
        requires
            old(self).wf(),
        ensures
            final(self).wf(),
            final(self).as_map() == old(self).as_map().insert(key@, value),
    {
        let ghost before = self.entries@;
        match self.find(key) {
            Some(i) => {
                let entry = CacheEntry { key: key.clone(), value };
                self.entries[i] = entry;
                proof {
                    assert(forall|m: int|
                        0 <= m < self.entries@.len() && m != i ==> self.entries@[m]
                            == before[m]);
                    lemma_map_update(before, i as int, self.entries@[i as int]);
                    assert(self.as_map() =~= old(self).as_map().insert(key@, value));
                }
            },
            None => {
                self.entries.push(CacheEntry { key: key.clone(), value });
                proof {
                    assert(self.entries@.drop_last() =~= before);
                }
            },
        }
    }

    /// Stores a value for a mint only when none is cached yet, the way
    /// decimals learned in passing are recorded without displacing what a
    /// fetch already established.
    pub fn put_if_absent(&mut self, key: &String, value: V)
        requires
            old(self).wf(),
        ensures
            final(self).wf(),
            final(self).as_map() == (if old(self).as_map().contains_key(key@) {
                old(self).as_map()
            } else {
                old(self).as_map().insert(key@, value)
            }),
    {
        match self.find(key) {
            Some(i) => {
                proof {
                    lemma_map_found(self.entries@, i as int);
                }
            },
            None => {
                proof {
                    lemma_map_absent(self.entries@, key@);
                }
                self.put(key, value);
            },
        }
    }
}

/// Once a price lookup's outcome for a mint is stored — a price, or the
/// recorded absence of one — a later lookup for the same mint is answered
/// from the cache with that very outcome, so a second request is never
/// issued for it.
pub proof fn lemma_memoized_lookup(
    cache: Map<Seq<char>, Option<u64>>,
    mint: Seq<char>,
    outcome: Option<u64>,
)
    ensures
        cache.insert(mint, outcome).contains_key(mint),
        cache.insert(mint, outcome)[mint] == outcome,
{
}

} // verus!
