//! Query cache with LRU eviction, time-to-live and domain invalidation.
//!
//! Entries are keyed by the hash of their [`CacheKey`]. The cache holds at
//! most its capacity of entries and evicts the least recently used one when a
//! new key arrives at capacity. Entries expire after their time-to-live; an
//! expired entry is removed when it is looked up.
//!
//! Invalidating a domain is lazy: the domain's held entries are marked
//! invalid and stay in the cache (counted by [`QueryCache::size`], not by
//! [`QueryCache::effective_size`]) until they are stored again, evicted, or
//! the whole cache is invalidated; a lookup of a marked entry misses. Only
//! held entries carry a mark.
//!
//! Whether an entry has expired is decided from the time passed since it
//! was stored: [`QueryCache::get`] reads it from the clock, and
//! [`QueryCache::finish_lookup`] takes it as an argument.

use std::collections::{HashMap, HashSet};
use std::sync::Arc;
use std::time::Duration;
use lru::LruCache;
use vstd::prelude::*;

use crate::cache_key::{
    duration_as_nanos, duration_from_secs, duration_nanos, instant_elapsed, instant_now, key_hash, share_episodes, CacheKey, CacheKeyView,
    CacheMetrics, CachedResult, Episode, DEFAULT_CACHE_TTL_SECS, DEFAULT_MAX_ENTRIES,
};
use crate::recency::{
    inserted, lemma_inserted, lemma_without_contains, lemma_without_no_dup, lru_capacity,
    lru_clear, lru_contains, lru_len, lru_new, lru_order, lru_pop, lru_push, lru_touch,
    promoted, without,
};
use crate::text::str_eq;

verus! {

broadcast use vstd::std_specs::hash::group_hash_axioms;

/// Abstract state of a query cache.
pub struct CacheModel {
    /// Cached key hashes, least recently used first.
    pub order: Seq<u64>,
    /// Cached results by key hash.
    pub results: Map<u64, CachedResult>,
    /// Key hashes stored under each domain.
    pub domains: Map<Seq<char>, Set<u64>>,
    /// Key hashes marked invalid.
    pub invalidated: Set<u64>,
    /// Counters.
    pub metrics: CacheMetrics,
    /// Maximum number of entries.
    pub capacity: nat,
    /// Time-to-live given to new entries.
    pub ttl: Duration,
    /// Time-to-live given to new entries, in nanoseconds.
    pub ttl_nanos: u128,
}

/// The key hashes stored under one domain. The domain index is a list of
/// these, with no domain twice and no hash twice in one list, in place of a
/// map from domain to a set of hashes: a `HashMap` keyed by `String`, and the
/// `HashSet`s it would hold, have no specification to prove the index
/// operations against, while a `Vec` has an exact view.
pub struct DomainHashes {
    pub domain: String,
    pub hashes: Vec<u64>,
}

/// Domain names of the index are pairwise distinct and no hash list holds a
/// hash twice.
pub open spec fn index_wf(v: Seq<DomainHashes>) -> bool {
    &&& forall|i: int, j: int| 0 <= i < j < v.len() ==> #[trigger] v[i].domain@ != #[trigger] v[j].domain@
    &&& forall|i: int| 0 <= i < v.len() ==> (#[trigger] v[i].hashes@).no_duplicates()
}

/// The domain index as a map from domain to its set of key hashes.
pub open spec fn domain_map(v: Seq<DomainHashes>) -> Map<Seq<char>, Set<u64>> {
    Map::new(
        |d: Seq<char>| exists|i: int| 0 <= i < v.len() && v[i].domain@ == d,
        |d: Seq<char>| v[choose|i: int| 0 <= i < v.len() && v[i].domain@ == d].hashes@.to_set(),
    )
}

proof fn lemma_domain_map_at(v: Seq<DomainHashes>, i: int)
    requires
        index_wf(v),
        0 <= i < v.len(),
    ensures
        domain_map(v).contains_key(v[i].domain@),
        domain_map(v)[v[i].domain@] == v[i].hashes@.to_set(),
{
    let d = v[i].domain@;
    assert(exists|j: int| 0 <= j < v.len() && v[j].domain@ == d);
    let j = choose|j: int| 0 <= j < v.len() && v[j].domain@ == d;
    if j != i {
        if j < i {
            assert(v[j].domain@ != v[i].domain@);
        } else {
            assert(v[i].domain@ != v[j].domain@);
        }
    }
}

proof fn lemma_domain_map_remove(v: Seq<DomainHashes>, i: int)
    requires
        index_wf(v),
        0 <= i < v.len(),
    ensures
        index_wf(v.remove(i)),
        domain_map(v.remove(i)) == domain_map(v).remove(v[i].domain@),
{
    let w = v.remove(i);
    assert forall|a: int, b: int| 0 <= a < b < w.len() implies #[trigger] w[a].domain@
        != #[trigger] w[b].domain@ by {
        let a2 = if a < i { a } else { a + 1 };
        let b2 = if b < i { b } else { b + 1 };
        assert(w[a] == v[a2] && w[b] == v[b2]);
    }
    assert forall|a: int| 0 <= a < w.len() implies (#[trigger] w[a].hashes@).no_duplicates() by {
        let a2 = if a < i { a } else { a + 1 };
        assert(w[a] == v[a2]);
    }
    let m = domain_map(v).remove(v[i].domain@);
    assert forall|d: Seq<char>| #[trigger] domain_map(w).contains_key(d) <==> m.contains_key(d) by {
        if domain_map(w).contains_key(d) {
            let a = choose|a: int| 0 <= a < w.len() && w[a].domain@ == d;
            let a2 = if a < i { a } else { a + 1 };
            assert(w[a] == v[a2]);
            if a2 < i {
                assert(v[a2].domain@ != v[i].domain@);
            } else {
                assert(v[i].domain@ != v[a2].domain@);
            }
        }
        if m.contains_key(d) {
            let a = choose|a: int| 0 <= a < v.len() && v[a].domain@ == d;
            assert(a != i);
            let a2 = if a < i { a } else { a - 1 };
            assert(w[a2] == v[a]);
        }
    }
    assert forall|d: Seq<char>| #[trigger] domain_map(w).contains_key(d) implies domain_map(w)[d]
        == m[d] by {
        let a = choose|a: int| 0 <= a < w.len() && w[a].domain@ == d;
        let a2 = if a < i { a } else { a + 1 };
        assert(w[a] == v[a2]);
        lemma_domain_map_at(w, a);
        lemma_domain_map_at(v, a2);
    }
    assert(domain_map(w) =~= m);
}

proof fn lemma_domain_map_push(v: Seq<DomainHashes>, e: DomainHashes)
    requires
        index_wf(v),
        e.hashes@.no_duplicates(),
        !domain_map(v).contains_key(e.domain@),
    ensures
        index_wf(v.push(e)),
        domain_map(v.push(e)) == domain_map(v).insert(e.domain@, e.hashes@.to_set()),
{
    let w = v.push(e);
    assert forall|a: int, b: int| 0 <= a < b < w.len() implies #[trigger] w[a].domain@
        != #[trigger] w[b].domain@ by {
        if b == v.len() {
            assert(w[a] == v[a]);
            if v[a].domain@ == e.domain@ {
                assert(domain_map(v).contains_key(e.domain@));
            }
        } else {
            assert(w[a] == v[a] && w[b] == v[b]);
        }
    }
    assert forall|a: int| 0 <= a < w.len() implies (#[trigger] w[a].hashes@).no_duplicates() by {
        if a < v.len() {
            assert(w[a] == v[a]);
        }
    }
    let m = domain_map(v).insert(e.domain@, e.hashes@.to_set());
    assert forall|d: Seq<char>| #[trigger] domain_map(w).contains_key(d) <==> m.contains_key(d) by {
        if domain_map(w).contains_key(d) {
            let a = choose|a: int| 0 <= a < w.len() && w[a].domain@ == d;
            if a < v.len() {
                assert(w[a] == v[a]);
            }
        }
        if domain_map(v).contains_key(d) {
            let a = choose|a: int| 0 <= a < v.len() && v[a].domain@ == d;
            assert(w[a] == v[a]);
        }
        if d == e.domain@ {
            assert(w[v.len() as int] == e);
        }
    }
    assert forall|d: Seq<char>| #[trigger] domain_map(w).contains_key(d) implies domain_map(w)[d]
        == m[d] by {
        let a = choose|a: int| 0 <= a < w.len() && w[a].domain@ == d;
        lemma_domain_map_at(w, a);
        if a < v.len() {
            assert(w[a] == v[a]);
            lemma_domain_map_at(v, a);
        } else {
            assert(w[a] == e);
        }
    }
    assert(domain_map(w) =~= m);
}

/// Whether an entry has expired once `elapsed` nanoseconds have passed
/// since it was stored: at least its time-to-live has passed.
pub open spec fn expired(entry: CachedResult, elapsed: u128) -> bool {
    elapsed >= entry.ttl_nanos
}

/// What a lookup does when `elapsed` nanoseconds have passed since the
/// key's entry was stored: a marked key misses; an absent key misses; a
/// present entry that has not expired hits, gives back its episodes and
/// becomes the most recently used; an expired one is removed, counted as a
/// miss and an eviction.
pub open spec fn lookup_post(
    old: CacheModel,
    new: CacheModel,
    key: CacheKeyView,
    elapsed: u128,
    r: Option<Arc<Vec<Episode>>>,
) -> bool {
    let h = key_hash(key);
    if old.invalidated.contains(h) {
        &&& r is None
        &&& new == CacheModel {
            metrics: CacheMetrics { misses: (old.metrics.misses + 1) as u64, ..old.metrics },
            ..old
        }
    } else if !old.order.contains(h) {
        &&& r is None
        &&& new == CacheModel {
            metrics: CacheMetrics {
                misses: (old.metrics.misses + 1) as u64,
                size: old.order.len() as usize,
                ..old.metrics
            },
            ..old
        }
    } else if !expired(old.results[h], elapsed) {
        &&& r == Some(old.results[h].episodes)
        &&& new == CacheModel {
            order: promoted(old.order, h),
            metrics: CacheMetrics { hits: (old.metrics.hits + 1) as u64, ..old.metrics },
            ..old
        }
    } else {
        &&& r is None
        &&& new == CacheModel {
            order: without(old.order, h),
            results: old.results.remove(h),
            metrics: CacheMetrics {
                misses: (old.metrics.misses + 1) as u64,
                evictions: (old.metrics.evictions + 1) as u64,
                size: (old.order.len() - 1) as usize,
                ..old.metrics
            },
            ..old
        }
    }
}

/// What a lookup does when the time passed since the key's entry was
/// stored is some duration, measured in nanoseconds, as the clock gives it.
pub open spec fn get_post(
    old: CacheModel,
    new: CacheModel,
    key: CacheKeyView,
    r: Option<Arc<Vec<Episode>>>,
) -> bool {
    exists|age: Duration| #[trigger] lookup_post(old, new, key, duration_nanos(age), r)
}

/// The domain index after recording `h` under the key's domain, if any.
pub open spec fn domains_after_put(
    domains: Map<Seq<char>, Set<u64>>,
    domain: Option<Seq<char>>,
    h: u64,
) -> Map<Seq<char>, Set<u64>> {
    match domain {
        Some(d) => domains.insert(
            d,
            if domains.contains_key(d) {
                domains[d].insert(h)
            } else {
                set![h]
            },
        ),
        None => domains,
    }
}

/// What storing a result does: the key becomes the most recently used,
/// evicting the least recently used entry when a new key arrives at
/// capacity (counted as an eviction); the key's mark is cleared and its hash
/// recorded under its domain.
pub open spec fn put_post(
    old: CacheModel,
    new: CacheModel,
    key: CacheKeyView,
    episodes: Vec<Episode>,
) -> bool {
    let h = key_hash(key);
    let evicts = !old.order.contains(h) && old.order.len() >= old.capacity;
    &&& new.order == inserted(old.order, h, old.capacity)
    &&& new.results.dom() == new.order.to_set()
    &&& new.results.contains_key(h)
    &&& *new.results[h].episodes == episodes
    &&& new.results[h].ttl == old.ttl
    &&& new.results[h].ttl_nanos == old.ttl_nanos
    &&& forall|k: u64| k != h && #[trigger] new.results.contains_key(k) ==> new.results[k] == old.results[k]
    &&& new.invalidated == old.invalidated.remove(h).intersect(new.order.to_set())
    &&& new.domains == domains_after_put(old.domains, key.domain, h)
    &&& new.metrics == CacheMetrics {
        evictions: if evicts {
            (old.metrics.evictions + 1) as u64
        } else {
            old.metrics.evictions
        },
        size: new.order.len() as usize,
        ..old.metrics
    }
    &&& new.capacity == old.capacity
    &&& new.ttl == old.ttl
    &&& new.ttl_nanos == old.ttl_nanos
}

/// What invalidating everything does: every entry, mark and domain record
/// goes, and the number of removed entries is counted as invalidations.
pub open spec fn invalidate_all_post(old: CacheModel, new: CacheModel) -> bool {
    new == CacheModel {
        order: Seq::empty(),
        results: Map::empty(),
        domains: Map::empty(),
        invalidated: Set::empty(),
        metrics: CacheMetrics {
            size: 0,
            invalidations: (old.metrics.invalidations + old.order.len()) as u64,
            ..old.metrics
        },
        ..old
    }
}

/// What invalidating a domain does: the held entries whose hashes are
/// recorded under it are marked invalid, every recorded hash is counted,
/// and the domain's record is dropped; an unknown domain changes nothing.
pub open spec fn invalidate_domain_post(old: CacheModel, new: CacheModel, d: Seq<char>) -> bool {
    if old.domains.contains_key(d) {
        new == CacheModel {
            invalidated: old.invalidated.union(old.domains[d].intersect(old.order.to_set())),
            domains: old.domains.remove(d),
            metrics: CacheMetrics {
                invalidations: (old.metrics.invalidations + old.domains[d].len()) as u64,
                ..old.metrics
            },
            ..old
        }
    } else {
        new == old
    }
}

/// Validity of an abstract cache state: a positive capacity, the held
/// hashes distinct and within capacity, and only held entries marked.
pub open spec fn model_valid(m: CacheModel) -> bool {
    &&& m.capacity > 0
    &&& m.order.no_duplicates()
    &&& m.order.len() <= m.capacity
    &&& m.invalidated.subset_of(m.order.to_set())
    &&& m.results.dom() == m.order.to_set()
}

/// A lookup right after storing a result gives back that result, unless
/// the entry expired in between, in which case it is gone from the cache.
pub proof fn law_get_after_put(
    m0: CacheModel,
    m1: CacheModel,
    m2: CacheModel,
    key: CacheKeyView,
    episodes: Vec<Episode>,
    r: Option<Arc<Vec<Episode>>>,
)
    requires
        model_valid(m0),
        put_post(m0, m1, key, episodes),
        get_post(m1, m2, key, r),
    ensures
        match r {
            Some(a) => *a == episodes,
            None => !m2.order.contains(key_hash(key)),
        },
{
    let h = key_hash(key);
    lemma_inserted(m0.order, h, m0.capacity);
    assert(!m1.invalidated.contains(h));
    if r is None {
        lemma_without_contains(m1.order, h, h);
    }
}

/// Storing a result keeps the cache within its capacity, and when a new
/// key arrives at a full cache the least recently used entry is evicted
/// while every other entry stays.
pub proof fn law_put_eviction(m0: CacheModel, m1: CacheModel, key: CacheKeyView, episodes: Vec<Episode>)
    requires
        model_valid(m0),
        put_post(m0, m1, key, episodes),
    ensures
        model_valid(m1),
        !m0.order.contains(key_hash(key)) && m0.order.len() == m0.capacity ==> {
            &&& !m1.order.contains(m0.order[0])
            &&& forall|i: int| 1 <= i < m0.order.len() ==> m1.order.contains(#[trigger] m0.order[i])
        },
        m0.order.contains(key_hash(key)) || m0.order.len() < m0.capacity ==> forall|x: u64|
            #[trigger] m0.order.contains(x) ==> m1.order.contains(x),
{
    let h = key_hash(key);
    lemma_inserted(m0.order, h, m0.capacity);
    if !m0.order.contains(h) && m0.order.len() == m0.capacity {
        assert(m0.order.contains(m0.order[0]));
        assert(m0.order[0] != h);
        assert forall|i: int| 1 <= i < m0.order.len() implies m1.order.contains(#[trigger] m0.order[i]) by {
            assert(m0.order.contains(m0.order[i]));
            assert(m0.order[i] != m0.order[0]);
            assert(m0.order[i] != h);
        }
    }
}

/// After a domain is invalidated, a key stored under that domain misses.
pub proof fn law_domain_invalidation_hides(
    m0: CacheModel,
    m1: CacheModel,
    m2: CacheModel,
    m3: CacheModel,
    key: CacheKeyView,
    episodes: Vec<Episode>,
    r: Option<Arc<Vec<Episode>>>,
)
    requires
        put_post(m0, m1, key, episodes),
        key.domain is Some,
        invalidate_domain_post(m1, m2, key.domain->0),
        get_post(m2, m3, key, r),
    ensures
        r is None,
        m3.order == m2.order,
{
    let h = key_hash(key);
    let d = key.domain->0;
    assert(m1.domains.contains_key(d));
    assert(m1.domains[d].contains(h));
    assert(m2.invalidated.contains(h));
}

/// Invalidating a domain leaves every entry in place and leaves alone the
/// marks of hashes not recorded under that domain.
pub proof fn law_domain_invalidation_is_selective(
    m1: CacheModel,
    m2: CacheModel,
    d: Seq<char>,
    h: u64,
)
    requires
        invalidate_domain_post(m1, m2, d),
        !m1.invalidated.contains(h),
        !(m1.domains.contains_key(d) && m1.domains[d].contains(h)),
    ensures
        !m2.invalidated.contains(h),
        m2.order == m1.order,
        m2.results == m1.results,
{
}

/// After everything is invalidated the cache is empty and every lookup
/// misses.
pub proof fn law_invalidate_all_empties(
    m1: CacheModel,
    m2: CacheModel,
    m3: CacheModel,
    key: CacheKeyView,
    r: Option<Arc<Vec<Episode>>>,
)
    requires
        invalidate_all_post(m1, m2),
        get_post(m2, m3, key, r),
    ensures
        m2.order.len() == 0,
        r is None,
{
}

/// Every lookup counts exactly one hit or one miss, and it is a hit
/// exactly when a result comes back; it counts no invalidation and never
/// adds an entry (only an expired entry is removed).
pub proof fn law_lookup_counted(
    m1: CacheModel,
    m2: CacheModel,
    key: CacheKeyView,
    r: Option<Arc<Vec<Episode>>>,
)
    requires
        model_valid(m1),
        m1.metrics.hits < u64::MAX,
        m1.metrics.misses < u64::MAX,
        get_post(m1, m2, key, r),
    ensures
        m2.metrics.hits + m2.metrics.misses == m1.metrics.hits + m1.metrics.misses + 1,
        r is Some <==> m2.metrics.hits == m1.metrics.hits + 1,
        m2.metrics.invalidations == m1.metrics.invalidations,
        m2.order.len() <= m1.order.len(),
{
    let age = choose|age: Duration| #[trigger] lookup_post(m1, m2, key, duration_nanos(age), r);
    lemma_without_no_dup(m1.order, key_hash(key));
}

/// A lookup of a stored key before its time-to-live has passed gives back
/// the stored episodes, whatever happened before the store: storing clears
/// a mark left by an earlier domain invalidation, so a re-cached key is
/// visible again.
pub proof fn law_fresh_lookup_hits(
    m0: CacheModel,
    m1: CacheModel,
    m2: CacheModel,
    key: CacheKeyView,
    episodes: Vec<Episode>,
    elapsed: u128,
    r: Option<Arc<Vec<Episode>>>,
)
    requires
        model_valid(m0),
        put_post(m0, m1, key, episodes),
        lookup_post(m1, m2, key, elapsed, r),
        elapsed < m0.ttl_nanos,
    ensures
        r matches Some(a) && *a == episodes,
        m2.order.last() == key_hash(key),
{
    let h = key_hash(key);
    lemma_inserted(m0.order, h, m0.capacity);
    assert(!m1.invalidated.contains(h));
}

/// A held, unmarked entry that has not expired is given back by a lookup.
/// With the laws below, which keep such an entry through the operations
/// on other keys, this gives back a stored result (re-cached after a domain
/// invalidation or not) until it expires, is evicted, or is invalidated.
pub proof fn law_unmarked_fresh_hits(
    m1: CacheModel,
    m2: CacheModel,
    key: CacheKeyView,
    elapsed: u128,
    r: Option<Arc<Vec<Episode>>>,
)
    requires
        m1.order.contains(key_hash(key)),
        !m1.invalidated.contains(key_hash(key)),
        elapsed < m1.results[key_hash(key)].ttl_nanos,
        lookup_post(m1, m2, key, elapsed, r),
    ensures
        r == Some(m1.results[key_hash(key)].episodes),
{
}

/// Storing a result under another key keeps a held entry, its result and
/// its mark, unless that entry is the least recently used one and the
/// store evicts it.
pub proof fn law_other_put_keeps_entry(
    m0: CacheModel,
    m1: CacheModel,
    h: u64,
    key: CacheKeyView,
    episodes: Vec<Episode>,
)
    requires
        model_valid(m0),
        put_post(m0, m1, key, episodes),
        m0.order.contains(h),
        key_hash(key) != h,
        !(!m0.order.contains(key_hash(key)) && m0.order.len() >= m0.capacity && m0.order[0] == h),
    ensures
        m1.order.contains(h),
        m1.results[h] == m0.results[h],
        m1.invalidated.contains(h) == m0.invalidated.contains(h),
{
    lemma_inserted(m0.order, key_hash(key), m0.capacity);
    assert(m1.order.to_set().contains(h));
}

/// Looking up another key keeps a held entry, its result and its mark.
pub proof fn law_other_lookup_keeps_entry(
    m0: CacheModel,
    m1: CacheModel,
    h: u64,
    key: CacheKeyView,
    elapsed: u128,
    r: Option<Arc<Vec<Episode>>>,
)
    requires
        model_valid(m0),
        lookup_post(m0, m1, key, elapsed, r),
        m0.order.contains(h),
        key_hash(key) != h,
    ensures
        m1.order.contains(h),
        m1.results[h] == m0.results[h],
        m1.invalidated.contains(h) == m0.invalidated.contains(h),
{
    let k = key_hash(key);
    lemma_without_contains(m0.order, k, h);
    if m0.order.contains(k) && !m0.invalidated.contains(k) {
        lemma_without_no_dup(m0.order, k);
        if m1.order == promoted(m0.order, k) {
            assert(m1.order[m1.order.len() - 1] == k);
            let i = choose|i: int| 0 <= i < without(m0.order, k).len() && without(m0.order, k)[i] == h;
            assert(m1.order[i] == h);
        }
    }
}

/// A lookup of an entry at least as old as its time-to-live misses; an
/// unmarked one is removed and counted as a miss.
pub proof fn law_stale_lookup_misses(
    m1: CacheModel,
    m2: CacheModel,
    key: CacheKeyView,
    elapsed: u128,
    r: Option<Arc<Vec<Episode>>>,
)
    requires
        model_valid(m1),
        m1.order.contains(key_hash(key)),
        m1.metrics.misses < u64::MAX,
        elapsed >= m1.results[key_hash(key)].ttl_nanos,
        lookup_post(m1, m2, key, elapsed, r),
    ensures
        r is None,
        m2.metrics.misses == m1.metrics.misses + 1,
        !m1.invalidated.contains(key_hash(key)) ==> !m2.order.contains(key_hash(key)) && !m2.results.contains_key(
            key_hash(key),
        ),
{
    let h = key_hash(key);
    lemma_without_contains(m1.order, h, h);
}

/// An entry with a time-to-live of zero has always expired: a lookup of it
/// never hits.
pub proof fn law_zero_ttl_never_hits(
    m1: CacheModel,
    m2: CacheModel,
    key: CacheKeyView,
    elapsed: u128,
    r: Option<Arc<Vec<Episode>>>,
)
    requires
        model_valid(m1),
        lookup_post(m1, m2, key, elapsed, r),
        m1.results.contains_key(key_hash(key)) ==> m1.results[key_hash(key)].ttl_nanos == 0,
    ensures
        r is None,
{
    if m1.order.contains(key_hash(key)) {
        assert(m1.order.to_set().contains(key_hash(key)));
    }
}

/// Query cache with LRU eviction, time-to-live and domain invalidation.
pub struct QueryCache {
    recency: LruCache<u64, ()>,
    results: HashMap<u64, CachedResult>,
    domain_index: Vec<DomainHashes>,
    invalidated: HashSet<u64>,
    metrics: CacheMetrics,
    default_ttl: Duration,
    ttl_nanos: u128,
    max_entries: usize,
}

impl View for QueryCache {
    type V = CacheModel;

    closed spec fn view(&self) -> CacheModel {
        CacheModel {
            order: lru_order(self.recency),
            results: self.results@,
            domains: domain_map(self.domain_index@),
            invalidated: self.invalidated@,
            metrics: self.metrics,
            capacity: self.max_entries as nat,
            ttl: self.default_ttl,
            ttl_nanos: self.ttl_nanos,
        }
    }
}

impl QueryCache {
    /// Internal consistency of the cache.
    pub closed spec fn wf(&self) -> bool {
        &&& self.max_entries > 0
        &&& lru_capacity(self.recency) == self.max_entries
        &&& lru_order(self.recency).no_duplicates()
        &&& lru_order(self.recency).len() <= self.max_entries
        &&& self.results@.dom() == lru_order(self.recency).to_set()
        &&& self.invalidated@.subset_of(self.results@.dom())
        &&& index_wf(self.domain_index@)
        &&& self.metrics.capacity == self.max_entries
    }

    /// Consistency facts of the abstract state: a well-formed cache's state
    /// is valid, so the laws above apply to it.
    pub proof fn lemma_wf(&self)
        requires
            self.wf(),
        ensures
            model_valid(self@),
            self@.capacity > 0,
            self@.order.no_duplicates(),
            self@.order.len() <= self@.capacity,
            self@.results.dom() == self@.order.to_set(),
            self@.metrics.capacity == self@.capacity,
    {
    }

    /// A cache with the default capacity and time-to-live.
    pub fn new() -> (c: Self)
        ensures
            c.wf(),
            c@.order == Seq::<u64>::empty(),
            c@.results == Map::<u64, CachedResult>::empty(),
            c@.domains == Map::<Seq<char>, Set<u64>>::empty(),
            c@.invalidated == Set::<u64>::empty(),
            c@.metrics == CacheMetrics::with_capacity_spec(DEFAULT_MAX_ENTRIES),
            c@.capacity == DEFAULT_MAX_ENTRIES,
            c@.ttl_nanos == DEFAULT_CACHE_TTL_SECS * 1_000_000_000,
    {
        let nanos = DEFAULT_CACHE_TTL_SECS as u128 * 1_000_000_000;
        Self::with_ttl_parts(DEFAULT_MAX_ENTRIES, duration_from_secs(DEFAULT_CACHE_TTL_SECS), nanos)
    }

    /// A cache holding at most `capacity` entries, each fresh for `ttl`.
    pub fn with_capacity_and_ttl(capacity: usize, ttl: Duration) -> (c: Self)
        requires
            capacity > 0,
        ensures
            c.wf(),
            c@.order == Seq::<u64>::empty(),
            c@.results == Map::<u64, CachedResult>::empty(),
            c@.domains == Map::<Seq<char>, Set<u64>>::empty(),
            c@.invalidated == Set::<u64>::empty(),
            c@.metrics == CacheMetrics::with_capacity_spec(capacity),
            c@.capacity == capacity,
            c@.ttl == ttl,
            c@.ttl_nanos == duration_nanos(ttl),
    {
        let nanos = duration_as_nanos(&ttl);
        Self::with_ttl_parts(capacity, ttl, nanos)
    }

    fn with_ttl_parts(capacity: usize, ttl: Duration, ttl_nanos: u128) -> (c: Self)
        requires
            capacity > 0,
        ensures
            c.wf(),
            c@.order == Seq::<u64>::empty(),
            c@.results == Map::<u64, CachedResult>::empty(),
            c@.domains == Map::<Seq<char>, Set<u64>>::empty(),
            c@.invalidated == Set::<u64>::empty(),
            c@.metrics == CacheMetrics::with_capacity_spec(capacity),
            c@.capacity == capacity,
            c@.ttl == ttl,
            c@.ttl_nanos == ttl_nanos,
    {
        let c = QueryCache {
            recency: lru_new(capacity),
            results: HashMap::new(),
            domain_index: Vec::new(),
            invalidated: HashSet::new(),
            metrics: CacheMetrics::with_capacity(capacity),
            default_ttl: ttl,
            ttl_nanos,
            max_entries: capacity,
        };
        proof {
            assert(c.results@.dom() =~= lru_order(c.recency).to_set());
            assert(domain_map(c.domain_index@) =~= Map::<Seq<char>, Set<u64>>::empty());
        }
        c
    }

    /// Looks up a cached result, reading from the clock how long ago the
    /// key's entry was stored.
    pub fn get(&mut self, key: &CacheKey) -> (r: Option<Arc<Vec<Episode>>>)
        requires
            old(self).wf(),
            old(self)@.metrics.hits < u64::MAX,
            old(self)@.metrics.misses < u64::MAX,
            old(self)@.metrics.evictions < u64::MAX,
        ensures
            final(self).wf(),
            get_post(old(self)@, final(self)@, key@, r),
    {
        let h = key.compute_hash();
        let age: Option<Duration> = match self.results.get(&h) {
            Some(entry) => Some(instant_elapsed(&entry.cached_at)),
            None => None,
        };
        let elapsed = match &age {
            Some(a) => duration_as_nanos(a),
            None => 0,
        };
        proof {
            if age is None {
                assert(!self@.results.contains_key(h));
                assert(!self@.order.to_set().contains(h));
            }
        }
        let r = self.finish_lookup(key, elapsed);
        proof {
            let d: Duration = match age {
                Some(a) => a,
                None => vstd::pervasive::arbitrary(),
            };
            assert(lookup_post(old(self)@, self@, key@, duration_nanos(d), r));
        }
        r
    }

    /// Looks up a cached result when `elapsed` nanoseconds have passed since
    /// the key's entry was stored.
    pub fn finish_lookup(&mut self, key: &CacheKey, elapsed: u128) -> (r: Option<Arc<Vec<Episode>>>)
        requires
            old(self).wf(),
            old(self)@.metrics.hits < u64::MAX,
            old(self)@.metrics.misses < u64::MAX,
            old(self)@.metrics.evictions < u64::MAX,
        ensures
            final(self).wf(),
            lookup_post(old(self)@, final(self)@, key@, elapsed, r),
    {
        let h = key.compute_hash();
        if self.invalidated.contains(&h) {
            self.metrics.misses = self.metrics.misses + 1;
            return None;
        }
        let ghost order0 = lru_order(self.recency);
        let present = lru_touch(&mut self.recency, h);
        if !present {
            self.metrics.misses = self.metrics.misses + 1;
            self.metrics.size = lru_len(&self.recency);
            return None;
        }
        proof {
            lemma_without_no_dup(order0, h);
            lemma_inserted(order0, h, self.max_entries as nat);
            assert(inserted(order0, h, self.max_entries as nat) == promoted(order0, h));
            assert forall|x: u64| #[trigger] promoted(order0, h).contains(x) <==> order0.contains(x) by {
                lemma_without_contains(order0, h, x);
                if x == h {
                    assert(promoted(order0, h)[promoted(order0, h).len() - 1] == h);
                }
            }
            assert(self.results@.dom() =~= lru_order(self.recency).to_set());
        }
        let expired = match self.results.get(&h) {
            Some(entry) => elapsed >= entry.ttl_nanos,
            None => true,
        };
        if expired {
            lru_pop(&mut self.recency, h);
            self.results.remove(&h);
            self.metrics.misses = self.metrics.misses + 1;
            self.metrics.evictions = self.metrics.evictions + 1;
            self.metrics.size = lru_len(&self.recency);
            proof {
                let p = promoted(order0, h);
                lemma_without_no_dup(p, h);
                assert forall|x: u64| #[trigger] without(p, h).contains(x) <==> without(order0, h).contains(x) by {
                    lemma_without_contains(p, h, x);
                    lemma_without_contains(order0, h, x);
                }
                assert(without(p, h) =~= without(order0, h)) by {
                    assert(p.drop_last() =~= without(order0, h));
                    assert(p =~= without(order0, h).push(h));
                    lemma_without_contains(order0, h, h);
                    lemma_without_no_dup(without(order0, h), h);
                }
                assert forall|x: u64| #[trigger] without(order0, h).contains(x) <==> (order0.contains(x) && x != h) by {
                    lemma_without_contains(order0, h, x);
                }
                assert(self.results@.dom() =~= lru_order(self.recency).to_set());
            }
            return None;
        }
        let entry = self.results.get(&h).unwrap();
        let eps = share_episodes(&entry.episodes);
        self.metrics.hits = self.metrics.hits + 1;
        Some(eps)
    }

    /// Records `h` under `domain` in the domain index.
    #[verifier::loop_isolation(false)]
    fn index_domain(&mut self, domain: String, h: u64)
        requires
            index_wf(old(self).domain_index@),
        ensures
            index_wf(final(self).domain_index@),
            domain_map(final(self).domain_index@) == domains_after_put(
                domain_map(old(self).domain_index@),
                Some(domain@),
                h,
            ),
            final(self).recency == old(self).recency,
            final(self).results == old(self).results,
            final(self).invalidated == old(self).invalidated,
            final(self).metrics == old(self).metrics,
            final(self).default_ttl == old(self).default_ttl,
            final(self).ttl_nanos == old(self).ttl_nanos,
            final(self).max_entries == old(self).max_entries,
    {
        let ghost v0 = self.domain_index@;
        let n = self.domain_index.len();
        let mut i: usize = 0;
        while i < n
            invariant
                n == self.domain_index.len(),
                self.domain_index@ == v0,
                i <= n,
                self.invalidated == old(self).invalidated,
                self.recency == old(self).recency,
                self.results == old(self).results,
                self.metrics == old(self).metrics,
                self.default_ttl == old(self).default_ttl,
                self.ttl_nanos == old(self).ttl_nanos,
                self.max_entries == old(self).max_entries,
                forall|j: int| 0 <= j < i ==> v0[j].domain@ != domain@,
            decreases n - i,
        {
            if str_eq(self.domain_index[i].domain.as_str(), domain.as_str()) {
                let mut entry = self.domain_index.remove(i);
                proof {
                    lemma_domain_map_at(v0, i as int);
                    lemma_domain_map_remove(v0, i as int);
                }
                let mut k: usize = 0;
                let mut seen = false;
                while k < entry.hashes.len()
                    invariant
                        k <= entry.hashes.len(),
                        !seen ==> forall|j: int| 0 <= j < k ==> entry.hashes@[j] != h,
                        seen ==> entry.hashes@.contains(h),
                    decreases entry.hashes.len() - k,
                {
                    if entry.hashes[k] == h {
                        seen = true;
                    }
                    k = k + 1;
                }
                let ghost hs0 = entry.hashes@;
                if !seen {
                    entry.hashes.push(h);
                    proof {
                        assert(!hs0.contains(h));
                        assert(entry.hashes@ =~= hs0.push(h));
                        crate::text::lemma_push_to_set(hs0, h);
                    }
                } else {
                    proof {
                        assert(hs0.to_set().insert(h) =~= hs0.to_set());
                    }
                }
                proof {
                    let w = v0.remove(i as int);
                    assert(!domain_map(w).contains_key(entry.domain@));
                    assert(entry.hashes@.no_duplicates()) by {
                        if !seen {
                            assert forall|a: int, b: int| 0 <= a < b < entry.hashes@.len() implies entry.hashes@[a]
                                != entry.hashes@[b] by {
                                if b == hs0.len() {
                                    assert(entry.hashes@[a] == hs0[a]);
                                }
                            }
                        }
                    }
                    lemma_domain_map_push(w, entry);
                }
                self.domain_index.push(entry);
                proof {
                    assert(self.domain_index@ =~= v0.remove(i as int).push(entry));
                    assert(domain_map(self.domain_index@) =~= domains_after_put(
                        domain_map(v0),
                        Some(domain@),
                        h,
                    ));
                }
                return;
            }
            i = i + 1;
        }
        let mut hashes: Vec<u64> = Vec::new();
        hashes.push(h);
        let entry = DomainHashes { domain, hashes };
        proof {
            assert(!domain_map(v0).contains_key(domain@));
            assert(entry.hashes@ =~= seq![h]);
            assert(seq![h].to_set() =~= set![h]) by {
                crate::text::lemma_push_to_set(Seq::<u64>::empty(), h);
                assert(Seq::<u64>::empty().push(h) =~= seq![h]);
            }
            lemma_domain_map_push(v0, entry);
        }
        self.domain_index.push(entry);
    }

    /// Stores a query result, replacing any result under the same key.
    pub fn put(&mut self, key: CacheKey, episodes: Vec<Episode>)
        requires
            old(self).wf(),
            old(self)@.metrics.evictions < u64::MAX,
        ensures
            final(self).wf(),
            put_post(old(self)@, final(self)@, key@, episodes),
    {
        let h = key.compute_hash();
        let ghost order0 = lru_order(self.recency);
        let ghost results0 = self.results@;
        let entry = CachedResult {
            episodes: Arc::new(episodes),
            cached_at: instant_now(),
            ttl: self.default_ttl,
            ttl_nanos: self.ttl_nanos,
        };
        let present = lru_contains(&self.recency, h);
        let len = lru_len(&self.recency);
        if len >= self.max_entries && !present {
            self.metrics.evictions = self.metrics.evictions + 1;
        }
        let replaced = lru_push(&mut self.recency, h);
        proof {
            lemma_inserted(order0, h, self.max_entries as nat);
        }
        match replaced {
            Some(old_key) => {
                if old_key != h {
                    self.results.remove(&old_key);
                    self.invalidated.remove(&old_key);
                }
            },
            None => {},
        }
        self.results.insert(h, entry);
        proof {
            let o1 = lru_order(self.recency);
            assert forall|x: u64| #[trigger] self.results@.contains_key(x) <==> o1.contains(x) by {
                if x != h {
                    assert(o1 == inserted(order0, h, self.max_entries as nat));
                }
            }
            assert(self.results@.dom() =~= o1.to_set());
        }
        self.metrics.size = lru_len(&self.recency);
        self.invalidated.remove(&h);
        match key.domain {
            Some(d) => {
                self.index_domain(d, h);
            },
            None => {},
        }
        proof {
            let o1 = lru_order(self.recency);
            let inv0 = old(self)@.invalidated;
            assert forall|x: u64| #[trigger] self@.invalidated.contains(x) <==> inv0.remove(h).intersect(
                o1.to_set(),
            ).contains(x) by {
                if x != h && inv0.contains(x) {
                    assert(order0.to_set().contains(x));
                    assert(order0.contains(x));
                    assert(o1 == inserted(order0, h, self.max_entries as nat));
                }
            }
            assert(self@.invalidated =~= inv0.remove(h).intersect(o1.to_set()));
        }
    }

    /// Removes every entry, mark and domain record.
    pub fn invalidate_all(&mut self)
        requires
            old(self).wf(),
            old(self)@.metrics.invalidations + old(self)@.order.len() <= u64::MAX,
        ensures
            final(self).wf(),
            invalidate_all_post(old(self)@, final(self)@),
    {
        let count = lru_len(&self.recency);
        lru_clear(&mut self.recency);
        self.results.clear();
        self.domain_index.clear();
        self.invalidated.clear();
        self.metrics.size = 0;
        self.metrics.invalidations = self.metrics.invalidations + count as u64;
        proof {
            assert(self.results@.dom() =~= lru_order(self.recency).to_set());
            assert(domain_map(self.domain_index@) =~= Map::<Seq<char>, Set<u64>>::empty());
            assert(self@.results =~= Map::<u64, CachedResult>::empty());
        }
    }

    /// Number of entries indexed under `domain` (0 for an unknown domain):
    /// how many invalidations marking the domain invalid counts.
    pub fn domain_entry_count(&self, domain: &str) -> (n: usize)
        requires
            self.wf(),
        ensures
            n == if self@.domains.contains_key(domain@) {
                self@.domains[domain@].len()
            } else {
                0
            },
    {
        let n = self.domain_index.len();
        let mut i: usize = 0;
        while i < n
            invariant
                self.wf(),
                n == self.domain_index.len(),
                i <= n,
                forall|j: int| 0 <= j < i ==> self.domain_index@[j].domain@ != domain@,
            decreases n - i,
        {
            if str_eq(self.domain_index[i].domain.as_str(), domain) {
                proof {
                    lemma_domain_map_at(self.domain_index@, i as int);
                    self.domain_index@[i as int].hashes@.unique_seq_to_set();
                }
                return self.domain_index[i].hashes.len();
            }
            i = i + 1;
        }
        proof {
            assert(!domain_map(self.domain_index@).contains_key(domain@));
        }
        0
    }

    /// Marks every entry stored under `domain` invalid.
    #[verifier::loop_isolation(false)]
    pub fn invalidate_domain(&mut self, domain: &str)
        requires
            old(self).wf(),
            old(self)@.domains.contains_key(domain@) ==> old(self)@.metrics.invalidations
                + old(self)@.domains[domain@].len() <= u64::MAX,
        ensures
            final(self).wf(),
            invalidate_domain_post(old(self)@, final(self)@, domain@),
    {
        let ghost v0 = self.domain_index@;
        let n = self.domain_index.len();
        let mut i: usize = 0;
        while i < n
            invariant
                n == self.domain_index.len(),
                self.domain_index@ == v0,
                i <= n,
                self.invalidated == old(self).invalidated,
                self.recency == old(self).recency,
                self.results == old(self).results,
                self.metrics == old(self).metrics,
                self.default_ttl == old(self).default_ttl,
                self.ttl_nanos == old(self).ttl_nanos,
                self.max_entries == old(self).max_entries,
                forall|j: int| 0 <= j < i ==> v0[j].domain@ != domain@,
            decreases n - i,
        {
            if str_eq(self.domain_index[i].domain.as_str(), domain) {
                let entry = self.domain_index.remove(i);
                proof {
                    lemma_domain_map_at(v0, i as int);
                    lemma_domain_map_remove(v0, i as int);
                    entry.hashes@.unique_seq_to_set();
                }
                let ghost inv0 = self.invalidated@;
                let m = entry.hashes.len();
                let mut k: usize = 0;
                while k < m
                    invariant
                        m == entry.hashes.len(),
                        k <= m,
                        self.domain_index@ == v0.remove(i as int),
                        self.recency == old(self).recency,
                        self.results == old(self).results,
                        self.metrics == old(self).metrics,
                        self.default_ttl == old(self).default_ttl,
                        self.ttl_nanos == old(self).ttl_nanos,
                        self.max_entries == old(self).max_entries,
                        self.invalidated@ == inv0.union(
                            entry.hashes@.take(k as int).to_set().intersect(self.results@.dom()),
                        ),
                    decreases m - k,
                {
                    let x = entry.hashes[k];
                    if self.results.contains_key(&x) {
                        self.invalidated.insert(x);
                    }
                    proof {
                        assert(entry.hashes@.take(k + 1) =~= entry.hashes@.take(k as int).push(entry.hashes@[k as int]));
                        crate::text::lemma_push_to_set(entry.hashes@.take(k as int), entry.hashes@[k as int]);
                        assert(self.invalidated@ =~= inv0.union(
                            entry.hashes@.take(k + 1).to_set().intersect(self.results@.dom()),
                        ));
                    }
                    k = k + 1;
                }
                proof {
                    assert(entry.hashes@.take(m as int) =~= entry.hashes@);
                }
                self.metrics.invalidations = self.metrics.invalidations + m as u64;
                return;
            }
            i = i + 1;
        }
        proof {
            assert(!domain_map(v0).contains_key(domain@));
        }
    }

    /// Current counters.
    pub fn metrics(&self) -> (m: CacheMetrics)
        ensures
            m == self@.metrics,
    {
        self.metrics
    }

    /// Resets the counters, keeping the capacity.
    pub fn clear_metrics(&mut self)
        requires
            old(self).wf(),
        ensures
            final(self).wf(),
            final(self)@ == (CacheModel {
                metrics: CacheMetrics::with_capacity_spec(old(self)@.capacity as usize),
                ..old(self)@
            }),
    {
        self.metrics = CacheMetrics::with_capacity(self.max_entries);
    }

    /// Number of entries held, including ones marked invalid.
    pub fn size(&self) -> (n: usize)
        ensures
            n == self@.order.len(),
    {
        lru_len(&self.recency)
    }

    /// Number of held entries that are not marked invalid: the entries a
    /// lookup can still give back.
    pub fn effective_size(&self) -> (n: usize)
        requires
            self.wf(),
        ensures
            n == self@.order.to_set().difference(self@.invalidated).len(),
    {
        proof {
            let held = self@.order.to_set();
            let marks = self@.invalidated;
            self@.order.unique_seq_to_set();
            vstd::set_lib::lemma_set_difference_len(held, marks);
            assert(held.intersect(marks) =~= marks);
        }
        let held = lru_len(&self.recency);
        let marked = self.invalidated.len();
        held - marked
    }

    /// Whether no entry is held.
    pub fn is_empty(&self) -> (b: bool)
        ensures
            b == (self@.order.len() == 0),
    {
        lru_len(&self.recency) == 0
    }
}

} // verus!
