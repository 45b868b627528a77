//! Cache keys, cached entries and cache metrics.
//!
//! A key's identity covers every field that affects ranking, so that
//! context-distinct requests never share a cache entry. Optional filters are
//! trimmed and an empty filter counts as no filter; tags are trimmed, empty
//! tags dropped, and the rest sorted and deduplicated, so that order and
//! duplicates cannot create distinct keys.

use std::collections::hash_map::DefaultHasher;
use std::hash::{Hash, Hasher};
use std::sync::Arc;
use std::time::{Duration, Instant};
use vstd::prelude::*;

use crate::text::{sort_dedup_strings, strictly_sorted, trim, trim_chars};

verus! {

/// Default maximum number of cached queries.
pub const DEFAULT_MAX_ENTRIES: usize = 10_000;

/// Seconds a cached query result stays fresh by default.
pub const DEFAULT_CACHE_TTL_SECS: u64 = 60;

/// The retrieval-facing fields of an episode: its identifier, the task
/// description that gist extraction reads and its start time.
#[derive(Debug, Clone)]
pub struct Episode {
    /// Episode identifier.
    pub episode_id: String,
    /// Description of the task the episode worked on.
    pub task_description: String,
    /// When the episode started, in seconds since the Unix epoch.
    pub start_time: i64,
}

/// Task complexity level.
#[derive(Debug, Clone, Copy, PartialEq, Eq, Hash)]
pub enum ComplexityLevel {
    Simple,
    Moderate,
    Complex,
}

/// Stable string key of a complexity level.
pub open spec fn complexity_key_spec(level: ComplexityLevel) -> Seq<char> {
    match level {
        ComplexityLevel::Simple => seq!['S', 'i', 'm', 'p', 'l', 'e'],
        ComplexityLevel::Moderate => seq!['M', 'o', 'd', 'e', 'r', 'a', 't', 'e'],
        ComplexityLevel::Complex => seq!['C', 'o', 'm', 'p', 'l', 'e', 'x'],
    }
}

/// Stable string key for a complexity level's identity.
pub fn complexity_level_key(level: ComplexityLevel) -> (r: String)
    ensures
        r@ == complexity_key_spec(level),
{
    let mut s = String::new();
    match level {
        ComplexityLevel::Simple => {
            crate::text::push_char(&mut s, 'S');
            crate::text::push_char(&mut s, 'i');
            crate::text::push_char(&mut s, 'm');
            crate::text::push_char(&mut s, 'p');
            crate::text::push_char(&mut s, 'l');
            crate::text::push_char(&mut s, 'e');
        },
        ComplexityLevel::Moderate => {
            crate::text::push_char(&mut s, 'M');
            crate::text::push_char(&mut s, 'o');
            crate::text::push_char(&mut s, 'd');
            crate::text::push_char(&mut s, 'e');
            crate::text::push_char(&mut s, 'r');
            crate::text::push_char(&mut s, 'a');
            crate::text::push_char(&mut s, 't');
            crate::text::push_char(&mut s, 'e');
        },
        ComplexityLevel::Complex => {
            crate::text::push_char(&mut s, 'C');
            crate::text::push_char(&mut s, 'o');
            crate::text::push_char(&mut s, 'm');
            crate::text::push_char(&mut s, 'p');
            crate::text::push_char(&mut s, 'l');
            crate::text::push_char(&mut s, 'e');
            crate::text::push_char(&mut s, 'x');
        },
    }
    assert(s@ =~= complexity_key_spec(level));
    s
}

/// Context of a task: the fields that affect ranking.
#[derive(Debug, Clone)]
pub struct TaskContext {
    /// Task domain.
    pub domain: String,
    /// Programming language, if known.
    pub language: Option<String>,
    /// Framework, if known.
    pub framework: Option<String>,
    /// Complexity level.
    pub complexity: ComplexityLevel,
    /// Free-form tags.
    pub tags: Vec<String>,
}

/// The characters of an optional string.
pub open spec fn opt_view(o: Option<String>) -> Option<Seq<char>> {
    match o {
        Some(s) => Some(s@),
        None => None,
    }
}

/// An optional filter after normalization: trimmed, and `None` when empty.
pub open spec fn normalized_filter(o: Option<Seq<char>>) -> Option<Seq<char>> {
    match o {
        Some(s) => if trim(s).len() == 0 {
            None
        } else {
            Some(trim(s))
        },
        None => None,
    }
}

/// Trims an optional filter and treats an empty one as absent.
pub fn normalize_optional(value: Option<String>) -> (r: Option<String>)
    ensures
        opt_view(r) == normalized_filter(opt_view(value)),
{
    match value {
        Some(s) => {
            let t = trim_chars(s.as_str());
            if t.as_str().is_empty() {
                None
            } else {
                Some(t)
            }
        },
        None => None,
    }
}

/// The set of normalized tags: trimmed and non-empty.
pub open spec fn normalized_tag_set(tags: Seq<Seq<char>>) -> Set<Seq<char>> {
    Set::new(|t: Seq<char>| exists|i: int| 0 <= i < tags.len() && trim(tags[i]) == t && t.len() > 0)
}

/// Canonical tag list: the normalized tags, strictly increasing (so sorted
/// and without duplicates).
pub open spec fn is_canonical_tags(r: Seq<Seq<char>>, tags: Seq<Seq<char>>) -> bool {
    strictly_sorted(r) && r.to_set() == normalized_tag_set(tags)
}

/// Canonical tag normalization for cache identity: tags are trimmed, empty
/// entries removed, sorted, and deduplicated, so that order and duplicates
/// cannot create distinct cache entries.
pub fn normalize_tags(tags: Vec<String>) -> (r: Vec<String>)
    ensures
        is_canonical_tags(r.deep_view(), tags.deep_view()),
{
    let mut kept: Vec<String> = Vec::new();
    let n = tags.len();
    let mut i: usize = 0;
    while i < n
        invariant
            n == tags.len(),
            i <= n,
            kept.deep_view().to_set() == Set::new(
                |t: Seq<char>|
                    exists|j: int| 0 <= j < i && trim(tags.deep_view()[j]) == t && t.len() > 0,
            ),
        decreases n - i,
    {
        let t = trim_chars(tags[i].as_str());
        let ghost before = kept.deep_view();
        let ghost tv = tags.deep_view();
        if !t.as_str().is_empty() {
            kept.push(t);
            proof {
                crate::text::lemma_push_to_set(before, t@);
                assert(kept.deep_view() =~= before.push(t@));
            }
        }
        proof {
            assert(kept.deep_view().to_set() =~= Set::new(
                |x: Seq<char>| exists|j: int| 0 <= j < i + 1 && trim(tv[j]) == x && x.len() > 0,
            )) by {
                assert forall|x: Seq<char>| kept.deep_view().to_set().contains(x) <==> (exists|j: int|
                    0 <= j < i + 1 && trim(tv[j]) == x && x.len() > 0) by {
                    if exists|j: int| 0 <= j < i + 1 && trim(tv[j]) == x && x.len() > 0 {
                        let j = choose|j: int| 0 <= j < i + 1 && trim(tv[j]) == x && x.len() > 0;
                        if j < i {
                            assert(before.to_set().contains(x));
                        } else {
                            assert(t@ == x);
                            assert(kept.deep_view()[kept.deep_view().len() - 1] == x);
                        }
                    }
                    if kept.deep_view().to_set().contains(x) {
                        if before.to_set().contains(x) {
                        } else {
                            assert(x == t@);
                            assert(trim(tv[i as int]) == x);
                        }
                    }
                }
            }
        }
        i = i + 1;
    }
    let r = sort_dedup_strings(kept);
    proof {
        assert(normalized_tag_set(tags.deep_view()) =~= Set::new(
            |t: Seq<char>| exists|j: int| 0 <= j < n && trim(tags.deep_view()[j]) == t && t.len() > 0,
        ));
    }
    r
}

/// Tag order and duplicates never create distinct cache keys: tag lists
/// with the same trimmed, non-empty tags normalize to the same list.
pub proof fn law_tag_order_irrelevant(
    r1: Seq<Seq<char>>,
    tags1: Seq<Seq<char>>,
    r2: Seq<Seq<char>>,
    tags2: Seq<Seq<char>>,
)
    requires
        is_canonical_tags(r1, tags1),
        is_canonical_tags(r2, tags2),
        normalized_tag_set(tags1) == normalized_tag_set(tags2),
    ensures
        r1 == r2,
{
    crate::text::lemma_strictly_sorted_unique(r1, r2);
}

/// Abstract value of a cache key.
pub struct CacheKeyView {
    pub query: Seq<char>,
    pub domain: Option<Seq<char>>,
    pub language: Option<Seq<char>>,
    pub framework: Option<Seq<char>>,
    pub complexity: Option<Seq<char>>,
    pub tags: Seq<Seq<char>>,
    pub task_type: Option<Seq<char>>,
    pub time_start: Option<i64>,
    pub time_end: Option<i64>,
    pub limit: usize,
}

/// Cache key combining every query parameter that affects ranking.
#[derive(Debug, Clone, PartialEq, Eq, Hash)]
pub struct CacheKey {
    /// Query text or description.
    pub query: String,
    /// Task domain filter.
    pub domain: Option<String>,
    /// Programming language filter.
    pub language: Option<String>,
    /// Framework filter.
    pub framework: Option<String>,
    /// Complexity level as a stable string.
    pub complexity: Option<String>,
    /// Normalized tags (trimmed, non-empty, sorted, deduplicated).
    pub tags: Vec<String>,
    /// Task type filter.
    pub task_type: Option<String>,
    /// Time range start (unix timestamp).
    pub time_start: Option<i64>,
    /// Time range end (unix timestamp).
    pub time_end: Option<i64>,
    /// Maximum results to return.
    pub limit: usize,
}

impl View for CacheKey {
    type V = CacheKeyView;

    open spec fn view(&self) -> CacheKeyView {
        CacheKeyView {
            query: self.query@,
            domain: opt_view(self.domain),
            language: opt_view(self.language),
            framework: opt_view(self.framework),
            complexity: opt_view(self.complexity),
            tags: self.tags.deep_view(),
            task_type: opt_view(self.task_type),
            time_start: self.time_start,
            time_end: self.time_end,
            limit: self.limit,
        }
    }
}

/// Name for the 64-bit hash that `DefaultHasher` computes over a key's
/// fields (stable within one build of the library).
pub uninterp spec fn key_hash(k: CacheKeyView) -> u64;

impl CacheKey {
    /// A key for `query` with no filters and a limit of 10.
    pub fn new(query: String) -> (k: Self)
        ensures
            k@ == (CacheKeyView {
                query: query@,
                domain: None,
                language: None,
                framework: None,
                complexity: None,
                tags: seq![],
                task_type: None,
                time_start: None,
                time_end: None,
                limit: 10,
            }),
    {
        let k = CacheKey {
            query,
            domain: None,
            language: None,
            framework: None,
            complexity: None,
            tags: Vec::new(),
            task_type: None,
            time_start: None,
            time_end: None,
            limit: 10,
        };
        assert(k.tags.deep_view() =~= seq![]);
        k
    }

    /// Sets the domain filter (trimmed; empty means none).
    pub fn with_domain(self, domain: Option<String>) -> (k: Self)
        ensures
            k@ == (CacheKeyView { domain: normalized_filter(opt_view(domain)), ..self@ }),
    {
        CacheKey { domain: normalize_optional(domain), ..self }
    }

    /// Sets the programming language filter (trimmed; empty means none).
    pub fn with_language(self, language: Option<String>) -> (k: Self)
        ensures
            k@ == (CacheKeyView { language: normalized_filter(opt_view(language)), ..self@ }),
    {
        CacheKey { language: normalize_optional(language), ..self }
    }

    /// Sets the framework filter (trimmed; empty means none).
    pub fn with_framework(self, framework: Option<String>) -> (k: Self)
        ensures
            k@ == (CacheKeyView { framework: normalized_filter(opt_view(framework)), ..self@ }),
    {
        CacheKey { framework: normalize_optional(framework), ..self }
    }

    /// Sets the complexity filter from a stable string (trimmed; empty means
    /// none).
    pub fn with_complexity(self, complexity: Option<String>) -> (k: Self)
        ensures
            k@ == (CacheKeyView { complexity: normalized_filter(opt_view(complexity)), ..self@ }),
    {
        CacheKey { complexity: normalize_optional(complexity), ..self }
    }

    /// Sets the complexity filter from a [`ComplexityLevel`].
    pub fn with_complexity_level(self, complexity: ComplexityLevel) -> (k: Self)
        ensures
            k@ == (CacheKeyView {
                complexity: normalized_filter(Some(complexity_key_spec(complexity))),
                ..self@
            }),
    {
        let key = complexity_level_key(complexity);
        self.with_complexity(Some(key))
    }

    /// Sets the tags after canonical normalization.
    pub fn with_tags(self, tags: Vec<String>) -> (k: Self)
        ensures
            is_canonical_tags(k@.tags, tags.deep_view()),
            k@ == (CacheKeyView { tags: k@.tags, ..self@ }),
    {
        CacheKey { tags: normalize_tags(tags), ..self }
    }

    /// Includes every ranking-affecting field of a task context.
    pub fn with_task_context(self, context: &TaskContext) -> (k: Self)
        ensures
            k@.domain == normalized_filter(Some(context.domain@)),
            k@.language == normalized_filter(opt_view(context.language)),
            k@.framework == normalized_filter(opt_view(context.framework)),
            k@.complexity == normalized_filter(Some(complexity_key_spec(context.complexity))),
            is_canonical_tags(k@.tags, context.tags.deep_view()),
            k@.query == self@.query,
            k@.task_type == self@.task_type,
            k@.time_start == self@.time_start,
            k@.time_end == self@.time_end,
            k@.limit == self@.limit,
    {
        self.with_domain(Some(context.domain.clone())).with_language(
            context.language.clone(),
        ).with_framework(context.framework.clone()).with_complexity_level(
            context.complexity,
        ).with_tags(context.tags.clone())
    }

    /// Sets the task type filter (trimmed; empty means none).
    pub fn with_task_type(self, task_type: Option<String>) -> (k: Self)
        ensures
            k@ == (CacheKeyView { task_type: normalized_filter(opt_view(task_type)), ..self@ }),
    {
        CacheKey { task_type: normalize_optional(task_type), ..self }
    }

    /// Sets the time range filter.
    pub fn with_time_range(self, start: Option<i64>, end: Option<i64>) -> (k: Self)
        ensures
            k@ == (CacheKeyView { time_start: start, time_end: end, ..self@ }),
    {
        CacheKey { time_start: start, time_end: end, ..self }
    }

    /// Sets the result limit.
    pub fn with_limit(self, limit: usize) -> (k: Self)
        ensures
            k@ == (CacheKeyView { limit, ..self@ }),
    {
        CacheKey { limit, ..self }
    }

    /// `DefaultHasher` over the key's fields (the derived `Hash`); the result
    /// is named by [`key_hash`] and depends on the key's value alone.
    #[verifier::external_body]
    pub fn compute_hash(&self) -> (h: u64)
        ensures
            h == key_hash(self@),
    {
        let mut hasher = DefaultHasher::new();
        Hash::hash(self, &mut hasher);
        hasher.finish()
    }
}

/// Cache counters for monitoring.
#[derive(Debug, Clone, Copy)]
pub struct CacheMetrics {
    /// Total cache hits.
    pub hits: u64,
    /// Total cache misses.
    pub misses: u64,
    /// Total cache evictions.
    pub evictions: u64,
    /// Total cache invalidations.
    pub invalidations: u64,
    /// Current cache size (number of entries).
    pub size: usize,
    /// Maximum cache capacity.
    pub capacity: usize,
}

/// The cache counts as effective when at least 40% of lookups hit.
pub open spec fn effective(m: CacheMetrics) -> bool {
    m.hits + m.misses > 0 && 5 * m.hits >= 2 * (m.hits + m.misses)
}

impl CacheMetrics {
    /// Counters of an empty cache with the given capacity.
    pub open spec fn with_capacity_spec(capacity: usize) -> CacheMetrics {
        CacheMetrics { hits: 0, misses: 0, evictions: 0, invalidations: 0, size: 0, capacity }
    }

    /// Metrics of an empty cache with the given capacity.
    pub fn with_capacity(capacity: usize) -> (m: Self)
        ensures
            m == Self::with_capacity_spec(capacity),
    {
        CacheMetrics { hits: 0, misses: 0, evictions: 0, invalidations: 0, size: 0, capacity }
    }

    /// Whether the hit rate is at least 40% (no lookups: not effective).
    pub fn is_effective(&self) -> (b: bool)
        ensures
            b == effective(*self),
    {
        let hits = self.hits as u128;
        let total = hits + self.misses as u128;
        total > 0 && 5 * hits >= 2 * total
    }
}

/// A cached query result with the time it was stored and its time-to-live.
pub struct CachedResult {
    /// Cached episodes, shared without copying.
    pub episodes: Arc<Vec<Episode>>,
    /// When this entry was cached.
    pub cached_at: Instant,
    /// Time-to-live of this entry.
    pub ttl: Duration,
    /// Time-to-live of this entry in nanoseconds; the entry has expired once
    /// at least this much time has passed since `cached_at`.
    pub ttl_nanos: u128,
}

#[verifier::external_type_specification]
#[verifier::external_body]
pub struct ExInstant(Instant);

/// `Instant::now`: the current time; nothing is stated of its value.
#[verifier::external_body]
pub(crate) fn instant_now() -> Instant {
    Instant::now()
}

/// `Duration::from_secs`; the value is carried through and never inspected
/// by verified code, so nothing is stated of it.
#[verifier::external_body]
pub(crate) fn duration_from_secs(secs: u64) -> Duration {
    Duration::from_secs(secs)
}

/// `Instant::elapsed`: the time passed since `i`. It depends on the clock,
/// so nothing is stated of it.
#[verifier::external_body]
pub(crate) fn instant_elapsed(i: &Instant) -> Duration {
    i.elapsed()
}

/// Name for what `Duration::as_nanos` returns: the duration's length in
/// nanoseconds.
pub uninterp spec fn duration_nanos(d: Duration) -> u128;

/// `Duration::as_nanos`: the duration's length in nanoseconds, named by
/// [`duration_nanos`]; it depends on the duration alone.
#[verifier::external_body]
pub(crate) fn duration_as_nanos(d: &Duration) -> (r: u128)
    ensures
        r == duration_nanos(*d),
{
    d.as_nanos()
}

/// `Arc::clone`: another pointer to the same allocation, so the same value.
#[verifier::external_body]
pub(crate) fn share_episodes(a: &Arc<Vec<Episode>>) -> (r: Arc<Vec<Episode>>)
    ensures
        r == *a,
{
    Arc::clone(a)
}

} // verus!
