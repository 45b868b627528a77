//! Local tier selection and tier accounting of the cascading retrieval
//! pipeline: which CPU-local tier answers a query, which tiers a result
//! reports, and how many tier-4 calls it counts.

use vstd::prelude::*;

use crate::cascade::{fallback_spec, FallbackPolicy, FallbackReason};
use crate::text::{contains_string, lowercase, push_str, split_whitespace, to_lowercase, words};

verus! {

/// What the local tiers found for one query.
#[derive(Debug, Clone, Copy)]
pub struct TierSignals {
    /// The BM25 tier has enough results, one of them above its threshold.
    pub bm25_sufficient: bool,
    /// The BM25 tier found anything.
    pub bm25_nonempty: bool,
    /// Results of the BM25 and HDC tiers are merged.
    pub merge_results: bool,
    /// Number of merged BM25 and HDC results.
    pub merged_count: usize,
    /// Minimum number of results a tier needs.
    pub min_results: usize,
    /// The HDC tier has enough results, one of them above its threshold.
    pub hdc_sufficient: bool,
    /// The concept graph tier is enabled.
    pub concept_expansion: bool,
    /// The concept graph tier has enough results.
    pub concept_sufficient: bool,
}

/// A CPU-local tier (or pair of tiers) that answers a query.
#[derive(Debug, Clone, Copy, PartialEq, Eq, Structural)]
pub enum LocalTier {
    /// BM25 keyword search.
    Bm25,
    /// BM25 and HDC results merged.
    Bm25Hdc,
    /// HDC similarity search.
    Hdc,
    /// Concept graph expansion.
    ConceptGraph,
}

/// The concept graph tier, when it is enabled and sufficient.
pub open spec fn concept_choice(s: TierSignals) -> Option<LocalTier> {
    if s.concept_expansion && s.concept_sufficient {
        Some(LocalTier::ConceptGraph)
    } else {
        None
    }
}

/// The tier that answers a query, tiers taken in order: a sufficient BM25
/// tier; with merging and some BM25 result, the merged results when there
/// are enough of them; without, a sufficient HDC tier; then an enabled and
/// sufficient concept graph tier. `None` leaves the query to the tier-4
/// fallback.
pub open spec fn tier_choice(s: TierSignals) -> Option<LocalTier> {
    if s.bm25_sufficient {
        Some(LocalTier::Bm25)
    } else if s.merge_results && s.bm25_nonempty {
        if s.merged_count >= s.min_results {
            Some(LocalTier::Bm25Hdc)
        } else {
            concept_choice(s)
        }
    } else if s.hdc_sufficient {
        Some(LocalTier::Hdc)
    } else {
        concept_choice(s)
    }
}

/// Selects the local tier that answers a query, if any.
pub fn select_local_tier(s: &TierSignals) -> (r: Option<LocalTier>)
    ensures
        r == tier_choice(*s),
{
    if s.bm25_sufficient {
        return Some(LocalTier::Bm25);
    }
    if s.merge_results && s.bm25_nonempty {
        if s.merged_count >= s.min_results {
            return Some(LocalTier::Bm25Hdc);
        }
    } else if s.hdc_sufficient {
        return Some(LocalTier::Hdc);
    }
    if s.concept_expansion && s.concept_sufficient {
        Some(LocalTier::ConceptGraph)
    } else {
        None
    }
}

/// The tier names a local tier reports.
pub open spec fn tier_names(t: LocalTier) -> Seq<Seq<char>> {
    match t {
        LocalTier::Bm25 => seq!["bm25"@],
        LocalTier::Bm25Hdc => seq!["bm25"@, "hdc"@],
        LocalTier::Hdc => seq!["hdc"@],
        LocalTier::ConceptGraph => seq!["concept_graph"@],
    }
}

fn name(t: &str) -> (r: String)
    ensures
        r@ == t@,
{
    let mut s = String::new();
    push_str(&mut s, t);
    s
}

impl LocalTier {
    /// The tier names this tier reports as contributing.
    pub fn names(&self) -> (r: Vec<String>)
        ensures
            r.deep_view() == tier_names(*self),
    {
        let mut v: Vec<String> = Vec::new();
        match self {
            LocalTier::Bm25 => v.push(name("bm25")),
            LocalTier::Bm25Hdc => {
                v.push(name("bm25"));
                v.push(name("hdc"));
            },
            LocalTier::Hdc => v.push(name("hdc")),
            LocalTier::ConceptGraph => v.push(name("concept_graph")),
        }
        proof {
            assert(v.deep_view() =~= tier_names(*self));
        }
        v
    }
}

/// Which local results a query left to the fallback carries.
#[derive(Debug, Clone, Copy, PartialEq, Eq, Structural)]
pub enum FallbackSource {
    /// The merged BM25 and HDC results.
    Merged,
    /// The HDC results.
    Hdc,
    /// The BM25 results.
    Bm25,
}

/// The best available local results for the fallback: merged when merging,
/// otherwise HDC when it found anything, otherwise BM25.
pub fn fallback_source(merge_results: bool, hdc_nonempty: bool) -> (r: FallbackSource)
    ensures
        r == if merge_results {
            FallbackSource::Merged
        } else if hdc_nonempty {
            FallbackSource::Hdc
        } else {
            FallbackSource::Bm25
        },
{
    if merge_results {
        FallbackSource::Merged
    } else if hdc_nonempty {
        FallbackSource::Hdc
    } else {
        FallbackSource::Bm25
    }
}

/// The tiers a result reports, the tier-4 calls it counts and why.
#[derive(Debug, Clone)]
pub struct TierAccounting {
    /// Contributing tier names.
    pub tiers: Vec<String>,
    /// Number of tier-4 calls counted (0 or 1).
    pub api_calls: u32,
    /// Why tier 4 was or was not counted.
    pub reason: FallbackReason,
}

/// Accounting of a query a local tier answered: the always-embed policy
/// still counts a tier-4 call (and reports the `api` tier); every other
/// policy counts none.
pub open spec fn sufficient_spec(tiers: Seq<Seq<char>>, policy: FallbackPolicy) -> (
    Seq<Seq<char>>,
    u32,
    FallbackReason,
) {
    if policy == FallbackPolicy::AlwaysEmbed {
        (tiers.push("api"@), 1, FallbackReason::AlwaysEmbedPolicy)
    } else {
        (tiers, 0, FallbackReason::LocalTierSufficient)
    }
}

/// Accounts a query a local tier answered.
pub fn sufficient_accounting(tiers: Vec<String>, policy: FallbackPolicy) -> (a: TierAccounting)
    ensures
        (a.tiers.deep_view(), a.api_calls, a.reason) == sufficient_spec(tiers.deep_view(), policy),
{
    let ghost before = tiers.deep_view();
    let mut tiers = tiers;
    if policy == FallbackPolicy::AlwaysEmbed {
        tiers.push(name("api"));
        proof {
            assert(tiers.deep_view() =~= before.push("api"@));
        }
        TierAccounting { tiers, api_calls: 1, reason: FallbackReason::AlwaysEmbedPolicy }
    } else {
        TierAccounting { tiers, api_calls: 0, reason: FallbackReason::LocalTierSufficient }
    }
}

/// The tiers a query left to the fallback reports: the local tiers that
/// found anything, then `api_fallback_needed` when a tier-4 call is counted
/// over non-empty results; `none` when a call is counted over no results,
/// or when no call is counted and no tier found anything.
pub open spec fn fallback_names(bm25_nonempty: bool, hdc_nonempty: bool, api_calls: u32, best_empty: bool) -> Seq<
    Seq<char>,
> {
    let local = if bm25_nonempty {
        seq!["bm25"@]
    } else {
        seq![]
    } + if hdc_nonempty {
        seq!["hdc"@]
    } else {
        seq![]
    };
    if api_calls == 1 {
        if best_empty {
            seq!["none"@]
        } else {
            local.push("api_fallback_needed"@)
        }
    } else if local.len() == 0 {
        seq!["none"@]
    } else {
        local
    }
}

/// The contributing tier names of a query left to the fallback.
pub fn fallback_tiers(bm25_nonempty: bool, hdc_nonempty: bool, api_calls: u32, best_empty: bool) -> (r: Vec<
    String,
>)
    ensures
        r.deep_view() == fallback_names(bm25_nonempty, hdc_nonempty, api_calls, best_empty),
{
    let mut tiers: Vec<String> = Vec::new();
    if bm25_nonempty {
        tiers.push(name("bm25"));
    }
    if hdc_nonempty {
        tiers.push(name("hdc"));
    }
    let ghost local = tiers.deep_view();
    proof {
        assert(local =~= (if bm25_nonempty {
            seq!["bm25"@]
        } else {
            seq![]
        } + if hdc_nonempty {
            seq!["hdc"@]
        } else {
            seq![]
        }));
    }
    if api_calls == 1 {
        if best_empty {
            let mut none: Vec<String> = Vec::new();
            none.push(name("none"));
            proof {
                assert(none.deep_view() =~= seq!["none"@]);
            }
            return none;
        }
        tiers.push(name("api_fallback_needed"));
        proof {
            assert(tiers.deep_view() =~= local.push("api_fallback_needed"@));
        }
        tiers
    } else if tiers.len() == 0 {
        let mut none: Vec<String> = Vec::new();
        none.push(name("none"));
        proof {
            assert(none.deep_view() =~= seq!["none"@]);
        }
        none
    } else {
        tiers
    }
}

/// Every cascade result names at least one contributing tier, and the
/// local-only policy never counts a tier-4 call, whether a local tier
/// answered the query or it was left to the fallback; a query a local tier
/// answered counts a call only under the always-embed policy.
pub proof fn law_cascade_accounting(
    t: LocalTier,
    policy: FallbackPolicy,
    bm25_nonempty: bool,
    hdc_nonempty: bool,
    has_results: bool,
    confident: bool,
)
    ensures
        sufficient_spec(tier_names(t), policy).0.len() > 0,
        fallback_names(bm25_nonempty, hdc_nonempty, fallback_spec(policy, has_results, confident).0, !has_results).len()
            > 0,
        policy == FallbackPolicy::LocalOnly ==> sufficient_spec(tier_names(t), policy).1 == 0 && fallback_spec(
            policy,
            has_results,
            confident,
        ).0 == 0,
        sufficient_spec(tier_names(t), policy).1 == 1 <==> policy == FallbackPolicy::AlwaysEmbed,
{
}

/// Number of terms that are whole words of the lowercase text.
pub open spec fn term_match_count(terms: Seq<Seq<char>>, text: Seq<char>) -> nat {
    terms.filter(|t: Seq<char>| words(lowercase(text)).contains(t)).len()
}

/// How many of the expanded concept terms occur as whole words of the
/// lowercase text; the concept graph tier scores a text by this count over
/// the number of terms.
pub fn count_term_matches(terms: &Vec<String>, text: &str) -> (n: usize)
    ensures
        n == term_match_count(terms.deep_view(), text@),
{
    let lower = to_lowercase(text);
    let text_words = split_whitespace(lower.as_str());
    let ghost tv = terms.deep_view();
    let ghost p = |t: Seq<char>| words(lowercase(text@)).contains(t);
    let mut n: usize = 0;
    let mut i: usize = 0;
    while i < terms.len()
        invariant
            i <= terms.len(),
            tv == terms.deep_view(),
            text_words.deep_view() == words(lowercase(text@)),
            p == (|t: Seq<char>| words(lowercase(text@)).contains(t)),
            n == tv.take(i as int).filter(p).len(),
            n <= i,
        decreases terms.len() - i,
    {
        proof {
            tv.take(i as int).lemma_filter_len_push(p, tv[i as int]);
            assert(tv.take(i as int).push(tv[i as int]) =~= tv.take(i + 1));
        }
        assert(tv[i as int] == terms@[i as int]@);
        if contains_string(&text_words, terms[i].as_str()) {
            n = n + 1;
        }
        i = i + 1;
    }
    assert(tv.take(terms.len() as int) =~= tv);
    n
}

/// Which tier answers, and exactly when: BM25 when it is sufficient; the
/// merged BM25 and HDC results when merging, BM25 found something and there
/// are enough merged results; HDC when not merging BM25 results and HDC is
/// sufficient; the concept graph, when enabled and sufficient, for every
/// query no earlier tier answered; no tier otherwise.
pub proof fn law_tier_choice_exactly(s: TierSignals)
    ensures
        tier_choice(s) == Some(LocalTier::Bm25) <==> s.bm25_sufficient,
        tier_choice(s) == Some(LocalTier::Bm25Hdc) <==> !s.bm25_sufficient && s.merge_results && s.bm25_nonempty
            && s.merged_count >= s.min_results,
        tier_choice(s) == Some(LocalTier::Hdc) <==> !s.bm25_sufficient && !(s.merge_results && s.bm25_nonempty)
            && s.hdc_sufficient,
        tier_choice(s) == Some(LocalTier::ConceptGraph) <==> !s.bm25_sufficient && !(s.merge_results
            && s.bm25_nonempty && s.merged_count >= s.min_results) && !(!(s.merge_results && s.bm25_nonempty)
            && s.hdc_sufficient) && s.concept_expansion && s.concept_sufficient,
        tier_choice(s) is None <==> !s.bm25_sufficient && !(s.merge_results && s.bm25_nonempty
            && s.merged_count >= s.min_results) && !(!(s.merge_results && s.bm25_nonempty) && s.hdc_sufficient)
            && !(s.concept_expansion && s.concept_sufficient),
{
}

} // verus!
