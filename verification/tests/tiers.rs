//! Local tier selection, tier accounting and concept term matching.

use memory_core::cascade::{FallbackPolicy, FallbackReason};
use memory_core::tiers::{
    count_term_matches, fallback_source, fallback_tiers, select_local_tier, sufficient_accounting, FallbackSource,
    LocalTier, TierSignals,
};

fn signals() -> TierSignals {
    TierSignals {
        bm25_sufficient: false,
        bm25_nonempty: false,
        merge_results: true,
        merged_count: 0,
        min_results: 3,
        hdc_sufficient: false,
        concept_expansion: true,
        concept_sufficient: false,
    }
}

fn strings(v: &[&str]) -> Vec<String> {
    v.iter().map(|s| s.to_string()).collect()
}

#[test]
fn sufficient_bm25_answers_first() {
    let s = TierSignals { bm25_sufficient: true, hdc_sufficient: true, concept_sufficient: true, ..signals() };
    assert_eq!(select_local_tier(&s), Some(LocalTier::Bm25));
}

#[test]
fn merged_results_answer_when_enough() {
    let s = TierSignals { bm25_nonempty: true, merged_count: 3, ..signals() };
    assert_eq!(select_local_tier(&s), Some(LocalTier::Bm25Hdc));
    let few = TierSignals { bm25_nonempty: true, merged_count: 2, hdc_sufficient: true, ..signals() };
    assert_eq!(select_local_tier(&few), None, "a merged path never falls back to HDC alone");
}

#[test]
fn hdc_answers_without_bm25_results() {
    let s = TierSignals { hdc_sufficient: true, ..signals() };
    assert_eq!(select_local_tier(&s), Some(LocalTier::Hdc));
    let unmerged = TierSignals { merge_results: false, bm25_nonempty: true, hdc_sufficient: true, ..signals() };
    assert_eq!(select_local_tier(&unmerged), Some(LocalTier::Hdc));
}

#[test]
fn concept_graph_answers_last_and_only_when_enabled() {
    let s = TierSignals { concept_sufficient: true, ..signals() };
    assert_eq!(select_local_tier(&s), Some(LocalTier::ConceptGraph));
    let disabled = TierSignals { concept_expansion: false, concept_sufficient: true, ..signals() };
    assert_eq!(select_local_tier(&disabled), None);
    assert_eq!(select_local_tier(&signals()), None);
}

#[test]
fn tier_names_per_tier() {
    assert_eq!(LocalTier::Bm25.names(), strings(&["bm25"]));
    assert_eq!(LocalTier::Bm25Hdc.names(), strings(&["bm25", "hdc"]));
    assert_eq!(LocalTier::Hdc.names(), strings(&["hdc"]));
    assert_eq!(LocalTier::ConceptGraph.names(), strings(&["concept_graph"]));
}

#[test]
fn fallback_carries_best_available_results() {
    assert_eq!(fallback_source(true, false), FallbackSource::Merged);
    assert_eq!(fallback_source(false, true), FallbackSource::Hdc);
    assert_eq!(fallback_source(false, false), FallbackSource::Bm25);
}

#[test]
fn always_embed_counts_a_call_on_a_local_hit() {
    let a = sufficient_accounting(strings(&["bm25"]), FallbackPolicy::AlwaysEmbed);
    assert_eq!(a.tiers, strings(&["bm25", "api"]));
    assert_eq!(a.api_calls, 1);
    assert_eq!(a.reason, FallbackReason::AlwaysEmbedPolicy);
    for policy in [FallbackPolicy::Adaptive, FallbackPolicy::LocalOnly] {
        let a = sufficient_accounting(strings(&["bm25", "hdc"]), policy);
        assert_eq!(a.tiers, strings(&["bm25", "hdc"]));
        assert_eq!(a.api_calls, 0);
        assert_eq!(a.reason, FallbackReason::LocalTierSufficient);
    }
}

#[test]
fn fallback_tier_accounting() {
    assert_eq!(fallback_tiers(false, false, 1, true), strings(&["none"]), "empty index needs the api");
    assert_eq!(fallback_tiers(true, true, 1, false), strings(&["bm25", "hdc", "api_fallback_needed"]));
    assert_eq!(fallback_tiers(false, true, 1, false), strings(&["hdc", "api_fallback_needed"]));
    assert_eq!(fallback_tiers(true, false, 0, false), strings(&["bm25"]));
    assert_eq!(fallback_tiers(false, false, 0, true), strings(&["none"]), "local-only on an empty index");
}

#[test]
fn concept_terms_match_whole_lowercase_words() {
    let terms = strings(&["authentication", "login", "jwt"]);
    assert_eq!(count_term_matches(&terms, "User AUTHENTICATION via login"), 2);
    assert_eq!(count_term_matches(&terms, "login. authentication!"), 0, "punctuation stays part of a word");
    assert_eq!(count_term_matches(&terms, ""), 0);
    assert_eq!(count_term_matches(&Vec::new(), "login"), 0);
}
