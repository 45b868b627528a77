//! Benchmark strategies, latency statistics and regression verdicts.

use memory_core::eval::{
    compute_percentiles, missing_baseline_violation, regression_verdict, LatencyStats,
    RetrievalStrategy,
};

#[test]
fn strategy_labels_round_trip() {
    for s in [RetrievalStrategy::AlwaysEmbed, RetrievalStrategy::LocalOnly, RetrievalStrategy::Adaptive] {
        assert_eq!(RetrievalStrategy::parse(&s.label()), Ok(s));
    }
    assert_eq!(RetrievalStrategy::AlwaysEmbed.label(), "always_embed");
    assert_eq!(RetrievalStrategy::LocalOnly.label(), "local_only");
    assert_eq!(RetrievalStrategy::Adaptive.label(), "adaptive");
}

#[test]
fn strategy_parsing_accepts_aliases_ignoring_case() {
    assert_eq!("ALWAYS".parse::<RetrievalStrategy>(), Ok(RetrievalStrategy::AlwaysEmbed));
    assert_eq!("always-embed".parse::<RetrievalStrategy>(), Ok(RetrievalStrategy::AlwaysEmbed));
    assert_eq!("Local".parse::<RetrievalStrategy>(), Ok(RetrievalStrategy::LocalOnly));
    assert_eq!("local-only".parse::<RetrievalStrategy>(), Ok(RetrievalStrategy::LocalOnly));
    assert_eq!("Adaptive".parse::<RetrievalStrategy>(), Ok(RetrievalStrategy::Adaptive));
    assert_eq!(
        "Cascade".parse::<RetrievalStrategy>(),
        Err("Unknown retrieval strategy: 'Cascade'".to_string())
    );
}

#[test]
fn percentiles_of_no_latencies_are_zero() {
    assert_eq!(compute_percentiles(&vec![]), LatencyStats::default());
}

#[test]
fn percentiles_of_unsorted_latencies() {
    let lat: Vec<u64> = (1..=100).rev().collect();
    let s = compute_percentiles(&lat);
    assert_eq!(s.p50_us, 51);
    assert_eq!(s.p95_us, 96);
    assert_eq!(s.p99_us, 100);
    assert_eq!(s.avg_us, 50);
}

#[test]
fn percentiles_of_one_latency() {
    let s = compute_percentiles(&vec![7]);
    assert_eq!(s, LatencyStats { p50_us: 7, p95_us: 7, p99_us: 7, avg_us: 7 });
}

#[test]
fn percentiles_with_duplicates() {
    let s = compute_percentiles(&vec![5, 1, 5, 3]);
    assert_eq!(s.p50_us, 5);
    assert_eq!(s.p95_us, 5);
    assert_eq!(s.avg_us, 3);
}

#[test]
fn regression_verdict_pass_and_fail() {
    let pass = regression_verdict(vec![], "1.2.0");
    assert!(pass.passed);
    assert_eq!(
        pass.summary,
        "PASS: Evaluation passed all regression thresholds against baseline (version: 1.2.0)"
    );
    let fail = regression_verdict(
        vec![missing_baseline_violation("adaptive"), "x".to_string()],
        "1.2.0",
    );
    assert!(!fail.passed);
    assert_eq!(fail.violations.len(), 2);
    assert_eq!(
        fail.violations[0],
        "Strategy 'adaptive' present in current run but missing in baseline"
    );
    assert_eq!(
        fail.summary,
        "FAIL: Found 2 regression violation(s) against baseline (version: 1.2.0)"
    );
}

#[test]
fn fixture_lines_skip_blanks_and_comments() {
    let text = "{\"type\":\"item\"}\r\n\n  // note\n# header\n  {\"type\":\"query\"}  \n/single slash";
    assert_eq!(
        memory_core::eval::fixture_record_lines(text),
        vec![
            "{\"type\":\"item\"}".to_string(),
            "{\"type\":\"query\"}".to_string(),
            "/single slash".to_string(),
        ]
    );
    assert!(memory_core::eval::fixture_record_lines("").is_empty());
}

use memory_core::eval::{
    keyword_fallback_search, rank_by_matches, recommendation_accepted, resolve_query_strategy,
    tier_bucket, CascadeAnswer,
};

fn strings(v: &[&str]) -> Vec<String> {
    v.iter().map(|s| s.to_string()).collect()
}

#[test]
fn ranking_prefers_more_matches_then_item_order() {
    assert_eq!(rank_by_matches(&vec![1, 3, 0, 3, 2], 10), vec![1, 3, 4, 0]);
    assert_eq!(rank_by_matches(&vec![1, 3, 0, 3, 2], 2), vec![1, 3]);
    assert!(rank_by_matches(&vec![0, 0], 5).is_empty());
    assert!(rank_by_matches(&vec![4], 0).is_empty());
}

#[test]
fn keyword_fallback_matches_lowercased_tokens() {
    let texts = strings(&["Fix the AUTH token bug", "database pool", "token refresh, auth flow"]);
    let r = keyword_fallback_search("auth, token!", &texts, 10);
    assert_eq!(r, vec![0, 2]);
    assert!(keyword_fallback_search("  ...  ", &texts, 10).is_empty());
    assert_eq!(keyword_fallback_search("pool", &texts, 10), vec![1]);
}

#[test]
fn tier_buckets_follow_priority() {
    assert_eq!(tier_bucket(&strings(&["hdc", "bm25"])), 1);
    assert_eq!(tier_bucket(&strings(&["hdc"])), 2);
    assert_eq!(tier_bucket(&strings(&["concept_graph"])), 3);
    assert_eq!(tier_bucket(&strings(&["api"])), 4);
}

#[test]
fn recommendation_acceptance() {
    let ok = strings(&["s1"]);
    assert!(recommendation_accepted(Some("a"), Some("a"), &ok));
    assert!(!recommendation_accepted(Some("s1"), Some("a"), &ok));
    assert!(recommendation_accepted(Some("s1"), None, &ok));
    assert!(!recommendation_accepted(None, None, &ok));
}

#[test]
fn query_resolution_by_strategy() {
    let answer = || CascadeAnswer {
        episode_ids: strings(&["e1"]),
        api_calls: 1,
        contributing_tiers: strings(&["hdc"]),
    };
    let r = resolve_query_strategy(Some(answer()), vec![], RetrievalStrategy::AlwaysEmbed);
    assert_eq!((r.retrieved_ids, r.api_calls, r.tiers), (strings(&["e1"]), 1, strings(&["api"])));
    let r = resolve_query_strategy(Some(answer()), vec![], RetrievalStrategy::LocalOnly);
    assert_eq!((r.api_calls, r.tiers), (0, strings(&["hdc"])));
    let r = resolve_query_strategy(Some(answer()), vec![], RetrievalStrategy::Adaptive);
    assert_eq!((r.api_calls, r.tiers), (1, strings(&["hdc"])));
    let r = resolve_query_strategy(None, strings(&["f"]), RetrievalStrategy::Adaptive);
    assert_eq!((r.retrieved_ids, r.api_calls, r.tiers), (strings(&["f"]), 0, strings(&["bm25"])));
    let r = resolve_query_strategy(None, vec![], RetrievalStrategy::Adaptive);
    assert_eq!((r.api_calls, r.tiers), (1, strings(&["api_fallback_needed"])));
    let r = resolve_query_strategy(None, vec![], RetrievalStrategy::LocalOnly);
    assert_eq!((r.api_calls, r.tiers), (0, strings(&["bm25"])));
}
