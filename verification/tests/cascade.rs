//! Concept graph expansion, fallback policy labels and cascade errors.

use chaotic_semantic_memory::encoder::TextEncoder as HdcEncoder;
use memory_core::cascade::{
    fallback_outcome, CascadeError, ConceptGraph, FallbackPolicy, FallbackReason, OntologyError,
    EMBEDDED_ONTOLOGY,
};

#[test]
fn test_concept_graph_from_embedded() {
    let graph = ConceptGraph::from_embedded();
    assert!(graph.domain_count() > 0, "ConceptGraph should have domains");
    assert!(!graph.is_empty());
}

#[test]
fn test_concept_graph_expand_auth_terms() {
    let graph = ConceptGraph::from_embedded();
    let expanded = graph.expand_terms("implement auth");
    assert!(!expanded.is_empty());
    assert!(expanded.iter().any(|t| t == "auth"));
    assert!(expanded.iter().any(|t| t == "login"));
}

#[test]
fn test_concept_graph_expand_database_terms() {
    let graph = ConceptGraph::from_embedded();
    let expanded = graph.expand_terms("fix db connection");
    assert!(!expanded.is_empty());
    assert!(expanded.iter().any(|t| t == "db"));
}

#[test]
fn test_concept_graph_expand_no_match() {
    let graph = ConceptGraph::from_embedded();
    let expanded = graph.expand_terms("xyzzy_nonexistent_term");
    assert!(expanded.is_empty());
}

#[test]
fn test_concept_graph_expand_multiple_domains() {
    let graph = ConceptGraph::from_embedded();
    let expanded = graph.expand_terms("fix auth and db errors");
    assert!(!expanded.is_empty());
    let has_auth = expanded.iter().any(|t| t == "auth" || t == "login");
    let has_db = expanded.iter().any(|t| t == "db" || t == "sql");
    assert!(has_auth || has_db, "Should match at least one domain");
}

#[test]
fn test_concept_graph_empty_query() {
    let graph = ConceptGraph::from_embedded();
    let expanded = graph.expand_terms("");
    assert!(expanded.is_empty());
}

#[test]
fn test_concept_graph_domain_count() {
    let graph = ConceptGraph::from_embedded();
    assert!(graph.domain_count() >= 10, "Expected 10+ ontology domains");
}

#[test]
fn test_hdc_encoder_similarity() {
    let encoder = HdcEncoder::new();
    let vec1 = encoder.encode("authentication login");
    let vec2 = encoder.encode("authentication login");
    let vec3 = encoder.encode("database connection");

    let sim_same = vec1.cosine_similarity(&vec2);
    assert!(sim_same > 0.9);

    let sim_diff = vec1.cosine_similarity(&vec3);
    assert!(sim_diff < sim_same);
}

#[test]
fn fallback_policy_display_uses_bounded_label_values() {
    assert_eq!(FallbackPolicy::Adaptive.label(), "adaptive");
    assert_eq!(FallbackPolicy::AlwaysEmbed.label(), "always_embed");
    assert_eq!(FallbackPolicy::LocalOnly.label(), "local_only");
    assert_eq!(FallbackPolicy::default(), FallbackPolicy::Adaptive);
}

#[test]
fn fallback_reason_display_uses_bounded_label_values() {
    assert_eq!(FallbackReason::LocalTierSufficient.label(), "local_tier_sufficient");
    assert_eq!(FallbackReason::LocalConfident.label(), "local_confident");
    assert_eq!(FallbackReason::InsufficientConfidence.label(), "insufficient_confidence");
    assert_eq!(FallbackReason::NoLocalResults.label(), "no_local_results");
    assert_eq!(FallbackReason::AlwaysEmbedPolicy.label(), "always_embed_policy");
    assert_eq!(FallbackReason::LocalOnlyPolicy.label(), "local_only_policy");
}

#[test]
fn cascade_error_capability_unavailable_construct_and_partial_eq() {
    let error = CascadeError::CapabilityUnavailable;
    assert_eq!(error, CascadeError::CapabilityUnavailable);
}

#[test]
fn cascade_error_display_and_error_impl() {
    let error = CascadeError::CapabilityUnavailable;
    assert!(
        error.message().contains("unavailable"),
        "display should describe the unavailable capability"
    );
}

#[test]
fn expansion_is_sorted_deduplicated_and_case_insensitive() {
    let graph = ConceptGraph::from_embedded();
    let a = graph.expand_terms("AUTH");
    let b = graph.expand_terms("auth auth");
    assert_eq!(a, b);
    let mut sorted = a.clone();
    sorted.sort();
    sorted.dedup();
    assert_eq!(a, sorted);
}

#[test]
fn words_must_match_whole_terms() {
    let graph = ConceptGraph::from_entries(vec![(
        vec!["db".to_string()],
        vec!["storage".to_string()],
    )]);
    assert!(graph.expand_terms("dbx").is_empty());
    assert_eq!(graph.expand_terms("the db"), vec!["db".to_string(), "storage".to_string()]);
}

#[test]
fn graph_from_entries_counts_domains() {
    let graph = ConceptGraph::from_entries(vec![
        (vec!["a".to_string()], vec![]),
        (vec!["b".to_string()], vec!["c".to_string()]),
    ]);
    assert_eq!(graph.domain_count(), 2);
    assert!(!graph.is_empty());
    assert!(ConceptGraph::from_entries(vec![]).is_empty());
    assert_eq!(graph.expand_terms("b a"), vec!["a".to_string(), "b".to_string(), "c".to_string()]);
}

#[test]
fn fallback_policies_decide_calls_and_reasons() {
    assert_eq!(fallback_outcome(FallbackPolicy::AlwaysEmbed, true, true), (1, FallbackReason::AlwaysEmbedPolicy));
    assert_eq!(fallback_outcome(FallbackPolicy::LocalOnly, false, false), (0, FallbackReason::LocalOnlyPolicy));
    assert_eq!(fallback_outcome(FallbackPolicy::Adaptive, false, false), (1, FallbackReason::NoLocalResults));
    assert_eq!(fallback_outcome(FallbackPolicy::Adaptive, true, true), (0, FallbackReason::LocalConfident));
    assert_eq!(fallback_outcome(FallbackPolicy::Adaptive, true, false), (1, FallbackReason::InsufficientConfidence));
}

#[test]
fn ontology_json_loads_domains_and_skips_non_strings() {
    let json = r#"{"domains":[{"terms":["auth", 3, "login"],"related_concepts":["security"]},{"terms":["db"]}]}"#;
    let graph = ConceptGraph::from_json(json).expect("valid ontology");
    assert_eq!(graph.domain_count(), 2);
    let expanded = graph.expand_terms("auth");
    assert_eq!(expanded, vec!["auth".to_string(), "login".to_string(), "security".to_string()]);
    assert_eq!(graph.expand_terms("db"), vec!["db".to_string()]);
}

#[test]
fn ontology_json_errors() {
    assert_eq!(ConceptGraph::from_json("not json").err(), Some(OntologyError::Parse));
    assert_eq!(ConceptGraph::from_json(r#"{"domain":[]}"#).err(), Some(OntologyError::MissingDomains));
    assert_eq!(ConceptGraph::from_json(r#"{"domains":{}}"#).err(), Some(OntologyError::MissingDomains));
    assert_eq!(OntologyError::Parse.message(), "Failed to parse ontology JSON");
    assert_eq!(OntologyError::MissingDomains.message(), "Missing 'domains' array in ontology");
}

#[test]
fn embedded_ontology_parses() {
    assert!(ConceptGraph::from_json(EMBEDDED_ONTOLOGY).is_ok());
    assert_eq!(ConceptGraph::from_embedded().domain_count(), 14);
}
