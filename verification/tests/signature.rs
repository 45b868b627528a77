//! Execution and query signatures.

use memory_core::signature::{
    normalize_error_type, set_overlap, ExecutionSignature, QuerySignature, StepPattern,
};
use uuid::Uuid;

fn has(v: &[String], s: &str) -> bool {
    v.iter().any(|x| x == s)
}

#[test]
fn test_execution_signature_creation() {
    let episode_id = Uuid::new_v4().as_u128();
    let sig = ExecutionSignature::new(episode_id);
    assert_eq!(sig.episode_id, episode_id);
    assert!(sig.tools.is_empty());
    assert!(sig.error_types.is_empty());
    assert_eq!(sig.total_steps, 0);
}

#[test]
fn test_execution_signature_add_tools() {
    let mut sig = ExecutionSignature::new(Uuid::new_v4().as_u128());
    sig.add_tool("Read");
    sig.add_tool("Bash");
    sig.add_tool("read");

    assert_eq!(sig.tool_count(), 2);
    assert!(sig.has_tools());
    assert!(has(&sig.tools, "read"));
    assert!(has(&sig.tools, "bash"));
}

#[test]
fn test_execution_signature_add_errors() {
    let mut sig = ExecutionSignature::new(Uuid::new_v4().as_u128());
    sig.add_error("timeout");
    sig.add_error("Time Out");

    assert_eq!(sig.error_count(), 1);
    assert!(sig.has_errors());
    assert!(has(&sig.error_types, "timeout"));
}

#[test]
fn test_execution_signature_record_steps() {
    let mut sig = ExecutionSignature::new(Uuid::new_v4().as_u128());
    sig.record_step(true);
    sig.record_step(true);
    sig.record_step(false);
    sig.record_step(true);

    assert_eq!(sig.total_steps, 4);
    assert_eq!(sig.successful_steps, 3);
    assert_eq!(sig.failed_steps, 1);
    let rate = sig.successful_steps as f32 / sig.total_steps as f32;
    assert!((rate - 0.75).abs() < 0.01);
}

#[test]
fn test_step_pattern_from_outcomes() {
    let pattern = StepPattern::from_outcomes(&[true, false, true, true]);
    assert_eq!(pattern.success_count, 3);
    assert_eq!(pattern.failure_count, 1);
    assert!(pattern.final_success);
    assert_eq!(pattern.pattern_code, "SFSS");
}

#[test]
fn test_query_signature_creation() {
    let query = QuerySignature::new();
    assert!(query.expected_tools.is_empty());
    assert!(query.relevant_errors.is_empty());
    assert!(query.expected_pattern.is_none());
}

#[test]
fn test_query_signature_from_text() {
    let query = QuerySignature::from_query_text("Fix timeout error using cargo build");
    assert!(query.has_tool_expectations());
    assert!(has(&query.expected_tools, "cargo"));
    assert!(query.has_error_expectations());
    assert!(has(&query.relevant_errors, "timeout"));
}

#[test]
fn test_query_signature_add_tools() {
    let mut query = QuerySignature::new();
    query.add_tool("grep");
    query.add_tool("Bash");

    assert!(query.has_tool_expectations());
    assert!(has(&query.expected_tools, "grep"));
    assert!(has(&query.expected_tools, "bash"));
}

#[test]
fn test_normalize_error_type() {
    assert_eq!(normalize_error_type("timeout"), "timeout");
    assert_eq!(normalize_error_type("Time Out"), "timeout");
    assert_eq!(normalize_error_type("TIMED OUT"), "timeout");

    assert_eq!(normalize_error_type("panic"), "panic");
    assert_eq!(normalize_error_type("Panicked"), "panic");

    assert_eq!(normalize_error_type("deadlock"), "deadlock");
    assert_eq!(normalize_error_type("dead lock"), "deadlock");
}

#[test]
fn test_success_rate_empty() {
    let sig = ExecutionSignature::new(Uuid::new_v4().as_u128());
    assert_eq!(sig.total_steps, 0);
    assert_eq!(sig.successful_steps, 0);
}

#[test]
fn normalize_maps_every_synonym_group() {
    assert_eq!(normalize_error_type("race condition"), "race_condition");
    assert_eq!(normalize_error_type("NullPtr"), "null_pointer");
    assert_eq!(normalize_error_type("Not Found"), "missing");
    assert_eq!(normalize_error_type("Invalid Argument"), "invalid");
    assert_eq!(normalize_error_type("  Segfault  "), "segfault");
    assert_eq!(normalize_error_type(" deadlock"), "deadlock");
}

#[test]
fn query_text_without_signals_has_no_expectations() {
    let q = QuerySignature::from_query_text("summarize the design document");
    assert!(!q.has_tool_expectations());
    assert!(!q.has_error_expectations());
}

#[test]
fn query_text_patterns_are_normalized() {
    let q = QuerySignature::from_query_text("NPM race in the Deadlock path, null pointer");
    assert!(has(&q.expected_tools, "npm"));
    assert!(has(&q.relevant_errors, "race_condition"));
    assert!(has(&q.relevant_errors, "null_pointer"));
    assert!(has(&q.relevant_errors, "deadlock"));
    assert_eq!(q.relevant_errors.len(), 3);
}

#[test]
fn step_pattern_of_no_outcomes_is_empty() {
    let p = StepPattern::from_outcomes(&[]);
    assert_eq!(p.success_count, 0);
    assert_eq!(p.failure_count, 0);
    assert!(!p.final_success);
    assert_eq!(p.pattern_code, "");
    let d = StepPattern::default();
    assert_eq!(d.pattern_code, "");
}

#[test]
fn set_pattern_and_latency() {
    let mut q = QuerySignature::new();
    q.set_pattern(StepPattern::from_outcomes(&[false]));
    assert_eq!(q.expected_pattern.as_ref().unwrap().pattern_code, "F");
    let mut sig = ExecutionSignature::new(7);
    sig.set_avg_latency(42);
    assert_eq!(sig.avg_latency_ms, 42);
    sig.record_step(false);
    assert_eq!(sig.step_pattern.failure_count, 1);
    assert_eq!(sig.step_pattern.pattern_code, "");
}

#[test]
fn overlap_counts_intersection_and_union() {
    let a = vec!["read".to_string(), "bash".to_string(), "git".to_string()];
    let b = vec!["git".to_string(), "read".to_string(), "npm".to_string(), "grep".to_string()];
    assert_eq!(set_overlap(&a, &b), (2, 5));
    assert_eq!(set_overlap(&a, &vec![]), (0, 3));
}
