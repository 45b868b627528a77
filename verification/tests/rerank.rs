//! Rerank configuration rules.

use memory_core::rerank::{check_rerank_config, shortlist_len, RerankConfigError, RerankWeightChecks};

fn ok() -> RerankWeightChecks {
    RerankWeightChecks {
        weights_finite: true,
        weights_non_negative: true,
        weight_sum_positive: true,
        confidence_in_range: true,
    }
}

#[test]
fn config_rules_in_order() {
    assert_eq!(check_rerank_config(20, 10, ok()), Ok(()));
    assert_eq!(check_rerank_config(0, 0, ok()), Err(RerankConfigError::ZeroShortlist));
    assert_eq!(
        check_rerank_config(5, 6, ok()),
        Err(RerankConfigError::InvalidOutputK { output_k: 6, shortlist_k: 5 })
    );
    assert_eq!(
        check_rerank_config(5, 0, ok()),
        Err(RerankConfigError::InvalidOutputK { output_k: 0, shortlist_k: 5 })
    );
    let mut c = ok();
    c.weights_finite = false;
    c.confidence_in_range = false;
    assert_eq!(check_rerank_config(5, 5, c), Err(RerankConfigError::NonFiniteWeight));
    let mut c = ok();
    c.weights_non_negative = false;
    assert_eq!(check_rerank_config(5, 5, c), Err(RerankConfigError::NegativeWeight));
    let mut c = ok();
    c.weight_sum_positive = false;
    assert_eq!(check_rerank_config(5, 5, c), Err(RerankConfigError::ZeroWeightSum));
    let mut c = ok();
    c.confidence_in_range = false;
    assert_eq!(check_rerank_config(5, 5, c), Err(RerankConfigError::InvalidConfidence));
}

#[test]
fn error_messages() {
    assert_eq!(
        RerankConfigError::InvalidOutputK { output_k: 0, shortlist_k: 20 }.message(),
        "rerank output_k must be greater than zero and at most shortlist_k (20)"
    );
    assert_eq!(RerankConfigError::ZeroShortlist.message(), "rerank shortlist_k must be greater than zero");
}

#[test]
fn shortlist_is_bounded() {
    assert_eq!(shortlist_len(3, 20), 3);
    assert_eq!(shortlist_len(30, 20), 20);
    assert_eq!(shortlist_len(0, 20), 0);
}

use memory_core::judgment::JudgmentError;
use memory_core::rerank::{judgment_failure_status, rerank_after_batch, rerank_gate, RerankDecision, RerankStatus};

#[test]
fn gate_checks_in_order() {
    assert_eq!(rerank_gate(false, false, false, 0), Some(RerankStatus::Disabled));
    assert_eq!(rerank_gate(true, false, false, 0), Some(RerankStatus::NotConfigured));
    assert_eq!(rerank_gate(true, true, false, 3), Some(RerankStatus::Invalid));
    assert_eq!(rerank_gate(true, true, true, 0), Some(RerankStatus::Applied));
    assert_eq!(rerank_gate(true, true, true, 3), None);
}

#[test]
fn failures_keep_local_order() {
    assert_eq!(
        rerank_after_batch(RerankStatus::ProviderError, 5, 3, 8, 2),
        RerankDecision::KeepLocal { status: RerankStatus::ProviderError, shortlist_len: 5 }
    );
    assert_eq!(
        rerank_after_batch(RerankStatus::Applied, 1, 3, 8, 0),
        RerankDecision::LeadingLocal { output_len: 3, shortlist_len: 1 }
    );
    assert_eq!(
        rerank_after_batch(RerankStatus::Applied, 1, 3, 1, 0),
        RerankDecision::LeadingLocal { output_len: 1, shortlist_len: 1 }
    );
    assert_eq!(
        rerank_after_batch(RerankStatus::Applied, 4, 3, 8, 0),
        RerankDecision::KeepLocal { status: RerankStatus::LowConfidence, shortlist_len: 4 }
    );
    assert_eq!(rerank_after_batch(RerankStatus::Applied, 4, 3, 8, 1), RerankDecision::Fused { shortlist_len: 4 });
}

#[test]
fn judgment_failures_map_to_bounded_statuses() {
    assert_eq!(judgment_failure_status(&JudgmentError::Invalid("x".to_string())), RerankStatus::Invalid);
    assert_eq!(judgment_failure_status(&JudgmentError::Timeout), RerankStatus::ProviderError);
    assert_eq!(judgment_failure_status(&JudgmentError::Unavailable), RerankStatus::ProviderError);
    assert_eq!(RerankStatus::LowConfidence.label(), "low_confidence");
}
