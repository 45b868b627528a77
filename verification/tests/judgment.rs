//! Judgment validation and alignment, and the provider-call plan.

use memory_core::judgment::{
    align_judgments, finish_judgments, plan_judgments, JudgmentError, JudgmentPlan,
};

/// One judged candidate as a provider returns it: id and its four
/// (value, confidence) scores.
struct Judged {
    id: &'static str,
    scores: [(f32, f32); 4],
}

fn sample(id: &'static str, relevance: f32) -> Judged {
    Judged { id, scores: [(relevance, 0.9), (0.8, 0.9), (0.1, 0.9), (0.0, 0.9)] }
}

fn unit(v: f32) -> bool {
    v.is_finite() && (0.0..=1.0).contains(&v)
}

fn valid(j: &Judged) -> bool {
    j.scores.iter().all(|(v, c)| unit(*v) && unit(*c))
}

/// Runs the plan and, when the provider is asked, the given answer through
/// validation; returns the aligned ids.
fn evaluate(
    judge: Option<Result<Vec<Judged>, JudgmentError>>,
    candidates: &[&str],
) -> Result<Option<Vec<String>>, JudgmentError> {
    let ids: Vec<String> = candidates.iter().map(|c| c.to_string()).collect();
    match plan_judgments(judge.is_some(), candidates.len()) {
        JudgmentPlan::NotConfigured => Ok(None),
        JudgmentPlan::EmptyBatch => Ok(Some(vec![])),
        JudgmentPlan::CallProvider => {
            let answer = judge.unwrap().map(|js| {
                let ids: Vec<String> = js.iter().map(|j| j.id.to_string()).collect();
                let flags: Vec<bool> = js.iter().map(valid).collect();
                (ids, flags)
            });
            let answer_ids = answer.as_ref().map(|(i, _)| i.clone()).unwrap_or_default();
            let order = finish_judgments(&ids, answer)?;
            Ok(Some(order.into_iter().map(|k| answer_ids[k].clone()).collect()))
        }
    }
}

fn check_no_judge_configured_unaffected() {
    let result = evaluate(None, &["ep-1", "ep-2"]);
    assert_eq!(result, Ok(None));
}

#[test]
fn judgment_test_no_judge_configured_unaffected() {
    check_no_judge_configured_unaffected();
}

#[test]
fn tests_test_no_judge_configured_unaffected() {
    check_no_judge_configured_unaffected();
}

fn check_empty_candidate_batch_zero_provider_work() {
    assert_eq!(plan_judgments(true, 0), JudgmentPlan::EmptyBatch);
    let result = evaluate(Some(Ok(vec![])), &[]);
    assert_eq!(result, Ok(Some(vec![])));
}

#[test]
fn judgment_test_empty_candidate_batch_zero_provider_work() {
    check_empty_candidate_batch_zero_provider_work();
}

#[test]
fn tests_test_empty_candidate_batch_zero_provider_work() {
    check_empty_candidate_batch_zero_provider_work();
}

fn check_valid_batch_shuffled_ids_aligned_correctly() {
    let raw = vec![sample("ep-3", 0.3), sample("ep-1", 0.9), sample("ep-2", 0.7)];
    let res = evaluate(Some(Ok(raw)), &["ep-1", "ep-2", "ep-3"]).unwrap().unwrap();
    assert_eq!(res.len(), 3);
    assert_eq!(res[0], "ep-1");
    assert_eq!(res[1], "ep-2");
    assert_eq!(res[2], "ep-3");
}

#[test]
fn judgment_test_valid_batch_shuffled_ids_aligned_correctly() {
    check_valid_batch_shuffled_ids_aligned_correctly();
}

#[test]
fn tests_test_valid_batch_shuffled_ids_aligned_correctly() {
    check_valid_batch_shuffled_ids_aligned_correctly();
}

fn check_duplicate_result_id_rejected() {
    let raw = vec![sample("ep-1", 0.9), sample("ep-1", 0.8)];
    let res = evaluate(Some(Ok(raw)), &["ep-1", "ep-2"]);
    assert!(matches!(res, Err(JudgmentError::Invalid(_))));
}

#[test]
fn judgment_test_duplicate_result_id_rejected() {
    check_duplicate_result_id_rejected();
}

#[test]
fn tests_test_duplicate_result_id_rejected() {
    check_duplicate_result_id_rejected();
}

fn check_missing_result_id_rejected() {
    let raw = vec![sample("ep-1", 0.9), sample("ep-3", 0.8)];
    let res = evaluate(Some(Ok(raw)), &["ep-1", "ep-2"]);
    assert!(matches!(res, Err(JudgmentError::Invalid(_))));
}

#[test]
fn judgment_test_missing_result_id_rejected() {
    check_missing_result_id_rejected();
}

#[test]
fn tests_test_missing_result_id_rejected() {
    check_missing_result_id_rejected();
}

fn check_unknown_result_id_rejected() {
    let res = evaluate(Some(Ok(vec![sample("ep-999", 0.9)])), &["ep-1"]);
    assert!(matches!(res, Err(JudgmentError::Invalid(_))));
}

#[test]
fn judgment_test_unknown_result_id_rejected() {
    check_unknown_result_id_rejected();
}

#[test]
fn tests_test_unknown_result_id_rejected() {
    check_unknown_result_id_rejected();
}

fn check_negative_score_rejected() {
    let res = evaluate(Some(Ok(vec![sample("ep-1", -0.1)])), &["ep-1"]);
    assert!(matches!(res, Err(JudgmentError::Invalid(_))));
}

#[test]
fn judgment_test_negative_score_rejected() {
    check_negative_score_rejected();
}

#[test]
fn tests_test_negative_score_rejected() {
    check_negative_score_rejected();
}

fn check_score_greater_than_one_rejected() {
    let res = evaluate(Some(Ok(vec![sample("ep-1", 1.5)])), &["ep-1"]);
    assert!(matches!(res, Err(JudgmentError::Invalid(_))));
}

#[test]
fn judgment_test_score_greater_than_one_rejected() {
    check_score_greater_than_one_rejected();
}

#[test]
fn tests_test_score_greater_than_one_rejected() {
    check_score_greater_than_one_rejected();
}

fn check_nan_or_infinite_score_rejected() {
    let res = evaluate(Some(Ok(vec![sample("ep-1", f32::NAN)])), &["ep-1"]);
    assert!(matches!(res, Err(JudgmentError::Invalid(_))));
    let mut inf = sample("ep-1", 0.5);
    inf.scores[0].1 = f32::INFINITY;
    let res = evaluate(Some(Ok(vec![inf])), &["ep-1"]);
    assert!(matches!(res, Err(JudgmentError::Invalid(_))));
}

#[test]
fn judgment_test_nan_or_infinite_score_rejected() {
    check_nan_or_infinite_score_rejected();
}

#[test]
fn tests_test_nan_or_infinite_score_rejected() {
    check_nan_or_infinite_score_rejected();
}

fn check_provider_unavailable_error_propagated() {
    let res = evaluate(Some(Err(JudgmentError::Unavailable)), &["ep-1"]);
    assert_eq!(res, Err(JudgmentError::Unavailable));
}

#[test]
fn judgment_test_provider_unavailable_error_propagated() {
    check_provider_unavailable_error_propagated();
}

#[test]
fn tests_test_provider_unavailable_error_propagated() {
    check_provider_unavailable_error_propagated();
}

#[test]
fn test_candidate_count_mismatch_rejected() {
    let res = evaluate(Some(Ok(vec![sample("ep-1", 0.9)])), &["ep-1", "ep-2"]);
    assert!(matches!(res, Err(JudgmentError::Invalid(_))));
}

#[test]
fn test_provider_timeout_and_failure_outcomes_propagated() {
    let res = evaluate(Some(Err(JudgmentError::Timeout)), &["ep-1"]);
    assert_eq!(res, Err(JudgmentError::Timeout));
    let res = evaluate(Some(Err(JudgmentError::Provider("boom".to_string()))), &["ep-1"]);
    assert_eq!(res, Err(JudgmentError::Provider("boom".to_string())));
}

#[test]
fn test_alignment_impossible_when_candidate_replaced_by_duplicate() {
    let raw = vec![sample("ep-1", 0.9), sample("ep-1", 0.5)];
    let res = evaluate(Some(Ok(raw)), &["ep-1", "ep-2"]);
    assert!(matches!(res, Err(JudgmentError::Invalid(_))));
}

fn strings(v: &[&str]) -> Vec<String> {
    v.iter().map(|s| s.to_string()).collect()
}

#[test]
fn alignment_error_messages_name_the_offender() {
    let r = align_judgments(&strings(&["a", "b"]), &strings(&["a"]), &vec![true]);
    assert_eq!(r, Err(JudgmentError::Invalid("candidate count mismatch: expected 2, got 1".to_string())));
    let r = align_judgments(&strings(&["a"]), &strings(&["a"]), &vec![false]);
    assert_eq!(
        r,
        Err(JudgmentError::Invalid(
            "candidate 'a' has out-of-bound, NaN, or non-finite atomic score(s)".to_string()
        ))
    );
    let r = align_judgments(&strings(&["a", "b"]), &strings(&["a", "a"]), &vec![true, true]);
    assert_eq!(
        r,
        Err(JudgmentError::Invalid(
            "duplicate candidate judgment ID in provider response: 'a'".to_string()
        ))
    );
    let r = align_judgments(&strings(&["a", "b"]), &strings(&["a", "c"]), &vec![true, true]);
    assert_eq!(
        r,
        Err(JudgmentError::Invalid(
            "missing candidate judgment ID in provider response: 'b'".to_string()
        ))
    );
    let r = align_judgments(&strings(&["a", "a"]), &strings(&["a", "b"]), &vec![true, true]);
    assert_eq!(
        r,
        Err(JudgmentError::Invalid(
            "unknown candidate ID mismatch during alignment: 'a'".to_string()
        ))
    );
}

#[test]
fn invalid_score_is_reported_before_a_later_duplicate() {
    let r = align_judgments(&strings(&["a", "b"]), &strings(&["b", "b"]), &vec![false, true]);
    assert_eq!(
        r,
        Err(JudgmentError::Invalid(
            "candidate 'b' has out-of-bound, NaN, or non-finite atomic score(s)".to_string()
        ))
    );
}

#[test]
fn alignment_gives_positions_in_candidate_order() {
    let r = align_judgments(&strings(&["x", "y", "z"]), &strings(&["z", "x", "y"]), &vec![true, true, true]);
    assert_eq!(r, Ok(vec![1, 2, 0]));
}

#[test]
fn alignment_count_mismatch_with_large_numbers() {
    let cands: Vec<String> = (0..12).map(|i| format!("c{i}")).collect();
    let r = align_judgments(&cands, &strings(&["c0"]), &vec![true]);
    assert_eq!(r, Err(JudgmentError::Invalid("candidate count mismatch: expected 12, got 1".to_string())));
}

#[test]
fn plan_without_judge_never_calls_provider() {
    assert_eq!(plan_judgments(false, 3), JudgmentPlan::NotConfigured);
    assert_eq!(plan_judgments(false, 0), JudgmentPlan::NotConfigured);
    assert_eq!(plan_judgments(true, 3), JudgmentPlan::CallProvider);
}

#[test]
fn judgment_error_messages() {
    assert_eq!(JudgmentError::Unavailable.message(), "semantic judgment provider unavailable");
    assert_eq!(JudgmentError::Timeout.message(), "semantic judgment timed out");
    assert_eq!(
        JudgmentError::Invalid("x".to_string()).message(),
        "semantic judgment provider returned invalid output: x"
    );
    assert_eq!(
        JudgmentError::Provider("boom".to_string()).message(),
        "semantic judgment provider failed: boom"
    );
}
