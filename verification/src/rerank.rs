//! Configuration rules of the optional semantic rerank stage.

use vstd::prelude::*;

use crate::judgment::JudgmentError;
use crate::text::{decimal, push_decimal, push_str};

verus! {

/// Configuration errors of the semantic rerank stage, one per rule.
#[derive(Debug, Clone, Copy, PartialEq, Eq, Structural)]
pub enum RerankConfigError {
    /// `shortlist_k == 0`.
    ZeroShortlist,
    /// `output_k == 0` or `output_k > shortlist_k`.
    InvalidOutputK { output_k: usize, shortlist_k: usize },
    /// A weight is not finite.
    NonFiniteWeight,
    /// A weight is negative.
    NegativeWeight,
    /// The weights sum to zero: no fusion signal.
    ZeroWeightSum,
    /// The confidence floor is not finite or outside `[0.0, 1.0]`.
    InvalidConfidence,
}

/// The message of a configuration error.
pub open spec fn rerank_error_text(e: RerankConfigError) -> Seq<char> {
    match e {
        RerankConfigError::ZeroShortlist => "rerank shortlist_k must be greater than zero"@,
        RerankConfigError::InvalidOutputK { output_k, shortlist_k } =>
            "rerank output_k must be greater than zero and at most shortlist_k ("@ + decimal(
                shortlist_k as nat,
            ) + ")"@,
        RerankConfigError::NonFiniteWeight => "rerank weights must be finite"@,
        RerankConfigError::NegativeWeight => "rerank weights must be non-negative"@,
        RerankConfigError::ZeroWeightSum => "rerank weights must not sum to zero"@,
        RerankConfigError::InvalidConfidence => "rerank min_judgment_confidence must be finite and within [0.0, 1.0]"@,
    }
}

impl RerankConfigError {
    /// The error's message.
    pub fn message(&self) -> (r: String)
        ensures
            r@ == rerank_error_text(*self),
    {
        let mut s = String::new();
        match self {
            RerankConfigError::ZeroShortlist => push_str(&mut s, "rerank shortlist_k must be greater than zero"),
            RerankConfigError::InvalidOutputK { output_k: _, shortlist_k } => {
                push_str(&mut s, "rerank output_k must be greater than zero and at most shortlist_k (");
                push_decimal(&mut s, *shortlist_k);
                push_str(&mut s, ")");
            },
            RerankConfigError::NonFiniteWeight => push_str(&mut s, "rerank weights must be finite"),
            RerankConfigError::NegativeWeight => push_str(&mut s, "rerank weights must be non-negative"),
            RerankConfigError::ZeroWeightSum => push_str(&mut s, "rerank weights must not sum to zero"),
            RerankConfigError::InvalidConfidence => push_str(
                &mut s,
                "rerank min_judgment_confidence must be finite and within [0.0, 1.0]",
            ),
        }
        s
    }
}

/// The outcomes of the floating-point checks of a rerank configuration.
#[derive(Debug, Clone, Copy, PartialEq, Eq)]
pub struct RerankWeightChecks {
    /// Both weights are finite.
    pub weights_finite: bool,
    /// Both weights are non-negative.
    pub weights_non_negative: bool,
    /// The weights sum to more than zero.
    pub weight_sum_positive: bool,
    /// The confidence floor is finite and within `[0.0, 1.0]`.
    pub confidence_in_range: bool,
}

/// The first rule a rerank configuration violates, rules taken in order.
pub open spec fn first_rerank_violation(
    shortlist_k: usize,
    output_k: usize,
    c: RerankWeightChecks,
) -> Option<RerankConfigError> {
    if shortlist_k == 0 {
        Some(RerankConfigError::ZeroShortlist)
    } else if output_k == 0 || output_k > shortlist_k {
        Some(RerankConfigError::InvalidOutputK { output_k, shortlist_k })
    } else if !c.weights_finite {
        Some(RerankConfigError::NonFiniteWeight)
    } else if !c.weights_non_negative {
        Some(RerankConfigError::NegativeWeight)
    } else if !c.weight_sum_positive {
        Some(RerankConfigError::ZeroWeightSum)
    } else if !c.confidence_in_range {
        Some(RerankConfigError::InvalidConfidence)
    } else {
        None
    }
}

/// Checks a rerank configuration's rules in order: a positive shortlist,
/// an output size within it, then the weight and confidence checks.
pub fn check_rerank_config(
    shortlist_k: usize,
    output_k: usize,
    checks: RerankWeightChecks,
) -> (r: Result<(), RerankConfigError>)
    ensures
        match first_rerank_violation(shortlist_k, output_k, checks) {
            Some(e) => r == Err::<(), RerankConfigError>(e),
            None => r is Ok,
        },
{
    if shortlist_k == 0 {
        return Err(RerankConfigError::ZeroShortlist);
    }
    if output_k == 0 || output_k > shortlist_k {
        return Err(RerankConfigError::InvalidOutputK { output_k, shortlist_k });
    }
    if !checks.weights_finite {
        return Err(RerankConfigError::NonFiniteWeight);
    }
    if !checks.weights_non_negative {
        return Err(RerankConfigError::NegativeWeight);
    }
    if !checks.weight_sum_positive {
        return Err(RerankConfigError::ZeroWeightSum);
    }
    if !checks.confidence_in_range {
        return Err(RerankConfigError::InvalidConfidence);
    }
    Ok(())
}

/// Number of leading candidates sent to the judge: `min(shortlist_k, len)`.
pub fn shortlist_len(candidate_count: usize, shortlist_k: usize) -> (n: usize)
    ensures
        n == if candidate_count < shortlist_k { candidate_count } else { shortlist_k },
{
    if candidate_count < shortlist_k {
        candidate_count
    } else {
        shortlist_k
    }
}

/// Bounded outcome of one rerank invocation.
#[derive(Debug, Clone, Copy, PartialEq, Eq, Structural)]
pub enum RerankStatus {
    /// The stage is disabled.
    Disabled,
    /// No judge is configured.
    NotConfigured,
    /// The configuration or the provider output is invalid.
    Invalid,
    /// The stage ran.
    Applied,
    /// The provider failed, timed out or was unavailable.
    ProviderError,
    /// No judgment met the confidence floor.
    LowConfidence,
}

/// Bounded label of a status.
pub open spec fn rerank_status_label(s: RerankStatus) -> Seq<char> {
    match s {
        RerankStatus::Disabled => "disabled"@,
        RerankStatus::NotConfigured => "not_configured"@,
        RerankStatus::Invalid => "invalid"@,
        RerankStatus::Applied => "applied"@,
        RerankStatus::ProviderError => "provider_error"@,
        RerankStatus::LowConfidence => "low_confidence"@,
    }
}

impl RerankStatus {
    /// The status's bounded label.
    pub fn label(&self) -> (r: String)
        ensures
            r@ == rerank_status_label(*self),
    {
        let mut s = String::new();
        match self {
            RerankStatus::Disabled => push_str(&mut s, "disabled"),
            RerankStatus::NotConfigured => push_str(&mut s, "not_configured"),
            RerankStatus::Invalid => push_str(&mut s, "invalid"),
            RerankStatus::Applied => push_str(&mut s, "applied"),
            RerankStatus::ProviderError => push_str(&mut s, "provider_error"),
            RerankStatus::LowConfidence => push_str(&mut s, "low_confidence"),
        }
        s
    }
}

/// Why the rerank stage stops before asking the judge, if it does: disabled,
/// no judge, an invalid configuration, or no candidates (the last one with
/// nothing to rerank counts as applied).
pub open spec fn gate_status(
    enabled: bool,
    judge_present: bool,
    config_valid: bool,
    candidate_count: usize,
) -> Option<RerankStatus> {
    if !enabled {
        Some(RerankStatus::Disabled)
    } else if !judge_present {
        Some(RerankStatus::NotConfigured)
    } else if !config_valid {
        Some(RerankStatus::Invalid)
    } else if candidate_count == 0 {
        Some(RerankStatus::Applied)
    } else {
        None
    }
}

/// Decides whether the rerank stage stops before asking the judge; a
/// returned status means the caller's candidates are returned unchanged.
pub fn rerank_gate(enabled: bool, judge_present: bool, config_valid: bool, candidate_count: usize) -> (r:
    Option<RerankStatus>)
    ensures
        r == gate_status(enabled, judge_present, config_valid, candidate_count),
{
    if !enabled {
        Some(RerankStatus::Disabled)
    } else if !judge_present {
        Some(RerankStatus::NotConfigured)
    } else if !config_valid {
        Some(RerankStatus::Invalid)
    } else if candidate_count == 0 {
        Some(RerankStatus::Applied)
    } else {
        None
    }
}

/// The status a failed judgment maps to: malformed output is invalid,
/// everything else a provider error.
pub fn judgment_failure_status(e: &JudgmentError) -> (s: RerankStatus)
    ensures
        s == match e {
            JudgmentError::Invalid(_) => RerankStatus::Invalid,
            _ => RerankStatus::ProviderError,
        },
{
    match e {
        JudgmentError::Invalid(_) => RerankStatus::Invalid,
        _ => RerankStatus::ProviderError,
    }
}

/// What the rerank stage returns once the judgment batch is in.
#[derive(Debug, Clone, Copy, PartialEq, Eq, Structural)]
pub enum RerankDecision {
    /// The caller's candidates, unchanged, with this status.
    KeepLocal { status: RerankStatus, shortlist_len: usize },
    /// The leading `output_len` local candidates in local order (applied).
    LeadingLocal { output_len: usize, shortlist_len: usize },
    /// The fused shortlist (applied).
    Fused { shortlist_len: usize },
}

/// The decision after the batch: a failed batch keeps the local list; a
/// shortlist of at most one keeps the leading local order capped at
/// `output_k`; no judgment above the confidence floor keeps the local list as
/// low confidence; otherwise the fused order is returned.
pub open spec fn decision_after_batch(
    batch_status: RerankStatus,
    shortlist_len: usize,
    output_k: usize,
    candidate_count: usize,
    confident_count: usize,
) -> RerankDecision {
    if batch_status != RerankStatus::Applied {
        RerankDecision::KeepLocal { status: batch_status, shortlist_len }
    } else if shortlist_len <= 1 {
        RerankDecision::LeadingLocal {
            output_len: if output_k < candidate_count { output_k } else { candidate_count },
            shortlist_len,
        }
    } else if confident_count == 0 {
        RerankDecision::KeepLocal { status: RerankStatus::LowConfidence, shortlist_len }
    } else {
        RerankDecision::Fused { shortlist_len }
    }
}

/// Decides what the rerank stage returns once the judgment batch is in.
pub fn rerank_after_batch(
    batch_status: RerankStatus,
    shortlist_len: usize,
    output_k: usize,
    candidate_count: usize,
    confident_count: usize,
) -> (d: RerankDecision)
    ensures
        d == decision_after_batch(batch_status, shortlist_len, output_k, candidate_count, confident_count),
{
    if batch_status != RerankStatus::Applied {
        RerankDecision::KeepLocal { status: batch_status, shortlist_len }
    } else if shortlist_len <= 1 {
        RerankDecision::LeadingLocal {
            output_len: if output_k < candidate_count { output_k } else { candidate_count },
            shortlist_len,
        }
    } else if confident_count == 0 {
        RerankDecision::KeepLocal { status: RerankStatus::LowConfidence, shortlist_len }
    } else {
        RerankDecision::Fused { shortlist_len }
    }
}

/// A failed provider batch never changes the caller's ranking: whatever the
/// failure, the decision is to return the local candidates unchanged with the
/// failure's status; and a result reordered by the provider only comes from
/// an applied batch with a confident judgment.
pub proof fn law_provider_failure_keeps_local_order(
    batch_status: RerankStatus,
    shortlist_len: usize,
    output_k: usize,
    candidate_count: usize,
    confident_count: usize,
)
    ensures
        batch_status != RerankStatus::Applied ==> decision_after_batch(
            batch_status,
            shortlist_len,
            output_k,
            candidate_count,
            confident_count,
        ) == (RerankDecision::KeepLocal { status: batch_status, shortlist_len }),
        decision_after_batch(batch_status, shortlist_len, output_k, candidate_count, confident_count) is Fused
            ==> batch_status == RerankStatus::Applied && shortlist_len > 1 && confident_count > 0,
{
}

/// What the stage returns once the batch is in, and exactly when: the
/// fused order for an applied batch over more than one candidate with a
/// confident judgment; the leading local candidates, capped at `output_k`,
/// for an applied batch over at most one candidate; the local candidates
/// unchanged otherwise, with the failure's status or as low confidence.
pub proof fn law_decision_exactly(
    batch_status: RerankStatus,
    shortlist_len: usize,
    output_k: usize,
    candidate_count: usize,
    confident_count: usize,
)
    ensures
        decision_after_batch(batch_status, shortlist_len, output_k, candidate_count, confident_count) is Fused
            <==> batch_status == RerankStatus::Applied && shortlist_len > 1 && confident_count > 0,
        batch_status == RerankStatus::Applied && shortlist_len > 1 && confident_count > 0 ==> decision_after_batch(
            batch_status,
            shortlist_len,
            output_k,
            candidate_count,
            confident_count,
        ) == (RerankDecision::Fused { shortlist_len }),
        batch_status == RerankStatus::Applied && shortlist_len <= 1 ==> decision_after_batch(
            batch_status,
            shortlist_len,
            output_k,
            candidate_count,
            confident_count,
        ) == (RerankDecision::LeadingLocal {
            output_len: if output_k < candidate_count { output_k } else { candidate_count },
            shortlist_len,
        }),
        batch_status == RerankStatus::Applied && shortlist_len > 1 && confident_count == 0 ==> decision_after_batch(
            batch_status,
            shortlist_len,
            output_k,
            candidate_count,
            confident_count,
        ) == (RerankDecision::KeepLocal { status: RerankStatus::LowConfidence, shortlist_len }),
{
}

} // verus!
