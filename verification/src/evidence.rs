//! Evidence-aware classification of judged candidates.
//!
//! A judged candidate is classified into a disposition, first match wins:
//! low confidence keeps it; instruction-like text flags it; contradiction
//! flags it; low relevance drops it when drops are allowed and demotes it
//! otherwise; low usefulness demotes it; everything else keeps it. The
//! comparisons of scores against the policy's thresholds are made by the
//! caller and arrive as [`JudgmentChecks`].

use vstd::prelude::*;

use crate::text::push_str;

verus! {

/// What to do with one candidate, from most to least permissive:
/// `Keep < Flag < Demote < Drop`.
#[derive(Debug, Clone, Copy, PartialEq, Eq, Hash, PartialOrd, Ord, Structural)]
pub enum EvidenceDisposition {
    /// The candidate stays in place with its local score.
    Keep,
    /// The candidate is kept but marked as contradictory or instruction-like.
    Flag,
    /// The candidate stays but is demoted.
    Demote,
    /// The candidate is removed; only reachable when drops are allowed.
    Drop,
}

/// Ordering rank of a disposition.
pub open spec fn rank_of(d: EvidenceDisposition) -> u8 {
    match d {
        EvidenceDisposition::Keep => 0,
        EvidenceDisposition::Flag => 1,
        EvidenceDisposition::Demote => 2,
        EvidenceDisposition::Drop => 3,
    }
}

impl EvidenceDisposition {
    /// Stable ordering rank: `Keep` 0, `Flag` 1, `Demote` 2, `Drop` 3.
    pub fn rank(self) -> (r: u8)
        ensures
            r == rank_of(self),
    {
        match self {
            EvidenceDisposition::Keep => 0,
            EvidenceDisposition::Flag => 1,
            EvidenceDisposition::Demote => 2,
            EvidenceDisposition::Drop => 3,
        }
    }
}

/// The outcomes of comparing one judgment against a policy's thresholds.
#[derive(Debug, Clone, Copy, PartialEq, Eq)]
pub struct JudgmentChecks {
    /// Every judged dimension's confidence reaches the minimum confidence.
    pub confident: bool,
    /// Instruction-likeness reaches the instruction flag threshold.
    pub instruction_flagged: bool,
    /// Contradiction reaches the contradiction flag threshold.
    pub contradiction_flagged: bool,
    /// Relevance is below the minimum relevance.
    pub low_relevance: bool,
    /// Useful evidence is below the minimum useful evidence.
    pub low_useful_evidence: bool,
}

/// The disposition of a judgment with the given checks.
pub open spec fn disposition_of(c: JudgmentChecks, allow_drop: bool) -> EvidenceDisposition {
    if !c.confident {
        EvidenceDisposition::Keep
    } else if c.instruction_flagged {
        EvidenceDisposition::Flag
    } else if c.contradiction_flagged {
        EvidenceDisposition::Flag
    } else if c.low_relevance {
        if allow_drop {
            EvidenceDisposition::Drop
        } else {
            EvidenceDisposition::Demote
        }
    } else if c.low_useful_evidence {
        EvidenceDisposition::Demote
    } else {
        EvidenceDisposition::Keep
    }
}

/// Classifies one judged candidate.
pub fn classify_checks(checks: JudgmentChecks, allow_drop: bool) -> (d: EvidenceDisposition)
    ensures
        d == disposition_of(checks, allow_drop),
{
    if !checks.confident {
        return EvidenceDisposition::Keep;
    }
    if checks.instruction_flagged {
        return EvidenceDisposition::Flag;
    }
    if checks.contradiction_flagged {
        return EvidenceDisposition::Flag;
    }
    if checks.low_relevance {
        return if allow_drop {
            EvidenceDisposition::Drop
        } else {
            EvidenceDisposition::Demote
        };
    }
    if checks.low_useful_evidence {
        return EvidenceDisposition::Demote;
    }
    EvidenceDisposition::Keep
}

/// Without the drop opt-in no judgment is dropped.
pub proof fn law_no_drop_without_opt_in(checks: JudgmentChecks)
    ensures
        disposition_of(checks, false) != EvidenceDisposition::Drop,
        rank_of(disposition_of(checks, false)) < rank_of(EvidenceDisposition::Drop),
{
}

/// A confident judgment of instruction-like or contradictory text is
/// flagged, whatever its relevance and whether drops are allowed: such text
/// is never silently dropped.
pub proof fn law_flagged_text_never_dropped(checks: JudgmentChecks, allow_drop: bool)
    requires
        checks.confident,
        checks.instruction_flagged || checks.contradiction_flagged,
    ensures
        disposition_of(checks, allow_drop) == EvidenceDisposition::Flag,
{
}

/// A judgment that is not confident enough is never acted on.
pub proof fn law_low_confidence_keeps(checks: JudgmentChecks, allow_drop: bool)
    requires
        !checks.confident,
    ensures
        disposition_of(checks, allow_drop) == EvidenceDisposition::Keep,
{
}

/// A drop happens only with the opt-in, for a confident, unflagged judgment
/// of low relevance.
pub proof fn law_drop_only_for_low_relevance(checks: JudgmentChecks, allow_drop: bool)
    requires
        disposition_of(checks, allow_drop) == EvidenceDisposition::Drop,
    ensures
        allow_drop,
        checks.confident,
        !checks.instruction_flagged,
        !checks.contradiction_flagged,
        checks.low_relevance,
{
}

/// Configuration errors of an evidence policy, one variant per rule.
#[derive(Debug, Clone, Copy, PartialEq, Eq, Structural)]
pub enum EvidencePolicyError {
    /// `candidate_limit == 0` leaves no candidate to classify.
    ZeroCandidateLimit,
    /// `min_confidence` is not finite or outside `[0.0, 1.0]`.
    InvalidMinConfidence,
    /// `min_relevance` is not finite or outside `[0.0, 1.0]`.
    InvalidMinRelevance,
    /// `min_useful_evidence` is not finite or outside `[0.0, 1.0]`.
    InvalidMinUsefulEvidence,
    /// `contradiction_flag_threshold` is not finite or outside `[0.0, 1.0]`.
    InvalidContradictionThreshold,
    /// `instruction_flag_threshold` is not finite or outside `[0.0, 1.0]`.
    InvalidInstructionThreshold,
}

/// The message of a policy error.
pub open spec fn policy_error_text(e: EvidencePolicyError) -> Seq<char> {
    match e {
        EvidencePolicyError::ZeroCandidateLimit => "evidence candidate_limit must be greater than zero"@,
        EvidencePolicyError::InvalidMinConfidence => "evidence min_confidence must be finite and within [0.0, 1.0]"@,
        EvidencePolicyError::InvalidMinRelevance => "evidence min_relevance must be finite and within [0.0, 1.0]"@,
        EvidencePolicyError::InvalidMinUsefulEvidence => "evidence min_useful_evidence must be finite and within [0.0, 1.0]"@,
        EvidencePolicyError::InvalidContradictionThreshold => "evidence contradiction_flag_threshold must be finite and within [0.0, 1.0]"@,
        EvidencePolicyError::InvalidInstructionThreshold => "evidence instruction_flag_threshold must be finite and within [0.0, 1.0]"@,
    }
}

impl EvidencePolicyError {
    /// The error's message.
    pub fn message(&self) -> (r: String)
        ensures
            r@ == policy_error_text(*self),
    {
        let mut s = String::new();
        match self {
            EvidencePolicyError::ZeroCandidateLimit => push_str(&mut s, "evidence candidate_limit must be greater than zero"),
            EvidencePolicyError::InvalidMinConfidence => push_str(&mut s, "evidence min_confidence must be finite and within [0.0, 1.0]"),
            EvidencePolicyError::InvalidMinRelevance => push_str(&mut s, "evidence min_relevance must be finite and within [0.0, 1.0]"),
            EvidencePolicyError::InvalidMinUsefulEvidence => push_str(&mut s, "evidence min_useful_evidence must be finite and within [0.0, 1.0]"),
            EvidencePolicyError::InvalidContradictionThreshold => push_str(&mut s, "evidence contradiction_flag_threshold must be finite and within [0.0, 1.0]"),
            EvidencePolicyError::InvalidInstructionThreshold => push_str(&mut s, "evidence instruction_flag_threshold must be finite and within [0.0, 1.0]"),
        }
        s
    }
}

/// Which of a policy's thresholds are finite and within `[0.0, 1.0]`.
#[derive(Debug, Clone, Copy, PartialEq, Eq)]
pub struct PolicyBounds {
    /// `min_confidence` is in range.
    pub min_confidence_ok: bool,
    /// `min_relevance` is in range.
    pub min_relevance_ok: bool,
    /// `min_useful_evidence` is in range.
    pub min_useful_evidence_ok: bool,
    /// `contradiction_flag_threshold` is in range.
    pub contradiction_threshold_ok: bool,
    /// `instruction_flag_threshold` is in range.
    pub instruction_threshold_ok: bool,
}

/// The first rule a policy violates, rules taken in order.
pub open spec fn first_policy_violation(candidate_limit: usize, b: PolicyBounds) -> Option<EvidencePolicyError> {
    if candidate_limit == 0 {
        Some(EvidencePolicyError::ZeroCandidateLimit)
    } else if !b.min_confidence_ok {
        Some(EvidencePolicyError::InvalidMinConfidence)
    } else if !b.min_relevance_ok {
        Some(EvidencePolicyError::InvalidMinRelevance)
    } else if !b.min_useful_evidence_ok {
        Some(EvidencePolicyError::InvalidMinUsefulEvidence)
    } else if !b.contradiction_threshold_ok {
        Some(EvidencePolicyError::InvalidContradictionThreshold)
    } else if !b.instruction_threshold_ok {
        Some(EvidencePolicyError::InvalidInstructionThreshold)
    } else {
        None
    }
}

/// Checks a policy's rules in order: a positive candidate limit, then each
/// threshold in range. The first violation is the error.
pub fn check_policy(candidate_limit: usize, bounds: PolicyBounds) -> (r: Result<(), EvidencePolicyError>)
    ensures
        match first_policy_violation(candidate_limit, bounds) {
            Some(e) => r == Err::<(), EvidencePolicyError>(e),
            None => r is Ok,
        },
{
    if candidate_limit == 0 {
        return Err(EvidencePolicyError::ZeroCandidateLimit);
    }
    if !bounds.min_confidence_ok {
        return Err(EvidencePolicyError::InvalidMinConfidence);
    }
    if !bounds.min_relevance_ok {
        return Err(EvidencePolicyError::InvalidMinRelevance);
    }
    if !bounds.min_useful_evidence_ok {
        return Err(EvidencePolicyError::InvalidMinUsefulEvidence);
    }
    if !bounds.contradiction_threshold_ok {
        return Err(EvidencePolicyError::InvalidContradictionThreshold);
    }
    if !bounds.instruction_threshold_ok {
        return Err(EvidencePolicyError::InvalidInstructionThreshold);
    }
    Ok(())
}

/// Each disposition and exactly when it is given: flagged for a confident
/// judgment of instruction-like or contradictory text; dropped, with the
/// opt-in, for a confident unflagged judgment of low relevance, whatever its
/// useful evidence; demoted for a confident unflagged judgment of low
/// relevance without the opt-in, or of low useful evidence; kept otherwise.
pub proof fn law_dispositions_exactly(c: JudgmentChecks, allow_drop: bool)
    ensures
        disposition_of(c, allow_drop) == EvidenceDisposition::Flag <==> c.confident && (c.instruction_flagged
            || c.contradiction_flagged),
        disposition_of(c, allow_drop) == EvidenceDisposition::Drop <==> allow_drop && c.confident
            && !c.instruction_flagged && !c.contradiction_flagged && c.low_relevance,
        disposition_of(c, allow_drop) == EvidenceDisposition::Demote <==> c.confident && !c.instruction_flagged
            && !c.contradiction_flagged && ((c.low_relevance && !allow_drop) || (!c.low_relevance
            && c.low_useful_evidence)),
        disposition_of(c, allow_drop) == EvidenceDisposition::Keep <==> !c.confident || (!c.instruction_flagged
            && !c.contradiction_flagged && !c.low_relevance && !c.low_useful_evidence),
{
}

} // verus!
