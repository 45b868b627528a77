//! Evidence dispositions and policy checks.

use memory_core::evidence::{
    check_policy, classify_checks, EvidenceDisposition, EvidencePolicyError, JudgmentChecks,
    PolicyBounds,
};

fn checks(
    confident: bool,
    instruction_flagged: bool,
    contradiction_flagged: bool,
    low_relevance: bool,
    low_useful_evidence: bool,
) -> JudgmentChecks {
    JudgmentChecks {
        confident,
        instruction_flagged,
        contradiction_flagged,
        low_relevance,
        low_useful_evidence,
    }
}

fn all_ok() -> PolicyBounds {
    PolicyBounds {
        min_confidence_ok: true,
        min_relevance_ok: true,
        min_useful_evidence_ok: true,
        contradiction_threshold_ok: true,
        instruction_threshold_ok: true,
    }
}

#[test]
fn rank_orders_dispositions_by_policy_severity() {
    assert_eq!(EvidenceDisposition::Keep.rank(), 0);
    assert_eq!(EvidenceDisposition::Flag.rank(), 1);
    assert_eq!(EvidenceDisposition::Demote.rank(), 2);
    assert_eq!(EvidenceDisposition::Drop.rank(), 3);

    assert!(EvidenceDisposition::Keep < EvidenceDisposition::Flag);
    assert!(EvidenceDisposition::Flag < EvidenceDisposition::Demote);
    assert!(EvidenceDisposition::Demote < EvidenceDisposition::Drop);

    let mut sorted = vec![
        EvidenceDisposition::Drop,
        EvidenceDisposition::Keep,
        EvidenceDisposition::Demote,
        EvidenceDisposition::Flag,
    ];
    sorted.sort();
    assert_eq!(
        sorted,
        vec![
            EvidenceDisposition::Keep,
            EvidenceDisposition::Flag,
            EvidenceDisposition::Demote,
            EvidenceDisposition::Drop,
        ]
    );
}

#[test]
fn healthy_judgment_is_kept() {
    assert_eq!(classify_checks(checks(true, false, false, false, false), false), EvidenceDisposition::Keep);
}

#[test]
fn instruction_like_judgment_is_flagged() {
    assert_eq!(classify_checks(checks(true, true, false, false, false), false), EvidenceDisposition::Flag);
}

#[test]
fn contradictory_judgment_is_flagged() {
    assert_eq!(classify_checks(checks(true, false, true, false, false), false), EvidenceDisposition::Flag);
}

#[test]
fn instruction_flag_precedes_contradiction_and_drop() {
    assert_eq!(classify_checks(checks(true, true, true, true, true), true), EvidenceDisposition::Flag);
}

#[test]
fn low_relevance_is_demoted_by_default() {
    assert_eq!(classify_checks(checks(true, false, false, true, false), false), EvidenceDisposition::Demote);
}

#[test]
fn low_useful_evidence_is_demoted() {
    assert_eq!(classify_checks(checks(true, false, false, false, true), false), EvidenceDisposition::Demote);
}

#[test]
fn low_relevance_drops_only_when_allowed() {
    assert_eq!(classify_checks(checks(true, false, false, true, false), true), EvidenceDisposition::Drop);
}

#[test]
fn low_useful_evidence_is_demoted_even_when_drops_are_allowed() {
    assert_eq!(classify_checks(checks(true, false, false, false, true), true), EvidenceDisposition::Demote);
}

#[test]
fn low_confidence_keeps_with_evidence_attached() {
    assert_eq!(classify_checks(checks(false, true, true, true, true), true), EvidenceDisposition::Keep);
}

#[test]
fn drop_never_returned_when_drop_disallowed() {
    for bits in 0..32u32 {
        let c = checks(bits & 1 != 0, bits & 2 != 0, bits & 4 != 0, bits & 8 != 0, bits & 16 != 0);
        let d = classify_checks(c, false);
        assert_ne!(d, EvidenceDisposition::Drop);
        assert!(d.rank() < EvidenceDisposition::Drop.rank());
    }
}

#[test]
fn validated_accepts_boundary_values() {
    assert_eq!(check_policy(1, all_ok()), Ok(()));
}

#[test]
fn validated_rejects_each_invalid_field() {
    assert_eq!(check_policy(0, all_ok()), Err(EvidencePolicyError::ZeroCandidateLimit));
    let mut b = all_ok();
    b.min_confidence_ok = false;
    assert_eq!(check_policy(20, b), Err(EvidencePolicyError::InvalidMinConfidence));
    let mut b = all_ok();
    b.min_relevance_ok = false;
    assert_eq!(check_policy(20, b), Err(EvidencePolicyError::InvalidMinRelevance));
    let mut b = all_ok();
    b.min_useful_evidence_ok = false;
    assert_eq!(check_policy(20, b), Err(EvidencePolicyError::InvalidMinUsefulEvidence));
    let mut b = all_ok();
    b.contradiction_threshold_ok = false;
    assert_eq!(check_policy(20, b), Err(EvidencePolicyError::InvalidContradictionThreshold));
    let mut b = all_ok();
    b.instruction_threshold_ok = false;
    assert_eq!(check_policy(20, b), Err(EvidencePolicyError::InvalidInstructionThreshold));
}

#[test]
fn first_violation_wins() {
    let b = PolicyBounds {
        min_confidence_ok: false,
        min_relevance_ok: false,
        min_useful_evidence_ok: false,
        contradiction_threshold_ok: false,
        instruction_threshold_ok: false,
    };
    assert_eq!(check_policy(0, b), Err(EvidencePolicyError::ZeroCandidateLimit));
    assert_eq!(check_policy(1, b), Err(EvidencePolicyError::InvalidMinConfidence));
}

#[test]
fn policy_error_messages() {
    assert_eq!(
        EvidencePolicyError::ZeroCandidateLimit.message(),
        "evidence candidate_limit must be greater than zero"
    );
    assert_eq!(
        EvidencePolicyError::InvalidInstructionThreshold.message(),
        "evidence instruction_flag_threshold must be finite and within [0.0, 1.0]"
    );
}

use memory_core::eval::{EvidenceConfusion, EvidenceFixtureJudge, EvidenceFixtureLabel};

fn label(d: [bool; 4], expected: &str) -> EvidenceFixtureLabel {
    EvidenceFixtureLabel {
        relevance: d[0],
        useful_evidence: d[1],
        contradiction: d[2],
        instruction_like: d[3],
        expected_disposition: expected.to_string(),
    }
}

#[test]
fn fixture_judge_replays_labels_and_defaults_to_all_false() {
    let judge = EvidenceFixtureJudge::new(vec![(
        "q".to_string(),
        vec![
            ("a".to_string(), label([true, true, false, false], "keep")),
            ("b".to_string(), label([false, false, true, false], "flag")),
            ("a".to_string(), label([true, false, false, true], "flag")),
        ],
    )]);
    assert_eq!(judge.replayed_dimensions("q", "a"), [true, false, false, true]);
    assert_eq!(judge.replayed_dimensions("q", "b"), [false, false, true, false]);
    assert_eq!(judge.replayed_dimensions("q", "zzz"), [false; 4]);
    assert_eq!(judge.replayed_dimensions("other", "a"), [false; 4]);
}

#[test]
fn confusion_counts_dimensions_dispositions_and_false_drops() {
    let mut c = EvidenceConfusion::new();
    let keep = label([true, true, false, false], "keep");
    c.record_hit(EvidenceDisposition::Keep, [true, false, false, false], Some(&keep));
    c.record_hit(EvidenceDisposition::Drop, [false, false, false, false], Some(&keep));
    c.record_hit(EvidenceDisposition::Demote, [true, true, true, true], None);
    assert_eq!(c.dispositions, [1, 0, 1, 1]);
    assert_eq!(c.labelled, 2);
    assert_eq!(c.false_drops, 1);
    assert_eq!(c.tp, [1, 0, 0, 0]);
    assert_eq!(c.fn_, [1, 2, 0, 0]);
    assert_eq!(c.tn, [0, 0, 2, 2]);
    assert_eq!(c.fp, [0, 0, 0, 0]);
}
