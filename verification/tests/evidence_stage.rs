//! The cascade's evidence stage: considered candidates, outcome, counts and
//! the order of returned hits.

use memory_core::evidence::EvidenceDisposition::{self, Demote, Drop, Flag, Keep};
use memory_core::evidence_stage::{evidence_considered, order_by_disposition, summarize_evidence, EvidenceStatus};
use memory_core::rerank::RerankStatus;

#[test]
fn considered_is_bounded_by_every_limit() {
    assert_eq!(evidence_considered(20, 5, 7, 5), 5);
    assert_eq!(evidence_considered(2, 5, 7, 5), 2);
    assert_eq!(evidence_considered(20, 5, 3, 5), 3);
    assert_eq!(evidence_considered(20, 5, 7, 0), 0);
}

#[test]
fn summary_counts_dispositions() {
    let ds = vec![Keep, Flag, Keep, Drop, Demote, Keep];
    let confident = vec![true, false, false, false, false, false];
    let s = summarize_evidence(RerankStatus::Applied, &ds, &confident);
    assert_eq!(s.status, EvidenceStatus::Applied);
    assert_eq!((s.counts.keep, s.counts.flag, s.counts.demote, s.counts.drop), (3, 1, 1, 1));
}

#[test]
fn summary_status_follows_the_batch() {
    let none: Vec<EvidenceDisposition> = Vec::new();
    let s = summarize_evidence(RerankStatus::Applied, &none, &Vec::new());
    assert_eq!(s.status, EvidenceStatus::LowConfidence, "an empty applied batch is low confidence");
    let unsure = summarize_evidence(RerankStatus::Applied, &vec![Keep], &vec![false]);
    assert_eq!(unsure.status, EvidenceStatus::LowConfidence);
    assert_eq!(summarize_evidence(RerankStatus::NotConfigured, &none, &Vec::new()).status, EvidenceStatus::NotConfigured);
    assert_eq!(summarize_evidence(RerankStatus::Invalid, &none, &Vec::new()).status, EvidenceStatus::Invalid);
    assert_eq!(summarize_evidence(RerankStatus::ProviderError, &none, &Vec::new()).status, EvidenceStatus::ProviderError);
}

#[test]
fn hits_come_out_by_rank_without_drops() {
    let hits = vec![Some(Demote), None, Some(Drop), Some(Flag), Some(Keep), Some(Demote)];
    assert_eq!(order_by_disposition(&hits), vec![1, 4, 3, 0, 5]);
    assert_eq!(order_by_disposition(&vec![Some(Drop)]), Vec::<usize>::new());
    assert_eq!(order_by_disposition(&Vec::new()), Vec::<usize>::new());
}
