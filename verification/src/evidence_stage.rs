//! The cascade's evidence stage around one shared judgment batch: how many
//! candidates it classifies, its bounded outcome, the disposition counts,
//! and the order in which classified hits are returned.

use vstd::prelude::*;

use crate::evidence::{rank_of, EvidenceDisposition};
use crate::rerank::RerankStatus;

verus! {

/// Bounded outcome of the evidence stage.
#[derive(Debug, Clone, Copy, PartialEq, Eq, Structural)]
pub enum EvidenceStatus {
    /// No evidence policy: nothing was classified.
    Disabled,
    /// No judge is configured.
    NotConfigured,
    /// The judgment batch was unusable.
    Invalid,
    /// The provider failed, timed out or was unavailable.
    ProviderError,
    /// No classified judgment was confident enough to act on.
    LowConfidence,
    /// Candidates were classified.
    Applied,
}

/// Number of leading judgments the stage classifies: the policy's limit,
/// bounded by the batch's shortlist, the local results and the judgments.
pub open spec fn considered_spec(candidate_limit: usize, shortlist_len: usize, local_len: usize, judged: usize) -> usize {
    let a = if candidate_limit < shortlist_len { candidate_limit } else { shortlist_len };
    let b = if a < local_len { a } else { local_len };
    if b < judged { b } else { judged }
}

/// Number of leading judgments the stage classifies.
pub fn evidence_considered(candidate_limit: usize, shortlist_len: usize, local_len: usize, judged: usize) -> (n:
    usize)
    ensures
        n == considered_spec(candidate_limit, shortlist_len, local_len, judged),
        n <= candidate_limit && n <= shortlist_len && n <= local_len && n <= judged,
{
    let a = if candidate_limit < shortlist_len { candidate_limit } else { shortlist_len };
    let b = if a < local_len { a } else { local_len };
    if b < judged { b } else { judged }
}

/// The stage's outcome from the batch's: failures pass through; an applied
/// batch in which no classified judgment is confident is low confidence;
/// an applied batch with a confident judgment is applied.
pub open spec fn stage_status(batch: RerankStatus, any_confident: bool) -> EvidenceStatus {
    match batch {
        RerankStatus::NotConfigured => EvidenceStatus::NotConfigured,
        RerankStatus::Invalid => EvidenceStatus::Invalid,
        RerankStatus::ProviderError => EvidenceStatus::ProviderError,
        RerankStatus::Applied => if any_confident {
            EvidenceStatus::Applied
        } else {
            EvidenceStatus::LowConfidence
        },
        _ => EvidenceStatus::Applied,
    }
}

/// Number of classified candidates per disposition.
#[derive(Debug, Clone, Copy, PartialEq, Eq, Structural)]
pub struct DispositionCounts {
    /// Candidates kept.
    pub keep: usize,
    /// Candidates flagged.
    pub flag: usize,
    /// Candidates demoted.
    pub demote: usize,
    /// Candidates dropped.
    pub drop: usize,
}

/// Number of dispositions of rank `k`.
pub open spec fn rank_count(ds: Seq<EvidenceDisposition>, k: u8) -> nat {
    ds.filter(|d: EvidenceDisposition| rank_of(d) == k).len()
}

/// The stage's outcome and disposition counts.
#[derive(Debug, Clone, Copy, PartialEq, Eq, Structural)]
pub struct EvidenceSummary {
    /// Bounded outcome.
    pub status: EvidenceStatus,
    /// Disposition counts.
    pub counts: DispositionCounts,
}

/// Summarizes the classified candidates: `dispositions[i]` and
/// `confident[i]` describe the `i`-th classified judgment.
pub fn summarize_evidence(
    batch: RerankStatus,
    dispositions: &Vec<EvidenceDisposition>,
    confident: &Vec<bool>,
) -> (s: EvidenceSummary)
    requires
        dispositions.len() == confident.len(),
    ensures
        s.status == stage_status(batch, confident@.contains(true)),
        s.counts.keep == rank_count(dispositions@, 0),
        s.counts.flag == rank_count(dispositions@, 1),
        s.counts.demote == rank_count(dispositions@, 2),
        s.counts.drop == rank_count(dispositions@, 3),
{
    let ghost ds = dispositions@;
    let ghost p0 = |d: EvidenceDisposition| rank_of(d) == 0;
    let ghost p1 = |d: EvidenceDisposition| rank_of(d) == 1;
    let ghost p2 = |d: EvidenceDisposition| rank_of(d) == 2;
    let ghost p3 = |d: EvidenceDisposition| rank_of(d) == 3;
    let mut keep: usize = 0;
    let mut flag: usize = 0;
    let mut demote: usize = 0;
    let mut drop: usize = 0;
    let mut any_confident = false;
    let mut i: usize = 0;
    while i < dispositions.len()
        invariant
            i <= dispositions.len(),
            dispositions.len() == confident.len(),
            ds == dispositions@,
            p0 == (|d: EvidenceDisposition| rank_of(d) == 0),
            p1 == (|d: EvidenceDisposition| rank_of(d) == 1),
            p2 == (|d: EvidenceDisposition| rank_of(d) == 2),
            p3 == (|d: EvidenceDisposition| rank_of(d) == 3),
            keep == ds.take(i as int).filter(p0).len(),
            flag == ds.take(i as int).filter(p1).len(),
            demote == ds.take(i as int).filter(p2).len(),
            drop == ds.take(i as int).filter(p3).len(),
            keep + flag + demote + drop == i,
            any_confident <==> exists|j: int| 0 <= j < i && #[trigger] confident@[j],
        decreases dispositions.len() - i,
    {
        proof {
            let t = ds.take(i as int);
            assert(t.push(ds[i as int]) =~= ds.take(i + 1));
            t.lemma_filter_push(ds[i as int], p0);
            t.lemma_filter_push(ds[i as int], p1);
            t.lemma_filter_push(ds[i as int], p2);
            t.lemma_filter_push(ds[i as int], p3);
        }
        match dispositions[i] {
            EvidenceDisposition::Keep => keep = keep + 1,
            EvidenceDisposition::Flag => flag = flag + 1,
            EvidenceDisposition::Demote => demote = demote + 1,
            EvidenceDisposition::Drop => drop = drop + 1,
        }
        any_confident = any_confident || confident[i];
        i = i + 1;
    }
    proof {
        assert(ds.take(dispositions.len() as int) =~= ds);
        if any_confident {
            let j = choose|j: int| 0 <= j < confident.len() && #[trigger] confident@[j];
            assert(confident@[j] == true);
        }
        if confident@.contains(true) {
            let j = choose|j: int| 0 <= j < confident.len() && confident@[j] == true;
            assert(confident@[j]);
        }
    }
    let status = match batch {
        RerankStatus::NotConfigured => EvidenceStatus::NotConfigured,
        RerankStatus::Invalid => EvidenceStatus::Invalid,
        RerankStatus::ProviderError => EvidenceStatus::ProviderError,
        RerankStatus::Applied => if any_confident {
            EvidenceStatus::Applied
        } else {
            EvidenceStatus::LowConfidence
        },
        _ => EvidenceStatus::Applied,
    };
    EvidenceSummary { status, counts: DispositionCounts { keep, flag, demote, drop } }
}

/// Ordering rank of a hit: its disposition's, or `Keep`'s when it was not
/// judged.
pub open spec fn hit_rank(e: Option<EvidenceDisposition>) -> u8 {
    match e {
        Some(d) => rank_of(d),
        None => 0,
    }
}

/// Whether position `i` holds a hit of rank `k`.
pub open spec fn has_rank(hits: Seq<Option<EvidenceDisposition>>, k: u8) -> spec_fn(usize) -> bool {
    |i: usize| hit_rank(hits[i as int]) == k
}

/// The positions below `n`, in order.
pub open spec fn positions_below(n: int) -> Seq<usize> {
    Seq::new(n as nat, |i: int| i as usize)
}

/// Positions below `n`, in order, whose hit has rank `k`.
pub open spec fn positions_of_rank(hits: Seq<Option<EvidenceDisposition>>, k: u8, n: int) -> Seq<usize> {
    positions_below(n).filter(has_rank(hits, k))
}

/// The order in which hits are returned: by rank, each rank's hits in their
/// given order, with dropped hits left out.
pub open spec fn evidence_order(hits: Seq<Option<EvidenceDisposition>>) -> Seq<usize> {
    positions_of_rank(hits, 0, hits.len() as int) + positions_of_rank(hits, 1, hits.len() as int)
        + positions_of_rank(hits, 2, hits.len() as int)
}

fn append_rank(hits: &Vec<Option<EvidenceDisposition>>, k: u8, out: &mut Vec<usize>)
    ensures
        final(out)@ == old(out)@ + positions_of_rank(hits@, k, hits.len() as int),
{
    let ghost start = out@;
    let ghost p = has_rank(hits@, k);
    let mut i: usize = 0;
    while i < hits.len()
        invariant
            i <= hits.len(),
            p == has_rank(hits@, k),
            out@ == start + positions_of_rank(hits@, k, i as int),
        decreases hits.len() - i,
    {
        proof {
            let s = positions_below(i as int);
            assert(positions_below(i + 1) =~= s.push(i));
            s.lemma_filter_push(i, p);
        }
        let r = match hits[i] {
            Some(d) => d.rank(),
            None => 0,
        };
        if r == k {
            out.push(i);
            proof {
                assert(out@ =~= start + positions_of_rank(hits@, k, i + 1));
            }
        }
        i = i + 1;
    }
}

/// Orders classified hits for return: by disposition rank (an unjudged hit
/// ranks as kept), hits of one rank in their given order, dropped hits
/// removed. Returns the positions of the hits to return. Callers give the
/// hits already ordered by final score, so hits come out by rank, then
/// final score, then retrieval position.
pub fn order_by_disposition(hits: &Vec<Option<EvidenceDisposition>>) -> (r: Vec<usize>)
    ensures
        r@ == evidence_order(hits@),
{
    let mut r: Vec<usize> = Vec::new();
    append_rank(hits, 0, &mut r);
    append_rank(hits, 1, &mut r);
    append_rank(hits, 2, &mut r);
    proof {
        assert(r@ =~= evidence_order(hits@));
    }
    r
}

/// A returned hit is never a dropped one, and every hit that was not
/// dropped is returned exactly once: the evidence stage removes only what
/// the policy dropped.
pub proof fn law_evidence_order_drops_only_dropped(hits: Seq<Option<EvidenceDisposition>>)
    requires
        hits.len() <= usize::MAX,
    ensures
        forall|j: int|
            0 <= j < evidence_order(hits).len() ==> {
                let i = #[trigger] evidence_order(hits)[j] as int;
                0 <= i < hits.len() && hits[i] != Some(EvidenceDisposition::Drop)
            },
        forall|i: int|
            0 <= i < hits.len() && hits[i] != Some(EvidenceDisposition::Drop) ==> #[trigger] evidence_order(
                hits,
            ).contains(i as usize),
        evidence_order(hits).no_duplicates(),
{
    let n = hits.len() as int;
    let a = positions_of_rank(hits, 0, n);
    let b = positions_of_rank(hits, 1, n);
    let c = positions_of_rank(hits, 2, n);
    lemma_positions(hits, 0, n);
    lemma_positions(hits, 1, n);
    lemma_positions(hits, 2, n);
    let e = evidence_order(hits);
    assert(e == a + b + c);
    assert forall|j: int| 0 <= j < e.len() implies {
        let i = #[trigger] e[j] as int;
        0 <= i < hits.len() && hits[i] != Some(EvidenceDisposition::Drop)
    } by {
        if j < a.len() {
            assert(e[j] == a[j]);
        } else if j < a.len() + b.len() {
            assert(e[j] == b[j - a.len()]);
        } else {
            assert(e[j] == c[j - a.len() - b.len()]);
        }
    }
    assert forall|i: int| 0 <= i < hits.len() && hits[i] != Some(EvidenceDisposition::Drop) implies #[trigger] e.contains(
        i as usize,
    ) by {
        let k = hit_rank(hits[i]);
        if k == 0 {
            assert(a.contains(i as usize));
            let w = choose|w: int| 0 <= w < a.len() && a[w] == i as usize;
            assert(e[w] == i as usize);
        } else if k == 1 {
            assert(b.contains(i as usize));
            let w = choose|w: int| 0 <= w < b.len() && b[w] == i as usize;
            assert(e[a.len() + w] == i as usize);
        } else {
            assert(c.contains(i as usize));
            let w = choose|w: int| 0 <= w < c.len() && c[w] == i as usize;
            assert(e[a.len() + b.len() + w] == i as usize);
        }
    }
    vstd::seq_lib::lemma_no_dup_in_concat(a, b);
    vstd::seq_lib::lemma_no_dup_in_concat(a + b, c);
}

/// The positions of rank `k` below `n` are increasing, each below `n` and
/// of rank `k`, and every such position is among them.
proof fn lemma_positions(hits: Seq<Option<EvidenceDisposition>>, k: u8, n: int)
    requires
        0 <= n <= hits.len(),
        hits.len() <= usize::MAX,
    ensures
        forall|j: int|
            0 <= j < positions_of_rank(hits, k, n).len() ==> {
                let i = #[trigger] positions_of_rank(hits, k, n)[j] as int;
                0 <= i < n && hit_rank(hits[i]) == k
            },
        forall|j1: int, j2: int|
            0 <= j1 < j2 < positions_of_rank(hits, k, n).len() ==> #[trigger] positions_of_rank(hits, k, n)[j1]
                < #[trigger] positions_of_rank(hits, k, n)[j2],
        forall|i: int| 0 <= i < n && hit_rank(hits[i]) == k ==> #[trigger] positions_of_rank(hits, k, n).contains(
            i as usize,
        ),
        positions_of_rank(hits, k, n).no_duplicates(),
    decreases n,
{
    let p = has_rank(hits, k);
    let pos = positions_of_rank(hits, k, n);
    if n == 0 {
        positions_below(0).lemma_filter_len(p);
        assert(pos.len() == 0);
    } else {
        lemma_positions(hits, k, n - 1);
        let prev = positions_of_rank(hits, k, n - 1);
        let s = positions_below(n - 1);
        assert(positions_below(n) =~= s.push((n - 1) as usize));
        s.lemma_filter_push((n - 1) as usize, p);
        if hit_rank(hits[n - 1]) == k {
            assert(pos == prev.push((n - 1) as usize));
            assert forall|i: int| 0 <= i < n && hit_rank(hits[i]) == k implies #[trigger] pos.contains(i as usize) by {
                if i < n - 1 {
                    assert(prev.contains(i as usize));
                    let w = choose|w: int| 0 <= w < prev.len() && prev[w] == i as usize;
                    assert(pos[w] == i as usize);
                } else {
                    assert(pos[prev.len() as int] == i as usize);
                }
            }
        } else {
            assert(pos == prev);
        }
    }
}

} // verus!
