//! Validation and alignment of typed semantic judgments.
//!
//! A judgment provider answers one judgment per candidate. Its answer is an
//! inferential heuristic, so it is accepted only when it matches the input
//! exactly: the counts agree, every judgment's scores are valid, no judgment
//! id repeats, and every candidate id has its judgment. The accepted
//! judgments are then re-ordered to follow the candidates. Whether a
//! judgment's scores are finite and within the unit interval is decided by
//! the caller and handed in as one flag per judgment.

use vstd::prelude::*;

use crate::text::{decimal, push_decimal, push_str, str_eq};

verus! {

/// Errors occurring during semantic judgment operations.
#[derive(Debug, Clone, PartialEq, Eq)]
pub enum JudgmentError {
    /// The semantic judgment provider is unavailable or disconnected.
    Unavailable,
    /// Semantic judgment operation timed out.
    Timeout,
    /// Provider output failed validation or contract constraints.
    Invalid(String),
    /// Provider execution failed with internal message.
    Provider(String),
}

/// The human-readable text of a judgment error.
pub open spec fn judgment_error_text(e: JudgmentError) -> Seq<char> {
    match e {
        JudgmentError::Unavailable => "semantic judgment provider unavailable"@,
        JudgmentError::Timeout => "semantic judgment timed out"@,
        JudgmentError::Invalid(m) => "semantic judgment provider returned invalid output: "@ + m@,
        JudgmentError::Provider(m) => "semantic judgment provider failed: "@ + m@,
    }
}

impl JudgmentError {
    /// The error's message.
    pub fn message(&self) -> (r: String)
        ensures
            r@ == judgment_error_text(*self),
    {
        let mut s = String::new();
        match self {
            JudgmentError::Unavailable => push_str(&mut s, "semantic judgment provider unavailable"),
            JudgmentError::Timeout => push_str(&mut s, "semantic judgment timed out"),
            JudgmentError::Invalid(m) => {
                push_str(&mut s, "semantic judgment provider returned invalid output: ");
                push_str(&mut s, m.as_str());
            },
            JudgmentError::Provider(m) => {
                push_str(&mut s, "semantic judgment provider failed: ");
                push_str(&mut s, m.as_str());
            },
        }
        s
    }
}

/// `r` is the `Invalid` error carrying exactly the message `msg`.
pub open spec fn is_invalid_with<T>(r: Result<T, JudgmentError>, msg: Seq<char>) -> bool {
    r matches Err(JudgmentError::Invalid(m)) && m@ == msg
}

/// Message for a provider answer whose length differs from the batch.
pub open spec fn count_mismatch_text(expected: nat, got: nat) -> Seq<char> {
    "candidate count mismatch: expected "@ + decimal(expected) + ", got "@ + decimal(got)
}

/// Message for a judgment with an invalid score.
pub open spec fn invalid_score_text(id: Seq<char>) -> Seq<char> {
    "candidate '"@ + id + "' has out-of-bound, NaN, or non-finite atomic score(s)"@
}

/// Message for a judgment id that the provider answered twice.
pub open spec fn duplicate_id_text(id: Seq<char>) -> Seq<char> {
    "duplicate candidate judgment ID in provider response: '"@ + id + "'"@
}

/// Message for a candidate the provider did not judge.
pub open spec fn missing_id_text(id: Seq<char>) -> Seq<char> {
    "missing candidate judgment ID in provider response: '"@ + id + "'"@
}

/// Message for a candidate id whose judgment was already taken by an earlier
/// candidate with the same id.
pub open spec fn unmatched_id_text(id: Seq<char>) -> Seq<char> {
    "unknown candidate ID mismatch during alignment: '"@ + id + "'"@
}

/// Judgment `i` is rejected: its scores are invalid or its id already
/// occurred earlier in the answer.
pub open spec fn rejected_at(ids: Seq<Seq<char>>, valid: Seq<bool>, i: int) -> bool {
    !valid[i] || ids.take(i).contains(ids[i])
}

/// No judgment of the answer is rejected.
pub open spec fn none_rejected(ids: Seq<Seq<char>>, valid: Seq<bool>) -> bool {
    forall|i: int| 0 <= i < ids.len() ==> !#[trigger] rejected_at(ids, valid, i)
}

/// `i` is the first rejected judgment.
pub open spec fn first_rejected(ids: Seq<Seq<char>>, valid: Seq<bool>, i: int) -> bool {
    &&& 0 <= i < ids.len()
    &&& rejected_at(ids, valid, i)
    &&& forall|k: int| 0 <= k < i ==> !#[trigger] rejected_at(ids, valid, k)
}

/// Every candidate id has a judgment.
pub open spec fn none_missing(cands: Seq<Seq<char>>, ids: Seq<Seq<char>>) -> bool {
    forall|c: int| 0 <= c < cands.len() ==> ids.contains(#[trigger] cands[c])
}

/// `c` is the first candidate without a judgment.
pub open spec fn first_missing(cands: Seq<Seq<char>>, ids: Seq<Seq<char>>, c: int) -> bool {
    &&& 0 <= c < cands.len()
    &&& !ids.contains(cands[c])
    &&& forall|k: int| 0 <= k < c ==> ids.contains(#[trigger] cands[k])
}

/// Candidate `c` repeats the id of an earlier candidate.
pub open spec fn repeated_at(cands: Seq<Seq<char>>, c: int) -> bool {
    cands.take(c).contains(cands[c])
}

/// No candidate id repeats.
pub open spec fn none_repeated(cands: Seq<Seq<char>>) -> bool {
    forall|c: int| 0 <= c < cands.len() ==> !#[trigger] repeated_at(cands, c)
}

/// `c` is the first candidate repeating an earlier candidate's id.
pub open spec fn first_repeated(cands: Seq<Seq<char>>, c: int) -> bool {
    &&& 0 <= c < cands.len()
    &&& repeated_at(cands, c)
    &&& forall|k: int| 0 <= k < c ==> !#[trigger] repeated_at(cands, k)
}

/// The provider answer is accepted.
pub open spec fn answer_accepted(cands: Seq<Seq<char>>, ids: Seq<Seq<char>>, valid: Seq<bool>) -> bool {
    &&& cands.len() == ids.len()
    &&& none_rejected(ids, valid)
    &&& none_missing(cands, ids)
    &&& none_repeated(cands)
}

/// `order[c]` is the position in the answer of candidate `c`'s judgment.
pub open spec fn aligns(order: Seq<usize>, cands: Seq<Seq<char>>, ids: Seq<Seq<char>>) -> bool {
    &&& order.len() == cands.len()
    &&& forall|c: int| 0 <= c < cands.len() ==> #[trigger] order[c] < ids.len() && ids[order[c] as int] == cands[c]
}

/// What validating and aligning an answer gives: success exactly when the
/// answer is accepted, with the alignment order; otherwise the `Invalid`
/// error of the first violated rule, with its message.
pub open spec fn alignment_result(
    cands: Seq<Seq<char>>,
    ids: Seq<Seq<char>>,
    valid: Seq<bool>,
    r: Result<Vec<usize>, JudgmentError>,
) -> bool {
    &&& (r is Ok) <==> answer_accepted(cands, ids, valid)
    &&& r matches Ok(order) ==> aligns(order@, cands, ids)
    &&& cands.len() != ids.len() ==> is_invalid_with(r, count_mismatch_text(cands.len(), ids.len()))
    &&& forall|i: int|
        cands.len() == ids.len() && #[trigger] first_rejected(ids, valid, i) ==> if !valid[i] {
            is_invalid_with(r, invalid_score_text(ids[i]))
        } else {
            is_invalid_with(r, duplicate_id_text(ids[i]))
        }
    &&& forall|c: int|
        cands.len() == ids.len() && none_rejected(ids, valid) && #[trigger] first_missing(cands, ids, c)
            ==> is_invalid_with(r, missing_id_text(cands[c]))
    &&& forall|c: int|
        cands.len() == ids.len() && none_rejected(ids, valid) && none_missing(cands, ids)
            && #[trigger] first_repeated(cands, c) ==> is_invalid_with(r, unmatched_id_text(cands[c]))
}

/// Position of the first string of `ids` equal to `target`.
fn position_of(ids: &Vec<String>, target: &str) -> (r: Option<usize>)
    ensures
        match r {
            Some(j) => j < ids.len() && ids.deep_view()[j as int] == target@ && !ids.deep_view().take(
                j as int,
            ).contains(target@),
            None => !ids.deep_view().contains(target@),
        },
{
    let ghost dv = ids.deep_view();
    let mut j: usize = 0;
    while j < ids.len()
        invariant
            j <= ids.len(),
            dv == ids.deep_view(),
            dv.len() == ids.len(),
            forall|k: int| 0 <= k < j ==> dv[k] != target@,
        decreases ids.len() - j,
    {
        if str_eq(ids[j].as_str(), target) {
            proof {
                assert forall|k: int| 0 <= k < dv.take(j as int).len() implies dv.take(j as int)[k]
                    != target@ by {
                    assert(dv.take(j as int)[k] == dv[k]);
                }
            }
            return Some(j);
        }
        j = j + 1;
    }
    None
}

/// Whether `ids[..end]` holds `target`.
fn occurs_before(ids: &Vec<String>, end: usize, target: &str) -> (r: bool)
    requires
        end <= ids.len(),
    ensures
        r == ids.deep_view().take(end as int).contains(target@),
{
    let ghost dv = ids.deep_view();
    let mut k: usize = 0;
    while k < end
        invariant
            k <= end <= ids.len(),
            dv == ids.deep_view(),
            dv.len() == ids.len(),
            forall|q: int| 0 <= q < k ==> dv[q] != target@,
        decreases end - k,
    {
        if str_eq(ids[k].as_str(), target) {
            assert(dv.take(end as int)[k as int] == target@);
            return true;
        }
        k = k + 1;
    }
    proof {
        assert forall|q: int| 0 <= q < dv.take(end as int).len() implies dv.take(end as int)[q]
            != target@ by {
            assert(dv.take(end as int)[q] == dv[q]);
        }
    }
    false
}

/// An `Invalid` error whose message is `prefix`, `id` and `suffix`.
fn invalid_around(prefix: &str, id: &str, suffix: &str) -> (e: JudgmentError)
    ensures
        e matches JudgmentError::Invalid(m) && m@ == prefix@ + id@ + suffix@,
{
    let mut m = String::new();
    push_str(&mut m, prefix);
    push_str(&mut m, id);
    push_str(&mut m, suffix);
    JudgmentError::Invalid(m)
}

/// Validates a provider answer against the candidate batch and aligns it.
///
/// `candidate_ids` are the batch's ids in order; `judgment_ids[i]` is the id
/// of the provider's `i`-th judgment and `scores_valid[i]` whether all of its
/// scores are finite and within `[0.0, 1.0]`. The rules are checked in this
/// order, the first violation deciding the error: equal counts; then, judgment
/// by judgment, valid scores and an id not seen before; then every candidate
/// id answered; then, candidate by candidate, an id not taken by an earlier
/// candidate. On success the result gives, for each candidate, the position
/// of its judgment in the answer.
pub fn align_judgments(
    candidate_ids: &Vec<String>,
    judgment_ids: &Vec<String>,
    scores_valid: &Vec<bool>,
) -> (r: Result<Vec<usize>, JudgmentError>)
    requires
        judgment_ids.len() == scores_valid.len(),
    ensures
        alignment_result(candidate_ids.deep_view(), judgment_ids.deep_view(), scores_valid@, r),
{
    let ghost cands = candidate_ids.deep_view();
    let ghost ids = judgment_ids.deep_view();
    let ghost valid = scores_valid@;
    if judgment_ids.len() != candidate_ids.len() {
        let mut m = String::new();
        push_str(&mut m, "candidate count mismatch: expected ");
        push_decimal(&mut m, candidate_ids.len());
        push_str(&mut m, ", got ");
        push_decimal(&mut m, judgment_ids.len());
        return Err(JudgmentError::Invalid(m));
    }
    let n = judgment_ids.len();
    let mut i: usize = 0;
    while i < n
        invariant
            i <= n,
            n == judgment_ids.len(),
            n == scores_valid.len(),
            n == candidate_ids.len(),
            ids == judgment_ids.deep_view(),
            cands == candidate_ids.deep_view(),
            valid == scores_valid@,
            forall|k: int| 0 <= k < i ==> !#[trigger] rejected_at(ids, valid, k),
        decreases n - i,
    {
        if !scores_valid[i] {
            let e = invalid_around(
                "candidate '",
                judgment_ids[i].as_str(),
                "' has out-of-bound, NaN, or non-finite atomic score(s)",
            );
            assert(first_rejected(ids, valid, i as int));
            return Err(e);
        }
        if occurs_before(judgment_ids, i, judgment_ids[i].as_str()) {
            let e = invalid_around(
                "duplicate candidate judgment ID in provider response: '",
                judgment_ids[i].as_str(),
                "'",
            );
            assert(first_rejected(ids, valid, i as int));
            return Err(e);
        }
        i = i + 1;
    }
    assert(none_rejected(ids, valid));
    let mut order: Vec<usize> = Vec::new();
    let mut c: usize = 0;
    while c < n
        invariant
            c <= n,
            n == judgment_ids.len(),
            n == candidate_ids.len(),
            ids == judgment_ids.deep_view(),
            cands == candidate_ids.deep_view(),
            valid == scores_valid@,
            none_rejected(ids, valid),
            order@.len() == c,
            forall|k: int| 0 <= k < c ==> ids.contains(#[trigger] cands[k]),
            forall|k: int| 0 <= k < c ==> #[trigger] order@[k] < n && ids[order@[k] as int] == cands[k],
        decreases n - c,
    {
        match position_of(judgment_ids, candidate_ids[c].as_str()) {
            Some(j) => {
                order.push(j);
            },
            None => {
                let e = invalid_around(
                    "missing candidate judgment ID in provider response: '",
                    candidate_ids[c].as_str(),
                    "'",
                );
                proof {
                    assert(cands[c as int] == candidate_ids@[c as int]@);
                    assert(!ids.contains(cands[c as int]));
                    assert(first_missing(cands, ids, c as int));
                    assert forall|c2: int| #[trigger] first_missing(cands, ids, c2) implies c2
                        == c as int by {
                        if c2 < c as int {
                            assert(ids.contains(cands[c2]));
                        } else if c2 > c as int {
                            assert(ids.contains(cands[c as int]));
                        }
                    }
                }
                return Err(e);
            },
        }
        c = c + 1;
    }
    assert(none_missing(cands, ids));
    let mut c: usize = 0;
    while c < n
        invariant
            c <= n,
            n == candidate_ids.len(),
            n == judgment_ids.len(),
            cands == candidate_ids.deep_view(),
            ids == judgment_ids.deep_view(),
            valid == scores_valid@,
            none_rejected(ids, valid),
            none_missing(cands, ids),
            forall|k: int| 0 <= k < c ==> !#[trigger] repeated_at(cands, k),
        decreases n - c,
    {
        if occurs_before(candidate_ids, c, candidate_ids[c].as_str()) {
            let e = invalid_around(
                "unknown candidate ID mismatch during alignment: '",
                candidate_ids[c].as_str(),
                "'",
            );
            proof {
                assert(cands[c as int] == candidate_ids@[c as int]@);
                assert(first_repeated(cands, c as int));
                assert forall|c2: int| #[trigger] first_repeated(cands, c2) implies c2 == c as int by {
                    if c2 < c as int {
                        assert(!repeated_at(cands, c2));
                    } else if c2 > c as int {
                        assert(!repeated_at(cands, c as int));
                    }
                }
                assert(!none_repeated(cands)) by {
                    assert(repeated_at(cands, c as int));
                }
            }
            return Err(e);
        }
        c = c + 1;
    }
    Ok(order)
}

/// What evaluating a batch of candidates does next.
#[derive(Debug, Clone, Copy, PartialEq, Eq)]
pub enum JudgmentPlan {
    /// No judge is configured: the result is `Ok(None)` and no provider is called.
    NotConfigured,
    /// The batch is empty: the result is `Ok(Some(vec![]))` and no provider is called.
    EmptyBatch,
    /// The provider is asked to judge the batch.
    CallProvider,
}

/// Decides whether a batch goes to the judgment provider.
pub fn plan_judgments(judge_configured: bool, candidate_count: usize) -> (p: JudgmentPlan)
    ensures
        !judge_configured ==> p == JudgmentPlan::NotConfigured,
        judge_configured && candidate_count == 0 ==> p == JudgmentPlan::EmptyBatch,
        judge_configured && candidate_count > 0 ==> p == JudgmentPlan::CallProvider,
{
    if !judge_configured {
        JudgmentPlan::NotConfigured
    } else if candidate_count == 0 {
        JudgmentPlan::EmptyBatch
    } else {
        JudgmentPlan::CallProvider
    }
}

/// Turns the provider's answer into the aligned judgment order: a provider
/// error is passed on unchanged, an answer (its judgment ids and score
/// validity flags) is validated and aligned by [`align_judgments`].
pub fn finish_judgments(
    candidate_ids: &Vec<String>,
    answer: Result<(Vec<String>, Vec<bool>), JudgmentError>,
) -> (r: Result<Vec<usize>, JudgmentError>)
    requires
        answer matches Ok((ids, valid)) ==> ids.len() == valid.len(),
    ensures
        answer matches Err(e) ==> r == Err::<Vec<usize>, JudgmentError>(e),
        answer matches Ok((ids, valid)) ==> alignment_result(
            candidate_ids.deep_view(),
            ids.deep_view(),
            valid@,
            r,
        ),
{
    match answer {
        Ok((ids, valid)) => align_judgments(candidate_ids, &ids, &valid),
        Err(e) => Err(e),
    }
}

/// An accepted answer aligns one-to-one: no two candidates take the same
/// judgment, so the aligned judgments are the answer re-ordered, with none
/// lost, added or repeated.
pub proof fn law_alignment_is_one_to_one(
    order: Seq<usize>,
    cands: Seq<Seq<char>>,
    ids: Seq<Seq<char>>,
    valid: Seq<bool>,
)
    requires
        answer_accepted(cands, ids, valid),
        aligns(order, cands, ids),
    ensures
        order.no_duplicates(),
        order.len() == ids.len(),
        forall|j: int| 0 <= j < ids.len() ==> #[trigger] order.contains(j as usize),
{
    assert forall|a: int, b: int| 0 <= a < order.len() && 0 <= b < order.len() && a != b implies order[a]
        != order[b] by {
        if order[a] == order[b] {
            let (lo, hi) = if a < b { (a, b) } else { (b, a) };
            assert(cands[lo] == cands[hi]);
            assert(cands.take(hi)[lo] == cands[lo]);
            assert(repeated_at(cands, hi));
            assert(!repeated_at(cands, hi));
        }
    }
    // The order is an injection from the candidates into the answer's
    // positions, and both have the same size, so it is onto.
    let n = ids.len() as int;
    let oi = order.map_values(|x: usize| x as int);
    assert forall|a: int, b: int| 0 <= a < oi.len() && 0 <= b < oi.len() && a != b implies oi[a]
        != oi[b] by {
        assert(order[a] != order[b]);
    }
    assert(oi.no_duplicates());
    oi.unique_seq_to_set();
    vstd::set_lib::lemma_int_range(0, n);
    assert(oi.to_set().subset_of(vstd::set_lib::set_int_range(0, n))) by {
        assert forall|x: int| oi.to_set().contains(x) implies vstd::set_lib::set_int_range(0, n).contains(x) by {
            let k = choose|k: int| 0 <= k < oi.len() && oi[k] == x;
            assert(order[k] < ids.len());
        }
    }
    vstd::set_lib::lemma_len_subset(oi.to_set(), vstd::set_lib::set_int_range(0, n));
    vstd::set_lib::lemma_subset_equality(oi.to_set(), vstd::set_lib::set_int_range(0, n));
    assert forall|j: int| 0 <= j < ids.len() implies #[trigger] order.contains(j as usize) by {
        assert(vstd::set_lib::set_int_range(0, n).contains(j));
        assert(oi.to_set().contains(j));
        let k = choose|k: int| 0 <= k < oi.len() && oi[k] == j;
        assert(order[k] == j as usize);
    }
}

} // verus!
