//! Benchmark harness types and statistics: retrieval strategies, latency
//! percentiles and regression verdicts.

use vstd::prelude::*;
use vstd::relations::{sorted_by, total_ordering};

use crate::cache_key::TaskContext;
use crate::evidence::{rank_of, EvidenceDisposition};
use crate::gist::{count_contained, stripped_words, stripped_words_of};
use crate::text::{chars_of, contains_seq, decimal, lowercase, push_decimal, push_str, str_eq, string_from_chars, to_lowercase, trim, trim_chars};

verus! {

broadcast use vstd::seq_lib::group_to_multiset_ensures;

/// Strategy used for executing retrieval queries.
#[derive(Debug, Clone, Copy, PartialEq, Eq, Hash, Structural)]
pub enum RetrievalStrategy {
    /// Always forces API embedding search.
    AlwaysEmbed,
    /// Uses the CPU-local tiers only.
    LocalOnly,
    /// Uses cascading retrieval with API fallback.
    Adaptive,
}

/// The name a strategy is written as.
pub open spec fn strategy_label(s: RetrievalStrategy) -> Seq<char> {
    match s {
        RetrievalStrategy::AlwaysEmbed => "always_embed"@,
        RetrievalStrategy::LocalOnly => "local_only"@,
        RetrievalStrategy::Adaptive => "adaptive"@,
    }
}

/// The strategy a lowercased name denotes, if any.
pub open spec fn strategy_named(l: Seq<char>) -> Option<RetrievalStrategy> {
    if l == "always_embed"@ || l == "always-embed"@ || l == "always"@ {
        Some(RetrievalStrategy::AlwaysEmbed)
    } else if l == "local_only"@ || l == "local-only"@ || l == "local"@ {
        Some(RetrievalStrategy::LocalOnly)
    } else if l == "adaptive"@ {
        Some(RetrievalStrategy::Adaptive)
    } else {
        None
    }
}

impl RetrievalStrategy {
    /// The strategy's name.
    pub fn label(&self) -> (r: String)
        ensures
            r@ == strategy_label(*self),
    {
        let mut s = String::new();
        match self {
            RetrievalStrategy::AlwaysEmbed => push_str(&mut s, "always_embed"),
            RetrievalStrategy::LocalOnly => push_str(&mut s, "local_only"),
            RetrievalStrategy::Adaptive => push_str(&mut s, "adaptive"),
        }
        s
    }

    /// Parses a strategy name, ignoring case; an unknown name is an error
    /// naming it.
    pub fn parse(s: &str) -> (r: Result<Self, String>)
        ensures
            match strategy_named(lowercase(s@)) {
                Some(st) => r == Ok::<Self, String>(st),
                None => r matches Err(m) && m@ == "Unknown retrieval strategy: '"@ + s@ + "'"@,
            },
    {
        let lower = to_lowercase(s);
        let l = lower.as_str();
        if str_eq(l, "always_embed") || str_eq(l, "always-embed") || str_eq(l, "always") {
            Ok(RetrievalStrategy::AlwaysEmbed)
        } else if str_eq(l, "local_only") || str_eq(l, "local-only") || str_eq(l, "local") {
            Ok(RetrievalStrategy::LocalOnly)
        } else if str_eq(l, "adaptive") {
            Ok(RetrievalStrategy::Adaptive)
        } else {
            let mut m = String::new();
            push_str(&mut m, "Unknown retrieval strategy: '");
            push_str(&mut m, s);
            push_str(&mut m, "'");
            Err(m)
        }
    }
}

impl std::str::FromStr for RetrievalStrategy {
    type Err = String;

    fn from_str(s: &str) -> (r: Result<Self, Self::Err>)
        ensures
            match strategy_named(lowercase(s@)) {
                Some(st) => r == Ok::<Self, String>(st),
                None => r matches Err(m) && m@ == "Unknown retrieval strategy: '"@ + s@ + "'"@,
            },
    {
        RetrievalStrategy::parse(s)
    }
}

/// A ground-truth benchmark query entry in the corpus.
#[derive(Debug, Clone)]
pub struct BenchmarkQuery {
    /// Query identifier.
    pub id: String,
    /// Natural language or code search query text.
    pub query: String,
    /// Task context.
    pub context: Option<TaskContext>,
    /// Relevant item ids expected to be retrieved.
    pub expected_ids: Vec<String>,
    /// Tags for filtering query subsets.
    pub tags: Vec<String>,
    /// Expected top recommendation id for acceptance testing.
    pub expected_accepted_id: Option<String>,
}

/// Latency percentile statistics in microseconds.
#[derive(Debug, Clone, Copy, PartialEq, Eq, Structural)]
pub struct LatencyStats {
    /// 50th percentile (median) latency.
    pub p50_us: u64,
    /// 95th percentile latency.
    pub p95_us: u64,
    /// 99th percentile latency.
    pub p99_us: u64,
    /// Mean latency, rounded down.
    pub avg_us: u64,
}

impl Default for LatencyStats {
    fn default() -> (s: Self)
        ensures
            s == (LatencyStats { p50_us: 0, p95_us: 0, p99_us: 0, avg_us: 0 }),
    {
        LatencyStats { p50_us: 0, p95_us: 0, p99_us: 0, avg_us: 0 }
    }
}

/// The sequence is in ascending order.
pub open spec fn ascending(s: Seq<u64>) -> bool {
    forall|i: int, j: int| 0 <= i <= j < s.len() ==> s[i] <= s[j]
}

/// Sum of the values.
pub open spec fn sum_of(s: Seq<u64>) -> nat
    decreases s.len(),
{
    if s.len() == 0 {
        0
    } else {
        sum_of(s.drop_last()) + s.last() as nat
    }
}

/// Position of the `pct`-th percentile in a sorted sequence of `len > 0`
/// values: `len * pct / 100`, capped at the last position.
pub open spec fn percentile_index(len: nat, pct: nat) -> int {
    let i = (len * pct / 100) as int;
    if i < len - 1 {
        i
    } else {
        len - 1
    }
}

/// `t` holds the values of `s`, sorted ascending.
pub open spec fn sorted_version(t: Seq<u64>, s: Seq<u64>) -> bool {
    ascending(t) && t.to_multiset() == s.to_multiset()
}

/// The statistics of a non-empty set of latencies with sorted version `t`.
pub open spec fn stats_from_sorted(t: Seq<u64>, s: Seq<u64>) -> LatencyStats {
    LatencyStats {
        p50_us: t[percentile_index(s.len(), 50)],
        p95_us: t[percentile_index(s.len(), 95)],
        p99_us: t[percentile_index(s.len(), 99)],
        avg_us: (sum_of(s) / s.len()) as u64,
    }
}

/// Sorts values ascending.
fn sort_ascending(v: &Vec<u64>) -> (r: Vec<u64>)
    ensures
        sorted_version(r@, v@),
{
    let mut out: Vec<u64> = Vec::new();
    let mut i: usize = 0;
    while i < v.len()
        invariant
            i <= v.len(),
            ascending(out@),
            out@.to_multiset() == v@.take(i as int).to_multiset(),
        decreases v.len() - i,
    {
        let x = v[i];
        let mut p: usize = 0;
        while p < out.len() && out[p] <= x
            invariant
                p <= out.len(),
                forall|k: int| 0 <= k < p ==> out@[k] <= x,
            decreases out.len() - p,
        {
            p = p + 1;
        }
        let ghost before = out@;
        out.insert(p, x);
        proof {
            assert(out@.remove(p as int) =~= before);
            assert(out@[p as int] == x);
            assert(out@.to_multiset().remove(x) =~= before.to_multiset());
            assert(out@.to_multiset().count(x) > 0);
            assert(out@.to_multiset() =~= before.to_multiset().insert(x));
            assert(v@.take(i + 1) =~= v@.take(i as int).push(x));
            assert forall|a: int, b: int| 0 <= a <= b < out@.len() implies out@[a] <= out@[b] by {
                if a < p && b > p {
                    assert(out@[a] == before[a]);
                    assert(out@[b] == before[b - 1]);
                } else if a < p && b == p {
                    assert(out@[a] == before[a]);
                } else if a == p && b > p {
                    assert(out@[b] == before[b - 1]);
                    assert(!(before[p as int] <= x));
                    assert(before[p as int] <= before[b - 1]);
                } else if a > p {
                    assert(out@[a] == before[a - 1]);
                    assert(out@[b] == before[b - 1]);
                } else if b < p {
                    assert(out@[a] == before[a]);
                    assert(out@[b] == before[b]);
                }
            }
        }
        i = i + 1;
    }
    assert(v@.take(v.len() as int) =~= v@);
    out
}

/// Computes latency percentiles: the 50th, 95th and 99th percentile of the
/// sorted latencies (position `len * pct / 100`, capped at the last) and the
/// mean rounded down; all zero for no latencies.
pub fn compute_percentiles(latencies: &Vec<u64>) -> (r: LatencyStats)
    requires
        latencies.len() * 99 <= usize::MAX,
        sum_of(latencies@) <= u64::MAX,
    ensures
        latencies.len() == 0 ==> r == (LatencyStats { p50_us: 0, p95_us: 0, p99_us: 0, avg_us: 0 }),
        latencies.len() > 0 ==> exists|t: Seq<u64>| #[trigger] sorted_version(t, latencies@) && r
            == stats_from_sorted(t, latencies@),
{
    if latencies.len() == 0 {
        return LatencyStats::default();
    }
    let sorted = sort_ascending(latencies);
    let len = sorted.len();
    proof {
        assert(sorted@.to_multiset().len() == latencies@.to_multiset().len());
    }
    let i50 = len * 50 / 100;
    let p50 = if i50 < len - 1 { i50 } else { len - 1 };
    let i95 = len * 95 / 100;
    let p95 = if i95 < len - 1 { i95 } else { len - 1 };
    let i99 = len * 99 / 100;
    let p99 = if i99 < len - 1 { i99 } else { len - 1 };
    let mut sum: u64 = 0;
    let mut i: usize = 0;
    while i < latencies.len()
        invariant
            i <= latencies.len(),
            sum_of(latencies@) <= u64::MAX,
            sum == sum_of(latencies@.take(i as int)),
        decreases latencies.len() - i,
    {
        proof {
            assert(latencies@.take(i + 1).drop_last() =~= latencies@.take(i as int));
            lemma_sum_prefix(latencies@, i + 1);
        }
        sum = sum + latencies[i];
        i = i + 1;
    }
    assert(latencies@.take(latencies.len() as int) =~= latencies@);
    let r = LatencyStats {
        p50_us: sorted[p50],
        p95_us: sorted[p95],
        p99_us: sorted[p99],
        avg_us: sum / (len as u64),
    };
    assert(sorted_version(sorted@, latencies@));
    r
}

proof fn lemma_sum_prefix(s: Seq<u64>, k: int)
    requires
        0 <= k <= s.len(),
    ensures
        sum_of(s.take(k)) <= sum_of(s),
    decreases s.len() - k,
{
    if k < s.len() {
        lemma_sum_prefix(s, k + 1);
        assert(s.take(k + 1).drop_last() =~= s.take(k));
    } else {
        assert(s.take(k) =~= s);
    }
}

/// Results of a regression check comparing a run against a baseline.
#[derive(Debug, Clone)]
pub struct RegressionCheckResult {
    /// True if no regression thresholds were exceeded.
    pub passed: bool,
    /// Human-readable threshold violation details.
    pub violations: Vec<String>,
    /// Summary message.
    pub summary: String,
}

/// Summary of a regression check with `n` violations against a baseline of
/// the given corpus version.
pub open spec fn regression_summary(n: nat, baseline_version: Seq<char>) -> Seq<char> {
    if n == 0 {
        "PASS: Evaluation passed all regression thresholds against baseline (version: "@
            + baseline_version + ")"@
    } else {
        "FAIL: Found "@ + decimal(n) + " regression violation(s) against baseline (version: "@
            + baseline_version + ")"@
    }
}

/// The verdict of a regression check from its violations: passed when there
/// is none, with a summary that counts them and names the baseline version.
pub fn regression_verdict(violations: Vec<String>, baseline_version: &str) -> (r: RegressionCheckResult)
    ensures
        r.passed == (violations@.len() == 0),
        r.violations.deep_view() == violations.deep_view(),
        r.summary@ == regression_summary(violations@.len(), baseline_version@),
{
    let passed = violations.len() == 0;
    let mut summary = String::new();
    if passed {
        push_str(&mut summary, "PASS: Evaluation passed all regression thresholds against baseline (version: ");
    } else {
        push_str(&mut summary, "FAIL: Found ");
        push_decimal(&mut summary, violations.len());
        push_str(&mut summary, " regression violation(s) against baseline (version: ");
    }
    push_str(&mut summary, baseline_version);
    push_str(&mut summary, ")");
    RegressionCheckResult { passed, violations, summary }
}

/// The violation recorded for a strategy that the baseline lacks.
pub fn missing_baseline_violation(strategy_name: &str) -> (m: String)
    ensures
        m@ == "Strategy '"@ + strategy_name@ + "' present in current run but missing in baseline"@,
{
    let mut m = String::new();
    push_str(&mut m, "Strategy '");
    push_str(&mut m, strategy_name);
    push_str(&mut m, "' present in current run but missing in baseline");
    m
}

/// Percentiles never decrease: the median is at most the 95th percentile,
/// which is at most the 99th.
pub proof fn law_percentiles_ordered(t: Seq<u64>, s: Seq<u64>)
    requires
        s.len() > 0,
        sorted_version(t, s),
    ensures
        stats_from_sorted(t, s).p50_us <= stats_from_sorted(t, s).p95_us,
        stats_from_sorted(t, s).p95_us <= stats_from_sorted(t, s).p99_us,
{
    assert(t.to_multiset().len() == s.to_multiset().len());
    let n = s.len();
    assert(n * 50 / 100 <= n * 95 / 100 && n * 95 / 100 <= n * 99 / 100) by (nonlinear_arith)
        requires
            n > 0,
    ;
    assert(0 <= n * 50 / 100) by (nonlinear_arith)
        requires
            n > 0,
    ;
}

/// A sequence has one sorted version: two ascending sequences that hold the
/// same values are equal, so the statistics of `compute_percentiles` are
/// determined by the latencies alone.
pub proof fn law_sorted_version_unique(t1: Seq<u64>, t2: Seq<u64>, s: Seq<u64>)
    requires
        sorted_version(t1, s),
        sorted_version(t2, s),
    ensures
        t1 == t2,
{
    let leq = |a: u64, b: u64| a <= b;
    assert(sorted_by(t1, leq));
    assert(sorted_by(t2, leq));
    assert(total_ordering(leq));
    vstd::seq_lib::lemma_sorted_unique(t1, t2, leq);
}

/// Splitting state after reading `s`: the finished lines and the line in
/// progress, lines being separated by `\n`.
pub open spec fn line_state(s: Seq<char>) -> (Seq<Seq<char>>, Seq<char>)
    decreases s.len(),
{
    if s.len() == 0 {
        (seq![], seq![])
    } else {
        let (done, cur) = line_state(s.drop_last());
        if s.last() == '\n' {
            (done.push(cur), seq![])
        } else {
            (done, cur.push(s.last()))
        }
    }
}

/// A trimmed line holds a record: it is not empty and not a comment
/// (starting with `//` or `#`).
pub open spec fn is_record_line(l: Seq<char>) -> bool {
    &&& l.len() > 0
    &&& !(l.len() >= 2 && l[0] == '/' && l[1] == '/')
    &&& l[0] != '#'
}

/// The trimmed record lines among `lines`, in order.
pub open spec fn record_lines_of(lines: Seq<Seq<char>>) -> Seq<Seq<char>>
    decreases lines.len(),
{
    if lines.len() == 0 {
        seq![]
    } else if is_record_line(trim(lines.last())) {
        record_lines_of(lines.drop_last()).push(trim(lines.last()))
    } else {
        record_lines_of(lines.drop_last())
    }
}

/// The record lines of a JSONL fixture text.
pub open spec fn fixture_records(text: Seq<char>) -> Seq<Seq<char>> {
    record_lines_of(line_state(text).0.push(line_state(text).1))
}

/// Appends `line`, trimmed, when it holds a record.
fn keep_record(out: &mut Vec<String>, line: &Vec<char>)
    ensures
        final(out).deep_view() == if is_record_line(trim(line@)) {
            old(out).deep_view().push(trim(line@))
        } else {
            old(out).deep_view()
        },
{
    let raw = string_from_chars(line);
    let t = trim_chars(raw.as_str());
    let tv = chars_of(t.as_str());
    let keep = tv.len() > 0 && !(tv.len() >= 2 && tv[0] == '/' && tv[1] == '/') && tv[0] != '#';
    if keep {
        out.push(t);
        assert(out.deep_view() =~= old(out).deep_view().push(trim(line@)));
    }
}

/// The lines of a JSONL fixture text that hold records: each line trimmed,
/// empty lines and comment lines (`//` or `#`) left out.
pub fn fixture_record_lines(text: &str) -> (r: Vec<String>)
    ensures
        r.deep_view() == fixture_records(text@),
{
    let v = chars_of(text);
    let mut out: Vec<String> = Vec::new();
    let mut cur: Vec<char> = Vec::new();
    let mut i: usize = 0;
    while i < v.len()
        invariant
            i <= v.len(),
            v@ == text@,
            cur@ == line_state(v@.take(i as int)).1,
            out.deep_view() == record_lines_of(line_state(v@.take(i as int)).0),
        decreases v.len() - i,
    {
        assert(v@.take(i + 1).drop_last() =~= v@.take(i as int));
        let c = v[i];
        if c == '\n' {
            proof {
                let ls = line_state(v@.take(i as int)).0;
                assert(ls.push(cur@).drop_last() =~= ls);
            }
            keep_record(&mut out, &cur);
            cur = Vec::new();
        } else {
            cur.push(c);
        }
        i = i + 1;
    }
    assert(v@.take(v.len() as int) =~= v@);
    proof {
        let ls = line_state(v@).0;
        assert(ls.push(cur@).drop_last() =~= ls);
    }
    keep_record(&mut out, &cur);
    out
}

/// Expected evidence judgment of one labelled candidate.
#[derive(Debug, Clone)]
pub struct EvidenceFixtureLabel {
    /// The candidate is relevant.
    pub relevance: bool,
    /// The candidate is useful evidence.
    pub useful_evidence: bool,
    /// The candidate contradicts the query.
    pub contradiction: bool,
    /// The candidate reads like an instruction.
    pub instruction_like: bool,
    /// The disposition the candidate should get (`keep`, `flag`, ...).
    pub expected_disposition: String,
}

/// The four expected dimensions of a label, in the order relevance, useful
/// evidence, contradiction, instruction-likeness.
pub open spec fn label_dimensions(l: EvidenceFixtureLabel) -> Seq<bool> {
    seq![l.relevance, l.useful_evidence, l.contradiction, l.instruction_like]
}

/// Position of the last entry keyed `key` (later entries override earlier
/// ones, as when a map is built from the entries).
#[verifier::opaque]
pub open spec fn last_keyed<V>(entries: Seq<(String, V)>, key: Seq<char>) -> Option<int> {
    if exists|j: int| 0 <= j < entries.len() && entries[j].0@ == key {
        Some(
            choose|j: int|
                0 <= j < entries.len() && entries[j].0@ == key && forall|k: int|
                    j < k < entries.len() ==> entries[k].0@ != key,
        )
    } else {
        None
    }
}

/// Replays fixture labels as judgments: labels are keyed by query text,
/// then by candidate id.
#[derive(Debug, Clone)]
pub struct EvidenceFixtureJudge {
    labels: Vec<(String, Vec<(String, EvidenceFixtureLabel)>)>,
}

/// The label of candidate `id` under query `query`, if both are labelled.
pub open spec fn fixture_label(
    labels: Seq<(String, Vec<(String, EvidenceFixtureLabel)>)>,
    query: Seq<char>,
    id: Seq<char>,
) -> Option<EvidenceFixtureLabel> {
    match last_keyed(labels, query) {
        Some(q) => match last_keyed(labels[q].1@, id) {
            Some(c) => Some(labels[q].1@[c].1),
            None => None,
        },
        None => None,
    }
}

/// Position of the last entry keyed `key`.
fn find_last_keyed<V>(entries: &Vec<(String, V)>, key: &str) -> (r: Option<usize>)
    ensures
        match r {
            Some(j) => j < entries.len() && last_keyed(entries@, key@) == Some(j as int),
            None => last_keyed(entries@, key@) is None,
        },
{
    let mut j: usize = entries.len();
    while j > 0
        invariant
            j <= entries.len(),
            forall|k: int| j <= k < entries.len() ==> entries@[k].0@ != key@,
        decreases j,
    {
        if str_eq(entries[j - 1].0.as_str(), key) {
            proof {
                reveal(last_keyed);
                let e = entries@;
                let w = (j - 1) as int;
                assert(0 <= w < e.len() && e[w].0@ == key@ && forall|k: int| w < k < e.len() ==> e[k].0@ != key@);
                let c = choose|c: int|
                    0 <= c < e.len() && e[c].0@ == key@ && forall|k: int| c < k < e.len() ==> e[k].0@ != key@;
                assert(c == w) by {
                    if c < w {
                        assert(e[w].0@ != key@);
                    } else if c > w {
                    }
                }
            }
            return Some(j - 1);
        }
        j = j - 1;
    }
    proof {
        reveal(last_keyed);
    }
    None
}

impl EvidenceFixtureJudge {
    /// Builds a judge from `query text -> (candidate id -> label)` entries.
    pub fn new(labels: Vec<(String, Vec<(String, EvidenceFixtureLabel)>)>) -> (j: Self)
        ensures
            j.labels() == labels@,
    {
        EvidenceFixtureJudge { labels }
    }

    /// The judge's label entries.
    pub closed spec fn labels(&self) -> Seq<(String, Vec<(String, EvidenceFixtureLabel)>)> {
        self.labels@
    }

    /// The replayed dimensions of candidate `id` under `query`: its label's
    /// four dimensions, or all false for a candidate without a label.
    pub fn replayed_dimensions(&self, query: &str, candidate_id: &str) -> (r: [bool; 4])
        ensures
            r@ == match fixture_label(self.labels(), query@, candidate_id@) {
                Some(l) => label_dimensions(l),
                None => seq![false, false, false, false],
            },
    {
        match find_last_keyed(&self.labels, query) {
            Some(q) => match find_last_keyed(&self.labels[q].1, candidate_id) {
                Some(c) => {
                    let l = &self.labels[q].1[c].1;
                    let r = [l.relevance, l.useful_evidence, l.contradiction, l.instruction_like];
                    assert(r@ =~= label_dimensions(*l));
                    r
                },
                None => {
                    let r = [false, false, false, false];
                    assert(r@ =~= seq![false, false, false, false]);
                    r
                },
            },
            None => {
                let r = [false, false, false, false];
                assert(r@ =~= seq![false, false, false, false]);
                r
            },
        }
    }
}

/// Accumulated classification outcomes of one evidence comparison run.
#[derive(Debug, Clone, Copy)]
pub struct EvidenceConfusion {
    /// True positives per dimension.
    pub tp: [u64; 4],
    /// False positives per dimension.
    pub fp: [u64; 4],
    /// False negatives per dimension.
    pub fn_: [u64; 4],
    /// True negatives per dimension.
    pub tn: [u64; 4],
    /// Classified candidates per disposition, in rank order.
    pub dispositions: [u64; 4],
    /// Labelled candidates expected to be kept that were dropped.
    pub false_drops: u64,
    /// Classified candidates that carry a label.
    pub labelled: u64,
}

/// `c` plus one at position `i`.
pub open spec fn bumped(c: Seq<u64>, i: int) -> Seq<u64> {
    c.update(i, (c[i] + 1) as u64)
}

/// Counters `before` after one labelled dimension with prediction `p` and
/// expectation `e`: one more true positive, false positive, false negative
/// or true negative.
pub open spec fn count_dimension(
    before: (Seq<u64>, Seq<u64>, Seq<u64>, Seq<u64>),
    d: int,
    p: bool,
    e: bool,
) -> (Seq<u64>, Seq<u64>, Seq<u64>, Seq<u64>) {
    let (tp, fp, fn_, tn) = before;
    if p && e {
        (bumped(tp, d), fp, fn_, tn)
    } else if p && !e {
        (tp, bumped(fp, d), fn_, tn)
    } else if !p && e {
        (tp, fp, bumped(fn_, d), tn)
    } else {
        (tp, fp, fn_, bumped(tn, d))
    }
}

/// Counters after folding all four dimensions.
pub open spec fn count_dimensions(
    before: (Seq<u64>, Seq<u64>, Seq<u64>, Seq<u64>),
    predicted: Seq<bool>,
    expected: Seq<bool>,
) -> (Seq<u64>, Seq<u64>, Seq<u64>, Seq<u64>) {
    let a = count_dimension(before, 0, predicted[0], expected[0]);
    let b = count_dimension(a, 1, predicted[1], expected[1]);
    let c = count_dimension(b, 2, predicted[2], expected[2]);
    count_dimension(c, 3, predicted[3], expected[3])
}

impl EvidenceConfusion {
    /// No outcome counted yet.
    pub fn new() -> (c: Self)
        ensures
            c.tp@ == seq![0u64, 0, 0, 0],
            c.fp@ == seq![0u64, 0, 0, 0],
            c.fn_@ == seq![0u64, 0, 0, 0],
            c.tn@ == seq![0u64, 0, 0, 0],
            c.dispositions@ == seq![0u64, 0, 0, 0],
            c.false_drops == 0,
            c.labelled == 0,
    {
        let c = EvidenceConfusion {
            tp: [0, 0, 0, 0],
            fp: [0, 0, 0, 0],
            fn_: [0, 0, 0, 0],
            tn: [0, 0, 0, 0],
            dispositions: [0, 0, 0, 0],
            false_drops: 0,
            labelled: 0,
        };
        assert(c.tp@ =~= seq![0u64, 0, 0, 0]);
        assert(c.fp@ =~= seq![0u64, 0, 0, 0]);
        assert(c.fn_@ =~= seq![0u64, 0, 0, 0]);
        assert(c.tn@ =~= seq![0u64, 0, 0, 0]);
        assert(c.dispositions@ =~= seq![0u64, 0, 0, 0]);
        c
    }

    /// Counts one classified hit: its disposition always; for a labelled hit
    /// also the label, each dimension's prediction against its expectation,
    /// and a false drop when a hit expected to be kept was dropped.
    pub fn record_hit(
        &mut self,
        disposition: EvidenceDisposition,
        predicted: [bool; 4],
        label: Option<&EvidenceFixtureLabel>,
    )
        requires
            forall|i: int| 0 <= i < 4 ==> old(self).tp@[i] < u64::MAX && old(self).fp@[i] < u64::MAX
                && old(self).fn_@[i] < u64::MAX && old(self).tn@[i] < u64::MAX && old(
                self,
            ).dispositions@[i] < u64::MAX,
            old(self).false_drops < u64::MAX,
            old(self).labelled < u64::MAX,
        ensures
            final(self).dispositions@ == bumped(old(self).dispositions@, rank_of(disposition) as int),
            label is None ==> {
                &&& final(self).tp == old(self).tp
                &&& final(self).fp == old(self).fp
                &&& final(self).fn_ == old(self).fn_
                &&& final(self).tn == old(self).tn
                &&& final(self).labelled == old(self).labelled
                &&& final(self).false_drops == old(self).false_drops
            },
            label matches Some(l) ==> {
                &&& (final(self).tp@, final(self).fp@, final(self).fn_@, final(self).tn@)
                    == count_dimensions(
                    (old(self).tp@, old(self).fp@, old(self).fn_@, old(self).tn@),
                    predicted@,
                    label_dimensions(*l),
                )
                &&& final(self).labelled == old(self).labelled + 1
                &&& final(self).false_drops == old(self).false_drops + if l.expected_disposition@
                    == "keep"@ && disposition == EvidenceDisposition::Drop {
                    1int
                } else {
                    0int
                }
            },
    {
        let r = disposition.rank() as usize;
        let v = self.dispositions[r];
        self.dispositions[r] = v + 1;
        assert(self.dispositions@ =~= bumped(old(self).dispositions@, rank_of(disposition) as int));
        match label {
            None => {},
            Some(l) => {
                self.labelled = self.labelled + 1;
                self.count_one(0, predicted[0], l.relevance);
                self.count_one(1, predicted[1], l.useful_evidence);
                self.count_one(2, predicted[2], l.contradiction);
                self.count_one(3, predicted[3], l.instruction_like);
                assert(label_dimensions(*l) =~= seq![l.relevance, l.useful_evidence, l.contradiction, l.instruction_like]);
                if str_eq(l.expected_disposition.as_str(), "keep") && disposition == EvidenceDisposition::Drop {
                    self.false_drops = self.false_drops + 1;
                }
            },
        }
    }

    /// Counts the outcome of dimension `d`: prediction `p` against expectation `e`.
    fn count_one(&mut self, d: usize, p: bool, e: bool)
        requires
            d < 4,
            old(self).tp@[d as int] < u64::MAX,
            old(self).fp@[d as int] < u64::MAX,
            old(self).fn_@[d as int] < u64::MAX,
            old(self).tn@[d as int] < u64::MAX,
        ensures
            (final(self).tp@, final(self).fp@, final(self).fn_@, final(self).tn@) == count_dimension(
                (old(self).tp@, old(self).fp@, old(self).fn_@, old(self).tn@),
                d as int,
                p,
                e,
            ),
            final(self).dispositions == old(self).dispositions,
            final(self).labelled == old(self).labelled,
            final(self).false_drops == old(self).false_drops,
    {
        if p && e {
            let x = self.tp[d];
            self.tp[d] = x + 1;
            assert(self.tp@ =~= bumped(old(self).tp@, d as int));
        } else if p && !e {
            let x = self.fp[d];
            self.fp[d] = x + 1;
            assert(self.fp@ =~= bumped(old(self).fp@, d as int));
        } else if !p && e {
            let x = self.fn_[d];
            self.fn_[d] = x + 1;
            assert(self.fn_@ =~= bumped(old(self).fn_@, d as int));
        } else {
            let x = self.tn[d];
            self.tn[d] = x + 1;
            assert(self.tn@ =~= bumped(old(self).tn@, d as int));
        }
    }
}

/// Item `i` ranks before item `j`: more matches, or as many and earlier.
pub open spec fn ranks_before(counts: Seq<usize>, i: int, j: int) -> bool {
    counts[i] > counts[j] || (counts[i] == counts[j] && i < j)
}

/// `r` lists the best `top_k` items with at least one match, best first:
/// items with more matches first, ties in item order.
pub open spec fn is_match_ranking(counts: Seq<usize>, top_k: nat, r: Seq<usize>) -> bool {
    &&& r.len() <= top_k
    &&& forall|k: int| 0 <= k < r.len() ==> #[trigger] r[k] < counts.len() && counts[r[k] as int] > 0
    &&& forall|a: int, b: int| 0 <= a < b < r.len() ==> ranks_before(counts, #[trigger] r[a] as int, #[trigger] r[b] as int)
    &&& forall|i: int|
        0 <= i < counts.len() && counts[i] > 0 && !r.contains(i as usize) ==> r.len() == top_k && forall|k: int|
            0 <= k < r.len() ==> ranks_before(counts, #[trigger] r[k] as int, i)
}

/// Ranks items by their match counts: the indices of the `top_k` items with
/// the most matches (at least one), ties kept in item order.
pub fn rank_by_matches(counts: &Vec<usize>, top_k: usize) -> (r: Vec<usize>)
    ensures
        is_match_ranking(counts@, top_k as nat, r@),
{
    let n = counts.len();
    let mut chosen: Vec<bool> = Vec::new();
    let mut i: usize = 0;
    while i < n
        invariant
            i <= n,
            chosen@.len() == i,
            forall|k: int| 0 <= k < i ==> !chosen@[k],
        decreases n - i,
    {
        chosen.push(false);
        i = i + 1;
    }
    let mut r: Vec<usize> = Vec::new();
    let mut done = false;
    while r.len() < top_k && !done
        invariant
            n == counts.len(),
            chosen@.len() == n,
            r@.len() <= top_k,
            forall|k: int| 0 <= k < r@.len() ==> #[trigger] r@[k] < n && counts@[r@[k] as int] > 0,
            forall|a: int, b: int| 0 <= a < b < r@.len() ==> ranks_before(counts@, #[trigger] r@[a] as int, #[trigger] r@[b] as int),
            forall|j: int| 0 <= j < n ==> (chosen@[j] <==> r@.contains(j as usize)),
            forall|j: int|
                0 <= j < n && counts@[j] > 0 && !chosen@[j] ==> forall|k: int|
                    0 <= k < r@.len() ==> ranks_before(counts@, #[trigger] r@[k] as int, j),
            done ==> forall|j: int| 0 <= j < n && counts@[j] > 0 ==> chosen@[j],
        decreases top_k - r@.len(), if done { 0int } else { 1int },
    {
        let mut best: Option<usize> = None;
        let mut j: usize = 0;
        while j < n
            invariant
                n == counts.len(),
                chosen@.len() == n,
                j <= n,
                match best {
                    Some(b) => b < j && counts@[b as int] > 0 && !chosen@[b as int] && forall|q: int|
                        0 <= q < j && counts@[q] > 0 && !chosen@[q] && q != b ==> ranks_before(counts@, b as int, q),
                    None => forall|q: int| 0 <= q < j ==> !(counts@[q] > 0 && !chosen@[q]),
                },
            decreases n - j,
        {
            if counts[j] > 0 && !chosen[j] {
                match best {
                    None => {
                        best = Some(j);
                    },
                    Some(b) => {
                        if counts[j] > counts[b] {
                            best = Some(j);
                        }
                    },
                }
            }
            j = j + 1;
        }
        match best {
            None => {
                done = true;
            },
            Some(b) => {
                let ghost before = r@;
                proof {
                    assert forall|k: int| 0 <= k < before.len() implies ranks_before(counts@, #[trigger] before[k] as int, b as int) by {}
                }
                r.push(b);
                chosen.set(b, true);
                proof {
                    assert forall|jj: int| 0 <= jj < n implies (chosen@[jj] <==> r@.contains(jj as usize)) by {
                        if jj == b as int {
                            assert(r@[r@.len() - 1] == b);
                        } else {
                            if r@.contains(jj as usize) {
                                let k = choose|k: int| 0 <= k < r@.len() && r@[k] == jj as usize;
                                assert(k < before.len());
                                assert(before[k] == jj as usize);
                            }
                            if before.contains(jj as usize) {
                                let k = choose|k: int| 0 <= k < before.len() && before[k] == jj as usize;
                                assert(r@[k] == jj as usize);
                            }
                        }
                    }
                    assert forall|a: int, c: int| 0 <= a < c < r@.len() implies ranks_before(counts@, #[trigger] r@[a] as int, #[trigger] r@[c] as int) by {
                        if c == r@.len() - 1 {
                            assert(r@[a] == before[a]);
                        } else {
                            assert(r@[a] == before[a]);
                            assert(r@[c] == before[c]);
                        }
                    }
                    assert forall|jj: int|
                        0 <= jj < n && counts@[jj] > 0 && !chosen@[jj] implies forall|k: int|
                            0 <= k < r@.len() ==> ranks_before(counts@, #[trigger] r@[k] as int, jj) by {
                        assert forall|k: int| 0 <= k < r@.len() implies ranks_before(counts@, #[trigger] r@[k] as int, jj) by {
                            if k < before.len() {
                                assert(r@[k] == before[k]);
                            }
                        }
                    }
                }
            },
        }
    }
    proof {
        assert forall|i: int|
            0 <= i < counts@.len() && counts@[i] > 0 && !r@.contains(i as usize) implies r@.len() == top_k && forall|k: int|
                0 <= k < r@.len() ==> ranks_before(counts@, #[trigger] r@[k] as int, i) by {
            assert(!chosen@[i]);
        }
    }
    r
}

/// Match counts of texts against tokens: for each text, how many tokens
/// occur in its lowercase form.
pub open spec fn match_counts(tokens: Seq<Seq<char>>, texts: Seq<Seq<char>>) -> Seq<usize> {
    Seq::new(
        texts.len(),
        |i: int| tokens.filter(|t: Seq<char>| contains_seq(lowercase(texts[i]), t)).len() as usize,
    )
}

/// Keyword search over item texts, used when the cascade gives no result:
/// the query's stripped lowercased words are matched against each text's
/// lowercase form, and the best `top_k` items with at least one match are
/// returned, most matches first, ties in item order.
pub fn keyword_fallback_search(query: &str, texts: &Vec<String>, top_k: usize) -> (r: Vec<usize>)
    ensures
        exists|toks: Seq<Seq<char>>|
            #![trigger match_counts(toks, texts.deep_view())]
            toks.no_duplicates() && toks.to_set() == stripped_words_of(query@, 1) && is_match_ranking(
                match_counts(toks, texts.deep_view()),
                top_k as nat,
                r@,
            ),
{
    let tokens = stripped_words(query, 1);
    let ghost tv = tokens.deep_view();
    let ghost xs = texts.deep_view();
    let mut counts: Vec<usize> = Vec::new();
    let mut i: usize = 0;
    while i < texts.len()
        invariant
            i <= texts.len(),
            tv == tokens.deep_view(),
            xs == texts.deep_view(),
            counts@.len() == i,
            forall|k: int| 0 <= k < i ==> #[trigger] counts@[k] == match_counts(tv, xs)[k],
        decreases texts.len() - i,
    {
        let c = count_contained(&tokens, texts[i].as_str());
        assert(xs[i as int] == texts@[i as int]@);
        counts.push(c);
        i = i + 1;
    }
    assert(counts@ =~= match_counts(tv, xs));
    let r = rank_by_matches(&counts, top_k);
    assert(match_counts(tv, xs) == counts@);
    r
}

/// Where a query was resolved: a tier that answered it (BM25 first, then
/// HDC, then the concept graph) or the API.
pub open spec fn tier_bucket_of(tiers: Seq<Seq<char>>) -> nat {
    if tiers.contains("bm25"@) {
        1
    } else if tiers.contains("hdc"@) {
        2
    } else if tiers.contains("concept_graph"@) {
        3
    } else {
        4
    }
}

/// Which tier a query's contributing tiers count towards (1 to 4).
pub fn tier_bucket(tiers: &Vec<String>) -> (b: u8)
    ensures
        b == tier_bucket_of(tiers.deep_view()),
{
    if crate::text::contains_string(tiers, "bm25") {
        1
    } else if crate::text::contains_string(tiers, "hdc") {
        2
    } else if crate::text::contains_string(tiers, "concept_graph") {
        3
    } else {
        4
    }
}

/// Whether a query's top result is an accepted recommendation: it is the
/// expected accepted id, or, when none is expected, a successful item.
pub fn recommendation_accepted(
    top: Option<&str>,
    expected_accepted_id: Option<&str>,
    successful_ids: &Vec<String>,
) -> (b: bool)
    ensures
        b == match top {
            None => false,
            Some(t) => match expected_accepted_id {
                Some(e) => t@ == e@,
                None => successful_ids.deep_view().contains(t@),
            },
        },
{
    match top {
        None => false,
        Some(t) => match expected_accepted_id {
            Some(e) => str_eq(t, e),
            None => crate::text::contains_string(successful_ids, t),
        },
    }
}

/// How one query resolves under a strategy: the retrieved ids, the API
/// calls it counts and the tiers credited.
#[derive(Debug, Clone)]
pub struct QueryResolution {
    /// Retrieved ids, best first.
    pub retrieved_ids: Vec<String>,
    /// API calls counted.
    pub api_calls: u32,
    /// Tiers credited with the result.
    pub tiers: Vec<String>,
}

/// What the cascade answered for one query.
#[derive(Debug, Clone)]
pub struct CascadeAnswer {
    /// Retrieved ids, best first.
    pub episode_ids: Vec<String>,
    /// API calls the cascade counted.
    pub api_calls: u32,
    /// Tiers that contributed.
    pub contributing_tiers: Vec<String>,
}

/// A vector holding one string, `lit`.
fn one_string(lit: &str) -> (v: Vec<String>)
    ensures
        v.deep_view() == seq![lit@],
{
    let mut t = String::new();
    push_str(&mut t, lit);
    let v = vec![t];
    assert(v.deep_view() =~= seq![lit@]);
    v
}

/// Resolves one query under a strategy. With a cascade answer, always-embed
/// counts one API call credited to `api`, local-only none credited to the
/// answer's tiers, and adaptive the answer's own calls and tiers. Without
/// one, the keyword fallback's ids are used: always-embed counts a call to
/// `api`, local-only none to `bm25`, adaptive none to `bm25` when the
/// fallback found something and otherwise one to `api_fallback_needed`.
pub fn resolve_query_strategy(
    answer: Option<CascadeAnswer>,
    fallback_ids: Vec<String>,
    strategy: RetrievalStrategy,
) -> (r: QueryResolution)
    ensures
        match answer {
            Some(a) => {
                &&& r.retrieved_ids.deep_view() == a.episode_ids.deep_view()
                &&& match strategy {
                    RetrievalStrategy::AlwaysEmbed => r.api_calls == 1 && r.tiers.deep_view() == seq!["api"@],
                    RetrievalStrategy::LocalOnly => r.api_calls == 0 && r.tiers.deep_view()
                        == a.contributing_tiers.deep_view(),
                    RetrievalStrategy::Adaptive => r.api_calls == a.api_calls && r.tiers.deep_view()
                        == a.contributing_tiers.deep_view(),
                }
            },
            None => {
                &&& r.retrieved_ids.deep_view() == fallback_ids.deep_view()
                &&& match strategy {
                    RetrievalStrategy::AlwaysEmbed => r.api_calls == 1 && r.tiers.deep_view() == seq!["api"@],
                    RetrievalStrategy::LocalOnly => r.api_calls == 0 && r.tiers.deep_view() == seq!["bm25"@],
                    RetrievalStrategy::Adaptive => if fallback_ids@.len() > 0 {
                        r.api_calls == 0 && r.tiers.deep_view() == seq!["bm25"@]
                    } else {
                        r.api_calls == 1 && r.tiers.deep_view() == seq!["api_fallback_needed"@]
                    },
                }
            },
        },
{
    match answer {
        Some(a) => match strategy {
            RetrievalStrategy::AlwaysEmbed => QueryResolution { retrieved_ids: a.episode_ids, api_calls: 1, tiers: one_string("api") },
            RetrievalStrategy::LocalOnly => QueryResolution {
                retrieved_ids: a.episode_ids,
                api_calls: 0,
                tiers: a.contributing_tiers,
            },
            RetrievalStrategy::Adaptive => QueryResolution {
                retrieved_ids: a.episode_ids,
                api_calls: a.api_calls,
                tiers: a.contributing_tiers,
            },
        },
        None => {
            let found = fallback_ids.len() > 0;
            match strategy {
                RetrievalStrategy::AlwaysEmbed => QueryResolution { retrieved_ids: fallback_ids, api_calls: 1, tiers: one_string("api") },
                RetrievalStrategy::LocalOnly => QueryResolution { retrieved_ids: fallback_ids, api_calls: 0, tiers: one_string("bm25") },
                RetrievalStrategy::Adaptive => if found {
                    QueryResolution { retrieved_ids: fallback_ids, api_calls: 0, tiers: one_string("bm25") }
                } else {
                    QueryResolution { retrieved_ids: fallback_ids, api_calls: 1, tiers: one_string("api_fallback_needed") }
                },
            }
        },
    }
}

} // verus!
