//! Reconstructive retrieval windows: step ranges around retrieval hits.
//!
//! Each hit that passes the score threshold is widened into a window of
//! steps: `backward_steps` before its step and `forward_steps` after it,
//! clipped at step 0 and at the episode's step count. A window longer than
//! `max_window_size` is trimmed from both ends, half of the excess from the
//! front (rounded down) and the rest from the back. Windows of the same
//! episode can then be merged into one window over the union of their ranges.
//!
//! Episodes are identified by the 128-bit value of their UUID. Scores are
//! not handled here: whether a hit passes the threshold arrives as a flag.

use vstd::prelude::*;

verus! {

/// The step extent of a window configuration.
#[derive(Debug, Clone, Copy, PartialEq, Eq)]
pub struct StepBounds {
    /// Number of steps to expand before the hit.
    pub backward_steps: usize,
    /// Number of steps to expand after the hit.
    pub forward_steps: usize,
    /// Maximum window size.
    pub max_window_size: usize,
}

/// The step range of one expanded window.
#[derive(Debug, Clone, Copy, PartialEq, Eq)]
pub struct WindowSpan {
    /// First step of the window.
    pub start_step: usize,
    /// Last step of the window.
    pub end_step: usize,
    /// Number of steps in the window.
    pub step_count: usize,
    /// Number of steps before trimming to the maximum size.
    pub full_size: usize,
    /// Whether the window was trimmed to the maximum size.
    pub truncated: bool,
}

/// First step of the untrimmed window around `center`.
pub open spec fn raw_start(center: int, b: StepBounds) -> int {
    if center >= b.backward_steps {
        center - b.backward_steps
    } else {
        0
    }
}

/// Last step of the untrimmed window around `center` in an episode of
/// `count` steps.
pub open spec fn raw_end(center: int, count: int, b: StepBounds) -> int {
    if center + b.forward_steps <= count {
        center + b.forward_steps
    } else {
        count
    }
}

/// The window around `center` can be computed without overflow or
/// underflow: the forward end fits, the end is not before the start, the
/// size fits, and a maximum size of at least one step.
pub open spec fn span_defined(center: int, count: int, b: StepBounds) -> bool {
    &&& center + b.forward_steps <= usize::MAX
    &&& raw_start(center, b) <= raw_end(center, count, b)
    &&& raw_end(center, count, b) - raw_start(center, b) < usize::MAX
    &&& b.max_window_size >= 1
}

/// The window around `center` in an episode of `count` steps.
#[verifier::opaque]
pub open spec fn span_of(center: int, count: int, b: StepBounds) -> WindowSpan {
    let s = raw_start(center, b);
    let e = raw_end(center, count, b);
    let full = e - s + 1;
    if full > b.max_window_size {
        let excess = full - b.max_window_size;
        let trim_back = excess / 2;
        let trim_forward = excess - trim_back;
        WindowSpan {
            start_step: (s + trim_back) as usize,
            end_step: (e - trim_forward) as usize,
            step_count: (e - trim_forward - (s + trim_back) + 1) as usize,
            full_size: full as usize,
            truncated: true,
        }
    } else {
        WindowSpan {
            start_step: s as usize,
            end_step: e as usize,
            step_count: full as usize,
            full_size: full as usize,
            truncated: false,
        }
    }
}

/// Computes the window around `center_step` in an episode of
/// `episode_steps` steps.
pub fn window_span(center_step: usize, episode_steps: usize, bounds: &StepBounds) -> (w: WindowSpan)
    requires
        span_defined(center_step as int, episode_steps as int, *bounds),
    ensures
        w == span_of(center_step as int, episode_steps as int, *bounds),
        w.step_count <= bounds.max_window_size,
        w.truncated ==> w.step_count == bounds.max_window_size,
{
    reveal(span_of);
    let start_step = if center_step >= bounds.backward_steps {
        center_step - bounds.backward_steps
    } else {
        0
    };
    let forward_end = center_step + bounds.forward_steps;
    let end_step = if forward_end <= episode_steps {
        forward_end
    } else {
        episode_steps
    };
    let window_size = end_step - start_step + 1;
    if window_size > bounds.max_window_size {
        let excess = window_size - bounds.max_window_size;
        let trim_back = excess / 2;
        let trim_forward = excess - trim_back;
        let new_start = start_step + trim_back;
        let new_end = end_step - trim_forward;
        WindowSpan {
            start_step: new_start,
            end_step: new_end,
            step_count: new_end - new_start + 1,
            full_size: window_size,
            truncated: true,
        }
    } else {
        WindowSpan {
            start_step,
            end_step,
            step_count: window_size,
            full_size: window_size,
            truncated: false,
        }
    }
}

/// The parts of a retrieval hit that window expansion reads.
#[derive(Debug, Clone, Copy, PartialEq, Eq)]
pub struct HitRef {
    /// Episode of the hit.
    pub episode_id: u128,
    /// Step of the hit within its episode, if it names one.
    pub step_number: Option<usize>,
    /// Whether the hit's score meets the minimum score threshold.
    pub passes_threshold: bool,
}

/// The step a hit's window is centred on: its step, or step 1.
pub open spec fn center_of(h: HitRef) -> int {
    match h.step_number {
        Some(s) => s as int,
        None => 1,
    }
}

/// Index of the first entry describing episode `id`.
#[verifier::opaque]
pub open spec fn first_entry(entries: Seq<(u128, usize)>, id: u128) -> Option<int> {
    if exists|j: int| 0 <= j < entries.len() && entries[j].0 == id {
        Some(
            choose|j: int|
                0 <= j < entries.len() && entries[j].0 == id && forall|k: int|
                    0 <= k < j ==> entries[k].0 != id,
        )
    } else {
        None
    }
}

/// Step count of episode `id`: that of its first entry, or 0.
pub open spec fn steps_of(entries: Seq<(u128, usize)>, id: u128) -> int {
    match first_entry(entries, id) {
        Some(j) => entries[j].1 as int,
        None => 0,
    }
}

/// One expanded window and where it came from.
#[derive(Debug, Clone, Copy, PartialEq, Eq)]
pub struct PlacedSpan {
    /// Position of the hit among the hits.
    pub hit_index: usize,
    /// Position of the hit's episode among the episode entries, if listed.
    pub entry_index: Option<usize>,
    /// The window's steps.
    pub span: WindowSpan,
}

/// Window of hit `h` at position `i`, if it gets one: a hit gets a window
/// when it passes the threshold and, with `skip_unlisted`, when its episode
/// is listed.
pub open spec fn placed_hit(
    h: HitRef,
    i: int,
    entries: Seq<(u128, usize)>,
    b: StepBounds,
    skip_unlisted: bool,
) -> Option<PlacedSpan> {
    let entry = first_entry(entries, h.episode_id);
    if !h.passes_threshold || (skip_unlisted && entry is None) {
        None
    } else {
        Some(
            PlacedSpan {
                hit_index: i as usize,
                entry_index: match entry {
                    Some(j) => Some(j as usize),
                    None => None,
                },
                span: span_of(center_of(h), steps_of(entries, h.episode_id), b),
            },
        )
    }
}

/// Window of hit `i`, if it gets one.
pub open spec fn placed(
    hits: Seq<HitRef>,
    entries: Seq<(u128, usize)>,
    b: StepBounds,
    skip_unlisted: bool,
    i: int,
) -> Option<PlacedSpan> {
    placed_hit(hits[i], i, entries, b, skip_unlisted)
}

/// The windows of the hits, in hit order.
pub open spec fn planned_spans(
    hits: Seq<HitRef>,
    entries: Seq<(u128, usize)>,
    b: StepBounds,
    skip_unlisted: bool,
) -> Seq<PlacedSpan>
    decreases hits.len(),
{
    if hits.len() == 0 {
        seq![]
    } else {
        let prev = planned_spans(hits.drop_last(), entries, b, skip_unlisted);
        match placed(hits, entries, b, skip_unlisted, hits.len() - 1) {
            Some(p) => prev.push(p),
            None => prev,
        }
    }
}

/// Total number of steps over windows.
pub open spec fn total_steps(spans: Seq<PlacedSpan>) -> int
    decreases spans.len(),
{
    if spans.len() == 0 {
        0
    } else {
        total_steps(spans.drop_last()) + spans.last().span.step_count
    }
}

/// Whether any of the windows was trimmed.
pub open spec fn any_truncated(spans: Seq<PlacedSpan>) -> bool {
    exists|k: int| 0 <= k < spans.len() && #[trigger] spans[k].span.truncated
}

/// Every window that is computed can be computed, and their total fits.
pub open spec fn expansion_defined(
    hits: Seq<HitRef>,
    entries: Seq<(u128, usize)>,
    b: StepBounds,
    skip_unlisted: bool,
) -> bool {
    &&& forall|i: int|
        0 <= i < hits.len() && #[trigger] placed(hits, entries, b, skip_unlisted, i) is Some
            ==> span_defined(center_of(hits[i]), steps_of(entries, hits[i].episode_id), b)
    &&& total_steps(planned_spans(hits, entries, b, skip_unlisted)) <= usize::MAX
}

/// A window's range runs forward, its step count is the number of steps
/// it covers, and it is no larger than the maximum window size.
pub open spec fn span_shaped(s: PlacedSpan, b: StepBounds) -> bool {
    &&& s.span.start_step <= s.span.end_step
    &&& s.span.step_count == s.span.end_step - s.span.start_step + 1
    &&& s.span.step_count <= b.max_window_size
}

/// Result of expanding hits into windows.
#[derive(Debug, Clone)]
pub struct SpanExpansion {
    /// The windows, in hit order.
    pub spans: Vec<PlacedSpan>,
    /// Total steps across all windows.
    pub total_steps: usize,
    /// Number of hits before expansion.
    pub original_hit_count: usize,
    /// Whether any window was trimmed to the maximum size.
    pub truncated: bool,
}

/// Position of the first entry for episode `id`.
fn find_entry(entries: &Vec<(u128, usize)>, id: u128) -> (r: Option<usize>)
    ensures
        match r {
            Some(j) => first_entry(entries@, id) == Some(j as int) && j < entries.len(),
            None => first_entry(entries@, id) is None,
        },
{
    let mut j: usize = 0;
    while j < entries.len()
        invariant
            j <= entries.len(),
            forall|k: int| 0 <= k < j ==> entries@[k].0 != id,
        decreases entries.len() - j,
    {
        if entries[j].0 == id {
            proof {
                reveal(first_entry);
                let e = entries@;
                assert(0 <= j < e.len() && e[j as int].0 == id && forall|k: int|
                    0 <= k < j ==> e[k].0 != id);
                let c = choose|c: int|
                    0 <= c < e.len() && e[c].0 == id && forall|k: int| 0 <= k < c ==> e[k].0 != id;
                assert(c == j as int) by {
                    if c < j as int {
                    } else if c > j as int {
                        assert(e[j as int].0 != id);
                    }
                }
            }
            return Some(j);
        }
        j = j + 1;
    }
    proof {
        reveal(first_entry);
    }
    None
}

/// Computes the window of hit `h` at position `i`.
fn place_hit(
    h: HitRef,
    i: usize,
    entries: &Vec<(u128, usize)>,
    bounds: &StepBounds,
    skip_unlisted: bool,
) -> (r: Option<PlacedSpan>)
    requires
        placed_hit(h, i as int, entries@, *bounds, skip_unlisted) is Some ==> span_defined(
            center_of(h),
            steps_of(entries@, h.episode_id),
            *bounds,
        ),
    ensures
        r == placed_hit(h, i as int, entries@, *bounds, skip_unlisted),
{
    let entry = find_entry(entries, h.episode_id);
    if !h.passes_threshold || (skip_unlisted && entry.is_none()) {
        return None;
    }
    let steps = match entry {
        Some(j) => entries[j].1,
        None => 0,
    };
    let center = match h.step_number {
        Some(s) => s,
        None => 1,
    };
    let span = window_span(center, steps, bounds);
    Some(PlacedSpan { hit_index: i, entry_index: entry, span })
}

proof fn lemma_any_truncated_push(s: Seq<PlacedSpan>, p: PlacedSpan)
    ensures
        any_truncated(s.push(p)) == (any_truncated(s) || p.span.truncated),
{
    let t = s.push(p);
    if any_truncated(s) {
        let k = choose|k: int| 0 <= k < s.len() && #[trigger] s[k].span.truncated;
        assert(t[k] == s[k]);
    }
    if p.span.truncated {
        assert(t[s.len() as int] == p);
    }
    if any_truncated(t) {
        let k = choose|k: int| 0 <= k < t.len() && #[trigger] t[k].span.truncated;
        if k < s.len() {
            assert(t[k] == s[k]);
        }
    }
}

proof fn lemma_total_steps_push(s: Seq<PlacedSpan>, p: PlacedSpan)
    ensures
        total_steps(s.push(p)) == total_steps(s) + p.span.step_count,
{
    assert(s.push(p).drop_last() =~= s);
}

proof fn lemma_total_steps_prefix(hits: Seq<HitRef>, entries: Seq<(u128, usize)>, b: StepBounds, skip: bool, i: int)
    requires
        0 <= i <= hits.len(),
    ensures
        total_steps(planned_spans(hits.take(i), entries, b, skip)) <= total_steps(
            planned_spans(hits, entries, b, skip),
        ),
    decreases hits.len() - i,
{
    if i < hits.len() {
        lemma_total_steps_prefix(hits, entries, b, skip, i + 1);
        lemma_planned_step(hits, entries, b, skip, i);
        match placed(hits, entries, b, skip, i) {
            Some(p) => lemma_total_steps_push(planned_spans(hits.take(i), entries, b, skip), p),
            None => {},
        }
    } else {
        assert(hits.take(i) =~= hits);
    }
}

/// One more hit extends the plan by that hit's window, if any.
proof fn lemma_planned_step(hits: Seq<HitRef>, entries: Seq<(u128, usize)>, b: StepBounds, skip: bool, i: int)
    requires
        0 <= i < hits.len(),
    ensures
        planned_spans(hits.take(i + 1), entries, b, skip) == match placed(hits, entries, b, skip, i) {
            Some(p) => planned_spans(hits.take(i), entries, b, skip).push(p),
            None => planned_spans(hits.take(i), entries, b, skip),
        },
{
    let t = hits.take(i + 1);
    assert(t.drop_last() =~= hits.take(i));
    assert(t[t.len() - 1] == hits[i]);
    assert(placed(t, entries, b, skip, i) == placed(hits, entries, b, skip, i));
}

fn expand_impl(
    hits: &Vec<HitRef>,
    entries: &Vec<(u128, usize)>,
    bounds: &StepBounds,
    skip_unlisted: bool,
) -> (r: SpanExpansion)
    requires
        expansion_defined(hits@, entries@, *bounds, skip_unlisted),
    ensures
        r.spans@ == planned_spans(hits@, entries@, *bounds, skip_unlisted),
        r.total_steps == total_steps(r.spans@),
        r.original_hit_count == hits.len(),
        r.truncated == (exists|k: int| 0 <= k < r.spans@.len() && #[trigger] r.spans@[k].span.truncated),
        forall|k: int| 0 <= k < r.spans@.len() ==> span_shaped(#[trigger] r.spans@[k], *bounds),
{
    let ghost hv = hits@;
    let ghost ev = entries@;
    let mut spans: Vec<PlacedSpan> = Vec::new();
    let mut total: usize = 0;
    let mut truncated = false;
    let mut i: usize = 0;
    while i < hits.len()
        invariant
            i <= hits.len(),
            hv == hits@,
            ev == entries@,
            expansion_defined(hv, ev, *bounds, skip_unlisted),
            spans@ == planned_spans(hv.take(i as int), ev, *bounds, skip_unlisted),
            total == total_steps(spans@),
            truncated == any_truncated(spans@),
            forall|k: int| 0 <= k < spans@.len() ==> span_shaped(#[trigger] spans@[k], *bounds),
        decreases hits.len() - i,
    {
        proof {
            lemma_planned_step(hv, ev, *bounds, skip_unlisted, i as int);
            assert(placed(hv, ev, *bounds, skip_unlisted, i as int) is Some ==> span_defined(
                center_of(hv[i as int]),
                steps_of(ev, hv[i as int].episode_id),
                *bounds,
            ));
        }
        let placed_span = place_hit(hits[i], i, entries, bounds, skip_unlisted);
        if let Some(p) = placed_span {
            let ghost before = spans@;
            proof {
                lemma_total_steps_push(spans@, p);
                lemma_any_truncated_push(spans@, p);
                lemma_total_steps_prefix(hv, ev, *bounds, skip_unlisted, i + 1);
                lemma_span_bounded(center_of(hv[i as int]), steps_of(ev, hv[i as int].episode_id), *bounds);
            }
            spans.push(p);
            total = total + p.span.step_count;
            if p.span.truncated {
                truncated = true;
            }
        }
        i = i + 1;
    }
    assert(hv.take(hits.len() as int) =~= hv);
    SpanExpansion { spans, total_steps: total, original_hit_count: hits.len(), truncated }
}

/// Expands hits into windows. A hit's episode step count is that of its
/// first entry in `step_counts`, or 0 for an episode not listed there;
/// hits below the threshold get no window.
pub fn expand_spans(hits: &Vec<HitRef>, step_counts: &Vec<(u128, usize)>, bounds: &StepBounds) -> (r: SpanExpansion)
    requires
        expansion_defined(hits@, step_counts@, *bounds, false),
    ensures
        r.spans@ == planned_spans(hits@, step_counts@, *bounds, false),
        r.total_steps == total_steps(r.spans@),
        r.original_hit_count == hits.len(),
        r.truncated == (exists|k: int| 0 <= k < r.spans@.len() && #[trigger] r.spans@[k].span.truncated),
        forall|k: int| 0 <= k < r.spans@.len() ==> span_shaped(#[trigger] r.spans@[k], *bounds),
{
    expand_impl(hits, step_counts, bounds, false)
}

/// Expands hits into windows for episodes described in `episodes`: hits
/// below the threshold or of an episode not listed get no window.
pub fn expand_spans_listed(hits: &Vec<HitRef>, episodes: &Vec<(u128, usize)>, bounds: &StepBounds) -> (r: SpanExpansion)
    requires
        expansion_defined(hits@, episodes@, *bounds, true),
    ensures
        r.spans@ == planned_spans(hits@, episodes@, *bounds, true),
        r.total_steps == total_steps(r.spans@),
        r.original_hit_count == hits.len(),
        r.truncated == (exists|k: int| 0 <= k < r.spans@.len() && #[trigger] r.spans@[k].span.truncated),
        forall|k: int| 0 <= k < r.spans@.len() ==> span_shaped(#[trigger] r.spans@[k], *bounds),
{
    expand_impl(hits, episodes, bounds, true)
}

/// The step range of an expanded window, as merging reads it.
#[derive(Debug, Clone, Copy, PartialEq, Eq)]
pub struct WindowRange {
    /// Episode of the window.
    pub episode_id: u128,
    /// First step of the window.
    pub start_step: usize,
    /// Last step of the window.
    pub end_step: usize,
    /// Number of steps in the window.
    pub step_count: usize,
}

/// Windows of one episode merged because their step ranges overlap.
#[derive(Debug, Clone)]
pub struct MergedWindow {
    /// Episode of the windows.
    pub episode_id: u128,
    /// Positions of the merged windows among all windows.
    pub members: Vec<usize>,
    /// First step of the merged window.
    pub start_step: usize,
    /// Last step of the merged window.
    pub end_step: usize,
    /// Number of steps in the merged window.
    pub step_count: usize,
}

/// A merged window as plain values: episode, member positions, first step,
/// last step and step count.
pub open spec fn merged_view(m: MergedWindow) -> (u128, Seq<usize>, usize, usize, usize) {
    (m.episode_id, m.members@, m.start_step, m.end_step, m.step_count)
}

/// Merged windows as plain values.
pub open spec fn merged_views(ms: Seq<MergedWindow>) -> Seq<(u128, Seq<usize>, usize, usize, usize)> {
    ms.map_values(|m: MergedWindow| merged_view(m))
}

/// A merged window and a window share a step: they belong to the same
/// episode, both ranges run forward, and neither ends before the other
/// starts.
pub open spec fn overlaps(g: (u128, Seq<usize>, usize, usize, usize), w: WindowRange) -> bool {
    &&& g.0 == w.episode_id
    &&& g.2 <= g.3
    &&& w.start_step <= w.end_step
    &&& g.2 <= w.end_step
    &&& w.start_step <= g.3
}

/// The merged windows that overlap `w`.
pub open spec fn overlapping(w: WindowRange) -> spec_fn((u128, Seq<usize>, usize, usize, usize)) -> bool {
    |g: (u128, Seq<usize>, usize, usize, usize)| overlaps(g, w)
}

/// The merged windows that do not overlap `w`.
pub open spec fn apart(w: WindowRange) -> spec_fn((u128, Seq<usize>, usize, usize, usize)) -> bool {
    |g: (u128, Seq<usize>, usize, usize, usize)| !overlaps(g, w)
}

/// The member positions of merged windows, in order.
pub open spec fn joined_members(os: Seq<(u128, Seq<usize>, usize, usize, usize)>) -> Seq<usize>
    decreases os.len(),
{
    if os.len() == 0 {
        seq![]
    } else {
        joined_members(os.drop_last()) + os.last().1
    }
}

/// The first step of `w` joined with merged windows.
pub open spec fn joined_start(os: Seq<(u128, Seq<usize>, usize, usize, usize)>, w: WindowRange) -> usize
    decreases os.len(),
{
    if os.len() == 0 {
        w.start_step
    } else {
        let r = joined_start(os.drop_last(), w);
        if os.last().2 < r { os.last().2 } else { r }
    }
}

/// The last step of `w` joined with merged windows.
pub open spec fn joined_end(os: Seq<(u128, Seq<usize>, usize, usize, usize)>, w: WindowRange) -> usize
    decreases os.len(),
{
    if os.len() == 0 {
        w.end_step
    } else {
        let r = joined_end(os.drop_last(), w);
        if os.last().3 > r { os.last().3 } else { r }
    }
}

/// Window `w` at position `i` joined with the merged windows it overlaps:
/// alone it keeps its own range and step count; joined, it spans from the
/// smallest first step to the largest last step.
pub open spec fn joined(os: Seq<(u128, Seq<usize>, usize, usize, usize)>, w: WindowRange, i: int) -> (
    u128,
    Seq<usize>,
    usize,
    usize,
    usize,
) {
    (
        w.episode_id,
        joined_members(os).push(i as usize),
        joined_start(os, w),
        joined_end(os, w),
        if os.len() == 0 {
            w.step_count
        } else {
            (joined_end(os, w) - joined_start(os, w) + 1) as usize
        },
    )
}

/// The windows merged, taken in order: each window is joined with the
/// merged windows it overlaps, which it replaces at the end of the list;
/// merged windows it does not overlap stay as they are.
pub open spec fn merged_groups(ws: Seq<WindowRange>) -> Seq<(u128, Seq<usize>, usize, usize, usize)>
    decreases ws.len(),
{
    if ws.len() == 0 {
        seq![]
    } else {
        let prev = merged_groups(ws.drop_last());
        let w = ws.last();
        prev.filter(apart(w)).push(joined(prev.filter(overlapping(w)), w, ws.len() - 1))
    }
}

proof fn lemma_views_push(ms: Seq<MergedWindow>, m: MergedWindow)
    ensures
        merged_views(ms.push(m)) == merged_views(ms).push(merged_view(m)),
{
    assert(merged_views(ms.push(m)) =~= merged_views(ms).push(merged_view(m)));
}

/// Joins window `w` at position `i` with the merged windows it overlaps.
fn absorb_window(groups: Vec<MergedWindow>, w: WindowRange, i: usize) -> (r: Vec<MergedWindow>)
    requires
        w.end_step < usize::MAX,
        forall|q: int| 0 <= q < groups@.len() ==> #[trigger] groups@[q].end_step < usize::MAX,
    ensures
        merged_views(r@) == merged_views(groups@).filter(apart(w)).push(
            joined(merged_views(groups@).filter(overlapping(w)), w, i as int),
        ),
        forall|q: int| 0 <= q < r@.len() ==> #[trigger] r@[q].end_step < usize::MAX,
{
    let ghost g0 = groups@;
    let ghost prev = merged_views(g0);
    let n = groups.len();
    let mut rest = groups;
    let mut kept: Vec<MergedWindow> = Vec::new();
    let mut members: Vec<usize> = Vec::new();
    let mut lo = w.start_step;
    let mut hi = w.end_step;
    let mut any = false;
    let mut j: usize = 0;
    while j < n
        invariant
            n == g0.len(),
            j <= n,
            prev == merged_views(g0),
            rest@ == g0.subrange(j as int, n as int),
            w.end_step < usize::MAX,
            forall|q: int| 0 <= q < g0.len() ==> #[trigger] g0[q].end_step < usize::MAX,
            merged_views(kept@) == prev.take(j as int).filter(apart(w)),
            forall|q: int| 0 <= q < kept@.len() ==> #[trigger] kept@[q].end_step < usize::MAX,
            members@ == joined_members(prev.take(j as int).filter(overlapping(w))),
            lo == joined_start(prev.take(j as int).filter(overlapping(w)), w),
            hi == joined_end(prev.take(j as int).filter(overlapping(w)), w),
            hi < usize::MAX,
            any == (prev.take(j as int).filter(overlapping(w)).len() > 0),
        decreases n - j,
    {
        let ghost c = prev.take(j as int);
        let g = rest.remove(0);
        proof {
            assert(g == g0[j as int]);
            assert(prev[j as int] == merged_view(g));
            assert(prev.take(j + 1) =~= c.push(merged_view(g)));
            c.lemma_filter_push(merged_view(g), apart(w));
            c.lemma_filter_push(merged_view(g), overlapping(w));
            assert(rest@ =~= g0.subrange(j + 1, n as int));
        }
        let ov = g.episode_id == w.episode_id && g.start_step <= g.end_step && w.start_step <= w.end_step
            && g.start_step <= w.end_step && w.start_step <= g.end_step;
        if ov {
            let ghost before = members@;
            let mut gm = g.members;
            members.append(&mut gm);
            if g.start_step < lo {
                lo = g.start_step;
            }
            if g.end_step > hi {
                hi = g.end_step;
            }
            any = true;
            proof {
                let os = c.filter(overlapping(w)).push(merged_view(g));
                assert(os.drop_last() =~= c.filter(overlapping(w)));
            }
        } else {
            proof {
                lemma_views_push(kept@, g);
            }
            kept.push(g);
        }
        j = j + 1;
    }
    proof {
        assert(prev.take(n as int) =~= prev);
    }
    let count = if any { hi - lo + 1 } else { w.step_count };
    members.push(i);
    let m = MergedWindow { episode_id: w.episode_id, members, start_step: lo, end_step: hi, step_count: count };
    proof {
        lemma_views_push(kept@, m);
        let os = prev.filter(overlapping(w));
        if any {
            lemma_joined_bounds(os, w);
        }
    }
    kept.push(m);
    kept
}

/// Merges windows whose step ranges overlap, within each episode: a
/// window is joined with every merged window of its episode that shares a
/// step with it, so windows of one episode that do not overlap stay apart.
/// Each merged window lists its windows' positions so that the caller can
/// carry over the best-scoring window's hit and context.
pub fn merge_window_ranges(ws: &Vec<WindowRange>) -> (r: Vec<MergedWindow>)
    requires
        forall|k: int| 0 <= k < ws@.len() ==> #[trigger] ws@[k].end_step < usize::MAX,
    ensures
        merged_views(r@) == merged_groups(ws@),
{
    let ghost wv = ws@;
    let mut groups: Vec<MergedWindow> = Vec::new();
    let mut i: usize = 0;
    while i < ws.len()
        invariant
            i <= ws.len(),
            wv == ws@,
            forall|k: int| 0 <= k < wv.len() ==> #[trigger] wv[k].end_step < usize::MAX,
            merged_views(groups@) == merged_groups(wv.take(i as int)),
            forall|q: int| 0 <= q < groups@.len() ==> #[trigger] groups@[q].end_step < usize::MAX,
        decreases ws.len() - i,
    {
        proof {
            let t = wv.take(i + 1);
            assert(t.drop_last() =~= wv.take(i as int));
            assert(t.last() == wv[i as int]);
            assert(merged_views(Seq::<MergedWindow>::empty()) =~= Seq::empty());
        }
        let w = ws[i];
        groups = absorb_window(groups, w, i);
        i = i + 1;
    }
    proof {
        assert(wv.take(ws.len() as int) =~= wv);
    }
    groups
}

/// The joined range starts no later than `w` and ends no earlier, and its
/// first and last steps are those of `w` or of one of the joined windows.
proof fn lemma_joined_bounds(os: Seq<(u128, Seq<usize>, usize, usize, usize)>, w: WindowRange)
    ensures
        joined_start(os, w) <= w.start_step,
        joined_end(os, w) >= w.end_step,
        joined_start(os, w) == w.start_step || exists|k: int|
            0 <= k < os.len() && #[trigger] os[k].2 == joined_start(os, w),
        joined_end(os, w) == w.end_step || exists|k: int| 0 <= k < os.len() && #[trigger] os[k].3 == joined_end(os, w),
        forall|k: int| 0 <= k < os.len() ==> joined_start(os, w) <= #[trigger] os[k].2,
        forall|k: int| 0 <= k < os.len() ==> #[trigger] os[k].3 <= joined_end(os, w),
    decreases os.len(),
{
    if os.len() > 0 {
        let p = os.drop_last();
        lemma_joined_bounds(p, w);
        assert forall|k: int| 0 <= k < p.len() implies #[trigger] os[k] == p[k] by {}
        if joined_start(os, w) != w.start_step && joined_start(os, w) != os.last().2 {
            let k = choose|k: int| 0 <= k < p.len() && #[trigger] p[k].2 == joined_start(p, w);
            assert(os[k].2 == joined_start(os, w));
        }
        if joined_end(os, w) != w.end_step && joined_end(os, w) != os.last().3 {
            let k = choose|k: int| 0 <= k < p.len() && #[trigger] p[k].3 == joined_end(p, w);
            assert(os[k].3 == joined_end(os, w));
        }
        assert(os[os.len() - 1] == os.last());
    }
}

/// A computed window never exceeds the maximum size, a trimmed window has
/// exactly the maximum size, and its range runs forward.
pub proof fn lemma_span_bounded(center: int, count: int, b: StepBounds)
    requires
        span_defined(center, count, b),
    ensures
        span_of(center, count, b).step_count <= b.max_window_size,
        span_of(center, count, b).truncated ==> span_of(center, count, b).step_count == b.max_window_size,
        span_of(center, count, b).start_step <= span_of(center, count, b).end_step,
        span_of(center, count, b).step_count == span_of(center, count, b).end_step - span_of(
            center,
            count,
            b,
        ).start_step + 1,
{
    reveal(span_of);
}

/// Every window of an expansion stays within the maximum window size.
pub proof fn law_windows_bounded(
    hits: Seq<HitRef>,
    entries: Seq<(u128, usize)>,
    b: StepBounds,
    skip_unlisted: bool,
)
    requires
        expansion_defined(hits, entries, b, skip_unlisted),
    ensures
        forall|k: int|
            0 <= k < planned_spans(hits, entries, b, skip_unlisted).len() ==> #[trigger] planned_spans(
                hits,
                entries,
                b,
                skip_unlisted,
            )[k].span.step_count <= b.max_window_size,
    decreases hits.len(),
{
    if hits.len() > 0 {
        let p = hits.drop_last();
        assert(expansion_defined(p, entries, b, skip_unlisted)) by {
            assert forall|i: int|
                0 <= i < p.len() && #[trigger] placed(p, entries, b, skip_unlisted, i) is Some implies span_defined(
                center_of(p[i]),
                steps_of(entries, p[i].episode_id),
                b,
            ) by {
                assert(p[i] == hits[i]);
                assert(placed(hits, entries, b, skip_unlisted, i) is Some);
            }
            lemma_total_steps_prefix(hits, entries, b, skip_unlisted, hits.len() - 1);
            assert(hits.take(hits.len() - 1) =~= p);
        }
        law_windows_bounded(p, entries, b, skip_unlisted);
        let last = hits.len() - 1;
        if placed(hits, entries, b, skip_unlisted, last) is Some {
            lemma_span_bounded(center_of(hits[last]), steps_of(entries, hits[last].episode_id), b);
        }
    }
}

/// Merged windows of one episode whose ranges run forward never overlap:
/// only windows sharing a step are merged, and windows that do not overlap
/// stay apart.
pub proof fn law_merged_windows_apart(ws: Seq<WindowRange>)
    ensures
        forall|a: (u128, Seq<usize>, usize, usize, usize), b: (u128, Seq<usize>, usize, usize, usize)|
            #![trigger merged_groups(ws).contains(a), merged_groups(ws).contains(b)]
            merged_groups(ws).contains(a) && merged_groups(ws).contains(b) && a != b && a.0 == b.0 && a.2
                <= a.3 && b.2 <= b.3 ==> a.3 < b.2 || b.3 < a.2,
    decreases ws.len(),
{
    if ws.len() > 0 {
        let p = ws.drop_last();
        law_merged_windows_apart(p);
        let prev = merged_groups(p);
        let w = ws.last();
        let os = prev.filter(overlapping(w));
        let kept = prev.filter(apart(w));
        let j = joined(os, w, ws.len() - 1);
        let gs = merged_groups(ws);
        assert(gs == kept.push(j));
        lemma_joined_bounds(os, w);
        assert forall|x: (u128, Seq<usize>, usize, usize, usize)| #[trigger] kept.contains(x) implies prev.contains(x)
            && !overlaps(x, w) by {
            prev.lemma_filter_contains_rev(apart(w), x);
            let k = choose|k: int| 0 <= k < kept.len() && kept[k] == x;
            prev.lemma_filter_pred(apart(w), k);
        }
        assert forall|k: int| 0 <= k < os.len() implies prev.contains(#[trigger] os[k]) && overlaps(os[k], w) by {
            prev.lemma_filter_pred(overlapping(w), k);
            prev.lemma_filter_contains_rev(overlapping(w), os[k]);
        }
        assert forall|a: (u128, Seq<usize>, usize, usize, usize), b: (u128, Seq<usize>, usize, usize, usize)|
            #![trigger gs.contains(a), gs.contains(b)]
            gs.contains(a) && gs.contains(b) && a != b && a.0 == b.0 && a.2 <= a.3 && b.2 <= b.3 implies a.3 < b.2
                || b.3 < a.2 by {
            let ka = choose|k: int| 0 <= k < gs.len() && gs[k] == a;
            let kb = choose|k: int| 0 <= k < gs.len() && gs[k] == b;
            if ka < kept.len() && kb < kept.len() {
                assert(kept.contains(a));
                assert(kept.contains(b));
            } else if ka < kept.len() || kb < kept.len() {
                let x = if ka < kept.len() { a } else { b };
                assert(kept.contains(x));
                assert(!overlaps(x, w));
                if os.len() > 0 {
                    let o0 = os[0];
                    assert(overlaps(o0, w));
                }
                if !(x.3 < j.2 || j.3 < x.2) {
                    if x.3 < w.start_step {
                        let k = choose|k: int| 0 <= k < os.len() && #[trigger] os[k].2 == j.2;
                        let o = os[k];
                        assert(prev.contains(o) && overlaps(o, w));
                        assert(o != x);
                    } else if x.2 > w.end_step {
                        let k = choose|k: int| 0 <= k < os.len() && #[trigger] os[k].3 == j.3;
                        let o = os[k];
                        assert(prev.contains(o) && overlaps(o, w));
                        assert(o != x);
                    }
                }
            }
        }
    }
}

/// A merged window covers each window it merges, and merges only windows
/// of its own episode.
pub proof fn law_merge_covers_members(ws: Seq<WindowRange>)
    requires
        ws.len() <= usize::MAX,
    ensures
        forall|g: (u128, Seq<usize>, usize, usize, usize), k: int|
            #![trigger merged_groups(ws).contains(g), g.1[k]]
            merged_groups(ws).contains(g) && 0 <= k < g.1.len() ==> {
                &&& g.1[k] < ws.len()
                &&& ws[g.1[k] as int].episode_id == g.0
                &&& g.2 <= ws[g.1[k] as int].start_step
                &&& ws[g.1[k] as int].end_step <= g.3
            },
    decreases ws.len(),
{
    if ws.len() > 0 {
        let p = ws.drop_last();
        law_merge_covers_members(p);
        let prev = merged_groups(p);
        let w = ws.last();
        let i = ws.len() - 1;
        let os = prev.filter(overlapping(w));
        let kept = prev.filter(apart(w));
        let j = joined(os, w, i);
        let gs = merged_groups(ws);
        assert(gs == kept.push(j));
        lemma_joined_bounds(os, w);
        assert forall|q: int| 0 <= q < os.len() implies prev.contains(#[trigger] os[q]) && overlaps(os[q], w) by {
            prev.lemma_filter_pred(overlapping(w), q);
            prev.lemma_filter_contains_rev(overlapping(w), os[q]);
        }
        lemma_joined_members(os, w, p);
        assert forall|g: (u128, Seq<usize>, usize, usize, usize), k: int|
            #![trigger gs.contains(g), g.1[k]]
            gs.contains(g) && 0 <= k < g.1.len() implies {
                &&& g.1[k] < ws.len()
                &&& ws[g.1[k] as int].episode_id == g.0
                &&& g.2 <= ws[g.1[k] as int].start_step
                &&& ws[g.1[k] as int].end_step <= g.3
            } by {
            let kg = choose|q: int| 0 <= q < gs.len() && gs[q] == g;
            if kg < kept.len() {
                assert(kept.contains(g));
                prev.lemma_filter_contains_rev(apart(w), g);
                assert(prev.contains(g));
                assert(ws[g.1[k] as int] == p[g.1[k] as int]);
            } else {
                assert(g == j);
                if k < joined_members(os).len() {
                    assert(g.1[k] == joined_members(os)[k]);
                } else {
                    assert(g.1[k] == i as usize);
                }
            }
        }
    }
}

/// Position `x` is a member of one of the merged windows `os`.
pub open spec fn member_of_some(os: Seq<(u128, Seq<usize>, usize, usize, usize)>, x: usize) -> bool {
    exists|q: int, m: int| 0 <= q < os.len() && 0 <= m < os[q].1.len() && os[q].1[m] == x
}

/// Every member of joined windows is a member of one of them, and so lies
/// within that window's range.
proof fn lemma_joined_members(
    os: Seq<(u128, Seq<usize>, usize, usize, usize)>,
    w: WindowRange,
    p: Seq<WindowRange>,
)
    requires
        forall|q: int| 0 <= q < os.len() ==> merged_groups(p).contains(#[trigger] os[q]) && overlaps(os[q], w),
        forall|g: (u128, Seq<usize>, usize, usize, usize), k: int|
            #![trigger merged_groups(p).contains(g), g.1[k]]
            merged_groups(p).contains(g) && 0 <= k < g.1.len() ==> {
                &&& g.1[k] < p.len()
                &&& p[g.1[k] as int].episode_id == g.0
                &&& g.2 <= p[g.1[k] as int].start_step
                &&& p[g.1[k] as int].end_step <= g.3
            },
    ensures
        forall|k: int| 0 <= k < joined_members(os).len() ==> member_of_some(os, #[trigger] joined_members(os)[k]),
    decreases os.len(),
{
    if os.len() > 0 {
        let r = os.drop_last();
        assert forall|q: int| 0 <= q < r.len() implies merged_groups(p).contains(#[trigger] r[q]) && overlaps(
            r[q],
            w,
        ) by {
            assert(r[q] == os[q]);
        }
        lemma_joined_members(r, w, p);
        let jm = joined_members(os);
        assert forall|k: int| 0 <= k < jm.len() implies member_of_some(os, #[trigger] jm[k]) by {
            if k < joined_members(r).len() {
                assert(member_of_some(r, joined_members(r)[k]));
                let (q, m) = choose|q: int, m: int|
                    0 <= q < r.len() && 0 <= m < r[q].1.len() && joined_members(r)[k] == r[q].1[m];
                assert(jm[k] == joined_members(r)[k]);
                assert(os[q] == r[q]);
                assert(0 <= q < os.len() && 0 <= m < os[q].1.len() && jm[k] == os[q].1[m]);
            } else {
                let m = k - joined_members(r).len();
                assert(jm[k] == os.last().1[m]);
                assert(os[os.len() - 1] == os.last());
                assert(0 <= os.len() - 1 < os.len() && 0 <= m < os[os.len() - 1].1.len() && jm[k] == os[os.len()
                    - 1].1[m]);
            }
        }
    }
}

} // verus!
