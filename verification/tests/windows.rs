//! Window expansion and merging.

use memory_core::windows::{
    expand_spans, expand_spans_listed, merge_window_ranges, window_span, HitRef, StepBounds,
    WindowRange,
};

fn default_bounds() -> StepBounds {
    StepBounds { backward_steps: 3, forward_steps: 2, max_window_size: 20 }
}

fn hit(id: u128, step: usize) -> HitRef {
    HitRef { episode_id: id, step_number: Some(step), passes_threshold: true }
}

#[test]
fn test_expand_empty_hits() {
    let result = expand_spans(&vec![], &vec![], &default_bounds());
    assert!(result.spans.is_empty());
    assert_eq!(result.original_hit_count, 0);
}

#[test]
fn test_expand_single_hit() {
    let result = expand_spans(&vec![hit(1, 10)], &vec![(1, 20)], &default_bounds());
    assert_eq!(result.spans.len(), 1);
    assert_eq!(result.original_hit_count, 1);
    assert!(!result.truncated);
    let w = result.spans[0].span;
    assert_eq!(w.start_step, 7);
    assert_eq!(w.end_step, 12);
    assert_eq!(w.step_count, 6);
}

#[test]
fn test_expand_near_episode_start() {
    let result = expand_spans(&vec![hit(1, 2)], &vec![(1, 10)], &default_bounds());
    let w = result.spans[0].span;
    assert_eq!(w.start_step, 0);
    assert_eq!(w.end_step, 4);
}

#[test]
fn test_expand_near_episode_end() {
    let result = expand_spans(&vec![hit(1, 18)], &vec![(1, 20)], &default_bounds());
    let w = result.spans[0].span;
    assert_eq!(w.start_step, 15);
    assert_eq!(w.end_step, 20);
}

#[test]
fn test_expand_truncation() {
    let bounds = StepBounds { backward_steps: 10, forward_steps: 10, max_window_size: 5 };
    let result = expand_spans(&vec![hit(1, 15)], &vec![(1, 30)], &bounds);
    assert!(result.truncated);
    assert!(result.spans[0].span.step_count <= 5);
}

#[test]
fn test_expand_below_threshold() {
    let h = HitRef { episode_id: 1, step_number: None, passes_threshold: false };
    let result = expand_spans(&vec![h], &vec![(1, 10)], &default_bounds());
    assert!(result.spans.is_empty());
}

#[test]
fn test_expand_multiple_hits() {
    let result = expand_spans(&vec![hit(1, 5), hit(2, 10)], &vec![(1, 10), (2, 15)], &default_bounds());
    assert_eq!(result.spans.len(), 2);
    assert_eq!(result.original_hit_count, 2);
}

#[test]
fn test_expand_with_context() {
    let result = expand_spans_listed(&vec![hit(1, 5)], &vec![(1, 10)], &default_bounds());
    assert_eq!(result.spans.len(), 1);
    assert_eq!(result.spans[0].entry_index, Some(0));
}

#[test]
fn unlisted_episode_gets_no_window_with_context() {
    let result = expand_spans_listed(&vec![hit(9, 5)], &vec![(1, 10)], &default_bounds());
    assert!(result.spans.is_empty());
    assert_eq!(result.original_hit_count, 1);
}

#[test]
fn unlisted_episode_counts_zero_steps() {
    let result = expand_spans(&vec![hit(9, 2)], &vec![(1, 10)], &default_bounds());
    let w = result.spans[0].span;
    assert_eq!(result.spans[0].entry_index, None);
    assert_eq!((w.start_step, w.end_step, w.step_count), (0, 0, 1));
}

#[test]
fn hit_without_step_is_centred_on_step_one() {
    let h = HitRef { episode_id: 1, step_number: None, passes_threshold: true };
    let result = expand_spans(&vec![h], &vec![(1, 10)], &default_bounds());
    let w = result.spans[0].span;
    assert_eq!((w.start_step, w.end_step), (0, 3));
}

#[test]
fn truncation_trims_half_the_excess_from_the_front() {
    let bounds = StepBounds { backward_steps: 10, forward_steps: 10, max_window_size: 5 };
    let w = window_span(15, 30, &bounds);
    assert_eq!(w.full_size, 21);
    assert!(w.truncated);
    assert_eq!((w.start_step, w.end_step, w.step_count), (13, 17, 5));
}

#[test]
fn total_steps_sums_window_sizes() {
    let result = expand_spans(&vec![hit(1, 10), hit(2, 2)], &vec![(1, 20), (2, 10)], &default_bounds());
    assert_eq!(result.total_steps, 6 + 5);
}

#[test]
fn merge_joins_overlapping_ranges_of_one_episode() {
    let ws = vec![
        WindowRange { episode_id: 2, start_step: 5, end_step: 8, step_count: 4 },
        WindowRange { episode_id: 1, start_step: 0, end_step: 3, step_count: 4 },
        WindowRange { episode_id: 2, start_step: 7, end_step: 12, step_count: 6 },
        WindowRange { episode_id: 2, start_step: 1, end_step: 4, step_count: 4 },
    ];
    let merged = merge_window_ranges(&ws);
    assert_eq!(merged.len(), 3);
    assert_eq!(merged[0].episode_id, 1);
    assert_eq!(merged[0].members, vec![1]);
    assert_eq!((merged[0].start_step, merged[0].end_step, merged[0].step_count), (0, 3, 4));
    assert_eq!(merged[1].episode_id, 2);
    assert_eq!(merged[1].members, vec![0, 2]);
    assert_eq!((merged[1].start_step, merged[1].end_step, merged[1].step_count), (5, 12, 8));
    assert_eq!(merged[2].episode_id, 2);
    assert_eq!(merged[2].members, vec![3]);
    assert_eq!((merged[2].start_step, merged[2].end_step, merged[2].step_count), (1, 4, 4));
}

#[test]
fn merge_keeps_disjoint_ranges_of_one_episode_apart() {
    let ws = vec![
        WindowRange { episode_id: 1, start_step: 1, end_step: 3, step_count: 3 },
        WindowRange { episode_id: 1, start_step: 10, end_step: 12, step_count: 3 },
    ];
    let merged = merge_window_ranges(&ws);
    assert_eq!(merged.len(), 2);
    assert_eq!((merged[0].start_step, merged[0].end_step), (1, 3));
    assert_eq!((merged[1].start_step, merged[1].end_step), (10, 12));
}

#[test]
fn merge_bridging_window_joins_both_sides() {
    let ws = vec![
        WindowRange { episode_id: 1, start_step: 1, end_step: 3, step_count: 3 },
        WindowRange { episode_id: 1, start_step: 6, end_step: 8, step_count: 3 },
        WindowRange { episode_id: 1, start_step: 3, end_step: 6, step_count: 4 },
    ];
    let merged = merge_window_ranges(&ws);
    assert_eq!(merged.len(), 1);
    assert_eq!(merged[0].members, vec![0, 1, 2]);
    assert_eq!((merged[0].start_step, merged[0].end_step, merged[0].step_count), (1, 8, 8));
}

#[test]
fn merge_of_nothing_is_empty() {
    assert!(merge_window_ranges(&vec![]).is_empty());
}
