//! Scope hints and hard filters.

use memory_core::shard::{passes_hard_filters, scope_hints_from_query, TimeHint};

fn strings(v: &[&str]) -> Vec<String> {
    v.iter().map(|s| s.to_string()).collect()
}

fn sorted(mut v: Vec<String>) -> Vec<String> {
    v.sort();
    v
}

#[test]
fn hints_find_tags_task_types_and_time() {
    let h = scope_hints_from_query("Recent API bug fix during debugging");
    assert_eq!(sorted(h.required_tags), strings(&["api", "bug", "fix"]));
    assert_eq!(h.required_task_types, strings(&["debugging"]));
    assert_eq!(h.time_hint, Some(TimeHint::RecentDays(7)));
}

#[test]
fn time_hints_in_priority_order() {
    assert_eq!(scope_hints_from_query("today").time_hint, Some(TimeHint::Today));
    assert_eq!(scope_hints_from_query("this week").time_hint, Some(TimeHint::RecentDays(7)));
    assert_eq!(scope_hints_from_query("this month").time_hint, Some(TimeHint::RecentDays(30)));
    assert_eq!(scope_hints_from_query("latest today").time_hint, Some(TimeHint::RecentDays(7)));
    assert_eq!(scope_hints_from_query("plain").time_hint, None);
}

#[test]
fn substring_matches_count() {
    // "testing" contains the tag "test" and the task type "testing".
    let h = scope_hints_from_query("Testing");
    assert_eq!(h.required_tags, strings(&["test"]));
    assert_eq!(h.required_task_types, strings(&["testing"]));
}

#[test]
fn hard_filters() {
    let tags = strings(&["api", "auth"]);
    assert!(passes_hard_filters(&strings(&["api"]), &vec![], &vec![], &tags, "Debugging", true, true));
    assert!(!passes_hard_filters(&strings(&["cli"]), &vec![], &vec![], &tags, "Debugging", true, true));
    assert!(!passes_hard_filters(&vec![], &strings(&["AUTH"]), &vec![], &tags, "Debugging", true, true));
    assert!(passes_hard_filters(&vec![], &vec![], &strings(&["debugging"]), &tags, "Debugging", true, true));
    assert!(!passes_hard_filters(&vec![], &vec![], &strings(&["review"]), &tags, "Debugging", true, true));
    assert!(!passes_hard_filters(&vec![], &vec![], &vec![], &tags, "x", false, true));
    assert!(!passes_hard_filters(&vec![], &vec![], &vec![], &tags, "x", true, false));
    assert!(passes_hard_filters(&vec![], &vec![], &vec![], &vec![], "", true, true));
}
