//! Scope-before-search routing: the scope a query text asks for, and the
//! must-match constraints an episode has to meet before vector search.

use vstd::prelude::*;

use crate::text::{contains_seq, insert_string, lowercase, push_str, str_contains, str_eq, to_lowercase};

verus! {

/// The time range a query text hints at, relative to now.
#[derive(Debug, Clone, Copy, PartialEq, Eq, Structural)]
pub enum TimeHint {
    /// The last given number of days.
    RecentDays(u32),
    /// Since midnight today.
    Today,
}

/// The scope constraints found in a query text. Tags and task types are sets
/// held as duplicate-free lists, since `HashSet<String>` membership and
/// iteration order have no specification to prove against; the caller
/// turns them into hash sets.
#[derive(Debug, Clone)]
pub struct ScopeHints {
    /// Tags the query names.
    pub required_tags: Vec<String>,
    /// Task types the query names.
    pub required_task_types: Vec<String>,
    /// Time range the query hints at.
    pub time_hint: Option<TimeHint>,
}

/// Tags a query text is searched for.
pub open spec fn common_tags() -> Seq<Seq<char>> {
    seq![
        "bug"@, "fix"@, "feature"@, "refactor"@, "test"@, "security"@, "performance"@,
        "documentation"@, "api"@, "cli"@, "mcp"@, "storage"@, "core"@,
    ]
}

/// Task types a query text is searched for.
pub open spec fn task_type_words() -> Seq<Seq<char>> {
    seq!["implementation"@, "debugging"@, "testing"@, "review"@]
}

/// The words of `words` that occur in the lowercased query.
pub open spec fn named_in(words: Seq<Seq<char>>, query: Seq<char>) -> Set<Seq<char>> {
    Set::new(|w: Seq<char>| words.contains(w) && contains_seq(lowercase(query), w))
}

/// The time hint of a lowercased query: "recent" or "latest" mean the last
/// 7 days, then "today" means today, "this week" the last 7 days and "this
/// month" the last 30 days.
pub open spec fn time_hint_of(l: Seq<char>) -> Option<TimeHint> {
    if contains_seq(l, "recent"@) || contains_seq(l, "latest"@) {
        Some(TimeHint::RecentDays(7))
    } else if contains_seq(l, "today"@) {
        Some(TimeHint::Today)
    } else if contains_seq(l, "this week"@) {
        Some(TimeHint::RecentDays(7))
    } else if contains_seq(l, "this month"@) {
        Some(TimeHint::RecentDays(30))
    } else {
        None
    }
}

/// A string holding `lit`.
fn owned(lit: &str) -> (r: String)
    ensures
        r@ == lit@,
{
    let mut s = String::new();
    push_str(&mut s, lit);
    s
}

/// Adds to `found` each word of `words` that occurs in `lower`.
fn collect_named(found: &mut Vec<String>, words: &Vec<&str>, lower: &str, Ghost(query): Ghost<Seq<char>>)
    requires
        old(found)@.len() == 0,
        lower@ == lowercase(query),
    ensures
        final(found).deep_view().no_duplicates(),
        final(found).deep_view().to_set() == named_in(words@.map_values(|w: &str| w@), query),
{
    let ghost ws = words@.map_values(|w: &str| w@);
    assert(found.deep_view() =~= Seq::<Seq<char>>::empty());
    let mut i: usize = 0;
    while i < words.len()
        invariant
            i <= words.len(),
            ws == words@.map_values(|w: &str| w@),
            lower@ == lowercase(query),
            found.deep_view().no_duplicates(),
            found.deep_view().to_set() == Set::new(
                |w: Seq<char>| exists|k: int| 0 <= k < i && #[trigger] ws[k] == w && contains_seq(lowercase(query), w),
            ),
        decreases words.len() - i,
    {
        let w = words[i];
        assert(ws[i as int] == w@);
        if str_contains(lower, w) {
            insert_string(found, owned(w));
        }
        proof {
            assert(found.deep_view().to_set() =~= Set::new(
                |x: Seq<char>| exists|k: int| 0 <= k < i + 1 && #[trigger] ws[k] == x && contains_seq(lowercase(query), x),
            )) by {
                assert forall|x: Seq<char>| #![auto] found.deep_view().to_set().contains(x) <==> (exists|k: int|
                    0 <= k < i + 1 && #[trigger] ws[k] == x && contains_seq(lowercase(query), x)) by {
                    if x == w@ && contains_seq(lowercase(query), x) {
                        assert(ws[i as int] == x);
                    }
                }
            }
        }
        i = i + 1;
    }
    proof {
        assert(found.deep_view().to_set() =~= named_in(ws, query)) by {
            assert forall|x: Seq<char>| found.deep_view().to_set().contains(x) <==> named_in(ws, query).contains(x) by {
                if ws.contains(x) {
                    let k = choose|k: int| 0 <= k < ws.len() && ws[k] == x;
                    assert(ws[k] == x);
                }
            }
        }
    }
}

/// Extracts the tags, task types and time hint a query text names.
pub fn scope_hints_from_query(query: &str) -> (h: ScopeHints)
    ensures
        h.required_tags.deep_view().no_duplicates(),
        h.required_tags.deep_view().to_set() == named_in(common_tags(), query@),
        h.required_task_types.deep_view().no_duplicates(),
        h.required_task_types.deep_view().to_set() == named_in(task_type_words(), query@),
        h.time_hint == time_hint_of(lowercase(query@)),
{
    let lower = to_lowercase(query);
    let tags: Vec<&str> = vec![
        "bug", "fix", "feature", "refactor", "test", "security", "performance", "documentation",
        "api", "cli", "mcp", "storage", "core",
    ];
    assert(tags@.map_values(|w: &str| w@) =~= common_tags());
    let mut required_tags: Vec<String> = Vec::new();
    collect_named(&mut required_tags, &tags, lower.as_str(), Ghost(query@));
    let task_types: Vec<&str> = vec!["implementation", "debugging", "testing", "review"];
    assert(task_types@.map_values(|w: &str| w@) =~= task_type_words());
    let mut required_task_types: Vec<String> = Vec::new();
    collect_named(&mut required_task_types, &task_types, lower.as_str(), Ghost(query@));
    let l = lower.as_str();
    let time_hint = if str_contains(l, "recent") || str_contains(l, "latest") {
        Some(TimeHint::RecentDays(7))
    } else if str_contains(l, "today") {
        Some(TimeHint::Today)
    } else if str_contains(l, "this week") {
        Some(TimeHint::RecentDays(7))
    } else if str_contains(l, "this month") {
        Some(TimeHint::RecentDays(30))
    } else {
        None
    };
    ScopeHints { required_tags, required_task_types, time_hint }
}

/// Whether an episode meets a scope's must-match constraints: it carries at
/// least one required tag (when any is required), none of the excluded tags
/// (an excluded tag is looked up lowercased), a task type equal ignoring case
/// to one of the required task types (when any is required), and it is
/// within the time range and meets the minimum success rate (both decided by
/// the caller, true where the scope sets none).
pub open spec fn meets_scope(
    required_tags: Seq<Seq<char>>,
    excluded_tags: Seq<Seq<char>>,
    required_task_types: Seq<Seq<char>>,
    episode_tags: Seq<Seq<char>>,
    episode_task_type: Seq<char>,
    within_time_range: bool,
    meets_success_rate: bool,
) -> bool {
    &&& (required_tags.len() > 0 ==> exists|i: int|
        0 <= i < required_tags.len() && episode_tags.contains(#[trigger] required_tags[i]))
    &&& !(exists|i: int|
        0 <= i < excluded_tags.len() && episode_tags.contains(lowercase(#[trigger] excluded_tags[i])))
    &&& (required_task_types.len() > 0 ==> exists|i: int|
        0 <= i < required_task_types.len() && lowercase(episode_task_type) == lowercase(
            #[trigger] required_task_types[i],
        ))
    &&& within_time_range
    &&& meets_success_rate
}

/// Whether any string of `wanted` is held by `have`.
fn any_held(wanted: &Vec<String>, have: &Vec<String>) -> (r: bool)
    ensures
        r == exists|i: int| 0 <= i < wanted@.len() && have.deep_view().contains(#[trigger] wanted.deep_view()[i]),
{
    let mut i: usize = 0;
    while i < wanted.len()
        invariant
            i <= wanted.len(),
            forall|k: int| 0 <= k < i ==> !have.deep_view().contains(#[trigger] wanted.deep_view()[k]),
        decreases wanted.len() - i,
    {
        assert(wanted.deep_view()[i as int] == wanted@[i as int]@);
        if crate::text::contains_string(have, wanted[i].as_str()) {
            return true;
        }
        i = i + 1;
    }
    false
}

/// Checks an episode against a scope's must-match constraints.
pub fn passes_hard_filters(
    required_tags: &Vec<String>,
    excluded_tags: &Vec<String>,
    required_task_types: &Vec<String>,
    episode_tags: &Vec<String>,
    episode_task_type: &str,
    within_time_range: bool,
    meets_success_rate: bool,
) -> (b: bool)
    ensures
        b == meets_scope(
            required_tags.deep_view(),
            excluded_tags.deep_view(),
            required_task_types.deep_view(),
            episode_tags.deep_view(),
            episode_task_type@,
            within_time_range,
            meets_success_rate,
        ),
{
    if required_tags.len() > 0 && !any_held(required_tags, episode_tags) {
        return false;
    }
    let mut i: usize = 0;
    while i < excluded_tags.len()
        invariant
            i <= excluded_tags.len(),
            forall|k: int|
                0 <= k < i ==> !episode_tags.deep_view().contains(lowercase(#[trigger] excluded_tags.deep_view()[k])),
        decreases excluded_tags.len() - i,
    {
        let lowered = to_lowercase(excluded_tags[i].as_str());
        assert(excluded_tags.deep_view()[i as int] == excluded_tags@[i as int]@);
        if crate::text::contains_string(episode_tags, lowered.as_str()) {
            return false;
        }
        i = i + 1;
    }
    if required_task_types.len() > 0 {
        let own = to_lowercase(episode_task_type);
        let mut found = false;
        let mut j: usize = 0;
        while j < required_task_types.len()
            invariant
                j <= required_task_types.len(),
                own@ == lowercase(episode_task_type@),
                found == exists|k: int|
                    0 <= k < j && lowercase(episode_task_type@) == lowercase(
                        #[trigger] required_task_types.deep_view()[k],
                    ),
            decreases required_task_types.len() - j,
        {
            let other = to_lowercase(required_task_types[j].as_str());
            assert(required_task_types.deep_view()[j as int] == required_task_types@[j as int]@);
            if str_eq(own.as_str(), other.as_str()) {
                found = true;
            }
            j = j + 1;
        }
        if !found {
            return false;
        }
    }
    within_time_range && meets_success_rate
}

/// One shared tag suffices: an episode that carries some required tag, no
/// excluded tag, a required task type (when any is required), and meets
/// the time and success-rate checks passes the hard filters.
pub proof fn law_one_required_tag_suffices(
    required_tags: Seq<Seq<char>>,
    excluded_tags: Seq<Seq<char>>,
    required_task_types: Seq<Seq<char>>,
    episode_tags: Seq<Seq<char>>,
    episode_task_type: Seq<char>,
    k: int,
)
    requires
        0 <= k < required_tags.len(),
        episode_tags.contains(required_tags[k]),
        forall|i: int| 0 <= i < excluded_tags.len() ==> !episode_tags.contains(lowercase(excluded_tags[i])),
        required_task_types.len() == 0 || exists|i: int|
            0 <= i < required_task_types.len() && lowercase(episode_task_type) == lowercase(required_task_types[i]),
    ensures
        meets_scope(required_tags, excluded_tags, required_task_types, episode_tags, episode_task_type, true, true),
{
    assert(episode_tags.contains(required_tags[k]));
}

/// The tag filter in both directions: with required tags, an episode that
/// carries none of them never passes, and one that passes carries at least
/// one; an excluded tag it carries always stops it.
pub proof fn law_tag_filter(
    required_tags: Seq<Seq<char>>,
    excluded_tags: Seq<Seq<char>>,
    required_task_types: Seq<Seq<char>>,
    episode_tags: Seq<Seq<char>>,
    episode_task_type: Seq<char>,
    within_time_range: bool,
    meets_success_rate: bool,
)
    ensures
        required_tags.len() > 0 && (forall|i: int| 0 <= i < required_tags.len() ==> !episode_tags.contains(
            #[trigger] required_tags[i],
        )) ==> !meets_scope(
            required_tags,
            excluded_tags,
            required_task_types,
            episode_tags,
            episode_task_type,
            within_time_range,
            meets_success_rate,
        ),
        (exists|i: int| 0 <= i < excluded_tags.len() && episode_tags.contains(lowercase(#[trigger] excluded_tags[i])))
            ==> !meets_scope(
            required_tags,
            excluded_tags,
            required_task_types,
            episode_tags,
            episode_task_type,
            within_time_range,
            meets_success_rate,
        ),
{
}

} // verus!
