//! Execution signatures: the tools, error types and step structure of an
//! episode, and the expectations a query has of them.
//!
//! Tool names are compared in lowercase; error descriptions are mapped to
//! canonical forms by [`normalize_error_type`]. The sets of tools and errors
//! are held as vectors in which no string occurs twice.

use vstd::prelude::*;

use crate::text::{
    contains_seq, insert_string, lowercase, push_char, push_str, str_contains, str_eq, to_lowercase,
    trim, trim_chars,
};

verus! {

/// Canonical form of a lowercased error description.
pub open spec fn canonical_error(l: Seq<char>) -> Seq<char> {
    if l == "timeout"@ || l == "timed out"@ || l == "time out"@ {
        "timeout"@
    } else if l == "panic"@ || l == "panicked"@ {
        "panic"@
    } else if l == "deadlock"@ || l == "dead lock"@ {
        "deadlock"@
    } else if l == "race"@ || l == "race condition"@ {
        "race_condition"@
    } else if l == "null"@ || l == "null pointer"@ || l == "nullptr"@ {
        "null_pointer"@
    } else if l == "missing"@ || l == "not found"@ || l == "does not exist"@ {
        "missing"@
    } else if l == "invalid"@ || l == "invalid input"@ || l == "invalid argument"@ {
        "invalid"@
    } else {
        trim(l)
    }
}

/// What [`normalize_error_type`] gives for `error`.
pub open spec fn normalized_error(error: Seq<char>) -> Seq<char> {
    canonical_error(lowercase(error))
}

/// A string holding `lit`.
fn owned(lit: &str) -> (r: String)
    ensures
        r@ == lit@,
{
    let mut s = String::new();
    push_str(&mut s, lit);
    s
}

/// Normalizes an error type for matching: the lowercased description,
/// mapped to its canonical form when it is a known synonym, else trimmed.
pub fn normalize_error_type(error: &str) -> (r: String)
    ensures
        r@ == normalized_error(error@),
{
    let lower = to_lowercase(error);
    let l = lower.as_str();
    if str_eq(l, "timeout") || str_eq(l, "timed out") || str_eq(l, "time out") {
        owned("timeout")
    } else if str_eq(l, "panic") || str_eq(l, "panicked") {
        owned("panic")
    } else if str_eq(l, "deadlock") || str_eq(l, "dead lock") {
        owned("deadlock")
    } else if str_eq(l, "race") || str_eq(l, "race condition") {
        owned("race_condition")
    } else if str_eq(l, "null") || str_eq(l, "null pointer") || str_eq(l, "nullptr") {
        owned("null_pointer")
    } else if str_eq(l, "missing") || str_eq(l, "not found") || str_eq(l, "does not exist") {
        owned("missing")
    } else if str_eq(l, "invalid") || str_eq(l, "invalid input") || str_eq(l, "invalid argument") {
        owned("invalid")
    } else {
        trim_chars(l)
    }
}

/// Step pattern capturing the execution structure.
#[derive(Debug, Clone)]
pub struct StepPattern {
    /// Number of successful steps.
    pub success_count: usize,
    /// Number of failed steps.
    pub failure_count: usize,
    /// Whether execution ended in success.
    pub final_success: bool,
    /// Compact representation of the outcome sequence: `S` per success, `F`
    /// per failure.
    pub pattern_code: String,
}

/// Number of successes among the outcomes.
pub open spec fn successes(outcomes: Seq<bool>) -> nat
    decreases outcomes.len(),
{
    if outcomes.len() == 0 {
        0
    } else {
        successes(outcomes.drop_last()) + if outcomes.last() { 1nat } else { 0nat }
    }
}

/// Pattern code of the outcomes.
pub open spec fn pattern_code_of(outcomes: Seq<bool>) -> Seq<char> {
    outcomes.map_values(|b: bool| if b { 'S' } else { 'F' })
}

proof fn lemma_successes_bounded(outcomes: Seq<bool>)
    ensures
        successes(outcomes) <= outcomes.len(),
    decreases outcomes.len(),
{
    if outcomes.len() > 0 {
        lemma_successes_bounded(outcomes.drop_last());
    }
}

impl Default for StepPattern {
    fn default() -> (p: Self)
        ensures
            p.success_count == 0,
            p.failure_count == 0,
            !p.final_success,
            p.pattern_code@ == Seq::<char>::empty(),
    {
        StepPattern { success_count: 0, failure_count: 0, final_success: false, pattern_code: String::new() }
    }
}

impl StepPattern {
    /// Creates a step pattern from a sequence of outcomes.
    pub fn from_outcomes(outcomes: &[bool]) -> (p: Self)
        ensures
            p.success_count == successes(outcomes@),
            p.failure_count == outcomes@.len() - successes(outcomes@),
            p.final_success == (outcomes@.len() > 0 && outcomes@.last()),
            p.pattern_code@ == pattern_code_of(outcomes@),
    {
        let mut success_count: usize = 0;
        let mut code = String::new();
        let mut i: usize = 0;
        while i < outcomes.len()
            invariant
                i <= outcomes.len(),
                success_count == successes(outcomes@.take(i as int)),
                code@ == pattern_code_of(outcomes@.take(i as int)),
            decreases outcomes.len() - i,
        {
            proof {
                let t = outcomes@.take(i + 1);
                assert(t.drop_last() =~= outcomes@.take(i as int));
                lemma_successes_bounded(outcomes@.take(i as int));
                assert(pattern_code_of(t) =~= pattern_code_of(outcomes@.take(i as int)).push(
                    if outcomes@[i as int] { 'S' } else { 'F' },
                ));
            }
            if outcomes[i] {
                success_count = success_count + 1;
                push_char(&mut code, 'S');
            } else {
                push_char(&mut code, 'F');
            }
            i = i + 1;
        }
        proof {
            assert(outcomes@.take(outcomes@.len() as int) =~= outcomes@);
            lemma_successes_bounded(outcomes@);
        }
        let final_success = if outcomes.len() > 0 {
            outcomes[outcomes.len() - 1]
        } else {
            false
        };
        StepPattern {
            success_count,
            failure_count: outcomes.len() - success_count,
            final_success,
            pattern_code: code,
        }
    }
}

/// Tool names a query is searched for.
pub open spec fn common_tools() -> Seq<Seq<char>> {
    seq![
        "read"@, "write"@, "bash"@, "grep"@, "edit"@, "glob"@, "lsp"@, "webfetch"@, "websearch"@,
        "skill"@, "agent"@, "cargo"@, "rustc"@, "git"@, "npm"@, "pytest"@,
    ]
}

/// Error patterns a query is searched for.
pub open spec fn error_patterns() -> Seq<Seq<char>> {
    seq![
        "timeout"@, "error"@, "failure"@, "panic"@, "exception"@, " deadlock"@, "race"@, "null"@,
        "missing"@, "invalid"@,
    ]
}

/// The common tools named in the lowercased query.
pub open spec fn tools_in_query(query: Seq<char>) -> Set<Seq<char>> {
    Set::new(
        |t: Seq<char>|
            common_tools().contains(t) && contains_seq(lowercase(query), t),
    )
}

/// The normalized error types whose patterns occur in the lowercased query.
pub open spec fn errors_in_query(query: Seq<char>) -> Set<Seq<char>> {
    Set::new(
        |e: Seq<char>|
            exists|k: int|
                0 <= k < error_patterns().len() && contains_seq(lowercase(query), #[trigger] error_patterns()[k])
                    && e == normalized_error(error_patterns()[k]),
    )
}

/// Query signature for matching against episode signatures. Tools and
/// errors are held as sets: lists in which no string occurs twice, since
/// `HashSet<String>` membership and iteration order have no specification
/// to prove against, while a duplicate-free `Vec` has an exact view.
#[derive(Debug, Clone)]
pub struct QuerySignature {
    /// Tools expected or needed by the query.
    pub expected_tools: Vec<String>,
    /// Error types to avoid or handle.
    pub relevant_errors: Vec<String>,
    /// Expected step pattern, if known.
    pub expected_pattern: Option<StepPattern>,
}

impl QuerySignature {
    /// No tool or error occurs twice.
    pub open spec fn wf(&self) -> bool {
        &&& self.expected_tools.deep_view().no_duplicates()
        &&& self.relevant_errors.deep_view().no_duplicates()
    }

    /// The set of expected tools.
    pub open spec fn tool_set(&self) -> Set<Seq<char>> {
        self.expected_tools.deep_view().to_set()
    }

    /// The set of relevant errors.
    pub open spec fn error_set(&self) -> Set<Seq<char>> {
        self.relevant_errors.deep_view().to_set()
    }

    /// Creates an empty query signature.
    pub fn new() -> (q: Self)
        ensures
            q.wf(),
            q.expected_tools@.len() == 0,
            q.relevant_errors@.len() == 0,
            q.expected_pattern is None,
    {
        QuerySignature { expected_tools: Vec::new(), relevant_errors: Vec::new(), expected_pattern: None }
    }

    /// Creates a query signature from query text: the common tools and the
    /// normalized error patterns that occur in the lowercased query.
    pub fn from_query_text(query: &str) -> (q: Self)
        ensures
            q.wf(),
            q.tool_set() == tools_in_query(query@),
            q.error_set() == errors_in_query(query@),
            q.expected_pattern is None,
    {
        let mut sig = QuerySignature::new();
        let lower = to_lowercase(query);
        let tools: Vec<&str> = vec![
            "read", "write", "bash", "grep", "edit", "glob", "lsp", "webfetch", "websearch", "skill",
            "agent", "cargo", "rustc", "git", "npm", "pytest",
        ];
        proof {
            assert(tools@.map_values(|t: &str| t@) =~= common_tools());
        }
        let mut i: usize = 0;
        while i < tools.len()
            invariant
                i <= tools.len(),
                tools@.map_values(|t: &str| t@) == common_tools(),
                lower@ == lowercase(query@),
                sig.wf(),
                sig.expected_pattern is None,
                sig.relevant_errors@.len() == 0,
                sig.tool_set() == Set::new(
                    |t: Seq<char>|
                        exists|k: int| 0 <= k < i && #[trigger] common_tools()[k] == t && contains_seq(lowercase(query@), t),
                ),
            decreases tools.len() - i,
        {
            let tool = tools[i];
            assert(common_tools()[i as int] == tool@);
            if str_contains(lower.as_str(), tool) {
                insert_string(&mut sig.expected_tools, owned(tool));
            }
            proof {
                assert(sig.tool_set() =~= Set::new(
                    |t: Seq<char>|
                        exists|k: int| 0 <= k < i + 1 && #[trigger] common_tools()[k] == t && contains_seq(lowercase(query@), t),
                )) by {
                    assert forall|t: Seq<char>| #![auto] sig.tool_set().contains(t) <==> (exists|k: int|
                        0 <= k < i + 1 && #[trigger] common_tools()[k] == t && contains_seq(lowercase(query@), t)) by {
                        if t == tool@ && contains_seq(lowercase(query@), t) {
                            assert(common_tools()[i as int] == t);
                        }
                    }
                }
            }
            i = i + 1;
        }
        proof {
            assert(sig.tool_set() =~= tools_in_query(query@)) by {
                assert forall|t: Seq<char>| sig.tool_set().contains(t) <==> tools_in_query(query@).contains(t) by {
                    if common_tools().contains(t) {
                        let k = choose|k: int| 0 <= k < common_tools().len() && common_tools()[k] == t;
                        assert(common_tools()[k] == t);
                    }
                }
            }
        }
        let patterns: Vec<&str> = vec![
            "timeout", "error", "failure", "panic", "exception", " deadlock", "race", "null",
            "missing", "invalid",
        ];
        proof {
            assert(patterns@.map_values(|t: &str| t@) =~= error_patterns());
        }
        let mut j: usize = 0;
        while j < patterns.len()
            invariant
                j <= patterns.len(),
                patterns@.map_values(|t: &str| t@) == error_patterns(),
                lower@ == lowercase(query@),
                sig.wf(),
                sig.expected_pattern is None,
                sig.tool_set() == tools_in_query(query@),
                sig.error_set() == Set::new(
                    |e: Seq<char>|
                        exists|k: int|
                            0 <= k < j && contains_seq(lowercase(query@), #[trigger] error_patterns()[k])
                                && e == normalized_error(error_patterns()[k]),
                ),
            decreases patterns.len() - j,
        {
            let pattern = patterns[j];
            assert(error_patterns()[j as int] == pattern@);
            if str_contains(lower.as_str(), pattern) {
                insert_string(&mut sig.relevant_errors, normalize_error_type(pattern));
            }
            proof {
                assert(sig.error_set() =~= Set::new(
                    |e: Seq<char>|
                        exists|k: int|
                            0 <= k < j + 1 && contains_seq(lowercase(query@), #[trigger] error_patterns()[k])
                                && e == normalized_error(error_patterns()[k]),
                ));
            }
            j = j + 1;
        }
        proof {
            assert(sig.error_set() =~= errors_in_query(query@));
        }
        sig
    }

    /// Adds an expected tool, lowercased.
    pub fn add_tool(&mut self, tool: &str)
        requires
            old(self).wf(),
        ensures
            final(self).wf(),
            final(self).tool_set() == old(self).tool_set().insert(lowercase(tool@)),
            final(self).error_set() == old(self).error_set(),
            final(self).expected_pattern == old(self).expected_pattern,
    {
        insert_string(&mut self.expected_tools, to_lowercase(tool));
    }

    /// Adds a relevant error, normalized.
    pub fn add_error(&mut self, error: &str)
        requires
            old(self).wf(),
        ensures
            final(self).wf(),
            final(self).error_set() == old(self).error_set().insert(normalized_error(error@)),
            final(self).tool_set() == old(self).tool_set(),
            final(self).expected_pattern == old(self).expected_pattern,
    {
        insert_string(&mut self.relevant_errors, normalize_error_type(error));
    }

    /// Sets the expected pattern.
    pub fn set_pattern(&mut self, pattern: StepPattern)
        ensures
            final(self).expected_pattern == Some(pattern),
            final(self).expected_tools == old(self).expected_tools,
            final(self).relevant_errors == old(self).relevant_errors,
    {
        self.expected_pattern = Some(pattern);
    }

    /// Whether the query expects any tool.
    pub fn has_tool_expectations(&self) -> (b: bool)
        ensures
            b == (self.expected_tools@.len() > 0),
    {
        self.expected_tools.len() > 0
    }

    /// Whether the query names any error.
    pub fn has_error_expectations(&self) -> (b: bool)
        ensures
            b == (self.relevant_errors@.len() > 0),
    {
        self.relevant_errors.len() > 0
    }
}

/// Execution signature capturing the tool, error and step structure of an
/// episode. Tools and error types are sets held as duplicate-free lists,
/// for the reason given on [`QuerySignature`].
#[derive(Debug, Clone)]
pub struct ExecutionSignature {
    /// Episode this signature belongs to (the UUID's 128-bit value).
    pub episode_id: u128,
    /// Tools used in execution.
    pub tools: Vec<String>,
    /// Error types encountered, normalized.
    pub error_types: Vec<String>,
    /// Step success pattern.
    pub step_pattern: StepPattern,
    /// Total number of steps.
    pub total_steps: usize,
    /// Number of successful steps.
    pub successful_steps: usize,
    /// Number of failed steps.
    pub failed_steps: usize,
    /// Average latency per step (ms).
    pub avg_latency_ms: u64,
}

impl ExecutionSignature {
    /// No tool or error type occurs twice.
    pub open spec fn wf(&self) -> bool {
        &&& self.tools.deep_view().no_duplicates()
        &&& self.error_types.deep_view().no_duplicates()
    }

    /// The set of tools.
    pub open spec fn tool_set(&self) -> Set<Seq<char>> {
        self.tools.deep_view().to_set()
    }

    /// The set of error types.
    pub open spec fn error_set(&self) -> Set<Seq<char>> {
        self.error_types.deep_view().to_set()
    }

    /// Creates an empty execution signature for an episode.
    pub fn new(episode_id: u128) -> (sig: Self)
        ensures
            sig.wf(),
            sig.episode_id == episode_id,
            sig.tools@.len() == 0,
            sig.error_types@.len() == 0,
            sig.step_pattern.success_count == 0,
            sig.step_pattern.failure_count == 0,
            !sig.step_pattern.final_success,
            sig.step_pattern.pattern_code@ == Seq::<char>::empty(),
            sig.total_steps == 0,
            sig.successful_steps == 0,
            sig.failed_steps == 0,
            sig.avg_latency_ms == 0,
    {
        ExecutionSignature {
            episode_id,
            tools: Vec::new(),
            error_types: Vec::new(),
            step_pattern: StepPattern::default(),
            total_steps: 0,
            successful_steps: 0,
            failed_steps: 0,
            avg_latency_ms: 0,
        }
    }

    /// Adds a tool, lowercased.
    pub fn add_tool(&mut self, tool: &str)
        requires
            old(self).wf(),
        ensures
            final(self).wf(),
            final(self).tool_set() == old(self).tool_set().insert(lowercase(tool@)),
            final(self).error_types == old(self).error_types,
            final(self).episode_id == old(self).episode_id,
            final(self).total_steps == old(self).total_steps,
    {
        insert_string(&mut self.tools, to_lowercase(tool));
    }

    /// Adds an error type, normalized.
    pub fn add_error(&mut self, error_type: &str)
        requires
            old(self).wf(),
        ensures
            final(self).wf(),
            final(self).error_set() == old(self).error_set().insert(normalized_error(error_type@)),
            final(self).tools == old(self).tools,
            final(self).episode_id == old(self).episode_id,
            final(self).total_steps == old(self).total_steps,
    {
        insert_string(&mut self.error_types, normalize_error_type(error_type));
    }

    /// Records one step outcome.
    pub fn record_step(&mut self, success: bool)
        requires
            old(self).total_steps < usize::MAX,
            success ==> old(self).successful_steps < usize::MAX && old(self).step_pattern.success_count
                < usize::MAX,
            !success ==> old(self).failed_steps < usize::MAX && old(self).step_pattern.failure_count
                < usize::MAX,
        ensures
            final(self).total_steps == old(self).total_steps + 1,
            final(self).successful_steps == old(self).successful_steps + if success { 1int } else { 0int },
            final(self).failed_steps == old(self).failed_steps + if success { 0int } else { 1int },
            final(self).step_pattern.success_count == old(self).step_pattern.success_count + if success {
                1int
            } else {
                0int
            },
            final(self).step_pattern.failure_count == old(self).step_pattern.failure_count + if success {
                0int
            } else {
                1int
            },
            final(self).step_pattern.final_success == old(self).step_pattern.final_success,
            final(self).step_pattern.pattern_code == old(self).step_pattern.pattern_code,
            final(self).tools == old(self).tools,
            final(self).error_types == old(self).error_types,
            final(self).episode_id == old(self).episode_id,
            final(self).avg_latency_ms == old(self).avg_latency_ms,
    {
        self.total_steps = self.total_steps + 1;
        if success {
            self.successful_steps = self.successful_steps + 1;
            self.step_pattern.success_count = self.step_pattern.success_count + 1;
        } else {
            self.failed_steps = self.failed_steps + 1;
            self.step_pattern.failure_count = self.step_pattern.failure_count + 1;
        }
    }

    /// Sets the average latency.
    pub fn set_avg_latency(&mut self, latency_ms: u64)
        ensures
            final(self).avg_latency_ms == latency_ms,
            final(self).tools == old(self).tools,
            final(self).error_types == old(self).error_types,
            final(self).episode_id == old(self).episode_id,
            final(self).total_steps == old(self).total_steps,
            final(self).successful_steps == old(self).successful_steps,
            final(self).failed_steps == old(self).failed_steps,
    {
        self.avg_latency_ms = latency_ms;
    }

    /// Number of distinct tools.
    pub fn tool_count(&self) -> (n: usize)
        ensures
            n == self.tools@.len(),
    {
        self.tools.len()
    }

    /// Number of distinct error types.
    pub fn error_count(&self) -> (n: usize)
        ensures
            n == self.error_types@.len(),
    {
        self.error_types.len()
    }

    /// Whether the signature has any tool.
    pub fn has_tools(&self) -> (b: bool)
        ensures
            b == (self.tools@.len() > 0),
    {
        self.tools.len() > 0
    }

    /// Whether the signature has any error type.
    pub fn has_errors(&self) -> (b: bool)
        ensures
            b == (self.error_types@.len() > 0),
    {
        self.error_types.len() > 0
    }
}

/// The strings of `a` that also occur in `b`.
pub open spec fn shared(a: Seq<Seq<char>>, b: Seq<Seq<char>>) -> Seq<Seq<char>> {
    a.filter(|x: Seq<char>| b.contains(x))
}

/// Sizes of the intersection and the union of two string sets: the number
/// of strings of `a` that occur in `b`, and that number subtracted from the
/// sum of both sizes.
pub fn set_overlap(a: &Vec<String>, b: &Vec<String>) -> (r: (usize, usize))
    requires
        a.len() + b.len() <= usize::MAX,
    ensures
        r.0 == shared(a.deep_view(), b.deep_view()).len(),
        r.1 == a@.len() + b@.len() - shared(a.deep_view(), b.deep_view()).len(),
{
    let ghost av = a.deep_view();
    let ghost bv = b.deep_view();
    let mut inter: usize = 0;
    let mut i: usize = 0;
    while i < a.len()
        invariant
            i <= a.len(),
            av == a.deep_view(),
            bv == b.deep_view(),
            inter == shared(av.take(i as int), bv).len(),
            inter <= i,
        decreases a.len() - i,
    {
        proof {
            let t = av.take(i + 1);
            assert(t.drop_last() =~= av.take(i as int));
            assert(t.last() == av[i as int]);
            av.take(i as int).lemma_filter_len_push(|x: Seq<char>| bv.contains(x), av[i as int]);
            assert(av.take(i as int).push(av[i as int]) =~= t);
        }
        if crate::text::contains_string(b, a[i].as_str()) {
            inter = inter + 1;
        }
        i = i + 1;
    }
    proof {
        assert(av.take(a.len() as int) =~= av);
    }
    (inter, a.len() + b.len() - inter)
}

} // verus!
