//! Cascading retrieval: ontology expansion (tier 3) and the tier-4
//! embedding-fallback policy.
//!
//! The concept graph expands query terms through a curated ontology of
//! coding-agent domains: a query word that names a term of a domain brings in
//! every term and related concept of that domain. The fallback policy decides
//! whether a query counts a tier-4 embedding call from the local results'
//! confidence rather than from result counts alone.

use vstd::prelude::*;
use vstd::string::StringExecFns;

use crate::json::{array_strings, field, get_field, json_parse, parse_json, strings_of, Json};
use crate::text::{lowercase, sort_dedup_strings, split_whitespace, strictly_sorted, to_lowercase, words};

verus! {

/// One ontology domain: its terms and its related concepts.
pub struct OntologyEntry {
    pub terms: Vec<String>,
    pub related_concepts: Vec<String>,
}

/// Abstract value of an ontology domain.
pub open spec fn entry_view(e: OntologyEntry) -> (Seq<Seq<char>>, Seq<Seq<char>>) {
    (e.terms.deep_view(), e.related_concepts.deep_view())
}

/// In-memory concept graph for query term expansion.
pub struct ConceptGraph {
    entries: Vec<OntologyEntry>,
}

impl View for ConceptGraph {
    type V = Seq<(Seq<Seq<char>>, Seq<Seq<char>>)>;

    closed spec fn view(&self) -> Seq<(Seq<Seq<char>>, Seq<Seq<char>>)> {
        self_view(self.entries@)
    }
}

/// Abstract value of a sequence of ontology domains.
pub open spec fn self_view(entries: Seq<OntologyEntry>) -> Seq<(Seq<Seq<char>>, Seq<Seq<char>>)> {
    Seq::new(entries.len(), |i: int| entry_view(entries[i]))
}

/// Abstract value of one `(terms, related concepts)` pair.
pub open spec fn pair_view(e: (Vec<String>, Vec<String>)) -> (Seq<Seq<char>>, Seq<Seq<char>>) {
    (e.0.deep_view(), e.1.deep_view())
}

/// Abstract value of a sequence of `(terms, related concepts)` pairs.
pub open spec fn pairs_view(entries: Seq<(Vec<String>, Vec<String>)>) -> Seq<(Seq<Seq<char>>, Seq<Seq<char>>)> {
    Seq::new(entries.len(), |i: int| pair_view(entries[i]))
}

/// A domain matches when one of the query words is one of its terms.
pub open spec fn domain_matches(terms: Seq<Seq<char>>, query_words: Seq<Seq<char>>) -> bool {
    exists|i: int, j: int|
        0 <= i < query_words.len() && 0 <= j < terms.len() && #[trigger] query_words[i] == #[trigger] terms[j]
}

/// Every term and related concept of every domain the query words match.
pub open spec fn expansion_set(
    graph: Seq<(Seq<Seq<char>>, Seq<Seq<char>>)>,
    query_words: Seq<Seq<char>>,
) -> Set<Seq<char>> {
    Set::new(
        |t: Seq<char>|
            exists|k: int|
                0 <= k < graph.len() && domain_matches(#[trigger] graph[k].0, query_words) && (
                graph[k].0.contains(t) || graph[k].1.contains(t)),
    )
}


fn ontology_entry(terms: Vec<String>, related_concepts: Vec<String>) -> (e: OntologyEntry)
    ensures
        entry_view(e) == (terms.deep_view(), related_concepts.deep_view()),
{
    OntologyEntry { terms, related_concepts }
}

fn s(lit: &str) -> (r: String)
    ensures
        r@ == lit@,
{
    String::from_str(lit)
}

/// The embedded ontology of coding-agent domains, as JSON.
pub const EMBEDDED_ONTOLOGY: &'static str = "{\"domains\":[{\"terms\":[\"auth\",\"authentication\",\"login\",\"logout\",\"oauth\",\"jwt\",\"token\",\"session\",\"credential\",\"password\",\"sso\"],\"related_concepts\":[\"authorization\",\"identity\",\"permission\",\"security\"]},{\"terms\":[\"db\",\"database\",\"sql\",\"query\",\"postgres\",\"postgresql\",\"mysql\",\"sqlite\",\"schema\",\"migration\",\"orm\"],\"related_concepts\":[\"storage\",\"persistence\",\"transaction\",\"connection\"]},{\"terms\":[\"test\",\"tests\",\"testing\",\"unit\",\"integration\",\"mock\",\"fixture\",\"assert\",\"coverage\",\"tdd\"],\"related_concepts\":[\"quality\",\"verification\",\"regression\"]},{\"terms\":[\"error\",\"errors\",\"exception\",\"panic\",\"failure\",\"bug\",\"crash\",\"fault\"],\"related_concepts\":[\"debugging\",\"recovery\",\"logging\",\"retry\"]},{\"terms\":[\"performance\",\"perf\",\"latency\",\"throughput\",\"optimize\",\"optimization\",\"benchmark\",\"profiling\",\"slow\"],\"related_concepts\":[\"caching\",\"scalability\",\"memory\"]},{\"terms\":[\"api\",\"rest\",\"endpoint\",\"http\",\"graphql\",\"grpc\",\"request\",\"response\",\"route\"],\"related_concepts\":[\"client\",\"server\",\"interface\",\"contract\"]},{\"terms\":[\"deploy\",\"deployment\",\"docker\",\"kubernetes\",\"k8s\",\"container\",\"release\",\"ci\",\"pipeline\"],\"related_concepts\":[\"infrastructure\",\"devops\",\"build\"]},{\"terms\":[\"async\",\"await\",\"concurrency\",\"thread\",\"threads\",\"mutex\",\"lock\",\"tokio\",\"future\",\"parallel\",\"race\"],\"related_concepts\":[\"synchronization\",\"deadlock\",\"runtime\"]},{\"terms\":[\"cache\",\"caching\",\"lru\",\"ttl\",\"memoize\",\"invalidation\",\"redis\"],\"related_concepts\":[\"performance\",\"memory\",\"eviction\"]},{\"terms\":[\"security\",\"vulnerability\",\"xss\",\"csrf\",\"injection\",\"encryption\",\"tls\",\"secret\"],\"related_concepts\":[\"authentication\",\"audit\",\"compliance\"]},{\"terms\":[\"log\",\"logs\",\"logging\",\"trace\",\"tracing\",\"metrics\",\"monitoring\",\"telemetry\"],\"related_concepts\":[\"observability\",\"debugging\",\"alerting\"]},{\"terms\":[\"refactor\",\"refactoring\",\"cleanup\",\"rename\",\"restructure\",\"simplify\"],\"related_concepts\":[\"maintainability\",\"design\",\"architecture\"]},{\"terms\":[\"config\",\"configuration\",\"settings\",\"env\",\"environment\",\"toml\",\"yaml\"],\"related_concepts\":[\"deployment\",\"defaults\"]},{\"terms\":[\"parse\",\"parser\",\"parsing\",\"json\",\"serde\",\"serialize\",\"deserialize\"],\"related_concepts\":[\"validation\",\"schema\",\"format\"]}]}";

/// Why ontology JSON could not be loaded.
#[derive(Debug, Clone, Copy, PartialEq, Eq, Structural)]
pub enum OntologyError {
    /// The text is not JSON.
    Parse,
    /// The document has no `domains` array.
    MissingDomains,
}

impl OntologyError {
    /// Human-readable description.
    pub fn message(&self) -> (r: String)
        ensures
            r@ == match self {
                OntologyError::Parse => "Failed to parse ontology JSON"@,
                OntologyError::MissingDomains => "Missing 'domains' array in ontology"@,
            },
    {
        match self {
            OntologyError::Parse => s("Failed to parse ontology JSON"),
            OntologyError::MissingDomains => s("Missing 'domains' array in ontology"),
        }
    }
}

/// The domains of an ontology document: its `domains` member, if that is
/// an array.
pub open spec fn ontology_domains(doc: Json) -> Option<Seq<Json>> {
    match field(doc, "domains"@) {
        Some(Json::Array(ds)) => Some(ds@),
        _ => None,
    }
}

/// One domain's terms and related concepts.
pub open spec fn domain_entry(d: Json) -> (Seq<Seq<char>>, Seq<Seq<char>>) {
    (strings_of(field(d, "terms"@)), strings_of(field(d, "related_concepts"@)))
}

/// The domains' terms and related concepts, in order.
pub open spec fn ontology_entries(ds: Seq<Json>) -> Seq<(Seq<Seq<char>>, Seq<Seq<char>>)> {
    ds.map_values(|d: Json| domain_entry(d))
}

/// Adding the next domain to an expansion: its terms and related concepts
/// join when it matches the query words.
proof fn lemma_expansion_step(
    g: Seq<(Seq<Seq<char>>, Seq<Seq<char>>)>,
    k: int,
    qw: Seq<Seq<char>>,
    s0: Set<Seq<char>>,
    s1: Set<Seq<char>>,
)
    requires
        0 <= k < g.len(),
        s0 == expansion_set(g.take(k), qw),
        s1 == if domain_matches(g[k].0, qw) {
            s0.union(g[k].0.to_set()).union(g[k].1.to_set())
        } else {
            s0
        },
    ensures
        s1 == expansion_set(g.take(k + 1), qw),
{
    let ev = g[k];
    let matched = domain_matches(ev.0, qw);
    assert(g.take(k + 1) =~= g.take(k).push(ev));
    assert forall|x: Seq<char>| s1.contains(x) <==> expansion_set(g.take(k + 1), qw).contains(x) by {
        if expansion_set(g.take(k), qw).contains(x) {
            let w = choose|w: int|
                0 <= w < g.take(k).len() && domain_matches(#[trigger] g.take(k)[w].0, qw) && (g.take(k)[w].0.contains(
                    x,
                ) || g.take(k)[w].1.contains(x));
            assert(g.take(k + 1)[w] == g.take(k)[w]);
        }
        if expansion_set(g.take(k + 1), qw).contains(x) {
            let w = choose|w: int|
                0 <= w < g.take(k + 1).len() && domain_matches(#[trigger] g.take(k + 1)[w].0, qw) && (g.take(
                    k + 1,
                )[w].0.contains(x) || g.take(k + 1)[w].1.contains(x));
            if w < k {
                assert(g.take(k)[w] == g.take(k + 1)[w]);
            } else {
                assert(g.take(k + 1)[w] == ev);
            }
        }
        if matched && (ev.0.contains(x) || ev.1.contains(x)) {
            assert(g.take(k + 1)[k] == ev);
        }
    }
    assert(s1 =~= expansion_set(g.take(k + 1), qw));
}

impl ConceptGraph {
    /// A concept graph over the given `(terms, related concepts)` domains.
    pub fn from_entries(entries: Vec<(Vec<String>, Vec<String>)>) -> (g: Self)
        ensures
            g@ == pairs_view(entries@),
    {
        let mut out: Vec<OntologyEntry> = Vec::new();
        let mut rest = entries;
        let ghost all = rest@;
        while rest.len() > 0
            invariant
                rest@ == all.take(rest@.len() as int),
                rest@.len() <= all.len(),
                out@.len() + rest@.len() == all.len(),
                forall|i: int|
                    0 <= i < out@.len() ==> #[trigger] entry_view(out@[i]) == pair_view(
                        all[rest@.len() + i],
                    ),
            decreases rest.len(),
        {
            let ghost before = out@;
            let ghost k = rest@.len() as int;
            let (terms, related) = rest.pop().unwrap();
            let e = ontology_entry(terms, related);
            out.insert(0, e);
            proof {
                assert(rest@ =~= all.take(k - 1));
                assert forall|i: int| 0 <= i < out@.len() implies #[trigger] entry_view(out@[i])
                    == pair_view(all[k - 1 + i]) by {
                    if i > 0 {
                        assert(out@[i] == before[i - 1]);
                        assert(entry_view(before[i - 1]) == pair_view(all[k + (i - 1)]));
                    }
                }
            }
        }
        proof {
            assert(self_view(out@) =~= pairs_view(all)) by {
                assert forall|i: int| 0 <= i < all.len() implies #[trigger] self_view(out@)[i]
                    == pairs_view(all)[i] by {
                    assert(entry_view(out@[i]) == pair_view(all[0 + i]));
                }
            }
        }
        ConceptGraph { entries: out }
    }

    /// A concept graph parsed from ontology JSON: an object whose `domains`
    /// array holds objects with `terms` and `related_concepts` string
    /// arrays. Items that are not strings are skipped, and a domain without
    /// such an array has none of them. Fails when the text is not JSON, or
    /// has no `domains` array.
    pub fn from_json(json: &str) -> (r: Result<Self, OntologyError>)
        ensures
            match json_parse(json@) {
                None => r == Err::<Self, OntologyError>(OntologyError::Parse),
                Some(doc) => match ontology_domains(doc) {
                    None => r == Err::<Self, OntologyError>(OntologyError::MissingDomains),
                    Some(ds) => r matches Ok(g) && g@ == ontology_entries(ds),
                },
            },
    {
        let doc = match parse_json(json) {
            Some(doc) => doc,
            None => return Err(OntologyError::Parse),
        };
        let domains = match get_field(&doc, "domains") {
            Some(Json::Array(ds)) => ds,
            _ => return Err(OntologyError::MissingDomains),
        };
        let mut entries: Vec<(Vec<String>, Vec<String>)> = Vec::new();
        let mut i: usize = 0;
        while i < domains.len()
            invariant
                i <= domains.len(),
                pairs_view(entries@) == ontology_entries(domains@.take(i as int)),
            decreases domains.len() - i,
        {
            let d = &domains[i];
            let tf = get_field(d, "terms");
            let rf = get_field(d, "related_concepts");
            let terms = array_strings(tf);
            let related = array_strings(rf);
            proof {
                let tv: Option<Json> = match tf {
                    Some(x) => Some(*x),
                    None => None,
                };
                let rv: Option<Json> = match rf {
                    Some(x) => Some(*x),
                    None => None,
                };
                assert(tv == field(domains@[i as int], "terms"@));
                assert(rv == field(domains@[i as int], "related_concepts"@));
                assert(pair_view((terms, related)) == domain_entry(domains@[i as int]));
            }
            let ghost before = entries@;
            entries.push((terms, related));
            proof {
                assert(entries@ =~= before.push((terms, related)));
                assert(domains@.take(i + 1) =~= domains@.take(i as int).push(domains@[i as int]));
                let t1 = domains@.take(i + 1);
                let t0 = domains@.take(i as int);
                assert(pairs_view(before).len() == before.len());
                assert(ontology_entries(t0).len() == i);
                assert(before.len() == i);
                assert(entries@ == before.push((terms, related)));
                assert forall|k: int| 0 <= k < i + 1 implies #[trigger] pairs_view(entries@)[k]
                    == ontology_entries(t1)[k] by {
                    if k < i {
                        assert(entries@[k] == before[k]);
                        assert(pairs_view(before)[k] == ontology_entries(t0)[k]);
                        assert(t1[k] == t0[k]);
                    } else {
                        assert(entries@[k] == (terms, related));
                        assert(t1[k] == domains@[i as int]);
                    }
                }
                assert(pairs_view(entries@) =~= ontology_entries(t1));
            }
            i = i + 1;
        }
        proof {
            assert(domains@.take(domains.len() as int) =~= domains@);
        }
        Ok(Self::from_entries(entries))
    }

    /// The concept graph of the embedded ontology; an empty graph when the
    /// embedded text does not parse as an ontology.
    pub fn from_embedded() -> (g: Self)
        ensures
            g@ == match json_parse(EMBEDDED_ONTOLOGY@) {
                Some(doc) => match ontology_domains(doc) {
                    Some(ds) => ontology_entries(ds),
                    None => seq![],
                },
                None => seq![],
            },
    {
        match Self::from_json(EMBEDDED_ONTOLOGY) {
            Ok(g) => g,
            Err(_) => {
                let g = ConceptGraph { entries: Vec::new() };
                assert(g@ =~= seq![]);
                g
            },
        }
    }

    /// Expands a query: every term and related concept of every domain one
    /// of whose terms is a word of the lowercased query, sorted and without
    /// duplicates.
    pub fn expand_terms(&self, query: &str) -> (r: Vec<String>)
        ensures
            strictly_sorted(r.deep_view()),
            r.deep_view().to_set() == expansion_set(self@, words(lowercase(query@))),
    {
        let lower = to_lowercase(query);
        let query_words = split_whitespace(lower.as_str());
        let ghost qw = query_words.deep_view();
        let mut expanded: Vec<String> = Vec::new();
        let n = self.entries.len();
        let mut k: usize = 0;
        while k < n
            invariant
                n == self.entries.len(),
                k <= n,
                qw == query_words.deep_view(),
                qw == words(lowercase(query@)),
                expanded.deep_view().to_set() == expansion_set(self@.take(k as int), qw),
            decreases n - k,
        {
            let entry = &self.entries[k];
            let ghost ev = entry_view(*entry);
            assert(self@[k as int] == ev);
            let matched = Self::any_word_is_term(&query_words, &entry.terms);
            let ghost before = expanded.deep_view();
            if matched {
                let mut t: usize = 0;
                while t < entry.terms.len()
                    invariant
                        t <= entry.terms.len(),
                        expanded.deep_view().to_set() == before.to_set().union(
                            entry.terms.deep_view().take(t as int).to_set(),
                        ),
                    decreases entry.terms.len() - t,
                {
                    let ghost b2 = expanded.deep_view();
                    expanded.push(entry.terms[t].clone());
                    proof {
                        crate::text::lemma_push_to_set(b2, entry.terms@[t as int]@);
                        assert(expanded.deep_view() =~= b2.push(entry.terms@[t as int]@));
                        assert(entry.terms.deep_view().take(t + 1) =~= entry.terms.deep_view().take(
                            t as int,
                        ).push(entry.terms@[t as int]@));
                        crate::text::lemma_push_to_set(
                            entry.terms.deep_view().take(t as int),
                            entry.terms@[t as int]@,
                        );
                    }
                    t = t + 1;
                }
                let ghost mid = expanded.deep_view();
                let mut c: usize = 0;
                while c < entry.related_concepts.len()
                    invariant
                        c <= entry.related_concepts.len(),
                        expanded.deep_view().to_set() == mid.to_set().union(
                            entry.related_concepts.deep_view().take(c as int).to_set(),
                        ),
                    decreases entry.related_concepts.len() - c,
                {
                    let ghost b2 = expanded.deep_view();
                    expanded.push(entry.related_concepts[c].clone());
                    proof {
                        crate::text::lemma_push_to_set(b2, entry.related_concepts@[c as int]@);
                        assert(expanded.deep_view() =~= b2.push(entry.related_concepts@[c as int]@));
                        assert(entry.related_concepts.deep_view().take(c + 1)
                            =~= entry.related_concepts.deep_view().take(c as int).push(
                            entry.related_concepts@[c as int]@,
                        ));
                        crate::text::lemma_push_to_set(
                            entry.related_concepts.deep_view().take(c as int),
                            entry.related_concepts@[c as int]@,
                        );
                    }
                    c = c + 1;
                }
                proof {
                    assert(entry.terms.deep_view().take(entry.terms.len() as int)
                        =~= entry.terms.deep_view());
                    assert(entry.related_concepts.deep_view().take(
                        entry.related_concepts.len() as int,
                    ) =~= entry.related_concepts.deep_view());
                }
            }
            proof {
                lemma_expansion_step(self@, k as int, qw, before.to_set(), expanded.deep_view().to_set());
            }
            k = k + 1;
        }
        proof {
            assert(self@.take(n as int) =~= self@);
        }
        sort_dedup_strings(expanded)
    }

    /// Whether some query word equals some term.
    fn any_word_is_term(query_words: &Vec<String>, terms: &Vec<String>) -> (b: bool)
        ensures
            b == domain_matches(terms.deep_view(), query_words.deep_view()),
    {
        let mut i: usize = 0;
        while i < query_words.len()
            invariant
                i <= query_words.len(),
                forall|a: int, b: int|
                    0 <= a < i && 0 <= b < terms.len() ==> query_words.deep_view()[a]
                        != terms.deep_view()[b],
            decreases query_words.len() - i,
        {
            let mut j: usize = 0;
            while j < terms.len()
                invariant
                    i < query_words.len(),
                    j <= terms.len(),
                    forall|a: int, b: int|
                        0 <= a < i && 0 <= b < terms.len() ==> query_words.deep_view()[a]
                            != terms.deep_view()[b],
                    forall|b: int| 0 <= b < j ==> query_words.deep_view()[i as int] != terms.deep_view()[b],
                decreases terms.len() - j,
            {
                if query_words[i].eq(&terms[j]) {
                    assert(query_words.deep_view()[i as int] == terms.deep_view()[j as int]);
                    return true;
                }
                j = j + 1;
            }
            i = i + 1;
        }
        false
    }

    /// Whether the graph has no domain.
    pub fn is_empty(&self) -> (b: bool)
        ensures
            b == (self@.len() == 0),
    {
        self.entries.len() == 0
    }

    /// Number of ontology domains.
    pub fn domain_count(&self) -> (n: usize)
        ensures
            n == self@.len(),
    {
        self.entries.len()
    }
}

/// Tier-4 embedding-fallback policy.
#[derive(Debug, Clone, Copy, PartialEq, Eq, Structural)]
pub enum FallbackPolicy {
    /// Escalate only when the local result is not confident.
    Adaptive,
    /// Always count a tier-4 call, even on local hits.
    AlwaysEmbed,
    /// Never count a tier-4 call.
    LocalOnly,
}

impl Default for FallbackPolicy {
    fn default() -> (p: Self)
        ensures
            p == FallbackPolicy::Adaptive,
    {
        FallbackPolicy::Adaptive
    }
}

/// Bounded label of a policy.
pub open spec fn policy_label(p: FallbackPolicy) -> Seq<char> {
    match p {
        FallbackPolicy::Adaptive => "adaptive"@,
        FallbackPolicy::AlwaysEmbed => "always_embed"@,
        FallbackPolicy::LocalOnly => "local_only"@,
    }
}

impl FallbackPolicy {
    /// The policy's bounded label, safe as a metric label.
    pub fn label(&self) -> (r: String)
        ensures
            r@ == policy_label(*self),
    {
        match self {
            FallbackPolicy::Adaptive => s("adaptive"),
            FallbackPolicy::AlwaysEmbed => s("always_embed"),
            FallbackPolicy::LocalOnly => s("local_only"),
        }
    }
}

/// Why a query did or did not count a tier-4 embedding call.
#[derive(Debug, Clone, Copy, PartialEq, Eq, Structural)]
pub enum FallbackReason {
    /// A local tier already satisfied the query.
    LocalTierSufficient,
    /// Adaptive policy: confident local result, no tier-4 call.
    LocalConfident,
    /// Adaptive policy: local results exist but are not confident.
    InsufficientConfidence,
    /// Adaptive policy: no local results at all.
    NoLocalResults,
    /// The always-embed policy forced the tier-4 call.
    AlwaysEmbedPolicy,
    /// The local-only policy suppressed the tier-4 call.
    LocalOnlyPolicy,
}

/// Bounded label of a reason.
pub open spec fn reason_label(r: FallbackReason) -> Seq<char> {
    match r {
        FallbackReason::LocalTierSufficient => "local_tier_sufficient"@,
        FallbackReason::LocalConfident => "local_confident"@,
        FallbackReason::InsufficientConfidence => "insufficient_confidence"@,
        FallbackReason::NoLocalResults => "no_local_results"@,
        FallbackReason::AlwaysEmbedPolicy => "always_embed_policy"@,
        FallbackReason::LocalOnlyPolicy => "local_only_policy"@,
    }
}

impl FallbackReason {
    /// The reason's bounded label, safe as a metric label.
    pub fn label(&self) -> (r: String)
        ensures
            r@ == reason_label(*self),
    {
        match self {
            FallbackReason::LocalTierSufficient => s("local_tier_sufficient"),
            FallbackReason::LocalConfident => s("local_confident"),
            FallbackReason::InsufficientConfidence => s("insufficient_confidence"),
            FallbackReason::NoLocalResults => s("no_local_results"),
            FallbackReason::AlwaysEmbedPolicy => s("always_embed_policy"),
            FallbackReason::LocalOnlyPolicy => s("local_only_policy"),
        }
    }
}

/// The tier-4 decision: how many calls to count (0 or 1) and why.
pub open spec fn fallback_spec(policy: FallbackPolicy, has_results: bool, confident: bool) -> (
    u32,
    FallbackReason,
) {
    match policy {
        FallbackPolicy::AlwaysEmbed => (1, FallbackReason::AlwaysEmbedPolicy),
        FallbackPolicy::LocalOnly => (0, FallbackReason::LocalOnlyPolicy),
        FallbackPolicy::Adaptive => if !has_results {
            (1, FallbackReason::NoLocalResults)
        } else if confident {
            (0, FallbackReason::LocalConfident)
        } else {
            (1, FallbackReason::InsufficientConfidence)
        },
    }
}

/// Applies a fallback policy to the local results, given whether there are
/// any and whether they are confident.
pub fn fallback_outcome(policy: FallbackPolicy, has_results: bool, confident: bool) -> (r: (
    u32,
    FallbackReason,
))
    ensures
        r == fallback_spec(policy, has_results, confident),
{
    match policy {
        FallbackPolicy::AlwaysEmbed => (1, FallbackReason::AlwaysEmbedPolicy),
        FallbackPolicy::LocalOnly => (0, FallbackReason::LocalOnlyPolicy),
        FallbackPolicy::Adaptive => {
            if !has_results {
                (1, FallbackReason::NoLocalResults)
            } else if confident {
                (0, FallbackReason::LocalConfident)
            } else {
                (1, FallbackReason::InsufficientConfidence)
            }
        },
    }
}

/// The policies' promises: local-only never counts a tier-4 call,
/// always-embed always counts one, and adaptive counts one exactly when
/// the local results are missing or not confident.
pub proof fn law_fallback_policies(policy: FallbackPolicy, has_results: bool, confident: bool)
    ensures
        policy == FallbackPolicy::LocalOnly ==> fallback_spec(policy, has_results, confident).0 == 0,
        policy == FallbackPolicy::AlwaysEmbed ==> fallback_spec(policy, has_results, confident).0 == 1,
        policy == FallbackPolicy::Adaptive ==> (fallback_spec(policy, has_results, confident).0 == 0
            <==> has_results && confident),
        fallback_spec(policy, has_results, confident).0 <= 1,
{
}

/// Error of the cascading retrieval pipeline.
#[derive(Debug, Clone, Copy, PartialEq, Eq, Structural)]
pub enum CascadeError {
    /// The local tiers are not built in, so cascade retrieval is unavailable.
    CapabilityUnavailable,
}

impl CascadeError {
    /// Human-readable description.
    pub fn message(&self) -> (r: String)
        ensures
            r@ == "cascade retrieval is unavailable without the `csm` feature"@,
    {
        s("cascade retrieval is unavailable without the `csm` feature")
    }
}

} // verus!
