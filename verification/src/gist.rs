//! Gist extraction: sentence splitting and the textual signals that sentence
//! scoring and CogniRank read.
//!
//! Lengths are UTF-8 byte lengths, as `str::len` counts them.

use vstd::prelude::*;

use crate::text::{
    char_is_whitespace, chars_of, contains_seq, insert_string, lowercase, push_char, str_contains,
    string_from_chars, string_from_range, split_whitespace, to_lowercase, trim, trim_chars, words,
};

verus! {

/// Number of bytes of `c` in UTF-8.
pub open spec fn char_width(c: char) -> nat {
    if (c as u32) < 0x80 {
        1
    } else if (c as u32) < 0x800 {
        2
    } else if (c as u32) < 0x10000 {
        3
    } else {
        4
    }
}

/// Number of bytes of `s` in UTF-8 (`str::len`).
pub open spec fn utf8_len(s: Seq<char>) -> nat
    decreases s.len(),
{
    if s.len() == 0 {
        0
    } else {
        utf8_len(s.drop_last()) + char_width(s.last())
    }
}

/// Number of UTF-8 bytes of the character with code point `code`.
fn width_of(c: char) -> (w: usize)
    ensures
        w == char_width(c),
{
    let code = c as u32;
    if code < 0x80 {
        1
    } else if code < 0x800 {
        2
    } else if code < 0x10000 {
        3
    } else {
        4
    }
}

/// Whether `s` has at least `min` bytes in UTF-8 (`s.len() >= min`).
pub fn has_min_bytes(s: &str, min: usize) -> (b: bool)
    requires
        min <= usize::MAX - 4,
    ensures
        b == (utf8_len(s@) >= min),
{
    let v = chars_of(s);
    let mut n: usize = 0;
    let mut i: usize = 0;
    while i < v.len() && n < min
        invariant
            i <= v.len(),
            v@ == s@,
            min <= usize::MAX - 4,
            n == utf8_len(v@.take(i as int)),
        decreases v.len() - i,
    {
        assert(v@.take(i + 1).drop_last() =~= v@.take(i as int));
        n = n + width_of(v[i]);
        i = i + 1;
    }
    proof {
        lemma_utf8_len_prefix(v@, i as int);
        if i == v.len() {
            assert(v@.take(i as int) =~= v@);
        }
    }
    n >= min
}

proof fn lemma_utf8_len_prefix(s: Seq<char>, k: int)
    requires
        0 <= k <= s.len(),
    ensures
        utf8_len(s.take(k)) <= utf8_len(s),
    decreases s.len() - k,
{
    if k < s.len() {
        lemma_utf8_len_prefix(s, k + 1);
        assert(s.take(k + 1).drop_last() =~= s.take(k));
    } else {
        assert(s.take(k) =~= s);
    }
}

/// A sentence terminator.
pub open spec fn is_terminator(c: char) -> bool {
    c == '.' || c == '!' || c == '?'
}

/// Splitting state after reading `s`: the finished pieces and the piece in
/// progress, pieces being separated by single terminators (`str::split`).
pub open spec fn piece_state(s: Seq<char>) -> (Seq<Seq<char>>, Seq<char>)
    decreases s.len(),
{
    if s.len() == 0 {
        (seq![], seq![])
    } else {
        let (done, cur) = piece_state(s.drop_last());
        if is_terminator(s.last()) {
            (done.push(cur), seq![])
        } else {
            (done, cur.push(s.last()))
        }
    }
}

/// The pieces of `s` between terminators, empty pieces included.
pub open spec fn pieces(s: Seq<char>) -> Seq<Seq<char>> {
    piece_state(s).0.push(piece_state(s).1)
}

/// A piece becomes a sentence when, trimmed, it has at least 5 bytes.
pub open spec fn keeps_piece(p: Seq<char>) -> bool {
    utf8_len(trim(p)) >= 5
}

/// The sentences made of the kept pieces: each trimmed, with a full stop.
pub open spec fn sentences_of_pieces(ps: Seq<Seq<char>>) -> Seq<Seq<char>>
    decreases ps.len(),
{
    if ps.len() == 0 {
        seq![]
    } else if keeps_piece(ps.last()) {
        sentences_of_pieces(ps.drop_last()).push(trim(ps.last()).push('.'))
    } else {
        sentences_of_pieces(ps.drop_last())
    }
}

/// The sentences of a text.
pub open spec fn sentences(text: Seq<char>) -> Seq<Seq<char>> {
    sentences_of_pieces(pieces(text))
}

/// Extracts gist summaries from episode descriptions.
#[derive(Debug, Clone)]
pub struct GistExtractor {
    max_key_points: usize,
}

/// Words whose presence marks a sentence as reporting an accomplishment.
pub open spec fn high_value_words() -> Seq<Seq<char>> {
    seq![
        "fixed"@, "added"@, "implemented"@, "resolved"@, "completed"@, "solved"@, "created"@,
        "updated"@, "refactored"@, "optimized"@, "deployed"@, "tested"@, "validated"@,
        "confirmed"@,
    ]
}

/// Words whose presence marks a cognitive insight.
pub open spec fn cognitive_words() -> Seq<Seq<char>> {
    seq!["learned"@, "insight"@, "decided"@, "realized"@, "discovered"@]
}

/// Words whose presence marks an outcome.
pub open spec fn outcome_words() -> Seq<Seq<char>> {
    seq!["success"@, "failed"@, "error"@, "bug"@, "issue"@, "feature"@]
}

/// Some word of `ws` occurs in `s`.
pub open spec fn mentions_any(s: Seq<char>, ws: Seq<Seq<char>>) -> bool {
    exists|k: int| 0 <= k < ws.len() && contains_seq(s, #[trigger] ws[k])
}

/// The keyword markers of a sentence, looked up in its lowercase form.
#[derive(Debug, Clone, Copy, PartialEq, Eq)]
pub struct SentenceMarkers {
    /// An accomplishment word occurs.
    pub high_value: bool,
    /// A cognitive-insight word occurs.
    pub cognitive: bool,
    /// An outcome word occurs.
    pub outcome: bool,
}

/// Whether some word of `ws` occurs in `s`.
fn mentions(s: &str, ws: &Vec<&str>, Ghost(spec_ws): Ghost<Seq<Seq<char>>>) -> (b: bool)
    requires
        ws@.map_values(|w: &str| w@) == spec_ws,
    ensures
        b == mentions_any(s@, spec_ws),
{
    let mut i: usize = 0;
    while i < ws.len()
        invariant
            i <= ws.len(),
            ws@.map_values(|w: &str| w@) == spec_ws,
            forall|k: int| 0 <= k < i ==> !contains_seq(s@, #[trigger] spec_ws[k]),
        decreases ws.len() - i,
    {
        assert(spec_ws[i as int] == ws@[i as int]@);
        if str_contains(s, ws[i]) {
            return true;
        }
        i = i + 1;
    }
    false
}

/// Computes the keyword markers of a sentence.
pub fn sentence_markers(sentence: &str) -> (m: SentenceMarkers)
    ensures
        m.high_value == mentions_any(lowercase(sentence@), high_value_words()),
        m.cognitive == mentions_any(lowercase(sentence@), cognitive_words()),
        m.outcome == mentions_any(lowercase(sentence@), outcome_words()),
{
    let lower = to_lowercase(sentence);
    let high: Vec<&str> = vec![
        "fixed", "added", "implemented", "resolved", "completed", "solved", "created", "updated",
        "refactored", "optimized", "deployed", "tested", "validated", "confirmed",
    ];
    assert(high@.map_values(|w: &str| w@) =~= high_value_words());
    let cognitive: Vec<&str> = vec!["learned", "insight", "decided", "realized", "discovered"];
    assert(cognitive@.map_values(|w: &str| w@) =~= cognitive_words());
    let outcome: Vec<&str> = vec!["success", "failed", "error", "bug", "issue", "feature"];
    assert(outcome@.map_values(|w: &str| w@) =~= outcome_words());
    SentenceMarkers {
        high_value: mentions(lower.as_str(), &high, Ghost(high_value_words())),
        cognitive: mentions(lower.as_str(), &cognitive, Ghost(cognitive_words())),
        outcome: mentions(lower.as_str(), &outcome, Ghost(outcome_words())),
    }
}

impl Default for GistExtractor {
    fn default() -> (g: Self)
        ensures
            g.key_point_limit() == 3,
    {
        GistExtractor::new(3)
    }
}

impl GistExtractor {
    /// Creates an extractor keeping at most `max_key_points` sentences, at
    /// least one.
    pub fn new(max_key_points: usize) -> (g: Self)
        ensures
            g.key_point_limit() == if max_key_points >= 1 { max_key_points } else { 1 },
    {
        GistExtractor { max_key_points: if max_key_points >= 1 { max_key_points } else { 1 } }
    }

    /// The maximum number of key points.
    pub fn max_key_points(&self) -> (n: usize)
        ensures
            n == self.key_point_limit(),
    {
        self.max_key_points
    }

    /// The extractor's maximum number of key points.
    pub closed spec fn key_point_limit(&self) -> usize {
        self.max_key_points
    }

    /// Splits a text into sentences at `.`, `!` and `?`; each piece is
    /// trimmed, kept when it has at least 5 bytes, and ends with a full stop.
    pub fn split_sentences(&self, text: &str) -> (r: Vec<String>)
        ensures
            r.deep_view() == sentences(text@),
    {
        let v = chars_of(text);
        let mut out: Vec<String> = Vec::new();
        let mut done_count: usize = 0;
        let mut cur: Vec<char> = Vec::new();
        let mut i: usize = 0;
        while i < v.len()
            invariant
                i <= v.len(),
                v@ == text@,
                cur@ == piece_state(v@.take(i as int)).1,
                out.deep_view() == sentences_of_pieces(piece_state(v@.take(i as int)).0),
            decreases v.len() - i,
        {
            assert(v@.take(i + 1).drop_last() =~= v@.take(i as int));
            let c = v[i];
            if c == '.' || c == '!' || c == '?' {
                proof {
                    let ps = piece_state(v@.take(i as int)).0;
                    assert(ps.push(cur@).drop_last() =~= ps);
                }
                self.finish_piece(&mut out, &cur);
                cur = Vec::new();
            } else {
                cur.push(c);
            }
            i = i + 1;
        }
        assert(v@.take(v.len() as int) =~= v@);
        proof {
            let ps = piece_state(v@).0;
            assert(ps.push(cur@).drop_last() =~= ps);
        }
        self.finish_piece(&mut out, &cur);
        out
    }

    /// Appends the sentence of piece `cur`, if it keeps one.
    fn finish_piece(&self, out: &mut Vec<String>, cur: &Vec<char>)
        ensures
            final(out).deep_view() == if keeps_piece(cur@) {
                old(out).deep_view().push(trim(cur@).push('.'))
            } else {
                old(out).deep_view()
            },
    {
        let piece = string_from_chars(cur);
        let mut t = trim_chars(piece.as_str());
        if has_min_bytes(t.as_str(), 5) {
            push_char(&mut t, '.');
            out.push(t);
            assert(out.deep_view() =~= old(out).deep_view().push(trim(cur@).push('.')));
        }
    }
}

/// Name for what `char::is_alphanumeric` returns: whether a character is
/// alphabetic or numeric in Unicode.
pub uninterp spec fn alphanumeric(c: char) -> bool;

/// `char::is_alphanumeric`, named by [`alphanumeric`]; which characters are
/// alphanumeric is left to the standard library's Unicode tables.
#[verifier::external_body]
fn char_is_alphanumeric(c: char) -> (b: bool)
    ensures
        b == alphanumeric(c),
{
    c.is_alphanumeric()
}

/// Leading characters that are not alphanumeric removed.
pub open spec fn strip_front(s: Seq<char>) -> Seq<char>
    decreases s.len(),
{
    if s.len() > 0 && !alphanumeric(s[0]) {
        strip_front(s.drop_first())
    } else {
        s
    }
}

/// Trailing characters that are not alphanumeric removed.
pub open spec fn strip_back(s: Seq<char>) -> Seq<char>
    decreases s.len(),
{
    if s.len() > 0 && !alphanumeric(s.last()) {
        strip_back(s.drop_last())
    } else {
        s
    }
}

/// Non-alphanumeric characters removed from both ends
/// (`str::trim_matches(|c| !c.is_alphanumeric())`).
pub open spec fn strip_non_alnum(s: Seq<char>) -> Seq<char> {
    strip_back(strip_front(s))
}

/// Strips non-alphanumeric characters from both ends of `s`.
fn strip_chars(s: &str) -> (r: String)
    ensures
        r@ == strip_non_alnum(s@),
{
    let v = chars_of(s);
    let n = v.len();
    let mut lo: usize = 0;
    assert(v@.subrange(0, n as int) =~= v@);
    while lo < n && !char_is_alphanumeric(v[lo])
        invariant
            n == v.len(),
            lo <= n,
            strip_front(v@) == strip_front(v@.subrange(lo as int, n as int)),
        decreases n - lo,
    {
        assert(v@.subrange(lo as int, n as int).drop_first() =~= v@.subrange(lo + 1, n as int));
        lo = lo + 1;
    }
    assert(strip_front(v@) == v@.subrange(lo as int, n as int));
    let mut hi: usize = n;
    while hi > lo && !char_is_alphanumeric(v[hi - 1])
        invariant
            n == v.len(),
            lo <= hi <= n,
            strip_non_alnum(v@) == strip_back(v@.subrange(lo as int, hi as int)),
        decreases hi - lo,
    {
        assert(v@.subrange(lo as int, hi as int).drop_last() =~= v@.subrange(lo as int, hi - 1));
        hi = hi - 1;
    }
    string_from_range(&v, lo, hi)
}

/// The lowercased whitespace-separated words of a text, stripped of
/// non-alphanumeric characters at both ends, that have at least `min_bytes`
/// bytes.
pub open spec fn stripped_words_of(text: Seq<char>, min_bytes: nat) -> Set<Seq<char>> {
    Set::new(
        |k: Seq<char>|
            exists|i: int|
                0 <= i < words(lowercase(text)).len() && k == strip_non_alnum(#[trigger] words(lowercase(text))[i])
                    && utf8_len(k) >= min_bytes,
    )
}

/// The keywords of a text: its stripped lowercased words of more than 3 bytes.
pub open spec fn keywords_of(text: Seq<char>) -> Set<Seq<char>> {
    stripped_words_of(text, 4)
}

/// The stripped lowercased words of `text` with at least `min_bytes` bytes,
/// each once, in order of first appearance.
pub fn stripped_words(text: &str, min_bytes: usize) -> (r: Vec<String>)
    requires
        min_bytes <= usize::MAX - 4,
    ensures
        r.deep_view().no_duplicates(),
        r.deep_view().to_set() == stripped_words_of(text@, min_bytes as nat),
{
    let lower = to_lowercase(text);
    let ws = split_whitespace(lower.as_str());
    let ghost wv = words(lowercase(text@));
    assert(ws.deep_view() == wv);
    let mut out: Vec<String> = Vec::new();
    assert(out.deep_view() =~= Seq::<Seq<char>>::empty());
    let mut i: usize = 0;
    while i < ws.len()
        invariant
            i <= ws.len(),
            min_bytes <= usize::MAX - 4,
            ws.deep_view() == wv,
            out.deep_view().no_duplicates(),
            out.deep_view().to_set() == Set::new(
                |k: Seq<char>|
                    exists|j: int|
                        0 <= j < i && k == strip_non_alnum(#[trigger] wv[j]) && utf8_len(k) >= min_bytes,
            ),
        decreases ws.len() - i,
    {
        assert(wv[i as int] == ws@[i as int]@);
        let w = strip_chars(ws[i].as_str());
        let ghost wseq = w@;
        if has_min_bytes(w.as_str(), min_bytes) {
            insert_string(&mut out, w);
        }
        proof {
            assert(out.deep_view().to_set() =~= Set::new(
                |k: Seq<char>|
                    exists|j: int|
                        0 <= j < i + 1 && k == strip_non_alnum(#[trigger] wv[j]) && utf8_len(k) >= min_bytes,
            )) by {
                assert forall|k: Seq<char>| #![auto] out.deep_view().to_set().contains(k) <==> (exists|j: int|
                    0 <= j < i + 1 && k == strip_non_alnum(#[trigger] wv[j]) && utf8_len(k) >= min_bytes) by {
                    if k == wseq && utf8_len(k) >= min_bytes {
                        assert(k == strip_non_alnum(wv[i as int]));
                    }
                }
            }
        }
        i = i + 1;
    }
    proof {
        assert(out.deep_view().to_set() =~= stripped_words_of(text@, min_bytes as nat));
    }
    out
}

/// CogniRank reranker that applies cognitive heuristics to retrieval results.
#[derive(Debug, Clone, Copy)]
pub struct CogniRank;

impl Default for CogniRank {
    fn default() -> (c: Self) {
        CogniRank
    }
}

impl CogniRank {
    /// Extracts the keywords of a text, each once.
    pub fn extract_keywords(&self, text: &str) -> (r: Vec<String>)
        ensures
            r.deep_view().no_duplicates(),
            r.deep_view().to_set() == keywords_of(text@),
    {
        stripped_words(text, 4)
    }

    /// Number of keywords that occur in the lowercased text.
    pub fn count_mentioned(&self, keywords: &Vec<String>, text: &str) -> (n: usize)
        ensures
            n == keywords.deep_view().filter(|k: Seq<char>| contains_seq(lowercase(text@), k)).len(),
    {
        count_contained(keywords, text)
    }
}

/// Number of the given words that occur in the lowercased text.
pub fn count_contained(keywords: &Vec<String>, text: &str) -> (n: usize)
    ensures
        n == keywords.deep_view().filter(|k: Seq<char>| contains_seq(lowercase(text@), k)).len(),
{
    let lower = to_lowercase(text);
    let ghost kv = keywords.deep_view();
    let ghost p = |k: Seq<char>| contains_seq(lowercase(text@), k);
    let mut n: usize = 0;
    let mut i: usize = 0;
    while i < keywords.len()
        invariant
            i <= keywords.len(),
            kv == keywords.deep_view(),
            lower@ == lowercase(text@),
            p == (|k: Seq<char>| contains_seq(lowercase(text@), k)),
            n == kv.take(i as int).filter(p).len(),
            n <= i,
        decreases keywords.len() - i,
    {
        proof {
            kv.take(i as int).lemma_filter_len_push(p, kv[i as int]);
            assert(kv.take(i as int).push(kv[i as int]) =~= kv.take(i + 1));
        }
        assert(kv[i as int] == keywords@[i as int]@);
        if str_contains(lower.as_str(), keywords[i].as_str()) {
            n = n + 1;
        }
        i = i + 1;
    }
    assert(kv.take(keywords.len() as int) =~= kv);
    n
}


/// Splitting state after reading `s`: finished pieces and the piece in
/// progress, pieces being separated by single non-alphanumeric characters
/// (`str::split(|c| !c.is_alphanumeric())`).
pub open spec fn alnum_state(s: Seq<char>) -> (Seq<Seq<char>>, Seq<char>)
    decreases s.len(),
{
    if s.len() == 0 {
        (seq![], seq![])
    } else {
        let (done, cur) = alnum_state(s.drop_last());
        if !alphanumeric(s.last()) {
            (done.push(cur), seq![])
        } else {
            (done, cur.push(s.last()))
        }
    }
}

/// The pieces of `s` between non-alphanumeric characters, empty ones included.
pub open spec fn alnum_pieces(s: Seq<char>) -> Seq<Seq<char>> {
    alnum_state(s).0.push(alnum_state(s).1)
}

/// Splits a text at every non-alphanumeric character.
pub fn split_non_alphanumeric(text: &str) -> (r: Vec<String>)
    ensures
        r.deep_view() == alnum_pieces(text@),
{
    let v = chars_of(text);
    let mut done: Vec<String> = Vec::new();
    let mut cur: Vec<char> = Vec::new();
    let mut i: usize = 0;
    while i < v.len()
        invariant
            i <= v.len(),
            v@ == text@,
            (done.deep_view(), cur@) == alnum_state(v@.take(i as int)),
        decreases v.len() - i,
    {
        assert(v@.take(i + 1).drop_last() =~= v@.take(i as int));
        let c = v[i];
        if !char_is_alphanumeric(c) {
            let w = string_from_chars(&cur);
            done.push(w);
            assert(done.deep_view() =~= alnum_state(v@.take(i as int)).0.push(cur@));
            cur = Vec::new();
        } else {
            cur.push(c);
        }
        i = i + 1;
    }
    assert(v@.take(v.len() as int) =~= v@);
    let w = string_from_chars(&cur);
    done.push(w);
    assert(done.deep_view() =~= alnum_pieces(text@));
    done
}

} // verus!
