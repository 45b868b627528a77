//! Character and string primitives shared by the retrieval modules.
//!
//! Whitespace follows the Unicode `White_Space` property (what
//! `char::is_whitespace` and `str::trim` use), splitting follows the
//! semantics of `str::split` / `str::split_whitespace`, and string order is
//! the lexicographic order of code points, which is the order `String`'s
//! `Ord` gives (byte order of UTF-8 agrees with code point order).

use vstd::prelude::*;

verus! {

/// Unicode `White_Space` property, as used by `char::is_whitespace`.
pub open spec fn is_ws(c: char) -> bool {
    ||| ('\u{9}' <= c && c <= '\u{d}')
    ||| c == ' '
    ||| c == '\u{85}'
    ||| c == '\u{a0}'
    ||| c == '\u{1680}'
    ||| ('\u{2000}' <= c && c <= '\u{200a}')
    ||| c == '\u{2028}'
    ||| c == '\u{2029}'
    ||| c == '\u{202f}'
    ||| c == '\u{205f}'
    ||| c == '\u{3000}'
}

/// Executable whitespace test.
pub fn char_is_whitespace(c: char) -> (b: bool)
    ensures
        b == is_ws(c),
{
    ('\u{9}' <= c && c <= '\u{d}') || c == ' ' || c == '\u{85}' || c == '\u{a0}' || c == '\u{1680}'
        || ('\u{2000}' <= c && c <= '\u{200a}') || c == '\u{2028}' || c == '\u{2029}' || c
        == '\u{202f}' || c == '\u{205f}' || c == '\u{3000}'
}

/// The characters of a string slice, in order.
pub fn chars_of(s: &str) -> (v: Vec<char>)
    ensures
        v@ == s@,
{
    let mut v: Vec<char> = Vec::new();
    for c in it: s.chars()
        invariant
            v@ == it.seq().take(it.index() as int),
    {
        v.push(c);
    }
    v
}

/// Whether two character vectors are equal.
pub fn chars_eq(a: &Vec<char>, b: &Vec<char>) -> (r: bool)
    ensures
        r == (a@ == b@),
{
    if a.len() != b.len() {
        return false;
    }
    let mut i: usize = 0;
    while i < a.len()
        invariant
            a.len() == b.len(),
            i <= a.len(),
            forall|k: int| 0 <= k < i ==> a@[k] == b@[k],
        decreases a.len() - i,
    {
        if a[i] != b[i] {
            return false;
        }
        i = i + 1;
    }
    assert(a@ =~= b@);
    true
}

/// Whether two strings hold the same characters.
pub fn str_eq(a: &str, b: &str) -> (r: bool)
    ensures
        r == (a@ == b@),
{
    let av = chars_of(a);
    let bv = chars_of(b);
    chars_eq(&av, &bv)
}

/// Appends one character (`String::push`).
#[verifier::external_body]
pub(crate) fn push_char(s: &mut String, c: char)
    ensures
        final(s)@ == old(s)@.push(c),
{
    s.push(c);
}

/// Appends every character of `t` (`String::push_str`).
pub fn push_str(s: &mut String, t: &str)
    ensures
        final(s)@ == old(s)@ + t@,
{
    let tv = chars_of(t);
    let mut i: usize = 0;
    while i < tv.len()
        invariant
            i <= tv.len(),
            tv@ == t@,
            s@ == old(s)@ + t@.take(i as int),
        decreases tv.len() - i,
    {
        push_char(s, tv[i]);
        assert(t@.take(i + 1) =~= t@.take(i as int).push(t@[i as int]));
        i = i + 1;
    }
    assert(t@.take(tv.len() as int) =~= t@);
}

/// The decimal digit character for `d`.
pub open spec fn digit_char(d: nat) -> char {
    if d == 0 { '0' }
    else if d == 1 { '1' }
    else if d == 2 { '2' }
    else if d == 3 { '3' }
    else if d == 4 { '4' }
    else if d == 5 { '5' }
    else if d == 6 { '6' }
    else if d == 7 { '7' }
    else if d == 8 { '8' }
    else { '9' }
}

/// Decimal notation of a natural number, most significant digit first, as
/// `Display` writes unsigned integers.
pub open spec fn decimal(n: nat) -> Seq<char>
    decreases n,
{
    if n < 10 {
        seq![digit_char(n)]
    } else {
        decimal(n / 10).push(digit_char(n % 10))
    }
}

/// Appends the decimal notation of `n`.
pub fn push_decimal(s: &mut String, n: usize)
    ensures
        final(s)@ == old(s)@ + decimal(n as nat),
    decreases n,
{
    if n >= 10 {
        push_decimal(s, n / 10);
    }
    let d = n % 10;
    let c = if d == 0 { '0' }
        else if d == 1 { '1' }
        else if d == 2 { '2' }
        else if d == 3 { '3' }
        else if d == 4 { '4' }
        else if d == 5 { '5' }
        else if d == 6 { '6' }
        else if d == 7 { '7' }
        else if d == 8 { '8' }
        else { '9' };
    push_char(s, c);
    proof {
        if n >= 10 {
            assert(old(s)@ + decimal(n as nat) =~= (old(s)@ + decimal((n / 10) as nat)).push(c));
        } else {
            assert(old(s)@ + decimal(n as nat) =~= old(s)@.push(c));
        }
    }
}

/// The string made of `v[lo..hi]`.
pub fn string_from_range(v: &Vec<char>, lo: usize, hi: usize) -> (s: String)
    requires
        lo <= hi <= v.len(),
    ensures
        s@ == v@.subrange(lo as int, hi as int),
{
    let mut s = String::new();
    let mut i = lo;
    while i < hi
        invariant
            lo <= i <= hi <= v.len(),
            s@ == v@.subrange(lo as int, i as int),
        decreases hi - i,
    {
        push_char(&mut s, v[i]);
        assert(v@.subrange(lo as int, i + 1) =~= v@.subrange(lo as int, i as int).push(v@[i as int]));
        i = i + 1;
    }
    s
}

/// The string made of all of `v`.
pub fn string_from_chars(v: &Vec<char>) -> (s: String)
    ensures
        s@ == v@,
{
    let s = string_from_range(v, 0, v.len());
    assert(v@.subrange(0, v@.len() as int) =~= v@);
    s
}

/// Name for what `str::to_lowercase` returns: the Unicode lowercase
/// mapping of a string.
pub uninterp spec fn lowercase(s: Seq<char>) -> Seq<char>;

/// The ASCII lowercase mapping: `A` to `Z` become `a` to `z`, every other
/// character stays.
pub open spec fn ascii_lower(s: Seq<char>) -> Seq<char> {
    s.map_values(|c: char| if 'A' <= c && c <= 'Z' { ((c as u32) + 32) as char } else { c })
}

/// Every character is ASCII.
pub open spec fn all_ascii(s: Seq<char>) -> bool {
    forall|i: int| 0 <= i < s.len() ==> (#[trigger] s[i] as u32) < 128
}

/// `str::to_lowercase`: the Unicode lowercase mapping of `s`, named by
/// [`lowercase`]. On ASCII text it is the ASCII mapping (`A`-`Z` to
/// `a`-`z`); what other characters map to is left to the standard library
/// and not stated here.
#[verifier::external_body]
pub(crate) fn to_lowercase(s: &str) -> (r: String)
    ensures
        r@ == lowercase(s@),
        all_ascii(s@) ==> r@ == ascii_lower(s@),
{
    s.to_lowercase()
}

/// Leading whitespace removed.
pub open spec fn trim_start(s: Seq<char>) -> Seq<char>
    decreases s.len(),
{
    if s.len() > 0 && is_ws(s[0]) {
        trim_start(s.drop_first())
    } else {
        s
    }
}

/// Trailing whitespace removed.
pub open spec fn trim_end(s: Seq<char>) -> Seq<char>
    decreases s.len(),
{
    if s.len() > 0 && is_ws(s.last()) {
        trim_end(s.drop_last())
    } else {
        s
    }
}

/// Leading and trailing whitespace removed (`str::trim`).
pub open spec fn trim(s: Seq<char>) -> Seq<char> {
    trim_end(trim_start(s))
}

/// `str::trim` on the characters of `s`.
pub fn trim_chars(s: &str) -> (r: String)
    ensures
        r@ == trim(s@),
{
    let v = chars_of(s);
    let n = v.len();
    let mut lo: usize = 0;
    assert(v@.subrange(0, n as int) =~= v@);
    while lo < n && char_is_whitespace(v[lo])
        invariant
            n == v.len(),
            lo <= n,
            trim_start(v@) == trim_start(v@.subrange(lo as int, n as int)),
        decreases n - lo,
    {
        assert(v@.subrange(lo as int, n as int).drop_first() =~= v@.subrange(lo + 1, n as int));
        lo = lo + 1;
    }
    assert(trim_start(v@) == v@.subrange(lo as int, n as int));
    let mut hi: usize = n;
    while hi > lo && char_is_whitespace(v[hi - 1])
        invariant
            n == v.len(),
            lo <= hi <= n,
            trim(v@) == trim_end(v@.subrange(lo as int, hi as int)),
        decreases hi - lo,
    {
        assert(v@.subrange(lo as int, hi as int).drop_last() =~= v@.subrange(lo as int, hi - 1));
        hi = hi - 1;
    }
    string_from_range(&v, lo, hi)
}

/// Splitting state after reading `s`: finished words and the word in
/// progress, where words are maximal runs of non-whitespace characters.
pub open spec fn split_ws_state(s: Seq<char>) -> (Seq<Seq<char>>, Seq<char>)
    decreases s.len(),
{
    if s.len() == 0 {
        (seq![], seq![])
    } else {
        let (done, cur) = split_ws_state(s.drop_last());
        if is_ws(s.last()) {
            if cur.len() > 0 {
                (done.push(cur), seq![])
            } else {
                (done, cur)
            }
        } else {
            (done, cur.push(s.last()))
        }
    }
}

/// The whitespace-separated words of `s` (`str::split_whitespace`).
pub open spec fn words(s: Seq<char>) -> Seq<Seq<char>> {
    let (done, cur) = split_ws_state(s);
    if cur.len() > 0 {
        done.push(cur)
    } else {
        done
    }
}

/// The whitespace-separated words of `s`.
pub fn split_whitespace(s: &str) -> (r: Vec<String>)
    ensures
        r.deep_view() == words(s@),
{
    let v = chars_of(s);
    let n = v.len();
    let mut done: Vec<String> = Vec::new();
    let mut cur: Vec<char> = Vec::new();
    let mut i: usize = 0;
    while i < n
        invariant
            n == v.len(),
            i <= n,
            v@ == s@,
            (done.deep_view(), cur@) == split_ws_state(v@.take(i as int)),
        decreases n - i,
    {
        assert(v@.take(i + 1).drop_last() =~= v@.take(i as int));
        let c = v[i];
        if char_is_whitespace(c) {
            if cur.len() > 0 {
                let w = string_from_chars(&cur);
                done.push(w);
                assert(done.deep_view() =~= split_ws_state(v@.take(i as int)).0.push(cur@));
                cur = Vec::new();
            }
        } else {
            cur.push(c);
        }
        i = i + 1;
    }
    assert(v@.take(n as int) =~= v@);
    if cur.len() > 0 {
        let w = string_from_chars(&cur);
        done.push(w);
        assert(done.deep_view() =~= split_ws_state(v@).0.push(cur@));
    }
    done
}

/// `p` occurs as a contiguous part of `s` (`str::contains` with a string
/// pattern).
pub open spec fn contains_seq(s: Seq<char>, p: Seq<char>) -> bool {
    exists|i: int| 0 <= i && i + p.len() <= s.len() && #[trigger] s.subrange(i, i + p.len()) == p
}

/// Whether `p` occurs in `s`.
pub fn str_contains(s: &str, p: &str) -> (b: bool)
    ensures
        b == contains_seq(s@, p@),
{
    let sv = chars_of(s);
    let pv = chars_of(p);
    chars_contain(&sv, &pv)
}

/// Whether `p` occurs in `s`, on character vectors.
pub fn chars_contain(sv: &Vec<char>, pv: &Vec<char>) -> (b: bool)
    ensures
        b == contains_seq(sv@, pv@),
{
    let n = sv.len();
    let m = pv.len();
    if m > n {
        return false;
    }
    let mut i: usize = 0;
    loop
        invariant
            n == sv.len(),
            m == pv.len(),
            m <= n,
            i <= n - m,
            forall|k: int| 0 <= k < i ==> #[trigger] sv@.subrange(k, k + m) != pv@,
        decreases n - m - i,
    {
        let mut j: usize = 0;
        let mut same = true;
        while j < m
            invariant
                n == sv.len(),
                m == pv.len(),
                i + m <= n,
                j <= m,
                same ==> forall|k: int| 0 <= k < j ==> sv@[i + k] == pv@[k],
                !same ==> sv@.subrange(i as int, i + m) != pv@,
            decreases m - j,
        {
            if sv[i + j] != pv[j] {
                if same {
                    assert(sv@.subrange(i as int, i + m)[j as int] != pv@[j as int]);
                }
                same = false;
            }
            j = j + 1;
        }
        if same {
            assert(sv@.subrange(i as int, i + m) =~= pv@);
            return true;
        }
        if i == n - m {
            proof {
                assert forall|k: int| 0 <= k && k + pv@.len() <= sv@.len() implies #[trigger] sv@.subrange(
                    k,
                    k + pv@.len(),
                ) != pv@ by {
                    if k < i {
                    } else {
                        assert(k == i);
                    }
                }
            }
            return false;
        }
        i = i + 1;
    }
}

/// Lexicographic order on code points.
pub open spec fn seq_lt(a: Seq<char>, b: Seq<char>) -> bool
    decreases a.len(),
{
    if a.len() == 0 {
        b.len() > 0
    } else if b.len() == 0 {
        false
    } else if a[0] < b[0] {
        true
    } else if a[0] > b[0] {
        false
    } else {
        seq_lt(a.drop_first(), b.drop_first())
    }
}

/// The lexicographic order is irreflexive.
pub proof fn lemma_seq_lt_irreflexive(a: Seq<char>)
    ensures
        !seq_lt(a, a),
    decreases a.len(),
{
    if a.len() > 0 {
        lemma_seq_lt_irreflexive(a.drop_first());
    }
}

/// The lexicographic order is transitive.
pub proof fn lemma_seq_lt_transitive(a: Seq<char>, b: Seq<char>, c: Seq<char>)
    requires
        seq_lt(a, b),
        seq_lt(b, c),
    ensures
        seq_lt(a, c),
    decreases a.len(),
{
    if a.len() > 0 && b.len() > 0 && c.len() > 0 {
        if a[0] == b[0] && b[0] == c[0] {
            lemma_seq_lt_transitive(a.drop_first(), b.drop_first(), c.drop_first());
        }
    }
}

/// Two distinct sequences are ordered one way or the other.
pub proof fn lemma_seq_lt_total(a: Seq<char>, b: Seq<char>)
    requires
        a != b,
    ensures
        seq_lt(a, b) || seq_lt(b, a),
    decreases a.len(),
{
    if a.len() > 0 && b.len() > 0 && a[0] == b[0] {
        if a.drop_first() == b.drop_first() {
            assert(a =~= seq![a[0]] + a.drop_first());
            assert(b =~= seq![b[0]] + b.drop_first());
            assert(a[0] == b[0]);
        }
        lemma_seq_lt_total(a.drop_first(), b.drop_first());
    } else if a.len() == 0 && b.len() == 0 {
        assert(a =~= b);
    }
}

/// Executable lexicographic comparison.
pub fn chars_lt(a: &Vec<char>, b: &Vec<char>) -> (r: bool)
    ensures
        r == seq_lt(a@, b@),
{
    let mut i: usize = 0;
    assert(a@.skip(0) =~= a@);
    assert(b@.skip(0) =~= b@);
    while i < a.len() && i < b.len() && a[i] == b[i]
        invariant
            i <= a.len(),
            i <= b.len(),
            seq_lt(a@, b@) == seq_lt(a@.skip(i as int), b@.skip(i as int)),
        decreases a.len() - i,
    {
        assert(a@.skip(i as int).drop_first() =~= a@.skip(i + 1));
        assert(b@.skip(i as int).drop_first() =~= b@.skip(i + 1));
        i = i + 1;
    }
    if i == a.len() {
        i < b.len()
    } else if i == b.len() {
        false
    } else {
        a[i] < b[i]
    }
}

/// Pushing an item adds it to the set of items.
pub proof fn lemma_push_to_set<A>(s: Seq<A>, x: A)
    ensures
        s.push(x).to_set() == s.to_set().insert(x),
{
    assert forall|e: A| s.push(x).to_set().contains(e) <==> s.to_set().insert(x).contains(e) by {
        if s.push(x).contains(e) {
            let i = choose|i: int| 0 <= i < s.push(x).len() && s.push(x)[i] == e;
            if i < s.len() {
                assert(s[i] == e);
            }
        }
        if s.contains(e) {
            let i = choose|i: int| 0 <= i < s.len() && s[i] == e;
            assert(s.push(x)[i] == e);
        }
        if e == x {
            assert(s.push(x)[s.len() as int] == e);
        }
    }
    assert(s.push(x).to_set() =~= s.to_set().insert(x));
}

/// Strictly increasing in the lexicographic order (so without duplicates).
pub open spec fn strictly_sorted(s: Seq<Seq<char>>) -> bool {
    forall|i: int, j: int| 0 <= i < j < s.len() ==> seq_lt(#[trigger] s[i], #[trigger] s[j])
}

/// A strictly increasing sequence is determined by its set of items.
pub proof fn lemma_strictly_sorted_unique(a: Seq<Seq<char>>, b: Seq<Seq<char>>)
    requires
        strictly_sorted(a),
        strictly_sorted(b),
        a.to_set() == b.to_set(),
    ensures
        a == b,
    decreases a.len(),
{
    if a.len() == 0 {
        if b.len() > 0 {
            assert(b.to_set().contains(b[0]));
            assert(!a.to_set().contains(b[0]));
        }
        assert(a =~= b);
    } else if b.len() == 0 {
        assert(a.to_set().contains(a[0]));
        assert(!b.to_set().contains(a[0]));
    } else {
        // Both first items are the least item of the common set.
        assert(a.to_set().contains(a[0]));
        assert(b.to_set().contains(b[0]));
        let ja = choose|j: int| 0 <= j < a.len() && a[j] == b[0];
        let jb = choose|j: int| 0 <= j < b.len() && b[j] == a[0];
        if a[0] != b[0] {
            assert(ja > 0);
            assert(jb > 0);
            assert(seq_lt(a[0], a[ja]));
            assert(seq_lt(b[0], b[jb]));
            lemma_seq_lt_transitive(a[0], b[0], a[0]);
            lemma_seq_lt_irreflexive(a[0]);
        }
        let a1 = a.drop_first();
        let b1 = b.drop_first();
        assert(a1.to_set() == b1.to_set()) by {
            assert forall|x: Seq<char>| a1.to_set().contains(x) <==> b1.to_set().contains(x) by {
                if a1.to_set().contains(x) {
                    let i = choose|i: int| 0 <= i < a1.len() && a1[i] == x;
                    assert(a[i + 1] == x);
                    assert(seq_lt(a[0], x));
                    assert(b.to_set().contains(x));
                    let k = choose|k: int| 0 <= k < b.len() && b[k] == x;
                    if k == 0 {
                        lemma_seq_lt_irreflexive(x);
                    }
                    assert(b1[k - 1] == x);
                }
                if b1.to_set().contains(x) {
                    let i = choose|i: int| 0 <= i < b1.len() && b1[i] == x;
                    assert(b[i + 1] == x);
                    assert(seq_lt(b[0], x));
                    assert(a.to_set().contains(x));
                    let k = choose|k: int| 0 <= k < a.len() && a[k] == x;
                    if k == 0 {
                        lemma_seq_lt_irreflexive(x);
                    }
                    assert(a1[k - 1] == x);
                }
            }
            assert(a1.to_set() =~= b1.to_set());
        }
        assert(strictly_sorted(a1)) by {
            assert forall|i: int, j: int| 0 <= i < j < a1.len() implies seq_lt(#[trigger] a1[i], #[trigger] a1[j]) by {
                assert(a1[i] == a[i + 1] && a1[j] == a[j + 1]);
            }
        }
        assert(strictly_sorted(b1)) by {
            assert forall|i: int, j: int| 0 <= i < j < b1.len() implies seq_lt(#[trigger] b1[i], #[trigger] b1[j]) by {
                assert(b1[i] == b[i + 1] && b1[j] == b[j + 1]);
            }
        }
        lemma_strictly_sorted_unique(a1, b1);
        assert(a =~= seq![a[0]] + a1);
        assert(b =~= seq![b[0]] + b1);
    }
}

/// The items of `v`, sorted and with duplicates removed (`sort_unstable`
/// then `dedup`): the unique strictly increasing sequence with the same
/// set of items.
pub fn sort_dedup_strings(v: Vec<String>) -> (r: Vec<String>)
    ensures
        strictly_sorted(r.deep_view()),
        r.deep_view().to_set() == v.deep_view().to_set(),
{
    let mut out: Vec<String> = Vec::new();
    let n = v.len();
    let mut k: usize = 0;
    while k < n
        invariant
            n == v.len(),
            k <= n,
            strictly_sorted(out.deep_view()),
            out.deep_view().to_set() == v.deep_view().take(k as int).to_set(),
        decreases n - k,
    {
        let x = &v[k];
        let xv = chars_of(x.as_str());
        let mut p: usize = 0;
        let mut found = false;
        while p < out.len()
            invariant_except_break
                !found,
            invariant
                strictly_sorted(out.deep_view()),
                p <= out.len(),
                xv@ == x@,
                forall|j: int| 0 <= j < p ==> seq_lt(#[trigger] out.deep_view()[j], xv@),
            ensures
                p <= out.len(),
                found ==> p < out.len() && out.deep_view()[p as int] == xv@,
                !found ==> p == out.len() || seq_lt(xv@, out.deep_view()[p as int]),
            decreases out.len() - p,
        {
            let ov = chars_of(out[p].as_str());
            if chars_lt(&ov, &xv) {
                p = p + 1;
            } else {
                if out[p].eq(x) {
                    found = true;
                } else {
                    proof {
                        lemma_seq_lt_total(ov@, xv@);
                    }
                }
                break;
            }
        }
        let ghost old_out = out.deep_view();
        if !found {
            let item = x.clone();
            out.insert(p, item);
            proof {
                let nv = out.deep_view();
                assert(nv =~= old_out.insert(p as int, xv@));
                assert forall|i: int, j: int| 0 <= i < j < nv.len() implies seq_lt(
                    #[trigger] nv[i],
                    #[trigger] nv[j],
                ) by {
                    if i < p && j == p {
                    } else if i < p && j > p {
                        assert(nv[j] == old_out[j - 1]);
                    } else if i == p && j > p {
                        assert(nv[j] == old_out[j - 1]);
                        if p + 1 < j {
                            lemma_seq_lt_transitive(xv@, old_out[p as int], old_out[j - 1]);
                        }
                    } else if i > p {
                        assert(nv[i] == old_out[i - 1]);
                        assert(nv[j] == old_out[j - 1]);
                    }
                }
                assert(v.deep_view().take(k + 1) =~= v.deep_view().take(k as int).push(xv@));
                lemma_push_to_set(v.deep_view().take(k as int), xv@);
                assert(nv.to_set() =~= old_out.to_set().insert(xv@)) by {
                    assert forall|e: Seq<char>| nv.to_set().contains(e) <==> old_out.to_set().insert(xv@).contains(e) by {
                        if nv.contains(e) {
                            let idx = choose|idx: int| 0 <= idx < nv.len() && nv[idx] == e;
                            if idx < p {
                                assert(old_out[idx] == e);
                            } else if idx > p {
                                assert(old_out[idx - 1] == e);
                            }
                        }
                        if old_out.contains(e) {
                            let idx = choose|idx: int| 0 <= idx < old_out.len() && old_out[idx] == e;
                            if idx < p {
                                assert(nv[idx] == e);
                            } else {
                                assert(nv[idx + 1] == e);
                            }
                        }
                        if e == xv@ {
                            assert(nv[p as int] == e);
                        }
                    }
                }
            }
        } else {
            proof {
                assert(v.deep_view().take(k + 1) =~= v.deep_view().take(k as int).push(xv@));
                lemma_push_to_set(v.deep_view().take(k as int), xv@);
                assert(old_out[p as int] == xv@);
                assert(old_out.to_set().contains(xv@));
                assert(old_out.to_set().insert(xv@) =~= old_out.to_set());
            }
        }
        k = k + 1;
    }
    assert(v.deep_view().take(n as int) =~= v.deep_view());
    out
}

/// Whether `v` holds a string equal to `s`.
pub fn contains_string(v: &Vec<String>, s: &str) -> (r: bool)
    ensures
        r == v.deep_view().contains(s@),
{
    let ghost dv = v.deep_view();
    let mut i: usize = 0;
    while i < v.len()
        invariant
            i <= v.len(),
            dv == v.deep_view(),
            dv.len() == v.len(),
            forall|k: int| 0 <= k < i ==> dv[k] != s@,
        decreases v.len() - i,
    {
        if str_eq(v[i].as_str(), s) {
            assert(dv[i as int] == s@);
            return true;
        }
        i = i + 1;
    }
    false
}

/// Adds `s` to the set of strings held by `v` (no string occurs twice):
/// appended when absent, `v` unchanged when present.
pub fn insert_string(v: &mut Vec<String>, s: String)
    requires
        old(v).deep_view().no_duplicates(),
    ensures
        final(v).deep_view() == if old(v).deep_view().contains(s@) {
            old(v).deep_view()
        } else {
            old(v).deep_view().push(s@)
        },
        final(v).deep_view().no_duplicates(),
        final(v).deep_view().to_set() == old(v).deep_view().to_set().insert(s@),
{
    let ghost before = v.deep_view();
    if contains_string(v, s.as_str()) {
        proof {
            let i = choose|i: int| 0 <= i < before.len() && before[i] == s@;
            assert(before.to_set().insert(s@) =~= before.to_set());
        }
    } else {
        v.push(s);
        proof {
            assert(v.deep_view() =~= before.push(s@));
            lemma_push_to_set(before, s@);
        }
    }
}

} // verus!
