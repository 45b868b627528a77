//! Recency order of cached query hashes, kept by `lru::LruCache`.
//!
//! The cache holds its entries' keys in an `LruCache<u64, ()>`, whose
//! contents are named by [`lru_order`]: the keys from least to most
//! recently used. The wrappers state what the `lru` crate's source does to
//! that order.

use lru::LruCache;
use std::num::NonZeroUsize;
use vstd::prelude::*;

verus! {

#[verifier::external_type_specification]
#[verifier::external_body]
#[verifier::reject_recursive_types(K)]
#[verifier::reject_recursive_types(V)]
#[verifier::reject_recursive_types(S)]
pub struct ExLruCache<K, V, S>(LruCache<K, V, S>);

#[verifier::external_type_specification]
#[verifier::external_body]
pub struct ExLruHasher(lru::DefaultHasher);

/// Name for the keys an `LruCache<u64, ()>` holds, least recently used
/// first.
pub uninterp spec fn lru_order(c: LruCache<u64, ()>) -> Seq<u64>;

/// Name for the capacity an `LruCache<u64, ()>` was created with.
pub uninterp spec fn lru_capacity(c: LruCache<u64, ()>) -> nat;

/// `s` with every occurrence of `k` removed.
pub open spec fn without(s: Seq<u64>, k: u64) -> Seq<u64>
    decreases s.len(),
{
    if s.len() == 0 {
        s
    } else if s.last() == k {
        without(s.drop_last(), k)
    } else {
        without(s.drop_last(), k).push(s.last())
    }
}

/// `k` moved to the most recently used end.
pub open spec fn promoted(s: Seq<u64>, k: u64) -> Seq<u64> {
    without(s, k).push(k)
}

/// The order after inserting `k` into a cache holding at most `cap` keys:
/// an existing key moves to the most recent end; a new key is appended,
/// after evicting the least recently used key when the cache is full.
pub open spec fn inserted(s: Seq<u64>, k: u64, cap: nat) -> Seq<u64> {
    if s.contains(k) {
        promoted(s, k)
    } else if s.len() >= cap {
        s.drop_first().push(k)
    } else {
        s.push(k)
    }
}

/// Membership in a sequence extended by one item.
pub proof fn lemma_push_contains(q: Seq<u64>, y: u64, x: u64)
    ensures
        q.push(y).contains(x) <==> (q.contains(x) || x == y),
{
    if q.push(y).contains(x) {
        let i = choose|i: int| 0 <= i < q.push(y).len() && q.push(y)[i] == x;
        if i < q.len() {
            assert(q[i] == x);
        }
    }
    if q.contains(x) {
        let i = choose|i: int| 0 <= i < q.len() && q[i] == x;
        assert(q.push(y)[i] == x);
    }
    if x == y {
        assert(q.push(y)[q.len() as int] == x);
    }
}

/// What `without` keeps.
pub proof fn lemma_without_contains(s: Seq<u64>, k: u64, x: u64)
    ensures
        without(s, k).contains(x) <==> (s.contains(x) && x != k),
    decreases s.len(),
{
    if s.len() > 0 {
        let d = s.drop_last();
        lemma_without_contains(d, k, x);
        assert(s =~= d.push(s.last()));
        lemma_push_contains(d, s.last(), x);
        if s.last() != k {
            lemma_push_contains(without(d, k), s.last(), x);
        }
    }
}

/// Removing a key keeps a duplicate-free sequence duplicate-free, and
/// shortens it by one exactly when the key was present.
pub proof fn lemma_without_no_dup(s: Seq<u64>, k: u64)
    requires
        s.no_duplicates(),
    ensures
        without(s, k).no_duplicates(),
        without(s, k).len() == if s.contains(k) {
            s.len() - 1
        } else {
            s.len() as int
        },
        !s.contains(k) ==> without(s, k) == s,
    decreases s.len(),
{
    if s.len() > 0 {
        let d = s.drop_last();
        assert(d.no_duplicates());
        lemma_without_no_dup(d, k);
        if s.last() != k {
            lemma_without_contains(d, k, s.last());
            assert(!d.contains(s.last())) by {
                if d.contains(s.last()) {
                    let i = choose|i: int| 0 <= i < d.len() && d[i] == s.last();
                    assert(s[i] == s[s.len() - 1]);
                }
            }
        } else {
            assert(!d.contains(k)) by {
                if d.contains(k) {
                    let i = choose|i: int| 0 <= i < d.len() && d[i] == k;
                    assert(s[i] == s[s.len() - 1]);
                }
            }
        }
        if s.contains(k) && s.last() != k {
            let i = choose|i: int| 0 <= i < s.len() && s[i] == k;
            assert(d[i] == k);
        }
        if d.contains(k) {
            let i = choose|i: int| 0 <= i < d.len() && d[i] == k;
            assert(s[i] == k);
        }
        if !s.contains(k) {
            assert(s.last() != k) by {
                assert(s[s.len() - 1] == s.last());
            }
            assert(!d.contains(k)) by {
                if d.contains(k) {
                    let i = choose|i: int| 0 <= i < d.len() && d[i] == k;
                    assert(s[i] == k);
                }
            }
            assert(without(s, k) =~= s);
        }
    }
}

/// The order after an insertion stays duplicate-free, within capacity, and
/// holds the inserted key.
pub proof fn lemma_inserted(s: Seq<u64>, k: u64, cap: nat)
    requires
        s.no_duplicates(),
        s.len() <= cap,
        cap > 0,
    ensures
        inserted(s, k, cap).no_duplicates(),
        inserted(s, k, cap).len() <= cap,
        inserted(s, k, cap).contains(k),
        inserted(s, k, cap).last() == k,
        forall|x: u64|
            #![trigger inserted(s, k, cap).contains(x)]
            x != k ==> (inserted(s, k, cap).contains(x) <==> (s.contains(x) && !(!s.contains(k)
                && s.len() >= cap && x == s[0]))),
{
    let r = inserted(s, k, cap);
    assert(r[r.len() - 1] == k);
    if s.contains(k) {
        lemma_without_no_dup(s, k);
        assert forall|x: u64| #![trigger r.contains(x)] r.contains(x) <==> (without(s, k).contains(x) || x == k) by {
            if r.contains(x) && x != k {
                let i = choose|i: int| 0 <= i < r.len() && r[i] == x;
                assert(without(s, k)[i] == x);
            }
            if without(s, k).contains(x) {
                let i = choose|i: int| 0 <= i < without(s, k).len() && without(s, k)[i] == x;
                assert(r[i] == x);
            }
        }
        assert forall|x: u64| #![trigger r.contains(x)] x != k implies (r.contains(x) <==> s.contains(x)) by {
            lemma_without_contains(s, k, x);
        }
        assert(!without(s, k).contains(k)) by {
            lemma_without_contains(s, k, k);
        }
    } else if s.len() >= cap {
        let d = s.drop_first();
        assert forall|x: u64| #![trigger r.contains(x)] x != k implies (r.contains(x) <==> (s.contains(x) && x != s[0])) by {
            if r.contains(x) {
                let i = choose|i: int| 0 <= i < r.len() && r[i] == x;
                assert(s[i + 1] == x);
                assert(s[0] != s[i + 1]);
            }
            if s.contains(x) && x != s[0] {
                let i = choose|i: int| 0 <= i < s.len() && s[i] == x;
                assert(r[i - 1] == x);
            }
        }
        assert forall|i: int, j: int| 0 <= i < j < r.len() implies r[i] != r[j] by {
            if j < r.len() - 1 {
                assert(r[i] == s[i + 1] && r[j] == s[j + 1]);
            } else {
                assert(r[i] == s[i + 1]);
            }
        }
    } else {
        assert forall|x: u64| #![trigger r.contains(x)] x != k implies (r.contains(x) <==> s.contains(x)) by {
            if r.contains(x) {
                let i = choose|i: int| 0 <= i < r.len() && r[i] == x;
                assert(s[i] == x);
            }
            if s.contains(x) {
                let i = choose|i: int| 0 <= i < s.len() && s[i] == x;
                assert(r[i] == x);
            }
        }
        assert forall|i: int, j: int| 0 <= i < j < r.len() implies r[i] != r[j] by {
            if j == r.len() - 1 {
                assert(r[i] == s[i]);
            }
        }
    }
    if s.contains(k) {
        let w = without(s, k);
        assert forall|i: int, j: int| 0 <= i < j < r.len() implies r[i] != r[j] by {
            if j == r.len() - 1 {
                assert(r[i] == w[i]);
                assert(w.contains(w[i]));
            }
        }
    }
}

/// `LruCache::new`: an empty cache holding at most `cap` keys. The `lru`
/// source panics on a zero capacity through `NonZeroUsize`, which the
/// precondition leaves out.
#[verifier::external_body]
pub(crate) fn lru_new(cap: usize) -> (c: LruCache<u64, ()>)
    requires
        cap > 0,
    ensures
        lru_order(c) == Seq::<u64>::empty(),
        lru_capacity(c) == cap,
{
    LruCache::new(NonZeroUsize::new(cap).unwrap())
}

/// `LruCache::contains`: whether `k` is held; the order is not changed.
#[verifier::external_body]
pub(crate) fn lru_contains(c: &LruCache<u64, ()>, k: u64) -> (b: bool)
    ensures
        b == lru_order(*c).contains(k),
{
    c.contains(&k)
}

/// `LruCache::get`: whether `k` is held; a held key becomes the most
/// recently used.
#[verifier::external_body]
pub(crate) fn lru_touch(c: &mut LruCache<u64, ()>, k: u64) -> (b: bool)
    ensures
        b == lru_order(*old(c)).contains(k),
        lru_capacity(*final(c)) == lru_capacity(*old(c)),
        lru_order(*final(c)) == if b {
            promoted(lru_order(*old(c)), k)
        } else {
            lru_order(*old(c))
        },
{
    c.get(&k).is_some()
}

/// `LruCache::push` on a cache created with capacity `cap`: a held key
/// moves to the most recent end and is returned; a new key is appended,
/// and when the cache is full the least recently used key is evicted and
/// returned.
#[verifier::external_body]
pub(crate) fn lru_push(c: &mut LruCache<u64, ()>, k: u64) -> (replaced: Option<u64>)
    ensures
        lru_capacity(*final(c)) == lru_capacity(*old(c)),
        lru_order(*final(c)) == inserted(lru_order(*old(c)), k, lru_capacity(*old(c))),
        replaced == if lru_order(*old(c)).contains(k) {
            Some(k)
        } else if lru_order(*old(c)).len() >= lru_capacity(*old(c)) {
            Some(lru_order(*old(c))[0])
        } else {
            None::<u64>
        },
{
    c.push(k, ()).map(|(key, _)| key)
}

/// `LruCache::pop`: removes `k` if held.
#[verifier::external_body]
pub(crate) fn lru_pop(c: &mut LruCache<u64, ()>, k: u64)
    ensures
        lru_capacity(*final(c)) == lru_capacity(*old(c)),
        lru_order(*final(c)) == without(lru_order(*old(c)), k),
{
    c.pop(&k);
}

/// `LruCache::clear`: removes every key.
#[verifier::external_body]
pub(crate) fn lru_clear(c: &mut LruCache<u64, ()>)
    ensures
        lru_capacity(*final(c)) == lru_capacity(*old(c)),
        lru_order(*final(c)) == Seq::<u64>::empty(),
{
    c.clear();
}

/// `LruCache::len`: the number of keys held.
#[verifier::external_body]
pub(crate) fn lru_len(c: &LruCache<u64, ()>) -> (n: usize)
    ensures
        n == lru_order(*c).len(),
{
    c.len()
}

} // verus!
