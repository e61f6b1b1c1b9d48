use lru::LruCache;
use std::num::NonZeroUsize;
use vstd::prelude::*;

use crate::pattern::CompiledPattern;

verus! {

#[verifier::external_type_specification]
#[verifier::external_body]
#[verifier::reject_recursive_types(K)]
#[verifier::reject_recursive_types(V)]
#[verifier::reject_recursive_types(S)]
pub struct ExLruCache<K, V, S>(LruCache<K, V, S>);

#[verifier::external_type_specification]
#[verifier::external_body]
pub struct ExDefaultHasher(lru::DefaultHasher);

/// A cache key: the template, then the start and end delimiters it was
/// compiled with.
pub type CacheKey = (String, char, char);

/// What a cache key stands for.
pub type KeyView = (Seq<char>, char, char);

/// One cache entry: the key, and the pattern that its compiled regex was built
/// from.
pub type EntryView = (KeyView, Seq<char>);

pub open spec fn key_view(k: &CacheKey) -> KeyView {
    (k.0@, k.1, k.2)
}

/// The entries of an LRU cache, most recently used first.
pub uninterp spec fn lru_entries(c: LruCache<(String, char, char), CompiledPattern>) -> Seq<
    ((Seq<char>, char, char), Seq<char>),
>;

/// The number of entries an LRU cache was made to hold.
pub uninterp spec fn lru_capacity(c: LruCache<(String, char, char), CompiledPattern>) -> nat;

/// No key occurs twice.
pub open spec fn keys_unique(e: Seq<EntryView>) -> bool {
    forall|i: int, j: int| 0 <= i < j < e.len() ==> e[i].0 != e[j].0
}

pub open spec fn has_key(e: Seq<EntryView>, k: KeyView) -> bool {
    exists|i: int| 0 <= i < e.len() && e[i].0 == k
}

/// Where key `k` stands in `e`.
pub open spec fn position(e: Seq<EntryView>, k: KeyView) -> int {
    choose|i: int| 0 <= i < e.len() && e[i].0 == k
}

/// The entries after a lookup of `k`: a key that is there becomes the most
/// recently used one.
pub open spec fn after_get(e: Seq<EntryView>, k: KeyView) -> Seq<EntryView> {
    if has_key(e, k) {
        let i = position(e, k);
        seq![e[i]] + e.remove(i)
    } else {
        e
    }
}

/// The entries after `k` is stored with pattern `v`, in a cache that holds at
/// most `cap`: an old entry for `k` is replaced, and otherwise, when the
/// cache is full, the least recently used entry leaves.
pub open spec fn after_put(e: Seq<EntryView>, cap: nat, k: KeyView, v: Seq<char>) -> Seq<
    EntryView,
> {
    if has_key(e, k) {
        seq![(k, v)] + e.remove(position(e, k))
    } else if e.len() == cap {
        seq![(k, v)] + e.drop_last()
    } else {
        seq![(k, v)] + e
    }
}

/// The entries fit the capacity and have distinct keys.
pub open spec fn lru_wf(c: LruCache<(String, char, char), CompiledPattern>) -> bool {
    &&& lru_capacity(c) > 0
    &&& lru_entries(c).len() <= lru_capacity(c)
    &&& keys_unique(lru_entries(c))
}

/// Relies on lru::LruCache::new: an empty cache that holds at most `cap`
/// entries.
#[verifier::external_body]
pub(crate) fn lru_new(cap: usize) -> (c: LruCache<(String, char, char), CompiledPattern>)
    requires
        cap > 0,
    ensures
        lru_entries(c) == Seq::<EntryView>::empty(),
        lru_capacity(c) == cap,
{
    LruCache::new(NonZeroUsize::new(cap).unwrap())
}

/// Relies on lru::LruCache::get: it returns the value stored under `k`, if
/// any, and makes that entry the most recently used one.
#[verifier::external_body]
pub(crate) fn lru_get(c: &mut LruCache<(String, char, char), CompiledPattern>, k: &CacheKey) -> (r:
    Option<CompiledPattern>)
    requires
        lru_wf(*old(c)),
    ensures
        lru_entries(*final(c)) == after_get(lru_entries(*old(c)), key_view(k)),
        lru_capacity(*final(c)) == lru_capacity(*old(c)),
        r is Some <==> has_key(lru_entries(*old(c)), key_view(k)),
        r matches Some(p) ==> p@ == lru_entries(*old(c))[position(
            lru_entries(*old(c)),
            key_view(k),
        )].1,
{
    c.get(k).cloned()
}

/// Relies on lru::LruCache::put: it stores `v` under `k` as the most recently
/// used entry, replacing an entry for `k`, or else, when the cache is full,
/// the least recently used one.
#[verifier::external_body]
pub(crate) fn lru_put(
    c: &mut LruCache<(String, char, char), CompiledPattern>,
    k: CacheKey,
    v: CompiledPattern,
)
    requires
        lru_wf(*old(c)),
    ensures
        lru_entries(*final(c)) == after_put(
            lru_entries(*old(c)),
            lru_capacity(*old(c)),
            key_view(&k),
            v@,
        ),
        lru_capacity(*final(c)) == lru_capacity(*old(c)),
{
    c.put(k, v);
}

proof fn lemma_position(e: Seq<EntryView>, k: KeyView)
    requires
        has_key(e, k),
    ensures
        0 <= position(e, k) < e.len(),
        e[position(e, k)].0 == k,
{
}

/// A lookup keeps the entries well formed and their set unchanged.
pub proof fn lemma_get_keeps(e: Seq<EntryView>, k: KeyView)
    requires
        keys_unique(e),
    ensures
        keys_unique(after_get(e, k)),
        after_get(e, k).len() == e.len(),
        forall|x: EntryView| after_get(e, k).contains(x) <==> e.contains(x),
{
    if has_key(e, k) {
        lemma_position(e, k);
        let i = position(e, k);
        let r = after_get(e, k);
        assert forall|x: EntryView| r.contains(x) <==> e.contains(x) by {
            if e.contains(x) {
                let j = choose|j: int| 0 <= j < e.len() && e[j] == x;
                if j < i {
                    assert(r[j + 1] == x);
                } else if j > i {
                    assert(r[j] == x);
                } else {
                    assert(r[0] == x);
                }
            }
            if r.contains(x) {
                let j = choose|j: int| 0 <= j < r.len() && r[j] == x;
                if j == 0 {
                    assert(e[i] == x);
                } else if j <= i {
                    assert(e[j - 1] == x);
                } else {
                    assert(e[j] == x);
                }
            }
        }
        assert forall|a: int, b: int| 0 <= a < b < r.len() implies r[a].0 != r[b].0 by {
            let ea = if a == 0 { i } else if a <= i { a - 1 } else { a };
            let eb = if b <= i { b - 1 } else { b };
            assert(r[a] == e[ea]);
            assert(r[b] == e[eb]);
        }
    }
}

/// Storing an entry keeps the entries within the capacity, with distinct
/// keys, and the new entry is the most recently used one.
pub proof fn lemma_put_keeps(e: Seq<EntryView>, cap: nat, k: KeyView, v: Seq<char>)
    requires
        keys_unique(e),
        0 < cap,
        e.len() <= cap,
    ensures
        keys_unique(after_put(e, cap, k, v)),
        after_put(e, cap, k, v).len() <= cap,
        after_put(e, cap, k, v)[0] == (k, v),
        forall|i: int|
            1 <= i < after_put(e, cap, k, v).len() ==> e.contains(
                #[trigger] after_put(e, cap, k, v)[i],
            ),
{
    let r = after_put(e, cap, k, v);
    if has_key(e, k) {
        lemma_position(e, k);
        let p = position(e, k);
        assert forall|a: int| 1 <= a < r.len() implies e.contains(#[trigger] r[a]) by {
            let ea = if a <= p { a - 1 } else { a };
            assert(r[a] == e[ea]);
        }
        assert forall|a: int, b: int| 0 <= a < b < r.len() implies r[a].0 != r[b].0 by {
            let eb = if b <= p { b - 1 } else { b };
            assert(r[b] == e[eb]);
            if a > 0 {
                let ea = if a <= p { a - 1 } else { a };
                assert(r[a] == e[ea]);
            }
        }
    } else {
        assert forall|a: int| 1 <= a < r.len() implies e.contains(#[trigger] r[a]) by {
            assert(r[a] == e[a - 1]);
        }
        assert forall|a: int, b: int| 0 <= a < b < r.len() implies r[a].0 != r[b].0 by {
            assert(r[b] == e[b - 1]);
            if a > 0 {
                assert(r[a] == e[a - 1]);
            }
        }
    }
}

/// In a cache that holds a single entry, storing a second key evicts the
/// first: a later lookup of it misses, so it has to be compiled again.
pub proof fn lemma_single_entry_evicts(
    e: Seq<EntryView>,
    a: KeyView,
    va: Seq<char>,
    b: KeyView,
    vb: Seq<char>,
)
    requires
        keys_unique(e),
        e.len() <= 1,
        a != b,
    ensures
        !has_key(after_put(after_put(e, 1, a, va), 1, b, vb), a),
{
    lemma_put_keeps(e, 1, a, va);
    let e1 = after_put(e, 1, a, va);
    lemma_put_keeps(e1, 1, b, vb);
    let e2 = after_put(e1, 1, b, vb);
    assert(e2.len() <= 1);
    assert(e2[0] == (b, vb));
}

} // verus!
