use lru::LruCache;
use vstd::prelude::*;
use vstd::rwlock::{RwLock, RwLockPredicate};
use vstd::std_specs::iter::IteratorSpec;

use crate::cache::{
    key_view, lemma_get_keeps, lemma_put_keeps, lru_capacity, lru_entries, lru_get,
    lru_new, lru_put, lru_wf, position, CacheKey, EntryView,
};
use crate::err::Error;
use crate::pattern::{compile, pattern_is_match, regex_accepts, regex_is_match, CompiledPattern};
use crate::template::{balanced, build_regex, composite, is_unbalanced_error, regions_valid};

verus! {

/// A template is matched literally when it holds no start delimiter.
pub open spec fn is_literal(t: Seq<char>, ds: char) -> bool {
    !t.contains(ds)
}

/// Template `t` compiles: its delimiters balance, each region is a valid
/// expression, and so is the composite pattern.
pub open spec fn template_compiles(t: Seq<char>, ds: char, de: char) -> bool {
    &&& balanced(t, ds, de)
    &&& regions_valid(t, ds, de)
    &&& regex_accepts(composite(t, ds, de))
}

/// Template `t` can be tested against a needle without error.
pub open spec fn template_usable(t: Seq<char>, ds: char, de: char) -> bool {
    is_literal(t, ds) || template_compiles(t, ds, de)
}

/// A literal template matches the needle equal to it; any other matches
/// where its composite pattern does.
pub open spec fn template_matches(t: Seq<char>, ds: char, de: char, needle: Seq<char>) -> bool {
    if is_literal(t, ds) {
        t == needle
    } else {
        regex_is_match(composite(t, ds, de), needle)
    }
}

/// The outcome of testing `needle` against the templates of `hs` in order:
/// `Ok(true)` at the first that matches, `Err(t)` at the first template `t`
/// that cannot be used, `Ok(false)` when none matches.
pub open spec fn haystack_result(ds: char, de: char, hs: Seq<Seq<char>>, needle: Seq<char>) -> Result<
    bool,
    Seq<char>,
>
    decreases hs.len(),
{
    if hs.len() == 0 {
        Ok(false)
    } else if !template_usable(hs[0], ds, de) {
        Err(hs[0])
    } else if template_matches(hs[0], ds, de, needle) {
        Ok(true)
    } else {
        haystack_result(ds, de, hs.drop_first(), needle)
    }
}

/// The error reported for the unusable template `t`.
pub open spec fn failure_of(e: Error, t: Seq<char>, ds: char, de: char) -> bool {
    if !balanced(t, ds, de) {
        is_unbalanced_error(e, t)
    } else {
        e is CompileRegexError
    }
}

pub open spec fn texts(hs: Seq<String>) -> Seq<Seq<char>> {
    hs.map_values(|s: String| s@)
}

/// Once a template matches, the templates after it are never looked at: the
/// outcome is a match whatever follows, even templates that would fail.
pub proof fn lemma_first_match_decides(
    ds: char,
    de: char,
    hs: Seq<Seq<char>>,
    rest: Seq<Seq<char>>,
    needle: Seq<char>,
)
    requires
        haystack_result(ds, de, hs, needle) == Ok::<bool, Seq<char>>(true),
    ensures
        haystack_result(ds, de, hs + rest, needle) == Ok::<bool, Seq<char>>(true),
    decreases hs.len(),
{
    assert((hs + rest)[0] == hs[0]);
    if !template_matches(hs[0], ds, de, needle) {
        assert((hs + rest).drop_first() =~= hs.drop_first() + rest);
        lemma_first_match_decides(ds, de, hs.drop_first(), rest, needle);
    }
}

/// Every cached entry holds the composite pattern of a template that
/// compiles, under the delimiters of its key.
pub open spec fn entry_sound(e: EntryView) -> bool {
    &&& template_compiles(e.0.0, e.0.1, e.0.2)
    &&& e.1 == composite(e.0.0, e.0.1, e.0.2)
}

/// The lock invariant of the shared cache, made with its capacity.
pub struct SoundEntries {
    pub capacity: usize,
}

impl RwLockPredicate<LruCache<(String, char, char), CompiledPattern>> for SoundEntries {
    open spec fn inv(self, c: LruCache<(String, char, char), CompiledPattern>) -> bool {
        &&& lru_wf(c)
        &&& lru_capacity(c) == self.capacity
        &&& forall|i: int| 0 <= i < lru_entries(c).len() ==> entry_sound(#[trigger] lru_entries(c)[i])
    }
}

/// Decides whether a needle matches at least one template of a haystack.
pub trait Matcher {
    fn matches(
        &self,
        delimiter_start: char,
        delimiter_end: char,
        haystack: Vec<String>,
        needle: &str,
    ) -> Result<bool, Error>;
}

/// A matcher that compiles templates into regular expressions and keeps the
/// compiled ones in a bounded least-recently-used cache, shared by all callers
/// behind a lock.
pub struct Regexp {
    lru: RwLock<LruCache<(String, char, char), CompiledPattern>, SoundEntries>,
}

impl Regexp {
    /// The number of compiled templates the cache holds at most.
    pub closed spec fn capacity(&self) -> nat {
        self.lru.pred().capacity as nat
    }

    /// A matcher whose cache holds at most `cache_size` compiled templates.
    pub fn new(cache_size: usize) -> (r: Result<Self, Error>)
        ensures
            r is Err <==> cache_size == 0,
            r matches Err(e) ==> (e matches Error::InvalidCacheSize(n) && n == cache_size),
            r matches Ok(m) ==> m.capacity() == cache_size,
    {
        if cache_size == 0 {
            return Err(Error::InvalidCacheSize(cache_size));
        }
        let lru = lru_new(cache_size);
        Ok(Regexp { lru: RwLock::new(lru, Ghost(SoundEntries { capacity: cache_size })) })
    }
}

/// Whether `c` occurs in `s`.
fn has_char(s: &str, c: char) -> (r: bool)
    ensures
        r == s@.contains(c),
{
    let n = s.unicode_len();
    let mut chars = s.chars();
    let mut i: usize = 0;
    while i < n
        invariant
            n == s@.len(),
            i <= n,
            chars.remaining() == s@.skip(i as int),
            forall|k: int| 0 <= k < i ==> s@[k] != c,
        decreases n - i,
    {
        let x = chars.next().unwrap();
        assert(x == s@[i as int]);
        if x == c {
            return true;
        }
        i = i + 1;
    }
    false
}

impl Matcher for Regexp {
    /// Tests `needle` against the templates of `haystack` in order and stops
    /// at the first that matches or fails. A template without a start
    /// delimiter is compared literally; any other is looked up in the cache,
    /// and compiled and stored there on a miss.
    fn matches(
        &self,
        delimiter_start: char,
        delimiter_end: char,
        haystack: Vec<String>,
        needle: &str,
    ) -> (r: Result<bool, Error>)
        ensures
            r is Ok <==> haystack_result(
                delimiter_start,
                delimiter_end,
                texts(haystack@),
                needle@,
            ) is Ok,
            r matches Ok(b) ==> haystack_result(
                delimiter_start,
                delimiter_end,
                texts(haystack@),
                needle@,
            ) == Ok::<bool, Seq<char>>(b),
            r matches Err(e) ==> (haystack_result(
                delimiter_start,
                delimiter_end,
                texts(haystack@),
                needle@,
            ) matches Err(t) && failure_of(e, t, delimiter_start, delimiter_end)),
    {
        let ghost ds = delimiter_start;
        let ghost de = delimiter_end;
        let ghost all = texts(haystack@);
        let target = needle.to_owned();
        let mut i: usize = 0;
        assert(all.skip(0) =~= all);
        while i < haystack.len()
            invariant
                ds == delimiter_start,
                de == delimiter_end,
                all == texts(haystack@),
                target@ == needle@,
                i <= haystack.len(),
                haystack_result(ds, de, all, needle@) == haystack_result(
                    ds,
                    de,
                    all.skip(i as int),
                    needle@,
                ),
            decreases haystack.len() - i,
        {
            let h = &haystack[i];
            let ghost t = h@;
            assert(all.len() == haystack@.len());
            assert(all[i as int] == t);
            assert(all.skip(i as int)[0] == t);
            assert(all.skip(i as int).drop_first() =~= all.skip(i + 1));
            if !has_char(h.as_str(), delimiter_start) {
                if *h == target {
                    return Ok(true);
                }
            } else {
                let key: CacheKey = (h.clone(), delimiter_start, delimiter_end);
                let (mut lru, handle) = self.lru.acquire_write();
                let ghost before = lru_entries(lru);
                proof {
                    lemma_get_keeps(before, key_view(&key));
                }
                let hit = lru_get(&mut lru, &key);
                proof {
                    let after = lru_entries(lru);
                    assert forall|k: int| 0 <= k < after.len() implies entry_sound(
                        #[trigger] after[k],
                    ) by {
                        assert(after.contains(after[k]));
                        let j = choose|j: int| 0 <= j < before.len() && before[j] == after[k];
                        assert(entry_sound(before[j]));
                    }
                }
                handle.release_write(lru);
                match hit {
                    Some(p) => {
                        proof {
                            let j = position(before, key_view(&key));
                            assert(entry_sound(before[j]));
                        }
                        if pattern_is_match(&p, needle) {
                            return Ok(true);
                        }
                    },
                    None => {
                        let pattern = match build_regex(h.as_str(), delimiter_start, delimiter_end) {
                            Ok(p) => p,
                            Err(e) => {
                                return Err(e);
                            },
                        };
                        let compiled = match compile(pattern.as_str()) {
                            Ok(c) => c,
                            Err(e) => {
                                return Err(Error::CompileRegexError(e));
                            },
                        };
                        let stored = compiled.duplicate();
                        let (mut lru, handle) = self.lru.acquire_write();
                        let ghost before = lru_entries(lru);
                        proof {
                            lemma_put_keeps(before, lru_capacity(lru), key_view(&key), stored@);
                        }
                        lru_put(&mut lru, key, stored);
                        proof {
                            let after = lru_entries(lru);
                            assert forall|k: int| 0 <= k < after.len() implies entry_sound(
                                #[trigger] after[k],
                            ) by {
                                if k > 0 {
                                    let j = choose|j: int|
                                        0 <= j < before.len() && before[j] == after[k];
                                    assert(entry_sound(before[j]));
                                }
                            }
                        }
                        handle.release_write(lru);
                        if pattern_is_match(&compiled, needle) {
                            return Ok(true);
                        }
                    },
                }
            }
            i = i + 1;
        }
        Ok(false)
    }
}

} // verus!
