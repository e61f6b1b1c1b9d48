use vstd::prelude::*;

use crate::err::Error;
use crate::pattern::{anchored, compile, escape_literal, escaped, regex_accepts};
use vstd::std_specs::iter::IteratorSpec;

verus! {

/// Nesting depth after the first `n` characters of `s`: each opening
/// delimiter adds one, each closing delimiter takes one away.
pub open spec fn depth(s: Seq<char>, ds: char, de: char, n: int) -> int
    decreases n,
{
    if n <= 0 {
        0
    } else {
        depth(s, ds, de, n - 1) + if s[n - 1] == ds {
            1int
        } else if s[n - 1] == de {
            -1int
        } else {
            0int
        }
    }
}

/// The delimiters of `s` are balanced: no prefix closes more than it opened,
/// and the whole string closes everything it opened.
pub open spec fn balanced(s: Seq<char>, ds: char, de: char) -> bool {
    &&& forall|k: int| 0 <= k <= s.len() ==> #[trigger] depth(s, ds, de, k) >= 0
    &&& depth(s, ds, de, s.len() as int) == 0
}

/// The boundaries of the top-level regions within the first `n` characters
/// of `s`: the index of each opening delimiter met at depth 0, and one past
/// the index of each closing delimiter that brings the depth back to 0.
pub open spec fn marks(s: Seq<char>, ds: char, de: char, n: int) -> Seq<int>
    decreases n,
{
    if n <= 0 {
        Seq::empty()
    } else {
        let i = n - 1;
        if s[i] == ds && depth(s, ds, de, i) == 0 {
            marks(s, ds, de, i).push(i)
        } else if s[i] != ds && s[i] == de && depth(s, ds, de, n) == 0 {
            marks(s, ds, de, i).push(n)
        } else {
            marks(s, ds, de, i)
        }
    }
}

/// The boundaries of all top-level regions of `s`, two per region.
pub open spec fn boundaries(s: Seq<char>, ds: char, de: char) -> Seq<int> {
    marks(s, ds, de, s.len() as int)
}

/// The unbalanced-delimiter error for template `s`.
pub open spec fn is_unbalanced_error(e: Error, s: Seq<char>) -> bool {
    &&& e is UnbalancedBraces
    &&& e->UnbalancedBraces_0@ == s
}

/// Scans `s` and returns the boundaries of its top-level delimited regions,
/// two per region: the index of the opening delimiter, and one past the index
/// of the matching closing one. Indices count characters.
pub fn delimiter_indices(s: &str, delimiter_start: char, delimiter_end: char) -> (r: Result<
    Vec<usize>,
    Error,
>)
    ensures
        r is Ok <==> balanced(s@, delimiter_start, delimiter_end),
        r matches Ok(v) ==> v@.map_values(|x: usize| x as int) == boundaries(
            s@,
            delimiter_start,
            delimiter_end,
        ),
        r matches Err(e) ==> is_unbalanced_error(e, s@),
{
    let ghost t = s@;
    let n = s.unicode_len();
    let mut level: usize = 0;
    let mut idxs: Vec<usize> = Vec::new();
    let mut i: usize = 0;
    let mut chars = s.chars();
    while i < n
        invariant
            t == s@,
            n == t.len(),
            i <= n,
            level <= i,
            chars.remaining() == t.skip(i as int),
            level == depth(t, delimiter_start, delimiter_end, i as int),
            forall|k: int| 0 <= k <= i ==> #[trigger] depth(t, delimiter_start, delimiter_end, k) >= 0,
            idxs@.map_values(|x: usize| x as int) == marks(t, delimiter_start, delimiter_end, i as int),
        decreases n - i,
    {
        let c = chars.next().unwrap();
        assert(c == t[i as int]);
        let ghost before = idxs@;
        if c == delimiter_start {
            if level == 0 {
                idxs.push(i);
            }
            level = level + 1;
        } else if c == delimiter_end {
            if level == 0 {
                assert(depth(t, delimiter_start, delimiter_end, i + 1) < 0);
                assert(!balanced(t, delimiter_start, delimiter_end));
                return Err(Error::UnbalancedBraces(s.to_owned()));
            }
            level = level - 1;
            if level == 0 {
                idxs.push(i + 1);
            }
        }
        assert(idxs@.map_values(|x: usize| x as int) =~= marks(
            t,
            delimiter_start,
            delimiter_end,
            i + 1,
        ));
        i = i + 1;
    }
    if level != 0 {
        assert(!balanced(t, delimiter_start, delimiter_end));
        return Err(Error::UnbalancedBraces(s.to_owned()));
    }
    assert(balanced(t, delimiter_start, delimiter_end));
    Ok(idxs)
}


/// Boundaries that lie within `0..=n`, never go down, and leave room for the
/// two delimiters between the start and the end of each region.
pub open spec fn ordered_bounds(m: Seq<int>, n: int) -> bool {
    &&& forall|i: int| 0 <= i < m.len() ==> 0 <= #[trigger] m[i] <= n
    &&& forall|i: int|
        0 < i < m.len() && i % 2 == 0 ==> m[i - 1] <= #[trigger] m[i]
    &&& forall|i: int|
        0 < i < m.len() && i % 2 == 1 ==> m[i - 1] + 2 <= #[trigger] m[i]
}

/// On a prefix that never closes more than it opened, the boundaries are
/// ordered, and an odd count of them means a region is still open.
proof fn lemma_marks_shape(s: Seq<char>, ds: char, de: char, n: int)
    requires
        0 <= n <= s.len(),
        forall|k: int| 0 <= k <= n ==> #[trigger] depth(s, ds, de, k) >= 0,
    ensures
        marks(s, ds, de, n).len() % 2 == if depth(s, ds, de, n) == 0 { 0int } else { 1int },
        ordered_bounds(marks(s, ds, de, n), n),
        marks(s, ds, de, n).len() % 2 == 1 ==> marks(s, ds, de, n).last() < n,
    decreases n,
{
    if n > 0 {
        assert(depth(s, ds, de, n - 1) >= 0);
        lemma_marks_shape(s, ds, de, n - 1);
    }
}

/// The region of template `t` with number `j`, between its delimiters.
pub open spec fn region(t: Seq<char>, m: Seq<int>, j: int) -> Seq<char> {
    t.subrange(m[2 * j] + 1, m[2 * j + 1] - 1)
}

/// Where the literal text before region `j` starts.
pub open spec fn literal_start(m: Seq<int>, j: int) -> int {
    if j <= 0 {
        0
    } else {
        m[2 * j - 1]
    }
}

/// The pattern for the first `k` regions of `t` and the literal text before
/// each of them: the text escaped, the region in a capturing group.
pub open spec fn pieces(t: Seq<char>, m: Seq<int>, k: int) -> Seq<char>
    decreases k,
{
    if k <= 0 {
        Seq::empty()
    } else {
        pieces(t, m, k - 1) + escaped(t.subrange(literal_start(m, k - 1), m[2 * (k - 1)]))
            + seq!['('] + region(t, m, k - 1) + seq![')']
    }
}

/// Every region of `t`, anchored on its own, is a pattern that the regex
/// crate accepts.
pub open spec fn regions_valid(t: Seq<char>, ds: char, de: char) -> bool {
    let m = boundaries(t, ds, de);
    forall|j: int| 0 <= j < m.len() as int / 2 ==> regex_accepts(#[trigger] anchored(region(t, m, j)))
}

/// The anchored pattern that template `t` compiles to.
pub open spec fn composite(t: Seq<char>, ds: char, de: char) -> Seq<char> {
    let m = boundaries(t, ds, de);
    let k = m.len() as int / 2;
    seq!['^'] + pieces(t, m, k) + escaped(t.subrange(literal_start(m, k), t.len() as int))
        + seq!['$']
}

/// Compiles a template into one anchored regular expression: the literal text
/// escaped, each delimited region in a capturing group as it stands. Each
/// region is first checked to be a valid expression on its own.
#[verifier::rlimit(50)]
pub fn build_regex(tpl: &str, delimiter_start: char, delimiter_end: char) -> (r: Result<
    String,
    Error,
>)
    ensures
        !balanced(tpl@, delimiter_start, delimiter_end) ==> (r matches Err(e)
            && is_unbalanced_error(e, tpl@)),
        balanced(tpl@, delimiter_start, delimiter_end) && !regions_valid(
            tpl@,
            delimiter_start,
            delimiter_end,
        ) ==> (r matches Err(e) && e is CompileRegexError),
        balanced(tpl@, delimiter_start, delimiter_end) && regions_valid(
            tpl@,
            delimiter_start,
            delimiter_end,
        ) ==> (r matches Ok(p) && p@ == composite(tpl@, delimiter_start, delimiter_end)),
{
    let ghost t = tpl@;
    let idx = delimiter_indices(tpl, delimiter_start, delimiter_end)?;
    let ghost m = boundaries(t, delimiter_start, delimiter_end);
    proof {
        lemma_marks_shape(t, delimiter_start, delimiter_end, t.len() as int);
        assert(idx@.len() == m.len());
        assert forall|i: int| 0 <= i < m.len() implies idx@[i] as int == #[trigger] m[i] by {
            assert(idx@.map_values(|x: usize| x as int)[i] == m[i]);
        }
        reveal_strlit("^");
        reveal_strlit("(");
        reveal_strlit(")");
        reveal_strlit("$");
    }
    let n = tpl.unicode_len();
    let mut buffer = String::new();
    buffer.append("^");
    let mut i: usize = 0;
    let mut end: usize = 0;
    while i < idx.len()
        invariant
            t == tpl@,
            n == t.len(),
            balanced(t, delimiter_start, delimiter_end),
            m == boundaries(t, delimiter_start, delimiter_end),
            idx@.len() == m.len(),
            m.len() % 2 == 0,
            ordered_bounds(m, n as int),
            forall|k: int| 0 <= k < m.len() ==> idx@[k] as int == #[trigger] m[k],
            i % 2 == 0,
            i <= idx.len(),
            end as int == literal_start(m, i as int / 2),
            buffer@ == seq!['^'] + pieces(t, m, i as int / 2),
            forall|j: int|
                0 <= j < i as int / 2 ==> regex_accepts(#[trigger] anchored(region(t, m, j))),
            "^"@ == seq!['^'],
            "("@ == seq!['('],
            ")"@ == seq![')'],
            "$"@ == seq!['$'],
        decreases idx.len() - i,
    {
        let start = idx[i];
        let stop = idx[i + 1];
        assert(m[i + 1] >= m[i as int] + 2);
        assert(i == 0 || m[i as int - 1] <= m[i as int]);
        let raw = tpl.substring_char(end, start);
        let lit = escape_literal(raw);
        let patt = tpl.substring_char(start + 1, stop - 1);
        buffer.append(lit.as_str());
        buffer.append("(");
        buffer.append(patt);
        buffer.append(")");
        let mut whole = String::new();
        whole.append("^");
        whole.append(patt);
        whole.append("$");
        let ghost j = i as int / 2;
        assert(2 * j == i);
        assert(patt@ == region(t, m, j));
        assert(whole@ =~= anchored(region(t, m, j)));
        if let Err(e) = compile(whole.as_str()) {
            return Err(Error::CompileRegexError(e));
        }
        assert(buffer@ =~= seq!['^'] + pieces(t, m, j + 1));
        end = stop;
        i = i + 2;
        assert(i as int / 2 == j + 1);
    }
    proof {
        assert(i == idx.len());
        assert(forall|j: int| 0 <= j < m.len() as int / 2 ==> regex_accepts(#[trigger] anchored(region(t, m, j))));
    }
    let raw = tpl.substring_char(end, n);
    let lit = escape_literal(raw);
    buffer.append(lit.as_str());
    buffer.append("$");
    assert(buffer@ =~= composite(t, delimiter_start, delimiter_end));
    Ok(buffer)
}

/// A span free of delimiters changes neither the depth nor the boundaries.
proof fn lemma_flat_span(s: Seq<char>, ds: char, de: char, lo: int, k: int)
    requires
        0 <= lo <= k <= s.len(),
        forall|i: int| lo <= i < k ==> s[i] != ds && s[i] != de,
    ensures
        depth(s, ds, de, k) == depth(s, ds, de, lo),
        marks(s, ds, de, k) == marks(s, ds, de, lo),
    decreases k - lo,
{
    if k > lo {
        lemma_flat_span(s, ds, de, lo, k - 1);
    }
}

/// A template made of literal text, one delimited region and more literal
/// text compiles to the two texts escaped around the region in a group: the
/// metacharacters of the literal text stay literal.
pub proof fn lemma_one_region(
    pre: Seq<char>,
    body: Seq<char>,
    post: Seq<char>,
    ds: char,
    de: char,
)
    requires
        ds != de,
        !pre.contains(ds) && !pre.contains(de),
        !body.contains(ds) && !body.contains(de),
        !post.contains(ds) && !post.contains(de),
    ensures
        balanced(pre + seq![ds] + body + seq![de] + post, ds, de),
        composite(pre + seq![ds] + body + seq![de] + post, ds, de) == seq!['^'] + escaped(pre)
            + seq!['('] + body + seq![')'] + escaped(post) + seq!['$'],
{
    let t = pre + seq![ds] + body + seq![de] + post;
    let p = pre.len() as int;
    let q = p + 1 + body.len();
    assert forall|i: int| 0 <= i < p implies t[i] != ds && t[i] != de by {
        assert(t[i] == pre[i]);
    }
    assert forall|i: int| p + 1 <= i < q implies t[i] != ds && t[i] != de by {
        assert(t[i] == body[i - p - 1]);
    }
    assert forall|i: int| q + 1 <= i < t.len() implies t[i] != ds && t[i] != de by {
        assert(t[i] == post[i - q - 1]);
    }
    assert(t[p] == ds);
    assert(t[q] == de);
    lemma_flat_span(t, ds, de, 0, p);
    lemma_flat_span(t, ds, de, p + 1, q);
    lemma_flat_span(t, ds, de, q + 1, t.len() as int);
    assert forall|k: int| 0 <= k <= t.len() implies #[trigger] depth(t, ds, de, k) >= 0 by {
        if k <= p {
            lemma_flat_span(t, ds, de, 0, k);
        } else if k <= q {
            lemma_flat_span(t, ds, de, p + 1, k);
        } else {
            lemma_flat_span(t, ds, de, q + 1, k);
        }
    }
    let m = boundaries(t, ds, de);
    assert(m =~= seq![p, q + 1]);
    assert(t.subrange(0, p) =~= pre);
    assert(t.subrange(p + 1, q) =~= body);
    assert(t.subrange(q + 1, t.len() as int) =~= post);
    assert(pieces(t, m, 1) == pieces(t, m, 0) + escaped(t.subrange(0, p)) + seq!['('] + region(
        t,
        m,
        0,
    ) + seq![')']);
    assert(composite(t, ds, de) =~= seq!['^'] + escaped(pre) + seq!['('] + body + seq![')']
        + escaped(post) + seq!['$']);
}

} // verus!
