//! Text as a sequence of `char`: the character classes the library reads,
//! and the trimming and searching operations it performs, each stated
//! over `Seq` and carried out over `Vec<char>`.

use vstd::prelude::*;

verus! {

// ---------------------------------------------------------------------------
// Character classes
// ---------------------------------------------------------------------------

/// The Unicode `White_Space` property (PropList.txt).
pub open spec fn is_white_space(c: char) -> bool {
    ||| ('\u{9}' <= c && c <= '\u{d}')
    ||| c == ' '
    ||| c == '\u{85}'
    ||| c == '\u{a0}'
    ||| c == '\u{1680}'
    ||| ('\u{2000}' <= c && c <= '\u{200a}')
    ||| c == '\u{2028}'
    ||| c == '\u{2029}'
    ||| c == '\u{202f}'
    ||| c == '\u{205f}'
    ||| c == '\u{3000}'
}

/// `White_Space` as a predicate value.
pub open spec fn white_space() -> spec_fn(char) -> bool {
    |c: char| is_white_space(c)
}

/// Whether `char::is_alphanumeric` holds of `c`: the Unicode `Alphabetic`
/// property or a numeric general category (`Nd`, `Nl`, `No`).
pub uninterp spec fn char_is_alphanumeric(c: char) -> bool;

/// Whether `c` has the Unicode `White_Space` property, as
/// `char::is_whitespace` decides.
pub fn char_is_whitespace(c: char) -> (r: bool)
    ensures
        r == is_white_space(c),
{
    match c {
        '\u{9}'..='\u{d}' | ' ' | '\u{85}' | '\u{a0}' | '\u{1680}' | '\u{2000}'..='\u{200a}'
        | '\u{2028}' | '\u{2029}' | '\u{202f}' | '\u{205f}' | '\u{3000}' => true,
        _ => false,
    }
}

/// `char::is_alphanumeric` from std. Its result is named, not stated: the
/// tables of the Unicode `Alphabetic` property and of the numeric categories
/// behind it are not written out here.
#[verifier::external_body]
pub(crate) fn char_alphanumeric(c: char) -> (r: bool)
    ensures
        r == char_is_alphanumeric(c),
{
    c.is_alphanumeric()
}

// ---------------------------------------------------------------------------
// Trimming and searching, stated over sequences
// ---------------------------------------------------------------------------

/// How many items remain once every trailing item satisfying `p` is removed.
pub open spec fn trim_end_len<A>(s: Seq<A>, p: spec_fn(A) -> bool) -> nat
    decreases s.len(),
{
    if s.len() == 0 {
        0
    } else if p(s.last()) {
        trim_end_len(s.drop_last(), p)
    } else {
        s.len()
    }
}

/// How many leading items satisfy `p`.
pub open spec fn trim_start_len<A>(s: Seq<A>, p: spec_fn(A) -> bool) -> nat
    decreases s.len(),
{
    if s.len() == 0 {
        0
    } else if p(s.first()) {
        1 + trim_start_len(s.drop_first(), p)
    } else {
        0
    }
}

/// The index of the last item satisfying `p`, or -1 when there is none.
pub open spec fn last_index_where<A>(s: Seq<A>, p: spec_fn(A) -> bool) -> int
    decreases s.len(),
{
    if s.len() == 0 {
        -1
    } else if p(s.last()) {
        s.len() - 1
    } else {
        last_index_where(s.drop_last(), p)
    }
}

/// `s` without its trailing items that satisfy `p`.
pub open spec fn trim_end_by<A>(s: Seq<A>, p: spec_fn(A) -> bool) -> Seq<A> {
    s.take(trim_end_len(s, p) as int)
}

/// `s` without its leading and trailing items that satisfy `p`.
pub open spec fn trim_by<A>(s: Seq<A>, p: spec_fn(A) -> bool) -> Seq<A> {
    let t = trim_end_by(s, p);
    t.skip(trim_start_len(t, p) as int)
}

/// The length of the longest common prefix of `a` and `b`.
pub open spec fn common_prefix_len<A>(a: Seq<A>, b: Seq<A>) -> nat
    decreases a.len(),
{
    if a.len() == 0 || b.len() == 0 || a.first() != b.first() {
        0
    } else {
        1 + common_prefix_len(a.drop_first(), b.drop_first())
    }
}

// ---------------------------------------------------------------------------
// What each of those is, characterised
// ---------------------------------------------------------------------------

/// `trim_end_len` is the one cut after which every item satisfies `p` and
/// before which the last item does not.
pub proof fn lemma_trim_end_len<A>(s: Seq<A>, p: spec_fn(A) -> bool)
    ensures
        trim_end_len(s, p) <= s.len(),
        forall|j: int| trim_end_len(s, p) <= j < s.len() ==> #[trigger] p(s[j]),
        trim_end_len(s, p) == 0 || !p(s[trim_end_len(s, p) - 1]),
    decreases s.len(),
{
    if s.len() > 0 && p(s.last()) {
        lemma_trim_end_len(s.drop_last(), p);
        assert forall|j: int| trim_end_len(s, p) <= j < s.len() implies #[trigger] p(s[j]) by {
            if j < s.len() - 1 {
                assert(s[j] == s.drop_last()[j]);
            }
        }
    }
}

/// Any cut with the properties of `lemma_trim_end_len` is `trim_end_len`.
pub proof fn lemma_trim_end_len_is<A>(s: Seq<A>, p: spec_fn(A) -> bool, n: int)
    requires
        0 <= n <= s.len(),
        forall|j: int| n <= j < s.len() ==> #[trigger] p(s[j]),
        n == 0 || !p(s[n - 1]),
    ensures
        trim_end_len(s, p) == n,
    decreases s.len(),
{
    if s.len() > 0 && n < s.len() {
        assert(p(s[s.len() - 1]));
        assert forall|j: int| n <= j < s.drop_last().len() implies #[trigger] p(
            s.drop_last()[j],
        ) by {
            assert(p(s[j]));
        }
        if n > 0 {
            assert(s.drop_last()[n - 1] == s[n - 1]);
        }
        lemma_trim_end_len_is(s.drop_last(), p, n);
    }
}

/// `trim_start_len` counts a run of items satisfying `p`, ended by one that
/// does not or by the end of `s`.
pub proof fn lemma_trim_start_len<A>(s: Seq<A>, p: spec_fn(A) -> bool)
    ensures
        trim_start_len(s, p) <= s.len(),
        forall|j: int| 0 <= j < trim_start_len(s, p) ==> #[trigger] p(s[j]),
        trim_start_len(s, p) == s.len() || !p(s[trim_start_len(s, p) as int]),
    decreases s.len(),
{
    if s.len() > 0 && p(s.first()) {
        lemma_trim_start_len(s.drop_first(), p);
        assert forall|j: int| 0 <= j < trim_start_len(s, p) implies #[trigger] p(s[j]) by {
            if j > 0 {
                assert(s[j] == s.drop_first()[j - 1]);
            }
        }
        if trim_start_len(s, p) < s.len() {
            assert(s[trim_start_len(s, p) as int] == s.drop_first()[trim_start_len(
                s.drop_first(),
                p,
            ) as int]);
        }
    }
}

/// Any count with the properties of `lemma_trim_start_len` is
/// `trim_start_len`.
pub proof fn lemma_trim_start_len_is<A>(s: Seq<A>, p: spec_fn(A) -> bool, n: int)
    requires
        0 <= n <= s.len(),
        forall|j: int| 0 <= j < n ==> #[trigger] p(s[j]),
        n == s.len() || !p(s[n]),
    ensures
        trim_start_len(s, p) == n,
    decreases s.len(),
{
    if s.len() > 0 && n > 0 {
        assert(p(s[0]));
        assert forall|j: int| 0 <= j < n - 1 implies #[trigger] p(s.drop_first()[j]) by {
            assert(p(s[j + 1]));
        }
        if n < s.len() {
            assert(s.drop_first()[n - 1] == s[n]);
        }
        lemma_trim_start_len_is(s.drop_first(), p, n - 1);
    }
}

/// `last_index_where` names an item satisfying `p` with none after it, or
/// is -1 when no item satisfies `p`.
pub proof fn lemma_last_index_where<A>(s: Seq<A>, p: spec_fn(A) -> bool)
    ensures
        -1 <= last_index_where(s, p) < s.len(),
        last_index_where(s, p) >= 0 ==> p(s[last_index_where(s, p)]),
        forall|j: int| last_index_where(s, p) < j < s.len() ==> !#[trigger] p(s[j]),
    decreases s.len(),
{
    if s.len() > 0 && !p(s.last()) {
        lemma_last_index_where(s.drop_last(), p);
        let k = last_index_where(s, p);
        if k >= 0 {
            assert(s[k] == s.drop_last()[k]);
        }
        assert forall|j: int| k < j < s.len() implies !#[trigger] p(s[j]) by {
            if j < s.len() - 1 {
                assert(s[j] == s.drop_last()[j]);
            }
        }
    }
}

/// Any index with the properties of `lemma_last_index_where` is
/// `last_index_where`.
pub proof fn lemma_last_index_where_is<A>(s: Seq<A>, p: spec_fn(A) -> bool, k: int)
    requires
        -1 <= k < s.len(),
        k >= 0 ==> p(s[k]),
        forall|j: int| k < j < s.len() ==> !#[trigger] p(s[j]),
    ensures
        last_index_where(s, p) == k,
    decreases s.len(),
{
    if s.len() > 0 && k < s.len() - 1 {
        assert(!p(s[s.len() - 1]));
        assert forall|j: int| k < j < s.drop_last().len() implies !#[trigger] p(
            s.drop_last()[j],
        ) by {
            assert(!p(s[j]));
        }
        if k >= 0 {
            assert(s.drop_last()[k] == s[k]);
        }
        lemma_last_index_where_is(s.drop_last(), p, k);
    }
}

/// `common_prefix_len` is the first index at which `a` and `b` differ or
/// one of them ends.
pub proof fn lemma_common_prefix_len<A>(a: Seq<A>, b: Seq<A>)
    ensures
        common_prefix_len(a, b) <= a.len(),
        common_prefix_len(a, b) <= b.len(),
        forall|j: int| 0 <= j < common_prefix_len(a, b) ==> #[trigger] a[j] == b[j],
        common_prefix_len(a, b) == a.len() || common_prefix_len(a, b) == b.len() || a[common_prefix_len(a, b) as int]
            != b[common_prefix_len(a, b) as int],
    decreases a.len(),
{
    if a.len() > 0 && b.len() > 0 && a.first() == b.first() {
        lemma_common_prefix_len(a.drop_first(), b.drop_first());
        let n = common_prefix_len(a, b);
        assert forall|j: int| 0 <= j < n implies #[trigger] a[j] == b[j] by {
            if j > 0 {
                assert(a[j] == a.drop_first()[j - 1]);
                assert(b[j] == b.drop_first()[j - 1]);
            }
        }
        if n < a.len() && n < b.len() {
            assert(a[n as int] == a.drop_first()[n - 1]);
            assert(b[n as int] == b.drop_first()[n - 1]);
        }
    }
}

/// Any index with the properties of `lemma_common_prefix_len` is
/// `common_prefix_len`.
pub proof fn lemma_common_prefix_len_is<A>(a: Seq<A>, b: Seq<A>, n: int)
    requires
        0 <= n <= a.len(),
        n <= b.len(),
        forall|j: int| 0 <= j < n ==> #[trigger] a[j] == b[j],
        n == a.len() || n == b.len() || a[n] != b[n],
    ensures
        common_prefix_len(a, b) == n,
    decreases a.len(),
{
    if n > 0 {
        assert(a[0] == b[0]);
        assert forall|j: int| 0 <= j < n - 1 implies #[trigger] a.drop_first()[j]
            == b.drop_first()[j] by {
            assert(a[j + 1] == b[j + 1]);
        }
        if n < a.len() && n < b.len() {
            assert(a.drop_first()[n - 1] == a[n]);
            assert(b.drop_first()[n - 1] == b[n]);
        }
        lemma_common_prefix_len_is(a.drop_first(), b.drop_first(), n - 1);
    }
}

/// Trimming a sequence by `p` cuts it where trimming its flags `p(s[j])`
/// by `is_set()` cuts them.
pub proof fn lemma_trim_by_flags<A>(s: Seq<A>, p: spec_fn(A) -> bool, f: Seq<bool>)
    requires
        f.len() == s.len(),
        forall|j: int| 0 <= j < s.len() ==> #[trigger] f[j] == p(s[j]),
    ensures
        trim_end_len(s, p) == trim_end_len(f, is_set()),
        forall|e: int|
            0 <= e <= s.len() ==> #[trigger] trim_start_len(s.take(e), p) == trim_start_len(
                f.take(e),
                is_set(),
            ),
{
    lemma_trim_end_len(s, p);
    let n = trim_end_len(s, p) as int;
    assert forall|j: int| n <= j < f.len() implies #[trigger] is_set()(f[j]) by {
        assert(p(s[j]));
    }
    if n > 0 {
        assert(f[n - 1] == p(s[n - 1]));
    }
    lemma_trim_end_len_is(f, is_set(), n);
    assert forall|e: int| 0 <= e <= s.len() implies #[trigger] trim_start_len(s.take(e), p)
        == trim_start_len(f.take(e), is_set()) by {
        let t = s.take(e);
        let g = f.take(e);
        lemma_trim_start_len(t, p);
        let m = trim_start_len(t, p) as int;
        assert forall|j: int| 0 <= j < m implies #[trigger] is_set()(g[j]) by {
            assert(p(t[j]));
            assert(g[j] == f[j]);
            assert(t[j] == s[j]);
        }
        if m < e {
            assert(g[m] == f[m]);
            assert(t[m] == s[m]);
        }
        lemma_trim_start_len_is(g, is_set(), m);
    }
}

// ---------------------------------------------------------------------------
// The same operations, carried out
// ---------------------------------------------------------------------------

/// The characters of `s`, in order.
pub fn chars_of(s: &str) -> (r: Vec<char>)
    ensures
        r@ == s@,
{
    let mut r: Vec<char> = Vec::new();
    for c in it: s.chars()
        invariant
            r@ == it.seq().take(it.index() as int),
    {
        r.push(c);
    }
    r
}

/// The end of `s[lo..hi]` once its trailing characters satisfying `pred`
/// are removed.
pub(crate) fn trim_end_pos<F: Fn(char) -> bool>(
    s: &Vec<char>,
    lo: usize,
    hi: usize,
    pred: F,
    Ghost(p): Ghost<spec_fn(char) -> bool>,
) -> (r: usize)
    requires
        lo <= hi <= s.len(),
        forall|c: char| pred.requires((c,)),
        forall|c: char, b: bool| pred.ensures((c,), b) ==> b == p(c),
    ensures
        r == lo + trim_end_len(s@.subrange(lo as int, hi as int), p),
        lo <= r <= hi,
{
    let ghost t = s@.subrange(lo as int, hi as int);
    let mut i = hi;
    while i > lo && pred(s[i - 1])
        invariant
            lo <= i <= hi <= s.len(),
            t == s@.subrange(lo as int, hi as int),
            forall|c: char| pred.requires((c,)),
            forall|c: char, b: bool| pred.ensures((c,), b) ==> b == p(c),
            forall|j: int| i - lo <= j < t.len() ==> #[trigger] p(t[j]),
        decreases i,
    {
        i = i - 1;
    }
    proof {
        lemma_trim_end_len_is(t, p, i - lo);
    }
    i
}

/// The first position in `s[lo..hi]` whose character does not satisfy
/// `pred`, or `hi` when there is none.
pub(crate) fn trim_start_pos<F: Fn(char) -> bool>(
    s: &Vec<char>,
    lo: usize,
    hi: usize,
    pred: F,
    Ghost(p): Ghost<spec_fn(char) -> bool>,
) -> (r: usize)
    requires
        lo <= hi <= s.len(),
        forall|c: char| pred.requires((c,)),
        forall|c: char, b: bool| pred.ensures((c,), b) ==> b == p(c),
    ensures
        r == lo + trim_start_len(s@.subrange(lo as int, hi as int), p),
        lo <= r <= hi,
{
    let ghost t = s@.subrange(lo as int, hi as int);
    let mut i = lo;
    while i < hi && pred(s[i])
        invariant
            lo <= i <= hi <= s.len(),
            t == s@.subrange(lo as int, hi as int),
            forall|c: char| pred.requires((c,)),
            forall|c: char, b: bool| pred.ensures((c,), b) ==> b == p(c),
            forall|j: int| 0 <= j < i - lo ==> #[trigger] p(t[j]),
        decreases hi - i,
    {
        i = i + 1;
    }
    proof {
        lemma_trim_start_len_is(t, p, i - lo);
    }
    i
}

/// The position just after the last character of `s[lo..hi]` that
/// satisfies `pred`, or `lo` when there is none.
pub(crate) fn after_last_pos<F: Fn(char) -> bool>(
    s: &Vec<char>,
    lo: usize,
    hi: usize,
    pred: F,
    Ghost(p): Ghost<spec_fn(char) -> bool>,
) -> (r: usize)
    requires
        lo <= hi <= s.len(),
        forall|c: char| pred.requires((c,)),
        forall|c: char, b: bool| pred.ensures((c,), b) ==> b == p(c),
    ensures
        r == lo + last_index_where(s@.subrange(lo as int, hi as int), p) + 1,
        lo <= r <= hi,
{
    let ghost t = s@.subrange(lo as int, hi as int);
    let mut i = hi;
    while i > lo && !pred(s[i - 1])
        invariant
            lo <= i <= hi <= s.len(),
            t == s@.subrange(lo as int, hi as int),
            forall|c: char| pred.requires((c,)),
            forall|c: char, b: bool| pred.ensures((c,), b) ==> b == p(c),
            forall|j: int| i - lo <= j < t.len() ==> !#[trigger] p(t[j]),
        decreases i,
    {
        i = i - 1;
    }
    proof {
        lemma_last_index_where_is(t, p, i - lo - 1);
    }
    i
}

/// A flag as a predicate value: it holds of `true`.
pub open spec fn is_set() -> spec_fn(bool) -> bool {
    |b: bool| b
}

/// The bounds of what is left of `strip` once its leading and trailing
/// `true` entries are removed: `(start, end)`, with `start == end` when
/// nothing is left.
pub fn strip_span(strip: &Vec<bool>) -> (r: (usize, usize))
    ensures
        r.1 == trim_end_len(strip@, is_set()),
        r.0 == trim_start_len(strip@.take(r.1 as int), is_set()),
        r.0 <= r.1 <= strip@.len(),
{
    let ghost p = is_set();
    let mut end = strip.len();
    while end > 0 && strip[end - 1]
        invariant
            end <= strip.len(),
            p == is_set(),
            forall|j: int| end <= j < strip@.len() ==> #[trigger] p(strip@[j]),
        decreases end,
    {
        end = end - 1;
    }
    proof {
        lemma_trim_end_len_is(strip@, p, end as int);
    }
    let ghost t = strip@.take(end as int);
    let mut start: usize = 0;
    while start < end && strip[start]
        invariant
            start <= end <= strip.len(),
            t == strip@.take(end as int),
            p == is_set(),
            forall|j: int| 0 <= j < start ==> #[trigger] p(t[j]),
        decreases end - start,
    {
        start = start + 1;
    }
    proof {
        lemma_trim_start_len_is(t, p, start as int);
    }
    (start, end)
}

} // verus!
