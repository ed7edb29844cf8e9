//! Character classes and small string utilities with exact specifications.

use vstd::prelude::*;

verus! {

/// `c` is an ASCII letter or digit.
pub open spec fn is_ascii_alnum(c: char) -> bool {
    ('0' <= c && c <= '9') || ('a' <= c && c <= 'z') || ('A' <= c && c <= 'Z')
}

/// Executable form of [`is_ascii_alnum`].
pub fn ascii_alnum(c: char) -> (r: bool)
    ensures
        r == is_ascii_alnum(c),
{
    ('0' <= c && c <= '9') || ('a' <= c && c <= 'z') || ('A' <= c && c <= 'Z')
}

/// The characters of `s`, in order.
pub fn chars_of(s: &str) -> (v: Vec<char>)
    ensures
        v@ == s@,
{
    let mut v: Vec<char> = Vec::new();
    for c in it: s.chars()
        invariant
            v@ == it.seq().take(it.index() as int),
            it.seq() == s@,
    {
        v.push(c);
    }
    v
}

} // verus!

verus! {

/// Equality of two strings by their characters.
pub fn text_eq(a: &String, b: &String) -> (r: bool)
    ensures
        r == (a@ == b@),
{
    a.eq(b)
}


/// `c` has the Unicode `White_Space` property (what `char::is_whitespace`
/// tests).
pub open spec fn is_whitespace(c: char) -> bool {
    ('\u{9}' <= c && c <= '\u{d}') || c == ' ' || c == '\u{85}' || c == '\u{a0}' || c == '\u{1680}'
        || ('\u{2000}' <= c && c <= '\u{200a}') || c == '\u{2028}' || c == '\u{2029}' || c == '\u{202f}'
        || c == '\u{205f}' || c == '\u{3000}'
}

/// Executable form of [`is_whitespace`].
pub fn whitespace(c: char) -> (r: bool)
    ensures
        r == is_whitespace(c),
{
    ('\u{9}' <= c && c <= '\u{d}') || c == ' ' || c == '\u{85}' || c == '\u{a0}' || c == '\u{1680}'
        || ('\u{2000}' <= c && c <= '\u{200a}') || c == '\u{2028}' || c == '\u{2029}' || c == '\u{202f}'
        || c == '\u{205f}' || c == '\u{3000}'
}

/// `f` without its leading whitespace.
pub open spec fn trim_start(f: Seq<char>) -> Seq<char>
    decreases f.len(),
{
    if f.len() > 0 && is_whitespace(f[0]) {
        trim_start(f.drop_first())
    } else {
        f
    }
}

/// `f` without its trailing whitespace.
pub open spec fn trim_end(f: Seq<char>) -> Seq<char>
    decreases f.len(),
{
    if f.len() > 0 && is_whitespace(f.last()) {
        trim_end(f.drop_last())
    } else {
        f
    }
}

/// `f` without leading and trailing whitespace (what `str::trim` gives).
pub open spec fn trim(f: Seq<char>) -> Seq<char> {
    trim_end(trim_start(f))
}

proof fn lemma_trim_start(f: Seq<char>, a: int)
    requires
        0 <= a <= f.len(),
        forall|j: int| 0 <= j < a ==> #[trigger] is_whitespace(f[j]),
        a == f.len() || !is_whitespace(f[a]),
    ensures
        trim_start(f) == f.subrange(a, f.len() as int),
    decreases a,
{
    if a == 0 {
        assert(f.subrange(0, f.len() as int) =~= f);
    } else {
        let t = f.drop_first();
        assert forall|j: int| 0 <= j < a - 1 implies #[trigger] is_whitespace(t[j]) by {
            assert(t[j] == f[j + 1]);
        }
        lemma_trim_start(t, a - 1);
        assert(t.subrange(a - 1, t.len() as int) =~= f.subrange(a, f.len() as int));
    }
}

proof fn lemma_trim_end(g: Seq<char>, b: int)
    requires
        0 <= b <= g.len(),
        forall|j: int| b <= j < g.len() ==> #[trigger] is_whitespace(g[j]),
        b == 0 || !is_whitespace(g[b - 1]),
    ensures
        trim_end(g) == g.subrange(0, b),
    decreases g.len() - b,
{
    if b == g.len() {
        assert(g.subrange(0, b) =~= g);
    } else {
        let t = g.drop_last();
        assert forall|j: int| b <= j < t.len() implies #[trigger] is_whitespace(t[j]) by {
            assert(t[j] == g[j]);
        }
        lemma_trim_end(t, b);
        assert(t.subrange(0, b) =~= g.subrange(0, b));
    }
}

/// The bounds of `cs[start..end]` without leading and trailing whitespace.
pub fn trimmed_bounds(cs: &Vec<char>, start: usize, end: usize) -> (r: (usize, usize))
    requires
        start <= end <= cs@.len(),
    ensures
        start <= r.0 <= r.1 <= end,
        trim(cs@.subrange(start as int, end as int)) == cs@.subrange(r.0 as int, r.1 as int),
{
    let mut a = start;
    while a < end && whitespace(cs[a])
        invariant
            start <= a <= end <= cs@.len(),
            forall|j: int| start <= j < a ==> #[trigger] is_whitespace(cs@[j]),
        decreases end - a,
    {
        a = a + 1;
    }
    let mut b = end;
    while b > a && whitespace(cs[b - 1])
        invariant
            start <= a <= b <= end <= cs@.len(),
            forall|j: int| b <= j < end ==> #[trigger] is_whitespace(cs@[j]),
        decreases b - a,
    {
        b = b - 1;
    }
    proof {
        let f = cs@.subrange(start as int, end as int);
        assert forall|j: int| 0 <= j < a - start implies #[trigger] is_whitespace(f[j]) by {
            assert(f[j] == cs@[start + j]);
        }
        lemma_trim_start(f, a - start);
        let g = f.subrange(a - start, f.len() as int);
        assert(g =~= cs@.subrange(a as int, end as int));
        assert forall|j: int| b - a <= j < g.len() implies #[trigger] is_whitespace(g[j]) by {
            assert(g[j] == cs@[a + j]);
        }
        if b > a {
            assert(g[b - a - 1] == cs@[b - 1]);
        }
        lemma_trim_end(g, b - a);
        assert(g.subrange(0, b - a) =~= cs@.subrange(a as int, b as int));
    }
    (a, b)
}


/// `a` comes strictly before `b` in lexicographic order of code points (the
/// order of `String`'s `Ord`).
pub open spec fn text_lt(a: Seq<char>, b: Seq<char>) -> bool
    decreases a.len(),
{
    if a.len() == 0 {
        b.len() > 0
    } else if b.len() == 0 {
        false
    } else if (a[0] as int) < (b[0] as int) {
        true
    } else if a[0] == b[0] {
        text_lt(a.drop_first(), b.drop_first())
    } else {
        false
    }
}

/// No text comes before itself.
pub proof fn lemma_text_lt_irreflexive(a: Seq<char>)
    ensures
        !text_lt(a, a),
    decreases a.len(),
{
    if a.len() > 0 {
        lemma_text_lt_irreflexive(a.drop_first());
    }
}

/// The order is transitive.
pub proof fn lemma_text_lt_transitive(a: Seq<char>, b: Seq<char>, c: Seq<char>)
    requires
        text_lt(a, b),
        text_lt(b, c),
    ensures
        text_lt(a, c),
    decreases a.len(),
{
    if a.len() > 0 && b.len() > 0 && c.len() > 0 && a[0] == b[0] && b[0] == c[0] {
        lemma_text_lt_transitive(a.drop_first(), b.drop_first(), c.drop_first());
    }
}

/// Two different texts are ordered one way or the other, never both.
pub proof fn lemma_text_lt_total(a: Seq<char>, b: Seq<char>)
    ensures
        a != b ==> (text_lt(a, b) || text_lt(b, a)),
        !(text_lt(a, b) && text_lt(b, a)),
    decreases a.len(),
{
    if a.len() > 0 && b.len() > 0 {
        lemma_text_lt_total(a.drop_first(), b.drop_first());
        if a[0] == b[0] && a.drop_first() == b.drop_first() {
            assert(a =~= seq![a[0]] + a.drop_first());
            assert(b =~= seq![b[0]] + b.drop_first());
        }
    } else if a.len() == 0 && b.len() == 0 {
        assert(a =~= b);
    }
}

/// The outcome of comparing two texts.
#[derive(Clone, Copy, Debug, PartialEq, Eq, Structural)]
pub enum TextOrder {
    Before,
    Same,
    After,
}

proof fn lemma_text_lt_common_prefix(a: Seq<char>, b: Seq<char>, i: int)
    requires
        0 <= i <= a.len(),
        i <= b.len(),
        a.take(i) == b.take(i),
    ensures
        text_lt(a, b) == text_lt(a.skip(i), b.skip(i)),
    decreases i,
{
    if i > 0 {
        assert(a[0] == a.take(i)[0]);
        assert(b[0] == b.take(i)[0]);
        assert(a.drop_first().take(i - 1) =~= a.take(i).drop_first());
        assert(b.drop_first().take(i - 1) =~= b.take(i).drop_first());
        lemma_text_lt_common_prefix(a.drop_first(), b.drop_first(), i - 1);
        assert(a.drop_first().skip(i - 1) =~= a.skip(i));
        assert(b.drop_first().skip(i - 1) =~= b.skip(i));
    } else {
        assert(a.skip(0) =~= a);
        assert(b.skip(0) =~= b);
    }
}

/// Compares two texts, given as their characters.
pub fn text_order(a: &Vec<char>, b: &Vec<char>) -> (r: TextOrder)
    ensures
        (r == TextOrder::Before) == text_lt(a@, b@),
        (r == TextOrder::Same) == (a@ == b@),
        (r == TextOrder::After) == text_lt(b@, a@),
{
    proof {
        lemma_text_lt_total(a@, b@);
    }
    let n = a.len();
    let m = b.len();
    let mut i: usize = 0;
    while i < n && i < m
        invariant
            0 <= i <= n,
            i <= m,
            n == a@.len(),
            m == b@.len(),
            a@.take(i as int) == b@.take(i as int),
        decreases n - i,
    {
        if a[i] != b[i] {
            proof {
                lemma_text_lt_common_prefix(a@, b@, i as int);
                lemma_text_lt_common_prefix(b@, a@, i as int);
                assert(a@.skip(i as int)[0] == a@[i as int]);
                assert(b@.skip(i as int)[0] == b@[i as int]);
            }
            if a[i] < b[i] {
                return TextOrder::Before;
            } else {
                return TextOrder::After;
            }
        }
        proof {
            assert(a@.take(i + 1) =~= a@.take(i as int).push(a@[i as int]));
            assert(b@.take(i + 1) =~= b@.take(i as int).push(b@[i as int]));
        }
        i = i + 1;
    }
    proof {
        lemma_text_lt_common_prefix(a@, b@, i as int);
        lemma_text_lt_common_prefix(b@, a@, i as int);
    }
    if n == m {
        proof {
            assert(a@ =~= a@.take(i as int));
            assert(b@ =~= b@.take(i as int));
        }
        TextOrder::Same
    } else if n < m {
        proof {
            assert(a@.skip(i as int).len() == 0);
            assert(a@ =~= a@.take(i as int));
        }
        TextOrder::Before
    } else {
        proof {
            assert(b@.skip(i as int).len() == 0);
            assert(b@ =~= b@.take(i as int));
        }
        TextOrder::After
    }
}


proof fn lemma_trim_start_shape(f: Seq<char>)
    ensures
        trim_start(f).len() <= f.len(),
        trim_start(f) == f.subrange(f.len() - trim_start(f).len(), f.len() as int),
        trim_start(f).len() > 0 ==> !is_whitespace(trim_start(f)[0]),
    decreases f.len(),
{
    if f.len() > 0 && is_whitespace(f[0]) {
        lemma_trim_start_shape(f.drop_first());
        let t = trim_start(f.drop_first());
        assert(f.drop_first().subrange(f.len() - 1 - t.len(), f.len() - 1) =~= f.subrange(
            f.len() - t.len(),
            f.len() as int,
        ));
    } else {
        assert(f.subrange(0, f.len() as int) =~= f);
    }
}

proof fn lemma_trim_end_shape(g: Seq<char>)
    ensures
        trim_end(g).len() <= g.len(),
        trim_end(g) == g.subrange(0, trim_end(g).len() as int),
        trim_end(g).len() > 0 ==> !is_whitespace(trim_end(g).last()),
    decreases g.len(),
{
    if g.len() > 0 && is_whitespace(g.last()) {
        lemma_trim_end_shape(g.drop_last());
        let t = trim_end(g.drop_last());
        assert(g.drop_last().subrange(0, t.len() as int) =~= g.subrange(0, t.len() as int));
    } else {
        assert(g.subrange(0, g.len() as int) =~= g);
    }
}

/// Trimmed text starts and ends with a character that is not whitespace,
/// and each of its characters comes from the text that was trimmed.
pub proof fn lemma_trim_bounds(f: Seq<char>)
    ensures
        trim(f).len() > 0 ==> !is_whitespace(trim(f)[0]) && !is_whitespace(trim(f).last()),
        forall|i: int| 0 <= i < trim(f).len() ==> f.contains(#[trigger] trim(f)[i]),
{
    lemma_trim_start_shape(f);
    let g = trim_start(f);
    lemma_trim_end_shape(g);
    let h = trim_end(g);
    if h.len() > 0 {
        assert(h[0] == g[0]);
    }
    assert forall|i: int| 0 <= i < h.len() implies f.contains(#[trigger] h[i]) by {
        let k = f.len() - g.len() + i;
        assert(h[i] == g[i]);
        assert(g[i] == f[k]);
    }
}

/// Text that is empty, or starts and ends with a character that is not
/// whitespace, is its own trim.
pub proof fn lemma_trim_fixed(e: Seq<char>)
    requires
        e.len() > 0 ==> !is_whitespace(e[0]) && !is_whitespace(e.last()),
    ensures
        trim(e) == e,
{
    assert(trim_start(e) == e);
    assert(trim_end(e) == e);
}

/// The ASCII letters and digits are exactly `0`-`9`, `a`-`z` and `A`-`Z`:
/// letters of both cases count.
pub proof fn lemma_ascii_alnum_classes(c: char)
    ensures
        is_ascii_alnum(c) <==> (('0' <= c && c <= '9') || ('a' <= c && c <= 'z') || ('A' <= c && c <= 'Z')),
{
}

} // verus!
