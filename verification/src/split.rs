//! Splitting text into pieces: words, lines and separated lists.
//!
//! A split is modelled by [`split_on`], which keeps every piece, empty ones
//! included, as `str::split` does; the other shapes are built from it.

use vstd::prelude::*;
use crate::text::{chars_of, string_of};

verus! {

/// Whether `c` is white space as Unicode defines it (`char::is_whitespace`).
pub open spec fn is_ws(c: char) -> bool {
    ('\u{9}' <= c && c <= '\u{d}') || c == ' ' || c == '\u{85}' || c == '\u{a0}' || c == '\u{1680}'
        || ('\u{2000}' <= c && c <= '\u{200a}') || c == '\u{2028}' || c == '\u{2029}' || c == '\u{202f}'
        || c == '\u{205f}' || c == '\u{3000}'
}

/// [`is_ws`] in executable form.
pub fn is_whitespace(c: char) -> (r: bool)
    ensures
        r == is_ws(c),
{
    ('\u{9}' <= c && c <= '\u{d}') || c == ' ' || c == '\u{85}' || c == '\u{a0}' || c == '\u{1680}'
        || ('\u{2000}' <= c && c <= '\u{200a}') || c == '\u{2028}' || c == '\u{2029}' || c == '\u{202f}'
        || c == '\u{205f}' || c == '\u{3000}'
}

/// What separates the pieces of a split.
#[derive(Clone, Copy, Debug, PartialEq, Eq)]
pub enum Sep {
    /// White space.
    Space,
    /// A newline.
    Newline,
    /// A comma.
    Comma,
    /// `=`, `+` or `-`, which end the names of a capability clause.
    CapFlag,
    /// A dot.
    Dot,
    /// A path separator.
    Slash,
}

pub open spec fn is_sep(sep: Sep, c: char) -> bool {
    match sep {
        Sep::Space => is_ws(c),
        Sep::Newline => c == '\n',
        Sep::Comma => c == ',',
        Sep::CapFlag => c == '=' || c == '+' || c == '-',
        Sep::Dot => c == '.',
        Sep::Slash => c == '/',
    }
}

/// [`is_sep`] in executable form.
pub fn sep_at(sep: Sep, c: char) -> (r: bool)
    ensures
        r == is_sep(sep, c),
{
    match sep {
        Sep::Space => is_whitespace(c),
        Sep::Newline => c == '\n',
        Sep::Comma => c == ',',
        Sep::CapFlag => c == '=' || c == '+' || c == '-',
        Sep::Dot => c == '.',
        Sep::Slash => c == '/',
    }
}

/// The pieces of `s` between separators, empty ones included: one more
/// piece than there are separators.
pub open spec fn split_on(s: Seq<char>, sep: Sep) -> Seq<Seq<char>>
    decreases s.len(),
{
    if s.len() == 0 {
        seq![Seq::empty()]
    } else {
        let p = split_on(s.drop_last(), sep);
        if is_sep(sep, s.last()) {
            p.push(Seq::empty())
        } else {
            p.update(p.len() - 1, p.last().push(s.last()))
        }
    }
}

/// Every split has at least one piece.
pub proof fn lemma_split_nonempty(s: Seq<char>, sep: Sep)
    ensures
        split_on(s, sep).len() >= 1,
    decreases s.len(),
{
    if s.len() > 0 {
        lemma_split_nonempty(s.drop_last(), sep);
    }
}

/// A piece without a separator splits into itself.
pub proof fn lemma_split_whole(s: Seq<char>, sep: Sep)
    requires
        forall|i: int| 0 <= i < s.len() ==> !is_sep(sep, #[trigger] s[i]),
    ensures
        split_on(s, sep) == seq![s],
    decreases s.len(),
{
    if s.len() > 0 {
        assert forall|i: int| 0 <= i < s.drop_last().len() implies !is_sep(sep, #[trigger] s.drop_last()[i]) by {
            assert(s.drop_last()[i] == s[i]);
        }
        lemma_split_whole(s.drop_last(), sep);
        assert(!is_sep(sep, s[s.len() - 1]));
        assert(s.drop_last().push(s.last()) =~= s);
        assert(seq![s.drop_last()].update(0, s.drop_last().push(s.last())) =~= seq![s]);
    } else {
        assert(s =~= Seq::<char>::empty());
    }
}

/// Splitting at a separator between `a` and `b` splits each side.
pub proof fn lemma_split_at_sep(a: Seq<char>, c: char, b: Seq<char>, sep: Sep)
    requires
        is_sep(sep, c),
    ensures
        split_on(a + seq![c] + b, sep) == split_on(a, sep) + split_on(b, sep),
    decreases b.len(),
{
    let whole = a + seq![c] + b;
    if b.len() == 0 {
        assert(whole.drop_last() =~= a);
        assert(split_on(a, sep).push(Seq::empty()) =~= split_on(a, sep) + seq![Seq::<char>::empty()]);
    } else {
        lemma_split_at_sep(a, c, b.drop_last(), sep);
        assert(whole.drop_last() =~= a + seq![c] + b.drop_last());
        assert(whole.last() == b.last());
        lemma_split_nonempty(b.drop_last(), sep);
        let pa = split_on(a, sep);
        let pb = split_on(b.drop_last(), sep);
        if is_sep(sep, b.last()) {
            assert((pa + pb).push(Seq::empty()) =~= pa + pb.push(Seq::empty()));
        } else {
            assert((pa + pb).update((pa + pb).len() - 1, (pa + pb).last().push(b.last())) =~= pa + pb.update(
                pb.len() - 1,
                pb.last().push(b.last()),
            ));
        }
    }
}

/// The non-empty pieces of `pieces`, in order.
pub open spec fn non_empty(pieces: Seq<Seq<char>>) -> Seq<Seq<char>>
    decreases pieces.len(),
{
    if pieces.len() == 0 {
        Seq::empty()
    } else if pieces.last().len() == 0 {
        non_empty(pieces.drop_last())
    } else {
        non_empty(pieces.drop_last()).push(pieces.last())
    }
}

/// The white-space separated words of `s` (`str::split_whitespace`).
pub open spec fn words(s: Seq<char>) -> Seq<Seq<char>> {
    non_empty(split_on(s, Sep::Space))
}

/// The lines of `s` (`str::lines`): split at `\n`, a final empty piece
/// dropped, and a `\r` just before a `\n` removed.
pub open spec fn lines(s: Seq<char>) -> Seq<Seq<char>> {
    let p = split_on(s, Sep::Newline);
    let raw = if p.last().len() == 0 {
        p.drop_last()
    } else {
        p
    };
    raw.map(
        |i: int, l: Seq<char>|
            if i < p.len() - 1 && l.len() > 0 && l.last() == '\r' {
                l.drop_last()
            } else {
                l
            },
    )
}

/// The views of a vector of char vectors.
pub open spec fn views_of(v: Seq<Vec<char>>) -> Seq<Seq<char>> {
    v.map_values(|x: Vec<char>| x@)
}

/// The pieces of `v` between separators.
pub fn split_chars(v: &Vec<char>, sep: Sep) -> (r: Vec<Vec<char>>)
    ensures
        views_of(r@) == split_on(v@, sep),
{
    let mut done: Vec<Vec<char>> = Vec::new();
    let mut cur: Vec<char> = Vec::new();
    let mut i: usize = 0;
    while i < v.len()
        invariant
            i <= v@.len(),
            views_of(done@).push(cur@) == split_on(v@.subrange(0, i as int), sep),
        decreases v.len() - i,
    {
        let c = v[i];
        let ghost before = views_of(done@).push(cur@);
        assert(v@.subrange(0, i + 1).drop_last() =~= v@.subrange(0, i as int));
        if sep_at(sep, c) {
            let ghost d0 = done@;
            done.push(cur);
            cur = Vec::new();
            assert(views_of(done@) =~= views_of(d0).push(before.last()));
            assert(views_of(done@).push(cur@) =~= before.push(Seq::empty()));
        } else {
            cur.push(c);
            assert(views_of(done@).push(cur@) =~= before.update(before.len() - 1, before.last().push(c)));
        }
        i += 1;
    }
    assert(v@.subrange(0, i as int) =~= v@);
    let ghost d0 = done@;
    let ghost last = cur@;
    done.push(cur);
    assert(views_of(done@) =~= views_of(d0).push(last));
    done
}

/// The non-empty pieces of `pieces`.
pub fn non_empty_of(pieces: Vec<Vec<char>>) -> (r: Vec<Vec<char>>)
    ensures
        views_of(r@) == non_empty(views_of(pieces@)),
{
    let ghost all = views_of(pieces@);
    let mut rest = pieces;
    let mut kept: Vec<Vec<char>> = Vec::new();
    let ghost mut k: int = 0;
    while rest.len() > 0
        invariant
            0 <= k <= all.len(),
            views_of(rest@) == all.subrange(k, all.len() as int),
            views_of(kept@) == non_empty(all.subrange(0, k)),
        decreases rest@.len(),
    {
        let ghost before = rest@;
        let p = rest.remove(0);
        assert(views_of(before).len() == before.len());
        assert(views_of(before)[0] == before[0]@);
        assert(all.subrange(k, all.len() as int)[0] == all[k]);
        assert(p@ == all[k]);
        assert(views_of(rest@) =~= all.subrange(k + 1, all.len() as int)) by {
            assert forall|x: int| 0 <= x < rest@.len() implies #[trigger] views_of(rest@)[x] == all[k + 1 + x] by {
                assert(rest@[x] == before[x + 1]);
                assert(views_of(before)[x + 1] == before[x + 1]@);
                assert(all.subrange(k, all.len() as int)[x + 1] == all[k + 1 + x]);
            }
        }
        assert(all.subrange(0, k + 1).drop_last() =~= all.subrange(0, k));
        if p.len() > 0 {
            let ghost kb = kept@;
            kept.push(p);
            assert(views_of(kept@) =~= views_of(kb).push(all[k]));
        }
        proof { k = k + 1; }
    }
    assert(all.subrange(0, k) =~= all);
    kept
}

/// The white-space separated words of `v`.
pub fn words_of(v: &Vec<char>) -> (r: Vec<Vec<char>>)
    ensures
        views_of(r@) == words(v@),
{
    non_empty_of(split_chars(v, Sep::Space))
}

/// The lines of `v`.
pub fn lines_of(v: &Vec<char>) -> (r: Vec<Vec<char>>)
    ensures
        views_of(r@) == lines(v@),
{
    let mut p = split_chars(v, Sep::Newline);
    let ghost all = views_of(p@);
    proof { lemma_split_nonempty(v@, Sep::Newline); }
    let n = p.len();
    assert(views_of(p@)[n - 1] == p@[n - 1]@);
    if p[n - 1].len() == 0 {
        let ghost pb = p@;
        p.pop();
        assert(views_of(p@) =~= all.drop_last());
    }
    let ghost raw = views_of(p@);
    let mut out: Vec<Vec<char>> = Vec::new();
    let mut rest = p;
    let ghost mut k: int = 0;
    while rest.len() > 0
        invariant
            0 <= k <= raw.len(),
            raw.len() <= all.len(),
            all.len() == n,
            views_of(rest@) == raw.subrange(k, raw.len() as int),
            views_of(out@) == lines(v@).subrange(0, k),
            lines(v@).len() == raw.len(),
            forall|i: int| 0 <= i < raw.len() ==> #[trigger] lines(v@)[i] == (if i < n - 1 && raw[i].len() > 0 && raw[i].last() == '\r' {
                raw[i].drop_last()
            } else {
                raw[i]
            }),
        decreases rest@.len(),
    {
        let ghost before = rest@;
        let mut l = rest.remove(0);
        assert(before.len() > 0);
        assert(views_of(before).len() == before.len());
        assert(raw.subrange(k, raw.len() as int).len() == raw.len() - k);
        assert(views_of(before)[0] == before[0]@);
        assert(raw.subrange(k, raw.len() as int)[0] == raw[k]);
        assert(views_of(rest@) =~= raw.subrange(k + 1, raw.len() as int)) by {
            assert forall|x: int| 0 <= x < rest@.len() implies #[trigger] views_of(rest@)[x] == raw[k + 1 + x] by {
                assert(rest@[x] == before[x + 1]);
                assert(views_of(before)[x + 1] == before[x + 1]@);
                assert(raw.subrange(k, raw.len() as int)[x + 1] == raw[k + 1 + x]);
            }
        }
        let idx = out.len();
        if idx < n - 1 && l.len() > 0 && l[l.len() - 1] == '\r' {
            l.pop();
        }
        let ghost ob = out@;
        out.push(l);
        assert(views_of(out@) =~= lines(v@).subrange(0, k + 1)) by {
            assert(views_of(out@) =~= views_of(ob).push(lines(v@)[k]));
        }
        proof { k = k + 1; }
    }
    assert(lines(v@).subrange(0, k) =~= lines(v@));
    out
}

/// How many chars of `v[..to]` remain once trailing white space is cut.
pub fn trim_end_at(v: &Vec<char>, to: usize) -> (k: usize)
    requires
        to <= v@.len(),
    ensures
        k <= to,
        k == trim_end_len(v@.subrange(0, to as int)),
{
    let mut k = to;
    while k > 0 && is_whitespace(v[k - 1])
        invariant
            k <= to <= v@.len(),
            trim_end_len(v@.subrange(0, to as int)) == trim_end_len(v@.subrange(0, k as int)),
        decreases k,
    {
        assert(v@.subrange(0, k as int).drop_last() =~= v@.subrange(0, k - 1));
        k -= 1;
    }
    k
}

/// The length of `s` once trailing white space is cut (`str::trim_end`).
pub open spec fn trim_end_len(s: Seq<char>) -> nat
    decreases s.len(),
{
    if s.len() > 0 && is_ws(s.last()) {
        trim_end_len(s.drop_last())
    } else {
        s.len()
    }
}

/// `s` without trailing white space.
pub open spec fn trim_end(s: Seq<char>) -> Seq<char> {
    s.subrange(0, trim_end_len(s) as int)
}

/// `trim_end_len` never lengthens.
pub proof fn lemma_trim_end_len(s: Seq<char>)
    ensures
        trim_end_len(s) <= s.len(),
        trim_end_len(s) > 0 ==> !is_ws(s[trim_end_len(s) - 1]),
        forall|i: int| trim_end_len(s) <= i < s.len() ==> is_ws(#[trigger] s[i]),
    decreases s.len(),
{
    if s.len() > 0 && is_ws(s.last()) {
        lemma_trim_end_len(s.drop_last());
        assert forall|i: int| trim_end_len(s) <= i < s.len() implies is_ws(#[trigger] s[i]) by {
            if i < s.len() - 1 {
                assert(s.drop_last()[i] == s[i]);
            }
        }
    }
}

/// How many chars `s` starts with that are white space.
pub open spec fn lead_ws(s: Seq<char>) -> nat
    decreases s.len(),
{
    if s.len() > 0 && is_ws(s[0]) {
        1 + lead_ws(s.drop_first())
    } else {
        0
    }
}

/// `s` without leading and trailing white space (`str::trim`).
pub open spec fn trim(s: Seq<char>) -> Seq<char> {
    let t = trim_end(s);
    t.subrange(lead_ws(t) as int, t.len() as int)
}

/// How many chars `s` starts with that are `c`.
pub open spec fn lead_char(s: Seq<char>, c: char) -> nat
    decreases s.len(),
{
    if s.len() > 0 && s[0] == c {
        1 + lead_char(s.drop_first(), c)
    } else {
        0
    }
}

/// How many chars `s` ends with that are `c`.
pub open spec fn trail_char(s: Seq<char>, c: char) -> nat
    decreases s.len(),
{
    if s.len() > 0 && s.last() == c {
        1 + trail_char(s.drop_last(), c)
    } else {
        0
    }
}

/// `s` without leading and trailing `c`s (`str::trim_matches` with a char).
pub open spec fn trim_char(s: Seq<char>, c: char) -> Seq<char> {
    let t = s.subrange(lead_char(s, c) as int, s.len() as int);
    t.subrange(0, t.len() - trail_char(t, c))
}

proof fn lemma_lead_ws_len(s: Seq<char>)
    ensures
        lead_ws(s) <= s.len(),
    decreases s.len(),
{
    if s.len() > 0 && is_ws(s[0]) {
        lemma_lead_ws_len(s.drop_first());
    }
}

proof fn lemma_trail_char_len(s: Seq<char>, c: char)
    ensures
        trail_char(s, c) <= s.len(),
    decreases s.len(),
{
    if s.len() > 0 && s.last() == c {
        lemma_trail_char_len(s.drop_last(), c);
    }
}

/// `s` without leading and trailing white space (`str::trim`).
pub fn trim_text(s: &str) -> (r: String)
    ensures
        r@ == trim(s@),
{
    let v = chars_of(s);
    let end = trim_end_at(&v, v.len());
    assert(v@.subrange(0, v@.len() as int) =~= v@);
    let ghost t = v@.subrange(0, end as int);
    assert(t == trim_end(s@));
    let mut start: usize = 0;
    assert(t.subrange(0, t.len() as int) =~= t);
    while start < end && is_whitespace(v[start])
        invariant
            end <= v@.len(),
            t == v@.subrange(0, end as int),
            start <= end,
            lead_ws(t) == start + lead_ws(t.subrange(start as int, t.len() as int)),
        decreases end - start,
    {
        assert(t.subrange(start as int, t.len() as int).drop_first() =~= t.subrange(start + 1, t.len() as int));
        start += 1;
    }
    proof {
        lemma_lead_ws_len(t);
    }
    assert(t.subrange(lead_ws(t) as int, t.len() as int) =~= v@.subrange(start as int, end as int));
    string_of(&v, start, end)
}

/// `s` without leading and trailing `c`s (`str::trim_matches` with a char).
pub fn trim_char_text(s: &str, c: char) -> (r: String)
    ensures
        r@ == trim_char(s@, c),
{
    let v = chars_of(s);
    let n = v.len();
    let mut start: usize = 0;
    assert(v@.subrange(0, n as int) =~= v@);
    while start < n && v[start] == c
        invariant
            n == v@.len(),
            v@ == s@,
            start <= n,
            lead_char(s@, c) == start + lead_char(v@.subrange(start as int, n as int), c),
        decreases n - start,
    {
        assert(v@.subrange(start as int, n as int).drop_first() =~= v@.subrange(start + 1, n as int));
        start += 1;
    }
    let ghost t = v@.subrange(start as int, n as int);
    let mut end: usize = n;
    assert(t.subrange(0, t.len() as int) =~= t);
    while end > start && v[end - 1] == c
        invariant
            n == v@.len(),
            start <= end <= n,
            t == v@.subrange(start as int, n as int),
            trail_char(t, c) == (n - end) + trail_char(v@.subrange(start as int, end as int), c),
        decreases end - start,
    {
        assert(v@.subrange(start as int, end as int).drop_last() =~= v@.subrange(start as int, end - 1));
        end -= 1;
    }
    proof {
        lemma_trail_char_len(t, c);
    }
    assert(t.subrange(0, t.len() - trail_char(t, c)) =~= v@.subrange(start as int, end as int));
    string_of(&v, start, end)
}

/// How many chars of `s` come before its first `c` (all of them when there
/// is none).
pub open spec fn before_char(s: Seq<char>, c: char) -> nat
    decreases s.len(),
{
    if s.len() == 0 || s[0] == c {
        0
    } else {
        1 + before_char(s.drop_first(), c)
    }
}

pub proof fn lemma_before_char(s: Seq<char>, c: char)
    ensures
        before_char(s, c) <= s.len(),
        forall|i: int| 0 <= i < before_char(s, c) ==> s[i] != c,
        before_char(s, c) < s.len() ==> s[before_char(s, c) as int] == c,
    decreases s.len(),
{
    if s.len() > 0 && s[0] != c {
        lemma_before_char(s.drop_first(), c);
        assert forall|i: int| 0 <= i < before_char(s, c) implies s[i] != c by {
            if i > 0 {
                assert(s.drop_first()[i - 1] == s[i]);
            }
        }
    }
}

/// How many chars of `v[from..]` come before the first `c`.
pub fn before_char_from(v: &Vec<char>, from: usize, c: char) -> (k: usize)
    requires
        from <= v@.len(),
    ensures
        k == before_char(v@.subrange(from as int, v@.len() as int), c),
        from + k <= v@.len(),
{
    let n = v.len();
    let mut end = from;
    proof {
        lemma_before_char(v@.subrange(from as int, n as int), c);
    }
    while end < n && v[end] != c
        invariant
            n == v@.len(),
            from <= end <= n,
            before_char(v@.subrange(from as int, n as int), c) == (end - from) + before_char(
                v@.subrange(end as int, n as int),
                c,
            ),
        decreases n - end,
    {
        assert(v@.subrange(end as int, n as int).drop_first() =~= v@.subrange(end + 1, n as int));
        end += 1;
    }
    end - from
}

} // verus!
