//! Pitchfork's marked block inside a file it shares, and its place in a
//! `pf.conf`.

use vstd::prelude::*;
use crate::setup::records::join_lines;
use crate::split::{lines, lines_of, trim_end, trim_end_at, views_of, words, words_of};
use crate::text::{chars_of, ends_with, occurs_at, str_eq, string_of};

verus! {

/// The line that opens pitchfork's block in a file it shares.
pub const MARKER_START: &'static str = "# pitchfork-start";

/// The line that closes it.
pub const MARKER_END: &'static str = "# pitchfork-end";

pub open spec fn marker_start() -> Seq<char> {
    MARKER_START@
}

pub open spec fn marker_end() -> Seq<char> {
    MARKER_END@
}

/// The first position at or after `i` where `needle` occurs in `hay`.
pub open spec fn find_from(hay: Seq<char>, needle: Seq<char>, i: int) -> Option<int>
    decreases hay.len() + 1 - i,
{
    if i < 0 || i + needle.len() > hay.len() {
        None
    } else if occurs_at(hay, needle, i) {
        Some(i)
    } else {
        find_from(hay, needle, i + 1)
    }
}

/// The first position where `needle` occurs in `hay` (`str::find`).
pub open spec fn find(hay: Seq<char>, needle: Seq<char>) -> Option<int> {
    find_from(hay, needle, 0)
}

/// [`find`] over chars.
pub fn find_chars(hay: &Vec<char>, needle: &Vec<char>) -> (r: Option<usize>)
    ensures
        match r {
            Some(i) => find(hay@, needle@) == Some(i as int),
            None => find(hay@, needle@) is None,
        },
{
    if needle.len() > hay.len() {
        return None;
    }
    let last = hay.len() - needle.len();
    let mut i: usize = 0;
    loop
        invariant
            i <= last,
            last == hay@.len() - needle@.len(),
            find(hay@, needle@) == find_from(hay@, needle@, i as int),
        decreases last - i,
    {
        let mut j: usize = 0;
        let mut same = true;
        while j < needle.len()
            invariant
                i <= last,
                last == hay@.len() - needle@.len(),
                i + needle@.len() <= hay@.len(),
                j <= needle@.len(),
                same == (forall|k: int| 0 <= k < j ==> hay@[i + k] == needle@[k]),
            decreases needle.len() - j,
        {
            let hl = hay.len();
            assert(i + j < hl);
            if hay[i + j] != needle[j] {
                same = false;
            }
            j += 1;
        }
        if same {
            assert(hay@.subrange(i as int, i + needle@.len()) =~= needle@);
            return Some(i);
        }
        assert(!occurs_at(hay@, needle@, i as int)) by {
            if occurs_at(hay@, needle@, i as int) {
                let k = choose|k: int| 0 <= k < needle@.len() && hay@[i + k] != needle@[k];
                assert(hay@.subrange(i as int, i + needle@.len())[k] == hay@[i + k]);
            }
        }
        if i == last {
            assert(find_from(hay@, needle@, i + 1) is None);
            return None;
        }
        i += 1;
    }
    None
}

/// How many `\n` start `s`.
pub open spec fn leading_newlines(s: Seq<char>) -> nat
    decreases s.len(),
{
    if s.len() > 0 && s[0] == '\n' {
        1 + leading_newlines(s.drop_first())
    } else {
        0
    }
}

/// `text` with pitchfork's block taken out, and the newlines right after it
/// too; unchanged when there is no start marker before an end marker.
pub open spec fn without_block(text: Seq<char>) -> Seq<char> {
    match (find(text, marker_start()), find(text, marker_end())) {
        (Some(start), Some(end)) => if end > start {
            let after = text.subrange(end + marker_end().len(), text.len() as int);
            text.subrange(0, start) + after.subrange(leading_newlines(after) as int, after.len() as int)
        } else {
            text
        },
        _ => text,
    }
}

/// The block itself: the markers around `block`.
pub open spec fn marked(block: Seq<char>) -> Seq<char> {
    marker_start() + "\n"@ + block + "\n"@ + marker_end()
}

/// Replace pitchfork's block in `text` with `block`, or append it after a
/// blank line; an empty `block` removes it.
pub open spec fn spec_splice_block(text: Seq<char>, block: Seq<char>) -> Seq<char> {
    let body = trim_end(without_block(text));
    if block.len() == 0 {
        if body.len() == 0 {
            Seq::empty()
        } else {
            body + "\n"@
        }
    } else {
        (if body.len() == 0 {
            Seq::empty()
        } else {
            body + "\n\n"@
        }) + marked(block) + "\n"@
    }
}

/// Where `s[from..]` stops starting with `\n`.
fn skip_newlines(v: &Vec<char>, from: usize) -> (k: usize)
    requires
        from <= v@.len(),
    ensures
        from <= k <= v@.len(),
        k - from == leading_newlines(v@.subrange(from as int, v@.len() as int)),
{
    let mut k = from;
    while k < v.len() && v[k] == '\n'
        invariant
            from <= k <= v@.len(),
            leading_newlines(v@.subrange(from as int, v@.len() as int)) == (k - from) + leading_newlines(
                v@.subrange(k as int, v@.len() as int),
            ),
        decreases v.len() - k,
    {
        assert(v@.subrange(k as int, v@.len() as int).drop_first() =~= v@.subrange(k + 1, v@.len() as int));
        k += 1;
    }
    k
}

/// [`without_block`] over chars.
fn strip_block(t: &Vec<char>) -> (r: Vec<char>)
    ensures
        r@ == without_block(t@),
{
    let start_m = chars_of(MARKER_START);
    let end_m = chars_of(MARKER_END);
    let s = find_chars(t, &start_m);
    let e = find_chars(t, &end_m);
    match (s, e) {
        (Some(start), Some(end)) => {
            if end > start {
                proof {
                    lemma_find_occurs(t@, end_m@, 0);
                    assert(occurs_at(t@, end_m@, end as int));
                    assert(end + end_m@.len() <= t@.len());
                }
                let tl = t.len();
                assert(end + end_m@.len() <= tl);
                let after = end + end_m.len();
                let k = skip_newlines(t, after);
                let mut r: Vec<char> = Vec::new();
                let mut i: usize = 0;
                while i < start
                    invariant
                        i <= start <= t@.len(),
                        r@ == t@.subrange(0, i as int),
                    decreases start - i,
                {
                    r.push(t[i]);
                    i += 1;
                    assert(r@ =~= t@.subrange(0, i as int));
                }
                let mut j = k;
                while j < t.len()
                    invariant
                        start <= t@.len(),
                        k <= j <= t@.len(),
                        r@ == t@.subrange(0, start as int) + t@.subrange(k as int, j as int),
                    decreases t.len() - j,
                {
                    r.push(t[j]);
                    j += 1;
                    assert(r@ =~= t@.subrange(0, start as int) + t@.subrange(k as int, j as int));
                }
                let ghost aft = t@.subrange(after as int, t@.len() as int);
                assert(aft.subrange(leading_newlines(aft) as int, aft.len() as int) =~= t@.subrange(k as int, t@.len() as int));
                r
            } else {
                t.clone()
            }
        },
        _ => t.clone(),
    }
}

/// Where [`find_from`] finds something, it occurs there.
pub proof fn lemma_find_occurs(hay: Seq<char>, needle: Seq<char>, i: int)
    ensures
        find_from(hay, needle, i) matches Some(k) ==> occurs_at(hay, needle, k) && k >= i,
    decreases hay.len() + 1 - i,
{
    if !(i < 0 || i + needle.len() > hay.len()) && !occurs_at(hay, needle, i) {
        lemma_find_occurs(hay, needle, i + 1);
    }
}

/// `v` as a `String`.
fn string_of_all(v: &Vec<char>) -> (s: String)
    ensures
        s@ == v@,
{
    let s = string_of(v, 0, v.len());
    assert(v@.subrange(0, v@.len() as int) =~= v@);
    s
}

/// Replace the pitchfork-managed block in `text` with `block`, or append
/// it. Passing an empty `block` removes the block.
pub fn splice_block(text: &str, block: &str) -> (r: String)
    ensures
        r@ == spec_splice_block(text@, block@),
{
    let t = chars_of(text);
    let stripped = strip_block(&t);
    let n = trim_end_at(&stripped, stripped.len());
    assert(stripped@.subrange(0, stripped@.len() as int) =~= stripped@);
    let body = string_of(&stripped, 0, n);
    proof {
        reveal_strlit("\n");
        reveal_strlit("\n\n");
    }
    if block.is_empty() {
        if n == 0 {
            return String::new();
        }
        let mut r = body;
        r.append("\n");
        return r;
    }
    let mut r = if n == 0 {
        String::new()
    } else {
        let mut p = body;
        p.append("\n\n");
        p
    };
    r.append(MARKER_START);
    r.append("\n");
    r.append(block);
    r.append("\n");
    r.append(MARKER_END);
    r.append("\n");
    r
}

// ─── pf.conf ────────────────────────────────────────────────────────────────

/// The rule keyword of a `pf.conf` line: its first word, unless that word
/// assigns a macro.
pub open spec fn spec_pf_keyword(line: Seq<char>) -> Option<Seq<char>> {
    let w = words(line);
    if w.len() == 0 {
        None
    } else if w[0].contains('=') {
        None
    } else {
        Some(w[0])
    }
}

/// The rule keyword of a `pf.conf` line.
///
/// Compared whole rather than by prefix: custom rulesets define macros such
/// as `nat_if = "en0"`, and a macro assignment is no rule.
pub fn pf_keyword(line: &str) -> (k: Option<String>)
    ensures
        match k {
            Some(s) => spec_pf_keyword(line@) == Some(s@),
            None => spec_pf_keyword(line@) is None,
        },
{
    let v = chars_of(line);
    let w = words_of(&v);
    if w.len() == 0 {
        return None;
    }
    let first = &w[0];
    assert(views_of(w@)[0] == first@);
    let mut i: usize = 0;
    while i < first.len()
        invariant
            i <= first@.len(),
            w@.len() > 0,
            views_of(w@) == words(line@),
            first@ == views_of(w@)[0],
            forall|k: int| 0 <= k < i ==> first@[k] != '=',
        decreases first.len() - i,
    {
        if first[i] == '=' {
            assert(first@.contains('=')) by {
                assert(first@[i as int] == '=');
            }
            return None;
        }
        i += 1;
    }
    Some(string_of_all(first))
}

/// Whether a keyword is a translation rule's.
pub open spec fn translation_keyword(k: Seq<char>) -> bool {
    k == "rdr-anchor"@ || k == "nat-anchor"@ || k == "binat-anchor"@ || k == "rdr"@ || k == "nat"@ || k == "binat"@
}

/// Whether a keyword is a filter rule's (`anchor` is a filter anchor).
pub open spec fn filter_keyword(k: Seq<char>) -> bool {
    k == "anchor"@ || k == "pass"@ || k == "block"@ || k == "match"@ || k == "antispoof"@
}

pub open spec fn spec_is_pf_translation(line: Seq<char>) -> bool {
    spec_pf_keyword(line) matches Some(k) && translation_keyword(k)
}

pub open spec fn spec_is_pf_filter(line: Seq<char>) -> bool {
    spec_pf_keyword(line) matches Some(k) && filter_keyword(k)
}

/// Whether a `pf.conf` line is a translation rule, which must precede
/// filters.
pub fn is_pf_translation(line: &str) -> (r: bool)
    ensures
        r == spec_is_pf_translation(line@),
{
    match pf_keyword(line) {
        Some(k) => {
            let k = k.as_str();
            str_eq(k, "rdr-anchor") || str_eq(k, "nat-anchor") || str_eq(k, "binat-anchor") || str_eq(k, "rdr")
                || str_eq(k, "nat") || str_eq(k, "binat")
        },
        None => false,
    }
}

/// Whether a `pf.conf` line is a filter rule, which must follow
/// translation.
pub fn is_pf_filter(line: &str) -> (r: bool)
    ensures
        r == spec_is_pf_filter(line@),
{
    match pf_keyword(line) {
        Some(k) => {
            let k = k.as_str();
            str_eq(k, "anchor") || str_eq(k, "pass") || str_eq(k, "block") || str_eq(k, "match") || str_eq(
                k,
                "antispoof",
            )
        },
        None => false,
    }
}

/// The index after the last translation rule among `ls`, if any.
pub open spec fn after_last_translation(ls: Seq<Seq<char>>) -> Option<int>
    decreases ls.len(),
{
    if ls.len() == 0 {
        None
    } else if spec_is_pf_translation(ls.last()) {
        Some(ls.len() as int)
    } else {
        after_last_translation(ls.drop_last())
    }
}

/// The index of the first filter rule among `ls`, if any.
pub open spec fn first_filter(ls: Seq<Seq<char>>) -> Option<int>
    decreases ls.len(),
{
    if ls.len() == 0 {
        None
    } else {
        match first_filter(ls.drop_last()) {
            Some(i) => Some(i),
            None => if spec_is_pf_filter(ls.last()) {
                Some(ls.len() - 1)
            } else {
                None
            },
        }
    }
}

/// Where the block goes among the lines `ls`: after the last translation
/// rule; else before the first filter rule; else at the end.
pub open spec fn pf_insert_at(ls: Seq<Seq<char>>) -> int {
    match after_last_translation(ls) {
        Some(i) => i,
        None => match first_filter(ls) {
            Some(j) => j,
            None => ls.len() as int,
        },
    }
}

/// Insert or replace the pitchfork block in a `pf.conf`, in rule order.
pub open spec fn spec_splice_pf_block(text: Seq<char>, block: Seq<char>) -> Seq<char> {
    let stripped = spec_splice_block(text, Seq::empty());
    if block.len() == 0 {
        stripped
    } else {
        let ls = lines(stripped);
        let joined = join_lines(ls.insert(pf_insert_at(ls), marked(block)));
        if ends_with(stripped, "\n"@) {
            joined + "\n"@
        } else {
            joined
        }
    }
}

/// The chars vectors of `ls` as strings.
fn strings_of(ls: &Vec<Vec<char>>) -> (out: Vec<String>)
    ensures
        crate::setup::model::strs(out@) == views_of(ls@),
{
    let ghost lv = views_of(ls@);
    let mut out: Vec<String> = Vec::new();
    let mut i: usize = 0;
    while i < ls.len()
        invariant
            i <= ls@.len(),
            lv == views_of(ls@),
            crate::setup::model::strs(out@) == lv.subrange(0, i as int),
        decreases ls.len() - i,
    {
        assert(lv[i as int] == ls@[i as int]@);
        let x = string_of_all(&ls[i]);
        let ghost ob = out@;
        out.push(x);
        assert(crate::setup::model::strs(out@) =~= crate::setup::model::strs(ob).push(x@));
        i += 1;
        assert(crate::setup::model::strs(out@) =~= lv.subrange(0, i as int));
    }
    assert(lv.subrange(0, i as int) =~= lv);
    out
}

/// [`pf_insert_at`] of the lines `out`.
fn pf_position(out: &Vec<String>) -> (at: usize)
    ensures
        at == pf_insert_at(crate::setup::model::strs(out@)),
        at <= out@.len(),
{
    let ghost lv = crate::setup::model::strs(out@);
    let mut last_t: Option<usize> = None;
    let mut first_f: Option<usize> = None;
    let mut j: usize = 0;
    while j < out.len()
        invariant
            j <= out@.len(),
            lv == crate::setup::model::strs(out@),
            match last_t {
                Some(x) => after_last_translation(lv.subrange(0, j as int)) == Some(x as int),
                None => after_last_translation(lv.subrange(0, j as int)) is None,
            },
            match first_f {
                Some(x) => first_filter(lv.subrange(0, j as int)) == Some(x as int),
                None => first_filter(lv.subrange(0, j as int)) is None,
            },
        decreases out.len() - j,
    {
        let ghost pre = lv.subrange(0, j + 1);
        assert(pre.drop_last() =~= lv.subrange(0, j as int));
        assert(pre.last() == out@[j as int]@);
        if is_pf_translation(out[j].as_str()) {
            last_t = Some(j + 1);
        }
        if first_f.is_none() && is_pf_filter(out[j].as_str()) {
            first_f = Some(j);
        }
        j += 1;
    }
    assert(lv.subrange(0, j as int) =~= lv);
    proof {
        lemma_after_last_translation_bound(lv);
        lemma_first_filter_bound(lv);
    }
    match last_t {
        Some(x) => x,
        None => match first_f {
            Some(y) => y,
            None => out.len(),
        },
    }
}

/// Insert or replace the pitchfork block in a `pf.conf`, respecting rule
/// order.
///
/// pf requires translation rules (`rdr`) before filter rules, and Apple's
/// stock `/etc/pf.conf` ends with a filter anchor, so the block goes right
/// after the last translation rule; with none, before the first filter
/// rule; with neither, at the end. Any block already there is taken out
/// first, so a re-run moves it rather than adding a second.
pub fn splice_pf_block(text: &str, block: &str) -> (r: String)
    ensures
        r@ == spec_splice_pf_block(text@, block@),
{
    let stripped = splice_block(text, "");
    proof { reveal_strlit(""); }
    assert(""@ =~= Seq::<char>::empty());
    if block.is_empty() {
        return stripped;
    }
    let sv = chars_of(stripped.as_str());
    let ls = lines_of(&sv);
    let mut out = strings_of(&ls);
    let ghost lv = views_of(ls@);
    let at = pf_position(&out);
    let mut managed = String::from_str(MARKER_START);
    managed.append("\n");
    managed.append(block);
    managed.append("\n");
    managed.append(MARKER_END);
    let ghost ob = out@;
    out.insert(at, managed);
    assert(crate::setup::model::strs(out@) =~= lv.insert(at as int, marked(block@)));
    let mut joined = crate::setup::records::join_lines_of(&out);
    let ends = {
        let n = sv.len();
        n > 0 && sv[n - 1] == '\n'
    };
    proof {
        reveal_strlit("\n");
        if sv@.len() > 0 {
            let tail = sv@.subrange(sv@.len() - 1, sv@.len() as int);
            assert(tail[0] == sv@[sv@.len() - 1]);
            if sv@[sv@.len() - 1] == '\n' {
                assert(tail =~= "\n"@);
            } else {
                assert(tail[0] != "\n"@[0]);
            }
        }
    }
    if ends {
        joined.append("\n");
    }
    joined
}

/// [`after_last_translation`] is a position among the lines.
proof fn lemma_after_last_translation_bound(ls: Seq<Seq<char>>)
    ensures
        after_last_translation(ls) matches Some(i) ==> 0 <= i <= ls.len(),
    decreases ls.len(),
{
    if ls.len() > 0 {
        lemma_after_last_translation_bound(ls.drop_last());
    }
}

/// [`first_filter`] is a position among the lines.
proof fn lemma_first_filter_bound(ls: Seq<Seq<char>>)
    ensures
        first_filter(ls) matches Some(i) ==> 0 <= i < ls.len(),
    decreases ls.len(),
{
    if ls.len() > 0 {
        lemma_first_filter_bound(ls.drop_last());
    }
}

/// Where [`find_from`] finds nothing, nothing occurs from `i` on.
pub proof fn lemma_find_none(hay: Seq<char>, needle: Seq<char>, i: int)
    requires
        i >= 0,
        find_from(hay, needle, i) is None,
    ensures
        forall|k: int| k >= i ==> !#[trigger] occurs_at(hay, needle, k),
    decreases hay.len() + 1 - i,
{
    if !(i + needle.len() > hay.len()) {
        lemma_find_none(hay, needle, i + 1);
    }
}

/// Whether `needle` occurs in `hay` (`str::contains`).
pub fn contains_text(hay: &str, needle: &str) -> (r: bool)
    ensures
        r == crate::text::contains(hay@, needle@),
{
    let h = chars_of(hay);
    let n = chars_of(needle);
    match find_chars(&h, &n) {
        Some(i) => {
            proof { lemma_find_occurs(h@, n@, 0); }
            assert(occurs_at(hay@, needle@, i as int));
            true
        },
        None => {
            proof { lemma_find_none(h@, n@, 0); }
            assert(!crate::text::contains(hay@, needle@)) by {
                if crate::text::contains(hay@, needle@) {
                    let k = choose|k: int| #[trigger] occurs_at(hay@, needle@, k);
                }
            }
            false
        },
    }
}

} // verus!
