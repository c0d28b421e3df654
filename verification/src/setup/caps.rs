//! Reading file capabilities, and deciding whether a trust or capability
//! change still has something to do.

use vstd::prelude::*;
use crate::names::{vec_contains, views};
use crate::setup::model::strs;
use crate::split::{
    is_ws, lines, lines_of, split_chars, split_on, trim_end, trim_end_at, views_of, words, words_of, Sep,
};
use crate::text::{chars_of, starts_with, string_of};

verus! {

/// The capability `proxy setup` grants so the proxy can bind a privileged
/// port.
pub open spec fn bind_capability() -> Seq<char> {
    "cap_net_bind_service"@
}

/// The names of one clause: the part before its first `=`, `+` or `-`,
/// split at commas. A clause holds no white space, so the names need no
/// trimming.
pub open spec fn clause_names(clause: Seq<char>) -> Seq<Seq<char>> {
    split_on(split_on(clause, Sep::CapFlag)[0], Sep::Comma)
}

/// The names of every clause, in order.
pub open spec fn names_in(clauses: Seq<Seq<char>>) -> Seq<Seq<char>>
    decreases clauses.len(),
{
    if clauses.len() == 0 {
        Seq::empty()
    } else {
        names_in(clauses.drop_last()) + clause_names(clauses.last())
    }
}

/// The names that start with `cap_`, each kept once, at its first place.
pub open spec fn cap_names(names: Seq<Seq<char>>) -> Seq<Seq<char>>
    decreases names.len(),
{
    if names.len() == 0 {
        Seq::empty()
    } else {
        let kept = cap_names(names.drop_last());
        if starts_with(names.last(), "cap_"@) && !kept.contains(names.last()) {
            kept.push(names.last())
        } else {
            kept
        }
    }
}

/// The capability names in a `getcap` capability string.
pub open spec fn spec_parse_capabilities(s: Seq<char>) -> Seq<Seq<char>> {
    cap_names(names_in(words(s)))
}

/// Whether `v` starts with `cap_`.
fn is_cap_name(v: &Vec<char>) -> (r: bool)
    ensures
        r == starts_with(v@, "cap_"@),
{
    proof { reveal_strlit("cap_"); }
    if v.len() >= 4 && v[0] == 'c' && v[1] == 'a' && v[2] == 'p' && v[3] == '_' {
        assert(v@.subrange(0, 4) =~= "cap_"@);
        true
    } else {
        proof {
            if v@.len() >= 4 {
                assert(v@.subrange(0, 4)[0] == v@[0]);
                assert(v@.subrange(0, 4)[1] == v@[1]);
                assert(v@.subrange(0, 4)[2] == v@[2]);
                assert(v@.subrange(0, 4)[3] == v@[3]);
            }
        }
        false
    }
}

/// Capability names in a `getcap` capability string.
///
/// The string is one or more white-space separated clauses, because
/// capabilities with different flag sets print separately (`cap_chown=ei
/// cap_net_bind_service=ep`). A clause is `names=flags`, `names+flags` or
/// `names-flags`, its names separated by commas; every name that starts
/// with `cap_` is kept, once, in the order met.
pub fn parse_capabilities(spec: &str) -> (names: Vec<String>)
    ensures
        views(names@) == spec_parse_capabilities(spec@),
{
    let v = chars_of(spec);
    let ws = words_of(&v);
    let ghost w = views_of(ws@);
    let mut names: Vec<String> = Vec::new();
    let mut i: usize = 0;
    while i < ws.len()
        invariant
            i <= ws@.len(),
            w == views_of(ws@),
            w == words(spec@),
            views(names@) == cap_names(names_in(w.subrange(0, i as int))),
        decreases ws.len() - i,
    {
        let parts = split_chars(&ws[i], Sep::CapFlag);
        assert(w[i as int] == ws@[i as int]@);
        proof { crate::split::lemma_split_nonempty(ws@[i as int]@, Sep::CapFlag); }
        assert(views_of(parts@)[0] == parts@[0]@);
        let items = split_chars(&parts[0], Sep::Comma);
        let ghost its = views_of(items@);
        let ghost pre = names_in(w.subrange(0, i as int));
        assert(its == clause_names(w[i as int]));
        let mut j: usize = 0;
        while j < items.len()
            invariant
                j <= items@.len(),
                its == views_of(items@),
                views(names@) == cap_names(pre + its.subrange(0, j as int)),
            decreases items.len() - j,
        {
            assert(its[j as int] == items@[j as int]@);
            let ghost all = pre + its.subrange(0, j + 1);
            assert(all.drop_last() =~= pre + its.subrange(0, j as int));
            assert(all.last() == its[j as int]);
            if is_cap_name(&items[j]) {
                let name = string_of(&items[j], 0, items[j].len());
                assert(items@[j as int]@.subrange(0, items@[j as int]@.len() as int) =~= items@[j as int]@);
                if !vec_contains(&names, &name) {
                    let ghost nb = names@;
                    names.push(name);
                    assert(views(names@) =~= views(nb).push(all.last()));
                }
            }
            j += 1;
        }
        assert(its.subrange(0, j as int) =~= its);
        assert(w.subrange(0, i + 1).drop_last() =~= w.subrange(0, i as int));
        i += 1;
    }
    assert(w.subrange(0, i as int) =~= w);
    names
}

/// What follows `path` on the first line that, with trailing white space
/// cut, starts with it.
pub open spec fn after_path(ls: Seq<Seq<char>>, path: Seq<char>) -> Option<Seq<char>>
    decreases ls.len(),
{
    if ls.len() == 0 {
        None
    } else if starts_with(trim_end(ls[0]), path) {
        Some(trim_end(ls[0]).subrange(path.len() as int, trim_end(ls[0]).len() as int))
    } else {
        after_path(ls.drop_first(), path)
    }
}

/// Whether `s` is nothing but white space.
pub open spec fn blank(s: Seq<char>) -> bool {
    forall|i: int| 0 <= i < s.len() ==> is_ws(#[trigger] s[i])
}

/// What `getcap`'s output says about `path`: the capabilities on the line
/// naming it; none at all for empty output, which is how `getcap` reports a
/// file without capabilities; and no answer for output that does not name
/// the path.
pub open spec fn spec_capabilities_from_getcap(path: Seq<char>, stdout: Seq<char>) -> Option<Seq<Seq<char>>> {
    match after_path(lines(stdout), path) {
        Some(rest) => Some(spec_parse_capabilities(rest)),
        None => if blank(stdout) {
            Some(Seq::empty())
        } else {
            None
        },
    }
}

/// Whether `v[..n]` starts with `p`.
fn prefix_of(v: &Vec<char>, n: usize, p: &Vec<char>) -> (r: bool)
    requires
        n <= v@.len(),
    ensures
        r == starts_with(v@.subrange(0, n as int), p@),
{
    if p.len() > n {
        return false;
    }
    let mut i: usize = 0;
    while i < p.len()
        invariant
            i <= p@.len() <= n <= v@.len(),
            forall|k: int| 0 <= k < i ==> v@[k] == p@[k],
        decreases p.len() - i,
    {
        if v[i] != p[i] {
            assert(v@.subrange(0, n as int).subrange(0, p@.len() as int)[i as int] != p@[i as int]);
            return false;
        }
        i += 1;
    }
    assert(v@.subrange(0, n as int).subrange(0, p@.len() as int) =~= p@);
    true
}

/// Read `getcap`'s output for `path`.
///
/// `getcap` prints `<path> <capabilities>`; the path is known, so it is
/// stripped rather than guessed at by splitting. Empty output is a file
/// without capabilities, `Some` of none; output that does not name the
/// path is no answer, `None`, since reading it as "no capabilities" would
/// have undo skip the revocation.
pub fn capabilities_from_getcap(path: &str, stdout: &str) -> (r: Option<Vec<String>>)
    ensures
        match r {
            Some(v) => spec_capabilities_from_getcap(path@, stdout@) == Some(views(v@)),
            None => spec_capabilities_from_getcap(path@, stdout@) is None,
        },
{
    let p = chars_of(path);
    let out = chars_of(stdout);
    let ls = lines_of(&out);
    let ghost all = views_of(ls@);
    assert(all.subrange(0, all.len() as int) =~= all);
    let mut i: usize = 0;
    while i < ls.len()
        invariant
            i <= ls@.len(),
            all == views_of(ls@),
            all == lines(stdout@),
            p@ == path@,
            after_path(all, path@) == after_path(all.subrange(i as int, all.len() as int), path@),
        decreases ls.len() - i,
    {
        let line = &ls[i];
        let ghost rest = all.subrange(i as int, all.len() as int);
        assert(rest[0] == line@) by {
            assert(all[i as int] == ls@[i as int]@);
        }
        assert(rest.drop_first() =~= all.subrange(i + 1, all.len() as int));
        let t = trim_end_at(line, line.len());
        assert(line@.subrange(0, line@.len() as int) =~= line@);
        if prefix_of(line, t, &p) {
            proof { crate::split::lemma_trim_end_len(line@); }
            let text = string_of(line, p.len(), t);
            assert(text@ == trim_end(line@).subrange(path@.len() as int, trim_end(line@).len() as int));
            return Some(parse_capabilities(text.as_str()));
        }
        i += 1;
    }
    assert(all.subrange(i as int, all.len() as int) =~= Seq::<Seq<char>>::empty());
    assert(after_path(lines(stdout@), path@) is None);
    let mut j: usize = 0;
    while j < out.len()
        invariant
            j <= out@.len(),
            out@ == stdout@,
            after_path(lines(stdout@), path@) is None,
            forall|k: int| 0 <= k < j ==> is_ws(#[trigger] out@[k]),
        decreases out.len() - j,
    {
        if !crate::split::is_whitespace(out[j]) {
            assert(!is_ws(stdout@[j as int]));
            return None;
        }
        j += 1;
    }
    Some(Vec::new())
}

/// Whether revoking the bind capability has nothing left to do: only a
/// definite list without it. `None` is "could not ask", which settles
/// nothing.
pub fn revoke_already_done(caps: Option<&[String]>) -> (r: bool)
    ensures
        r == match caps {
            Some(c) => !views(c@).contains(bind_capability()),
            None => false,
        },
{
    match caps {
        Some(c) => {
            let mut i: usize = 0;
            while i < c.len()
                invariant
                    i <= c@.len(),
                    caps == Some(c),
                    forall|k: int| 0 <= k < i ==> c@[k]@ != bind_capability(),
                decreases c.len() - i,
            {
                if crate::text::str_eq(c[i].as_str(), "cap_net_bind_service") {
                    assert(c@[i as int]@ == bind_capability());
                    assert(views(c@)[i as int] == c@[i as int]@);
                    assert(views(c@).contains(bind_capability()));
                    return false;
                }
                i += 1;
            }
            assert(!views(c@).contains(bind_capability())) by {
                if views(c@).contains(bind_capability()) {
                    let k = choose|k: int| 0 <= k < views(c@).len() && views(c@)[k] == bind_capability();
                    assert(c@[k]@ == views(c@)[k]);
                }
            }
            true
        },
        None => false,
    }
}

/// Whether removing the CA from the trust store has nothing left to do:
/// only when the certificate is present and the store says it is not
/// trusted. A missing certificate, or a store that would not answer, is
/// not enough.
pub fn untrust_already_done(pem_exists: bool, trusted: Option<bool>) -> (r: bool)
    ensures
        r == (pem_exists && trusted == Some(false)),
{
    pem_exists && match trusted {
        Some(t) => !t,
        None => false,
    }
}

// ─── revoking the bind capability ───────────────────────────────────────────

/// `items` joined with `sep`.
pub open spec fn join_with(items: Seq<Seq<char>>, sep: Seq<char>) -> Seq<char>
    decreases items.len(),
{
    if items.len() == 0 {
        Seq::empty()
    } else if items.len() == 1 {
        items[0]
    } else {
        join_with(items.drop_last(), sep) + sep + items.last()
    }
}

/// `items` joined with `sep`.
pub fn join_strings(items: &Vec<String>, sep: &str) -> (s: String)
    ensures
        s@ == join_with(views(items@), sep@),
{
    let ghost all = views(items@);
    let mut s = String::new();
    let mut i: usize = 0;
    while i < items.len()
        invariant
            i <= items@.len(),
            all == views(items@),
            s@ == join_with(all.subrange(0, i as int), sep@),
        decreases items.len() - i,
    {
        let ghost next = all.subrange(0, i + 1);
        assert(next.drop_last() =~= all.subrange(0, i as int));
        if i > 0 {
            s.append(sep);
        }
        s.append(items[i].as_str());
        i += 1;
        if i == 1 {
            assert(next.len() == 1);
        }
        assert(s@ =~= join_with(next, sep@));
    }
    assert(all.subrange(0, i as int) =~= all);
    s
}

/// The capabilities other than the bind capability, in order.
pub open spec fn other_caps(c: Seq<Seq<char>>) -> Seq<Seq<char>>
    decreases c.len(),
{
    if c.len() == 0 {
        Seq::empty()
    } else if c.last() == bind_capability() {
        other_caps(c.drop_last())
    } else {
        other_caps(c.drop_last()).push(c.last())
    }
}

/// What revoking the bind capability from a binary comes to.
#[derive(Clone, Debug, PartialEq, Eq)]
pub enum Revoke {
    /// Left in place, for this reason.
    Refuse(String),
    /// The binary does not carry it: nothing to do.
    Done,
    /// Clear the binary's capabilities with this command, under `sudo`.
    Run(Vec<String>),
}

/// The mathematical value of a revocation.
pub enum RevokeV {
    Refuse(Seq<char>),
    Done,
    Run(Seq<Seq<char>>),
}

impl Revoke {
    pub open spec fn view(&self) -> RevokeV {
        match self {
            Revoke::Refuse(m) => RevokeV::Refuse(m@),
            Revoke::Done => RevokeV::Done,
            Revoke::Run(argv) => RevokeV::Run(views(argv@)),
        }
    }
}

/// What revoking the bind capability from `path` comes to, given the
/// capabilities `getcap` read on it (`None`: it could not be asked).
///
/// `setcap -r` clears the whole set, so it is used only when ours is the
/// only capability on the file; a binary carrying others, or one whose
/// capabilities could not be read, is left alone with a message saying how
/// to finish by hand. Reporting a revocation that never happened is not an
/// option either way.
pub open spec fn spec_revoke(path: Seq<char>, caps: Option<Seq<Seq<char>>>) -> RevokeV {
    match caps {
        None => RevokeV::Refuse(
            "Could not read the capabilities on "@ + path
                + " \u{2014} `getcap` was not found or failed, so cap_net_bind_service was left in place.\nCheck with: sudo getcap "@
                + path + "\nRemove with: sudo setcap -r "@ + path,
        ),
        Some(c) => if !c.contains(bind_capability()) {
            RevokeV::Done
        } else if other_caps(c).len() > 0 {
            RevokeV::Refuse(
                path + " also carries "@ + join_with(other_caps(c), ", "@)
                    + ", which pitchfork did not grant. Removing cap_net_bind_service here would clear those too, so it has been left alone.\nRemove it by hand with: sudo setcap "@
                    + join_with(other_caps(c), ","@) + "=ep "@ + path,
            )
        } else {
            RevokeV::Run(seq!["setcap"@, "-r"@, path])
        },
    }
}

/// What revoking the bind capability from `path` comes to.
pub fn revoke_decision(path: &str, caps: Option<&[String]>) -> (r: Revoke)
    ensures
        r@ == spec_revoke(path@, match caps {
            Some(c) => Some(views(c@)),
            None => None::<Seq<Seq<char>>>,
        }),
{
    match caps {
        None => {
            let mut m = String::from_str("Could not read the capabilities on ");
            m.append(path);
            m.append(
                " \u{2014} `getcap` was not found or failed, so cap_net_bind_service was left in place.\nCheck with: sudo getcap ",
            );
            m.append(path);
            m.append("\nRemove with: sudo setcap -r ");
            m.append(path);
            Revoke::Refuse(m)
        },
        Some(c) => {
            let ghost cv = views(c@);
            let mut others: Vec<String> = Vec::new();
            let mut held = false;
            let mut i: usize = 0;
            while i < c.len()
                invariant
                    i <= c@.len(),
                    cv == views(c@),
                    views(others@) == other_caps(cv.subrange(0, i as int)),
                    held == cv.subrange(0, i as int).contains(bind_capability()),
                decreases c.len() - i,
            {
                let ghost pre = cv.subrange(0, i as int);
                let ghost next = cv.subrange(0, i + 1);
                assert(next.drop_last() =~= pre);
                assert(next.last() == c@[i as int]@);
                if crate::text::str_eq(c[i].as_str(), "cap_net_bind_service") {
                    held = true;
                    assert(next[i as int] == bind_capability());
                } else {
                    let ghost o = views(others@);
                    others.push(c[i].clone());
                    assert(views(others@) =~= o.push(c@[i as int]@));
                    assert(next.contains(bind_capability()) == pre.contains(bind_capability())) by {
                        if next.contains(bind_capability()) {
                            let k = choose|k: int| 0 <= k < next.len() && next[k] == bind_capability();
                            if k < i {
                                assert(pre[k] == next[k]);
                            }
                        }
                        if pre.contains(bind_capability()) {
                            let k = choose|k: int| 0 <= k < pre.len() && pre[k] == bind_capability();
                            assert(next[k] == pre[k]);
                        }
                    }
                }
                proof {
                    if held && !pre.contains(bind_capability()) {
                        assert(next[i as int] == bind_capability());
                    }
                    if pre.contains(bind_capability()) {
                        let k = choose|k: int| 0 <= k < pre.len() && pre[k] == bind_capability();
                        assert(next[k] == pre[k]);
                    }
                }
                i += 1;
            }
            assert(cv.subrange(0, i as int) =~= cv);
            if !held {
                Revoke::Done
            } else if others.len() > 0 {
                let mut m = String::from_str(path);
                m.append(" also carries ");
                m.append(join_strings(&others, ", ").as_str());
                m.append(
                    ", which pitchfork did not grant. Removing cap_net_bind_service here would clear those too, so it has been left alone.\nRemove it by hand with: sudo setcap ",
                );
                m.append(join_strings(&others, ",").as_str());
                m.append("=ep ");
                m.append(path);
                Revoke::Refuse(m)
            } else {
                let argv: Vec<String> = vec![String::from_str("setcap"), String::from_str("-r"), path.to_owned()];
                assert(views(argv@) =~= seq!["setcap"@, "-r"@, path@]);
                Revoke::Run(argv)
            }
        },
    }
}

} // verus!
