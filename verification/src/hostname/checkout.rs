//! Where a directory sits in a git repository, read from a `.git` file:
//! the `gitdir:` pointer of a linked worktree, and the primary checkout it
//! leads back to. Paths are Unix paths, compared by their normalised text.

use vstd::prelude::*;
use crate::hostname::registry::{opt_string, Checkout};
use crate::names::views;
use crate::setup::model::path_join;
use crate::setup::parts::join_path;
use crate::split::{lines, lines_of, split_chars, split_on, trim, trim_text, views_of, Sep};
use crate::text::{chars_of, has_prefix, starts_with, str_eq, string_of};

verus! {

// ─── normalised paths ───────────────────────────────────────────────────────

/// The components that survive normalisation: empty ones and `.` dropped,
/// `..` removing the component before it (nothing, at the start).
pub open spec fn norm_parts(parts: Seq<Seq<char>>) -> Seq<Seq<char>>
    decreases parts.len(),
{
    if parts.len() == 0 {
        Seq::empty()
    } else {
        let r = norm_parts(parts.drop_last());
        let p = parts.last();
        if p.len() == 0 || p == "."@ {
            r
        } else if p == ".."@ {
            if r.len() > 0 {
                r.drop_last()
            } else {
                r
            }
        } else {
            r.push(p)
        }
    }
}

/// The normalised components of a path.
pub open spec fn path_parts(path: Seq<char>) -> Seq<Seq<char>> {
    norm_parts(split_on(path, Sep::Slash))
}

/// Whether a path starts at the root.
pub open spec fn is_absolute(path: Seq<char>) -> bool {
    path.len() > 0 && path[0] == '/'
}

/// Components joined with `/`.
pub open spec fn join_parts(parts: Seq<Seq<char>>) -> Seq<char>
    decreases parts.len(),
{
    if parts.len() == 0 {
        Seq::empty()
    } else if parts.len() == 1 {
        parts[0]
    } else {
        join_parts(parts.drop_last()) + "/"@ + parts.last()
    }
}

/// A path spelled from its components.
pub open spec fn render(absolute: bool, parts: Seq<Seq<char>>) -> Seq<char> {
    (if absolute {
        "/"@
    } else {
        Seq::empty()
    }) + join_parts(parts)
}

/// A path with `.` and `..` resolved without touching the filesystem, so
/// the result is stable for directories git has already removed.
pub open spec fn spec_normalize(path: Seq<char>) -> Seq<char> {
    render(is_absolute(path), path_parts(path))
}

/// Whether `p` holds exactly `lit`, a literal of one or two dots.
fn is_dots(p: &Vec<char>, n: usize) -> (r: bool)
    requires
        n == 1 || n == 2,
    ensures
        n == 1 ==> r == (p@ == "."@),
        n == 2 ==> r == (p@ == ".."@),
{
    proof {
        reveal_strlit(".");
        reveal_strlit("..");
    }
    if p.len() != n {
        return false;
    }
    let r = p[0] == '.' && (n == 1 || p[1] == '.');
    assert(n == 1 ==> (r <==> p@ =~= "."@));
    assert(n == 2 ==> (r <==> p@ =~= ".."@));
    r
}

/// A copy of `v`.
fn copy_chars(v: &Vec<char>) -> (r: Vec<char>)
    ensures
        r@ == v@,
{
    let mut r: Vec<char> = Vec::new();
    let mut i: usize = 0;
    while i < v.len()
        invariant
            i <= v@.len(),
            r@ == v@.subrange(0, i as int),
        decreases v@.len() - i,
    {
        r.push(v[i]);
        i += 1;
        assert(r@ =~= v@.subrange(0, i as int));
    }
    assert(v@.subrange(0, v@.len() as int) =~= v@);
    r
}

/// The normalised components of the pieces of a path.
fn norm_parts_of(pieces: &Vec<Vec<char>>) -> (r: Vec<Vec<char>>)
    ensures
        views_of(r@) == norm_parts(views_of(pieces@)),
{
    let ghost all = views_of(pieces@);
    let mut r: Vec<Vec<char>> = Vec::new();
    let mut i: usize = 0;
    while i < pieces.len()
        invariant
            i <= pieces@.len(),
            all == views_of(pieces@),
            views_of(r@) == norm_parts(all.subrange(0, i as int)),
        decreases pieces@.len() - i,
    {
        assert(all.subrange(0, i + 1).drop_last() =~= all.subrange(0, i as int));
        assert(all.subrange(0, i + 1).last() == pieces@[i as int]@);
        let p = &pieces[i];
        let ghost before = views_of(r@);
        if p.len() == 0 || is_dots(p, 1) {
        } else if is_dots(p, 2) {
            if r.len() > 0 {
                let _ = r.pop();
                assert(views_of(r@) =~= before.drop_last());
            }
        } else {
            r.push(copy_chars(p));
            assert(views_of(r@) =~= before.push(p@));
        }
        i += 1;
    }
    assert(all.subrange(0, i as int) =~= all);
    r
}

/// A path spelled from its first `n` components.
fn render_of(absolute: bool, parts: &Vec<Vec<char>>, n: usize) -> (r: String)
    requires
        n <= parts@.len(),
    ensures
        r@ == render(absolute, views_of(parts@).subrange(0, n as int)),
{
    let ghost all = views_of(parts@);
    let mut r = if absolute {
        String::from_str("/")
    } else {
        String::new()
    };
    let ghost head = r@;
    let mut i: usize = 0;
    while i < n
        invariant
            i <= n <= parts@.len(),
            all == views_of(parts@),
            head == (if absolute {
                "/"@
            } else {
                Seq::<char>::empty()
            }),
            r@ == head + join_parts(all.subrange(0, i as int)),
        decreases n - i,
    {
        let ghost next = all.subrange(0, i + 1);
        assert(next.drop_last() =~= all.subrange(0, i as int));
        let ghost before = r@;
        if i > 0 {
            r.append("/");
        }
        let piece = string_of(&parts[i], 0, parts[i].len());
        assert(parts@[i as int]@.subrange(0, parts@[i as int]@.len() as int) =~= parts@[i as int]@);
        r.append(piece.as_str());
        i += 1;
        if i == 1 {
            assert(next.len() == 1);
            assert(r@ =~= head + join_parts(next));
        } else {
            assert(r@ =~= head + join_parts(next));
        }
    }
    r
}

/// A path with `.` and `..` resolved lexically.
pub fn normalize_path(path: &str) -> (r: String)
    ensures
        r@ == spec_normalize(path@),
{
    let v = chars_of(path);
    let absolute = v.len() > 0 && v[0] == '/';
    let pieces = split_chars(&v, Sep::Slash);
    let parts = norm_parts_of(&pieces);
    assert(views_of(parts@).subrange(0, parts@.len() as int) =~= views_of(parts@));
    render_of(absolute, &parts, parts.len())
}

// ─── the `.git` file of a linked worktree ───────────────────────────────────

/// The target of the first line whose trimmed text starts with `gitdir:`,
/// trimmed.
pub open spec fn gitdir_target(ls: Seq<Seq<char>>) -> Option<Seq<char>>
    decreases ls.len(),
{
    if ls.len() == 0 {
        None
    } else if starts_with(trim(ls[0]), "gitdir:"@) {
        Some(trim(trim(ls[0]).subrange(7, trim(ls[0]).len() as int)))
    } else {
        gitdir_target(ls.drop_first())
    }
}

/// The administrative directory a linked worktree's `.git` file in `dir`
/// points to, resolved against `dir` when relative and normalised; `None`
/// when there is no `gitdir:` line or it names nothing.
pub open spec fn spec_gitdir_pointer(dir: Seq<char>, content: Seq<char>) -> Option<Seq<char>> {
    match gitdir_target(lines(content)) {
        Some(t) => if t.len() == 0 {
            None
        } else {
            Some(spec_normalize(path_join(dir, t)))
        },
        None => None,
    }
}

/// The primary checkout a linked worktree's `.git` file in `dir` leads to:
/// its pointer names `<common>/worktrees/<name>`, and the primary checkout
/// is the parent of `<common>`. Anything else (a submodule's pointer into
/// `.git/modules`, say) is not a linked worktree.
pub open spec fn spec_linked_primary(dir: Seq<char>, content: Seq<char>) -> Option<Seq<char>> {
    match gitdir_target(lines(content)) {
        Some(t) => if t.len() == 0 {
            None
        } else {
            let p = path_join(dir, t);
            let cs = path_parts(p);
            if cs.len() >= 3 && cs[cs.len() - 2] == "worktrees"@ {
                Some(render(is_absolute(p), cs.subrange(0, cs.len() - 3)))
            } else {
                None
            }
        },
        None => None,
    }
}

/// The `gitdir:` target in a `.git` file's contents.
fn gitdir_target_of(content: &str) -> (r: Option<String>)
    ensures
        match r {
            Some(t) => gitdir_target(lines(content@)) == Some(t@),
            None => gitdir_target(lines(content@)) is None,
        },
{
    let v = chars_of(content);
    let ls = lines_of(&v);
    let ghost all = lines(content@);
    let mut i: usize = 0;
    assert(all.subrange(0, all.len() as int) =~= all);
    proof {
        reveal_strlit("gitdir:");
    }
    while i < ls.len()
        invariant
            views_of(ls@) == all,
            all == lines(content@),
            i <= ls@.len(),
            gitdir_target(all) == gitdir_target(all.subrange(i as int, all.len() as int)),
            "gitdir:"@.len() == 7,
        decreases ls@.len() - i,
    {
        let n = ls[i].len();
        let line = string_of(&ls[i], 0, n);
        assert(ls@[i as int]@.subrange(0, n as int) =~= ls@[i as int]@);
        assert(all.subrange(i as int, all.len() as int)[0] == line@);
        let t = trim_text(line.as_str());
        if has_prefix(t.as_str(), "gitdir:") {
            let tv = chars_of(t.as_str());
            let rest = string_of(&tv, 7, tv.len());
            return Some(trim_text(rest.as_str()));
        }
        assert(all.subrange(i as int, all.len() as int).drop_first() =~= all.subrange(i + 1, all.len() as int));
        i += 1;
    }
    None
}

/// The administrative directory a linked worktree's `.git` file points to.
pub fn gitdir_pointer(dir: &str, content: &str) -> (r: Option<String>)
    ensures
        match r {
            Some(p) => spec_gitdir_pointer(dir@, content@) == Some(p@),
            None => spec_gitdir_pointer(dir@, content@) is None,
        },
{
    let t = match gitdir_target_of(content) {
        Some(t) => t,
        None => return None,
    };
    if t.as_str().is_empty() {
        return None;
    }
    let joined = join_path(dir, t.as_str());
    Some(normalize_path(joined.as_str()))
}

/// The primary checkout a linked worktree's `.git` file leads to.
pub fn linked_primary(dir: &str, content: &str) -> (r: Option<String>)
    ensures
        match r {
            Some(p) => spec_linked_primary(dir@, content@) == Some(p@),
            None => spec_linked_primary(dir@, content@) is None,
        },
{
    let t = match gitdir_target_of(content) {
        Some(t) => t,
        None => return None,
    };
    if t.as_str().is_empty() {
        return None;
    }
    let joined = join_path(dir, t.as_str());
    let v = chars_of(joined.as_str());
    let absolute = v.len() > 0 && v[0] == '/';
    let pieces = split_chars(&v, Sep::Slash);
    let parts = norm_parts_of(&pieces);
    let n = parts.len();
    if n < 3 {
        return None;
    }
    let name = string_of(&parts[n - 2], 0, parts[n - 2].len());
    assert(parts@[n - 2]@.subrange(0, parts@[n - 2]@.len() as int) =~= parts@[n - 2]@);
    if !str_eq(name.as_str(), "worktrees") {
        return None;
    }
    Some(render_of(absolute, &parts, n - 3))
}

/// Where `current`, a directory holding a `.git` file with `content`
/// (`None` when it could not be read), sits: a linked worktree of the
/// primary checkout its pointer leads to, or its own primary checkout when
/// the file is no linked worktree's, or leads back to itself.
pub open spec fn spec_checkout_at_git_file(current: Seq<char>, content: Option<Seq<char>>) -> (Seq<char>, Option<Seq<char>>) {
    let primary = match content {
        Some(c) => spec_linked_primary(current, c),
        None => None,
    };
    match primary {
        Some(p) => if p != current {
            (p, Some(current))
        } else {
            (current, None)
        },
        None => (current, None),
    }
}

/// Where a directory holding a `.git` file sits.
pub fn checkout_at_git_file(current: &str, content: Option<&str>) -> (r: Checkout)
    ensures
        (r.primary@, opt_string(r.worktree)) == spec_checkout_at_git_file(current@, crate::names::opt_view(content)),
{
    let primary = match content {
        Some(c) => linked_primary(current, c),
        None => None,
    };
    match primary {
        Some(p) => if !str_eq(p.as_str(), current) {
            Checkout { primary: p, worktree: Some(current.to_owned()) }
        } else {
            Checkout { primary: current.to_owned(), worktree: None }
        },
        None => Checkout { primary: current.to_owned(), worktree: None },
    }
}

// ─── candidate directories ──────────────────────────────────────────────────

/// `s` with every repeat of an earlier element left out.
pub open spec fn first_occurrences(s: Seq<Seq<char>>) -> Seq<Seq<char>>
    decreases s.len(),
{
    if s.len() == 0 {
        Seq::empty()
    } else {
        let r = first_occurrences(s.drop_last());
        if r.contains(s.last()) {
            r
        } else {
            r.push(s.last())
        }
    }
}

/// The distinct primary checkouts among `paths`, in the order first seen.
pub fn distinct_paths(paths: &Vec<String>) -> (r: Vec<String>)
    ensures
        views(r@) == first_occurrences(views(paths@)),
{
    let ghost all = views(paths@);
    let mut r: Vec<String> = Vec::new();
    let mut i: usize = 0;
    while i < paths.len()
        invariant
            i <= paths@.len(),
            all == views(paths@),
            views(r@) == first_occurrences(all.subrange(0, i as int)),
        decreases paths@.len() - i,
    {
        assert(all.subrange(0, i + 1).drop_last() =~= all.subrange(0, i as int));
        assert(all.subrange(0, i + 1).last() == paths@[i as int]@);
        let ghost before = views(r@);
        if !crate::names::vec_contains(&r, &paths[i]) {
            r.push(paths[i].as_str().to_owned());
            assert(views(r@) =~= before.push(paths@[i as int]@));
        }
        i += 1;
    }
    assert(all.subrange(0, i as int) =~= all);
    r
}

} // verus!
