//! DNS-safe labels, and the hostname a daemon gets from them.

use vstd::prelude::*;
use crate::text::{chars_of, is_alnum, lower, lower_char, string_of};

verus! {

/// Maximum length of a single DNS label (RFC 1035).
pub const MAX_LABEL_LEN: usize = 63;

/// Every char of `s`: an ASCII letter or digit lowercased, anything else a
/// `-`, a run of them one `-`.
pub open spec fn dashed(s: Seq<char>) -> Seq<char>
    decreases s.len(),
{
    if s.len() == 0 {
        Seq::empty()
    } else {
        let o = dashed(s.drop_last());
        let c = s.last();
        if is_alnum(c) {
            o.push(lower(c))
        } else if o.len() > 0 && o.last() == '-' {
            o
        } else {
            o.push('-')
        }
    }
}

/// How many `-` start `s`.
pub open spec fn lead_dashes(s: Seq<char>) -> nat
    decreases s.len(),
{
    if s.len() > 0 && s[0] == '-' {
        1 + lead_dashes(s.drop_first())
    } else {
        0
    }
}

/// How many `-` end `s`.
pub open spec fn trail_dashes(s: Seq<char>) -> nat
    decreases s.len(),
{
    if s.len() > 0 && s.last() == '-' {
        1 + trail_dashes(s.drop_last())
    } else {
        0
    }
}

/// `s` without leading `-`.
pub open spec fn trim_start_dashes(s: Seq<char>) -> Seq<char> {
    s.subrange(lead_dashes(s) as int, s.len() as int)
}

/// `s` without trailing `-`.
pub open spec fn trim_end_dashes(s: Seq<char>) -> Seq<char> {
    s.subrange(0, s.len() - trail_dashes(s))
}

/// The DNS-safe label for `input`: [`dashed`], without `-` at either end,
/// cut to 63 chars (and any `-` the cut leaves at the end); `None` when
/// nothing is left.
pub open spec fn spec_sanitize_label(input: Seq<char>) -> Option<Seq<char>> {
    let t = trim_end_dashes(trim_start_dashes(dashed(input)));
    let u = if t.len() > MAX_LABEL_LEN {
        trim_end_dashes(t.subrange(0, MAX_LABEL_LEN as int))
    } else {
        t
    };
    if u.len() == 0 {
        None
    } else {
        Some(u)
    }
}

proof fn lemma_lead_dashes_bound(s: Seq<char>)
    ensures
        lead_dashes(s) <= s.len(),
    decreases s.len(),
{
    if s.len() > 0 && s[0] == '-' {
        lemma_lead_dashes_bound(s.drop_first());
    }
}

proof fn lemma_trail_dashes_bound(s: Seq<char>)
    ensures
        trail_dashes(s) <= s.len(),
    decreases s.len(),
{
    if s.len() > 0 && s.last() == '-' {
        lemma_trail_dashes_bound(s.drop_last());
    }
}

/// Where the `-` that start `v[from..to]` stop.
fn skip_lead_dashes(v: &Vec<char>, from: usize, to: usize) -> (k: usize)
    requires
        from <= to <= v@.len(),
    ensures
        from <= k <= to,
        k - from == lead_dashes(v@.subrange(from as int, to as int)),
{
    let mut k = from;
    while k < to && v[k] == '-'
        invariant
            from <= k <= to <= v@.len(),
            lead_dashes(v@.subrange(from as int, to as int)) == (k - from) + lead_dashes(
                v@.subrange(k as int, to as int),
            ),
        decreases to - k,
    {
        assert(v@.subrange(k as int, to as int).drop_first() =~= v@.subrange(k + 1, to as int));
        k += 1;
    }
    k
}

/// Where the `-` that end `v[from..to]` start.
fn skip_trail_dashes(v: &Vec<char>, from: usize, to: usize) -> (k: usize)
    requires
        from <= to <= v@.len(),
    ensures
        from <= k <= to,
        to - k == trail_dashes(v@.subrange(from as int, to as int)),
{
    let mut k = to;
    while k > from && v[k - 1] == '-'
        invariant
            from <= k <= to <= v@.len(),
            trail_dashes(v@.subrange(from as int, to as int)) == (to - k) + trail_dashes(
                v@.subrange(from as int, k as int),
            ),
        decreases k - from,
    {
        assert(v@.subrange(from as int, k as int).drop_last() =~= v@.subrange(from as int, k - 1));
        k -= 1;
    }
    k
}

/// Convert an arbitrary name into a DNS-safe lowercase label.
///
/// ASCII letters are lowercased, digits are kept, and every other character
/// becomes `-`. Runs of `-` collapse, leading and trailing `-` are trimmed
/// and the result is truncated to 63 characters. Returns `None` when nothing
/// usable is left, in which case the caller has no hostname to offer.
pub fn sanitize_label(input: &str) -> (r: Option<String>)
    ensures
        match r {
            Some(l) => spec_sanitize_label(input@) == Some(l@),
            None => spec_sanitize_label(input@) is None,
        },
{
    let cs = chars_of(input);
    let mut out: Vec<char> = Vec::new();
    let mut i: usize = 0;
    while i < cs.len()
        invariant
            i <= cs@.len(),
            out@ == dashed(cs@.subrange(0, i as int)),
        decreases cs.len() - i,
    {
        let c = cs[i];
        assert(cs@.subrange(0, i + 1).drop_last() =~= cs@.subrange(0, i as int));
        if ('0' <= c && c <= '9') || ('a' <= c && c <= 'z') || ('A' <= c && c <= 'Z') {
            out.push(lower_char(c));
        } else if out.len() > 0 && out[out.len() - 1] == '-' {
        } else {
            out.push('-');
        }
        i += 1;
    }
    assert(cs@.subrange(0, i as int) =~= input@);
    let n = out.len();
    let start = skip_lead_dashes(&out, 0, n);
    assert(out@.subrange(0, n as int) =~= out@);
    let end = skip_trail_dashes(&out, start, n);
    let ghost t = trim_end_dashes(trim_start_dashes(dashed(input@)));
    assert(t =~= out@.subrange(start as int, end as int));
    let stop = if end - start > MAX_LABEL_LEN {
        let cut = start + MAX_LABEL_LEN;
        let e = skip_trail_dashes(&out, start, cut);
        assert(t.subrange(0, MAX_LABEL_LEN as int) =~= out@.subrange(start as int, cut as int));
        assert(trim_end_dashes(t.subrange(0, MAX_LABEL_LEN as int)) =~= out@.subrange(start as int, e as int));
        e
    } else {
        end
    };
    if stop == start {
        return None;
    }
    let label = string_of(&out, start, stop);
    Some(label)
}

/// How a daemon opts in or out of a hostname.
#[derive(Clone, Debug, PartialEq, Eq)]
pub enum ProxyConfig {
    /// `proxy = true`: the daemon's name is its label.
    Enabled,
    /// `proxy = false`: no hostname.
    Disabled,
    /// `proxy = "name"`: this label instead of the daemon's name.
    Name(String),
}

pub open spec fn spec_daemon_label(name: Seq<char>, proxy: Option<ProxyConfig>) -> Option<Seq<char>> {
    match proxy {
        Some(ProxyConfig::Disabled) => None,
        Some(ProxyConfig::Name(l)) => spec_sanitize_label(l@),
        _ => spec_sanitize_label(name),
    }
}

pub open spec fn opt_proxy(o: Option<&ProxyConfig>) -> Option<ProxyConfig> {
    match o {
        Some(p) => Some(*p),
        None => None,
    }
}

/// The daemon label for a daemon config: its name, or the `proxy` override;
/// none when the daemon opted out.
pub fn daemon_label(name: &str, proxy: Option<&ProxyConfig>) -> (r: Option<String>)
    ensures
        match r {
            Some(l) => spec_daemon_label(name@, opt_proxy(proxy)) == Some(l@),
            None => spec_daemon_label(name@, opt_proxy(proxy)) is None,
        },
{
    match proxy {
        Some(ProxyConfig::Disabled) => None,
        Some(ProxyConfig::Name(l)) => sanitize_label(l.as_str()),
        _ => sanitize_label(name),
    }
}

/// The hostname (without TLD) a daemon's labels join to.
pub open spec fn spec_join_labels(daemon: Seq<char>, worktree: Option<Seq<char>>, project: Seq<char>) -> Seq<char> {
    match worktree {
        Some(wt) => daemon + "."@ + wt + "."@ + project,
        None => daemon + "."@ + project,
    }
}

pub open spec fn opt_str_view(o: Option<&str>) -> Option<Seq<char>> {
    match o {
        Some(s) => Some(s@),
        None => None,
    }
}

/// Join hostname labels left to right, omitting the worktree when absent.
pub fn join_labels(daemon: &str, worktree: Option<&str>, project: &str) -> (r: String)
    ensures
        r@ == spec_join_labels(daemon@, opt_str_view(worktree), project@),
{
    let mut r = daemon.to_owned();
    r.append(".");
    if let Some(wt) = worktree {
        r.append(wt);
        r.append(".");
    }
    r.append(project);
    r
}

/// The label of a name taken explicitly when there is one, from a
/// directory name otherwise.
pub open spec fn spec_label_of(explicit: Option<Seq<char>>, dir_name: Option<Seq<char>>) -> Option<Seq<char>> {
    match explicit {
        Some(n) => spec_sanitize_label(n),
        None => match dir_name {
            Some(d) => spec_sanitize_label(d),
            None => None,
        },
    }
}

fn label_of(explicit: Option<&str>, dir_name: Option<&str>) -> (r: Option<String>)
    ensures
        match r {
            Some(l) => spec_label_of(opt_str_view(explicit), opt_str_view(dir_name)) == Some(l@),
            None => spec_label_of(opt_str_view(explicit), opt_str_view(dir_name)) is None,
        },
{
    match explicit {
        Some(n) => sanitize_label(n),
        None => match dir_name {
            Some(d) => sanitize_label(d),
            None => None,
        },
    }
}

/// The project label for a primary checkout: the namespace the project
/// declares (`explicit`) when it declares one, otherwise the checkout
/// directory's name.
pub fn project_label(explicit: Option<&str>, dir_name: Option<&str>) -> (r: Option<String>)
    ensures
        match r {
            Some(l) => spec_label_of(opt_str_view(explicit), opt_str_view(dir_name)) == Some(l@),
            None => spec_label_of(opt_str_view(explicit), opt_str_view(dir_name)) is None,
        },
{
    label_of(explicit, dir_name)
}

/// The worktree label for a linked worktree: the `worktree_label` its own
/// configuration sets (`configured`), otherwise its directory name.
pub fn worktree_label(configured: Option<&str>, dir_name: Option<&str>) -> (r: Option<String>)
    ensures
        match r {
            Some(l) => spec_label_of(opt_str_view(configured), opt_str_view(dir_name)) == Some(l@),
            None => spec_label_of(opt_str_view(configured), opt_str_view(dir_name)) is None,
        },
{
    label_of(configured, dir_name)
}

/// The automatic hostname (without TLD) for a daemon: `None` when it has
/// no port, opted out, or a label is missing.
pub open spec fn spec_auto_host(
    name: Seq<char>,
    proxy: Option<ProxyConfig>,
    has_port: bool,
    project: Option<Seq<char>>,
    worktree: Option<Seq<char>>,
) -> Option<Seq<char>> {
    if !has_port {
        None
    } else {
        match (spec_daemon_label(name, proxy), project) {
            (Some(d), Some(p)) => Some(spec_join_labels(d, worktree, p)),
            _ => None,
        }
    }
}

/// The automatic hostname (without TLD) for a daemon, e.g. `api.fix-1.myproj`.
///
/// `has_port` says whether the daemon configures a port; `project` and
/// `worktree` are the labels of the checkout its configuration lives in
/// ([`project_label`], [`worktree_label`]). `None` when the daemon
/// configures no port, opted out with `proxy = false`, or no label could be
/// derived.
pub fn auto_host_for_daemon(
    name: &str,
    proxy: Option<&ProxyConfig>,
    has_port: bool,
    project: Option<&str>,
    worktree: Option<&str>,
) -> (r: Option<String>)
    ensures
        match r {
            Some(h) => spec_auto_host(name@, opt_proxy(proxy), has_port, opt_str_view(project), opt_str_view(worktree))
                == Some(h@),
            None => spec_auto_host(name@, opt_proxy(proxy), has_port, opt_str_view(project), opt_str_view(worktree)) is None,
        },
{
    if !has_port {
        return None;
    }
    let daemon = daemon_label(name, proxy)?;
    let project = project?;
    Some(join_labels(daemon.as_str(), worktree, project))
}

// ─── laws ───────────────────────────────────────────────────────────────────

proof fn lemma_dashed_plain(s: Seq<char>)
    ensures
        crate::hostname::registry::plain_label(dashed(s)),
    decreases s.len(),
{
    if s.len() > 0 {
        lemma_dashed_plain(s.drop_last());
        let o = dashed(s.drop_last());
        let c = s.last();
        if is_alnum(c) {
            if 'A' <= c && c <= 'Z' {
                assert(('a' <= lower(c) && lower(c) <= 'z'));
            }
            assert forall|i: int| 0 <= i < o.len() + 1 implies #[trigger] o.push(lower(c))[i] != '.' && !(
            'A' <= o.push(lower(c))[i] && o.push(lower(c))[i] <= 'Z') by {
                if i < o.len() {
                    assert(o.push(lower(c))[i] == o[i]);
                }
            }
        } else if o.len() > 0 && o.last() == '-' {
        } else {
            assert forall|i: int| 0 <= i < o.len() + 1 implies #[trigger] o.push('-')[i] != '.' && !('A' <= o.push(
                '-',
            )[i] && o.push('-')[i] <= 'Z') by {
                if i < o.len() {
                    assert(o.push('-')[i] == o[i]);
                }
            }
        }
    }
}

/// A sanitised label is a plain, non-empty hostname label of at most 63
/// chars: no dot, no uppercase letter. A hostname joined from such labels
/// therefore splits back into them.
pub proof fn law_sanitised_labels_are_plain(input: Seq<char>)
    ensures
        spec_sanitize_label(input) matches Some(l) ==> crate::hostname::registry::plain_label(l) && 0 < l.len()
            <= MAX_LABEL_LEN,
{
    lemma_dashed_plain(input);
    let d = dashed(input);
    lemma_lead_dashes_bound(d);
    let a = trim_start_dashes(d);
    lemma_trail_dashes_bound(a);
    let t = trim_end_dashes(a);
    assert forall|i: int| 0 <= i < t.len() implies #[trigger] t[i] != '.' && !('A' <= t[i] && t[i] <= 'Z') by {
        assert(t[i] == d[i + lead_dashes(d)]);
    }
    if t.len() > MAX_LABEL_LEN {
        let c = t.subrange(0, MAX_LABEL_LEN as int);
        lemma_trail_dashes_bound(c);
        let u = trim_end_dashes(c);
        assert forall|i: int| 0 <= i < u.len() implies #[trigger] u[i] != '.' && !('A' <= u[i] && u[i] <= 'Z') by {
            assert(u[i] == t[i]);
        }
    }
}

/// A char a sanitised label may hold: a digit, a lowercase ASCII letter or `-`.
pub open spec fn label_char(c: char) -> bool {
    ('0' <= c && c <= '9') || ('a' <= c && c <= 'z') || c == '-'
}

/// Only label chars, and never two `-` in a row.
pub open spec fn dash_runs_collapsed(s: Seq<char>) -> bool {
    &&& forall|i: int| 0 <= i < s.len() ==> label_char(#[trigger] s[i])
    &&& forall|i: int, j: int| 0 <= i && j == i + 1 && j < s.len() ==> !(#[trigger] s[i] == '-' && #[trigger] s[j] == '-')
}

/// What every sanitised label is: collapsed, not empty, no `-` at either end,
/// at most 63 chars.
pub open spec fn clean_label(s: Seq<char>) -> bool {
    &&& dash_runs_collapsed(s)
    &&& 0 < s.len() <= MAX_LABEL_LEN
    &&& s[0] != '-'
    &&& s.last() != '-'
}

proof fn lemma_dashed_collapsed(s: Seq<char>)
    ensures
        dash_runs_collapsed(dashed(s)),
    decreases s.len(),
{
    if s.len() > 0 {
        lemma_dashed_collapsed(s.drop_last());
        let o = dashed(s.drop_last());
        let c = s.last();
        let d = dashed(s);
        if is_alnum(c) {
            if 'A' <= c && c <= 'Z' {
                assert('a' <= lower(c) && lower(c) <= 'z');
            }
            assert(d == o.push(lower(c)));
        } else if o.len() > 0 && o.last() == '-' {
        } else {
            assert(d == o.push('-'));
        }
        assert forall|i: int| 0 <= i < d.len() implies label_char(#[trigger] d[i]) by {
            if i < o.len() {
                assert(d[i] == o[i]);
            }
        }
        assert forall|i: int, j: int| 0 <= i && j == i + 1 && j < d.len() implies !(#[trigger] d[i] == '-'
            && #[trigger] d[j] == '-') by {
            if j < o.len() {
                assert(d[i] == o[i] && d[j] == o[j]);
            } else {
                assert(d[i] == o[i]);
            }
        }
    }
}

proof fn lemma_collapsed_subrange(s: Seq<char>, a: int, b: int)
    requires
        dash_runs_collapsed(s),
        0 <= a <= b <= s.len(),
    ensures
        dash_runs_collapsed(s.subrange(a, b)),
{
    let t = s.subrange(a, b);
    assert forall|i: int| 0 <= i < t.len() implies label_char(#[trigger] t[i]) by {
        assert(t[i] == s[a + i]);
    }
    assert forall|i: int, j: int| 0 <= i && j == i + 1 && j < t.len() implies !(#[trigger] t[i] == '-'
        && #[trigger] t[j] == '-') by {
        assert(t[i] == s[a + i] && t[j] == s[a + j]);
    }
}

proof fn lemma_lead_dashes_stop(s: Seq<char>)
    ensures
        lead_dashes(s) <= s.len(),
        lead_dashes(s) < s.len() ==> s[lead_dashes(s) as int] != '-',
    decreases s.len(),
{
    if s.len() > 0 && s[0] == '-' {
        lemma_lead_dashes_stop(s.drop_first());
    }
}

proof fn lemma_trail_dashes_stop(s: Seq<char>)
    ensures
        trail_dashes(s) <= s.len(),
        trail_dashes(s) < s.len() ==> s[s.len() - trail_dashes(s) - 1] != '-',
    decreases s.len(),
{
    if s.len() > 0 && s.last() == '-' {
        lemma_trail_dashes_stop(s.drop_last());
    }
}

proof fn lemma_sanitised_label_clean(input: Seq<char>)
    ensures
        spec_sanitize_label(input) matches Some(l) ==> clean_label(l),
{
    let d = dashed(input);
    lemma_dashed_collapsed(input);
    lemma_lead_dashes_stop(d);
    let a = trim_start_dashes(d);
    lemma_collapsed_subrange(d, lead_dashes(d) as int, d.len() as int);
    lemma_trail_dashes_stop(a);
    let t = trim_end_dashes(a);
    lemma_collapsed_subrange(a, 0, a.len() - trail_dashes(a));
    if t.len() > 0 {
        assert(t[0] == a[0]);
        assert(a[0] == d[lead_dashes(d) as int]);
        assert(t.last() == a[a.len() - trail_dashes(a) - 1]);
    }
    if t.len() > MAX_LABEL_LEN {
        let c = t.subrange(0, MAX_LABEL_LEN as int);
        lemma_collapsed_subrange(t, 0, MAX_LABEL_LEN as int);
        lemma_trail_dashes_stop(c);
        let u = trim_end_dashes(c);
        lemma_collapsed_subrange(c, 0, c.len() - trail_dashes(c));
        if u.len() > 0 {
            assert(u[0] == t[0]);
            assert(u.last() == c[c.len() - trail_dashes(c) - 1]);
        }
    }
}

proof fn lemma_dashed_keeps_collapsed(s: Seq<char>)
    requires
        dash_runs_collapsed(s),
    ensures
        dashed(s) == s,
    decreases s.len(),
{
    if s.len() > 0 {
        let p = s.drop_last();
        lemma_collapsed_subrange(s, 0, s.len() - 1);
        assert(s.subrange(0, s.len() - 1) == p);
        lemma_dashed_keeps_collapsed(p);
        let c = s.last();
        assert(label_char(s[s.len() - 1]));
        if c == '-' && p.len() > 0 {
            assert(p.last() == s[s.len() - 2]);
            assert(!(s[s.len() - 2] == '-' && s[s.len() - 1] == '-'));
        }
        assert(dashed(s) =~= s);
    }
}

/// Sanitising is idempotent: a sanitised label sanitises to itself.
pub proof fn law_sanitised_labels_are_fixed_points(input: Seq<char>)
    ensures
        spec_sanitize_label(input) matches Some(l) ==> spec_sanitize_label(l) == Some(l),
{
    lemma_sanitised_label_clean(input);
    if let Some(l) = spec_sanitize_label(input) {
        lemma_dashed_keeps_collapsed(l);
        assert(lead_dashes(l) == 0);
        assert(trim_start_dashes(l) =~= l);
        assert(trail_dashes(l) == 0);
        assert(trim_end_dashes(l) =~= l);
    }
}

} // verus!
