//! The slug table: which configured slug a host names, which worktree a
//! wildcard prefix names, and the TLS route and daemon port that follow.
//!
//! The table and its per-slug sets and maps are vectors of pairs. A lookup
//! takes the first pair with the key; the table is built with each key once,
//! so that is the only one.

use vstd::prelude::*;
use crate::hostname::registry::opt_string;
use crate::names::{ascii_case_collisions, collides, eq_ignore_ascii_case, opt_view, vec_contains, views};
use crate::routing::text::{spec_strip_dot_suffix, spec_strip_tld, strip_dot_suffix_ignore_case, strip_tld};
use crate::text::{chars_of, eq_fold, lower_seq, str_eq, string_of, to_ascii_lowercase};

verus! {

/// How a hostname's TLS is handled.
#[derive(Clone, Copy, Debug, PartialEq, Eq, Structural)]
pub enum ProxyTlsMode {
    /// The proxy terminates TLS with its own certificate.
    Terminate,
    /// The proxy splices the connection through to the daemon, which
    /// speaks TLS itself.
    Passthrough,
}

impl ProxyTlsMode {
    pub fn is_passthrough(&self) -> (r: bool)
        ensures
            r == (*self == ProxyTlsMode::Passthrough),
    {
        match self {
            ProxyTlsMode::Passthrough => true,
            ProxyTlsMode::Terminate => false,
        }
    }
}

impl Default for ProxyTlsMode {
    /// Terminating is the default.
    fn default() -> (r: Self)
        ensures
            r == ProxyTlsMode::Terminate,
    {
        ProxyTlsMode::Terminate
    }
}

/// How a hostname's TLS is handled, and which daemon port it maps to.
#[derive(Clone, Copy, Debug, PartialEq, Eq, Structural)]
pub struct ProxyTlsRoute {
    /// `Terminate` (the default) or `Passthrough`.
    pub mode: ProxyTlsMode,
    /// The daemon port this hostname maps to; `None` means the first port.
    pub port: Option<u16>,
}

impl Default for ProxyTlsRoute {
    fn default() -> (r: Self)
        ensures
            r == (ProxyTlsRoute { mode: ProxyTlsMode::Terminate, port: None }),
    {
        ProxyTlsRoute { mode: ProxyTlsMode::Terminate, port: None }
    }
}

/// A worktree (git) or workspace (jj) of a slug's project.
#[derive(Clone, Debug)]
pub struct WorktreeEntry {
    /// The checkout's directory.
    pub path: String,
    /// The branch as named.
    pub branch: String,
    /// The branch reduced to a host label.
    pub sanitized_branch: String,
    /// The namespace of the checkout's config, when it could be derived.
    pub namespace: Option<String>,
}

/// A slug of the global config, resolved ahead of requests.
#[derive(Clone, Debug)]
pub struct CachedSlugEntry {
    /// The slug as registered in config.
    pub slug: String,
    /// The namespace of the slug's directory, when it could be derived.
    pub namespace: Option<String>,
    /// The daemon's short name.
    pub daemon_name: String,
    /// The project directory.
    pub dir: String,
    /// The worktrees discovered under the project directory.
    pub worktrees: Vec<WorktreeEntry>,
    /// Lowercased worktree prefixes that were discovered but are ambiguous,
    /// each once.
    pub rejected_worktree_prefixes: Vec<String>,
    /// The route of the slug's main checkout.
    pub tls: ProxyTlsRoute,
    /// Routes per worktree, keyed by lowercased sanitized branch.
    pub worktree_tls: Vec<(String, ProxyTlsRoute)>,
}

// ─── keyed lookups ──────────────────────────────────────────────────────────

/// Whether `i` is the first position of `e` keyed `k`.
pub open spec fn is_first_key<V>(e: Seq<(String, V)>, k: Seq<char>, i: int) -> bool {
    &&& 0 <= i < e.len()
    &&& e[i].0@ == k
    &&& forall|j: int| 0 <= j < i ==> (#[trigger] e[j]).0@ != k
}

/// The position of the first pair of `e` keyed `k`.
pub open spec fn key_index<V>(e: Seq<(String, V)>, k: Seq<char>) -> Option<int> {
    if exists|i: int| is_first_key(e, k, i) {
        Some(choose|i: int| is_first_key(e, k, i))
    } else {
        None
    }
}

/// Where a key occurs at all, a first position of it exists.
pub proof fn lemma_first_key_exists<V>(e: Seq<(String, V)>, k: Seq<char>, a: int)
    requires
        0 <= a < e.len(),
        e[a].0@ == k,
    ensures
        key_index(e, k) is Some,
    decreases a,
{
    if exists|j: int| 0 <= j < a && (#[trigger] e[j]).0@ == k {
        let j = choose|j: int| 0 <= j < a && (#[trigger] e[j]).0@ == k;
        lemma_first_key_exists(e, k, j);
    } else {
        assert(is_first_key(e, k, a));
    }
}

/// The route stored under `k`.
pub open spec fn route_for(m: Seq<(String, ProxyTlsRoute)>, k: Seq<char>) -> Option<ProxyTlsRoute> {
    match key_index(m, k) {
        Some(i) => Some(m[i].1),
        None => None,
    }
}

/// The position of the first pair keyed `k`.
pub fn find_key<V>(e: &Vec<(String, V)>, k: &str) -> (r: Option<usize>)
    ensures
        match r {
            Some(i) => key_index(e@, k@) == Some(i as int),
            None => key_index(e@, k@) is None,
        },
{
    let mut i: usize = 0;
    while i < e.len()
        invariant
            i <= e@.len(),
            forall|j: int| 0 <= j < i ==> (#[trigger] e@[j]).0@ != k@,
        decreases e@.len() - i,
    {
        if str_eq(e[i].0.as_str(), k) {
            assert(is_first_key(e@, k@, i as int));
            let ghost c = choose|c: int| is_first_key(e@, k@, c);
            assert(c == i) by {
                if c < i {
                    assert(e@[c].0@ != k@);
                }
                if c > i {
                    assert(e@[i as int].0@ != k@);
                }
            }
            return Some(i);
        }
        i += 1;
    }
    assert(!exists|c: int| is_first_key(e@, k@, c)) by {
        assert forall|c: int| !is_first_key(e@, k@, c) by {
            if 0 <= c < e@.len() {
                assert(e@[c].0@ != k@);
            }
        }
    }
    None
}

/// The route stored under `k`.
pub fn route_of(m: &Vec<(String, ProxyTlsRoute)>, k: &str) -> (r: Option<ProxyTlsRoute>)
    ensures
        r == route_for(m@, k@),
{
    match find_key(m, k) {
        Some(i) => Some(m[i].1),
        None => None,
    }
}

// ─── remembered routes ──────────────────────────────────────────────────────

/// Whether `known` is the checkout `wt`, its branch matched as `branch`.
pub open spec fn same_worktree(known: WorktreeEntry, wt: WorktreeEntry, branch: Seq<char>) -> bool {
    &&& eq_fold(known.sanitized_branch@, branch)
    &&& known.path@ == wt.path@
    &&& opt_string(known.namespace) == opt_string(wt.namespace)
}

/// Whether two optional names are the same.
fn same_opt(a: &Option<String>, b: Option<&str>) -> (r: bool)
    ensures
        r == (opt_string(*a) == opt_view(b)),
{
    match a {
        Some(x) => match b {
            Some(y) => str_eq(x.as_str(), y),
            None => false,
        },
        None => b.is_none(),
    }
}

impl CachedSlugEntry {
    pub open spec fn spec_known_route(self, dir: Seq<char>, namespace: Option<Seq<char>>, daemon_name: Seq<char>) -> Option<ProxyTlsRoute> {
        if self.dir@ == dir && opt_string(self.namespace) == namespace && self.daemon_name@ == daemon_name {
            Some(self.tls)
        } else {
            None
        }
    }

    pub open spec fn spec_known_worktree_route(self, wt: WorktreeEntry, daemon_name: Seq<char>) -> Option<ProxyTlsRoute> {
        let branch = lower_seq(wt.sanitized_branch@);
        if self.daemon_name@ != daemon_name {
            None
        } else if exists|i: int| 0 <= i < self.worktrees@.len() && same_worktree(#[trigger] self.worktrees@[i], wt, branch) {
            route_for(self.worktree_tls@, branch)
        } else {
            None
        }
    }

    /// The route this entry recorded for its main checkout, provided the slug
    /// still names the same daemon in the same directory and namespace. A slug
    /// repointed elsewhere does not carry the old daemon's route over.
    pub fn known_route(&self, dir: &str, namespace: Option<&str>, daemon_name: &str) -> (r: Option<ProxyTlsRoute>)
        ensures
            r == self.spec_known_route(dir@, opt_view(namespace), daemon_name@),
    {
        if str_eq(self.dir.as_str(), dir) && same_opt(&self.namespace, namespace) && str_eq(
            self.daemon_name.as_str(),
            daemon_name,
        ) {
            Some(self.tls)
        } else {
            None
        }
    }

    /// The route this entry recorded for a worktree, provided the same daemon
    /// was known there at the same path and namespace.
    pub fn known_worktree_route(&self, wt: &WorktreeEntry, daemon_name: &str) -> (r: Option<ProxyTlsRoute>)
        ensures
            r == self.spec_known_worktree_route(*wt, daemon_name@),
    {
        if !str_eq(self.daemon_name.as_str(), daemon_name) {
            return None;
        }
        let branch = to_ascii_lowercase(wt.sanitized_branch.as_str());
        let wt_ns: Option<&str> = match &wt.namespace {
            Some(s) => Some(s.as_str()),
            None => None,
        };
        assert(opt_view(wt_ns) == opt_string(wt.namespace));
        let mut i: usize = 0;
        while i < self.worktrees.len()
            invariant
                i <= self.worktrees@.len(),
                self.daemon_name@ == daemon_name@,
                branch@ == lower_seq(wt.sanitized_branch@),
                opt_view(wt_ns) == opt_string(wt.namespace),
                forall|j: int| 0 <= j < i ==> !same_worktree(#[trigger] self.worktrees@[j], *wt, branch@),
            decreases self.worktrees@.len() - i,
        {
            let known = &self.worktrees[i];
            if eq_ignore_ascii_case(known.sanitized_branch.as_str(), branch.as_str()) && str_eq(
                known.path.as_str(),
                wt.path.as_str(),
            ) && same_opt(&known.namespace, wt_ns) {
                assert(same_worktree(self.worktrees@[i as int], *wt, branch@));
                assert(exists|j: int| 0 <= j < self.worktrees@.len() && same_worktree(#[trigger] self.worktrees@[j], *wt, branch@));
                return route_of(&self.worktree_tls, branch.as_str());
            }
            i += 1;
        }
        None
    }
}

// ─── which slug a host names ────────────────────────────────────────────────

/// The first entry named by a suffix of `s` that follows a dot at or after
/// position `p`, the longest suffix first.
pub open spec fn suffix_match_from<V>(e: Seq<(String, V)>, s: Seq<char>, p: int) -> Option<int>
    decreases s.len() - p,
{
    if p < 0 || p >= s.len() {
        None
    } else if s[p] == '.' && key_index(e, s.subrange(p + 1, s.len() as int)) is Some {
        key_index(e, s.subrange(p + 1, s.len() as int))
    } else {
        suffix_match_from(e, s, p + 1)
    }
}

/// The entry a subdomain names: the entry keyed by the lowercased subdomain,
/// else, with `wildcard`, the entry keyed by its longest suffix after a dot.
pub open spec fn spec_wildcard_slug_lookup<V>(e: Seq<(String, V)>, subdomain: Seq<char>, wildcard: bool) -> Option<int> {
    let s = lower_seq(subdomain);
    match key_index(e, s) {
        Some(i) => Some(i),
        None => if wildcard {
            suffix_match_from(e, s, 0)
        } else {
            None
        },
    }
}

/// Look a subdomain up in a table keyed by lowercased slug.
///
/// With `wildcard`, falls back to progressively shorter suffixes when no
/// slug matches exactly: `tenant.myapp` matches slug `myapp` when no slug
/// `tenant.myapp` exists.
pub fn wildcard_slug_lookup<'a>(
    subdomain: &str,
    entries: &'a Vec<(String, CachedSlugEntry)>,
    wildcard: bool,
) -> (r: Option<&'a CachedSlugEntry>)
    ensures
        match spec_wildcard_slug_lookup(entries@, subdomain@, wildcard) {
            Some(i) => r matches Some(c) && *c == entries@[i].1,
            None => r is None,
        },
{
    let s = to_ascii_lowercase(subdomain);
    if let Some(i) = find_key(entries, s.as_str()) {
        return Some(&entries[i].1);
    }
    if !wildcard {
        return None;
    }
    let v = chars_of(s.as_str());
    let n = v.len();
    let mut p: usize = 0;
    while p < n
        invariant
            n == v@.len(),
            v@ == s@,
            s@ == lower_seq(subdomain@),
            wildcard,
            key_index(entries@, s@) is None,
            p <= n,
            suffix_match_from(entries@, s@, 0) == suffix_match_from(entries@, s@, p as int),
        decreases n - p,
    {
        if v[p] == '.' {
            let candidate = string_of(&v, p + 1, n);
            if let Some(i) = find_key(entries, candidate.as_str()) {
                return Some(&entries[i].1);
            }
        }
        p += 1;
    }
    None
}

// ─── which worktree a prefix names ──────────────────────────────────────────

/// Whether `i` is the first worktree whose branch is `prefix` ignoring case.
pub open spec fn is_first_worktree(w: Seq<WorktreeEntry>, prefix: Seq<char>, i: int) -> bool {
    &&& 0 <= i < w.len()
    &&& eq_fold(w[i].sanitized_branch@, prefix)
    &&& forall|j: int| 0 <= j < i ==> !eq_fold((#[trigger] w[j]).sanitized_branch@, prefix)
}

/// The first worktree whose branch is `prefix` ignoring case.
pub open spec fn worktree_index(w: Seq<WorktreeEntry>, prefix: Seq<char>) -> Option<int> {
    if exists|i: int| is_first_worktree(w, prefix, i) {
        Some(choose|i: int| is_first_worktree(w, prefix, i))
    } else {
        None
    }
}

/// What a wildcard subdomain prefix resolves to within a slug's worktrees.
#[derive(Debug)]
pub enum PrefixMatch<'a> {
    /// The prefix names exactly one discovered worktree.
    Worktree(&'a WorktreeEntry),
    /// The prefix names no worktree: an ordinary wildcard subdomain, served
    /// by the slug's main checkout.
    Unknown,
    /// The prefix names worktrees that were rejected as ambiguous; the
    /// request is refused rather than answered with the wrong content.
    Ambiguous,
}

/// Resolve a wildcard subdomain prefix against a slug's worktrees.
pub fn match_worktree_prefix<'a>(cached: &'a CachedSlugEntry, prefix: &str) -> (r: PrefixMatch<'a>)
    ensures
        match worktree_index(cached.worktrees@, prefix@) {
            Some(i) => r matches PrefixMatch::Worktree(w) && *w == cached.worktrees@[i],
            None => if views(cached.rejected_worktree_prefixes@).contains(lower_seq(prefix@)) {
                r is Ambiguous
            } else {
                r is Unknown
            },
        },
{
    let mut i: usize = 0;
    while i < cached.worktrees.len()
        invariant
            i <= cached.worktrees@.len(),
            forall|j: int| 0 <= j < i ==> !eq_fold((#[trigger] cached.worktrees@[j]).sanitized_branch@, prefix@),
        decreases cached.worktrees@.len() - i,
    {
        if eq_ignore_ascii_case(cached.worktrees[i].sanitized_branch.as_str(), prefix) {
            let ghost w = cached.worktrees@;
            assert(is_first_worktree(w, prefix@, i as int));
            let ghost c = choose|c: int| is_first_worktree(w, prefix@, c);
            assert(c == i) by {
                if c < i {
                    assert(!eq_fold(w[c].sanitized_branch@, prefix@));
                }
                if c > i {
                    assert(!eq_fold(w[i as int].sanitized_branch@, prefix@));
                }
            }
            return PrefixMatch::Worktree(&cached.worktrees[i]);
        }
        i += 1;
    }
    assert(!exists|c: int| is_first_worktree(cached.worktrees@, prefix@, c)) by {
        assert forall|c: int| !is_first_worktree(cached.worktrees@, prefix@, c) by {
            if 0 <= c < cached.worktrees@.len() {
                assert(!eq_fold(cached.worktrees@[c].sanitized_branch@, prefix@));
            }
        }
    }
    let folded = to_ascii_lowercase(prefix);
    if vec_contains(&cached.rejected_worktree_prefixes, &folded) {
        PrefixMatch::Ambiguous
    } else {
        PrefixMatch::Unknown
    }
}

/// The route of a worktree of `cached`: its own when its config describes
/// the daemon, else the slug's mode on the worktree daemon's first port.
pub open spec fn spec_worktree_route(cached: CachedSlugEntry, sanitized_branch: Seq<char>) -> ProxyTlsRoute {
    match route_for(cached.worktree_tls@, lower_seq(sanitized_branch)) {
        Some(r) => r,
        None => ProxyTlsRoute { mode: cached.tls.mode, port: None },
    }
}

/// The TLS route for a worktree of `cached`.
///
/// A worktree whose own config describes the daemon is authoritative. One the
/// proxy knows nothing about inherits the slug's mode but not its port: the
/// port names a position in another daemon's port list.
pub fn worktree_route(cached: &CachedSlugEntry, sanitized_branch: &str) -> (r: ProxyTlsRoute)
    ensures
        r == spec_worktree_route(*cached, sanitized_branch@),
{
    let key = to_ascii_lowercase(sanitized_branch);
    match route_of(&cached.worktree_tls, key.as_str()) {
        Some(r) => r,
        None => ProxyTlsRoute { mode: cached.tls.mode, port: None },
    }
}

// ─── ambiguous worktrees ────────────────────────────────────────────────────

/// The lowercased sanitized branches of `w`, in order.
pub open spec fn folded_branches(w: Seq<WorktreeEntry>) -> Seq<Seq<char>> {
    w.map_values(|e: WorktreeEntry| lower_seq(e.sanitized_branch@))
}

/// Whether a worktree's lowercased branch is none of `rejected`.
pub open spec fn unambiguous(rejected: Seq<Seq<char>>) -> spec_fn(WorktreeEntry) -> bool {
    |e: WorktreeEntry| !rejected.contains(lower_seq(e.sanitized_branch@))
}

/// The lowercased branches that two or more of `wts` share, each once.
fn branch_collisions(wts: &Vec<WorktreeEntry>) -> (r: Vec<String>)
    ensures
        forall|f: Seq<char>| views(r@).contains(f) <==> collides(folded_branches(wts@), f),
        views(r@).no_duplicates(),
{
    let mut keys: Vec<&str> = Vec::new();
    let mut i: usize = 0;
    while i < wts.len()
        invariant
            i <= wts@.len(),
            keys@.len() == i,
            forall|j: int| 0 <= j < i ==> (#[trigger] keys@[j])@ == wts@[j].sanitized_branch@,
        decreases wts@.len() - i,
    {
        keys.push(wts[i].sanitized_branch.as_str());
        i += 1;
    }
    assert(keys@.map_values(|k: &str| lower_seq(k@)) =~= folded_branches(wts@));
    ascii_case_collisions(keys.as_slice())
}

/// Drop every worktree whose sanitized branch is ambiguous under
/// case-insensitive host matching, keeping the unambiguous ones in order,
/// and return the ambiguous lowercased branches.
///
/// Both sides of a collision are dropped rather than one being picked:
/// routing a request to a worktree the user did not name is worse than not
/// routing it at all.
pub fn reject_case_colliding_worktrees(wts: Vec<WorktreeEntry>) -> (r: (Vec<WorktreeEntry>, Vec<String>))
    ensures
        forall|f: Seq<char>| views(r.1@).contains(f) <==> collides(folded_branches(wts@), f),
        views(r.1@).no_duplicates(),
        r.0@ == wts@.filter(unambiguous(views(r.1@))),
{
    let collisions = branch_collisions(&wts);
    let ghost all = wts@;
    let ghost pred = unambiguous(views(collisions@));
    let n = wts.len();
    let mut rest = wts;
    let mut kept: Vec<WorktreeEntry> = Vec::new();
    let mut k: usize = 0;
    assert(all.subrange(0, 0).filter(pred) =~= Seq::<WorktreeEntry>::empty()) by {
        reveal(Seq::filter);
    }
    assert(all.subrange(0, n as int) =~= all);
    while k < n
        invariant
            n == all.len(),
            k <= n,
            rest@ == all.subrange(k as int, n as int),
            kept@ == all.subrange(0, k as int).filter(pred),
            pred == unambiguous(views(collisions@)),
        decreases n - k,
    {
        assert(rest@.len() > 0);
        assert(rest@[0] == all[k as int]);
        let w = rest.remove(0);
        assert(rest@ =~= all.subrange(k + 1, n as int));
        let folded = to_ascii_lowercase(w.sanitized_branch.as_str());
        let ambiguous = vec_contains(&collisions, &folded);
        proof {
            reveal(Seq::filter);
            assert(all.subrange(0, k + 1).drop_last() =~= all.subrange(0, k as int));
            assert(all.subrange(0, k + 1).last() == w);
            assert(pred(w) == !ambiguous);
        }
        if !ambiguous {
            kept.push(w);
        }
        k += 1;
    }
    (kept, collisions)
}

// ─── the TLS mode a host gets ───────────────────────────────────────────────

/// The mode of the worktree a wildcard host names within `cached`, when it
/// names one.
pub open spec fn worktree_mode(cached: CachedSlugEntry, subdomain: Seq<char>) -> Option<ProxyTlsMode> {
    if eq_fold(subdomain, cached.slug@) {
        None
    } else {
        match spec_strip_dot_suffix(subdomain, cached.slug@) {
            Some(prefix) => match worktree_index(cached.worktrees@, prefix) {
                Some(w) => Some(spec_worktree_route(cached, cached.worktrees@[w].sanitized_branch@).mode),
                None => None,
            },
            None => None,
        }
    }
}

/// The TLS mode of `host`: the mode of the slug it names, or of the
/// worktree its wildcard prefix names; `Terminate` for a host outside the
/// TLD or naming no slug.
pub open spec fn spec_resolve_tls_mode_in(
    host: Seq<char>,
    tld: Seq<char>,
    entries: Seq<(String, CachedSlugEntry)>,
    wildcard: bool,
) -> ProxyTlsMode {
    match spec_strip_tld(host, tld) {
        None => ProxyTlsMode::Terminate,
        Some(sub) => match spec_wildcard_slug_lookup(entries, sub, wildcard) {
            None => ProxyTlsMode::Terminate,
            Some(i) => match worktree_mode(entries[i].1, sub) {
                Some(m) => m,
                None => entries[i].1.tls.mode,
            },
        },
    }
}

/// How `host`'s TLS is handled, decided from the slug table alone.
///
/// Used by the certificate resolver, which has to know whether a hostname is
/// passthrough before it issues a certificate for it.
pub fn resolve_tls_mode_in(
    host: &str,
    tld: &str,
    entries: &Vec<(String, CachedSlugEntry)>,
    wildcard: bool,
) -> (r: ProxyTlsMode)
    ensures
        r == spec_resolve_tls_mode_in(host@, tld@, entries@, wildcard),
{
    let subdomain = match strip_tld(host, tld) {
        Some(s) => s,
        None => return ProxyTlsMode::Terminate,
    };
    let cached = match wildcard_slug_lookup(subdomain.as_str(), entries, wildcard) {
        Some(c) => c,
        None => return ProxyTlsMode::Terminate,
    };
    if !eq_ignore_ascii_case(subdomain.as_str(), cached.slug.as_str()) {
        if let Some(prefix) = strip_dot_suffix_ignore_case(subdomain.as_str(), cached.slug.as_str()) {
            if let PrefixMatch::Worktree(wt) = match_worktree_prefix(cached, prefix.as_str()) {
                return worktree_route(cached, wt.sanitized_branch.as_str()).mode;
            }
        }
    }
    cached.tls.mode
}

/// A route read from config, or `known` when the config could not be read.
///
/// A readable answer replaces what was known, even when it is silence; an
/// unreadable one keeps the last known route rather than downgrading a
/// passthrough daemon to a terminated one.
pub fn route_or_last_known(
    read: Result<Option<ProxyTlsRoute>, String>,
    known: Option<ProxyTlsRoute>,
) -> (r: Option<ProxyTlsRoute>)
    ensures
        r == match read {
            Ok(x) => x,
            Err(_) => known,
        },
{
    match read {
        Ok(x) => x,
        Err(_) => known,
    }
}

// ─── laws ───────────────────────────────────────────────────────────────────

/// Host names are case-insensitive: two spellings of a subdomain that differ
/// only in ASCII case name the same slug.
pub proof fn law_lookup_ignores_case<V>(e: Seq<(String, V)>, a: Seq<char>, b: Seq<char>, wildcard: bool)
    requires
        eq_fold(a, b),
    ensures
        spec_wildcard_slug_lookup(e, a, wildcard) == spec_wildcard_slug_lookup(e, b, wildcard),
{
    assert(lower_seq(a) =~= lower_seq(b)) by {
        assert forall|i: int| 0 <= i < lower_seq(a).len() implies lower_seq(a)[i] == lower_seq(b)[i] by {
            assert(crate::text::lower(a[i]) == crate::text::lower(b[i]));
        }
    }
}

/// A slug registered under the exact subdomain wins over any shorter slug
/// a wildcard fallback would reach, and without wildcards nothing but the
/// exact slug is reached.
pub proof fn law_exact_beats_wildcard<V>(e: Seq<(String, V)>, subdomain: Seq<char>, wildcard: bool)
    ensures
        key_index(e, lower_seq(subdomain)) is Some ==> spec_wildcard_slug_lookup(e, subdomain, wildcard)
            == key_index(e, lower_seq(subdomain)),
        !wildcard ==> spec_wildcard_slug_lookup(e, subdomain, wildcard) == key_index(e, lower_seq(subdomain)),
{
}

/// Any element of a filtered sequence is an element of the sequence.
proof fn lemma_filter_one<A>(s: Seq<A>, p: spec_fn(A) -> bool, a: int)
    requires
        0 <= a < s.filter(p).len(),
    ensures
        exists|i: int| 0 <= i < s.len() && s[i] == s.filter(p)[a],
    decreases s.len(),
{
    reveal(Seq::filter);
    let t = s.drop_last();
    t.lemma_filter_len(p);
    if p(s.last()) && a == t.filter(p).len() {
        assert(s[s.len() - 1] == s.filter(p)[a]);
    } else {
        lemma_filter_one(t, p, a);
        let i = choose|i: int| 0 <= i < t.len() && t[i] == t.filter(p)[a];
        assert(s[i] == s.filter(p)[a]);
    }
}

/// Two positions of a filtered sequence come from two positions of the
/// sequence, in the same order.
proof fn lemma_filter_two<A>(s: Seq<A>, p: spec_fn(A) -> bool, a: int, b: int)
    requires
        0 <= a < b < s.filter(p).len(),
    ensures
        exists|i: int, j: int| 0 <= i < j < s.len() && s[i] == s.filter(p)[a] && s[j] == s.filter(p)[b],
    decreases s.len(),
{
    reveal(Seq::filter);
    let t = s.drop_last();
    t.lemma_filter_len(p);
    if p(s.last()) && b == t.filter(p).len() {
        lemma_filter_one(t, p, a);
        let i = choose|i: int| 0 <= i < t.len() && t[i] == t.filter(p)[a];
        assert(s[i] == s.filter(p)[a] && s[s.len() - 1] == s.filter(p)[b]);
    } else {
        lemma_filter_two(t, p, a, b);
        let (i, j) = choose|i: int, j: int| 0 <= i < j < t.len() && t[i] == t.filter(p)[a] && t[j] == t.filter(p)[b];
        assert(s[i] == s.filter(p)[a] && s[j] == s.filter(p)[b]);
    }
}

/// After ambiguous worktrees are rejected, no two kept worktrees share a
/// branch under case-insensitive matching and none is a rejected prefix,
/// while every worktree whose branch no other shares is kept.
pub proof fn law_kept_worktrees_are_unambiguous(
    wts: Seq<WorktreeEntry>,
    kept: Seq<WorktreeEntry>,
    rejected: Seq<Seq<char>>,
)
    requires
        forall|f: Seq<char>| rejected.contains(f) <==> collides(folded_branches(wts), f),
        kept == wts.filter(unambiguous(rejected)),
    ensures
        forall|a: int, b: int|
            0 <= a < b < kept.len() ==> lower_seq((#[trigger] kept[a]).sanitized_branch@) != lower_seq(
                (#[trigger] kept[b]).sanitized_branch@,
            ),
        forall|a: int| 0 <= a < kept.len() ==> !rejected.contains(lower_seq((#[trigger] kept[a]).sanitized_branch@)),
        forall|i: int|
            0 <= i < wts.len() && !collides(folded_branches(wts), #[trigger] folded_branches(wts)[i]) ==> kept.contains(
                wts[i],
            ),
{
    let p = unambiguous(rejected);
    assert forall|a: int| 0 <= a < kept.len() implies !rejected.contains(
        lower_seq((#[trigger] kept[a]).sanitized_branch@),
    ) by {
        wts.lemma_filter_pred(p, a);
    }
    assert forall|a: int, b: int| 0 <= a < b < kept.len() implies lower_seq(
        (#[trigger] kept[a]).sanitized_branch@,
    ) != lower_seq((#[trigger] kept[b]).sanitized_branch@) by {
        let f = lower_seq(kept[a].sanitized_branch@);
        if f == lower_seq(kept[b].sanitized_branch@) {
            lemma_filter_two(wts, p, a, b);
            let (i, j) = choose|i: int, j: int| 0 <= i < j < wts.len() && wts[i] == kept[a] && wts[j] == kept[b];
            assert(folded_branches(wts)[i] == f && folded_branches(wts)[j] == f);
            assert(collides(folded_branches(wts), f));
            wts.lemma_filter_pred(p, a);
        }
    }
    assert forall|i: int|
        0 <= i < wts.len() && !collides(folded_branches(wts), #[trigger] folded_branches(wts)[i]) implies kept.contains(
        wts[i],
    ) by {
        assert(!rejected.contains(lower_seq(wts[i].sanitized_branch@)));
        wts.lemma_filter_contains(p, i);
    }
}

} // verus!
