//! Building the slug table from what was read about each configured slug.
//!
//! Reading the configs, discovering worktrees and deriving namespaces is
//! done by the caller; what goes into the table, under which key, and which
//! route survives a config that cannot be read is decided here.

use vstd::prelude::*;
use crate::hostname::registry::opt_string;
use crate::names::{ascii_case_collisions, collides, opt_view, vec_contains, views};
use crate::routing::slugs::{key_index, CachedSlugEntry, ProxyTlsMode, ProxyTlsRoute, WorktreeEntry};
use crate::text::{lower_seq, to_ascii_lowercase};

verus! {

/// What was read about one configured slug.
pub struct SlugSource {
    /// The slug as configured.
    pub slug: String,
    /// The namespace of its directory, when it could be derived.
    pub namespace: Option<String>,
    /// The daemon it names, when it names one other than itself.
    pub daemon: Option<String>,
    /// Its project directory, when it could be resolved.
    pub dir: Option<String>,
    /// Its worktrees, ambiguous ones already rejected.
    pub worktrees: Vec<WorktreeEntry>,
    /// The lowercased prefixes of the rejected worktrees.
    pub rejected_worktree_prefixes: Vec<String>,
    /// The route read from the slug's directory: `Ok(None)` when its config
    /// says nothing of the daemon, `Err` when it could not be read.
    pub read: Result<Option<ProxyTlsRoute>, String>,
    /// The route read from each worktree's directory, in the same order.
    pub worktree_reads: Vec<Result<Option<ProxyTlsRoute>, String>>,
}

/// A read route, or `known` when the config could not be read.
pub open spec fn read_or(read: Result<Option<ProxyTlsRoute>, String>, known: Option<ProxyTlsRoute>) -> Option<
    ProxyTlsRoute,
> {
    match read {
        Ok(x) => x,
        Err(_) => known,
    }
}

/// The entry the previous table kept under `key`.
pub open spec fn previous_entry(previous: Seq<(String, CachedSlugEntry)>, key: Seq<char>) -> Option<CachedSlugEntry> {
    match key_index(previous, key) {
        Some(i) => Some(previous[i].1),
        None => None,
    }
}

/// The worktree routes of the first `n` worktrees: one per worktree whose
/// config describes the daemon, or did last time and cannot be read now,
/// keyed by its lowercased branch; the rest inherit the slug's route when
/// looked up.
pub open spec fn worktree_routes(
    wts: Seq<WorktreeEntry>,
    reads: Seq<Result<Option<ProxyTlsRoute>, String>>,
    prev: Option<CachedSlugEntry>,
    daemon_name: Seq<char>,
    n: nat,
) -> Seq<(Seq<char>, ProxyTlsRoute)>
    decreases n,
{
    if n == 0 {
        Seq::empty()
    } else {
        let rest = worktree_routes(wts, reads, prev, daemon_name, (n - 1) as nat);
        let wt = wts[n - 1];
        let known = match prev {
            Some(p) => p.spec_known_worktree_route(wt, daemon_name),
            None => None,
        };
        match read_or(reads[n - 1], known) {
            Some(r) => rest.push((lower_seq(wt.sanitized_branch@), r)),
            None => rest,
        }
    }
}

/// A slug entry as text.
pub struct EntryV {
    pub slug: Seq<char>,
    pub namespace: Option<Seq<char>>,
    pub daemon_name: Seq<char>,
    pub dir: Seq<char>,
    pub worktrees: Seq<WorktreeEntry>,
    pub rejected_worktree_prefixes: Seq<Seq<char>>,
    pub tls: ProxyTlsRoute,
    pub worktree_tls: Seq<(Seq<char>, ProxyTlsRoute)>,
}

/// The views of routes keyed by text.
pub open spec fn route_views(v: Seq<(String, ProxyTlsRoute)>) -> Seq<(Seq<char>, ProxyTlsRoute)> {
    v.map_values(|p: (String, ProxyTlsRoute)| (p.0@, p.1))
}

/// An entry as text.
pub open spec fn entry_v(e: CachedSlugEntry) -> EntryV {
    EntryV {
        slug: e.slug@,
        namespace: opt_string(e.namespace),
        daemon_name: e.daemon_name@,
        dir: e.dir@,
        worktrees: e.worktrees@,
        rejected_worktree_prefixes: views(e.rejected_worktree_prefixes@),
        tls: e.tls,
        worktree_tls: route_views(e.worktree_tls@),
    }
}

/// The key and entry a slug gets: keyed by the lowercased slug; the daemon
/// it names, or one named like it; its directory, or none; its own route
/// when its config can be read (the default when it says nothing), else the
/// route the previous table recorded for the same daemon, directory and
/// namespace, which keeps a config error from quietly ending a splice.
pub open spec fn spec_slug_entry(src: SlugSource, previous: Seq<(String, CachedSlugEntry)>) -> (Seq<char>, EntryV) {
    let key = lower_seq(src.slug@);
    let daemon_name = match opt_string(src.daemon) {
        Some(d) => d,
        None => src.slug@,
    };
    let dir = match opt_string(src.dir) {
        Some(d) => d,
        None => Seq::empty(),
    };
    let prev = previous_entry(previous, key);
    let known = match prev {
        Some(p) => p.spec_known_route(dir, opt_string(src.namespace), daemon_name),
        None => None,
    };
    (
        key,
        EntryV {
            slug: src.slug@,
            namespace: opt_string(src.namespace),
            daemon_name,
            dir,
            worktrees: src.worktrees@,
            rejected_worktree_prefixes: views(src.rejected_worktree_prefixes@),
            tls: match read_or(src.read, known) {
                Some(r) => r,
                None => ProxyTlsRoute { mode: ProxyTlsMode::Terminate, port: None },
            },
            worktree_tls: worktree_routes(
                src.worktrees@,
                src.worktree_reads@,
                prev,
                daemon_name,
                src.worktrees@.len(),
            ),
        },
    )
}

/// The entry the previous table kept under `key`.
fn previous_of<'a>(previous: &'a Vec<(String, CachedSlugEntry)>, key: &str) -> (r: Option<&'a CachedSlugEntry>)
    ensures
        match previous_entry(previous@, key@) {
            Some(p) => r matches Some(e) && *e == p,
            None => r is None,
        },
{
    match crate::routing::slugs::find_key(previous, key) {
        Some(i) => Some(&previous[i].1),
        None => None,
    }
}

/// Build one slug's entry.
pub fn slug_entry(src: SlugSource, previous: &Vec<(String, CachedSlugEntry)>) -> (r: (String, CachedSlugEntry))
    requires
        src.worktree_reads@.len() == src.worktrees@.len(),
    ensures
        (r.0@, entry_v(r.1)) == spec_slug_entry(src, previous@),
{
    let ghost src0 = src;
    let key = to_ascii_lowercase(src.slug.as_str());
    let daemon_name = match &src.daemon {
        Some(d) => d.as_str().to_owned(),
        None => src.slug.as_str().to_owned(),
    };
    let dir = match &src.dir {
        Some(d) => d.as_str().to_owned(),
        None => String::new(),
    };
    let ns: Option<&str> = match &src.namespace {
        Some(n) => Some(n.as_str()),
        None => None,
    };
    assert(opt_view(ns) == opt_string(src.namespace));
    let prev = previous_of(previous, key.as_str());
    let known = match prev {
        Some(p) => p.known_route(dir.as_str(), ns, daemon_name.as_str()),
        None => None,
    };
    let tls = match crate::routing::slugs::route_or_last_known(src.read, known) {
        Some(r) => r,
        None => ProxyTlsRoute { mode: ProxyTlsMode::Terminate, port: None },
    };
    let ghost prev_v = previous_entry(previous@, key@);
    let mut worktree_tls: Vec<(String, ProxyTlsRoute)> = Vec::new();
    let mut i: usize = 0;
    while i < src.worktrees.len()
        invariant
            src == src0,
            src.worktree_reads@.len() == src.worktrees@.len(),
            i <= src.worktrees@.len(),
            prev_v == previous_entry(previous@, key@),
            match prev_v {
                Some(p) => prev matches Some(e) && *e == p,
                None => prev is None,
            },
            route_views(worktree_tls@) == worktree_routes(
                src.worktrees@,
                src.worktree_reads@,
                prev_v,
                daemon_name@,
                i as nat,
            ),
        decreases src.worktrees@.len() - i,
    {
        let wt = &src.worktrees[i];
        let known_wt = match prev {
            Some(p) => p.known_worktree_route(wt, daemon_name.as_str()),
            None => None,
        };
        let read = match &src.worktree_reads[i] {
            Ok(x) => *x,
            Err(_) => known_wt,
        };
        let ghost before = route_views(worktree_tls@);
        match read {
            Some(route) => {
                let branch = to_ascii_lowercase(wt.sanitized_branch.as_str());
                worktree_tls.push((branch, route));
                assert(route_views(worktree_tls@) =~= before.push((lower_seq(wt.sanitized_branch@), route)));
            },
            None => {},
        }
        i += 1;
    }
    let entry = CachedSlugEntry {
        slug: src.slug,
        namespace: src.namespace,
        daemon_name,
        dir,
        worktrees: src.worktrees,
        rejected_worktree_prefixes: src.rejected_worktree_prefixes,
        tls,
        worktree_tls,
    };
    (key, entry)
}

/// The lowercased slugs of the sources, in order.
pub open spec fn folded_slugs(sources: Seq<SlugSource>) -> Seq<Seq<char>> {
    sources.map_values(|s: SlugSource| lower_seq(s.slug@))
}

/// The table built from the first `n` sources: an entry for each whose
/// lowercased slug no other source in `all` shares, in order. Slugs that
/// differ only by case are all left out, since host names are
/// case-insensitive and routing one of them would be a guess.
pub open spec fn table_of(
    sources: Seq<SlugSource>,
    previous: Seq<(String, CachedSlugEntry)>,
    n: nat,
) -> Seq<(Seq<char>, EntryV)>
    decreases n,
{
    if n == 0 {
        Seq::empty()
    } else {
        let rest = table_of(sources, previous, (n - 1) as nat);
        if collides(folded_slugs(sources), lower_seq(sources[n - 1].slug@)) {
            rest
        } else {
            rest.push(spec_slug_entry(sources[n - 1], previous))
        }
    }
}

/// The slug table built from every source.
pub open spec fn spec_slug_table(sources: Seq<SlugSource>, previous: Seq<(String, CachedSlugEntry)>) -> Seq<
    (Seq<char>, EntryV),
> {
    table_of(sources, previous, sources.len())
}

/// A table as text.
pub open spec fn table_v(t: Seq<(String, CachedSlugEntry)>) -> Seq<(Seq<char>, EntryV)> {
    t.map_values(|p: (String, CachedSlugEntry)| (p.0@, entry_v(p.1)))
}

/// The folded slugs two or more sources share.
fn slug_collisions(sources: &Vec<SlugSource>) -> (r: Vec<String>)
    ensures
        forall|f: Seq<char>| views(r@).contains(f) <==> collides(folded_slugs(sources@), f),
{
    let mut keys: Vec<&str> = Vec::new();
    let mut i: usize = 0;
    while i < sources.len()
        invariant
            i <= sources@.len(),
            keys@.len() == i,
            forall|j: int| 0 <= j < i ==> (#[trigger] keys@[j])@ == sources@[j].slug@,
        decreases sources@.len() - i,
    {
        keys.push(sources[i].slug.as_str());
        i += 1;
    }
    assert(keys@.map_values(|k: &str| lower_seq(k@)) =~= folded_slugs(sources@));
    ascii_case_collisions(keys.as_slice())
}

/// Build the slug table.
pub fn slug_table(sources: Vec<SlugSource>, previous: &Vec<(String, CachedSlugEntry)>) -> (r: Vec<
    (String, CachedSlugEntry),
>)
    requires
        forall|i: int| 0 <= i < sources@.len() ==> (#[trigger] sources@[i]).worktree_reads@.len() == sources@[i].worktrees@.len(),
    ensures
        table_v(r@) == spec_slug_table(sources@, previous@),
{
    let collisions = slug_collisions(&sources);
    let ghost all = sources@;
    let n = sources.len();
    let mut rest = sources;
    let mut table: Vec<(String, CachedSlugEntry)> = Vec::new();
    let mut k: usize = 0;
    assert(all.subrange(0, n as int) =~= all);
    while k < n
        invariant
            n == all.len(),
            k <= n,
            rest@ == all.subrange(k as int, n as int),
            forall|i: int| 0 <= i < all.len() ==> (#[trigger] all[i]).worktree_reads@.len() == all[i].worktrees@.len(),
            forall|f: Seq<char>| views(collisions@).contains(f) <==> collides(folded_slugs(all), f),
            table_v(table@) == table_of(all, previous@, k as nat),
        decreases n - k,
    {
        assert(rest@.len() > 0);
        assert(rest@[0] == all[k as int]);
        let src = rest.remove(0);
        assert(rest@ =~= all.subrange(k + 1, n as int));
        let key = to_ascii_lowercase(src.slug.as_str());
        let ghost before = table_v(table@);
        if !vec_contains(&collisions, &key) {
            let e = slug_entry(src, previous);
            table.push(e);
            assert(table_v(table@) =~= before.push(spec_slug_entry(all[k as int], previous@)));
        }
        k += 1;
    }
    table
}

// ─── laws ───────────────────────────────────────────────────────────────────

/// Whether `key` is the folded slug of one of the first `n` sources that no
/// other source shares.
pub open spec fn unshared_key(sources: Seq<SlugSource>, key: Seq<char>, n: nat) -> bool {
    exists|i: int| 0 <= i < n && folded_slugs(sources)[i] == key && !collides(folded_slugs(sources), key)
}

/// Every key of the table built from the first `n` sources is the folded
/// slug of one of them that no other source shares, and no key is there
/// twice.
proof fn lemma_table_keys(sources: Seq<SlugSource>, previous: Seq<(String, CachedSlugEntry)>, n: nat)
    requires
        n <= sources.len(),
    ensures
        forall|a: int|
            0 <= a < table_of(sources, previous, n).len() ==> unshared_key(
                sources,
                (#[trigger] table_of(sources, previous, n)[a]).0,
                n,
            ),
        forall|a: int, b: int|
            0 <= a < b < table_of(sources, previous, n).len() ==> (#[trigger] table_of(sources, previous, n)[a]).0
                != (#[trigger] table_of(sources, previous, n)[b]).0,
    decreases n,
{
    if n > 0 {
        lemma_table_keys(sources, previous, (n - 1) as nat);
        let l = folded_slugs(sources);
        let rest = table_of(sources, previous, (n - 1) as nat);
        let t = table_of(sources, previous, n);
        let f = l[n - 1];
        assert(f == lower_seq(sources[n - 1].slug@));
        assert forall|a: int| 0 <= a < rest.len() implies unshared_key(sources, (#[trigger] rest[a]).0, n) by {
            assert(unshared_key(sources, rest[a].0, (n - 1) as nat));
            let i = choose|i: int| 0 <= i < n - 1 && l[i] == rest[a].0 && !collides(l, rest[a].0);
            assert(0 <= i < n && l[i] == rest[a].0);
        }
        if !collides(l, f) {
            assert(t == rest.push(spec_slug_entry(sources[n - 1], previous)));
            assert forall|a: int| 0 <= a < t.len() implies unshared_key(sources, (#[trigger] t[a]).0, n) by {
                if a < rest.len() {
                    assert(t[a] == rest[a]);
                } else {
                    assert(t[a].0 == f);
                    assert(0 <= n - 1 < n && l[n - 1] == f);
                }
            }
            assert forall|a: int, b: int| 0 <= a < b < t.len() implies (#[trigger] t[a]).0 != (#[trigger] t[b]).0 by {
                if b < rest.len() {
                    assert(t[a] == rest[a] && t[b] == rest[b]);
                } else {
                    assert(t[a] == rest[a]);
                    assert(unshared_key(sources, rest[a].0, (n - 1) as nat));
                    let i = choose|i: int| 0 <= i < n - 1 && l[i] == rest[a].0 && !collides(l, rest[a].0);
                    if t[a].0 == t[b].0 {
                        assert(l[i] == f && l[n - 1] == f);
                        assert(collides(l, f));
                    }
                }
            }
        } else {
            assert(t == rest);
        }
    }
}

/// The table never holds a key twice: slugs that fold to the same key are
/// all left out, so a lookup by key finds the one entry there is.
pub proof fn law_slug_table_keys_are_distinct(sources: Seq<SlugSource>, previous: Seq<(String, CachedSlugEntry)>)
    ensures
        forall|a: int, b: int|
            0 <= a < b < spec_slug_table(sources, previous).len() ==> (#[trigger] spec_slug_table(sources, previous)[a]).0
                != (#[trigger] spec_slug_table(sources, previous)[b]).0,
{
    lemma_table_keys(sources, previous, sources.len());
}

} // verus!
