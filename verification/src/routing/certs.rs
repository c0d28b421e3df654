//! What the proxy's certificate authority issues, and how minted
//! certificates are kept: which names may get one, what it covers, a
//! bounded cache that evicts the oldest, and which cached files go at
//! startup.

use vstd::prelude::*;
use crate::names::{is_strictly_under_tld, owns_name, spec_owns_name, views};
use crate::routing::slugs::{
    find_key, key_index, resolve_tls_mode_in, spec_resolve_tls_mode_in, CachedSlugEntry, ProxyTlsMode,
};
use crate::routing::text::{cert_cache_file_stem, last_index, spec_cert_cache_file_stem};
use crate::split::{before_char, before_char_from};
use crate::text::{chars_of, str_eq, string_of};

verus! {

/// How many minted certificates are kept, in memory and on disk.
pub const MAX_HOST_CERTS: usize = 256;

// ─── what gets a certificate ────────────────────────────────────────────────

/// What the certificate resolver does with a handshake.
#[derive(Clone, Copy, Debug, PartialEq, Eq, Structural)]
pub enum IssueDecision {
    /// The handshake names no host: nothing to issue for.
    NoName,
    /// The host is spliced through to its daemon, which answers with its own
    /// certificate: terminating it here would be wrong, so the handshake fails.
    Passthrough,
    /// The host is outside the TLD: the CA, trusted by this machine, does not
    /// sign for somebody else's name.
    OutsideTld,
    /// Serve a certificate for the host.
    Issue,
}

/// What the certificate resolver does with a handshake naming
/// `server_name`.
pub open spec fn spec_issue_decision(
    server_name: Option<Seq<char>>,
    tld: Seq<char>,
    entries: Seq<(String, CachedSlugEntry)>,
    wildcard: bool,
) -> IssueDecision {
    match server_name {
        None => IssueDecision::NoName,
        Some(d) => if spec_resolve_tls_mode_in(d, tld, entries, wildcard) == ProxyTlsMode::Passthrough {
            IssueDecision::Passthrough
        } else if !spec_owns_name(tld, d) {
            IssueDecision::OutsideTld
        } else {
            IssueDecision::Issue
        },
    }
}

/// What the certificate resolver does with a handshake naming
/// `server_name`.
pub fn issue_decision(
    server_name: Option<&str>,
    tld: &str,
    entries: &Vec<(String, CachedSlugEntry)>,
    wildcard: bool,
) -> (r: IssueDecision)
    ensures
        r == spec_issue_decision(crate::names::opt_view(server_name), tld@, entries@, wildcard),
{
    match server_name {
        None => IssueDecision::NoName,
        Some(d) => {
            if resolve_tls_mode_in(d, tld, entries, wildcard).is_passthrough() {
                IssueDecision::Passthrough
            } else if !owns_name(tld, d) {
                IssueDecision::OutsideTld
            } else {
                IssueDecision::Issue
            }
        },
    }
}

/// Whether a configured certificate is served for a handshake naming
/// `server_name`: not for a passthrough host, whatever else it names.
pub fn serves_configured_certificate(
    server_name: Option<&str>,
    tld: &str,
    entries: &Vec<(String, CachedSlugEntry)>,
    wildcard: bool,
) -> (r: bool)
    ensures
        r == match crate::names::opt_view(server_name) {
            Some(d) => spec_resolve_tls_mode_in(d, tld@, entries@, wildcard) != ProxyTlsMode::Passthrough,
            None => true,
        },
{
    match server_name {
        Some(d) => !resolve_tls_mode_in(d, tld, entries, wildcard).is_passthrough(),
        None => true,
    }
}

/// The names a certificate for `domain` covers: the name itself, and the
/// wildcard of its parent when the parent is strictly inside the TLD, so a
/// certificate never covers every name the proxy serves.
pub open spec fn spec_leaf_sans(domain: Seq<char>, tld: Seq<char>) -> Seq<Seq<char>> {
    let k = before_char(domain, '.');
    if k < domain.len() && crate::names::spec_strictly_under(tld, domain.subrange(k as int + 1, domain.len() as int)) {
        seq![domain, "*."@ + domain.subrange(k as int + 1, domain.len() as int)]
    } else {
        seq![domain]
    }
}

/// The names a certificate for `domain` covers.
pub fn leaf_sans(domain: &str, tld: &str) -> (r: Vec<String>)
    ensures
        views(r@) == spec_leaf_sans(domain@, tld@),
{
    let v = chars_of(domain);
    let n = v.len();
    let k = before_char_from(&v, 0, '.');
    assert(v@.subrange(0, n as int) =~= v@);
    let mut r: Vec<String> = Vec::new();
    r.push(domain.to_owned());
    if k < n {
        let parent = string_of(&v, k + 1, n);
        if is_strictly_under_tld(tld, parent.as_str()) {
            let mut w = String::from_str("*.");
            w.append(parent.as_str());
            r.push(w);
            assert(views(r@) =~= spec_leaf_sans(domain@, tld@));
            return r;
        }
    }
    assert(views(r@) =~= spec_leaf_sans(domain@, tld@));
    r
}

/// The file a minted certificate for `domain` is cached in.
pub fn cert_file_name(domain: &str) -> (r: String)
    ensures
        r@ == spec_cert_cache_file_stem(vstd::utf8::encode_utf8(domain@)) + ".pem"@,
{
    let mut r = cert_cache_file_stem(domain);
    r.append(".pem");
    r
}

// ─── the cache of minted certificates ───────────────────────────────────────

/// Minted certificates by domain, oldest first, at most
/// [`MAX_HOST_CERTS`] of them, each domain once.
pub struct CertCache<V> {
    entries: Vec<(String, V)>,
}

/// The value kept under `key`.
pub open spec fn cached<V>(e: Seq<(String, V)>, key: Seq<char>) -> Option<V> {
    match key_index(e, key) {
        Some(i) => Some(e[i].1),
        None => None,
    }
}

/// Whether each key of `e` is there once.
pub open spec fn distinct_keys<V>(e: Seq<(String, V)>) -> bool {
    forall|a: int, b: int| 0 <= a < b < e.len() ==> (#[trigger] e[a]).0@ != (#[trigger] e[b]).0@
}

proof fn lemma_distinct_key_index<V>(e: Seq<(String, V)>, i: int)
    requires
        distinct_keys(e),
        0 <= i < e.len(),
    ensures
        key_index(e, e[i].0@) == Some(i),
{
    assert(crate::routing::slugs::is_first_key(e, e[i].0@, i));
    let c = choose|c: int| crate::routing::slugs::is_first_key(e, e[i].0@, c);
    if c != i {
        if c < i {
            assert(e[c].0@ != e[i].0@);
        } else {
            assert(e[i].0@ != e[i].0@);
        }
    }
}

impl<V> CertCache<V> {
    /// The cached certificates, oldest first.
    pub closed spec fn view(&self) -> Seq<(String, V)> {
        self.entries@
    }

    /// Each domain once, and no more than the bound.
    pub closed spec fn wf(&self) -> bool {
        distinct_keys(self.entries@) && self.entries@.len() <= MAX_HOST_CERTS
    }

    /// An empty cache.
    pub fn new() -> (c: Self)
        ensures
            c.wf(),
            c@.len() == 0,
    {
        CertCache { entries: Vec::new() }
    }

    /// How many certificates are cached.
    pub fn len(&self) -> (n: usize)
        ensures
            n == self@.len(),
    {
        self.entries.len()
    }

    /// The certificate cached for `domain`.
    pub fn get(&self, domain: &str) -> (r: Option<&V>)
        ensures
            match cached(self@, domain@) {
                Some(v) => r matches Some(x) && *x == v,
                None => r is None,
            },
    {
        match find_key(&self.entries, domain) {
            Some(i) => Some(&self.entries[i].1),
            None => None,
        }
    }

    /// Cache `value` for `domain`: replacing what was there in its place,
    /// or added as the newest, evicting the oldest when that makes one too
    /// many. Returns the evicted domain, whose file the caller removes.
    pub fn insert(&mut self, domain: String, value: V) -> (evicted: Option<String>)
        requires
            old(self).wf(),
        ensures
            final(self).wf(),
            cached(final(self)@, domain@) == Some(value),
            match key_index(old(self)@, domain@) {
                Some(i) => final(self)@ == old(self)@.update(i, (domain, value)) && evicted is None,
                None => if old(self)@.len() < MAX_HOST_CERTS {
                    final(self)@ == old(self)@.push((domain, value)) && evicted is None
                } else {
                    final(self)@ == old(self)@.push((domain, value)).drop_first() && (evicted matches Some(d) && d@
                        == old(self)@[0].0@)
                },
            },
    {
        let ghost e0 = self.entries@;
        match find_key(&self.entries, domain.as_str()) {
            Some(i) => {
                let ghost d = domain;
                let ghost v = value;
                self.entries.set(i, (domain, value));
                proof {
                    assert(self.entries@ == e0.update(i as int, (d, v)));
                    assert forall|a: int, b: int| 0 <= a < b < self.entries@.len() implies (
                    #[trigger] self.entries@[a]).0@ != (#[trigger] self.entries@[b]).0@ by {
                        assert(e0[i as int].0@ == d@);
                        if a != i && b != i {
                            assert(e0[a].0@ != e0[b].0@);
                        } else if a == i {
                            assert(e0[i as int].0@ != e0[b].0@);
                        } else {
                            assert(e0[a].0@ != e0[i as int].0@);
                        }
                    }
                    assert(self.entries@[i as int].0@ == d@);
                    lemma_distinct_key_index(self.entries@, i as int);
                }
                None
            },
            None => {
                let ghost d = domain;
                let ghost v = value;
                self.entries.push((domain, value));
                proof {
                    assert forall|a: int| 0 <= a < e0.len() implies (#[trigger] e0[a]).0@ != d@ by {
                        if e0[a].0@ == d@ {
                            crate::routing::slugs::lemma_first_key_exists(e0, d@, a);
                        }
                    }
                    assert(distinct_keys(self.entries@));
                }
                if self.entries.len() <= MAX_HOST_CERTS {
                    proof {
                        lemma_distinct_key_index(self.entries@, e0.len() as int);
                    }
                    None
                } else {
                    let (old_domain, _) = self.entries.remove(0);
                    proof {
                        assert(self.entries@ =~= e0.push((d, v)).drop_first());
                        let n = self.entries@.len();
                        assert(self.entries@[n - 1] == (d, v));
                        lemma_distinct_key_index(self.entries@, n - 1);
                    }
                    Some(old_domain)
                }
            },
        }
    }
}

// ─── pruning at startup ─────────────────────────────────────────────────────

/// Whether a file name has the extension `pem`, as `Path::extension` reads
/// it: after the last dot, which must not be the first character.
pub open spec fn spec_has_pem_extension(name: Seq<char>) -> bool {
    match last_index(name, '.') {
        Some(i) => i > 0 && name.subrange(i + 1, name.len() as int) == "pem"@,
        None => false,
    }
}

/// Whether a file name has the extension `pem`.
pub fn has_pem_extension(name: &str) -> (r: bool)
    ensures
        r == spec_has_pem_extension(name@),
{
    let v = chars_of(name);
    let n = v.len();
    let mut k = n;
    assert(v@.subrange(0, n as int) =~= v@);
    while k > 0 && v[k - 1] != '.'
        invariant
            n == v@.len(),
            k <= n,
            last_index(v@, '.') == last_index(v@.subrange(0, k as int), '.'),
        decreases k,
    {
        assert(v@.subrange(0, k as int).drop_last() =~= v@.subrange(0, k - 1));
        k -= 1;
    }
    if k <= 1 {
        if k == 0 {
            assert(v@.subrange(0, 0) =~= Seq::<char>::empty());
        }
        return false;
    }
    let ext = string_of(&v, k, n);
    str_eq(ext.as_str(), "pem")
}

/// `sorted` with `x` put after every entry no newer than it.
pub open spec fn insert_by_time(sorted: Seq<(u64, Seq<char>)>, x: (u64, Seq<char>)) -> Seq<(u64, Seq<char>)>
    decreases sorted.len(),
{
    if sorted.len() == 0 {
        seq![x]
    } else if sorted.last().0 <= x.0 {
        sorted.push(x)
    } else {
        insert_by_time(sorted.drop_last(), x).push(sorted.last())
    }
}

/// `files` ordered by time, oldest first, keeping the given order among
/// equal times.
pub open spec fn sort_by_time(files: Seq<(u64, Seq<char>)>) -> Seq<(u64, Seq<char>)>
    decreases files.len(),
{
    if files.len() == 0 {
        Seq::empty()
    } else {
        insert_by_time(sort_by_time(files.drop_last()), files.last())
    }
}

/// The cached `.pem` files of `files` (modification time, name).
pub open spec fn pem_files(files: Seq<(u64, Seq<char>)>) -> Seq<(u64, Seq<char>)>
    decreases files.len(),
{
    if files.len() == 0 {
        Seq::empty()
    } else if spec_has_pem_extension(files.last().1) {
        pem_files(files.drop_last()).push(files.last())
    } else {
        pem_files(files.drop_last())
    }
}

/// The cached certificate files to delete at startup: the oldest of the
/// `.pem` files, so that at most [`MAX_HOST_CERTS`] remain. Eviction during
/// a run only knows the names that run has seen.
pub open spec fn spec_prune_list(files: Seq<(u64, Seq<char>)>) -> Seq<Seq<char>> {
    let pems = pem_files(files);
    if pems.len() <= MAX_HOST_CERTS {
        Seq::empty()
    } else {
        sort_by_time(pems).take(pems.len() - MAX_HOST_CERTS).map_values(|f: (u64, Seq<char>)| f.1)
    }
}

/// The views of timed file names.
pub open spec fn timed_v(v: Seq<(u64, String)>) -> Seq<(u64, Seq<char>)> {
    v.map_values(|f: (u64, String)| (f.0, f.1@))
}

proof fn lemma_insert_len(sorted: Seq<(u64, Seq<char>)>, x: (u64, Seq<char>))
    ensures
        insert_by_time(sorted, x).len() == sorted.len() + 1,
    decreases sorted.len(),
{
    if sorted.len() > 0 && sorted.last().0 > x.0 {
        lemma_insert_len(sorted.drop_last(), x);
    }
}

/// Insert `x` into `sorted` after every entry no newer than it.
fn insert_timed(sorted: &mut Vec<(u64, String)>, x: (u64, String))
    ensures
        timed_v(final(sorted)@) == insert_by_time(timed_v(old(sorted)@), (x.0, x.1@)),
{
    let ghost s0 = timed_v(sorted@);
    let ghost xv = (x.0, x.1@);
    let mut p = sorted.len();
    assert(s0.subrange(0, s0.len() as int) =~= s0);
    assert(s0.subrange(s0.len() as int, s0.len() as int) =~= Seq::<(u64, Seq<char>)>::empty());
    assert(insert_by_time(s0, xv) =~= insert_by_time(s0.subrange(0, p as int), xv) + s0.subrange(p as int, s0.len() as int));
    while p > 0 && sorted[p - 1].0 > x.0
        invariant
            p <= sorted@.len(),
            s0 == timed_v(sorted@),
            xv == (x.0, x.1@),
            insert_by_time(s0, xv) == insert_by_time(s0.subrange(0, p as int), xv) + s0.subrange(p as int, s0.len() as int),
        decreases p,
    {
        let ghost t = s0.subrange(0, p as int);
        assert(t.last() == s0[p - 1]);
        assert(t.drop_last() =~= s0.subrange(0, p - 1));
        assert(s0.subrange(p - 1, s0.len() as int) =~= seq![t.last()] + s0.subrange(p as int, s0.len() as int));
        assert(insert_by_time(t, xv) == insert_by_time(s0.subrange(0, p - 1), xv).push(t.last()));
        assert(insert_by_time(s0.subrange(0, p - 1), xv).push(t.last()) + s0.subrange(p as int, s0.len() as int)
            =~= insert_by_time(s0.subrange(0, p - 1), xv) + s0.subrange(p - 1, s0.len() as int));
        p -= 1;
    }
    proof {
        let t = s0.subrange(0, p as int);
        if p > 0 {
            assert(t.last() == s0[p - 1]);
        }
        assert(insert_by_time(t, xv) =~= t.push(xv));
    }
    sorted.insert(p, x);
    assert(timed_v(sorted@) =~= s0.subrange(0, p as int).push(xv) + s0.subrange(p as int, s0.len() as int));
}

/// The cached certificate files to delete at startup.
pub fn prune_list(files: Vec<(u64, String)>) -> (r: Vec<String>)
    ensures
        views(r@) == spec_prune_list(timed_v(files@)),
{
    let ghost all = timed_v(files@);
    let mut pems: Vec<(u64, String)> = Vec::new();
    let mut sorted: Vec<(u64, String)> = Vec::new();
    let n = files.len();
    let mut rest = files;
    let mut k: usize = 0;
    assert(all.subrange(0, n as int) =~= all);
    while k < n
        invariant
            n == all.len(),
            k <= n,
            timed_v(rest@) == all.subrange(k as int, n as int),
            timed_v(pems@) == pem_files(all.subrange(0, k as int)),
            timed_v(sorted@) == sort_by_time(pem_files(all.subrange(0, k as int))),
            pems@.len() <= k,
        decreases n - k,
    {
        let ghost r0 = rest@;
        assert(timed_v(r0).len() == r0.len());
        assert(rest@.len() > 0);
        assert(timed_v(r0)[0] == all[k as int]);
        let f = rest.remove(0);
        assert(rest@ =~= r0.subrange(1, r0.len() as int));
        assert(timed_v(rest@) =~= timed_v(r0).subrange(1, r0.len() as int));
        assert(timed_v(rest@) =~= all.subrange(k + 1, n as int));
        let ghost fv = (f.0, f.1@);
        assert(all.subrange(0, k + 1).drop_last() =~= all.subrange(0, k as int));
        assert(all.subrange(0, k + 1).last() == fv);
        if has_pem_extension(f.1.as_str()) {
            let ghost p0 = timed_v(pems@);
            let copy = (f.0, f.1.as_str().to_owned());
            pems.push(copy);
            assert(timed_v(pems@) =~= p0.push(fv));
            assert(pem_files(all.subrange(0, k + 1)) == p0.push(fv));
            assert(pem_files(all.subrange(0, k + 1)).drop_last() =~= p0);
            insert_timed(&mut sorted, f);
        }
        k += 1;
    }
    let mut out: Vec<String> = Vec::new();
    if pems.len() <= MAX_HOST_CERTS {
        assert(views(out@) =~= spec_prune_list(all));
        return out;
    }
    let excess = pems.len() - MAX_HOST_CERTS;
    proof {
        lemma_sort_len(pem_files(all));
    }
    let mut i: usize = 0;
    while i < excess
        invariant
            i <= excess <= sorted@.len(),
            excess == pems@.len() - MAX_HOST_CERTS,
            timed_v(sorted@) == sort_by_time(pem_files(all)),
            views(out@) == sort_by_time(pem_files(all)).take(i as int).map_values(|f: (u64, Seq<char>)| f.1),
        decreases excess - i,
    {
        let ghost before = views(out@);
        let ghost ss = sort_by_time(pem_files(all));
        assert(timed_v(sorted@)[i as int] == ss[i as int]);
        out.push(sorted[i].1.as_str().to_owned());
        assert(views(out@) =~= before.push(ss[i as int].1));
        assert(ss.take(i + 1).map_values(|f: (u64, Seq<char>)| f.1) =~= ss.take(i as int).map_values(
            |f: (u64, Seq<char>)| f.1,
        ).push(ss[i as int].1));
        i += 1;
    }
    out
}

proof fn lemma_sort_len(files: Seq<(u64, Seq<char>)>)
    ensures
        sort_by_time(files).len() == files.len(),
    decreases files.len(),
{
    if files.len() > 0 {
        lemma_sort_len(files.drop_last());
        lemma_insert_len(sort_by_time(files.drop_last()), files.last());
    }
}

// ─── laws ───────────────────────────────────────────────────────────────────

/// A minted certificate never carries the wildcard of the whole TLD: its
/// wildcard, when it has one, is for a parent strictly beneath the TLD.
pub proof fn law_no_wildcard_for_the_whole_tld(domain: Seq<char>, tld: Seq<char>)
    ensures
        spec_leaf_sans(domain, tld).len() == 2 ==> {
            let k = before_char(domain, '.');
            &&& spec_leaf_sans(domain, tld)[1] == "*."@ + domain.subrange(k as int + 1, domain.len() as int)
            &&& crate::names::spec_strictly_under(tld, domain.subrange(k as int + 1, domain.len() as int))
        },
        spec_leaf_sans(domain, tld)[0] == domain,
{
}

} // verus!
