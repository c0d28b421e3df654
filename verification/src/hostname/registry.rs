//! The projects the proxy can route to, and resolving a hostname against
//! them.
//!
//! Each table is a vector whose keys (a label) are looked up by their first
//! occurrence, as a map's would be.

use vstd::prelude::*;
use crate::names::views;
use crate::order::{lemma_sorted_keys, lemma_sorted_keys_len, sorted_distinct, sorted_keys};
use crate::split::{split_chars, split_on, views_of, Sep};
use crate::text::{chars_of, lower, lower_seq, str_eq, to_ascii_lowercase, string_of};

verus! {

/// Where a directory sits in a git repository.
#[derive(Debug, Clone, PartialEq, Eq)]
pub struct Checkout {
    /// The primary checkout: the parent of the git common directory.
    pub primary: String,
    /// The linked worktree's own root, when the directory is inside one.
    pub worktree: Option<String>,
}

impl Checkout {
    /// The root of the checkout the directory belongs to.
    pub fn root(&self) -> (r: &str)
        ensures
            r@ == match self.worktree {
                Some(w) => w@,
                None => self.primary@,
            },
    {
        match &self.worktree {
            Some(w) => w.as_str(),
            None => self.primary.as_str(),
        }
    }
}

/// One checkout of a project and the daemons reachable within it.
#[derive(Debug, Clone)]
pub struct CheckoutHosts {
    /// Root directory of this checkout.
    pub dir: String,
    /// Namespace the checkout's daemons belong to.
    pub namespace: String,
    /// Daemon label → daemon name.
    pub daemons: Vec<(String, String)>,
}

/// A project and its checkouts, keyed by hostname label.
#[derive(Debug, Clone)]
pub struct ProjectHosts {
    pub label: String,
    pub primary: CheckoutHosts,
    /// Worktree label → checkout.
    pub worktrees: Vec<(String, CheckoutHosts)>,
}

/// All projects the proxy can route to, keyed by project label.
#[derive(Debug, Clone)]
pub struct HostRegistry {
    pub projects: Vec<ProjectHosts>,
    /// Label collisions found while loading, reported to the user as-is.
    pub errors: Vec<String>,
}

/// What a hostname resolves to.
#[derive(Debug, Clone, PartialEq, Eq)]
pub enum HostTarget {
    /// A daemon in one of the project's checkouts.
    Daemon { project: String, worktree: Option<String>, dir: String, namespace: String, daemon: String },
    /// `<project>.<tld>`: reserved for the project page.
    ProjectPage { project: String },
    /// `<worktree>.<project>.<tld>`: reserved for the stack page.
    WorktreePage { project: String, worktree: String },
    /// The rightmost label is not a known project.
    UnknownProject { known: Vec<String> },
    /// The project is known but the daemon label is not.
    UnknownDaemon { project: String, worktree: Option<String>, known: Vec<String> },
}

pub enum HostTargetV {
    Daemon {
        project: Seq<char>,
        worktree: Option<Seq<char>>,
        dir: Seq<char>,
        namespace: Seq<char>,
        daemon: Seq<char>,
    },
    ProjectPage { project: Seq<char> },
    WorktreePage { project: Seq<char>, worktree: Seq<char> },
    UnknownProject { known: Seq<Seq<char>> },
    UnknownDaemon { project: Seq<char>, worktree: Option<Seq<char>>, known: Seq<Seq<char>> },
}

pub open spec fn opt_string(o: Option<String>) -> Option<Seq<char>> {
    match o {
        Some(s) => Some(s@),
        None => None,
    }
}

impl HostTarget {
    pub open spec fn view(&self) -> HostTargetV {
        match self {
            HostTarget::Daemon { project, worktree, dir, namespace, daemon } => HostTargetV::Daemon {
                project: project@,
                worktree: opt_string(*worktree),
                dir: dir@,
                namespace: namespace@,
                daemon: daemon@,
            },
            HostTarget::ProjectPage { project } => HostTargetV::ProjectPage { project: project@ },
            HostTarget::WorktreePage { project, worktree } => HostTargetV::WorktreePage {
                project: project@,
                worktree: worktree@,
            },
            HostTarget::UnknownProject { known } => HostTargetV::UnknownProject { known: views(known@) },
            HostTarget::UnknownDaemon { project, worktree, known } => HostTargetV::UnknownDaemon {
                project: project@,
                worktree: opt_string(*worktree),
                known: views(known@),
            },
        }
    }
}

// ─── well-formedness ────────────────────────────────────────────────────────

impl CheckoutHosts {
    /// Each daemon label names one daemon.
    pub open spec fn wf(&self) -> bool {
        daemon_keys(self.daemons@).no_duplicates()
    }
}

impl ProjectHosts {
    /// Each worktree label names one worktree, and every checkout is
    /// well-formed.
    pub open spec fn wf(&self) -> bool {
        &&& self.primary.wf()
        &&& worktree_keys(self.worktrees@).no_duplicates()
        &&& forall|i: int| 0 <= i < self.worktrees@.len() ==> (#[trigger] self.worktrees@[i]).1.wf()
    }
}

impl HostRegistry {
    /// Each project label names one project, and every project is
    /// well-formed.
    pub open spec fn wf(&self) -> bool {
        &&& project_keys(self.projects@).no_duplicates()
        &&& forall|i: int| 0 <= i < self.projects@.len() ==> (#[trigger] self.projects@[i]).wf()
    }
}

/// Appending a label not yet in `s` keeps the labels distinct.
pub proof fn lemma_push_distinct(s: Seq<Seq<char>>, x: Seq<char>)
    requires
        s.no_duplicates(),
        forall|i: int| 0 <= i < s.len() ==> s[i] != x,
    ensures
        s.push(x).no_duplicates(),
{
    assert forall|a: int, b: int| 0 <= a < s.len() + 1 && 0 <= b < s.len() + 1 && a != b implies s.push(x)[a]
        != s.push(x)[b] by {
        if a < s.len() && b < s.len() {
            assert(s.push(x)[a] == s[a] && s.push(x)[b] == s[b]);
        } else if a < s.len() {
            assert(s.push(x)[a] == s[a]);
        } else {
            assert(s.push(x)[b] == s[b]);
        }
    }
}

// ─── lookups ────────────────────────────────────────────────────────────────

/// The first index at or after `i` where `keys` holds `key`.
pub open spec fn index_from(keys: Seq<Seq<char>>, key: Seq<char>, i: int) -> Option<int>
    decreases keys.len() - i,
{
    if i < 0 || i >= keys.len() {
        None
    } else if keys[i] == key {
        Some(i)
    } else {
        index_from(keys, key, i + 1)
    }
}

/// The first index where `keys` holds `key`.
pub open spec fn index_of(keys: Seq<Seq<char>>, key: Seq<char>) -> Option<int> {
    index_from(keys, key, 0)
}

pub proof fn lemma_index_from(keys: Seq<Seq<char>>, key: Seq<char>, i: int)
    ensures
        index_from(keys, key, i) matches Some(k) ==> i <= k < keys.len() && keys[k] == key,
        index_from(keys, key, i) is None && 0 <= i ==> forall|k: int| i <= k < keys.len() ==> keys[k] != key,
    decreases keys.len() - i,
{
    if 0 <= i < keys.len() && keys[i] != key {
        lemma_index_from(keys, key, i + 1);
    }
}

/// The labels of a daemon table.
pub open spec fn daemon_keys(d: Seq<(String, String)>) -> Seq<Seq<char>> {
    d.map_values(|p: (String, String)| p.0@)
}

/// The labels of a worktree table.
pub open spec fn worktree_keys(w: Seq<(String, CheckoutHosts)>) -> Seq<Seq<char>> {
    w.map_values(|p: (String, CheckoutHosts)| p.0@)
}

/// The labels of the projects.
pub open spec fn project_keys(p: Seq<ProjectHosts>) -> Seq<Seq<char>> {
    p.map_values(|x: ProjectHosts| x.label@)
}

/// The first index of `key` among `keys`, found with a loop over `v`.
pub(crate) fn find_daemon(d: &Vec<(String, String)>, key: &str) -> (r: Option<usize>)
    ensures
        r matches Some(i) ==> i < d@.len(),
        match r {
            Some(i) => index_of(daemon_keys(d@), key@) == Some(i as int),
            None => index_of(daemon_keys(d@), key@) is None,
        },
{
    let ghost keys = daemon_keys(d@);
    let mut i: usize = 0;
    while i < d.len()
        invariant
            i <= d@.len(),
            keys == daemon_keys(d@),
            index_of(keys, key@) == index_from(keys, key@, i as int),
        decreases d.len() - i,
    {
        assert(keys[i as int] == d@[i as int].0@);
        if str_eq(d[i].0.as_str(), key) {
            return Some(i);
        }
        i += 1;
    }
    None
}

fn find_worktree(w: &Vec<(String, CheckoutHosts)>, key: &str) -> (r: Option<usize>)
    ensures
        r matches Some(i) ==> i < w@.len(),
        match r {
            Some(i) => index_of(worktree_keys(w@), key@) == Some(i as int),
            None => index_of(worktree_keys(w@), key@) is None,
        },
{
    let ghost keys = worktree_keys(w@);
    let mut i: usize = 0;
    while i < w.len()
        invariant
            i <= w@.len(),
            keys == worktree_keys(w@),
            index_of(keys, key@) == index_from(keys, key@, i as int),
        decreases w.len() - i,
    {
        assert(keys[i as int] == w@[i as int].0@);
        if str_eq(w[i].0.as_str(), key) {
            return Some(i);
        }
        i += 1;
    }
    None
}

pub(crate) fn find_project(p: &Vec<ProjectHosts>, key: &str) -> (r: Option<usize>)
    ensures
        r matches Some(i) ==> i < p@.len(),
        match r {
            Some(i) => index_of(project_keys(p@), key@) == Some(i as int),
            None => index_of(project_keys(p@), key@) is None,
        },
{
    let ghost keys = project_keys(p@);
    let mut i: usize = 0;
    while i < p.len()
        invariant
            i <= p@.len(),
            keys == project_keys(p@),
            index_of(keys, key@) == index_from(keys, key@, i as int),
        decreases p.len() - i,
    {
        assert(keys[i as int] == p@[i as int].label@);
        if str_eq(p[i].label.as_str(), key) {
            return Some(i);
        }
        i += 1;
    }
    None
}

/// The labels of `keys`, each once, ascending.
fn sorted_labels(keys: Vec<String>) -> (r: Vec<String>)
    ensures
        views(r@) == sorted_keys(views(keys@)),
        views(keys@).no_duplicates() ==> r@.len() == keys@.len(),
{
    let ghost kv = views(keys@);
    let r = sorted_distinct(keys);
    proof {
        lemma_sorted_keys(views(r@), kv);
        if kv.no_duplicates() {
            lemma_sorted_keys_len(views(r@), kv);
        }
    }
    r
}

impl CheckoutHosts {
    /// Sorted daemon labels, for listings and error pages.
    pub fn labels(&self) -> (r: Vec<String>)
        ensures
            views(r@) == sorted_keys(daemon_keys(self.daemons@)),
            self.wf() ==> r@.len() == self.daemons@.len(),
    {
        let mut keys: Vec<String> = Vec::new();
        let mut i: usize = 0;
        while i < self.daemons.len()
            invariant
                i <= self.daemons@.len(),
                views(keys@) == daemon_keys(self.daemons@).subrange(0, i as int),
            decreases self.daemons.len() - i,
        {
            let ghost kb = keys@;
            keys.push(self.daemons[i].0.clone());
            assert(views(keys@) =~= views(kb).push(self.daemons@[i as int].0@));
            i += 1;
            assert(views(keys@) =~= daemon_keys(self.daemons@).subrange(0, i as int));
        }
        assert(daemon_keys(self.daemons@).subrange(0, i as int) =~= daemon_keys(self.daemons@));
        sorted_labels(keys)
    }
}

impl ProjectHosts {
    /// Sorted worktree labels.
    pub fn worktree_labels(&self) -> (r: Vec<String>)
        ensures
            views(r@) == sorted_keys(worktree_keys(self.worktrees@)),
            self.wf() ==> r@.len() == self.worktrees@.len(),
    {
        let mut keys: Vec<String> = Vec::new();
        let mut i: usize = 0;
        while i < self.worktrees.len()
            invariant
                i <= self.worktrees@.len(),
                views(keys@) == worktree_keys(self.worktrees@).subrange(0, i as int),
            decreases self.worktrees.len() - i,
        {
            let ghost kb = keys@;
            keys.push(self.worktrees[i].0.clone());
            assert(views(keys@) =~= views(kb).push(self.worktrees@[i as int].0@));
            i += 1;
            assert(views(keys@) =~= worktree_keys(self.worktrees@).subrange(0, i as int));
        }
        assert(worktree_keys(self.worktrees@).subrange(0, i as int) =~= worktree_keys(self.worktrees@));
        sorted_labels(keys)
    }
}

/// The labels of a hostname (its TLD already stripped), lowercased: every
/// piece between dots, empty ones included.
pub open spec fn host_labels(subdomain: Seq<char>) -> Seq<Seq<char>> {
    split_on(subdomain, Sep::Dot).map_values(|l: Seq<char>| lower_seq(l))
}

/// What resolving `subdomain` against `reg` gives.
pub open spec fn spec_resolve(reg: HostRegistry, subdomain: Seq<char>, wildcard: bool) -> HostTargetV {
    let labels = host_labels(subdomain);
    let rest = labels.drop_last();
    match index_of(project_keys(reg.projects@), labels.last()) {
        None => HostTargetV::UnknownProject { known: sorted_keys(project_keys(reg.projects@)) },
        Some(pi) => {
            let project = reg.projects@[pi];
            if rest.len() == 0 {
                HostTargetV::ProjectPage { project: project.label@ }
            } else {
                let wi = index_of(worktree_keys(project.worktrees@), rest.last());
                let checkout = match wi {
                    Some(w) => project.worktrees@[w].1,
                    None => project.primary,
                };
                let worktree = match wi {
                    Some(w) => Some(rest.last()),
                    None => None,
                };
                let head = match wi {
                    Some(w) => rest.drop_last(),
                    None => rest,
                };
                if head.len() == 0 {
                    HostTargetV::WorktreePage {
                        project: project.label@,
                        worktree: match worktree {
                            Some(w) => w,
                            None => Seq::empty(),
                        },
                    }
                } else if head.len() > 1 && !wildcard {
                    HostTargetV::UnknownDaemon {
                        project: project.label@,
                        worktree,
                        known: sorted_keys(daemon_keys(checkout.daemons@)),
                    }
                } else {
                    match index_of(daemon_keys(checkout.daemons@), head.last()) {
                        Some(di) => HostTargetV::Daemon {
                            project: project.label@,
                            worktree,
                            dir: checkout.dir@,
                            namespace: checkout.namespace@,
                            daemon: checkout.daemons@[di].1@,
                        },
                        None => HostTargetV::UnknownDaemon {
                            project: project.label@,
                            worktree,
                            known: sorted_keys(daemon_keys(checkout.daemons@)),
                        },
                    }
                }
            }
        },
    }
}

/// What looking up `head`'s last label among `checkout`'s daemons gives.
fn resolve_daemon(
    project: &ProjectHosts,
    checkout: &CheckoutHosts,
    worktree: Option<String>,
    label: &str,
    extra: bool,
    wildcard: bool,
) -> (r: HostTarget)
    ensures
        r@ == (if extra && !wildcard {
            HostTargetV::UnknownDaemon {
                project: project.label@,
                worktree: opt_string(worktree),
                known: sorted_keys(daemon_keys(checkout.daemons@)),
            }
        } else {
            match index_of(daemon_keys(checkout.daemons@), label@) {
                Some(di) => HostTargetV::Daemon {
                    project: project.label@,
                    worktree: opt_string(worktree),
                    dir: checkout.dir@,
                    namespace: checkout.namespace@,
                    daemon: checkout.daemons@[di].1@,
                },
                None => HostTargetV::UnknownDaemon {
                    project: project.label@,
                    worktree: opt_string(worktree),
                    known: sorted_keys(daemon_keys(checkout.daemons@)),
                },
            }
        }),
{
    if extra && !wildcard {
        return HostTarget::UnknownDaemon { project: project.label.clone(), worktree, known: checkout.labels() };
    }
    match find_daemon(&checkout.daemons, label) {
        Some(di) => HostTarget::Daemon {
            project: project.label.clone(),
            worktree,
            dir: checkout.dir.clone(),
            namespace: checkout.namespace.clone(),
            daemon: checkout.daemons[di].1.clone(),
        },
        None => HostTarget::UnknownDaemon { project: project.label.clone(), worktree, known: checkout.labels() },
    }
}

impl HostRegistry {
    /// Sorted project labels.
    pub fn project_labels(&self) -> (r: Vec<String>)
        ensures
            views(r@) == sorted_keys(project_keys(self.projects@)),
            self.wf() ==> r@.len() == self.projects@.len(),
    {
        let mut keys: Vec<String> = Vec::new();
        let mut i: usize = 0;
        while i < self.projects.len()
            invariant
                i <= self.projects@.len(),
                views(keys@) == project_keys(self.projects@).subrange(0, i as int),
            decreases self.projects.len() - i,
        {
            let ghost kb = keys@;
            keys.push(self.projects[i].label.clone());
            assert(views(keys@) =~= views(kb).push(self.projects@[i as int].label@));
            i += 1;
            assert(views(keys@) =~= project_keys(self.projects@).subrange(0, i as int));
        }
        assert(project_keys(self.projects@).subrange(0, i as int) =~= project_keys(self.projects@));
        sorted_labels(keys)
    }

    /// Resolve a hostname's labels (the host with the TLD already stripped).
    ///
    /// Resolution runs right to left: the last label must name a project,
    /// an optional worktree label follows, and the label before the
    /// daemon's is where extra leading labels become wildcard subdomains of
    /// the same daemon. A label that names both a worktree and a daemon is
    /// read as the worktree.
    pub fn resolve(&self, subdomain: &str, wildcard: bool) -> (r: HostTarget)
        ensures
            r@ == spec_resolve(*self, subdomain@, wildcard),
    {
        let cs = chars_of(subdomain);
        let pieces = split_chars(&cs, Sep::Dot);
        let ghost hl = host_labels(subdomain@);
        proof { crate::split::lemma_split_nonempty(subdomain@, Sep::Dot); }
        let mut labels: Vec<String> = Vec::new();
        let mut i: usize = 0;
        while i < pieces.len()
            invariant
                i <= pieces@.len(),
                views_of(pieces@) == split_on(subdomain@, Sep::Dot),
                hl == host_labels(subdomain@),
                views(labels@) == hl.subrange(0, i as int),
            decreases pieces.len() - i,
        {
            let s = string_of(&pieces[i], 0, pieces[i].len());
            assert(pieces@[i as int]@.subrange(0, pieces@[i as int]@.len() as int) =~= pieces@[i as int]@);
            assert(views_of(pieces@)[i as int] == pieces@[i as int]@);
            let l = to_ascii_lowercase(s.as_str());
            let ghost lb = labels@;
            labels.push(l);
            assert(views(labels@) =~= views(lb).push(hl[i as int]));
            i += 1;
            assert(views(labels@) =~= hl.subrange(0, i as int));
        }
        assert(hl.subrange(0, i as int) =~= hl);
        let n = labels.len();
        assert(views(labels@)[n - 1] == labels@[n - 1]@);
        let pi = match find_project(&self.projects, labels[n - 1].as_str()) {
            Some(pi) => pi,
            None => {
                return HostTarget::UnknownProject { known: self.project_labels() };
            },
        };
        let project = &self.projects[pi];
        let rest = n - 1;
        if rest == 0 {
            return HostTarget::ProjectPage { project: project.label.clone() };
        }
        let ghost restv = hl.drop_last();
        assert(restv.last() == labels@[rest - 1]@);
        match find_worktree(&project.worktrees, labels[rest - 1].as_str()) {
            Some(wi) => {
                let checkout = &project.worktrees[wi].1;
                let worktree = labels[rest - 1].clone();
                let head = rest - 1;
                if head == 0 {
                    return HostTarget::WorktreePage { project: project.label.clone(), worktree };
                }
                assert(restv.drop_last().last() == labels@[head - 1]@);
                resolve_daemon(project, checkout, Some(worktree), labels[head - 1].as_str(), head > 1, wildcard)
            },
            None => {
                assert(restv.last() == labels@[rest - 1]@);
                resolve_daemon(project, &project.primary, None, labels[rest - 1].as_str(), rest > 1, wildcard)
            },
        }
    }
}

// ─── grouping worktrees ─────────────────────────────────────────────────────

/// The error for two worktree directories claiming one label.
pub open spec fn worktree_collision(label: Seq<char>, project: Seq<char>, first: Seq<char>, second: Seq<char>) -> Seq<char> {
    "worktree label '"@ + label + "' in project '"@ + project
        + "' is claimed by two directories: "@ + first + " and "@ + second
        + ". Set `worktree_label` in one of them."@
}

/// Going through `found` in order: the checkouts kept by label (the first
/// for each label), the errors, and the labels found colliding.
pub open spec fn group_state(project: Seq<char>, found: Seq<(String, CheckoutHosts)>) -> (
    Seq<(String, CheckoutHosts)>,
    Seq<Seq<char>>,
    Seq<Seq<char>>,
)
    decreases found.len(),
{
    if found.len() == 0 {
        (Seq::empty(), Seq::empty(), Seq::empty())
    } else {
        let (kept, errors, colliding) = group_state(project, found.drop_last());
        let (label, hosts) = found.last();
        match index_of(worktree_keys(kept), label@) {
            Some(k) => if kept[k].1.dir@ == hosts.dir@ {
                (kept, errors, colliding)
            } else {
                (
                    kept,
                    errors.push(worktree_collision(label@, project, kept[k].1.dir@, hosts.dir@)),
                    colliding.push(label@),
                )
            },
            None => (kept.push((label, hosts)), errors, colliding),
        }
    }
}

/// `kept` without every entry whose label is in `labels`.
pub open spec fn without_labels(kept: Seq<(String, CheckoutHosts)>, labels: Seq<Seq<char>>) -> Seq<(String, CheckoutHosts)>
    decreases kept.len(),
{
    if kept.len() == 0 {
        Seq::empty()
    } else if labels.contains(kept.last().0@) {
        without_labels(kept.drop_last(), labels)
    } else {
        without_labels(kept.drop_last(), labels).push(kept.last())
    }
}

proof fn lemma_group_state_distinct(project: Seq<char>, found: Seq<(String, CheckoutHosts)>)
    ensures
        worktree_keys(group_state(project, found).0).no_duplicates(),
        forall|i: int| 0 <= i < group_state(project, found).0.len() ==> found.contains(
            #[trigger] group_state(project, found).0[i],
        ),
    decreases found.len(),
{
    if found.len() > 0 {
        let rest = found.drop_last();
        lemma_group_state_distinct(project, rest);
        let kept = group_state(project, rest).0;
        let (label, hosts) = found.last();
        let out = group_state(project, found).0;
        assert forall|i: int| 0 <= i < kept.len() implies found.contains(#[trigger] kept[i]) by {
            assert(rest.contains(kept[i]));
            let j = choose|j: int| 0 <= j < rest.len() && rest[j] == kept[i];
            assert(found[j] == rest[j]);
        }
        if index_of(worktree_keys(kept), label@) is None {
            lemma_index_from(worktree_keys(kept), label@, 0);
            lemma_push_distinct(worktree_keys(kept), label@);
            assert(worktree_keys(kept.push((label, hosts))) =~= worktree_keys(kept).push(label@));
            assert(found[found.len() - 1] == (label, hosts));
            assert forall|i: int| 0 <= i < out.len() implies found.contains(#[trigger] out[i]) by {
                if i < kept.len() {
                    assert(out[i] == kept[i]);
                }
            }
        }
    }
}

proof fn lemma_without_labels_distinct(kept: Seq<(String, CheckoutHosts)>, labels: Seq<Seq<char>>)
    ensures
        forall|i: int| 0 <= i < without_labels(kept, labels).len() ==> kept.contains(
            #[trigger] without_labels(kept, labels)[i],
        ),
        worktree_keys(kept).no_duplicates() ==> worktree_keys(without_labels(kept, labels)).no_duplicates(),
    decreases kept.len(),
{
    if kept.len() > 0 {
        let k0 = kept.drop_last();
        let x = kept.last();
        lemma_without_labels_distinct(k0, labels);
        let o = without_labels(k0, labels);
        let out = without_labels(kept, labels);
        assert forall|i: int| 0 <= i < o.len() implies kept.contains(#[trigger] o[i]) by {
            assert(k0.contains(o[i]));
            let j = choose|j: int| 0 <= j < k0.len() && k0[j] == o[i];
            assert(kept[j] == k0[j]);
        }
        assert(kept[kept.len() - 1] == x);
        assert forall|i: int| 0 <= i < out.len() implies kept.contains(#[trigger] out[i]) by {
            if i < o.len() {
                assert(out[i] == o[i]);
            }
        }
        if worktree_keys(kept).no_duplicates() {
            let keys = worktree_keys(kept);
            assert(worktree_keys(k0) =~= keys.drop_last());
            assert forall|a: int, b: int| 0 <= a < k0.len() && 0 <= b < k0.len() && a != b implies worktree_keys(
                k0,
            )[a] != worktree_keys(k0)[b] by {
                assert(keys[a] != keys[b]);
            }
            if !labels.contains(x.0@) {
                assert forall|i: int| 0 <= i < o.len() implies worktree_keys(o)[i] != x.0@ by {
                    assert(k0.contains(o[i]));
                    let j = choose|j: int| 0 <= j < k0.len() && k0[j] == o[i];
                    assert(keys[j] != keys[kept.len() - 1]);
                }
                lemma_push_distinct(worktree_keys(o), x.0@);
                assert(worktree_keys(o.push(x)) =~= worktree_keys(o).push(x.0@));
            }
        }
    }
}

/// Group a project's worktree checkouts by label.
///
/// The first checkout of a label is kept; the same directory found again
/// is ignored; a different directory claiming a taken label is reported,
/// and in the end every label found colliding is dropped altogether,
/// because routing one of them would answer half the requests with the
/// other's content.
pub fn group_worktrees(project: &str, found: Vec<(String, CheckoutHosts)>) -> (r: (Vec<(String, CheckoutHosts)>, Vec<String>))
    ensures
        r.0@ == without_labels(group_state(project@, found@).0, group_state(project@, found@).2),
        views(r.1@) == group_state(project@, found@).1,
        worktree_keys(r.0@).no_duplicates(),
        forall|i: int| 0 <= i < r.0@.len() ==> found@.contains(#[trigger] r.0@[i]),
{
    let ghost all = found@;
    let mut rest = found;
    let mut kept: Vec<(String, CheckoutHosts)> = Vec::new();
    let mut errors: Vec<String> = Vec::new();
    let mut colliding: Vec<String> = Vec::new();
    let ghost mut k: int = 0;
    while rest.len() > 0
        invariant
            0 <= k <= all.len(),
            rest@ == all.subrange(k, all.len() as int),
            kept@ == group_state(project@, all.subrange(0, k)).0,
            views(errors@) == group_state(project@, all.subrange(0, k)).1,
            views(colliding@) == group_state(project@, all.subrange(0, k)).2,
        decreases rest@.len(),
    {
        let entry = rest.remove(0);
        assert(entry == all[k]);
        assert(rest@ =~= all.subrange(k + 1, all.len() as int));
        assert(all.subrange(0, k + 1).drop_last() =~= all.subrange(0, k));
        let (label, hosts) = entry;
        match find_worktree(&kept, label.as_str()) {
            Some(i) => {
                if !str_eq(kept[i].1.dir.as_str(), hosts.dir.as_str()) {
                    let mut msg = String::from_str("worktree label '");
                    msg.append(label.as_str());
                    msg.append("' in project '");
                    msg.append(project);
                    msg.append("' is claimed by two directories: ");
                    msg.append(kept[i].1.dir.as_str());
                    msg.append(" and ");
                    msg.append(hosts.dir.as_str());
                    msg.append(". Set `worktree_label` in one of them.");
                    let ghost eb = errors@;
                    errors.push(msg);
                    assert(views(errors@) =~= views(eb).push(msg@));
                    let ghost cb = colliding@;
                    colliding.push(label);
                    assert(views(colliding@) =~= views(cb).push(all[k].0@));
                }
            },
            None => {
                kept.push((label, hosts));
            },
        }
        proof { k = k + 1; }
    }
    assert(all.subrange(0, k) =~= all);
    // Drop every colliding label.
    let ghost kv = kept@;
    let ghost cv = views(colliding@);
    let mut left = kept;
    let mut out: Vec<(String, CheckoutHosts)> = Vec::new();
    let ghost mut j: int = 0;
    while left.len() > 0
        invariant
            0 <= j <= kv.len(),
            left@ == kv.subrange(j, kv.len() as int),
            cv == views(colliding@),
            out@ == without_labels(kv.subrange(0, j), cv),
        decreases left@.len(),
    {
        let e = left.remove(0);
        assert(e == kv[j]);
        assert(left@ =~= kv.subrange(j + 1, kv.len() as int));
        assert(kv.subrange(0, j + 1).drop_last() =~= kv.subrange(0, j));
        let mut hit = false;
        let mut c: usize = 0;
        while c < colliding.len()
            invariant
                c <= colliding@.len(),
                cv == views(colliding@),
                hit == (exists|x: int| 0 <= x < c && #[trigger] cv[x] == e.0@),
            decreases colliding.len() - c,
        {
            assert(cv[c as int] == colliding@[c as int]@);
            if str_eq(colliding[c].as_str(), e.0.as_str()) {
                hit = true;
            }
            c += 1;
        }
        assert(hit == cv.contains(e.0@));
        if !hit {
            out.push(e);
        }
        proof { j = j + 1; }
    }
    assert(kv.subrange(0, j) =~= kv);
    proof {
        lemma_group_state_distinct(project@, all);
        lemma_without_labels_distinct(kv, cv);
        assert forall|i: int| 0 <= i < out@.len() implies all.contains(#[trigger] out@[i]) by {
            assert(kv.contains(out@[i]));
            let x = choose|x: int| 0 <= x < kv.len() && kv[x] == out@[i];
            assert(all.contains(kv[x]));
        }
    }
    (out, errors)
}

// ─── laws ───────────────────────────────────────────────────────────────────

/// Whether `l` stands as one label of a hostname as written: no dot in it
/// and no uppercase letter, as every sanitised label is.
pub open spec fn plain_label(l: Seq<char>) -> bool {
    forall|i: int| 0 <= i < l.len() ==> #[trigger] l[i] != '.' && !('A' <= l[i] && l[i] <= 'Z')
}

proof fn lemma_plain_label(l: Seq<char>)
    requires
        plain_label(l),
    ensures
        lower_seq(l) == l,
        split_on(l, Sep::Dot) == seq![l],
{
    assert(lower_seq(l) =~= l);
    crate::split::lemma_split_whole(l, Sep::Dot);
}

#[verifier::spinoff_prover]
#[verifier::rlimit(40)]
proof fn lemma_labels_of_joined(d: Seq<char>, w: Option<Seq<char>>, p: Seq<char>)
    requires
        plain_label(d),
        plain_label(p),
        w matches Some(x) ==> plain_label(x),
    ensures
        host_labels(crate::hostname::labels::spec_join_labels(d, w, p)) == match w {
            Some(x) => seq![d, x, p],
            None => seq![d, p],
        },
{
    reveal_strlit(".");
    lemma_plain_label(d);
    lemma_plain_label(p);
    match w {
        Some(x) => {
            lemma_plain_label(x);
            crate::split::lemma_split_at_sep(x, '.', p, Sep::Dot);
            assert(x + "."@ + p =~= x + seq!['.'] + p);
            crate::split::lemma_split_at_sep(d, '.', x + "."@ + p, Sep::Dot);
            assert(crate::hostname::labels::spec_join_labels(d, w, p) =~= d + seq!['.'] + (x + "."@ + p));
            assert(split_on(crate::hostname::labels::spec_join_labels(d, w, p), Sep::Dot) =~= seq![d, x, p]);
        },
        None => {
            crate::split::lemma_split_at_sep(d, '.', p, Sep::Dot);
            assert(crate::hostname::labels::spec_join_labels(d, w, p) =~= d + seq!['.'] + p);
            assert(split_on(crate::hostname::labels::spec_join_labels(d, w, p), Sep::Dot) =~= seq![d, p]);
        },
    }
    let labels = split_on(crate::hostname::labels::spec_join_labels(d, w, p), Sep::Dot);
    assert(host_labels(crate::hostname::labels::spec_join_labels(d, w, p)) =~= labels);
}

/// The hostname made for a daemon of a project's primary checkout resolves
/// back to that daemon, wildcards on or off, unless its label also names one
/// of the project's worktrees, which a hostname then reads as the worktree.
pub proof fn law_a_daemon_hostname_resolves_to_its_daemon(reg: HostRegistry, pi: int, di: int, wildcard: bool)
    requires
        0 <= pi < reg.projects@.len(),
        index_of(project_keys(reg.projects@), reg.projects@[pi].label@) == Some(pi),
        plain_label(reg.projects@[pi].label@),
        0 <= di < reg.projects@[pi].primary.daemons@.len(),
        index_of(daemon_keys(reg.projects@[pi].primary.daemons@), reg.projects@[pi].primary.daemons@[di].0@) == Some(di),
        plain_label(reg.projects@[pi].primary.daemons@[di].0@),
        index_of(worktree_keys(reg.projects@[pi].worktrees@), reg.projects@[pi].primary.daemons@[di].0@) is None,
    ensures
        spec_resolve(
            reg,
            crate::hostname::labels::spec_join_labels(
                reg.projects@[pi].primary.daemons@[di].0@,
                None,
                reg.projects@[pi].label@,
            ),
            wildcard,
        ) == (HostTargetV::Daemon {
            project: reg.projects@[pi].label@,
            worktree: None,
            dir: reg.projects@[pi].primary.dir@,
            namespace: reg.projects@[pi].primary.namespace@,
            daemon: reg.projects@[pi].primary.daemons@[di].1@,
        }),
{
    let p = reg.projects@[pi];
    let d = p.primary.daemons@[di].0@;
    lemma_labels_of_joined(d, None, p.label@);
    let labels = host_labels(crate::hostname::labels::spec_join_labels(d, None, p.label@));
    assert(labels.last() == p.label@);
    assert(labels.drop_last() =~= seq![d]);
}

/// The hostname made for a daemon of a project's worktree resolves back to
/// that daemon in that worktree's checkout, wildcards on or off.
pub proof fn law_a_worktree_daemon_hostname_resolves_to_its_daemon(
    reg: HostRegistry,
    pi: int,
    wi: int,
    di: int,
    wildcard: bool,
)
    requires
        0 <= pi < reg.projects@.len(),
        index_of(project_keys(reg.projects@), reg.projects@[pi].label@) == Some(pi),
        plain_label(reg.projects@[pi].label@),
        0 <= wi < reg.projects@[pi].worktrees@.len(),
        index_of(worktree_keys(reg.projects@[pi].worktrees@), reg.projects@[pi].worktrees@[wi].0@) == Some(wi),
        plain_label(reg.projects@[pi].worktrees@[wi].0@),
        0 <= di < reg.projects@[pi].worktrees@[wi].1.daemons@.len(),
        index_of(
            daemon_keys(reg.projects@[pi].worktrees@[wi].1.daemons@),
            reg.projects@[pi].worktrees@[wi].1.daemons@[di].0@,
        ) == Some(di),
        plain_label(reg.projects@[pi].worktrees@[wi].1.daemons@[di].0@),
    ensures
        spec_resolve(
            reg,
            crate::hostname::labels::spec_join_labels(
                reg.projects@[pi].worktrees@[wi].1.daemons@[di].0@,
                Some(reg.projects@[pi].worktrees@[wi].0@),
                reg.projects@[pi].label@,
            ),
            wildcard,
        ) == (HostTargetV::Daemon {
            project: reg.projects@[pi].label@,
            worktree: Some(reg.projects@[pi].worktrees@[wi].0@),
            dir: reg.projects@[pi].worktrees@[wi].1.dir@,
            namespace: reg.projects@[pi].worktrees@[wi].1.namespace@,
            daemon: reg.projects@[pi].worktrees@[wi].1.daemons@[di].1@,
        }),
{
    let p = reg.projects@[pi];
    let w = p.worktrees@[wi];
    let d = w.1.daemons@[di].0@;
    lemma_labels_of_joined(d, Some(w.0@), p.label@);
    let labels = host_labels(crate::hostname::labels::spec_join_labels(d, Some(w.0@), p.label@));
    assert(labels.last() == p.label@);
    assert(labels.drop_last() =~= seq![d, w.0@]);
    assert(labels.drop_last().drop_last() =~= seq![d]);
}

proof fn lemma_lower_twice(c: char)
    ensures
        lower(lower(c)) == lower(c),
        (lower(c) == '.') == (c == '.'),
{
    if 'A' <= c && c <= 'Z' {
        assert('a' <= lower(c) && lower(c) <= 'z');
    }
}

proof fn lemma_split_lowered(s: Seq<char>)
    ensures
        split_on(lower_seq(s), Sep::Dot) == split_on(s, Sep::Dot).map_values(|l: Seq<char>| lower_seq(l)),
    decreases s.len(),
{
    let f = |l: Seq<char>| lower_seq(l);
    if s.len() == 0 {
        assert(lower_seq(s) =~= s);
        assert(lower_seq(Seq::<char>::empty()) =~= Seq::<char>::empty());
        assert(seq![Seq::<char>::empty()].map_values(f) =~= seq![Seq::<char>::empty()]);
    } else {
        let t = s.drop_last();
        let c = s.last();
        let ls = lower_seq(s);
        assert(ls.drop_last() =~= lower_seq(t));
        assert(ls.last() == lower(c));
        lemma_split_lowered(t);
        crate::split::lemma_split_nonempty(t, Sep::Dot);
        lemma_lower_twice(c);
        let p = split_on(t, Sep::Dot);
        let q = split_on(lower_seq(t), Sep::Dot);
        assert(q == p.map_values(f));
        if c == '.' {
            assert(lower_seq(Seq::<char>::empty()) =~= Seq::<char>::empty());
            assert(p.push(Seq::empty()).map_values(f) =~= q.push(Seq::empty()));
        } else {
            let last = p.last().push(c);
            assert(lower_seq(last) =~= q.last().push(lower(c)));
            assert(p.update(p.len() - 1, last).map_values(f) =~= q.update(q.len() - 1, q.last().push(lower(c))));
        }
    }
}

/// Host names are case-insensitive: resolving a name gives what resolving
/// its ASCII-lowercase form gives.
pub proof fn law_resolve_ignores_case(reg: HostRegistry, subdomain: Seq<char>, wildcard: bool)
    ensures
        spec_resolve(reg, subdomain, wildcard) == spec_resolve(reg, lower_seq(subdomain), wildcard),
{
    let f = |l: Seq<char>| lower_seq(l);
    lemma_split_lowered(subdomain);
    let p = split_on(subdomain, Sep::Dot);
    assert forall|i: int| 0 <= i < p.len() implies #[trigger] lower_seq(lower_seq(p[i])) == lower_seq(p[i]) by {
        assert forall|j: int| 0 <= j < p[i].len() implies lower(lower(p[i][j])) == lower(p[i][j]) by {
            lemma_lower_twice(p[i][j]);
        }
        assert(lower_seq(lower_seq(p[i])) =~= lower_seq(p[i]));
    }
    assert(host_labels(lower_seq(subdomain)) =~= host_labels(subdomain));
}

/// With wildcards on, any extra leading labels in front of a name that
/// resolves to a daemon reach that same daemon: `x.<name>` resolves as
/// `<name>` does, whether the daemon runs in the primary checkout or in a
/// worktree's.
pub proof fn law_wildcard_labels_reach_the_same_daemon(reg: HostRegistry, x: Seq<char>, name: Seq<char>)
    ensures
        spec_resolve(reg, name, true) is Daemon ==> spec_resolve(reg, x + "."@ + name, true) == spec_resolve(
            reg,
            name,
            true,
        ),
{
    reveal_strlit(".");
    let long = x + "."@ + name;
    assert(long =~= x + seq!['.'] + name);
    crate::split::lemma_split_at_sep(x, '.', name, Sep::Dot);
    crate::split::lemma_split_nonempty(x, Sep::Dot);
    crate::split::lemma_split_nonempty(name, Sep::Dot);
    let a = host_labels(x);
    let b = host_labels(name);
    let l = host_labels(long);
    assert(l =~= a + b);
    if spec_resolve(reg, name, true) is Daemon {
        assert(l.last() == b.last());
        let rest_b = b.drop_last();
        let rest_l = l.drop_last();
        assert(rest_l =~= a + rest_b);
        assert(rest_b.len() > 0);
        assert(rest_l.last() == rest_b.last());
        let project = reg.projects@[index_of(project_keys(reg.projects@), b.last())->0];
        let wi = index_of(worktree_keys(project.worktrees@), rest_b.last());
        match wi {
            Some(w) => {
                assert(rest_l.drop_last() =~= a + rest_b.drop_last());
                assert(rest_b.drop_last().len() > 0);
                assert(rest_l.drop_last().last() == rest_b.drop_last().last());
            },
            None => {},
        }
    }
}

} // verus!
