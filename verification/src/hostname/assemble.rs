//! Putting the registry together from what each project's configuration
//! says: which daemons a checkout answers for, and which project claims a
//! label first.

use vstd::prelude::*;
use crate::hostname::labels::{daemon_label, spec_daemon_label, ProxyConfig};
use crate::hostname::registry::{
    daemon_keys, find_daemon, find_project, group_state, group_worktrees, index_of, lemma_index_from,
    lemma_push_distinct, project_keys, without_labels, worktree_keys, CheckoutHosts, HostRegistry, ProjectHosts,
};
use crate::names::views;
use crate::text::str_eq;

verus! {

// ─── the daemons of a checkout ──────────────────────────────────────────────

/// What a checkout's merged configuration says about one daemon.
#[derive(Clone, Debug)]
pub struct DaemonConfigRef {
    /// The namespace its ID carries.
    pub namespace: String,
    /// Its name.
    pub name: String,
    /// Whether it configures a `port`.
    pub has_port: bool,
    /// Its `proxy` setting, if any.
    pub proxy: Option<ProxyConfig>,
}

/// The table with `key` mapped to `value`: replacing the value where the
/// key already is, added at the end otherwise.
pub open spec fn insert_pair(t: Seq<(Seq<char>, Seq<char>)>, key: Seq<char>, value: Seq<char>) -> Seq<
    (Seq<char>, Seq<char>),
> {
    match index_of(t.map_values(|p: (Seq<char>, Seq<char>)| p.0), key) {
        Some(i) => t.update(i, (key, value)),
        None => t.push((key, value)),
    }
}

/// The daemon table of a checkout of `namespace`: label to name for each
/// daemon of that namespace that configures a port and has a label, a later
/// daemon taking over a label an earlier one had.
pub open spec fn daemon_table(namespace: Seq<char>, ds: Seq<DaemonConfigRef>) -> Seq<(Seq<char>, Seq<char>)>
    decreases ds.len(),
{
    if ds.len() == 0 {
        Seq::empty()
    } else {
        let t = daemon_table(namespace, ds.drop_last());
        let d = ds.last();
        if d.namespace@ != namespace || !d.has_port {
            t
        } else {
            match spec_daemon_label(d.name@, d.proxy) {
                Some(l) => insert_pair(t, l, d.name@),
                None => t,
            }
        }
    }
}

/// The views of a daemon table.
pub open spec fn pairs_v(t: Seq<(String, String)>) -> Seq<(Seq<char>, Seq<char>)> {
    t.map_values(|p: (String, String)| (p.0@, p.1@))
}

/// One checkout of a project: its directory, its namespace, and the
/// daemons reachable within it.
pub fn checkout_hosts(dir: &str, namespace: &str, daemons: &Vec<DaemonConfigRef>) -> (r: CheckoutHosts)
    ensures
        r.dir@ == dir@,
        r.namespace@ == namespace@,
        pairs_v(r.daemons@) == daemon_table(namespace@, daemons@),
        r.wf(),
{
    let mut table: Vec<(String, String)> = Vec::new();
    let mut i: usize = 0;
    while i < daemons.len()
        invariant
            i <= daemons@.len(),
            pairs_v(table@) == daemon_table(namespace@, daemons@.subrange(0, i as int)),
            daemon_keys(table@).no_duplicates(),
        decreases daemons@.len() - i,
    {
        let d = &daemons[i];
        assert(daemons@.subrange(0, i + 1).drop_last() =~= daemons@.subrange(0, i as int));
        assert(daemons@.subrange(0, i + 1).last() == *d);
        if str_eq(d.namespace.as_str(), namespace) && d.has_port {
            let proxy: Option<&ProxyConfig> = match &d.proxy {
                Some(p) => Some(p),
                None => None,
            };
            assert(crate::hostname::labels::opt_proxy(proxy) == d.proxy);
            if let Some(label) = daemon_label(d.name.as_str(), proxy) {
                let ghost before = pairs_v(table@);
                assert(daemon_keys(table@) =~= before.map_values(|p: (Seq<char>, Seq<char>)| p.0));
                match find_daemon(&table, label.as_str()) {
                    Some(k) => {
                        let ghost keys0 = daemon_keys(table@);
                        proof { lemma_index_from(keys0, label@, 0); }
                        let name = d.name.as_str().to_owned();
                        table.set(k, (label, name));
                        assert(pairs_v(table@) =~= before.update(k as int, (table@[k as int].0@, d.name@)));
                        assert(daemon_keys(table@) =~= keys0);
                    },
                    None => {
                        let ghost keys0 = daemon_keys(table@);
                        proof {
                            lemma_index_from(keys0, label@, 0);
                            lemma_push_distinct(keys0, label@);
                        }
                        let name = d.name.as_str().to_owned();
                        table.push((label, name));
                        assert(pairs_v(table@) =~= before.push((table@.last().0@, d.name@)));
                        assert(daemon_keys(table@) =~= keys0.push(label@));
                    },
                }
            }
        }
        i += 1;
    }
    assert(daemons@.subrange(0, i as int) =~= daemons@);
    CheckoutHosts { dir: dir.to_owned(), namespace: namespace.to_owned(), daemons: table }
}

// ─── projects ───────────────────────────────────────────────────────────────

/// The error for two directories claiming one project label.
pub open spec fn project_collision(label: Seq<char>, first: Seq<char>, second: Seq<char>) -> Seq<char> {
    "project label '"@ + label + "' is claimed by two directories: "@ + first + " and "@ + second
        + ". Set a distinct top-level `namespace` in one of them."@
}

/// Whether every checkout listed is well-formed.
pub open spec fn checkouts_wf(found: Seq<(String, CheckoutHosts)>) -> bool {
    forall|i: int| 0 <= i < found.len() ==> (#[trigger] found[i]).1.wf()
}

/// The worktrees found for a project, or none when worktrees are off.
pub open spec fn found_seq(found: Option<Vec<(String, CheckoutHosts)>>) -> Seq<(String, CheckoutHosts)> {
    match found {
        Some(f) => f@,
        None => Seq::empty(),
    }
}

impl HostRegistry {
    /// A registry with no project and no error.
    pub fn new() -> (r: HostRegistry)
        ensures
            r.projects@.len() == 0,
            r.errors@.len() == 0,
            r.wf(),
    {
        HostRegistry { projects: Vec::new(), errors: Vec::new() }
    }

    /// Add a project under `label`, with its primary checkout and the
    /// worktrees found for it (`None` when worktrees are off).
    ///
    /// The first project to claim a label keeps it; another directory
    /// claiming it is reported, and the same directory found again is not.
    /// A new project's worktrees are grouped by label, colliding labels
    /// dropped and reported.
    pub fn add_project(&mut self, label: String, primary: CheckoutHosts, found: Option<Vec<(String, CheckoutHosts)>>)
        ensures
            match index_of(project_keys(old(self).projects@), label@) {
                Some(i) => {
                    &&& final(self).projects@ == old(self).projects@
                    &&& if old(self).projects@[i].primary.dir@ != primary.dir@ {
                        views(final(self).errors@) == views(old(self).errors@).push(
                            project_collision(label@, old(self).projects@[i].primary.dir@, primary.dir@),
                        )
                    } else {
                        final(self).errors@ == old(self).errors@
                    }
                },
                None => {
                    let g = group_state(label@, found_seq(found));
                    &&& final(self).projects@.len() == old(self).projects@.len() + 1
                    &&& final(self).projects@.drop_last() == old(self).projects@
                    &&& final(self).projects@.last().label == label
                    &&& final(self).projects@.last().primary == primary
                    &&& final(self).projects@.last().worktrees@ == without_labels(g.0, g.2)
                    &&& views(final(self).errors@) == views(old(self).errors@) + g.1
                },
            },
            old(self).wf() && primary.wf() && checkouts_wf(found_seq(found)) ==> final(self).wf(),
    {
        match find_project(&self.projects, label.as_str()) {
            Some(i) => {
                let existing = self.projects[i].primary.dir.as_str();
                if !str_eq(existing, primary.dir.as_str()) {
                    let mut m = String::from_str("project label '");
                    m.append(label.as_str());
                    m.append("' is claimed by two directories: ");
                    m.append(existing);
                    m.append(" and ");
                    m.append(primary.dir.as_str());
                    m.append(". Set a distinct top-level `namespace` in one of them.");
                    let ghost before = views(self.errors@);
                    self.errors.push(m);
                    assert(views(self.errors@) =~= before.push(
                        project_collision(label@, old(self).projects@[i as int].primary.dir@, primary.dir@),
                    ));
                }
            },
            None => {
                let ghost f = found_seq(found);
                let found_list = match found {
                    Some(f) => f,
                    None => Vec::new(),
                };
                assert(found_list@ == f);
                let (worktrees, errors) = group_worktrees(label.as_str(), found_list);
                let ghost before = views(self.errors@);
                let mut errs = errors;
                let ghost added = views(errs@);
                self.errors.append(&mut errs);
                assert(views(self.errors@) =~= before + added);
                let ghost old_projects = self.projects@;
                let ghost lv = label@;
                let project = ProjectHosts { label, primary, worktrees };
                proof {
                    if old(self).wf() && project.primary.wf() && checkouts_wf(f) {
                        assert forall|i: int| 0 <= i < project.worktrees@.len() implies (
                        #[trigger] project.worktrees@[i]).1.wf() by {
                            assert(f.contains(project.worktrees@[i]));
                            let j = choose|j: int| 0 <= j < f.len() && f[j] == project.worktrees@[i];
                            assert(f[j].1.wf());
                        }
                        lemma_index_from(project_keys(old_projects), lv, 0);
                        lemma_push_distinct(project_keys(old_projects), lv);
                    }
                }
                self.projects.push(project);
                proof {
                    assert(project_keys(self.projects@) =~= project_keys(old_projects).push(lv));
                    assert forall|i: int| 0 <= i < self.projects@.len() && i < old_projects.len() implies self.projects@[i]
                        == old_projects[i] by {}
                }
            },
        }
    }
}

// ─── the registry from every project found ──────────────────────────────────

/// What was read in one primary checkout: its project label and hosts,
/// each `None` when it could not be derived, and the worktrees found with
/// their labels (`None` when worktrees are off).
#[derive(Clone, Debug)]
pub struct FoundProject {
    pub label: Option<String>,
    pub primary: Option<CheckoutHosts>,
    pub worktrees: Option<Vec<(String, CheckoutHosts)>>,
}

/// Whether what was found in a checkout is well-formed: its hosts and its
/// worktrees' hosts each name a daemon label once.
pub open spec fn found_wf(f: FoundProject) -> bool {
    &&& f.primary matches Some(p) ==> p.wf()
    &&& checkouts_wf(found_seq(f.worktrees))
}

/// A project as the registry holds it: label, primary checkout, worktrees.
pub open spec fn project_model(p: ProjectHosts) -> (String, CheckoutHosts, Seq<(String, CheckoutHosts)>) {
    (p.label, p.primary, p.worktrees@)
}

/// The projects of a registry, as models.
pub open spec fn projects_model(ps: Seq<ProjectHosts>) -> Seq<(String, CheckoutHosts, Seq<(String, CheckoutHosts)>)> {
    ps.map_values(|p: ProjectHosts| project_model(p))
}

/// The labels of modelled projects.
pub open spec fn model_keys(ps: Seq<(String, CheckoutHosts, Seq<(String, CheckoutHosts)>)>) -> Seq<Seq<char>> {
    ps.map_values(|x: (String, CheckoutHosts, Seq<(String, CheckoutHosts)>)| x.0@)
}

/// The registry, projects and errors, after adding what was found in one
/// checkout: one without a label or hosts adds nothing; the first to claim
/// a label keeps it, and another directory claiming it is reported; a new
/// project's worktrees are grouped by label.
pub open spec fn model_add(
    m: (Seq<(String, CheckoutHosts, Seq<(String, CheckoutHosts)>)>, Seq<Seq<char>>),
    f: FoundProject,
) -> (Seq<(String, CheckoutHosts, Seq<(String, CheckoutHosts)>)>, Seq<Seq<char>>) {
    match (f.label, f.primary) {
        (Some(label), Some(primary)) => match index_of(model_keys(m.0), label@) {
            Some(i) => if m.0[i].1.dir@ != primary.dir@ {
                (m.0, m.1.push(project_collision(label@, m.0[i].1.dir@, primary.dir@)))
            } else {
                m
            },
            None => {
                let g = group_state(label@, found_seq(f.worktrees));
                (m.0.push((label, primary, without_labels(g.0, g.2))), m.1 + g.1)
            },
        },
        _ => m,
    }
}

/// The registry built from what was found, in order.
pub open spec fn model_of(found: Seq<FoundProject>) -> (
    Seq<(String, CheckoutHosts, Seq<(String, CheckoutHosts)>)>,
    Seq<Seq<char>>,
)
    decreases found.len(),
{
    if found.len() == 0 {
        (Seq::empty(), Seq::empty())
    } else {
        model_add(model_of(found.drop_last()), found.last())
    }
}

impl HostRegistry {
    /// The registry of the projects found in distinct primary checkouts, in
    /// the order given.
    pub fn from_dirs(found: Vec<FoundProject>) -> (r: HostRegistry)
        ensures
            (projects_model(r.projects@), views(r.errors@)) == model_of(found@),
            (forall|i: int| 0 <= i < found@.len() ==> found_wf(#[trigger] found@[i])) ==> r.wf(),
    {
        let ghost all = found@;
        let n = found.len();
        let mut reg = HostRegistry::new();
        let mut rest = found;
        let mut k: usize = 0;
        assert(all.subrange(0, 0) =~= Seq::<FoundProject>::empty());
        assert((projects_model(reg.projects@), views(reg.errors@)) =~= model_of(all.subrange(0, 0)));
        while k < n
            invariant
                n == all.len(),
                k <= n,
                rest@ == all.subrange(k as int, n as int),
                (projects_model(reg.projects@), views(reg.errors@)) == model_of(all.subrange(0, k as int)),
                (forall|i: int| 0 <= i < all.len() ==> found_wf(#[trigger] all[i])) ==> reg.wf(),
            decreases n - k,
        {
            let ghost before = reg;
            let ghost m0 = model_of(all.subrange(0, k as int));
            assert(rest@.len() > 0);
            let f = rest.remove(0);
            assert(f == all[k as int]);
            assert(rest@ =~= all.subrange(k + 1, n as int));
            let ghost fv = f;
            assert(all.subrange(0, k + 1).drop_last() =~= all.subrange(0, k as int));
            assert(all.subrange(0, k + 1).last() == fv);
            assert(project_keys(before.projects@) =~= model_keys(projects_model(before.projects@)));
            match (f.label, f.primary) {
                (Some(label), Some(primary)) => {
                    let ghost lv = label;
                    let ghost pv = primary;
                    proof {
                        if forall|i: int| 0 <= i < all.len() ==> found_wf(#[trigger] all[i]) {
                            assert(found_wf(all[k as int]));
                        }
                    }
                    reg.add_project(label, primary, f.worktrees);
                    proof {
                        crate::hostname::registry::lemma_index_from(project_keys(before.projects@), lv@, 0);
                        match index_of(project_keys(before.projects@), lv@) {
                            Some(i) => {
                                assert(projects_model(before.projects@)[i].1 == before.projects@[i].primary);
                            },
                            None => {
                                assert(projects_model(reg.projects@) =~= projects_model(before.projects@).push(
                                    project_model(reg.projects@.last()),
                                ));
                            },
                        }
                    }
                },
                _ => {},
            }
            k += 1;
        }
        assert(all.subrange(0, n as int) =~= all);
        reg
    }
}

// ─── laws ───────────────────────────────────────────────────────────────────

/// Each project label is held by one project only: a second directory
/// claiming a label is reported rather than added, whatever order the
/// directories come in.
pub proof fn law_a_label_names_one_project(found: Seq<FoundProject>)
    ensures
        model_keys(model_of(found).0).no_duplicates(),
    decreases found.len(),
{
    if found.len() > 0 {
        law_a_label_names_one_project(found.drop_last());
        let m = model_of(found.drop_last());
        let f = found.last();
        let keys = model_keys(m.0);
        match (f.label, f.primary) {
            (Some(label), Some(primary)) => {
                crate::hostname::registry::lemma_index_from(keys, label@, 0);
                if index_of(keys, label@) is None {
                    let g = group_state(label@, found_seq(f.worktrees));
                    let next = m.0.push((label, primary, without_labels(g.0, g.2)));
                    assert(model_keys(next) =~= keys.push(label@));
                    assert forall|a: int, b: int| 0 <= a < b < keys.len() + 1 implies keys.push(label@)[a]
                        != keys.push(label@)[b] by {
                        if b == keys.len() {
                            assert(keys[a] != label@);
                        } else {
                            assert(keys[a] != keys[b]);
                        }
                    }
                }
            },
            _ => {},
        }
    }
}

} // verus!
