//! Reading git checkouts and assembling the hostname registry.
use pitchfork_proxy::hostname::assemble::{checkout_hosts, DaemonConfigRef, FoundProject};
use pitchfork_proxy::hostname::checkout::{
    checkout_at_git_file, distinct_paths, gitdir_pointer, linked_primary, normalize_path,
};
use pitchfork_proxy::hostname::labels::ProxyConfig;
use pitchfork_proxy::hostname::registry::{CheckoutHosts, HostRegistry};

#[test]
fn paths_are_normalised_lexically() {
    assert_eq!(normalize_path("/a/b/../c/./d"), "/a/c/d");
    assert_eq!(normalize_path("/../a"), "/a");
    assert_eq!(normalize_path("a//b/"), "a/b");
    assert_eq!(normalize_path("a/.."), "");
    assert_eq!(normalize_path("/"), "/");
}

#[test]
fn a_linked_worktree_points_back_to_its_primary() {
    let content = "gitdir: /src/my-repo/.git/worktrees/feature\n";
    assert_eq!(gitdir_pointer("/src/feature", content), Some("/src/my-repo/.git/worktrees/feature".to_string()));
    assert_eq!(linked_primary("/src/feature", content), Some("/src/my-repo".to_string()));

    // A relative pointer is resolved against the worktree's directory.
    let relative = "gitdir: ../my-repo/.git/worktrees/feature\n";
    assert_eq!(linked_primary("/src/feature", relative), Some("/src/my-repo".to_string()));

    // A submodule's pointer is no linked worktree.
    let submodule = "gitdir: ../.git/modules/sub\n";
    assert_eq!(linked_primary("/src/repo/sub", submodule), None);
    assert_eq!(gitdir_pointer("/src/repo/sub", submodule), Some("/src/repo/.git/modules/sub".to_string()));

    assert_eq!(gitdir_pointer("/x", "nothing here\n"), None);
    assert_eq!(gitdir_pointer("/x", "gitdir:   \n"), None);
}

#[test]
fn a_git_file_places_its_directory() {
    let c = checkout_at_git_file("/src/feature", Some("gitdir: /src/my-repo/.git/worktrees/feature\n"));
    assert_eq!(c.primary, "/src/my-repo");
    assert_eq!(c.worktree.as_deref(), Some("/src/feature"));
    assert_eq!(c.root(), "/src/feature");

    let sub = checkout_at_git_file("/src/repo/sub", Some("gitdir: ../.git/modules/sub\n"));
    assert_eq!(sub.primary, "/src/repo/sub");
    assert_eq!(sub.worktree, None);

    let unreadable = checkout_at_git_file("/src/x", None);
    assert_eq!(unreadable.primary, "/src/x");
    assert_eq!(unreadable.worktree, None);
}

#[test]
fn candidate_directories_are_collapsed_in_order() {
    let ps = vec!["/b".to_string(), "/a".to_string(), "/b".to_string(), "/c".to_string(), "/a".to_string()];
    assert_eq!(distinct_paths(&ps), vec!["/b".to_string(), "/a".to_string(), "/c".to_string()]);
}

fn daemon(ns: &str, name: &str, has_port: bool, proxy: Option<ProxyConfig>) -> DaemonConfigRef {
    DaemonConfigRef { namespace: ns.to_string(), name: name.to_string(), has_port, proxy }
}

#[test]
fn a_checkout_answers_for_its_own_daemons_with_ports() {
    let ds = vec![
        daemon("proj", "api", true, None),
        daemon("proj", "worker", false, None),
        daemon("other", "web", true, None),
        daemon("proj", "hidden", true, Some(ProxyConfig::Disabled)),
        daemon("proj", "frontend", true, Some(ProxyConfig::Name("App".to_string()))),
        daemon("proj", "api2", true, Some(ProxyConfig::Name("api".to_string()))),
    ];
    let c = checkout_hosts("/src/proj", "proj", &ds);
    assert_eq!(c.dir, "/src/proj");
    assert_eq!(c.namespace, "proj");
    assert_eq!(
        c.daemons,
        vec![("api".to_string(), "api2".to_string()), ("app".to_string(), "frontend".to_string())]
    );
}

fn hosts(dir: &str) -> CheckoutHosts {
    CheckoutHosts { dir: dir.to_string(), namespace: "ns".to_string(), daemons: vec![] }
}

#[test]
fn the_first_project_to_claim_a_label_keeps_it() {
    let mut r = HostRegistry::new();
    r.add_project("shop".to_string(), hosts("/src/shop"), None);
    r.add_project("shop".to_string(), hosts("/src/shop"), None);
    assert_eq!(r.projects.len(), 1);
    assert!(r.errors.is_empty());
    r.add_project("shop".to_string(), hosts("/other/shop"), None);
    assert_eq!(r.projects.len(), 1);
    assert_eq!(
        r.errors,
        vec![
            "project label 'shop' is claimed by two directories: /src/shop and /other/shop. Set a distinct top-level `namespace` in one of them."
                .to_string()
        ]
    );
    r.add_project(
        "blog".to_string(),
        hosts("/src/blog"),
        Some(vec![("a".to_string(), hosts("/wt/a1")), ("a".to_string(), hosts("/wt/a2")), ("b".to_string(), hosts("/wt/b"))]),
    );
    assert_eq!(r.projects.len(), 2);
    assert_eq!(r.projects[1].label, "blog");
    assert_eq!(r.projects[1].worktrees.len(), 1);
    assert_eq!(r.projects[1].worktrees[0].0, "b");
    assert_eq!(r.errors.len(), 2);
}

fn found(label: Option<&str>, dir: Option<&str>, worktrees: Option<Vec<(String, CheckoutHosts)>>) -> FoundProject {
    FoundProject { label: label.map(str::to_string), primary: dir.map(hosts), worktrees }
}

#[test]
fn the_registry_holds_each_project_found_once() {
    let r = HostRegistry::from_dirs(vec![
        found(Some("shop"), Some("/src/shop"), None),
        // No label could be derived: not routable, and not an error.
        found(None, Some("/src/nameless"), None),
        // No configuration could be read.
        found(Some("ghost"), None, None),
        found(Some("blog"), Some("/src/blog"), Some(vec![("a".to_string(), hosts("/wt/a"))])),
        found(Some("shop"), Some("/other/shop"), None),
        found(Some("blog"), Some("/src/blog"), None),
    ]);
    let labels: Vec<&str> = r.projects.iter().map(|p| p.label.as_str()).collect();
    assert_eq!(labels, vec!["shop", "blog"]);
    assert_eq!(r.projects[0].primary.dir, "/src/shop");
    assert_eq!(r.projects[1].worktrees.len(), 1);
    assert_eq!(
        r.errors,
        vec![
            "project label 'shop' is claimed by two directories: /src/shop and /other/shop. Set a distinct top-level `namespace` in one of them."
                .to_string()
        ]
    );
}

#[test]
fn an_empty_list_makes_an_empty_registry() {
    let r = HostRegistry::from_dirs(vec![]);
    assert!(r.projects.is_empty());
    assert!(r.errors.is_empty());
}
