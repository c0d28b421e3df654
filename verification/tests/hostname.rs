//! Labels, automatic hostnames and hostname resolution.
use pitchfork_proxy::hostname::labels::{
    auto_host_for_daemon, daemon_label, join_labels, project_label, sanitize_label, worktree_label, ProxyConfig,
};
use pitchfork_proxy::hostname::registry::{
    group_worktrees, Checkout, CheckoutHosts, HostRegistry, HostTarget, ProjectHosts,
};

fn checkout(dir: &str, namespace: &str, daemons: &[(&str, &str)]) -> CheckoutHosts {
    CheckoutHosts {
        dir: dir.to_string(),
        namespace: namespace.to_string(),
        daemons: daemons.iter().map(|(l, n)| (l.to_string(), n.to_string())).collect(),
    }
}

#[test]
fn test_sanitize_label() {
    assert_eq!(sanitize_label("api").as_deref(), Some("api"));
    assert_eq!(sanitize_label("My App").as_deref(), Some("my-app"));
    assert_eq!(sanitize_label("feature/my_branch").as_deref(), Some("feature-my-branch"));
    assert_eq!(sanitize_label("--weird--").as_deref(), Some("weird"));
    assert_eq!(sanitize_label("café").as_deref(), Some("caf"));
    assert_eq!(sanitize_label("---"), None);
    assert_eq!(sanitize_label(""), None);
    assert_eq!(sanitize_label(&"a".repeat(80)).unwrap().len(), 63);
}

#[test]
fn test_sanitized_label_sanitizes_to_itself() {
    let long = format!("{}-{}", "a".repeat(62), "b".repeat(10));
    for input in ["My App", "feature/my_branch", "--weird--", "café", long.as_str()] {
        let once = sanitize_label(input).unwrap();
        assert_eq!(sanitize_label(&once), Some(once.clone()));
    }
}

#[test]
fn test_daemon_label_override_and_opt_out() {
    assert_eq!(daemon_label("api", None).as_deref(), Some("api"));
    assert_eq!(daemon_label("api", Some(&ProxyConfig::Enabled)).as_deref(), Some("api"));
    assert_eq!(daemon_label("api", Some(&ProxyConfig::Name("Web UI".into()))).as_deref(), Some("web-ui"));
    assert_eq!(daemon_label("api", Some(&ProxyConfig::Disabled)), None);
}

fn registry() -> HostRegistry {
    let worktrees = vec![(
        "fix-1".to_string(),
        checkout("/repos/fix-1", "fix-1", &[("api", "api"), ("web", "web")]),
    )];
    let projects = vec![ProjectHosts {
        label: "myproj".to_string(),
        primary: checkout("/repos/myproj", "myproj", &[("api", "api")]),
        worktrees,
    }];
    HostRegistry { projects, errors: vec![] }
}

#[test]
fn test_resolve_primary_checkout_daemon() {
    let target = registry().resolve("api.myproj", true);
    assert_eq!(
        target,
        HostTarget::Daemon {
            project: "myproj".into(),
            worktree: None,
            dir: "/repos/myproj".to_string(),
            namespace: "myproj".into(),
            daemon: "api".into(),
        }
    );
}

#[test]
fn test_resolve_worktree_daemon() {
    let target = registry().resolve("web.fix-1.myproj", true);
    assert_eq!(
        target,
        HostTarget::Daemon {
            project: "myproj".into(),
            worktree: Some("fix-1".into()),
            dir: "/repos/fix-1".to_string(),
            namespace: "fix-1".into(),
            daemon: "web".into(),
        }
    );
}

#[test]
fn test_resolve_is_case_insensitive() {
    assert!(matches!(registry().resolve("API.MyProj", true), HostTarget::Daemon { .. }));
}

#[test]
fn test_resolve_reserved_pages() {
    assert_eq!(registry().resolve("myproj", true), HostTarget::ProjectPage { project: "myproj".into() });
    assert_eq!(
        registry().resolve("fix-1.myproj", true),
        HostTarget::WorktreePage { project: "myproj".into(), worktree: "fix-1".into() }
    );
}

#[test]
fn test_resolve_worktree_beats_daemon_of_same_name() {
    let mut reg = registry();
    let project = reg.projects.iter_mut().find(|p| p.label == "myproj").unwrap();
    project.worktrees.push(("api".to_string(), checkout("/repos/api-wt", "api-wt", &[("api", "api")])));
    assert_eq!(
        reg.resolve("api.myproj", true),
        HostTarget::WorktreePage { project: "myproj".into(), worktree: "api".into() }
    );
    assert!(matches!(reg.resolve("api.api.myproj", true), HostTarget::Daemon { .. }));
}

#[test]
fn test_resolve_wildcard_subdomain() {
    let target = registry().resolve("tenant.api.myproj", true);
    assert!(matches!(target, HostTarget::Daemon { daemon, .. } if daemon == "api"));
    assert!(matches!(registry().resolve("tenant.api.myproj", false), HostTarget::UnknownDaemon { .. }));
}

#[test]
fn test_resolve_unknown_names() {
    assert_eq!(
        registry().resolve("api.other", true),
        HostTarget::UnknownProject { known: vec!["myproj".to_string()] }
    );
    assert_eq!(
        registry().resolve("nope.myproj", true),
        HostTarget::UnknownDaemon { project: "myproj".into(), worktree: None, known: vec!["api".to_string()] }
    );
}

#[test]
fn test_worktree_label_collision_drops_both() {
    let found = vec![
        ("fix-1".to_string(), checkout("/repos/fix-1", "fix-1", &[("api", "api")])),
        ("fix-1".to_string(), checkout("/repos/fix.1", "fix-1b", &[("api", "api")])),
        ("fix-2".to_string(), checkout("/repos/fix-2", "fix-2", &[("api", "api")])),
    ];
    let (kept, errors) = group_worktrees("myproj", found);
    assert_eq!(kept.iter().map(|(k, _)| k.as_str()).collect::<Vec<_>>(), vec!["fix-2"]);
    assert_eq!(errors.len(), 1);
    assert!(errors[0].contains("/repos/fix-1"), "{}", errors[0]);
    assert!(errors[0].contains("/repos/fix.1"), "{}", errors[0]);
}

// ─── beyond the original's cases ────────────────────────────────────────────

#[test]
fn labels_are_sorted_and_listed_once() {
    let c = checkout("/r", "n", &[("web", "web"), ("api", "api"), ("db", "db")]);
    assert_eq!(c.labels(), vec!["api", "db", "web"]);
    let p = ProjectHosts {
        label: "p".into(),
        primary: c.clone(),
        worktrees: vec![("z".into(), c.clone()), ("b".into(), c.clone())],
    };
    assert_eq!(p.worktree_labels(), vec!["b", "z"]);
    let reg = HostRegistry {
        projects: vec![
            ProjectHosts { label: "shop".into(), primary: c.clone(), worktrees: vec![] },
            ProjectHosts { label: "admin".into(), primary: c, worktrees: vec![] },
        ],
        errors: vec![],
    };
    assert_eq!(reg.project_labels(), vec!["admin", "shop"]);
}

#[test]
fn the_same_worktree_found_twice_is_kept_once_without_an_error() {
    let found = vec![
        ("fix-1".to_string(), checkout("/repos/fix-1", "fix-1", &[])),
        ("fix-1".to_string(), checkout("/repos/fix-1", "fix-1", &[])),
    ];
    let (kept, errors) = group_worktrees("myproj", found);
    assert_eq!(kept.len(), 1);
    assert!(errors.is_empty());
}

#[test]
fn automatic_hostnames_join_the_labels() {
    assert_eq!(join_labels("api", Some("fix-1"), "myproj"), "api.fix-1.myproj");
    assert_eq!(join_labels("api", None, "myproj"), "api.myproj");
    assert_eq!(auto_host_for_daemon("api", None, true, Some("my-repo"), None).as_deref(), Some("api.my-repo"));
    assert_eq!(
        auto_host_for_daemon("api", None, true, Some("my-repo"), Some("fix-1")).as_deref(),
        Some("api.fix-1.my-repo")
    );
    assert_eq!(auto_host_for_daemon("api", None, false, Some("my-repo"), None), None);
    assert_eq!(auto_host_for_daemon("api", Some(&ProxyConfig::Disabled), true, Some("my-repo"), None), None);
    assert_eq!(
        auto_host_for_daemon("api", Some(&ProxyConfig::Name("web".into())), true, Some("my-repo"), None).as_deref(),
        Some("web.my-repo")
    );
    assert_eq!(project_label(None, Some("My App")).as_deref(), Some("my-app"));
    assert_eq!(project_label(Some("storefront"), Some("checkout-dir")).as_deref(), Some("storefront"));
    assert_eq!(worktree_label(Some("Fix 1"), Some("sleepy-kapitsa-9f02fc")).as_deref(), Some("fix-1"));
    assert_eq!(worktree_label(None, Some("sleepy-kapitsa-9f02fc")).as_deref(), Some("sleepy-kapitsa-9f02fc"));
    assert_eq!(project_label(None, None), None);
}

#[test]
fn a_checkout_root_is_its_worktree_when_it_has_one() {
    let c = Checkout { primary: "/repos/my-repo".into(), worktree: Some("/repos/fix-1".into()) };
    assert_eq!(c.root(), "/repos/fix-1");
    let p = Checkout { primary: "/repos/my-repo".into(), worktree: None };
    assert_eq!(p.root(), "/repos/my-repo");
}

#[test]
fn a_label_is_cut_at_sixty_three_without_a_trailing_dash() {
    let long = format!("{}-{}", "a".repeat(62), "b".repeat(10));
    assert_eq!(sanitize_label(&long).unwrap(), "a".repeat(62));
    assert_eq!(sanitize_label("A__B").as_deref(), Some("a-b"));
}

#[test]
fn every_hostname_made_for_a_daemon_resolves_back_to_it() {
    let reg = registry();
    for wildcard in [true, false] {
        for project in &reg.projects {
            for (label, name) in &project.primary.daemons {
                let host = join_labels(label, None, &project.label);
                match reg.resolve(&host, wildcard) {
                    HostTarget::Daemon { daemon, worktree: None, .. } => assert_eq!(&daemon, name),
                    other => panic!("{host} resolved to {other:?}"),
                }
            }
            for (wt, checkout) in &project.worktrees {
                for (label, name) in &checkout.daemons {
                    let host = join_labels(label, Some(wt), &project.label);
                    match reg.resolve(&host, wildcard) {
                        HostTarget::Daemon { daemon, worktree: Some(w), .. } => {
                            assert_eq!(&daemon, name);
                            assert_eq!(&w, wt);
                        }
                        other => panic!("{host} resolved to {other:?}"),
                    }
                }
            }
        }
    }
}

#[test]
fn sanitised_labels_carry_no_dot_and_no_capital() {
    for input in ["My.App", "API", "a.b.c", "Feature/Branch_1", "ÄÖ.x"] {
        if let Some(l) = sanitize_label(input) {
            assert!(!l.contains('.') && !l.chars().any(|c| c.is_ascii_uppercase()), "{input:?} gave {l:?}");
        }
    }
}
