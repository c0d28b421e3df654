//! Building the slug table.
use pitchfork_proxy::routing::slugs::{CachedSlugEntry, ProxyTlsMode, ProxyTlsRoute, WorktreeEntry};
use pitchfork_proxy::routing::table::{slug_entry, slug_table, SlugSource};

fn source(slug: &str) -> SlugSource {
    SlugSource {
        slug: slug.to_string(),
        namespace: Some("proj".to_string()),
        daemon: None,
        dir: Some(format!("/src/{slug}")),
        worktrees: vec![],
        rejected_worktree_prefixes: vec![],
        read: Ok(None),
        worktree_reads: vec![],
    }
}

fn worktree(branch: &str) -> WorktreeEntry {
    WorktreeEntry {
        path: format!("/src/wt-{branch}"),
        branch: branch.to_string(),
        sanitized_branch: branch.to_string(),
        namespace: Some(format!("wt-{branch}")),
    }
}

const SPLICE: ProxyTlsRoute = ProxyTlsRoute { mode: ProxyTlsMode::Passthrough, port: Some(8443) };

#[test]
fn slugs_that_differ_only_by_case_are_all_left_out() {
    let table = slug_table(vec![source("MyApp"), source("other"), source("myapp")], &vec![]);
    assert_eq!(table.len(), 1);
    assert_eq!(table[0].0, "other");
}

#[test]
fn entries_are_keyed_by_the_lowercased_slug() {
    let mut s = source("Shop");
    s.daemon = Some("web".to_string());
    s.dir = None;
    let table = slug_table(vec![s, source("api")], &vec![]);
    assert_eq!(table.len(), 2);
    assert_eq!(table[0].0, "shop");
    assert_eq!(table[0].1.slug, "Shop");
    assert_eq!(table[0].1.daemon_name, "web");
    assert_eq!(table[0].1.dir, "");
    assert_eq!(table[0].1.tls, ProxyTlsRoute::default());
    assert_eq!(table[1].1.daemon_name, "api");
}

#[test]
fn an_unreadable_config_keeps_the_route_the_last_table_had() {
    let mut first = source("api");
    first.read = Ok(Some(SPLICE));
    let previous: Vec<(String, CachedSlugEntry)> = vec![slug_entry(first, &vec![])];
    assert_eq!(previous[0].1.tls, SPLICE);

    let mut again = source("api");
    again.read = Err("invalid config".to_string());
    let (_, e) = slug_entry(again, &previous);
    assert_eq!(e.tls, SPLICE);

    // A readable answer replaces it, even when it is silence.
    let (_, e) = slug_entry(source("api"), &previous);
    assert_eq!(e.tls, ProxyTlsRoute::default());

    // A slug repointed elsewhere does not inherit it.
    let mut moved = source("api");
    moved.dir = Some("/elsewhere".to_string());
    moved.read = Err("invalid config".to_string());
    let (_, e) = slug_entry(moved, &previous);
    assert_eq!(e.tls, ProxyTlsRoute::default());
}

#[test]
fn worktrees_get_a_route_only_when_their_config_names_one() {
    let mut s = source("api");
    s.worktrees = vec![worktree("Feature-A"), worktree("b"), worktree("c")];
    s.worktree_reads = vec![Ok(Some(SPLICE)), Ok(None), Err("unreadable".to_string())];
    let (_, e) = slug_entry(s, &vec![]);
    assert_eq!(e.worktree_tls, vec![("feature-a".to_string(), SPLICE)]);

    // An unreadable worktree keeps the route it had.
    let mut prev_src = source("api");
    prev_src.worktrees = vec![worktree("c")];
    prev_src.worktree_reads = vec![Ok(Some(SPLICE))];
    let previous = vec![slug_entry(prev_src, &vec![])];
    let mut s = source("api");
    s.worktrees = vec![worktree("c")];
    s.worktree_reads = vec![Err("unreadable".to_string())];
    let (_, e) = slug_entry(s, &previous);
    assert_eq!(e.worktree_tls, vec![("c".to_string(), SPLICE)]);
}
