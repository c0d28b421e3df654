//! Slug lookup, worktree prefixes, TLS routes, daemon ports and the proxy's
//! small text rules.
use pitchfork_proxy::routing::ports::{select_daemon_port, DaemonPorts};
use pitchfork_proxy::routing::slugs::{
    match_worktree_prefix, reject_case_colliding_worktrees, resolve_tls_mode_in, route_or_last_known,
    wildcard_slug_lookup, worktree_route, CachedSlugEntry, PrefixMatch, ProxyTlsMode, ProxyTlsRoute, WorktreeEntry,
};
use pitchfork_proxy::routing::text::{
    bind_error_message, cert_cache_file_stem, connect_port, escape_html, host_port_suffix, parse_port,
    passthrough_unroutable_message, strip_dot_suffix_ignore_case, strip_tld, tls_pair_problem,
};

fn make_entry(name: &str) -> CachedSlugEntry {
    CachedSlugEntry {
        slug: name.to_string(),
        namespace: None,
        daemon_name: name.to_string(),
        dir: format!("/tmp/{name}"),
        worktrees: vec![],
        rejected_worktree_prefixes: vec![],
        tls: ProxyTlsRoute::default(),
        worktree_tls: vec![],
    }
}

fn make_worktree(branch: &str, sanitized: &str) -> WorktreeEntry {
    WorktreeEntry {
        path: format!("/tmp/{sanitized}"),
        branch: branch.to_string(),
        sanitized_branch: sanitized.to_string(),
        namespace: Some(sanitized.to_string()),
    }
}

/// A daemon record with the given configured and resolved ports.
fn make_daemon(configured: &[u16], resolved: &[u16], active: Option<u16>) -> DaemonPorts {
    DaemonPorts { configured: configured.to_vec(), resolved: resolved.to_vec(), active }
}

#[test]
fn cert_cache_file_names_do_not_collide() {
    assert_ne!(cert_cache_file_stem("a_b.localhost"), cert_cache_file_stem("a.b.localhost"));
    assert_eq!(cert_cache_file_stem("api.localhost"), "api.localhost");
    assert_eq!(cert_cache_file_stem("a_b.localhost"), "a%5Fb.localhost");
    assert_eq!(cert_cache_file_stem("*.proj.localhost"), "%2A.proj.localhost");
    assert!(!cert_cache_file_stem("../x").contains('/'));
}

#[test]
fn connect_port_reads_the_authority() {
    assert_eq!(connect_port("api.localhost:443"), Some(443));
    assert_eq!(connect_port("api.localhost:80"), Some(80));
    assert_eq!(connect_port("[::1]:443"), Some(443));
    assert_eq!(connect_port("api.localhost"), None);
    assert_eq!(connect_port("::1"), None);
}

#[test]
fn a_half_configured_certificate_pair_is_refused() {
    assert!(tls_pair_problem("", "/k.pem").is_some());
    assert!(tls_pair_problem("/c.pem", "").is_some());
    assert!(tls_pair_problem("", "").is_none());
    assert!(tls_pair_problem("/c.pem", "/k.pem").is_none());
}

#[test]
fn test_strip_tld() {
    assert_eq!(strip_tld("api.myproject.localhost", "localhost"), Some("api.myproject".to_string()));
    assert_eq!(strip_tld("API.MyProject.LOCALHOST", "localhost"), Some("API.MyProject".to_string()));
    assert_eq!(strip_tld("api.localhost", "LOCALHOST"), Some("api".to_string()));
    assert_eq!(strip_tld("api.localhost", "localhost"), Some("api".to_string()));
    assert_eq!(strip_tld("localhost", "localhost"), None);
    assert_eq!(strip_tld("API.LocalHost", "localhost"), Some("API".to_string()));
    assert_eq!(strip_tld("api.localhost.", "localhost"), Some("api".to_string()));
    assert_eq!(strip_tld("API.MyProject.LOCALHOST.", "localhost"), Some("API.MyProject".to_string()));
    assert_eq!(strip_tld("localhost.", "localhost"), None);
    assert_eq!(strip_tld("api.myproject.test", "test"), Some("api.myproject".to_string()));
    assert_eq!(strip_tld("other.com", "localhost"), None);
}

#[test]
fn test_select_daemon_port_prefers_active_port() {
    let route = ProxyTlsRoute::default();
    let d = make_daemon(&[8443, 9443], &[8443, 9443], Some(8443));
    assert_eq!(select_daemon_port(&route, &d), Some(8443));
}

#[test]
fn test_select_daemon_port_skips_port_zero() {
    for mode in [ProxyTlsMode::Passthrough, ProxyTlsMode::Terminate] {
        let route = ProxyTlsRoute { mode, port: None };

        let mixed = make_daemon(&[0, 8443], &[0, 8443], None);
        assert_eq!(select_daemon_port(&route, &mixed), Some(8443));

        let detected_placeholder = make_daemon(&[0, 8443], &[0, 8443], Some(0));
        assert_eq!(select_daemon_port(&route, &detected_placeholder), Some(8443));

        let unresolved = make_daemon(&[0], &[0], Some(0));
        assert_eq!(select_daemon_port(&route, &unresolved), None);
    }
}

#[test]
fn test_select_daemon_port_passthrough_prefers_declared_first_port() {
    let route = ProxyTlsRoute { mode: ProxyTlsMode::Passthrough, port: None };
    let d = make_daemon(&[8443, 9080], &[8443, 9080], Some(9080));
    assert_eq!(select_daemon_port(&route, &d), Some(8443));

    let detected_only = make_daemon(&[], &[], Some(9080));
    assert_eq!(select_daemon_port(&route, &detected_only), Some(9080));
}

#[test]
fn test_select_daemon_port_falls_back_to_first_resolved() {
    let route = ProxyTlsRoute::default();
    let d = make_daemon(&[8443, 9443], &[8443, 9443], None);
    assert_eq!(select_daemon_port(&route, &d), Some(8443));

    let none = make_daemon(&[], &[], None);
    assert_eq!(select_daemon_port(&route, &none), None);
}

#[test]
fn test_select_daemon_port_honors_configured_port() {
    let route = ProxyTlsRoute { mode: ProxyTlsMode::Passthrough, port: Some(9443) };
    let d = make_daemon(&[8443, 9443], &[8443, 9443], Some(8443));
    assert_eq!(select_daemon_port(&route, &d), Some(9443));
}

#[test]
fn test_select_daemon_port_follows_auto_bump() {
    let route = ProxyTlsRoute { mode: ProxyTlsMode::Passthrough, port: Some(9443) };
    let d = make_daemon(&[8443, 9443], &[8444, 9444], Some(8444));
    assert_eq!(select_daemon_port(&route, &d), Some(9444));
}

#[test]
fn test_select_daemon_port_skips_a_configured_port_resolved_to_zero() {
    let route = ProxyTlsRoute { mode: ProxyTlsMode::Passthrough, port: Some(9443) };
    let pending = make_daemon(&[8443, 9443], &[8443, 0], Some(8443));
    assert_eq!(select_daemon_port(&route, &pending), None);

    let ready = make_daemon(&[8443, 9443], &[8443, 9444], Some(8443));
    assert_eq!(select_daemon_port(&route, &ready), Some(9444));
}

#[test]
fn test_select_daemon_port_refuses_a_port_the_daemon_never_bound() {
    let route = ProxyTlsRoute { mode: ProxyTlsMode::Passthrough, port: Some(9443) };
    let stale = make_daemon(&[8443], &[8443], Some(8443));
    assert_eq!(select_daemon_port(&route, &stale), None);

    let bare = make_daemon(&[], &[], None);
    assert_eq!(select_daemon_port(&route, &bare), Some(9443));
}

#[test]
fn test_select_daemon_port_honors_configured_port_when_terminating() {
    let route = ProxyTlsRoute { mode: ProxyTlsMode::Terminate, port: Some(9080) };
    let d = make_daemon(&[8080, 9080], &[8080, 9080], Some(8080));
    assert_eq!(select_daemon_port(&route, &d), Some(9080));

    let bumped = make_daemon(&[8080, 9080], &[8081, 9081], Some(8081));
    assert_eq!(select_daemon_port(&route, &bumped), Some(9081));
}

#[test]
fn select_daemon_port_uses_a_port_the_daemon_bound_out_of_position() {
    // The configured port is not declared, but the daemon did bind it.
    let route = ProxyTlsRoute { mode: ProxyTlsMode::Terminate, port: Some(9443) };
    let d = make_daemon(&[8443], &[8443, 9443], Some(8443));
    assert_eq!(select_daemon_port(&route, &d), Some(9443));
}

#[test]
fn port_zero_is_never_forwarded_for_a_hostname_without_port_zero() {
    for route in [
        ProxyTlsRoute { mode: ProxyTlsMode::Terminate, port: None },
        ProxyTlsRoute { mode: ProxyTlsMode::Passthrough, port: None },
        ProxyTlsRoute { mode: ProxyTlsMode::Passthrough, port: Some(8443) },
    ] {
        let d = make_daemon(&[0, 8443], &[0, 0], Some(0));
        assert_ne!(select_daemon_port(&route, &d), Some(0));
    }
}

#[test]
fn test_unreadable_config_route_is_kept() {
    let known = ProxyTlsRoute { mode: ProxyTlsMode::Passthrough, port: Some(8443) };
    assert_eq!(route_or_last_known(Err("broken".to_string()), Some(known)), Some(known));
    assert_eq!(route_or_last_known(Ok(None), Some(known)), None);
    let fresh = ProxyTlsRoute { mode: ProxyTlsMode::Terminate, port: None };
    assert_eq!(route_or_last_known(Ok(Some(fresh)), Some(known)), Some(fresh));
}

#[test]
fn test_known_route_requires_the_same_target() {
    let known = ProxyTlsRoute { mode: ProxyTlsMode::Passthrough, port: Some(8443) };
    let mut entry = make_entry("api");
    entry.namespace = Some("proj".to_string());
    entry.tls = known;
    let dir = entry.dir.clone();

    assert_eq!(entry.known_route(&dir, Some("proj"), "api"), Some(known));
    assert_eq!(entry.known_route(&dir, Some("proj"), "web"), None);
    assert_eq!(entry.known_route(&dir, Some("other"), "api"), None);
    assert_eq!(entry.known_route("/elsewhere", Some("proj"), "api"), None);

    let wt = make_worktree("feature/x", "feature-x");
    entry.worktrees = vec![wt.clone()];
    entry.worktree_tls.push(("feature-x".to_string(), known));
    assert_eq!(entry.known_worktree_route(&wt, "api"), Some(known));
    assert_eq!(entry.known_worktree_route(&wt, "web"), None);
    let moved = WorktreeEntry { path: "/elsewhere/feature-x".to_string(), ..wt };
    assert_eq!(entry.known_worktree_route(&moved, "api"), None);
}

#[test]
fn test_worktree_route_inherits_when_unknown() {
    let mut entry = make_entry("spliced");
    entry.tls = ProxyTlsRoute { mode: ProxyTlsMode::Passthrough, port: Some(8443) };
    entry.worktrees = vec![
        make_worktree("feature/known", "feature-known"),
        make_worktree("feature/unknown", "feature-unknown"),
    ];
    entry
        .worktree_tls
        .push(("feature-known".to_string(), ProxyTlsRoute { mode: ProxyTlsMode::Terminate, port: None }));
    let entries = vec![("spliced".to_string(), entry)];

    let mode = |host: &str| resolve_tls_mode_in(host, "localhost", &entries, true);
    assert_eq!(mode("feature-known.spliced.localhost"), ProxyTlsMode::Terminate, "an explicit worktree setting wins");
    assert_eq!(
        mode("feature-unknown.spliced.localhost"),
        ProxyTlsMode::Passthrough,
        "a worktree with nothing recorded inherits the slug"
    );

    let cached = &entries[0].1;
    assert_eq!(
        worktree_route(cached, "feature-unknown"),
        ProxyTlsRoute { mode: ProxyTlsMode::Passthrough, port: None }
    );
    assert_eq!(
        worktree_route(cached, "feature-known"),
        ProxyTlsRoute { mode: ProxyTlsMode::Terminate, port: None }
    );
}

#[test]
fn test_worktree_route_lookup() {
    let mut entry = make_entry("myapp");
    entry.tls = ProxyTlsRoute { mode: ProxyTlsMode::Terminate, port: None };
    entry.worktrees = vec![make_worktree("feature/b", "feature-b"), make_worktree("feature/c", "feature-c")];
    entry
        .worktree_tls
        .push(("feature-b".to_string(), ProxyTlsRoute { mode: ProxyTlsMode::Passthrough, port: Some(9443) }));

    let lookup = |prefix: &str| match match_worktree_prefix(&entry, prefix) {
        PrefixMatch::Worktree(wt) => entry
            .worktree_tls
            .iter()
            .find(|(k, _)| *k == wt.sanitized_branch.to_ascii_lowercase())
            .map(|(_, r)| *r)
            .unwrap_or(entry.tls),
        _ => entry.tls,
    };

    assert_eq!(lookup("feature-b").mode, ProxyTlsMode::Passthrough);
    assert_eq!(lookup("feature-b").port, Some(9443));
    assert_eq!(lookup("feature-c").mode, ProxyTlsMode::Terminate);
    assert_eq!(lookup("tenant").mode, ProxyTlsMode::Terminate);
}

#[test]
fn test_wildcard_slug_lookup_exact_match() {
    let entries = vec![("myapp".to_string(), make_entry("myapp"))];
    let result = wildcard_slug_lookup("myapp", &entries, true);
    assert!(result.is_some());
    assert_eq!(result.unwrap().daemon_name, "myapp");
}

#[test]
fn test_wildcard_slug_lookup_subdomain_fallback() {
    let entries = vec![("myapp".to_string(), make_entry("myapp"))];
    let result = wildcard_slug_lookup("tenant.myapp", &entries, true);
    assert!(result.is_some());
    assert_eq!(result.unwrap().daemon_name, "myapp");
}

#[test]
fn test_wildcard_slug_lookup_nested_fallback() {
    let entries = vec![("myapp".to_string(), make_entry("myapp"))];
    let result = wildcard_slug_lookup("a.b.myapp", &entries, true);
    assert!(result.is_some());
    assert_eq!(result.unwrap().daemon_name, "myapp");
}

#[test]
fn test_wildcard_slug_lookup_no_match() {
    let entries: Vec<(String, CachedSlugEntry)> = Vec::new();
    let result = wildcard_slug_lookup("tenant.myapp", &entries, true);
    assert!(result.is_none());
}

#[test]
fn test_wildcard_slug_lookup_disabled() {
    let entries = vec![("myapp".to_string(), make_entry("myapp"))];
    let result = wildcard_slug_lookup("tenant.myapp", &entries, false);
    assert!(result.is_none());
    let result = wildcard_slug_lookup("myapp", &entries, false);
    assert!(result.is_some());
}

#[test]
fn test_wildcard_slug_lookup_exact_beats_wildcard() {
    let mut tenant_entry = make_entry("tenant-daemon");
    tenant_entry.slug = "tenant.myapp".to_string();
    let entries = vec![("myapp".to_string(), make_entry("myapp")), ("tenant.myapp".to_string(), tenant_entry)];
    let result = wildcard_slug_lookup("tenant.myapp", &entries, true);
    assert!(result.is_some());
    assert_eq!(result.unwrap().daemon_name, "tenant-daemon");
}

#[test]
fn test_wildcard_slug_lookup_prefers_the_longest_suffix() {
    let entries = vec![("myapp".to_string(), make_entry("myapp")), ("b.myapp".to_string(), make_entry("b-daemon"))];
    let result = wildcard_slug_lookup("a.b.myapp", &entries, true);
    assert_eq!(result.unwrap().daemon_name, "b-daemon");
}

#[test]
fn test_wildcard_slug_lookup_ignores_case() {
    let entries = vec![("myapp".to_string(), make_entry("myapp"))];
    for host in ["MyApp", "MYAPP", "myapp"] {
        let result = wildcard_slug_lookup(host, &entries, true);
        assert!(result.is_some(), "exact lookup failed for {host}");
        assert_eq!(result.unwrap().daemon_name, "myapp");
    }
    for host in ["Tenant.MyApp", "tenant.MYAPP", "A.B.MyApp"] {
        let result = wildcard_slug_lookup(host, &entries, true);
        assert!(result.is_some(), "wildcard lookup failed for {host}");
        assert_eq!(result.unwrap().daemon_name, "myapp");
    }
}

#[test]
fn test_wildcard_slug_lookup_case_insensitive_registration() {
    let mut entry = make_entry("upper");
    entry.slug = "MyApp".to_string();
    let entries = vec![("myapp".to_string(), entry)];
    for host in ["myapp", "MyApp", "tenant.MYAPP"] {
        let result = wildcard_slug_lookup(host, &entries, true);
        assert!(result.is_some(), "lookup failed for {host}");
        assert_eq!(result.unwrap().daemon_name, "upper");
    }
}

#[test]
fn test_reject_case_colliding_worktrees_drops_both_sides() {
    let wts = vec![
        make_worktree("Feature-A", "Feature-A"),
        make_worktree("feature-a", "feature-a"),
        make_worktree("main", "main"),
    ];
    let (kept, rejected) = reject_case_colliding_worktrees(wts);
    assert_eq!(kept.len(), 1);
    assert_eq!(kept[0].sanitized_branch, "main");
    assert!(rejected.contains(&"feature-a".to_string()));
}

#[test]
fn test_reject_case_colliding_worktrees_keeps_unambiguous() {
    let wts = vec![make_worktree("main", "main"), make_worktree("feature/a", "feature-a")];
    let (kept, rejected) = reject_case_colliding_worktrees(wts);
    assert_eq!(kept.len(), 2);
    assert!(rejected.is_empty());
}

#[test]
fn test_reject_case_colliding_worktrees_drops_sanitize_duplicates() {
    let wts = vec![make_worktree("feature/a", "feature-a"), make_worktree("feature.a", "feature-a")];
    let (kept, rejected) = reject_case_colliding_worktrees(wts);
    assert!(kept.is_empty());
    assert!(rejected.contains(&"feature-a".to_string()));
}

#[test]
fn reject_case_colliding_worktrees_keeps_order() {
    let wts = vec![
        make_worktree("b", "b"),
        make_worktree("X", "X"),
        make_worktree("a", "a"),
        make_worktree("x", "x"),
        make_worktree("c", "c"),
    ];
    let (kept, rejected) = reject_case_colliding_worktrees(wts);
    let names: Vec<&str> = kept.iter().map(|w| w.sanitized_branch.as_str()).collect();
    assert_eq!(names, vec!["b", "a", "c"]);
    assert_eq!(rejected, vec!["x".to_string()]);
}

#[test]
fn test_match_worktree_prefix() {
    let mut entry = make_entry("myapp");
    entry.worktrees = vec![make_worktree("feature/b", "feature-b")];
    entry.rejected_worktree_prefixes.push("feature-a".to_string());

    assert!(matches!(match_worktree_prefix(&entry, "feature-b"), PrefixMatch::Worktree(_)));
    assert!(matches!(match_worktree_prefix(&entry, "Feature-B"), PrefixMatch::Worktree(_)));
    assert!(matches!(match_worktree_prefix(&entry, "feature-a"), PrefixMatch::Ambiguous));
    assert!(matches!(match_worktree_prefix(&entry, "FEATURE-A"), PrefixMatch::Ambiguous));
    assert!(matches!(match_worktree_prefix(&entry, "tenant"), PrefixMatch::Unknown));
}

#[test]
fn test_passthrough_unroutable_message() {
    let no_tls = passthrough_unroutable_message("api.localhost", false);
    assert!(no_tls.contains("api.localhost"), "{no_tls}");
    assert!(no_tls.contains("settings.proxy.https = true"), "{no_tls}");

    let mismatch = passthrough_unroutable_message("api.localhost", true);
    assert!(mismatch.contains("named a different host"), "{mismatch}");
    assert!(!mismatch.contains("settings.proxy.https"), "a host mismatch is not an HTTPS configuration problem: {mismatch}");
}

#[test]
fn test_resolve_tls_mode_in() {
    let mut spliced = make_entry("spliced");
    spliced.tls = ProxyTlsRoute { mode: ProxyTlsMode::Passthrough, port: Some(8443) };
    spliced.worktrees = vec![make_worktree("feature/b", "feature-b"), make_worktree("feature/c", "feature-c")];
    spliced
        .worktree_tls
        .push(("feature-b".to_string(), ProxyTlsRoute { mode: ProxyTlsMode::Terminate, port: None }));
    let entries = vec![("spliced".to_string(), spliced), ("plain".to_string(), make_entry("plain"))];

    let mode = |host: &str| resolve_tls_mode_in(host, "localhost", &entries, true);

    assert_eq!(mode("spliced.localhost"), ProxyTlsMode::Passthrough);
    assert_eq!(mode("SPLICED.localhost"), ProxyTlsMode::Passthrough);
    assert_eq!(mode("Spliced.LocalHost"), ProxyTlsMode::Passthrough);
    assert_eq!(mode("spliced.localhost."), ProxyTlsMode::Passthrough);
    assert_eq!(mode("FEATURE-C.Spliced.LOCALHOST."), ProxyTlsMode::Passthrough);
    assert_eq!(mode("tenant.spliced.localhost"), ProxyTlsMode::Passthrough);
    assert_eq!(mode("feature-b.spliced.localhost"), ProxyTlsMode::Terminate);
    assert_eq!(mode("feature-c.spliced.localhost"), ProxyTlsMode::Passthrough);
    assert_eq!(mode("plain.localhost"), ProxyTlsMode::Terminate);
    assert_eq!(mode("unknown.localhost"), ProxyTlsMode::Terminate);
    assert_eq!(mode("localhost"), ProxyTlsMode::Terminate);
    assert_eq!(mode("spliced.example.com"), ProxyTlsMode::Terminate);
}

#[test]
fn test_resolve_tls_mode_in_empty_table() {
    let entries: Vec<(String, CachedSlugEntry)> = Vec::new();
    assert_eq!(resolve_tls_mode_in("spliced.localhost", "localhost", &entries, true), ProxyTlsMode::Terminate);
}

#[test]
fn test_strip_dot_suffix_ignore_case() {
    assert_eq!(strip_dot_suffix_ignore_case("feature-a.myapp", "myapp"), Some("feature-a".to_string()));
    assert_eq!(strip_dot_suffix_ignore_case("Feature-A.MyApp", "myapp"), Some("Feature-A".to_string()));
    assert_eq!(strip_dot_suffix_ignore_case("feature-a.myapp", "MYAPP"), Some("feature-a".to_string()));
    assert_eq!(strip_dot_suffix_ignore_case("xmyapp", "myapp"), None);
    assert_eq!(strip_dot_suffix_ignore_case(".myapp", "myapp"), None);
    assert_eq!(strip_dot_suffix_ignore_case("myapp", "myapp"), None);
    assert_eq!(strip_dot_suffix_ignore_case("feature-a.other", "myapp"), None);
    assert_eq!(strip_dot_suffix_ignore_case("café.myapp", "myapp"), Some("café".to_string()));
    assert_eq!(strip_dot_suffix_ignore_case("café", "afé"), None);
}

#[test]
fn test_host_port_suffix() {
    assert_eq!(host_port_suffix("api.myproj.localhost:8088"), ":8088");
    assert_eq!(host_port_suffix("api.myproj.localhost"), "");
    assert_eq!(host_port_suffix("[::1]:8088"), ":8088");
    assert_eq!(host_port_suffix("[::1]"), "");
    assert_eq!(host_port_suffix("host:notaport"), "");
}

#[test]
fn parse_port_reads_only_a_port() {
    assert_eq!(parse_port("443"), Some(443));
    assert_eq!(parse_port("+8080"), Some(8080));
    assert_eq!(parse_port("65535"), Some(65535));
    assert_eq!(parse_port("65536"), None);
    assert_eq!(parse_port(""), None);
    assert_eq!(parse_port("8a"), None);
}

#[test]
fn escape_html_escapes_markup() {
    assert_eq!(escape_html("<a href=\"x\">&'</a>"), "&lt;a href=&quot;x&quot;&gt;&amp;&#x27;&lt;/a&gt;");
    assert_eq!(escape_html("plain"), "plain");
}

#[test]
fn bind_error_message_names_the_port() {
    let msg = bind_error_message(443, "Permission denied (os error 13)");
    assert!(msg.contains("443"), "{msg}");
}
