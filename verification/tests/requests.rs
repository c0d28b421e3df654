//! What the proxy makes of a request, and how it answers.
use pitchfork_proxy::routing::pages::{html_document, placeholder_body, redirect_body, starting_page, unknown_host_body};
use pitchfork_proxy::routing::ports::DaemonPorts;
use pitchfork_proxy::routing::request::{
    connect_decision, connect_host, connect_refusal, forwarded_headers, hops_of, https_redirect, joined_cookies, loop_message,
    next_hops, parse_u64_text, request_host, routing_host, strips_hop_by_hop,
};
use pitchfork_proxy::routing::resolve::{
    auto_start_namespace, checkout_order, not_found_message, reply_for, route_context, running_port, start_failure,
    start_poll, DaemonRecord, Reply, ResolveResult, StartPoll,
};
use pitchfork_proxy::routing::slugs::{CachedSlugEntry, ProxyTlsMode, ProxyTlsRoute, WorktreeEntry};

#[test]
fn routing_host_drops_port_brackets_and_root_dot() {
    assert_eq!(routing_host("api.myproj.localhost:8443"), "api.myproj.localhost");
    assert_eq!(routing_host("api.localhost"), "api.localhost");
    assert_eq!(routing_host("api.localhost.:80"), "api.localhost");
    assert_eq!(routing_host("[::1]:8443"), "::1");
    assert_eq!(routing_host("[::1]"), "::1");
    assert_eq!(routing_host("api.localhost..."), "api.localhost");
}

#[test]
fn hop_counts_come_only_from_pitchfork() {
    assert_eq!(hops_of(None), 0);
    assert_eq!(hops_of(Some("3")), 3);
    assert_eq!(hops_of(Some("lots")), 0);
    assert_eq!(hops_of(Some("18446744073709551616")), 0);
    assert_eq!(parse_u64_text("18446744073709551615"), Some(u64::MAX));
    assert!(loop_message("api.localhost", 4).is_none());
    let m = loop_message("api.localhost", 5).unwrap();
    assert!(m.starts_with("Loop detected for 'api.localhost': request has passed through the proxy 5 times."));
    assert!(m.contains("changeOrigin: true"));
    assert_eq!(next_hops(4), "5");
}

#[test]
fn connect_is_refused_outside_the_tld_and_for_https_over_plain_http() {
    assert_eq!(connect_host("api.localhost:443"), "api.localhost");
    assert_eq!(connect_host("[::1]:443"), "::1");
    assert_eq!(connect_host("api.localhost"), "api.localhost");

    let (status, m) = connect_refusal("localhost", "example.com", true, "example.com:443").unwrap();
    assert_eq!(status, 403);
    assert_eq!(m, "pitchfork only tunnels CONNECT for names under .localhost \u{2014} refusing example.com");

    let (status, m) = connect_refusal("localhost", "api.localhost", false, "api.localhost:443").unwrap();
    assert_eq!(status, 502);
    assert_eq!(m, "proxy.https is false, so pitchfork cannot serve https://api.localhost; use http:// or enable proxy.https");

    assert!(connect_refusal("localhost", "api.localhost", false, "api.localhost:80").is_none());
    assert!(connect_refusal("localhost", "api.localhost", true, "api.localhost:443").is_none());
}

#[test]
fn the_request_host_prefers_the_authority() {
    assert_eq!(request_host(Some("a.localhost"), Some("b.localhost")), Some("a.localhost".to_string()));
    assert_eq!(request_host(Some(""), Some("b.localhost")), Some("b.localhost".to_string()));
    assert_eq!(request_host(None, None), None);
}

#[test]
fn forwarded_headers_come_from_the_connection() {
    let h = forwarded_headers(true, "api.localhost:8443", Some("10.0.0.2"));
    assert_eq!(
        h,
        vec![
            ("x-forwarded-for".to_string(), "10.0.0.2".to_string()),
            ("x-forwarded-proto".to_string(), "https".to_string()),
            ("x-forwarded-host".to_string(), "api.localhost:8443".to_string()),
            ("x-forwarded-port".to_string(), "8443".to_string()),
        ]
    );
    let h = forwarded_headers(false, "api.localhost", None);
    assert_eq!(h[0].1, "127.0.0.1");
    assert_eq!(h[1].1, "http");
    assert_eq!(h[3].1, "80");
    assert_eq!(forwarded_headers(true, "api.localhost", None)[3].1, "443");

    assert!(strips_hop_by_hop(true, 200));
    assert!(!strips_hop_by_hop(true, 101));
    assert!(!strips_hop_by_hop(false, 200));
}

#[test]
fn split_cookie_fields_are_joined_with_semicolons() {
    assert_eq!(joined_cookies(&vec![b"a=1".to_vec()]), None);
    assert_eq!(joined_cookies(&vec![b"a=1".to_vec(), b"b=2".to_vec(), b"c=\xc3\xa9".to_vec()]), Some(b"a=1; b=2; c=\xc3\xa9".to_vec()));
    assert_eq!(joined_cookies(&vec![]), None);
}

#[test]
fn plain_http_on_the_https_port_is_redirected() {
    assert_eq!(
        https_redirect(false, Some("api.localhost:80"), 443, "/x?y=1"),
        Ok("https://api.localhost/x?y=1".to_string())
    );
    assert_eq!(https_redirect(false, Some("api.localhost"), 8443, "/"), Ok("https://api.localhost:8443/".to_string()));
    assert_eq!(https_redirect(false, Some("[::1]:80"), 8443, "/"), Ok("https://[::1]:8443/".to_string()));
    assert_eq!(https_redirect(false, Some("api.localhost"), 0, "/"), Ok("https://api.localhost/".to_string()));
    assert_eq!(https_redirect(false, None, 443, "/"), Err((400, "Missing Host header".to_string())));
    let (status, m) = https_redirect(true, Some("api.localhost"), 443, "/").unwrap_err();
    assert_eq!(status, 400);
    assert!(m.contains("wss://"));
}

#[test]
fn pages_escape_what_they_show() {
    let doc = html_document("Not found", "<p>x</p>");
    assert!(doc.starts_with("<!DOCTYPE html>"));
    assert!(doc.contains("<title>Not found \u{2014} pitchfork</title>"));
    assert!(doc.contains("<div class=\"container\"><p>x</p></div>"));
    assert!(doc.contains("* { margin: 0; padding: 0; box-sizing: border-box; }"));

    let page = starting_page("a<b", "h&st");
    assert!(page.contains("<title>Starting a&lt;b\u{2026} \u{2014} pitchfork</title>"));
    assert!(page.contains("<p class=\"host\">h&amp;st</p>"));
    assert!(page.contains("http-equiv=\"refresh\" content=\"2\""));

    assert_eq!(
        unknown_host_body("x.localhost", "Unknown project", &vec!["shop".to_string(), "a<b".to_string()]),
        "<h1>Unknown project</h1><p>No route for <code>x.localhost</code>.</p><p>Known names:</p><ul><li><code>shop</code></li><li><code>a&lt;b</code></li></ul>"
    );
    assert_eq!(
        unknown_host_body("x.localhost", "Not found", &vec![]),
        "<h1>Not found</h1><p>No route for <code>x.localhost</code>.</p><p>Nothing is registered under this name yet.</p>"
    );
    assert_eq!(redirect_body("http://127.0.0.1:3120/projects/shop"), "This page is at http://127.0.0.1:3120/projects/shop\n");
}

#[test]
fn the_placeholder_links_each_daemon_and_explains_the_missing_step() {
    let body = placeholder_body("shop", Some("feature"), &vec!["api".to_string()], "localhost", ":8443", None);
    assert!(body.starts_with("<h1>shop \u{b7} feature</h1><p>This address is reserved for the stack page"));
    assert!(body.contains("<code>[settings.web] auto_start = true</code>"));
    assert!(body.contains("<li><a href=\"//api.feature.shop.localhost:8443\">api.feature.shop.localhost</a></li>"));

    let body = placeholder_body("shop", None, &vec![], "localhost", "", Some("http://127.0.0.1:3120"));
    assert!(body.starts_with("<h1>shop</h1><p>This address is reserved for the project page"));
    assert!(body.contains("<a href=\"http://127.0.0.1:3120/projects\">Open the project list</a>"));
    assert!(body.ends_with("<p>No daemon in this checkout has a port configured.</p>"));
}

fn entry(slug: &str) -> CachedSlugEntry {
    CachedSlugEntry {
        slug: slug.to_string(),
        namespace: Some("proj".to_string()),
        daemon_name: "api".to_string(),
        dir: "/src/proj".to_string(),
        worktrees: vec![],
        rejected_worktree_prefixes: vec![],
        tls: ProxyTlsRoute { mode: ProxyTlsMode::Passthrough, port: Some(8443) },
        worktree_tls: vec![],
    }
}

#[test]
fn a_worktree_prefix_selects_its_checkout() {
    let mut e = entry("myapp");
    e.worktrees = vec![
        WorktreeEntry {
            path: "/src/proj-feature".to_string(),
            branch: "feature/a".to_string(),
            sanitized_branch: "feature-a".to_string(),
            namespace: Some("proj-feature".to_string()),
        },
        WorktreeEntry {
            path: "/src/proj-b".to_string(),
            branch: "b".to_string(),
            sanitized_branch: "b".to_string(),
            namespace: None,
        },
    ];
    e.rejected_worktree_prefixes = vec!["dup".to_string()];

    let c = route_context("myapp.localhost", "myapp", &e).unwrap();
    assert_eq!(c.expected_namespace.as_deref(), Some("proj"));
    assert_eq!(c.worktree_dir, None);
    assert_eq!(c.route, e.tls);

    let c = route_context("feature-a.myapp.localhost", "Feature-A.myapp", &e).unwrap();
    assert_eq!(c.expected_namespace.as_deref(), Some("proj-feature"));
    assert_eq!(c.worktree_dir.as_deref(), Some("/src/proj-feature"));
    assert_eq!(c.route, ProxyTlsRoute { mode: ProxyTlsMode::Passthrough, port: None });

    let c = route_context("b.myapp.localhost", "b.myapp", &e).unwrap();
    assert_eq!(c.expected_namespace.as_deref(), Some("proj"), "a worktree without a namespace falls back to the slug's");

    let c = route_context("tenant.myapp.localhost", "tenant.myapp", &e).unwrap();
    assert_eq!(c.worktree_dir, None);

    let m = route_context("dup.myapp.localhost", "dup.myapp", &e).unwrap_err();
    assert!(m.starts_with("'dup.myapp.localhost' is ambiguous: more than one branch or workspace of 'myapp' sanitizes to the prefix 'dup'"));
}

fn record(ns: &str, name: &str, running: bool, resolved: &[u16]) -> DaemonRecord {
    DaemonRecord {
        namespace: ns.to_string(),
        name: name.to_string(),
        running,
        ports: DaemonPorts { configured: resolved.to_vec(), resolved: resolved.to_vec(), active: None },
    }
}

#[test]
fn the_first_running_daemon_of_the_name_serves() {
    let route = ProxyTlsRoute::default();
    let ds = vec![
        record("other", "api", true, &[7000]),
        record("proj", "api", false, &[8000]),
        record("proj", "api", true, &[9000]),
    ];
    assert_eq!(running_port(&route, &ds, "api", Some("proj")), Some(Some(9000)));
    assert_eq!(running_port(&route, &ds, "api", None), Some(Some(7000)));
    assert_eq!(running_port(&route, &ds, "web", None), None);
    let zero = vec![record("proj", "api", true, &[0])];
    assert_eq!(running_port(&route, &zero, "api", Some("proj")), Some(None));
}

#[test]
fn auto_start_waits_for_its_daemon() {
    let route = ProxyTlsRoute::default();
    assert_eq!(auto_start_namespace(Some("wt"), &Some("proj".to_string())), "wt");
    assert_eq!(auto_start_namespace(None, &Some("proj".to_string())), "proj");
    assert_eq!(auto_start_namespace(None, &None), "global");

    let up = record("proj", "api", true, &[8080]);
    assert_eq!(start_poll(&route, Some(&up)), StartPoll::Ready(8080));
    let pending = record("proj", "api", true, &[0]);
    assert_eq!(start_poll(&route, Some(&pending)), StartPoll::Wait);
    let down = record("proj", "api", false, &[8080]);
    assert_eq!(start_poll(&route, Some(&down)), StartPoll::Exited);
    assert_eq!(start_poll(&route, None), StartPoll::Disappeared);

    assert_eq!(
        start_failure("proj/api", StartPoll::Exited),
        Some("Daemon 'proj/api' started but exited unexpectedly.\nCheck its logs for errors.".to_string())
    );
    assert!(start_failure("proj/api", StartPoll::Disappeared).unwrap().contains("disappeared from the state file"));
    assert_eq!(start_failure("proj/api", StartPoll::Wait), None);
}

#[test]
fn candidates_running_here_come_first_in_order() {
    assert_eq!(checkout_order(&vec![false, true, false, true]), vec![1, 3, 0, 2]);
    assert_eq!(checkout_order(&vec![]), Vec::<usize>::new());
}

#[test]
fn remote_clients_learn_nothing_of_this_machine() {
    let page = || ResolveResult::Page {
        project: "shop".to_string(),
        worktree: None,
        daemons: vec!["api".to_string()],
        dir: Some("/src/shop".to_string()),
    };
    assert!(matches!(reply_for(page(), "shop.localhost", "localhost", true), Reply::Page { .. }));
    match reply_for(page(), "shop.localhost", "localhost", false) {
        Reply::UnknownHost { heading, known } => {
            assert_eq!(heading, "Not found");
            assert!(known.is_empty());
        },
        other => panic!("unexpected {other:?}"),
    }
    let unknown = || ResolveResult::Unknown { heading: "Unknown project".to_string(), known: vec!["shop".to_string()] };
    match reply_for(unknown(), "x.localhost", "localhost", true) {
        Reply::UnknownHost { heading, known } => {
            assert_eq!(heading, "Unknown project");
            assert_eq!(known, vec!["shop".to_string()]);
        },
        other => panic!("unexpected {other:?}"),
    }
    match reply_for(unknown(), "x.localhost", "localhost", false) {
        Reply::UnknownHost { heading, known } => {
            assert_eq!(heading, "Not found");
            assert!(known.is_empty());
        },
        other => panic!("unexpected {other:?}"),
    }
    match reply_for(ResolveResult::Error("in /home/me/src".to_string()), "x.localhost", "localhost", false) {
        Reply::BadGateway(m) => assert_eq!(m, "'x.localhost' is not available."),
        other => panic!("unexpected {other:?}"),
    }
    match reply_for(ResolveResult::Error("in /home/me/src".to_string()), "x.localhost", "localhost", true) {
        Reply::BadGateway(m) => assert_eq!(m, "in /home/me/src"),
        other => panic!("unexpected {other:?}"),
    }
    match reply_for(ResolveResult::NotFound, "x.localhost", "localhost", false) {
        Reply::BadGateway(m) => assert_eq!(m, not_found_message("x.localhost", "localhost")),
        other => panic!("unexpected {other:?}"),
    }
    assert!(not_found_message("x.localhost", "localhost").ends_with("Expected format: <daemon>.<project>.localhost"));
    assert!(matches!(reply_for(ResolveResult::Ready(8080), "x", "localhost", false), Reply::Forward(8080)));
}

#[test]
fn a_connect_is_refused_in_the_order_its_checks_run() {
    // A name outside the TLD is refused before anything about the proxy's state.
    let (status, _) = connect_decision("localhost", "example.com:443", true, false, true, false).unwrap_err();
    assert_eq!(status, 403);
    // So is an https:// URL over plain HTTP.
    let (status, _) = connect_decision("localhost", "api.localhost:443", false, false, true, false).unwrap_err();
    assert_eq!(status, 502);
    assert_eq!(
        connect_decision("localhost", "api.localhost:443", true, false, true, false),
        Err((503, "The proxy listener address is unknown, so CONNECT cannot be tunnelled".to_string()))
    );
    assert_eq!(
        connect_decision("localhost", "api.localhost:443", true, true, true, false),
        Err((503, "The proxy is shutting down".to_string()))
    );
    assert_eq!(
        connect_decision("localhost", "api.localhost:443", true, true, false, false),
        Err((503, "Too many CONNECT tunnels are open".to_string()))
    );
    assert_eq!(
        connect_decision("localhost", "[::1]:443", true, true, false, true),
        Err((403, "pitchfork only tunnels CONNECT for names under .localhost \u{2014} refusing ::1".to_string()))
    );
    assert_eq!(
        connect_decision("localhost", "api.localhost:443", true, true, false, true),
        Ok("api.localhost".to_string())
    );
}
