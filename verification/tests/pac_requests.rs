//! Requests for the proxy auto-config file, the TLS files served, cookies
//! joined for the backend, and redirects to the web UI.
use pitchfork_proxy::routing::listen::tls_paths;
use pitchfork_proxy::routing::pac::{pac_route, plain_pac_route, PacRoute, PAC_ALLOWED_METHODS, PAC_READ_ONLY};
use pitchfork_proxy::routing::pages::page_redirect_response;
use pitchfork_proxy::routing::request::joined_cookies;
use pitchfork_proxy::hostname::labels::auto_host_for_daemon;
use pitchfork_proxy::settings::Settings;

#[test]
fn a_name_under_the_tld_is_proxied_even_on_the_pac_path() {
    assert_eq!(pac_route("localhost", "api.localhost", true, None, true), PacRoute::Proxy);
    assert_eq!(pac_route("localhost", "api.localhost:7777", false, None, true), PacRoute::Proxy);
    assert_eq!(plain_pac_route("localhost", "api.localhost", true, 7777), PacRoute::RedirectToHttps);
}

#[test]
fn the_pac_file_is_read_only() {
    assert_eq!(pac_route("localhost", "127.0.0.1:7777", false, None, true), PacRoute::ReadOnly);
    assert_eq!(plain_pac_route("localhost", "localhost", false, 7777), PacRoute::ReadOnly);
    assert_eq!(PAC_READ_ONLY, "the proxy auto-config file is read-only\n");
    assert_eq!(PAC_ALLOWED_METHODS, "GET, HEAD");
}

#[test]
fn the_pac_file_names_the_port_it_was_asked_on() {
    // The authority wins, then the host header's port, then the default.
    assert_eq!(pac_route("localhost", "127.0.0.1:7777", true, Some(8443), true), PacRoute::Serve(8443));
    assert_eq!(pac_route("localhost", "127.0.0.1:7777", true, None, true), PacRoute::Serve(7777));
    assert_eq!(pac_route("localhost", "[::1]:9000", true, None, false), PacRoute::Serve(9000));
    assert_eq!(pac_route("localhost", "127.0.0.1", true, None, true), PacRoute::Serve(443));
    assert_eq!(pac_route("localhost", "", true, None, false), PacRoute::Serve(80));
    // The TLD itself is not routable, so it gets the file.
    assert_eq!(pac_route("localhost", "localhost", true, None, false), PacRoute::Serve(80));
    assert_eq!(plain_pac_route("localhost", "127.0.0.1:80", true, 7777), PacRoute::Serve(7777));
}

#[test]
fn the_tls_listener_serves_the_configured_pair_or_the_generated_ca() {
    let s = Settings::default();
    assert_eq!(
        tls_paths(&s, "/state"),
        Ok(("/state/proxy/ca.pem".to_string(), "/state/proxy/ca-key.pem".to_string()))
    );
    let mut s = Settings::default();
    s.proxy.tls_cert = "/c.pem".to_string();
    s.proxy.tls_key = "/k.pem".to_string();
    assert_eq!(tls_paths(&s, "/state"), Ok(("/c.pem".to_string(), "/k.pem".to_string())));
    let mut s = Settings::default();
    s.proxy.tls_cert = "/c.pem".to_string();
    assert!(tls_paths(&s, "/state").is_err());
}

/// Several fields become one, joined with `"; "`, and a comma inside a
/// value is left alone.
#[test]
fn test_join_cookie_fields_joins_with_semicolon_space() {
    let fields = vec![b"_session=abc123".to_vec(), b"consent=ads,stats".to_vec(), b"theme=dark".to_vec()];
    assert_eq!(joined_cookies(&fields), Some(b"_session=abc123; consent=ads,stats; theme=dark".to_vec()));
}

/// A UTF-8 cookie value is joined like any other, since the join works on
/// bytes rather than on visible ASCII.
#[test]
fn test_join_cookie_fields_joins_bytes_outside_ascii() {
    let fields = vec![b"_session=abc123".to_vec(), b"name=Jos\xc3\xa9".to_vec()];
    assert_eq!(joined_cookies(&fields), Some(b"_session=abc123; name=Jos\xc3\xa9".to_vec()));
}

/// A request without cookies gains none.
#[test]
fn test_join_cookie_fields_without_cookies() {
    assert_eq!(joined_cookies(&vec![]), None);
}

/// A reserved project or stack hostname sends the browser to the page in
/// the web UI, which is where those pages live.
#[test]
fn test_page_redirect_targets_the_web_ui() {
    let response = page_redirect_response("http://127.0.0.1:3120", "/projects/shop/feature-a");
    assert_eq!(response.status, 302);
    assert_eq!(response.location, "http://127.0.0.1:3120/projects/shop/feature-a");
    assert_eq!(response.cache_control, "no-store");
    assert_eq!(response.body, "This page is at http://127.0.0.1:3120/projects/shop/feature-a\n");

    let project = page_redirect_response("http://127.0.0.1:3120/ps", "/projects/shop");
    // The base carries the web UI's path prefix when one is set.
    assert_eq!(project.location, "http://127.0.0.1:3120/ps/projects/shop");
}

/// A daemon in the primary checkout omits the worktree label; the same
/// daemon in a linked worktree carries it.
#[test]
fn test_auto_host_primary_and_worktree() {
    assert_eq!(auto_host_for_daemon("api", None, true, Some("my-repo"), None).as_deref(), Some("api.my-repo"));
    assert_eq!(
        auto_host_for_daemon("api", None, true, Some("my-repo"), Some("fix-1")).as_deref(),
        Some("api.fix-1.my-repo")
    );
}
