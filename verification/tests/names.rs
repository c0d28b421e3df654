//! Name ownership, case collisions, proxy URLs and the log throttle.
use pitchfork_proxy::names::{
    ascii_case_collisions, build_proxy_url, effective_tld, is_strictly_under_tld, owns_name,
};
use pitchfork_proxy::settings::Settings;
use pitchfork_proxy::throttle::LogThrottle;
use std::time::Duration;

#[test]
fn a_throttled_message_reports_what_it_suppressed() {
    let mut throttle = LogThrottle::new();
    // First call goes through, with nothing suppressed yet.
    assert_eq!(throttle.allow(Duration::from_secs(60)), Some(0));
    // Everything inside the window stays quiet.
    for _ in 0..5 {
        assert_eq!(throttle.allow(Duration::from_secs(60)), None);
    }
    // A zero window always allows, and reports the five it swallowed.
    assert_eq!(throttle.allow(Duration::ZERO), Some(5));
    // The count resets after being reported.
    assert_eq!(throttle.allow(Duration::ZERO), Some(0));
}

#[test]
fn allow_at_follows_the_window_exactly() {
    let mut t = LogThrottle::new();
    assert_eq!(t.allow_at(100, 50), Some(0));
    assert_eq!(t.allow_at(149, 50), None);
    assert_eq!(t.allow_at(150, 50), Some(1));
    // A clock that appears to go backwards counts as no time passed.
    assert_eq!(t.allow_at(10, 50), None);
}

#[test]
fn owns_name_matches_the_apex_and_names_beneath_it() {
    assert!(owns_name("localhost", "localhost"));
    assert!(owns_name("localhost", "api.localhost"));
    assert!(owns_name("localhost", "core.fix-refs.proj.localhost"));
    assert!(owns_name("localhost", "API.LocalHost"));
    assert!(owns_name("localhost", "api.localhost."));
    assert!(owns_name("dev.internal", "api.dev.internal"));

    assert!(!owns_name("localhost", "example.com"));
    // Ends with the letters but not at a label boundary.
    assert!(!owns_name("localhost", "notlocalhost"));
    assert!(!owns_name("localhost", "localhost.evil.com"));
    assert!(!owns_name("localhost", ""));
    assert!(!owns_name("", "api.localhost"));
}

#[test]
fn owns_name_trims_dots_around_the_tld() {
    assert!(owns_name(".localhost.", "api.localhost"));
    assert!(!owns_name("...", "api.localhost"));
    assert!(!owns_name("localhost", ".localhost"));
}

#[test]
fn is_strictly_under_tld_excludes_the_apex() {
    assert!(is_strictly_under_tld("localhost", "api.localhost"));
    assert!(!is_strictly_under_tld("localhost", "localhost"));
    assert!(!is_strictly_under_tld("dev.internal", "dev.internal"));
    assert!(is_strictly_under_tld("dev.internal", "a.dev.internal"));
    assert!(!is_strictly_under_tld("localhost", "example.com"));
}

#[test]
fn test_ascii_case_collisions() {
    let none = ascii_case_collisions(&["myapp", "other", "third"]);
    assert!(none.is_empty());

    let folded = ascii_case_collisions(&["MyApp", "myapp", "other"]);
    assert_eq!(folded.len(), 1);
    assert!(folded.contains(&"myapp".to_string()));

    // Identical spellings collide too, not just case-only variants.
    let exact = ascii_case_collisions(&["dup", "dup"]);
    assert!(exact.contains(&"dup".to_string()));

    // Folding is ASCII-only: DNS does not case-fold non-ASCII labels.
    let unicode = ascii_case_collisions(&["café", "CAFÉ"]);
    assert!(unicode.is_empty());
}

#[test]
fn a_collision_seen_three_times_is_listed_once() {
    let three = ascii_case_collisions(&["A", "a", "a", "b"]);
    assert_eq!(three, vec!["a".to_string()]);
}

fn proxy_settings() -> Settings {
    let mut s = Settings::default();
    s.proxy.enable = true;
    s.proxy.https = true;
    s.proxy.port = 443;
    s.proxy.tld = "localhost".to_string();
    s
}

/// The standard port is omitted, a custom one is not.
#[test]
fn test_build_proxy_url_port_suffix() {
    let mut s = proxy_settings();
    assert_eq!(
        build_proxy_url(Some("api.myproj"), &s).as_deref(),
        Some("https://api.myproj.localhost")
    );
    s.proxy.port = 8088;
    assert_eq!(
        build_proxy_url(Some("api.myproj"), &s).as_deref(),
        Some("https://api.myproj.localhost:8088")
    );
    s.proxy.https = false;
    s.proxy.port = 80;
    assert_eq!(
        build_proxy_url(Some("api.myproj"), &s).as_deref(),
        Some("http://api.myproj.localhost")
    );
}

/// Nothing advertises a URL while the proxy is off, and an unrouted daemon
/// has none either.
#[test]
fn test_build_proxy_url_requires_enabled_proxy_and_host() {
    let mut s = proxy_settings();
    assert_eq!(build_proxy_url(None, &s), None);
    s.proxy.enable = false;
    assert_eq!(build_proxy_url(Some("api.myproj"), &s), None);
}

/// LAN mode serves `.local`, whatever `proxy.tld` says, so URLs must follow.
#[test]
fn test_build_proxy_url_uses_lan_tld() {
    let mut s = proxy_settings();
    s.proxy.tld = "test".to_string();
    assert_eq!(effective_tld(&s), "test");

    s.proxy.lan = true;
    assert_eq!(effective_tld(&s), "local");
    assert_eq!(
        build_proxy_url(Some("api.myproj"), &s).as_deref(),
        Some("https://api.myproj.local")
    );

    s.proxy.lan = false;
    s.proxy.lan_ip = "192.168.1.42".to_string();
    assert_eq!(
        build_proxy_url(Some("api.myproj"), &s).as_deref(),
        Some("https://api.myproj.local")
    );
}

/// An out-of-range port has no URL to show rather than a broken one.
#[test]
fn test_build_proxy_url_rejects_invalid_port() {
    let mut s = proxy_settings();
    s.proxy.port = 0;
    assert_eq!(build_proxy_url(Some("api.myproj"), &s), None);
    s.proxy.port = 70000;
    assert_eq!(build_proxy_url(Some("api.myproj"), &s), None);
}
