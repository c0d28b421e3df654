//! The order in which a request is decided.
use pitchfork_proxy::routing::flow::{request_step, RequestStep};
use pitchfork_proxy::routing::slugs::{CachedSlugEntry, ProxyTlsMode, ProxyTlsRoute};
use pitchfork_proxy::routing::text::passthrough_unroutable_message;

fn entry(name: &str, mode: ProxyTlsMode) -> (String, CachedSlugEntry) {
    (
        name.to_string(),
        CachedSlugEntry {
            slug: name.to_string(),
            namespace: None,
            daemon_name: name.to_string(),
            dir: format!("/tmp/{name}"),
            worktrees: vec![],
            rejected_worktree_prefixes: vec![],
            tls: ProxyTlsRoute { mode, port: None },
            worktree_tls: vec![],
        },
    )
}

fn table() -> Vec<(String, CachedSlugEntry)> {
    vec![entry("api", ProxyTlsMode::Terminate), entry("vault", ProxyTlsMode::Passthrough)]
}

#[test]
fn a_request_without_a_host_is_a_bad_request() {
    assert_eq!(
        request_step(None, false, None, "localhost", None, &table(), false, false),
        RequestStep::Refuse { status: 400, message: "Missing Host header".to_string() }
    );
}

#[test]
fn connect_is_handed_over_before_the_loop_check() {
    assert_eq!(
        request_step(Some("vault.localhost:443"), true, Some("9"), "localhost", None, &table(), false, false),
        RequestStep::Connect { raw_host: "vault.localhost:443".to_string() }
    );
}

#[test]
fn a_looping_request_is_refused_before_it_is_routed() {
    match request_step(Some("api.localhost:7777"), false, Some("5"), "localhost", Some(19876), &table(), false, false)
    {
        RequestStep::Refuse { status, message } => {
            assert_eq!(status, 508);
            assert!(message.starts_with("Loop detected for 'api.localhost': request has passed through the proxy 5 times."));
        }
        other => panic!("expected a refusal, got {other:?}"),
    }
    assert_eq!(
        request_step(Some("api.localhost"), false, Some("4"), "localhost", None, &table(), false, false),
        RequestStep::Route { host: "api.localhost".to_string(), hops: 4 }
    );
}

#[test]
fn the_web_ui_name_reaches_the_web_ui_while_it_runs() {
    assert_eq!(
        request_step(Some("Pitchfork.localhost:7777"), false, None, "localhost", Some(19876), &table(), false, false),
        RequestStep::WebUi { host: "Pitchfork.localhost".to_string(), port: 19876 }
    );
    assert_eq!(
        request_step(Some("pitchfork.localhost"), false, None, "localhost", None, &table(), false, false),
        RequestStep::Route { host: "pitchfork.localhost".to_string(), hops: 0 }
    );
}

#[test]
fn a_passthrough_host_is_refused_on_the_http_path() {
    for is_tls in [false, true] {
        assert_eq!(
            request_step(Some("vault.localhost."), false, None, "localhost", None, &table(), false, is_tls),
            RequestStep::Refuse {
                status: 502,
                message: passthrough_unroutable_message("vault.localhost", is_tls),
            }
        );
    }
}

#[test]
fn a_forged_hop_count_from_outside_counts_as_none() {
    assert_eq!(
        request_step(Some("[::1]:7777"), false, Some("lots"), "localhost", None, &table(), false, false),
        RequestStep::Route { host: "::1".to_string(), hops: 0 }
    );
}
