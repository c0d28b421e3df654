//! The order in which a plain HTTP request is decided: the Host header
//! first, then CONNECT, then the loop check, then the built-in web UI, then
//! passthrough hosts, and only then the daemons.

use vstd::prelude::*;
use crate::names::eq_ignore_ascii_case;
use crate::routing::request::{hops_of, loop_message, routing_host, spec_hops, spec_loop_message, spec_routing_host};
use crate::routing::slugs::{resolve_tls_mode_in, spec_resolve_tls_mode_in, CachedSlugEntry, ProxyTlsMode};
use crate::routing::text::{passthrough_unroutable_message, spec_passthrough_unroutable, spec_strip_tld, strip_tld};
use crate::text::eq_fold;

verus! {

/// The status of a request without a host.
pub const STATUS_BAD_REQUEST: u16 = 400;

/// The status of a request for a passthrough host that reached plain HTTP.
pub const STATUS_BAD_GATEWAY: u16 = 502;

/// The status of a request that went round the proxy too often.
pub const STATUS_LOOP_DETECTED: u16 = 508;

/// What the proxy does first with a request.
#[derive(Debug, Clone, PartialEq, Eq)]
pub enum RequestStep {
    /// Answer with this status and message, and nothing more.
    Refuse { status: u16, message: String },
    /// A CONNECT request: the tunnel handler takes it, with the host as sent.
    Connect { raw_host: String },
    /// `pitchfork.<tld>`: forward to the built-in web UI on this port.
    WebUi { host: String, port: u16 },
    /// Resolve `host` among the daemons and forward there, the request
    /// carrying `hops` passes so far.
    Route { host: String, hops: u64 },
}

pub enum RequestStepV {
    Refuse { status: u16, message: Seq<char> },
    Connect { raw_host: Seq<char> },
    WebUi { host: Seq<char>, port: u16 },
    Route { host: Seq<char>, hops: u64 },
}

impl RequestStep {
    pub open spec fn view(&self) -> RequestStepV {
        match self {
            RequestStep::Refuse { status, message } => RequestStepV::Refuse { status: *status, message: message@ },
            RequestStep::Connect { raw_host } => RequestStepV::Connect { raw_host: raw_host@ },
            RequestStep::WebUi { host, port } => RequestStepV::WebUi { host: host@, port: *port },
            RequestStep::Route { host, hops } => RequestStepV::Route { host: host@, hops: *hops },
        }
    }
}

/// Whether `host` is the web UI's own name, `pitchfork.<tld>` in any case.
pub open spec fn names_web_ui(host: Seq<char>, tld: Seq<char>) -> bool {
    spec_strip_tld(host, tld) matches Some(sub) && eq_fold(sub, "pitchfork"@)
}

/// The first step for a request.
///
/// `raw_host` is its `:authority` or Host header, `hops_header` the value
/// of the hop header as text, `web_ui_port` where the web UI listens when
/// it runs, `entries` and `wildcard` the slug table the TLS mode of a host
/// is read from, and `is_tls` whether the request came over TLS.
pub open spec fn spec_request_step(
    raw_host: Option<Seq<char>>,
    is_connect: bool,
    hops_header: Option<Seq<char>>,
    tld: Seq<char>,
    web_ui_port: Option<u16>,
    entries: Seq<(String, CachedSlugEntry)>,
    wildcard: bool,
    is_tls: bool,
) -> RequestStepV {
    match raw_host {
        None => RequestStepV::Refuse { status: STATUS_BAD_REQUEST, message: "Missing Host header"@ },
        Some(raw) => if is_connect {
            RequestStepV::Connect { raw_host: raw }
        } else {
            let host = spec_routing_host(raw);
            let hops = spec_hops(hops_header);
            match spec_loop_message(host, hops) {
                Some(m) => RequestStepV::Refuse { status: STATUS_LOOP_DETECTED, message: m },
                None => if names_web_ui(host, tld) && web_ui_port is Some {
                    RequestStepV::WebUi { host, port: web_ui_port->0 }
                } else if spec_resolve_tls_mode_in(host, tld, entries, wildcard) == ProxyTlsMode::Passthrough {
                    RequestStepV::Refuse { status: STATUS_BAD_GATEWAY, message: spec_passthrough_unroutable(host, is_tls) }
                } else {
                    RequestStepV::Route { host, hops }
                },
            }
        },
    }
}

/// Decide what the proxy does first with a request, in the order the
/// decisions are taken: a request without a host is refused; CONNECT goes to the
/// tunnel handler before anything is read of the host; a request that has
/// gone round the proxy too often is refused before it is routed;
/// `pitchfork.<tld>` reaches the web UI while it runs; a passthrough host is
/// refused, since its daemon expects TLS; anything else is routed.
pub fn request_step(
    raw_host: Option<&str>,
    is_connect: bool,
    hops_header: Option<&str>,
    tld: &str,
    web_ui_port: Option<u16>,
    entries: &Vec<(String, CachedSlugEntry)>,
    wildcard: bool,
    is_tls: bool,
) -> (r: RequestStep)
    ensures
        r@ == spec_request_step(
            crate::names::opt_view(raw_host),
            is_connect,
            crate::names::opt_view(hops_header),
            tld@,
            web_ui_port,
            entries@,
            wildcard,
            is_tls,
        ),
{
    let raw = match raw_host {
        Some(h) => h,
        None => {
            return RequestStep::Refuse { status: STATUS_BAD_REQUEST, message: String::from_str("Missing Host header") };
        },
    };
    if is_connect {
        return RequestStep::Connect { raw_host: raw.to_owned() };
    }
    let host = routing_host(raw);
    let hops = hops_of(hops_header);
    if let Some(m) = loop_message(host.as_str(), hops) {
        return RequestStep::Refuse { status: STATUS_LOOP_DETECTED, message: m };
    }
    let web_ui = match strip_tld(host.as_str(), tld) {
        Some(sub) => eq_ignore_ascii_case(sub.as_str(), "pitchfork"),
        None => false,
    };
    if web_ui {
        if let Some(port) = web_ui_port {
            return RequestStep::WebUi { host, port };
        }
    }
    if resolve_tls_mode_in(host.as_str(), tld, entries, wildcard).is_passthrough() {
        let message = passthrough_unroutable_message(host.as_str(), is_tls);
        return RequestStep::Refuse { status: STATUS_BAD_GATEWAY, message };
    }
    RequestStep::Route { host, hops }
}

/// A request is routed to a daemon only when it has a host, is not a
/// CONNECT, has not gone round the proxy too often, is not for the running
/// web UI and is not for a passthrough host.
pub proof fn law_only_a_plain_request_is_routed(
    raw_host: Option<Seq<char>>,
    is_connect: bool,
    hops_header: Option<Seq<char>>,
    tld: Seq<char>,
    web_ui_port: Option<u16>,
    entries: Seq<(String, CachedSlugEntry)>,
    wildcard: bool,
    is_tls: bool,
)
    ensures
        spec_request_step(raw_host, is_connect, hops_header, tld, web_ui_port, entries, wildcard, is_tls) matches RequestStepV::Route { host, hops }
            ==> raw_host is Some && !is_connect && host == spec_routing_host(raw_host->0) && hops
            == spec_hops(hops_header) && hops < crate::routing::request::MAX_PROXY_HOPS && !(names_web_ui(host, tld)
            && web_ui_port is Some) && spec_resolve_tls_mode_in(host, tld, entries, wildcard)
            == ProxyTlsMode::Terminate,
{
}

} // verus!
