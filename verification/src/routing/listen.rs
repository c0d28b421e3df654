//! Where the proxy listens: the port it refuses to start without, and the
//! address it binds.

use vstd::prelude::*;
use crate::dns::BindAddress;
use crate::doctor::run::{idec, idec_string, lan_mode};
use crate::settings::Settings;
use crate::routing::text::{spec_tls_pair_problem, tls_pair_problem};
use crate::setup::model::path_join;
use crate::setup::parts::join_path;
use crate::text::str_eq;

verus! {

/// The port the proxy listens on, or why it cannot start: `proxy.port`
/// outside 1..=65535.
pub open spec fn spec_serve_port(port: i64) -> Result<u16, Seq<char>> {
    if 1 <= port <= 65535 {
        Ok(port as u16)
    } else {
        Err("proxy.port "@ + idec(port as int) + " is out of valid port range (1-65535), proxy server cannot start"@)
    }
}

/// The port the proxy listens on, or the message it stops with.
pub fn serve_port(port: i64) -> (r: Result<u16, String>)
    ensures
        match r {
            Ok(p) => spec_serve_port(port) == Ok::<u16, Seq<char>>(p),
            Err(m) => spec_serve_port(port) == Err::<u16, Seq<char>>(m@),
        },
{
    if 1 <= port && port <= 65535 {
        Ok(port as u16)
    } else {
        let mut m = String::from_str("proxy.port ");
        m.append(idec_string(port).as_str());
        m.append(" is out of valid port range (1-65535), proxy server cannot start");
        Err(m)
    }
}

/// The address the proxy binds, and whether `proxy.host` had to be
/// replaced because it is not an address.
///
/// In LAN mode the default host widens to every IPv4 interface, so other
/// devices on the network can reach the proxy; a host set by hand is kept.
/// `parsed` is `proxy.host` read as an address, when it is one.
pub open spec fn spec_bind_address(s: Settings, parsed: Option<BindAddress>) -> (BindAddress, bool) {
    if lan_mode(s) && s.proxy.host@ == "127.0.0.1"@ {
        (BindAddress::V4([0u8, 0u8, 0u8, 0u8]), false)
    } else {
        match parsed {
            Some(a) => (a, false),
            None => (BindAddress::V4([127u8, 0u8, 0u8, 1u8]), true),
        }
    }
}

/// The address the proxy binds, and whether `proxy.host` was replaced by
/// IPv4 loopback for not being an address, which the caller warns about.
pub fn bind_address(s: &Settings, parsed: Option<BindAddress>) -> (r: (BindAddress, bool))
    ensures
        r == spec_bind_address(*s, parsed),
{
    if (s.proxy.lan || !s.proxy.lan_ip.as_str().is_empty()) && str_eq(s.proxy.host.as_str(), "127.0.0.1") {
        (BindAddress::V4([0u8, 0u8, 0u8, 0u8]), false)
    } else {
        match parsed {
            Some(a) => (a, false),
            None => (BindAddress::V4([127u8, 0u8, 0u8, 1u8]), true),
        }
    }
}

/// The certificate and key the HTTPS listener serves from: the configured
/// pair, or the generated CA's under `<state_dir>/proxy`; or why the
/// configured pair cannot be used, when only one half of it is set.
pub open spec fn spec_tls_paths(s: Settings, state_dir: Seq<char>) -> Result<(Seq<char>, Seq<char>), Seq<char>> {
    match spec_tls_pair_problem(s.proxy.tls_cert@, s.proxy.tls_key@) {
        Some(p) => Err(p),
        None => {
            let dir = path_join(state_dir, "proxy"@);
            Ok(
                (
                    if s.proxy.tls_cert@.len() == 0 {
                        path_join(dir, "ca.pem"@)
                    } else {
                        s.proxy.tls_cert@
                    },
                    if s.proxy.tls_key@.len() == 0 {
                        path_join(dir, "ca-key.pem"@)
                    } else {
                        s.proxy.tls_key@
                    },
                ),
            )
        },
    }
}

/// The certificate and key the HTTPS listener serves from.
pub fn tls_paths(s: &Settings, state_dir: &str) -> (r: Result<(String, String), String>)
    ensures
        match r {
            Ok((c, k)) => spec_tls_paths(*s, state_dir@) == Ok::<(Seq<char>, Seq<char>), Seq<char>>((c@, k@)),
            Err(m) => spec_tls_paths(*s, state_dir@) == Err::<(Seq<char>, Seq<char>), Seq<char>>(m@),
        },
{
    if let Some(problem) = tls_pair_problem(s.proxy.tls_cert.as_str(), s.proxy.tls_key.as_str()) {
        return Err(problem);
    }
    let dir = join_path(state_dir, "proxy");
    let cert = if s.proxy.tls_cert.as_str().is_empty() {
        join_path(dir.as_str(), "ca.pem")
    } else {
        s.proxy.tls_cert.clone()
    };
    let key = if s.proxy.tls_key.as_str().is_empty() {
        join_path(dir.as_str(), "ca-key.pem")
    } else {
        s.proxy.tls_key.clone()
    };
    Ok((cert, key))
}

} // verus!
