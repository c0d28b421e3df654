//! Requests for the proxy auto-config file: which of them the file answers,
//! and for which port it is written.

use vstd::prelude::*;
use crate::names::{is_strictly_under_tld, spec_strictly_under};
use crate::routing::text::{last_index, last_index_of, parse_port, parse_u16};
use crate::split::{before_char, before_char_from};
use crate::text::{chars_of, string_of};

verus! {

/// The body of the answer to a request that would change the file.
pub const PAC_READ_ONLY: &'static str = "the proxy auto-config file is read-only\n";

/// The methods the file answers, for the `Allow` header of that answer.
pub const PAC_ALLOWED_METHODS: &'static str = "GET, HEAD";

/// What a request for the auto-config file's path gets.
#[derive(Clone, Copy, Debug, PartialEq, Eq, Structural)]
pub enum PacRoute {
    /// It names a host under the TLD: a proxied request that happens to
    /// use this path, so it is proxied like any other.
    Proxy,
    /// The same on the plain-HTTP side of the HTTPS listener: redirected to
    /// HTTPS like any other proxied request.
    RedirectToHttps,
    /// It would change the file: refused with 405.
    ReadOnly,
    /// The file, written for this port.
    Serve(u16),
}

/// The host a request names, without its port: what precedes the first `:`.
pub open spec fn bare_host(host: Seq<char>) -> Seq<char> {
    host.subrange(0, before_char(host, ':') as int)
}

/// Whether a request's host names something under the TLD, which the
/// proxy routes rather than answering with the file.
pub open spec fn names_a_proxied_host(tld: Seq<char>, host: Seq<char>) -> bool {
    bare_host(host).len() > 0 && spec_strictly_under(tld, bare_host(host))
}

/// The port after a host's last `:`, or the whole host read as a port when
/// it has none.
pub open spec fn host_port(host: Seq<char>) -> Option<u16> {
    match last_index(host, ':') {
        Some(i) => parse_u16(host.subrange(i + 1, host.len() as int)),
        None => parse_u16(host),
    }
}

fn names_proxied_host(tld: &str, host: &str) -> (r: bool)
    ensures
        r == names_a_proxied_host(tld@, host@),
{
    let v = chars_of(host);
    let k = before_char_from(&v, 0, ':');
    assert(v@.subrange(0, v@.len() as int) =~= v@);
    if k == 0 {
        return false;
    }
    let bare = string_of(&v, 0, k);
    is_strictly_under_tld(tld, bare.as_str())
}

fn port_of_host(host: &str) -> (r: Option<u16>)
    ensures
        r == host_port(host@),
{
    let v = chars_of(host);
    match last_index_of(&v, ':') {
        Some(i) => {
            let after = string_of(&v, i + 1, v.len());
            parse_port(after.as_str())
        },
        None => parse_port(host),
    }
}

/// What a request for the file on the proxy's own listener gets. `host`
/// is the request's host (empty when it names none), `read` whether the
/// method is `GET` or `HEAD`, and the file is written for the port the
/// request's authority names, else the one after its host's last `:`,
/// else the listener's standard port.
pub open spec fn spec_pac_route(
    tld: Seq<char>,
    host: Seq<char>,
    read: bool,
    authority_port: Option<u16>,
    tls: bool,
) -> PacRoute {
    if names_a_proxied_host(tld, host) {
        PacRoute::Proxy
    } else if !read {
        PacRoute::ReadOnly
    } else {
        PacRoute::Serve(
            match authority_port {
                Some(p) => p,
                None => match host_port(host) {
                    Some(p) => p,
                    None => if tls {
                        443u16
                    } else {
                        80u16
                    },
                },
            },
        )
    }
}

/// What a request for the file on the proxy's own listener gets.
pub fn pac_route(tld: &str, host: &str, read: bool, authority_port: Option<u16>, tls: bool) -> (r: PacRoute)
    ensures
        r == spec_pac_route(tld@, host@, read, authority_port, tls),
{
    if names_proxied_host(tld, host) {
        PacRoute::Proxy
    } else if !read {
        PacRoute::ReadOnly
    } else {
        PacRoute::Serve(
            match authority_port {
                Some(p) => p,
                None => match port_of_host(host) {
                    Some(p) => p,
                    None => if tls {
                        443
                    } else {
                        80
                    },
                },
            },
        )
    }
}

/// What a request for the file gets on the plain-HTTP side of the HTTPS
/// listener, which serves it for the proxy's own `port`.
pub open spec fn spec_plain_pac_route(tld: Seq<char>, host: Seq<char>, read: bool, port: u16) -> PacRoute {
    if names_a_proxied_host(tld, host) {
        PacRoute::RedirectToHttps
    } else if !read {
        PacRoute::ReadOnly
    } else {
        PacRoute::Serve(port)
    }
}

/// What a request for the file gets on the plain-HTTP side of the HTTPS
/// listener.
pub fn plain_pac_route(tld: &str, host: &str, read: bool, port: u16) -> (r: PacRoute)
    ensures
        r == spec_plain_pac_route(tld@, host@, read, port),
{
    if names_proxied_host(tld, host) {
        PacRoute::RedirectToHttps
    } else if !read {
        PacRoute::ReadOnly
    } else {
        PacRoute::Serve(port)
    }
}

} // verus!
