//! The setup context for this machine and these settings.

use vstd::prelude::*;
use crate::dns::{dns_port, spec_dns_port};
use crate::names::{effective_tld, spec_effective_tld};
use crate::settings::Settings;
use crate::setup::model::{path_join, Platform, SetupContext};
use crate::setup::parts::join_path;
use crate::setup::records::fixed_paths;

verus! {

/// What parsing `proxy.host` as an IP address gave.
#[derive(Clone, Debug, PartialEq, Eq)]
pub enum HostAddress {
    /// An IPv4 address, written as it displays, and whether it is `0.0.0.0`.
    V4 { text: String, unspecified: bool },
    /// An IPv6 address, written as it displays, and whether it is `::`.
    V6 { text: String, unspecified: bool },
    /// Not an address at all.
    NotAnAddress,
}

/// The address a local client uses to reach a proxy bound to `addr`, as it
/// appears in a URL.
pub open spec fn spec_contact_host(addr: HostAddress) -> Seq<char> {
    match addr {
        HostAddress::V6 { text, unspecified } => if unspecified {
            "[::1]"@
        } else {
            "["@ + text@ + "]"@
        },
        HostAddress::V4 { text, unspecified } => if unspecified {
            "127.0.0.1"@
        } else {
            text@
        },
        HostAddress::NotAnAddress => "127.0.0.1"@,
    }
}

/// The address a local client uses to reach a proxy bound to `addr`,
/// formatted for a URL.
///
/// A wildcard bind is reachable on the loopback address of its own family.
/// An IPv6 literal is bracketed, as a URL requires. Anything that is not an
/// address falls back to IPv4 loopback, as the proxy does.
pub fn contact_host(addr: &HostAddress) -> (h: String)
    ensures
        h@ == spec_contact_host(*addr),
{
    match addr {
        HostAddress::V6 { text, unspecified } => {
            if *unspecified {
                String::from_str("[::1]")
            } else {
                let mut h = String::from_str("[");
                h.append(text.as_str());
                h.append("]");
                h
            }
        },
        HostAddress::V4 { text, unspecified } => {
            if *unspecified {
                String::from_str("127.0.0.1")
            } else {
                text.clone()
            }
        },
        HostAddress::NotAnAddress => String::from_str("127.0.0.1"),
    }
}

/// What the machine says, gathered by the caller before planning.
pub struct MachineFacts {
    /// The platform this binary was built for.
    pub platform: Platform,
    /// Whether systemd-resolved is the active stub resolver.
    pub systemd_resolved: bool,
    /// Major version of systemd, when it could be determined.
    pub systemd_version: Option<u32>,
    /// `proxy.host`, parsed as an IP address.
    pub proxy_host: HostAddress,
    /// pitchfork's state directory.
    pub state_dir: String,
    /// Whether the CA at [`ca_path_for`] is in the system trust store.
    pub ca_trusted: bool,
    /// The running pitchfork executable.
    pub binary: String,
    /// The active macOS network services.
    pub network_services: Vec<String>,
    /// Whether the GNOME proxy settings are available.
    pub gnome_available: bool,
}

/// Where setup generates its certificate authority under `state_dir`.
pub open spec fn spec_generated_ca(state_dir: Seq<char>) -> Seq<char> {
    path_join(path_join(state_dir, "proxy"@), "ca.pem"@)
}

/// The CA certificate setup uses: `proxy.tls_cert` when one is configured,
/// the generated CA otherwise.
pub open spec fn spec_ca_path(s: Settings, state_dir: Seq<char>) -> Seq<char> {
    if s.proxy.tls_cert@.len() > 0 {
        s.proxy.tls_cert@
    } else {
        spec_generated_ca(state_dir)
    }
}

/// Where setup generates its certificate authority.
pub fn generated_ca(state_dir: &str) -> (p: String)
    ensures
        p@ == spec_generated_ca(state_dir@),
{
    let d = join_path(state_dir, "proxy");
    join_path(d.as_str(), "ca.pem")
}

/// The CA certificate setup uses for these settings.
pub fn ca_path_for(s: &Settings, state_dir: &str) -> (p: String)
    ensures
        p@ == spec_ca_path(*s, state_dir@),
{
    if s.proxy.tls_cert.as_str().is_empty() {
        generated_ca(state_dir)
    } else {
        s.proxy.tls_cert.clone()
    }
}

/// The proxy port `proxy.port` gives: itself when it fits a port, 443
/// otherwise.
pub open spec fn spec_proxy_port(port: i64) -> u16 {
    if 0 <= port <= 65535 {
        port as u16
    } else {
        443
    }
}

/// What the context built from `s`, `pac` and `f` holds.
pub open spec fn from_settings(c: SetupContext, s: Settings, pac: bool, f: MachineFacts) -> bool {
    &&& c.platform == f.platform
    &&& c.tld@ == spec_effective_tld(s.proxy)
    &&& c.dns_port == spec_dns_port(s.proxy.dns_port)
    &&& c.proxy_port == spec_proxy_port(s.proxy.port)
    &&& c.https == s.proxy.https
    &&& c.dns_enabled == s.proxy.dns
    &&& c.pac == pac
    &&& c.systemd_resolved == f.systemd_resolved
    &&& c.systemd_version == f.systemd_version
    &&& c.lan == (s.proxy.lan || s.proxy.lan_ip@.len() > 0)
    &&& c.contact_host@ == spec_contact_host(f.proxy_host)
    &&& c.ca_path@ == spec_ca_path(s, f.state_dir@)
    &&& c.ca_trusted == f.ca_trusted
    &&& c.custom_cert == (s.proxy.tls_cert@.len() > 0)
    &&& c.generated_ca@ == spec_generated_ca(f.state_dir@)
    &&& c.binary@ == f.binary@
    &&& c.resolver_dir@ == "/etc/resolver"@
    &&& c.resolved_dropin_dir@ == "/etc/systemd/resolved.conf.d"@
    &&& c.pf_conf@ == "/etc/pf.conf"@
    &&& c.pf_anchor@ == "/etc/pf.anchors/pitchfork"@
    &&& c.network_services@ == (if f.platform == Platform::MacOs {
        f.network_services@
    } else {
        Seq::empty()
    })
    &&& c.gnome == (f.platform == Platform::Linux && f.gnome_available)
    &&& c.prior_auto_proxy@ == Seq::<crate::setup::model::PriorAutoProxy>::empty()
}

/// Build the context for this machine and these settings.
///
/// The fixed system paths are the ones records are rebuilt from, so a plan
/// and an undo of it always name the same files. The automatic-proxy values
/// a `--pac` run replaces are read from the system by the caller, once the
/// context names its PAC URL; the context starts with none.
pub fn context_from_settings(s: &Settings, pac: bool, facts: MachineFacts) -> (c: SetupContext)
    ensures
        from_settings(c, *s, pac, facts),
{
    let ghost f = facts;
    let fixed = fixed_paths();
    let platform = facts.platform;
    let lan_enabled = s.proxy.lan || !s.proxy.lan_ip.as_str().is_empty();
    let tld = effective_tld(s).to_owned();
    let custom_cert = !s.proxy.tls_cert.as_str().is_empty();
    let ca_path = ca_path_for(s, facts.state_dir.as_str());
    let proxy_port: u16 = if 0 <= s.proxy.port && s.proxy.port <= 65535 {
        s.proxy.port as u16
    } else {
        443
    };
    let network_services = if platform == Platform::MacOs {
        facts.network_services
    } else {
        Vec::new()
    };
    SetupContext {
        platform,
        tld,
        dns_port: dns_port(s),
        proxy_port,
        https: s.proxy.https,
        dns_enabled: s.proxy.dns,
        pac,
        systemd_resolved: facts.systemd_resolved,
        systemd_version: facts.systemd_version,
        lan: lan_enabled,
        contact_host: contact_host(&facts.proxy_host),
        ca_path,
        ca_trusted: facts.ca_trusted,
        custom_cert,
        generated_ca: generated_ca(facts.state_dir.as_str()),
        binary: facts.binary,
        resolver_dir: fixed.resolver_dir,
        resolved_dropin_dir: fixed.resolved_dropin_dir,
        pf_conf: fixed.pf_conf,
        pf_anchor: fixed.pf_anchor,
        network_services,
        gnome: platform == Platform::Linux && facts.gnome_available,
        prior_auto_proxy: Vec::new(),
    }
}

} // verus!
