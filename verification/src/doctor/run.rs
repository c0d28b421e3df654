//! The doctor's run: what it probes for these settings, and what each
//! port, listener and certificate probe found means.

use vstd::prelude::*;
use crate::dns::{config_from_settings, dns_port, spec_dns_port, unspecified, BindAddress};
use crate::doctor::{Check, Status};
use crate::names::{effective_tld, spec_effective_tld};
use crate::routing::text::{spec_tls_pair_problem, tls_pair_problem};
use crate::settings::Settings;
use crate::setup::blocks::contains_text;
use crate::setup::context::{ca_path_for, contact_host, spec_ca_path, spec_contact_host, HostAddress};
use crate::setup::model::spec_pac_url;
use crate::setup::parts::pac_url_for;
use crate::text::{contains, dec, dec_string, lower_seq, to_ascii_lowercase};

verus! {

// ─── the plan ───────────────────────────────────────────────────────────────

/// The signed decimal spelling of `i`.
pub open spec fn idec(i: int) -> Seq<char> {
    if i < 0 {
        "-"@ + dec((-i) as nat)
    } else {
        dec(i as nat)
    }
}

pub(crate) fn idec_string(i: i64) -> (s: String)
    ensures
        s@ == idec(i as int),
{
    if i < 0 {
        let magnitude: u64 = ((-(i + 1)) as u64) + 1;
        let mut s = String::from_str("-");
        s.append(dec_string(magnitude).as_str());
        s
    } else {
        dec_string(i as u64)
    }
}

/// The check that ends the run when the proxy is off.
pub fn disabled_check() -> (c: Check)
    ensures
        c.name@ == "proxy"@,
        c.status == Status::Fail,
        c.detail@ == "disabled \u{2014} set proxy.enable = true"@,
{
    Check::new("proxy", Status::Fail, "disabled \u{2014} set proxy.enable = true")
}

/// `proxy.port` as a port, or the check that ends the run: the proxy
/// refuses to start on a port outside 1..=65535, so another port is not
/// probed in its place.
pub fn usable_proxy_port(port: i64) -> (r: Result<u16, Check>)
    ensures
        match r {
            Ok(p) => 1 <= port <= 65535 && p == port,
            Err(c) => !(1 <= port <= 65535) && c.name@ == "proxy port"@ && c.status == Status::Fail && c.detail@
                == "proxy.port is "@ + idec(port as int)
                + ", which is not a usable port \u{2014} the proxy cannot start until it is set between 1 and 65535"@,
        },
{
    if 1 <= port && port <= 65535 {
        Ok(port as u16)
    } else {
        let mut d = String::from_str("proxy.port is ");
        d.append(idec_string(port).as_str());
        d.append(", which is not a usable port \u{2014} the proxy cannot start until it is set between 1 and 65535");
        Err(Check::new("proxy port", Status::Fail, d.as_str()))
    }
}

/// The address a probe of the proxy connects to: the bind address, with a
/// wildcard replaced by the loopback address of its family.
pub open spec fn spec_probe_addr(bind: BindAddress) -> Seq<u8> {
    match bind {
        BindAddress::V4(a) => if unspecified(a@) {
            crate::dns::loopback_v4()
        } else {
            a@
        },
        BindAddress::V6(a) => if unspecified(a@) {
            crate::dns::loopback_v6()
        } else {
            a@
        },
    }
}

/// The bytes of `a`, in a vector.
fn bytes_vec(a: &[u8]) -> (v: Vec<u8>)
    ensures
        v@ == a@,
{
    let mut v: Vec<u8> = Vec::new();
    let mut i: usize = 0;
    while i < a.len()
        invariant
            i <= a@.len(),
            v@ == a@.subrange(0, i as int),
        decreases a@.len() - i,
    {
        v.push(a[i]);
        i += 1;
        assert(v@ =~= a@.subrange(0, i as int));
    }
    assert(a@.subrange(0, a@.len() as int) =~= a@);
    v
}

/// What the doctor needs to know before it probes anything.
pub struct DoctorPlan {
    /// The TLD in force.
    pub tld: String,
    /// The port the responder listens on.
    pub dns_port: u16,
    /// The port the proxy listens on.
    pub proxy_port: u16,
    /// The port URLs without one reach: 443 with HTTPS, 80 without.
    pub standard_port: u16,
    /// The proxy's address and port as a URL spells them.
    pub proxy_at: String,
    /// The URL of the proxy's PAC file.
    pub pac_url: String,
    /// Whether the responder is asked for the AAAA record rather than A.
    pub resolver_v6: bool,
    /// The address the listener probes connect to, 4 or 16 bytes.
    pub probe_addr: Vec<u8>,
    /// LAN mode.
    pub lan: bool,
    /// Whether the responder runs.
    pub dns: bool,
    /// Whether the proxy serves HTTPS.
    pub https: bool,
}

/// Whether LAN mode is on.
pub open spec fn lan_mode(s: Settings) -> bool {
    s.proxy.lan || s.proxy.lan_ip@.len() > 0
}

/// Work out what the doctor probes for these settings.
///
/// `host` and `bind` are `proxy.host` read as an address, as text and as
/// bytes (`127.0.0.1` when it is not one). A disabled proxy, or a port the
/// proxy would refuse, ends the run with one failing check.
pub fn plan_doctor(s: &Settings, host: &HostAddress, bind: BindAddress) -> (r: Result<DoctorPlan, Check>)
    ensures
        match r {
            Err(c) => c.status == Status::Fail && if !s.proxy.enable {
                c.name@ == "proxy"@
            } else {
                !(1 <= s.proxy.port <= 65535) && c.name@ == "proxy port"@
            },
            Ok(p) => {
                &&& s.proxy.enable
                &&& 1 <= s.proxy.port <= 65535
                &&& p.proxy_port == s.proxy.port
                &&& p.tld@ == spec_effective_tld(s.proxy)
                &&& p.dns_port == spec_dns_port(s.proxy.dns_port)
                &&& p.standard_port == (if s.proxy.https {
                    443u16
                } else {
                    80u16
                })
                &&& p.proxy_at@ == spec_contact_host(*host) + ":"@ + dec(p.proxy_port as nat)
                &&& p.pac_url@ == spec_pac_url(spec_contact_host(*host), p.proxy_port)
                &&& p.resolver_v6 == (!lan_mode(*s) && (bind matches BindAddress::V6(a) && !unspecified(a@)))
                &&& p.probe_addr@ == spec_probe_addr(bind)
                &&& p.lan == lan_mode(*s)
                &&& p.dns == s.proxy.dns
                &&& p.https == s.proxy.https
            },
        },
{
    if !s.proxy.enable {
        return Err(disabled_check());
    }
    let proxy_port = match usable_proxy_port(s.proxy.port) {
        Ok(p) => p,
        Err(c) => return Err(c),
    };
    let lan = s.proxy.lan || !s.proxy.lan_ip.as_str().is_empty();
    let contact = contact_host(host);
    let mut proxy_at = contact.clone();
    proxy_at.append(":");
    proxy_at.append(dec_string(proxy_port as u64).as_str());
    let pac_url = pac_url_for(contact.as_str(), proxy_port);
    let cfg = config_from_settings(s, None, bind);
    let resolver_v6 = cfg.ipv4.is_none() && cfg.ipv6.is_some();
    let probe_addr: Vec<u8> = match bind {
        BindAddress::V4(a) => {
            let v = bytes_vec(&a);
            if crate::dns::all_zero(v.as_slice()) {
                let l: Vec<u8> = vec![127u8, 0, 0, 1];
                assert(l@ =~= crate::dns::loopback_v4());
                l
            } else {
                v
            }
        },
        BindAddress::V6(a) => {
            let v = bytes_vec(&a);
            if crate::dns::all_zero(v.as_slice()) {
                let l: Vec<u8> = vec![0u8, 0, 0, 0, 0, 0, 0, 0, 0, 0, 0, 0, 0, 0, 0, 1];
                assert(l@ =~= crate::dns::loopback_v6());
                l
            } else {
                v
            }
        },
    };
    Ok(
        DoctorPlan {
            tld: effective_tld(s).to_owned(),
            dns_port: dns_port(s),
            proxy_port,
            standard_port: if s.proxy.https {
                443
            } else {
                80
            },
            proxy_at,
            pac_url,
            resolver_v6,
            probe_addr,
            lan,
            dns: s.proxy.dns,
            https: s.proxy.https,
        },
    )
}

// ─── listeners ──────────────────────────────────────────────────────────────

/// What a probe of a TCP port found.
#[derive(Clone, Copy, Debug, PartialEq, Eq, Structural)]
pub enum PortProbe {
    /// Nothing accepted a connection.
    Closed,
    /// Something accepted, and answered without pitchfork's header.
    Foreign,
    /// Something accepted but did not answer in time, so who holds the port
    /// is still open: a busy pitchfork looks like this too.
    Silent,
    /// The pitchfork proxy answered.
    Pitchfork,
}

/// How one plain request to a port went.
#[derive(Clone, Debug)]
pub enum PortExchange {
    /// The connection was refused or did not open in time.
    Refused,
    /// Something answered, with this head.
    Answered(String),
    /// Something accepted and then would not talk: a reset, a hang-up.
    HungUp,
    /// Something accepted and said nothing in time.
    TimedOut,
}

/// What a port probe found: every pitchfork response carries the
/// `x-pitchfork` header, so an answer without it, or a listener that hangs
/// up on a plain request, is not pitchfork.
pub open spec fn spec_port_probe_of(e: PortExchange) -> PortProbe {
    match e {
        PortExchange::Refused => PortProbe::Closed,
        PortExchange::Answered(head) => if contains(lower_seq(head@), "x-pitchfork"@) {
            PortProbe::Pitchfork
        } else {
            PortProbe::Foreign
        },
        PortExchange::HungUp => PortProbe::Foreign,
        PortExchange::TimedOut => PortProbe::Silent,
    }
}

/// What a port probe found.
pub fn port_probe_of(e: PortExchange) -> (r: PortProbe)
    ensures
        r == spec_port_probe_of(e),
{
    match e {
        PortExchange::Refused => PortProbe::Closed,
        PortExchange::Answered(head) => {
            let h = to_ascii_lowercase(head.as_str());
            if contains_text(h.as_str(), "x-pitchfork") {
                PortProbe::Pitchfork
            } else {
                PortProbe::Foreign
            }
        },
        PortExchange::HungUp => PortProbe::Foreign,
        PortExchange::TimedOut => PortProbe::Silent,
    }
}

/// The listener check's status and detail.
pub open spec fn spec_listener(probe: PortProbe, at: Seq<char>) -> (Status, Seq<char>) {
    match probe {
        PortProbe::Pitchfork => (Status::Pass, "the pitchfork proxy answers on "@ + at),
        PortProbe::Foreign => (
            Status::Fail,
            "something other than pitchfork holds "@ + at + " \u{2014} proxy URLs would reach it instead"@,
        ),
        PortProbe::Silent => (
            Status::Warn,
            "something holds "@ + at
                + " but did not answer in time, so it could not be identified \u{2014} it may be the proxy under load"@,
        ),
        PortProbe::Closed => (
            Status::Fail,
            "nothing is listening on "@ + at + " \u{2014} start it with `pitchfork supervisor start`"@,
        ),
    }
}

/// The check on the proxy's own listener at `at`.
pub fn listener_check(probe: PortProbe, at: &str) -> (c: Check)
    ensures
        c.name@ == "proxy listener"@,
        (c.status, c.detail@) == spec_listener(probe, at@),
{
    match probe {
        PortProbe::Pitchfork => {
            let mut d = String::from_str("the pitchfork proxy answers on ");
            d.append(at);
            Check::new("proxy listener", Status::Pass, d.as_str())
        },
        PortProbe::Foreign => {
            let mut d = String::from_str("something other than pitchfork holds ");
            d.append(at);
            d.append(" \u{2014} proxy URLs would reach it instead");
            Check::new("proxy listener", Status::Fail, d.as_str())
        },
        PortProbe::Silent => {
            let mut d = String::from_str("something holds ");
            d.append(at);
            d.append(
                " but did not answer in time, so it could not be identified \u{2014} it may be the proxy under load",
            );
            Check::new("proxy listener", Status::Warn, d.as_str())
        },
        PortProbe::Closed => {
            let mut d = String::from_str("nothing is listening on ");
            d.append(at);
            d.append(" \u{2014} start it with `pitchfork supervisor start`");
            Check::new("proxy listener", Status::Fail, d.as_str())
        },
    }
}

// ─── the standard port ──────────────────────────────────────────────────────

/// Whether and how the standard port is checked.
#[derive(Clone, Debug)]
pub enum StandardPortStep {
    /// The proxy listens on the standard port itself.
    NotNeeded,
    /// Decided without a probe.
    Settled(Check),
    /// Probe the standard port.
    Probe,
}

/// Whether and how the standard port is checked: under a PAC file the
/// browser connects to `proxy.port` directly and no redirect is installed,
/// and while the PAC state is unknown a missing redirect proves nothing.
pub fn standard_port_step(proxy_port: u16, standard_port: u16, pac_ready: Option<bool>) -> (r: StandardPortStep)
    ensures
        proxy_port == standard_port ==> r is NotNeeded,
        proxy_port != standard_port && pac_ready == Some(true) ==> (r matches StandardPortStep::Settled(c) && c.name@
            == "standard port"@ && c.status == Status::Pass && c.detail@
            == "not needed: the PAC file sends requests to port "@ + dec(proxy_port as nat)),
        proxy_port != standard_port && pac_ready is None ==> (r matches StandardPortStep::Settled(c) && c.name@
            == "standard port"@ && c.status == Status::Warn && c.detail@
            == "the system would not say whether a proxy auto-config file is in use, so port "@ + dec(
            standard_port as nat,
        ) + " was not checked"@),
        proxy_port != standard_port && pac_ready == Some(false) ==> r is Probe,
{
    if proxy_port == standard_port {
        StandardPortStep::NotNeeded
    } else {
        match pac_ready {
            Some(true) => {
                let mut d = String::from_str("not needed: the PAC file sends requests to port ");
                d.append(dec_string(proxy_port as u64).as_str());
                StandardPortStep::Settled(Check::new("standard port", Status::Pass, d.as_str()))
            },
            None => {
                let mut d = String::from_str(
                    "the system would not say whether a proxy auto-config file is in use, so port ",
                );
                d.append(dec_string(standard_port as u64).as_str());
                d.append(" was not checked");
                StandardPortStep::Settled(Check::new("standard port", Status::Warn, d.as_str()))
            },
            Some(false) => StandardPortStep::Probe,
        }
    }
}

/// The standard-port check's status and detail from its probe.
pub open spec fn spec_standard_port(probe: PortProbe, standard: u16, proxy_port: u16) -> (Status, Seq<char>) {
    let sp = dec(standard as nat);
    match probe {
        PortProbe::Pitchfork => (Status::Pass, "port "@ + sp + " reaches the proxy on "@ + dec(proxy_port as nat)),
        PortProbe::Foreign => (
            Status::Fail,
            "port "@ + sp
                + " is held by something other than pitchfork, so proxy URLs without a port would reach it instead"@,
        ),
        PortProbe::Silent => (
            Status::Warn,
            "something holds port "@ + sp + " but did not answer in time, so it could not be identified"@,
        ),
        PortProbe::Closed => (
            Status::Warn,
            "port "@ + sp + " is not redirected, so URLs need :"@ + dec(proxy_port as nat)
                + " \u{2014} run `pitchfork proxy setup`"@,
        ),
    }
}

/// The check on the standard port from its probe.
pub fn standard_port_check(probe: PortProbe, standard_port: u16, proxy_port: u16) -> (c: Check)
    ensures
        c.name@ == "standard port"@,
        (c.status, c.detail@) == spec_standard_port(probe, standard_port, proxy_port),
{
    let sp = dec_string(standard_port as u64);
    match probe {
        PortProbe::Pitchfork => {
            let mut d = String::from_str("port ");
            d.append(sp.as_str());
            d.append(" reaches the proxy on ");
            d.append(dec_string(proxy_port as u64).as_str());
            Check::new("standard port", Status::Pass, d.as_str())
        },
        PortProbe::Foreign => {
            let mut d = String::from_str("port ");
            d.append(sp.as_str());
            d.append(
                " is held by something other than pitchfork, so proxy URLs without a port would reach it instead",
            );
            Check::new("standard port", Status::Fail, d.as_str())
        },
        PortProbe::Silent => {
            let mut d = String::from_str("something holds port ");
            d.append(sp.as_str());
            d.append(" but did not answer in time, so it could not be identified");
            Check::new("standard port", Status::Warn, d.as_str())
        },
        PortProbe::Closed => {
            let mut d = String::from_str("port ");
            d.append(sp.as_str());
            d.append(" is not redirected, so URLs need :");
            d.append(dec_string(proxy_port as u64).as_str());
            d.append(" \u{2014} run `pitchfork proxy setup`");
            Check::new("standard port", Status::Warn, d.as_str())
        },
    }
}

// ─── certificates ───────────────────────────────────────────────────────────

/// What the certificate check has to look at.
#[derive(Clone, Debug)]
pub enum CertificateStep {
    /// HTTPS is off: no check.
    Skip,
    /// The configured pair is half set: this check, without a probe.
    Refuse(Check),
    /// A configured certificate: check that the pair loads.
    LoadCustom { cert: String, key: String },
    /// The generated CA: check that it exists and is trusted.
    CheckGenerated { ca: String },
}

/// What the certificate check looks at for these settings.
pub fn certificate_step(s: &Settings, state_dir: &str) -> (r: CertificateStep)
    ensures
        !s.proxy.https ==> r is Skip,
        s.proxy.https ==> match spec_tls_pair_problem(s.proxy.tls_cert@, s.proxy.tls_key@) {
            Some(p) => r matches CertificateStep::Refuse(c) && c.name@ == "certificate"@ && c.status
                == Status::Fail && c.detail@ == p,
            None => if s.proxy.tls_cert@.len() > 0 {
                r matches CertificateStep::LoadCustom { cert, key } && cert@ == s.proxy.tls_cert@ && key@
                    == s.proxy.tls_key@
            } else {
                r matches CertificateStep::CheckGenerated { ca } && ca@ == spec_ca_path(*s, state_dir@)
            },
        },
{
    if !s.proxy.https {
        return CertificateStep::Skip;
    }
    if let Some(problem) = tls_pair_problem(s.proxy.tls_cert.as_str(), s.proxy.tls_key.as_str()) {
        return CertificateStep::Refuse(Check::new("certificate", Status::Fail, problem.as_str()));
    }
    if !s.proxy.tls_cert.as_str().is_empty() {
        CertificateStep::LoadCustom { cert: s.proxy.tls_cert.clone(), key: s.proxy.tls_key.clone() }
    } else {
        CertificateStep::CheckGenerated { ca: ca_path_for(s, state_dir) }
    }
}

/// Why a configured pair cannot load, found before reading it: a missing
/// certificate, an empty key setting, a missing key.
pub open spec fn spec_configured_cert_problem(
    cert: Seq<char>,
    cert_exists: bool,
    key: Seq<char>,
    key_exists: bool,
) -> Option<Seq<char>> {
    if !cert_exists {
        Some("proxy.tls_cert "@ + cert + " does not exist, so the HTTPS listener cannot start"@)
    } else if key.len() == 0 {
        Some("proxy.tls_cert is set but proxy.tls_key is empty"@)
    } else if !key_exists {
        Some("proxy.tls_key "@ + key + " does not exist, so the HTTPS listener cannot start"@)
    } else {
        None
    }
}

/// Why a configured pair cannot load, as far as whether its files exist
/// tells.
pub fn configured_cert_problem(cert: &str, cert_exists: bool, key: &str, key_exists: bool) -> (r: Option<String>)
    ensures
        match r {
            Some(m) => spec_configured_cert_problem(cert@, cert_exists, key@, key_exists) == Some(m@),
            None => spec_configured_cert_problem(cert@, cert_exists, key@, key_exists) is None,
        },
{
    if !cert_exists {
        let mut m = String::from_str("proxy.tls_cert ");
        m.append(cert);
        m.append(" does not exist, so the HTTPS listener cannot start");
        Some(m)
    } else if key.is_empty() {
        Some(String::from_str("proxy.tls_cert is set but proxy.tls_key is empty"))
    } else if !key_exists {
        let mut m = String::from_str("proxy.tls_key ");
        m.append(key);
        m.append(" does not exist, so the HTTPS listener cannot start");
        Some(m)
    } else {
        None
    }
}

/// The certificate check for a configured pair, from loading it: `None`
/// when reading it did not finish in time.
pub fn custom_certificate_check(cert: &str, loaded: Option<Result<(), String>>) -> (c: Check)
    ensures
        c.name@ == "certificate"@,
        match loaded {
            Some(Ok(())) => c.status == Status::Pass && c.detail@ == "serving your certificate from "@ + cert@,
            Some(Err(e)) => c.status == Status::Fail && c.detail@ == e@,
            None => c.status == Status::Warn && c.detail@ == "reading "@ + cert@
                + " did not finish in time, so the certificate could not be checked"@,
        },
{
    match loaded {
        Some(Ok(())) => {
            let mut d = String::from_str("serving your certificate from ");
            d.append(cert);
            Check::new("certificate", Status::Pass, d.as_str())
        },
        Some(Err(e)) => Check::new("certificate", Status::Fail, e.as_str()),
        None => {
            let mut d = String::from_str("reading ");
            d.append(cert);
            d.append(" did not finish in time, so the certificate could not be checked");
            Check::new("certificate", Status::Warn, d.as_str())
        },
    }
}

/// The certificate check for the generated CA at `ca`: whether it exists,
/// then whether the system trusts it (`None` when the trust store did not
/// answer in time, which is not the same as "not trusted").
pub fn generated_ca_check(ca: &str, exists: bool, trusted: Option<bool>) -> (c: Check)
    ensures
        c.name@ == "certificate"@,
        !exists ==> c.status == Status::Fail && c.detail@ == "no CA at "@ + ca@
            + " \u{2014} start the supervisor once to generate it"@,
        exists && trusted == Some(true) ==> c.status == Status::Pass && c.detail@ == "the pitchfork CA is trusted"@,
        exists && trusted == Some(false) ==> c.status == Status::Fail && c.detail@
            == "the pitchfork CA is not trusted \u{2014} run `pitchfork proxy trust`"@,
        exists && trusted is None ==> c.status == Status::Warn && c.detail@
            == "could not tell whether the pitchfork CA is trusted: the trust store did not answer in time"@,
{
    if !exists {
        let mut d = String::from_str("no CA at ");
        d.append(ca);
        d.append(" \u{2014} start the supervisor once to generate it");
        return Check::new("certificate", Status::Fail, d.as_str());
    }
    match trusted {
        Some(true) => Check::new("certificate", Status::Pass, "the pitchfork CA is trusted"),
        Some(false) => Check::new(
            "certificate",
            Status::Fail,
            "the pitchfork CA is not trusted \u{2014} run `pitchfork proxy trust`",
        ),
        None => Check::new(
            "certificate",
            Status::Warn,
            "could not tell whether the pitchfork CA is trusted: the trust store did not answer in time",
        ),
    }
}

} // verus!
