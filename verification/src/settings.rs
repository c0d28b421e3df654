//! The proxy settings the library reads.
//!
//! Only the `[settings.proxy]` values that decide routing, resolution and
//! setup are modelled; the application fills them from its configuration.

use vstd::prelude::*;

verus! {

/// `[settings.proxy]`.
#[derive(Clone, Debug)]
pub struct ProxySettings {
    /// Whether the proxy runs at all.
    pub enable: bool,
    /// Whether the proxy serves HTTPS.
    pub https: bool,
    /// Port the proxy listens on, as configured (may be out of range).
    pub port: i64,
    /// TLD proxy hostnames live under.
    pub tld: String,
    /// LAN mode: serve `.local` over mDNS.
    pub lan: bool,
    /// A fixed LAN address; non-empty also turns LAN mode on.
    pub lan_ip: String,
    /// Port the loopback resolver listens on, as configured.
    pub dns_port: i64,
    /// Address the proxy binds.
    pub host: String,
    /// A custom certificate, or empty to use the generated CA.
    pub tls_cert: String,
    /// The key of the custom certificate, or empty.
    pub tls_key: String,
    /// Whether the loopback resolver runs.
    pub dns: bool,
    /// Whether extra leading labels resolve to the daemon as wildcards.
    pub wildcard: bool,
}

/// The settings the proxy code reads.
#[derive(Clone, Debug)]
pub struct Settings {
    pub proxy: ProxySettings,
}

impl Default for Settings {
    /// The proxy is off, plain HTTP on port 7777 under `.localhost`, with the
    /// resolver on its default port and wildcard subdomains enabled.
    fn default() -> (s: Self)
        ensures
            !s.proxy.enable,
            !s.proxy.https,
            s.proxy.port == 7777,
            s.proxy.tld@ == "localhost"@,
            !s.proxy.lan,
            s.proxy.lan_ip@ == Seq::<char>::empty(),
            s.proxy.dns_port == 15353,
            s.proxy.host@ == "127.0.0.1"@,
            s.proxy.tls_cert@ == Seq::<char>::empty(),
            s.proxy.tls_key@ == Seq::<char>::empty(),
            s.proxy.dns,
            s.proxy.wildcard,
    {
        Settings {
            proxy: ProxySettings {
                enable: false,
                https: false,
                port: 7777,
                tld: String::from_str("localhost"),
                lan: false,
                lan_ip: String::new(),
                dns_port: 15353,
                host: String::from_str("127.0.0.1"),
                tls_cert: String::new(),
                tls_key: String::new(),
                dns: true,
                wildcard: true,
            },
        }
    }
}

} // verus!
