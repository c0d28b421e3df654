//! The plan for `pitchfork proxy setup`.

use vstd::prelude::*;
use crate::names::eq_ignore_ascii_case;
use crate::setup::model::{
    action_needs_sudo, note_v, path_join, spec_pac_url, step_line, steps_v, strs, Action, ActionV,
    Plan, PlanV, Platform, Probe, ProbeV, Resource, ResourceV, SetupContext, Step, StepV,
};
use crate::setup::parts::{
    join_path, lemma_plus_assoc, lemma_plus_empty, note, pac_url_for, port_text, push_manual,
    push_step, str3,
};
use crate::text::{dec, eq_fold};

verus! {

// ─── facts about a context ──────────────────────────────────────────────────

/// The standard port proxy URLs would use with no port suffix.
pub open spec fn standard_port(c: SetupContext) -> u16 {
    if c.https { 443 } else { 80 }
}

/// Whether traffic has to be redirected from the standard port: not when
/// the proxy already listens there, and not when it is on a privileged port
/// that no redirect can help with.
pub open spec fn needs_redirect(c: SetupContext) -> bool {
    c.proxy_port >= 1024 && c.proxy_port != standard_port(c)
}

/// macOS resolver file for the configured TLD.
pub open spec fn resolver_file(c: SetupContext) -> Seq<char> {
    path_join(c.resolver_dir@, c.tld@)
}

/// systemd-resolved drop-in for the configured TLD.
pub open spec fn dropin_file(c: SetupContext) -> Seq<char> {
    path_join(c.resolved_dropin_dir@, "pitchfork.conf"@)
}

/// URL of the PAC script served by the proxy.
pub open spec fn pac_url(c: SetupContext) -> Seq<char> {
    spec_pac_url(c.contact_host@, c.proxy_port)
}

/// Whether the configured TLD is `localhost`, in any case.
pub open spec fn tld_is_localhost(c: SetupContext) -> bool {
    eq_fold(c.tld@, "localhost"@)
}

// ─── generated files ────────────────────────────────────────────────────────

/// Contents of the macOS `/etc/resolver/<tld>` file.
pub open spec fn spec_macos_resolver_file(dns_port: u16) -> Seq<char> {
    "# Managed by pitchfork (pitchfork proxy setup)"@ + "\nnameserver 127.0.0.1\nport "@ + dec(
        dns_port as nat,
    ) + "\n"@
}

/// Contents of the systemd-resolved drop-in routing the TLD at the resolver.
pub open spec fn spec_resolved_dropin(tld: Seq<char>, dns_port: u16) -> Seq<char> {
    "# Managed by pitchfork (pitchfork proxy setup)"@ + "\n[Resolve]\nDNS=127.0.0.1:"@ + dec(
        dns_port as nat,
    ) + "\nDomains=~"@ + tld + "\n"@
}

/// pf rules redirecting the standard port to the proxy's port.
pub open spec fn spec_pf_anchor_rules(standard: u16, proxy_port: u16) -> Seq<char> {
    "# Managed by pitchfork (pitchfork proxy setup)"@
        + "\nrdr pass on lo0 inet proto tcp from any to any port "@ + dec(standard as nat)
        + " -> 127.0.0.1 port "@ + dec(proxy_port as nat) + "\n"@
}

/// Contents of the macOS `/etc/resolver/<tld>` file.
pub fn macos_resolver_file(dns_port: u16) -> (s: String)
    ensures
        s@ == spec_macos_resolver_file(dns_port),
{
    let mut s = String::from_str("# Managed by pitchfork (pitchfork proxy setup)");
    s.append("\nnameserver 127.0.0.1\nport ");
    s.append(port_text(dns_port).as_str());
    s.append("\n");
    s
}

/// Contents of the systemd-resolved drop-in: `Domains=~<tld>` makes the TLD
/// a routing-only domain.
pub fn resolved_dropin(tld: &str, dns_port: u16) -> (s: String)
    ensures
        s@ == spec_resolved_dropin(tld@, dns_port),
{
    let mut s = String::from_str("# Managed by pitchfork (pitchfork proxy setup)");
    s.append("\n[Resolve]\nDNS=127.0.0.1:");
    s.append(port_text(dns_port).as_str());
    s.append("\nDomains=~");
    s.append(tld);
    s.append("\n");
    s
}

/// pf rules redirecting the standard port to the proxy's unprivileged port.
pub fn pf_anchor_rules(standard_port: u16, proxy_port: u16) -> (s: String)
    ensures
        s@ == spec_pf_anchor_rules(standard_port, proxy_port),
{
    let mut s = String::from_str("# Managed by pitchfork (pitchfork proxy setup)");
    s.append("\nrdr pass on lo0 inet proto tcp from any to any port ");
    s.append(port_text(standard_port).as_str());
    s.append(" -> 127.0.0.1 port ");
    s.append(port_text(proxy_port).as_str());
    s.append("\n");
    s
}

impl SetupContext {
    /// The standard port proxy URLs would use with no port suffix.
    pub fn standard_port(&self) -> (p: u16)
        ensures
            p == standard_port(*self),
    {
        if self.https { 443 } else { 80 }
    }

    /// Whether traffic has to be redirected from the standard port.
    pub fn needs_port_redirect(&self) -> (b: bool)
        ensures
            b == needs_redirect(*self),
    {
        self.proxy_port >= 1024 && self.proxy_port != self.standard_port()
    }

    /// macOS resolver file for the configured TLD.
    pub fn resolver_file(&self) -> (p: String)
        ensures
            p@ == resolver_file(*self),
    {
        join_path(self.resolver_dir.as_str(), self.tld.as_str())
    }

    /// systemd-resolved drop-in for the configured TLD.
    pub fn resolved_dropin(&self) -> (p: String)
        ensures
            p@ == dropin_file(*self),
    {
        join_path(self.resolved_dropin_dir.as_str(), "pitchfork.conf")
    }

    /// URL of the PAC script served by the proxy.
    pub fn pac_url(&self) -> (u: String)
        ensures
            u@ == pac_url(*self),
    {
        pac_url_for(self.contact_host.as_str(), self.proxy_port)
    }
}

// ─── resolver ───────────────────────────────────────────────────────────────

/// The note that `/etc/resolver/localhost` makes `*.localhost` depend on the
/// supervisor.
pub open spec fn localhost_note() -> Seq<char> {
    "Note: /etc/resolver/localhost hands *.localhost lookups to pitchfork, so subdomains such as api.localhost resolve only while the supervisor is running. Plain `localhost` keeps resolving from /etc/hosts either way. Undo this with `pitchfork proxy setup --undo`."@
}

/// The warning for a systemd too old to route a domain at a port.
pub open spec fn old_systemd_warning(v: u32, port: u16, tld: Seq<char>) -> Seq<char> {
    "Warning: systemd "@ + dec(v as nat)
        + " is too old to route a domain at a resolver on a non-standard port. That needs 246 for `DNS=127.0.0.1:"@
        + dec(port as nat) + "` and 247 for `Domains=~"@ + tld
        + "`.\nThe drop-in will be written but will not take effect. Use `pitchfork proxy setup --pac`, or point dnsmasq at 127.0.0.1#"@
        + dec(port as nat) + " and make it your system resolver."@
}

/// The advice for Linux without systemd-resolved.
pub open spec fn dnsmasq_advice(tld: Seq<char>, port: u16) -> Seq<char> {
    "systemd-resolved is not active, so pitchfork cannot route *."@ + tld
        + " for you.\nPoint a local resolver at pitchfork instead, for example with dnsmasq:\n    # /etc/dnsmasq.d/pitchfork\n    server=/"@
        + tld + "/127.0.0.1#"@ + dec(port as nat)
        + "\nthen make dnsmasq your system resolver and restart it.\nAlternatively run `pitchfork proxy setup --pac`, which needs no root access."@
}

/// The advice for a platform whose resolver setup is not automated.
pub open spec fn other_resolver_advice(tld: Seq<char>, port: u16) -> Seq<char> {
    "pitchfork cannot configure this platform's resolver automatically.\nPoint your system resolver at 127.0.0.1:"@
        + dec(port as nat) + " for *."@ + tld + ", or run `pitchfork proxy setup --pac`."@
}

/// The restart of systemd-resolved: unconditional, since every guard tried
/// has at some point skipped a restart that was needed.
pub open spec fn resolved_restart(summary: Seq<char>) -> StepV {
    StepV {
        summary,
        action: ActionV::Run {
            argv: seq!["systemctl"@, "restart"@, "systemd-resolved"@],
            sudo: true,
            skip_if: None,
        },
        resource: Some(ResourceV::ServiceReload("systemd-resolved"@)),
    }
}

/// Resolver steps: teach the system where `*.<tld>` is answered.
pub open spec fn resolver_part(c: SetupContext) -> PlanV {
    if !c.dns_enabled {
        PlanV::step(note_v("proxy.dns is false, so no resolver is running — skipping resolver setup"@))
    } else if c.lan {
        PlanV::step(note_v("LAN mode resolves *.local over mDNS — leaving the .local namespace alone"@))
    } else {
        match c.platform {
            Platform::MacOs => PlanV::step(
                StepV {
                    summary: "write "@ + resolver_file(c) + " pointing *."@ + c.tld@ + " at 127.0.0.1:"@
                        + dec(c.dns_port as nat),
                    action: ActionV::WriteFile {
                        path: resolver_file(c),
                        content: spec_macos_resolver_file(c.dns_port),
                        sudo: true,
                    },
                    resource: Some(ResourceV::File(resolver_file(c))),
                },
            ).plus(if tld_is_localhost(c) { PlanV::advice(localhost_note()) } else { PlanV::empty() }),
            Platform::Linux => if c.systemd_resolved && tld_is_localhost(c) {
                PlanV::step(note_v("systemd-resolved already answers *.localhost with 127.0.0.1 — no resolver change needed"@))
            } else if c.systemd_resolved {
                PlanV::step(
                    StepV {
                        summary: "write "@ + dropin_file(c) + " routing *."@ + c.tld@ + " to 127.0.0.1:"@
                            + dec(c.dns_port as nat),
                        action: ActionV::WriteFile {
                            path: dropin_file(c),
                            content: spec_resolved_dropin(c.tld@, c.dns_port),
                            sudo: true,
                        },
                        resource: Some(ResourceV::File(dropin_file(c))),
                    },
                ).plus(PlanV::step(resolved_restart("restart systemd-resolved to pick up the route (interrupts DNS briefly)"@))).plus(
                    match c.systemd_version {
                        Some(v) => if v < 247 {
                            PlanV::advice(old_systemd_warning(v, c.dns_port, c.tld@))
                        } else {
                            PlanV::empty()
                        },
                        None => PlanV::empty(),
                    },
                )
            } else {
                PlanV::advice(dnsmasq_advice(c.tld@, c.dns_port))
            },
            Platform::Other => PlanV::advice(other_resolver_advice(c.tld@, c.dns_port)),
        }
    }
}

/// [`resolved_restart`] as a step.
pub fn resolved_restart_step(summary: &str) -> (s: Step)
    ensures
        s@ == resolved_restart(summary@),
{
    Step {
        summary: summary.to_owned(),
        action: Action::Run { argv: str3("systemctl", "restart", "systemd-resolved"), sudo: true, skip_if: None },
        resource: Some(Resource::ServiceReload(String::from_str("systemd-resolved"))),
    }
}

/// Resolver steps: teach the system where `*.<tld>` is answered.
pub fn plan_resolver(ctx: &SetupContext, plan: &mut Plan)
    ensures
        final(plan)@ == old(plan)@.plus(resolver_part(*ctx)),
{
    let c = ctx;
    if !c.dns_enabled {
        push_step(plan, note(String::from_str("proxy.dns is false, so no resolver is running — skipping resolver setup")));
        return;
    }
    if c.lan {
        push_step(plan, note(String::from_str("LAN mode resolves *.local over mDNS — leaving the .local namespace alone")));
        return;
    }
    let localhost = eq_ignore_ascii_case(c.tld.as_str(), "localhost");
    let ghost p0 = plan@;
    match c.platform {
        Platform::MacOs => {
            let rf = c.resolver_file();
            let mut summary = String::from_str("write ");
            summary.append(rf.as_str());
            summary.append(" pointing *.");
            summary.append(c.tld.as_str());
            summary.append(" at 127.0.0.1:");
            summary.append(port_text(c.dns_port).as_str());
            let step = Step {
                summary,
                action: Action::WriteFile { path: rf.clone(), content: macos_resolver_file(c.dns_port), sudo: true },
                resource: Some(Resource::File(rf)),
            };
            let ghost sv = step@;
            push_step(plan, step);
            if localhost {
                push_manual(plan, String::from_str("Note: /etc/resolver/localhost hands *.localhost lookups to pitchfork, so subdomains such as api.localhost resolve only while the supervisor is running. Plain `localhost` keeps resolving from /etc/hosts either way. Undo this with `pitchfork proxy setup --undo`."));
                proof { lemma_plus_assoc(p0, PlanV::step(sv), PlanV::advice(localhost_note())); }
            } else {
                proof { lemma_plus_empty(PlanV::step(sv)); }
            }
        },
        Platform::Linux => {
            if c.systemd_resolved && localhost {
                push_step(plan, note(String::from_str("systemd-resolved already answers *.localhost with 127.0.0.1 — no resolver change needed")));
            } else if c.systemd_resolved {
                let df = c.resolved_dropin();
                let mut summary = String::from_str("write ");
                summary.append(df.as_str());
                summary.append(" routing *.");
                summary.append(c.tld.as_str());
                summary.append(" to 127.0.0.1:");
                summary.append(port_text(c.dns_port).as_str());
                let step = Step {
                    summary,
                    action: Action::WriteFile {
                        path: df.clone(),
                        content: resolved_dropin(c.tld.as_str(), c.dns_port),
                        sudo: true,
                    },
                    resource: Some(Resource::File(df)),
                };
                let ghost s1 = step@;
                push_step(plan, step);
                let restart = resolved_restart_step("restart systemd-resolved to pick up the route (interrupts DNS briefly)");
                let ghost s2 = restart@;
                push_step(plan, restart);
                let ghost warn = match c.systemd_version {
                    Some(v) => if v < 247 {
                        PlanV::advice(old_systemd_warning(v, c.dns_port, c.tld@))
                    } else {
                        PlanV::empty()
                    },
                    None => PlanV::empty(),
                };
                proof { lemma_plus_assoc(p0, PlanV::step(s1), PlanV::step(s2)); }
                let mut warned = false;
                if let Some(v) = c.systemd_version {
                    if v < 247 {
                        let vt = crate::text::dec_string(v as u64);
                        let pt = port_text(c.dns_port);
                        let mut m = String::from_str("Warning: systemd ");
                        m.append(vt.as_str());
                        m.append(" is too old to route a domain at a resolver on a non-standard port. That needs 246 for `DNS=127.0.0.1:");
                        m.append(pt.as_str());
                        m.append("` and 247 for `Domains=~");
                        m.append(c.tld.as_str());
                        m.append("`.\nThe drop-in will be written but will not take effect. Use `pitchfork proxy setup --pac`, or point dnsmasq at 127.0.0.1#");
                        m.append(pt.as_str());
                        m.append(" and make it your system resolver.");
                        push_manual(plan, m);
                        warned = true;
                    }
                }
                proof {
                    lemma_plus_assoc(p0, PlanV::step(s1).plus(PlanV::step(s2)), warn);
                    if !warned {
                        lemma_plus_empty(p0.plus(PlanV::step(s1).plus(PlanV::step(s2))));
                    }
                }
            } else {
                let pt = port_text(c.dns_port);
                let mut m = String::from_str("systemd-resolved is not active, so pitchfork cannot route *.");
                m.append(c.tld.as_str());
                m.append(" for you.\nPoint a local resolver at pitchfork instead, for example with dnsmasq:\n    # /etc/dnsmasq.d/pitchfork\n    server=/");
                m.append(c.tld.as_str());
                m.append("/127.0.0.1#");
                m.append(pt.as_str());
                m.append("\nthen make dnsmasq your system resolver and restart it.\nAlternatively run `pitchfork proxy setup --pac`, which needs no root access.");
                push_manual(plan, m);
            }
        },
        Platform::Other => {
            let mut m = String::from_str("pitchfork cannot configure this platform's resolver automatically.\nPoint your system resolver at 127.0.0.1:");
            m.append(port_text(c.dns_port).as_str());
            m.append(" for *.");
            m.append(c.tld.as_str());
            m.append(", or run `pitchfork proxy setup --pac`.");
            push_manual(plan, m);
        },
    }
}

// ─── PAC ────────────────────────────────────────────────────────────────────

/// The step pointing one macOS network service at the PAC file.
pub open spec fn set_autoproxy(service: Seq<char>, url: Seq<char>) -> StepV {
    StepV {
        summary: "set the automatic proxy URL for \""@ + service + "\" to "@ + url,
        action: ActionV::Run {
            argv: seq!["networksetup"@, "-setautoproxyurl"@, service, url],
            sudo: false,
            skip_if: None,
        },
        resource: Some(ResourceV::AutoProxy { service, url }),
    }
}

/// One [`set_autoproxy`] step per service, in order.
pub open spec fn set_autoproxy_steps(services: Seq<Seq<char>>, url: Seq<char>) -> Seq<StepV> {
    services.map_values(|s: Seq<char>| set_autoproxy(s, url))
}

/// PAC steps: the no-sudo path.
pub open spec fn pac_part(c: SetupContext) -> PlanV {
    let url = pac_url(c);
    PlanV::step(note_v("the supervisor serves the PAC file at "@ + url + " while the proxy is running"@)).plus(
        match c.platform {
            Platform::MacOs => if c.network_services@.len() > 0 {
                PlanV { steps: set_autoproxy_steps(strs(c.network_services@), url), manual: Seq::empty() }
            } else {
                PlanV::advice(
                    "No active network services were found, so the automatic proxy URL was not set.\nSet it by hand in System Settings → Network → Details → Proxies → Automatic proxy configuration, using "@
                        + url + "."@,
                )
            },
            Platform::Linux => if c.gnome {
                PlanV::step(
                    StepV {
                        summary: "set the GNOME automatic proxy URL to "@ + url,
                        action: ActionV::Run {
                            argv: seq!["gsettings"@, "set"@, "org.gnome.system.proxy"@, "autoconfig-url"@, url],
                            sudo: false,
                            skip_if: None,
                        },
                        resource: Some(ResourceV::AutoProxy { service: "gnome"@, url }),
                    },
                ).plus(
                    PlanV::step(
                        StepV {
                            summary: "switch the GNOME proxy mode to automatic"@,
                            action: ActionV::Run {
                                argv: seq!["gsettings"@, "set"@, "org.gnome.system.proxy"@, "mode"@, "auto"@],
                                sudo: false,
                                skip_if: None,
                            },
                            resource: None,
                        },
                    ),
                )
            } else {
                PlanV::advice(unsupported_pac_advice(url))
            },
            Platform::Other => PlanV::advice(unsupported_pac_advice(url)),
        },
    )
}

pub open spec fn unsupported_pac_advice(url: Seq<char>) -> Seq<char> {
    "pitchfork cannot set this system's automatic proxy URL for you.\nPoint your browser or desktop proxy settings at "@
        + url + "."@
}

/// The advice when the automatic proxy URL cannot be set for the user.
pub fn unsupported_pac_text(url: &str) -> (m: String)
    ensures
        m@ == unsupported_pac_advice(url@),
{
    let mut m = String::from_str("pitchfork cannot set this system's automatic proxy URL for you.\nPoint your browser or desktop proxy settings at ");
    m.append(url);
    m.append(".");
    m
}

/// PAC steps: the no-sudo path.
pub fn plan_pac(ctx: &SetupContext, plan: &mut Plan)
    ensures
        final(plan)@ == old(plan)@.plus(pac_part(*ctx)),
{
    let c = ctx;
    let url = c.pac_url();
    let ghost p0 = plan@;
    let mut first = String::from_str("the supervisor serves the PAC file at ");
    first.append(url.as_str());
    first.append(" while the proxy is running");
    let n = note(first);
    let ghost nv = n@;
    push_step(plan, n);
    let ghost p1 = plan@;
    let ghost rest = match c.platform {
        Platform::MacOs => if c.network_services@.len() > 0 {
            PlanV { steps: set_autoproxy_steps(strs(c.network_services@), url@), manual: Seq::empty() }
        } else {
            PlanV::advice(
                "No active network services were found, so the automatic proxy URL was not set.\nSet it by hand in System Settings → Network → Details → Proxies → Automatic proxy configuration, using "@
                    + url@ + "."@,
            )
        },
        Platform::Linux => if c.gnome {
            PlanV::step(
                StepV {
                    summary: "set the GNOME automatic proxy URL to "@ + url@,
                    action: ActionV::Run {
                        argv: seq!["gsettings"@, "set"@, "org.gnome.system.proxy"@, "autoconfig-url"@, url@],
                        sudo: false,
                        skip_if: None,
                    },
                    resource: Some(ResourceV::AutoProxy { service: "gnome"@, url: url@ }),
                },
            ).plus(
                PlanV::step(
                    StepV {
                        summary: "switch the GNOME proxy mode to automatic"@,
                        action: ActionV::Run {
                            argv: seq!["gsettings"@, "set"@, "org.gnome.system.proxy"@, "mode"@, "auto"@],
                            sudo: false,
                            skip_if: None,
                        },
                        resource: None,
                    },
                ),
            )
        } else {
            PlanV::advice(unsupported_pac_advice(url@))
        },
        Platform::Other => PlanV::advice(unsupported_pac_advice(url@)),
    };
    assert(pac_part(*c) == PlanV::step(nv).plus(rest));
    proof { lemma_plus_assoc(p0, PlanV::step(nv), rest); }
    match c.platform {
        Platform::MacOs => {
            if c.network_services.len() > 0 {
                let ghost svc = strs(c.network_services@);
                let mut i: usize = 0;
                while i < c.network_services.len()
                    invariant
                        i <= c.network_services@.len(),
                        svc == strs(c.network_services@),
                        plan@ == p1.plus(
                            PlanV { steps: set_autoproxy_steps(svc.subrange(0, i as int), url@), manual: Seq::empty() },
                        ),
                    decreases c.network_services@.len() - i,
                {
                    let service = &c.network_services[i];
                    let mut summary = String::from_str("set the automatic proxy URL for \"");
                    summary.append(service.as_str());
                    summary.append("\" to ");
                    summary.append(url.as_str());
                    let step = Step {
                        summary,
                        action: Action::Run {
                            argv: crate::setup::parts::str4("networksetup", "-setautoproxyurl", service.as_str(), url.as_str()),
                            sudo: false,
                            skip_if: None,
                        },
                        resource: Some(Resource::AutoProxy { service: service.clone(), url: url.clone() }),
                    };
                    let ghost sv = step@;
                    assert(sv == set_autoproxy(svc[i as int], url@));
                    let ghost before = plan@;
                    push_step(plan, step);
                    i += 1;
                    assert(set_autoproxy_steps(svc.subrange(0, i as int), url@) =~= set_autoproxy_steps(
                        svc.subrange(0, i - 1),
                        url@,
                    ).push(sv));
                    assert(plan@.steps =~= p1.plus(
                        PlanV { steps: set_autoproxy_steps(svc.subrange(0, i as int), url@), manual: Seq::empty() },
                    ).steps);
                    assert(plan@.manual =~= p1.plus(
                        PlanV { steps: set_autoproxy_steps(svc.subrange(0, i as int), url@), manual: Seq::empty() },
                    ).manual);
                }
                assert(svc.subrange(0, svc.len() as int) =~= svc);
            } else {
                let mut m = String::from_str("No active network services were found, so the automatic proxy URL was not set.\nSet it by hand in System Settings → Network → Details → Proxies → Automatic proxy configuration, using ");
                m.append(url.as_str());
                m.append(".");
                push_manual(plan, m);
            }
        },
        Platform::Linux => {
            if c.gnome {
                let mut summary = String::from_str("set the GNOME automatic proxy URL to ");
                summary.append(url.as_str());
                let s1 = Step {
                    summary,
                    action: Action::Run {
                        argv: crate::setup::parts::str5("gsettings", "set", "org.gnome.system.proxy", "autoconfig-url", url.as_str()),
                        sudo: false,
                        skip_if: None,
                    },
                    resource: Some(Resource::AutoProxy { service: String::from_str("gnome"), url: url.clone() }),
                };
                let ghost v1 = s1@;
                push_step(plan, s1);
                let s2 = Step {
                    summary: String::from_str("switch the GNOME proxy mode to automatic"),
                    action: Action::Run {
                        argv: crate::setup::parts::str5("gsettings", "set", "org.gnome.system.proxy", "mode", "auto"),
                        sudo: false,
                        skip_if: None,
                    },
                    resource: None,
                };
                let ghost v2 = s2@;
                push_step(plan, s2);
                proof { lemma_plus_assoc(p1, PlanV::step(v1), PlanV::step(v2)); }
            } else {
                push_manual(plan, unsupported_pac_text(url.as_str()));
            }
        },
        Platform::Other => {
            push_manual(plan, unsupported_pac_text(url.as_str()));
        },
    }
}

// ─── CA ─────────────────────────────────────────────────────────────────────

/// CA steps: make the leaf certificates the proxy mints verifiable. On Linux
/// the trust store is root-owned, so the step re-invokes pitchfork under sudo
/// with the certificate named explicitly; macOS takes it unprivileged.
pub open spec fn ca_part(c: SetupContext) -> PlanV {
    if !c.https {
        PlanV::empty()
    } else if c.custom_cert {
        PlanV::step(note_v("proxy.tls_cert is set, so pitchfork serves your certificate and installs no CA"@))
    } else if c.ca_trusted {
        PlanV::step(
            StepV {
                summary: "the pitchfork CA at "@ + c.ca_path@ + " is already trusted"@,
                action: ActionV::Note,
                resource: Some(ResourceV::TrustedCa(c.ca_path@)),
            },
        )
    } else {
        PlanV::step(
            StepV {
                summary: "install the pitchfork CA at "@ + c.ca_path@ + " into the system trust store"@,
                action: if c.platform == Platform::Linux {
                    ActionV::Run {
                        argv: seq![c.binary@, "proxy"@, "trust"@, "--cert"@, c.ca_path@],
                        sudo: true,
                        skip_if: None,
                    }
                } else {
                    ActionV::TrustCa { path: c.ca_path@ }
                },
                resource: Some(ResourceV::TrustedCa(c.ca_path@)),
            },
        )
    }
}

/// CA steps: make the leaf certificates the proxy mints verifiable.
pub fn plan_ca(ctx: &SetupContext, plan: &mut Plan)
    ensures
        final(plan)@ == old(plan)@.plus(ca_part(*ctx)),
{
    let c = ctx;
    if !c.https {
        proof { lemma_plus_empty(plan@); }
        return;
    }
    if c.custom_cert {
        push_step(plan, note(String::from_str("proxy.tls_cert is set, so pitchfork serves your certificate and installs no CA")));
        return;
    }
    if c.ca_trusted {
        let mut summary = String::from_str("the pitchfork CA at ");
        summary.append(c.ca_path.as_str());
        summary.append(" is already trusted");
        push_step(plan, Step { summary, action: Action::Note, resource: Some(Resource::TrustedCa(c.ca_path.clone())) });
        return;
    }
    let mut summary = String::from_str("install the pitchfork CA at ");
    summary.append(c.ca_path.as_str());
    summary.append(" into the system trust store");
    let action = if c.platform == Platform::Linux {
        Action::Run {
            argv: crate::setup::parts::str5(c.binary.as_str(), "proxy", "trust", "--cert", c.ca_path.as_str()),
            sudo: true,
            skip_if: None,
        }
    } else {
        Action::TrustCa { path: c.ca_path.clone() }
    };
    push_step(plan, Step { summary, action, resource: Some(Resource::TrustedCa(c.ca_path.clone())) });
}

// ─── ports ──────────────────────────────────────────────────────────────────

/// iptables arguments for the loopback redirect, parameterised by `-A`,
/// `-C` or `-D`.
pub open spec fn spec_iptables_argv(op: Seq<char>, from: u16, to: u16) -> Seq<Seq<char>> {
    seq![
        "iptables"@, "-t"@, "nat"@, op, "OUTPUT"@, "-p"@, "tcp"@, "-o"@, "lo"@, "--dport"@,
        dec(from as nat), "-j"@, "REDIRECT"@, "--to-ports"@, dec(to as nat),
    ]
}

/// The advice for a privileged port on a platform that cannot grant it.
pub open spec fn privileged_port_advice(c: SetupContext) -> Seq<char> {
    "proxy.port is "@ + dec(c.proxy_port as nat)
        + ", which an unprivileged process cannot bind on macOS, and pitchfork will not run the supervisor as root.\nSet an unprivileged port and re-run setup, which then redirects "@
        + dec(c.proxy_port as nat) + " to it through pf:\n    pitchfork settings set proxy.port "@
        + (if c.https { "8443"@ } else { "8080"@ })
}

/// The pf block loading the pitchfork anchor.
pub open spec fn pf_block(anchor: Seq<char>) -> Seq<char> {
    "rdr-anchor \"pitchfork\"\nload anchor \"pitchfork\" from \""@ + anchor + "\""@
}

/// Port steps: let the proxy answer on 80/443 without running as root.
pub open spec fn ports_part(c: SetupContext) -> PlanV {
    let standard = standard_port(c);
    if c.proxy_port < 1024 {
        if c.platform == Platform::Linux {
            PlanV::step(
                StepV {
                    summary: "grant "@ + c.binary@ + " permission to bind ports below 1024 (cap_net_bind_service)"@,
                    action: ActionV::Run {
                        argv: seq!["setcap"@, "cap_net_bind_service=+ep"@, c.binary@],
                        sudo: true,
                        skip_if: None,
                    },
                    resource: Some(ResourceV::BindCapability(c.binary@)),
                },
            )
        } else {
            PlanV::advice(privileged_port_advice(c))
        }
    } else if !needs_redirect(c) {
        PlanV::step(note_v("the proxy listens on port "@ + dec(c.proxy_port as nat) + ", which needs no redirect"@))
    } else if c.pac {
        PlanV::step(
            note_v(
                "the PAC file sends requests directly to port "@ + dec(c.proxy_port as nat)
                    + ", so no port redirect is needed"@,
            ),
        )
    } else {
        match c.platform {
            Platform::MacOs => PlanV::step(
                StepV {
                    summary: "write "@ + c.pf_anchor@ + " redirecting port "@ + dec(standard as nat) + " to "@
                        + dec(c.proxy_port as nat),
                    action: ActionV::WriteFile {
                        path: c.pf_anchor@,
                        content: spec_pf_anchor_rules(standard, c.proxy_port),
                        sudo: true,
                    },
                    resource: Some(ResourceV::File(c.pf_anchor@)),
                },
            ).plus(
                PlanV::step(
                    StepV {
                        summary: "load the pitchfork anchor into "@ + c.pf_conf@,
                        action: ActionV::EnsureBlock {
                            path: c.pf_conf@,
                            content: pf_block(c.pf_anchor@),
                            sudo: true,
                            pf_order: true,
                            prerequisite: Some(c.pf_anchor@),
                        },
                        resource: Some(ResourceV::Block(c.pf_conf@)),
                    },
                ),
            ).plus(
                PlanV::step(
                    StepV {
                        summary: "enable pf and load the new rules"@,
                        action: ActionV::Run { argv: seq!["pfctl"@, "-Ef"@, c.pf_conf@], sudo: true, skip_if: None },
                        resource: Some(ResourceV::ServiceReload("pf"@)),
                    },
                ),
            ),
            Platform::Linux => PlanV::step(
                StepV {
                    summary: "redirect loopback traffic for port "@ + dec(standard as nat) + " to "@ + dec(
                        c.proxy_port as nat,
                    ) + " (iptables)"@,
                    action: ActionV::Run {
                        argv: spec_iptables_argv("-A"@, standard, c.proxy_port),
                        sudo: true,
                        skip_if: Some(
                            ProbeV { argv: spec_iptables_argv("-C"@, standard, c.proxy_port), expect: Seq::empty() },
                        ),
                    },
                    resource: Some(ResourceV::Redirect { from: standard, to: c.proxy_port }),
                },
            ),
            Platform::Other => PlanV::advice(
                "Redirect port "@ + dec(standard as nat) + " to "@ + dec(c.proxy_port as nat)
                    + " yourself, or use the port in the URL."@,
            ),
        }
    }
}

/// iptables arguments for the loopback redirect, parameterised by `-A`/`-D`.
pub fn iptables_redirect_argv(op: &str, from: u16, to: u16) -> (v: Vec<String>)
    ensures
        strs(v@) == spec_iptables_argv(op@, from, to),
{
    let mut v: Vec<String> = Vec::new();
    v.push(String::from_str("iptables"));
    v.push(String::from_str("-t"));
    v.push(String::from_str("nat"));
    v.push(op.to_owned());
    v.push(String::from_str("OUTPUT"));
    v.push(String::from_str("-p"));
    v.push(String::from_str("tcp"));
    v.push(String::from_str("-o"));
    v.push(String::from_str("lo"));
    v.push(String::from_str("--dport"));
    v.push(port_text(from));
    v.push(String::from_str("-j"));
    v.push(String::from_str("REDIRECT"));
    v.push(String::from_str("--to-ports"));
    v.push(port_text(to));
    assert(strs(v@) =~= spec_iptables_argv(op@, from, to));
    v
}

/// A probe that passes on exit status alone.
pub fn status_probe(argv: Vec<String>) -> (p: Probe)
    ensures
        p@ == (ProbeV { argv: strs(argv@), expect: Seq::empty() }),
{
    let p = Probe { argv, expect: Vec::new() };
    assert(p@.expect =~= Seq::<Seq<char>>::empty());
    p
}

/// Port steps: let the proxy answer on 80/443 without running as root.
pub fn plan_ports(ctx: &SetupContext, plan: &mut Plan)
    ensures
        final(plan)@ == old(plan)@.plus(ports_part(*ctx)),
{
    let c = ctx;
    let standard = c.standard_port();
    if c.proxy_port < 1024 {
        if c.platform == Platform::Linux {
            let mut summary = String::from_str("grant ");
            summary.append(c.binary.as_str());
            summary.append(" permission to bind ports below 1024 (cap_net_bind_service)");
            push_step(plan, Step {
                summary,
                action: Action::Run {
                    argv: str3("setcap", "cap_net_bind_service=+ep", c.binary.as_str()),
                    sudo: true,
                    skip_if: None,
                },
                resource: Some(Resource::BindCapability(c.binary.clone())),
            });
        } else {
            let pt = port_text(c.proxy_port);
            let mut m = String::from_str("proxy.port is ");
            m.append(pt.as_str());
            m.append(", which an unprivileged process cannot bind on macOS, and pitchfork will not run the supervisor as root.\nSet an unprivileged port and re-run setup, which then redirects ");
            m.append(pt.as_str());
            m.append(" to it through pf:\n    pitchfork settings set proxy.port ");
            m.append(if c.https { "8443" } else { "8080" });
            push_manual(plan, m);
        }
        return;
    }
    if !c.needs_port_redirect() {
        let mut m = String::from_str("the proxy listens on port ");
        m.append(port_text(c.proxy_port).as_str());
        m.append(", which needs no redirect");
        push_step(plan, note(m));
        return;
    }
    if c.pac {
        let mut m = String::from_str("the PAC file sends requests directly to port ");
        m.append(port_text(c.proxy_port).as_str());
        m.append(", so no port redirect is needed");
        push_step(plan, note(m));
        return;
    }
    let ghost p0 = plan@;
    match c.platform {
        Platform::MacOs => {
            let mut s1 = String::from_str("write ");
            s1.append(c.pf_anchor.as_str());
            s1.append(" redirecting port ");
            s1.append(port_text(standard).as_str());
            s1.append(" to ");
            s1.append(port_text(c.proxy_port).as_str());
            let st1 = Step {
                summary: s1,
                action: Action::WriteFile {
                    path: c.pf_anchor.clone(),
                    content: pf_anchor_rules(standard, c.proxy_port),
                    sudo: true,
                },
                resource: Some(Resource::File(c.pf_anchor.clone())),
            };
            let ghost v1 = st1@;
            push_step(plan, st1);
            let mut s2 = String::from_str("load the pitchfork anchor into ");
            s2.append(c.pf_conf.as_str());
            let mut block = String::from_str("rdr-anchor \"pitchfork\"\nload anchor \"pitchfork\" from \"");
            block.append(c.pf_anchor.as_str());
            block.append("\"");
            let st2 = Step {
                summary: s2,
                action: Action::EnsureBlock {
                    path: c.pf_conf.clone(),
                    content: block,
                    sudo: true,
                    pf_order: true,
                    prerequisite: Some(c.pf_anchor.clone()),
                },
                resource: Some(Resource::Block(c.pf_conf.clone())),
            };
            let ghost v2 = st2@;
            push_step(plan, st2);
            let st3 = Step {
                summary: String::from_str("enable pf and load the new rules"),
                action: Action::Run { argv: str3("pfctl", "-Ef", c.pf_conf.as_str()), sudo: true, skip_if: None },
                resource: Some(Resource::ServiceReload(String::from_str("pf"))),
            };
            let ghost v3 = st3@;
            push_step(plan, st3);
            proof {
                lemma_plus_assoc(p0, PlanV::step(v1), PlanV::step(v2));
                lemma_plus_assoc(p0, PlanV::step(v1).plus(PlanV::step(v2)), PlanV::step(v3));
            }
        },
        Platform::Linux => {
            let mut summary = String::from_str("redirect loopback traffic for port ");
            summary.append(port_text(standard).as_str());
            summary.append(" to ");
            summary.append(port_text(c.proxy_port).as_str());
            summary.append(" (iptables)");
            push_step(plan, Step {
                summary,
                action: Action::Run {
                    argv: iptables_redirect_argv("-A", standard, c.proxy_port),
                    sudo: true,
                    skip_if: Some(status_probe(iptables_redirect_argv("-C", standard, c.proxy_port))),
                },
                resource: Some(Resource::Redirect { from: standard, to: c.proxy_port }),
            });
        },
        Platform::Other => {
            let mut m = String::from_str("Redirect port ");
            m.append(port_text(standard).as_str());
            m.append(" to ");
            m.append(port_text(c.proxy_port).as_str());
            m.append(" yourself, or use the port in the URL.");
            push_manual(plan, m);
        },
    }
}

// ─── the whole plan ─────────────────────────────────────────────────────────

/// The plan for `pitchfork proxy setup`: PAC or resolver steps, then the CA,
/// then the ports.
pub open spec fn spec_plan(c: SetupContext) -> PlanV {
    (if c.pac { pac_part(c) } else { resolver_part(c) }).plus(ca_part(c)).plus(ports_part(c))
}

/// Build the plan for `pitchfork proxy setup`.
pub fn plan(ctx: &SetupContext) -> (p: Plan)
    ensures
        p@ == spec_plan(*ctx),
{
    let mut p = Plan { steps: Vec::new(), manual: Vec::new() };
    assert(p@.steps =~= Seq::<StepV>::empty());
    assert(p@.manual =~= Seq::<Seq<char>>::empty());
    if ctx.pac {
        plan_pac(ctx, &mut p);
    } else {
        plan_resolver(ctx, &mut p);
    }
    let ghost first = if ctx.pac { pac_part(*ctx) } else { resolver_part(*ctx) };
    proof { lemma_plus_empty(first); }
    plan_ca(ctx, &mut p);
    plan_ports(ctx, &mut p);
    p
}

// ─── describing a plan ──────────────────────────────────────────────────────

/// One display line per step, `sudo` steps marked.
pub open spec fn describe_v(p: PlanV) -> Seq<Seq<char>> {
    p.steps.map_values(|s: StepV| step_line(s))
}

/// Whether any step needs elevated privileges.
pub open spec fn plan_needs_sudo(p: PlanV) -> bool {
    exists|i: int| 0 <= i < p.steps.len() && #[trigger] action_needs_sudo(p.steps[i].action)
}

/// Whether every step is a note.
pub open spec fn plan_is_empty(p: PlanV) -> bool {
    forall|i: int| 0 <= i < p.steps.len() ==> #[trigger] p.steps[i].action == ActionV::Note
}

impl Step {
    /// Whether running this step needs elevated privileges.
    pub fn needs_sudo(&self) -> (b: bool)
        ensures
            b == action_needs_sudo(self@.action),
    {
        match &self.action {
            Action::WriteFile { sudo, .. } => *sudo,
            Action::RemoveFile { sudo, .. } => *sudo,
            Action::EnsureBlock { sudo, .. } => *sudo,
            Action::RemoveBlock { sudo, .. } => *sudo,
            Action::Run { sudo, .. } => *sudo,
            Action::RunIfPresent { sudo, .. } => *sudo,
            Action::RevokeBindCapability { .. } => true,
            Action::UntrustCa { sudo, .. } => *sudo,
            Action::TrustCa { .. } => false,
            Action::Note => false,
        }
    }

    /// The line this step shows in a plan.
    pub fn line(&self) -> (l: String)
        ensures
            l@ == step_line(self@),
    {
        if self.needs_sudo() {
            let mut l = String::from_str("[sudo] ");
            l.append(self.summary.as_str());
            l
        } else {
            self.summary.clone()
        }
    }
}

impl Plan {
    /// One display line per step, `sudo` steps marked.
    pub fn describe(&self) -> (lines: Vec<String>)
        ensures
            strs(lines@) == describe_v(self@),
    {
        let mut lines: Vec<String> = Vec::new();
        let mut i: usize = 0;
        while i < self.steps.len()
            invariant
                i <= self.steps@.len(),
                strs(lines@) == describe_v(self@).subrange(0, i as int),
            decreases self.steps@.len() - i,
        {
            let l = self.steps[i].line();
            assert(self@.steps[i as int] == self.steps@[i as int]@);
            assert(describe_v(self@)[i as int] == l@);
            let ghost before = lines@;
            lines.push(l);
            i += 1;
            assert(lines@ == before.push(l));
            assert(strs(lines@) =~= strs(before).push(l@));
            assert(describe_v(self@).subrange(0, i as int) =~= describe_v(self@).subrange(0, i - 1).push(l@));
        }
        assert(describe_v(self@).subrange(0, i as int) =~= describe_v(self@));
        lines
    }

    /// Whether any step needs elevated privileges.
    pub fn needs_sudo(&self) -> (b: bool)
        ensures
            b == plan_needs_sudo(self@),
    {
        let mut i: usize = 0;
        while i < self.steps.len()
            invariant
                i <= self.steps@.len(),
                forall|j: int| 0 <= j < i ==> !#[trigger] action_needs_sudo(self@.steps[j].action),
            decreases self.steps@.len() - i,
        {
            if self.steps[i].needs_sudo() {
                assert(action_needs_sudo(self@.steps[i as int].action));
                return true;
            }
            i += 1;
        }
        false
    }

    /// Whether the plan would change anything at all.
    pub fn is_empty(&self) -> (b: bool)
        ensures
            b == plan_is_empty(self@),
    {
        let mut i: usize = 0;
        while i < self.steps.len()
            invariant
                i <= self.steps@.len(),
                forall|j: int| 0 <= j < i ==> #[trigger] self@.steps[j].action == ActionV::Note,
            decreases self.steps@.len() - i,
        {
            match &self.steps[i].action {
                Action::Note => {},
                _ => {
                    assert(self@.steps[i as int].action != ActionV::Note);
                    return false;
                },
            }
            i += 1;
        }
        true
    }
}

} // verus!
