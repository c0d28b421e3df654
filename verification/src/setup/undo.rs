//! The plan for `pitchfork proxy setup --undo`: every step `plan` can take
//! has a counterpart here, and steps whose forward version did nothing are
//! absent, so the undo plan is a faithful inverse of what a context installed.

use vstd::prelude::*;
use crate::names::{eq_ignore_ascii_case, views};
use crate::order::{lemma_sorted_keys, sorted_distinct, sorted_keys};
use crate::setup::model::{
    note_v, strs, Action, ActionV, Plan, PlanV, Platform, PriorAutoProxy, Probe, ProbeExpect, ProbeV,
    Resource, ResourceV, SetupContext, Step, StepV,
};
use crate::setup::parts::{lemma_plus_assoc, lemma_plus_empty, port_text, push_step, str3, str4, str5};
use crate::setup::plan::{
    dropin_file, iptables_redirect_argv, needs_redirect, pac_url, resolved_restart,
    resolved_restart_step, resolver_file, spec_iptables_argv, standard_port, status_probe,
    tld_is_localhost,
};
use crate::text::dec;

verus! {

/// Whether this context's setup wrote a resolver file at all: `plan` runs
/// the PAC steps instead of the resolver steps, and neither a disabled
/// resolver nor LAN mode writes one.
pub open spec fn wrote_resolver(c: SetupContext) -> bool {
    c.dns_enabled && !c.lan && !c.pac
}

/// Whether this context's setup wrote a systemd-resolved drop-in.
pub open spec fn wrote_dropin(c: SetupContext) -> bool {
    wrote_resolver(c) && c.systemd_resolved && !tld_is_localhost(c)
}

/// Whether this context's setup granted the bind capability.
pub open spec fn granted_capability(c: SetupContext) -> bool {
    c.proxy_port < 1024
}

/// Whether this context's setup installed a port redirect.
pub open spec fn installed_redirect(c: SetupContext) -> bool {
    !granted_capability(c) && needs_redirect(c) && !c.pac
}

/// The removal of a file pitchfork wrote.
pub open spec fn remove_file_v(path: Seq<char>, still_referenced_by: Option<Seq<char>>) -> StepV {
    StepV {
        summary: "remove "@ + path,
        action: ActionV::RemoveFile { path, sudo: true, still_referenced_by },
        resource: Some(ResourceV::File(path)),
    }
}

/// `paths` without `p`.
pub open spec fn without(paths: Seq<Seq<char>>, p: Seq<char>) -> Seq<Seq<char>>
    decreases paths.len(),
{
    if paths.len() == 0 {
        paths
    } else if paths.last() == p {
        without(paths.drop_last(), p)
    } else {
        without(paths.drop_last(), p).push(paths.last())
    }
}

/// The resolver files undo removes on macOS: the current TLD's, when this
/// context wrote one, then every other file in the resolver directory that
/// carries pitchfork's header (`managed`, as found there), in ascending
/// order.
pub open spec fn mac_resolver_files(c: SetupContext, managed: Seq<Seq<char>>) -> Seq<Seq<char>> {
    (if wrote_resolver(c) { seq![resolver_file(c)] } else { Seq::empty() }) + without(
        sorted_keys(managed),
        resolver_file(c),
    )
}

/// `managed` in ascending order, each path once.
fn sorted_paths(managed: &Vec<String>) -> (r: Vec<String>)
    ensures
        strs(r@) == sorted_keys(strs(managed@)),
{
    let mut copy: Vec<String> = Vec::new();
    let mut i: usize = 0;
    while i < managed.len()
        invariant
            i <= managed@.len(),
            strs(copy@) == strs(managed@).subrange(0, i as int),
        decreases managed.len() - i,
    {
        let ghost cb = copy@;
        copy.push(managed[i].clone());
        assert(strs(copy@) =~= strs(cb).push(managed@[i as int]@));
        i += 1;
        assert(strs(copy@) =~= strs(managed@).subrange(0, i as int));
    }
    assert(strs(managed@).subrange(0, i as int) =~= strs(managed@));
    let r = sorted_distinct(copy);
    proof {
        assert(views(r@) =~= strs(r@));
        assert(views(copy@) =~= strs(copy@));
        lemma_sorted_keys(views(r@), views(copy@));
    }
    r
}

/// Undo of the resolver steps.
pub open spec fn undo_resolver_part(c: SetupContext, managed: Seq<Seq<char>>) -> PlanV {
    match c.platform {
        Platform::MacOs => PlanV {
            steps: mac_resolver_files(c, managed).map_values(|p: Seq<char>| remove_file_v(p, None)),
            manual: Seq::empty(),
        },
        Platform::Linux => if wrote_dropin(c) {
            PlanV::step(remove_file_v(dropin_file(c), None)).plus(
                if c.systemd_resolved {
                    PlanV::step(resolved_restart("restart systemd-resolved to drop the route"@))
                } else {
                    PlanV::empty()
                },
            )
        } else {
            PlanV::empty()
        },
        Platform::Other => PlanV::empty(),
    }
}

/// The removal of the iptables redirect, guarded on that exact rule.
pub open spec fn drop_redirect_v(c: SetupContext) -> StepV {
    StepV {
        summary: "drop the iptables redirect from port "@ + dec(standard_port(c) as nat) + " to "@ + dec(
            c.proxy_port as nat,
        ),
        action: ActionV::RunIfPresent {
            probe: ProbeV { argv: spec_iptables_argv("-C"@, standard_port(c), c.proxy_port), expect: Seq::empty() },
            argv: spec_iptables_argv("-D"@, standard_port(c), c.proxy_port),
            sudo: true,
        },
        resource: Some(ResourceV::Redirect { from: standard_port(c), to: c.proxy_port }),
    }
}

/// Undo of the port steps.
pub open spec fn undo_ports_part(c: SetupContext) -> PlanV {
    match c.platform {
        Platform::MacOs => if installed_redirect(c) {
            PlanV::step(
                StepV {
                    summary: "remove the pitchfork anchor from "@ + c.pf_conf@,
                    action: ActionV::RemoveBlock { path: c.pf_conf@, sudo: true },
                    resource: Some(ResourceV::Block(c.pf_conf@)),
                },
            ).plus(PlanV::step(remove_file_v(c.pf_anchor@, Some(c.pf_conf@)))).plus(
                PlanV::step(
                    StepV {
                        summary: "reload pf rules from "@ + c.pf_conf@,
                        action: ActionV::Run { argv: seq!["pfctl"@, "-f"@, c.pf_conf@], sudo: true, skip_if: None },
                        resource: Some(ResourceV::ServiceReload("pf"@)),
                    },
                ),
            )
        } else {
            PlanV::empty()
        },
        Platform::Linux => (if installed_redirect(c) {
            PlanV::step(drop_redirect_v(c))
        } else {
            PlanV::empty()
        }).plus(
            if granted_capability(c) {
                PlanV::step(
                    StepV {
                        summary: "revoke cap_net_bind_service from "@ + c.binary@,
                        action: ActionV::RevokeBindCapability { binary: c.binary@ },
                        resource: Some(ResourceV::BindCapability(c.binary@)),
                    },
                )
            } else {
                PlanV::empty()
            },
        ),
        Platform::Other => PlanV::empty(),
    }
}

/// A probe whose output must contain `expect`.
pub open spec fn output_probe(argv: Seq<Seq<char>>, expect: Seq<char>) -> ProbeV {
    ProbeV { argv, expect: seq![expect] }
}

/// `networksetup -getautoproxyurl <service>`.
pub open spec fn mac_geturl(service: Seq<char>) -> Seq<Seq<char>> {
    seq!["networksetup"@, "-getautoproxyurl"@, service]
}

/// Turning off pitchfork's automatic proxy URL on one macOS service, only
/// while the service still points at it.
pub open spec fn mac_off_v(service: Seq<char>, url: Seq<char>) -> StepV {
    StepV {
        summary: "turn off the automatic proxy URL "@ + url + " for \""@ + service + "\""@,
        action: ActionV::RunIfPresent {
            probe: output_probe(mac_geturl(service), url),
            argv: seq!["networksetup"@, "-setautoproxystate"@, service, "off"@],
            sudo: false,
        },
        resource: Some(ResourceV::AutoProxy { service, url }),
    }
}

/// Putting back one recorded macOS value: the URL while the service still
/// points at pitchfork, then the switch once the URL is the recorded one.
pub open spec fn mac_restore_v(service: Seq<char>, url: Seq<char>, prior: PriorAutoProxy) -> Seq<StepV> {
    seq![
        StepV {
            summary: "restore the automatic proxy URL for \""@ + service + "\" to "@ + prior.url@,
            action: ActionV::RunIfPresent {
                probe: output_probe(mac_geturl(service), url),
                argv: seq!["networksetup"@, "-setautoproxyurl"@, service, prior.url@],
                sudo: false,
            },
            resource: None,
        },
        StepV {
            summary: "restore the automatic proxy switch for \""@ + service + "\" to "@ + prior.state@,
            action: ActionV::RunIfPresent {
                probe: output_probe(mac_geturl(service), prior.url@),
                argv: seq!["networksetup"@, "-setautoproxystate"@, service, prior.state@],
                sudo: false,
            },
            resource: None,
        },
    ]
}

/// The restore steps for every recorded value of `service`, in order.
pub open spec fn mac_restores(service: Seq<char>, url: Seq<char>, priors: Seq<PriorAutoProxy>) -> Seq<StepV>
    decreases priors.len(),
{
    if priors.len() == 0 {
        Seq::empty()
    } else {
        mac_restores(service, url, priors.drop_last()) + if priors.last().target@ == service {
            mac_restore_v(service, url, priors.last())
        } else {
            Seq::empty()
        }
    }
}

/// For each macOS service in turn: turn pitchfork's URL off, then restore.
pub open spec fn mac_pac_steps(services: Seq<Seq<char>>, url: Seq<char>, priors: Seq<PriorAutoProxy>) -> Seq<StepV>
    decreases services.len(),
{
    if services.len() == 0 {
        Seq::empty()
    } else {
        mac_pac_steps(services.drop_last(), url, priors) + seq![mac_off_v(services.last(), url)] + mac_restores(
            services.last(),
            url,
            priors,
        )
    }
}

/// `gsettings get org.gnome.system.proxy autoconfig-url`.
pub open spec fn gnome_geturl() -> Seq<Seq<char>> {
    seq!["gsettings"@, "get"@, "org.gnome.system.proxy"@, "autoconfig-url"@]
}

/// Putting back one recorded GNOME value: the URL, then the mode.
pub open spec fn gnome_restore_v(url: Seq<char>, prior: PriorAutoProxy) -> Seq<StepV> {
    seq![
        StepV {
            summary: "restore the GNOME automatic proxy URL to "@ + prior.url@,
            action: ActionV::RunIfPresent {
                probe: output_probe(gnome_geturl(), url),
                argv: seq!["gsettings"@, "set"@, "org.gnome.system.proxy"@, "autoconfig-url"@, prior.url@],
                sudo: false,
            },
            resource: None,
        },
        StepV {
            summary: "restore the GNOME proxy mode to "@ + prior.state@,
            action: ActionV::RunIfPresent {
                probe: output_probe(gnome_geturl(), prior.url@),
                argv: seq!["gsettings"@, "set"@, "org.gnome.system.proxy"@, "mode"@, prior.state@],
                sudo: false,
            },
            resource: None,
        },
    ]
}

/// The GNOME restore steps for every recorded `gnome` value, in order.
pub open spec fn gnome_restores(url: Seq<char>, priors: Seq<PriorAutoProxy>) -> Seq<StepV>
    decreases priors.len(),
{
    if priors.len() == 0 {
        Seq::empty()
    } else {
        gnome_restores(url, priors.drop_last()) + if priors.last().target@ == "gnome"@ {
            gnome_restore_v(url, priors.last())
        } else {
            Seq::empty()
        }
    }
}

/// Undo of the PAC steps, run whether or not this context used `--pac`.
pub open spec fn undo_pac_part(c: SetupContext) -> PlanV {
    match c.platform {
        Platform::MacOs => PlanV {
            steps: mac_pac_steps(strs(c.network_services@), pac_url(c), c.prior_auto_proxy@),
            manual: Seq::empty(),
        },
        Platform::Linux => if c.gnome {
            PlanV {
                steps: seq![
                    StepV {
                        summary: "switch the GNOME proxy mode back to none"@,
                        action: ActionV::RunIfPresent {
                            probe: output_probe(gnome_geturl(), pac_url(c)),
                            argv: seq!["gsettings"@, "set"@, "org.gnome.system.proxy"@, "mode"@, "none"@],
                            sudo: false,
                        },
                        resource: Some(ResourceV::AutoProxy { service: "gnome"@, url: pac_url(c) }),
                    },
                ] + gnome_restores(pac_url(c), c.prior_auto_proxy@),
                manual: Seq::empty(),
            }
        } else {
            PlanV::empty()
        },
        Platform::Other => PlanV::empty(),
    }
}

/// Undo of the CA step: always the generated CA, whatever `tls_cert` says
/// now, and only for an HTTPS configuration.
pub open spec fn undo_ca_part(c: SetupContext) -> PlanV {
    if c.https && c.generated_ca@.len() > 0 {
        PlanV::step(
            StepV {
                summary: "remove the pitchfork CA at "@ + c.generated_ca@ + " from the system trust store"@,
                action: ActionV::UntrustCa { path: c.generated_ca@, sudo: c.platform == Platform::Linux },
                resource: Some(ResourceV::TrustedCa(c.generated_ca@)),
            },
        )
    } else {
        PlanV::empty()
    }
}

/// The undo plan for one context: resolver, ports, PAC, then the CA.
pub open spec fn spec_plan_undo(c: SetupContext, managed: Seq<Seq<char>>) -> PlanV {
    undo_resolver_part(c, managed).plus(undo_ports_part(c)).plus(undo_pac_part(c)).plus(undo_ca_part(c))
}

/// [`remove_file_v`] as a step.
pub fn remove_file_step(path: &str, still_referenced_by: Option<String>) -> (s: Step)
    ensures
        s@ == remove_file_v(path@, crate::setup::model::opt_str(still_referenced_by)),
{
    let mut summary = String::from_str("remove ");
    summary.append(path);
    Step {
        summary,
        action: Action::RemoveFile { path: path.to_owned(), sudo: true, still_referenced_by },
        resource: Some(Resource::File(path.to_owned())),
    }
}

/// Undo of the resolver steps.
pub fn undo_resolver(ctx: &SetupContext, managed: &Vec<String>, plan: &mut Plan)
    ensures
        final(plan)@ == old(plan)@.plus(undo_resolver_part(*ctx, strs(managed@))),
{
    let c = ctx;
    let ghost p0 = plan@;
    let wrote = c.dns_enabled && !c.lan && !c.pac;
    match c.platform {
        Platform::MacOs => {
            let rf = c.resolver_file();
            let ghost head: Seq<Seq<char>> = if wrote { seq![rf@] } else { Seq::empty() };
            let sorted = sorted_paths(managed);
            let ghost m = strs(sorted@);
            if wrote {
                push_step(plan, remove_file_step(rf.as_str(), None));
            }
            assert(plan@ == p0.plus(PlanV {
                steps: head.map_values(|p: Seq<char>| remove_file_v(p, None)),
                manual: Seq::empty(),
            })) by {
                assert(plan@.steps =~= p0.steps + head.map_values(|p: Seq<char>| remove_file_v(p, None)));
                assert(plan@.manual =~= p0.manual + Seq::<Seq<char>>::empty());
            }
            let mut i: usize = 0;
            while i < sorted.len()
                invariant
                    i <= sorted@.len(),
                    m == strs(sorted@),
                    m == sorted_keys(strs(managed@)),
                    rf@ == resolver_file(*c),
                    plan@ == p0.plus(PlanV {
                        steps: (head + without(m.subrange(0, i as int), rf@)).map_values(|p: Seq<char>| remove_file_v(p, None)),
                        manual: Seq::empty(),
                    }),
                decreases sorted@.len() - i,
            {
                let ghost prev = plan@;
                let ghost sub = m.subrange(0, i + 1);
                assert(sub.drop_last() =~= m.subrange(0, i as int));
                assert(sub.last() == sorted@[i as int]@);
                if sorted[i] != rf {
                    push_step(plan, remove_file_step(sorted[i].as_str(), None));
                    assert((head + without(sub, rf@)) =~= (head + without(m.subrange(0, i as int), rf@)).push(sorted@[i as int]@));
                } else {
                    assert(without(sub, rf@) == without(m.subrange(0, i as int), rf@));
                }
                i += 1;
                assert(plan@.steps =~= (p0.plus(PlanV {
                    steps: (head + without(m.subrange(0, i as int), rf@)).map_values(|p: Seq<char>| remove_file_v(p, None)),
                    manual: Seq::empty(),
                })).steps);
                assert(plan@.manual =~= (p0.plus(PlanV {
                    steps: (head + without(m.subrange(0, i as int), rf@)).map_values(|p: Seq<char>| remove_file_v(p, None)),
                    manual: Seq::empty(),
                })).manual);
            }
            assert(m.subrange(0, m.len() as int) =~= m);
        },
        Platform::Linux => {
            let localhost = eq_ignore_ascii_case(c.tld.as_str(), "localhost");
            if wrote && c.systemd_resolved && !localhost {
                let df = c.resolved_dropin();
                let s1 = remove_file_step(df.as_str(), None);
                let ghost v1 = s1@;
                push_step(plan, s1);
                if c.systemd_resolved {
                    let s2 = resolved_restart_step("restart systemd-resolved to drop the route");
                    let ghost v2 = s2@;
                    push_step(plan, s2);
                    proof { lemma_plus_assoc(p0, PlanV::step(v1), PlanV::step(v2)); }
                } else {
                    proof { lemma_plus_empty(PlanV::step(v1)); }
                }
            } else {
                proof { lemma_plus_empty(p0); }
            }
        },
        Platform::Other => {
            proof { lemma_plus_empty(p0); }
        },
    }
}

/// Undo of the port steps.
pub fn undo_ports(ctx: &SetupContext, plan: &mut Plan)
    ensures
        final(plan)@ == old(plan)@.plus(undo_ports_part(*ctx)),
{
    let c = ctx;
    let ghost p0 = plan@;
    let granted = c.proxy_port < 1024;
    let installed = !granted && c.needs_port_redirect() && !c.pac;
    let standard = c.standard_port();
    match c.platform {
        Platform::MacOs => {
            if installed {
                let mut s1 = String::from_str("remove the pitchfork anchor from ");
                s1.append(c.pf_conf.as_str());
                let st1 = Step {
                    summary: s1,
                    action: Action::RemoveBlock { path: c.pf_conf.clone(), sudo: true },
                    resource: Some(Resource::Block(c.pf_conf.clone())),
                };
                let ghost v1 = st1@;
                push_step(plan, st1);
                let st2 = remove_file_step(c.pf_anchor.as_str(), Some(c.pf_conf.clone()));
                let ghost v2 = st2@;
                push_step(plan, st2);
                let mut s3 = String::from_str("reload pf rules from ");
                s3.append(c.pf_conf.as_str());
                let st3 = Step {
                    summary: s3,
                    action: Action::Run { argv: str3("pfctl", "-f", c.pf_conf.as_str()), sudo: true, skip_if: None },
                    resource: Some(Resource::ServiceReload(String::from_str("pf"))),
                };
                let ghost v3 = st3@;
                push_step(plan, st3);
                proof {
                    lemma_plus_assoc(p0, PlanV::step(v1), PlanV::step(v2));
                    lemma_plus_assoc(p0, PlanV::step(v1).plus(PlanV::step(v2)), PlanV::step(v3));
                }
            } else {
                proof { lemma_plus_empty(p0); }
            }
        },
        Platform::Linux => {
            let ghost a = if installed_redirect(*c) { PlanV::step(drop_redirect_v(*c)) } else { PlanV::empty() };
            if installed {
                let mut s1 = String::from_str("drop the iptables redirect from port ");
                s1.append(port_text(standard).as_str());
                s1.append(" to ");
                s1.append(port_text(c.proxy_port).as_str());
                push_step(plan, Step {
                    summary: s1,
                    action: Action::RunIfPresent {
                        probe: status_probe(iptables_redirect_argv("-C", standard, c.proxy_port)),
                        argv: iptables_redirect_argv("-D", standard, c.proxy_port),
                        sudo: true,
                    },
                    resource: Some(Resource::Redirect { from: standard, to: c.proxy_port }),
                });
            } else {
                proof { lemma_plus_empty(p0); }
            }
            let ghost p1 = plan@;
            if granted {
                let mut s2 = String::from_str("revoke cap_net_bind_service from ");
                s2.append(c.binary.as_str());
                let st = Step {
                    summary: s2,
                    action: Action::RevokeBindCapability { binary: c.binary.clone() },
                    resource: Some(Resource::BindCapability(c.binary.clone())),
                };
                let ghost v = st@;
                push_step(plan, st);
                proof { lemma_plus_assoc(p0, a, PlanV::step(v)); }
            } else {
                proof {
                    lemma_plus_empty(p1);
                    lemma_plus_empty(a);
                }
            }
        },
        Platform::Other => {
            proof { lemma_plus_empty(p0); }
        },
    }
}

/// A probe whose output must contain `expect`.
pub fn output_probe_of(argv: Vec<String>, expect: &str) -> (p: Probe)
    ensures
        p@ == output_probe(strs(argv@), expect@),
{
    let mut e: Vec<ProbeExpect> = Vec::new();
    e.push(ProbeExpect::Contains(expect.to_owned()));
    let p = Probe { argv, expect: e };
    assert(p@.expect =~= seq![expect@]);
    p
}

/// [`mac_off_v`] as a step.
pub fn mac_off_step(service: &str, url: &str) -> (s: Step)
    ensures
        s@ == mac_off_v(service@, url@),
{
    let mut summary = String::from_str("turn off the automatic proxy URL ");
    summary.append(url);
    summary.append(" for \"");
    summary.append(service);
    summary.append("\"");
    Step {
        summary,
        action: Action::RunIfPresent {
            probe: output_probe_of(str3("networksetup", "-getautoproxyurl", service), url),
            argv: str4("networksetup", "-setautoproxystate", service, "off"),
            sudo: false,
        },
        resource: Some(Resource::AutoProxy { service: service.to_owned(), url: url.to_owned() }),
    }
}

/// Push the two macOS restore steps for `prior`.
pub fn push_mac_restore(plan: &mut Plan, service: &str, url: &str, prior: &PriorAutoProxy)
    ensures
        final(plan)@ == old(plan)@.plus(PlanV { steps: mac_restore_v(service@, url@, *prior), manual: Seq::empty() }),
{
    let ghost p0 = plan@;
    let mut s1 = String::from_str("restore the automatic proxy URL for \"");
    s1.append(service);
    s1.append("\" to ");
    s1.append(prior.url.as_str());
    let st1 = Step {
        summary: s1,
        action: Action::RunIfPresent {
            probe: output_probe_of(str3("networksetup", "-getautoproxyurl", service), url),
            argv: str4("networksetup", "-setautoproxyurl", service, prior.url.as_str()),
            sudo: false,
        },
        resource: None,
    };
    let ghost v1 = st1@;
    push_step(plan, st1);
    let mut s2 = String::from_str("restore the automatic proxy switch for \"");
    s2.append(service);
    s2.append("\" to ");
    s2.append(prior.state.as_str());
    let st2 = Step {
        summary: s2,
        action: Action::RunIfPresent {
            probe: output_probe_of(str3("networksetup", "-getautoproxyurl", service), prior.url.as_str()),
            argv: str4("networksetup", "-setautoproxystate", service, prior.state.as_str()),
            sudo: false,
        },
        resource: None,
    };
    let ghost v2 = st2@;
    push_step(plan, st2);
    assert(plan@.steps =~= p0.steps + mac_restore_v(service@, url@, *prior));
    assert(plan@.manual =~= p0.manual + Seq::<Seq<char>>::empty());
}

/// Push the two GNOME restore steps for `prior`.
pub fn push_gnome_restore(plan: &mut Plan, url: &str, prior: &PriorAutoProxy)
    ensures
        final(plan)@ == old(plan)@.plus(PlanV { steps: gnome_restore_v(url@, *prior), manual: Seq::empty() }),
{
    let ghost p0 = plan@;
    let mut s1 = String::from_str("restore the GNOME automatic proxy URL to ");
    s1.append(prior.url.as_str());
    let st1 = Step {
        summary: s1,
        action: Action::RunIfPresent {
            probe: output_probe_of(str4("gsettings", "get", "org.gnome.system.proxy", "autoconfig-url"), url),
            argv: str5("gsettings", "set", "org.gnome.system.proxy", "autoconfig-url", prior.url.as_str()),
            sudo: false,
        },
        resource: None,
    };
    let ghost v1 = st1@;
    push_step(plan, st1);
    let mut s2 = String::from_str("restore the GNOME proxy mode to ");
    s2.append(prior.state.as_str());
    let st2 = Step {
        summary: s2,
        action: Action::RunIfPresent {
            probe: output_probe_of(str4("gsettings", "get", "org.gnome.system.proxy", "autoconfig-url"), prior.url.as_str()),
            argv: str5("gsettings", "set", "org.gnome.system.proxy", "mode", prior.state.as_str()),
            sudo: false,
        },
        resource: None,
    };
    let ghost v2 = st2@;
    push_step(plan, st2);
    assert(plan@.steps =~= p0.steps + gnome_restore_v(url@, *prior));
    assert(plan@.manual =~= p0.manual + Seq::<Seq<char>>::empty());
}

/// Undo of the PAC steps.
pub fn undo_pac(ctx: &SetupContext, plan: &mut Plan)
    ensures
        final(plan)@ == old(plan)@.plus(undo_pac_part(*ctx)),
{
    let c = ctx;
    let ghost p0 = plan@;
    let url = c.pac_url();
    let ghost priors = c.prior_auto_proxy@;
    match c.platform {
        Platform::MacOs => {
            let ghost svc = strs(c.network_services@);
            let mut i: usize = 0;
            while i < c.network_services.len()
                invariant
                    i <= c.network_services@.len(),
                    svc == strs(c.network_services@),
                    priors == c.prior_auto_proxy@,
                    url@ == pac_url(*c),
                    plan@ == p0.plus(PlanV { steps: mac_pac_steps(svc.subrange(0, i as int), url@, priors), manual: Seq::empty() }),
                decreases c.network_services@.len() - i,
            {
                let service = c.network_services[i].as_str();
                assert(service@ == svc[i as int]);
                push_step(plan, mac_off_step(service, url.as_str()));
                let ghost base = mac_pac_steps(svc.subrange(0, i as int), url@, priors) + seq![mac_off_v(service@, url@)];
                assert(plan@.steps =~= p0.steps + base + mac_restores(service@, url@, priors.subrange(0, 0)));
                assert(plan@.manual =~= p0.manual);
                let mut j: usize = 0;
                while j < c.prior_auto_proxy.len()
                    invariant
                        j <= c.prior_auto_proxy@.len(),
                        priors == c.prior_auto_proxy@,
                        plan@.steps == p0.steps + base + mac_restores(service@, url@, priors.subrange(0, j as int)),
                        plan@.manual == p0.manual,
                    decreases c.prior_auto_proxy@.len() - j,
                {
                    let prior = &c.prior_auto_proxy[j];
                    let ghost before = plan@;
                    assert(priors.subrange(0, j + 1).drop_last() =~= priors.subrange(0, j as int));
                    assert(priors.subrange(0, j + 1).last() == *prior);
                    if crate::text::str_eq(prior.target.as_str(), service) {
                        push_mac_restore(plan, service, url.as_str(), prior);
                        assert(plan@.steps =~= p0.steps + base + mac_restores(service@, url@, priors.subrange(0, j + 1)));
                    } else {
                        assert(plan@.steps =~= p0.steps + base + mac_restores(service@, url@, priors.subrange(0, j + 1)));
                    }
                    j += 1;
                }
                assert(priors.subrange(0, priors.len() as int) =~= priors);
                i += 1;
                assert(svc.subrange(0, i as int).drop_last() =~= svc.subrange(0, i - 1));
                assert(plan@.steps =~= (p0.plus(PlanV { steps: mac_pac_steps(svc.subrange(0, i as int), url@, priors), manual: Seq::empty() })).steps);
                assert(plan@.manual =~= (p0.plus(PlanV { steps: mac_pac_steps(svc.subrange(0, i as int), url@, priors), manual: Seq::empty() })).manual);
            }
            assert(svc.subrange(0, svc.len() as int) =~= svc);
        },
        Platform::Linux => {
            if c.gnome {
                let st = Step {
                    summary: String::from_str("switch the GNOME proxy mode back to none"),
                    action: Action::RunIfPresent {
                        probe: output_probe_of(str4("gsettings", "get", "org.gnome.system.proxy", "autoconfig-url"), url.as_str()),
                        argv: str5("gsettings", "set", "org.gnome.system.proxy", "mode", "none"),
                        sudo: false,
                    },
                    resource: Some(Resource::AutoProxy { service: String::from_str("gnome"), url: url.clone() }),
                };
                let ghost v = st@;
                push_step(plan, st);
                let mut j: usize = 0;
                while j < c.prior_auto_proxy.len()
                    invariant
                        j <= c.prior_auto_proxy@.len(),
                        priors == c.prior_auto_proxy@,
                        url@ == pac_url(*c),
                        plan@.steps == p0.steps + seq![v] + gnome_restores(url@, priors.subrange(0, j as int)),
                        plan@.manual == p0.manual,
                    decreases c.prior_auto_proxy@.len() - j,
                {
                    let prior = &c.prior_auto_proxy[j];
                    assert(priors.subrange(0, j + 1).drop_last() =~= priors.subrange(0, j as int));
                    assert(priors.subrange(0, j + 1).last() == *prior);
                    if crate::text::str_eq(prior.target.as_str(), "gnome") {
                        push_gnome_restore(plan, url.as_str(), prior);
                    }
                    assert(plan@.steps =~= p0.steps + seq![v] + gnome_restores(url@, priors.subrange(0, j + 1)));
                    j += 1;
                }
                assert(priors.subrange(0, priors.len() as int) =~= priors);
                assert(plan@.steps =~= p0.steps + (seq![v] + gnome_restores(url@, priors)));
            } else {
                proof { lemma_plus_empty(p0); }
            }
        },
        Platform::Other => {
            proof { lemma_plus_empty(p0); }
        },
    }
}

/// Undo of the CA step.
pub fn undo_ca(ctx: &SetupContext, plan: &mut Plan)
    ensures
        final(plan)@ == old(plan)@.plus(undo_ca_part(*ctx)),
{
    let c = ctx;
    if c.https && !c.generated_ca.as_str().is_empty() {
        let mut summary = String::from_str("remove the pitchfork CA at ");
        summary.append(c.generated_ca.as_str());
        summary.append(" from the system trust store");
        push_step(plan, Step {
            summary,
            action: Action::UntrustCa { path: c.generated_ca.clone(), sudo: c.platform == Platform::Linux },
            resource: Some(Resource::TrustedCa(c.generated_ca.clone())),
        });
    } else {
        proof { lemma_plus_empty(plan@); }
    }
}

/// Build the plan for `pitchfork proxy setup --undo`.
///
/// `managed` lists the files in the context's resolver directory that carry
/// pitchfork's header, as found there, in any order: files a setup under an
/// earlier TLD left behind are removed too, in ascending order.
pub fn plan_undo(ctx: &SetupContext, managed: &Vec<String>) -> (p: Plan)
    ensures
        p@ == spec_plan_undo(*ctx, strs(managed@)),
{
    let mut p = Plan { steps: Vec::new(), manual: Vec::new() };
    assert(p@.steps =~= Seq::<StepV>::empty());
    assert(p@.manual =~= Seq::<Seq<char>>::empty());
    undo_resolver(ctx, managed, &mut p);
    proof { lemma_plus_empty(undo_resolver_part(*ctx, strs(managed@))); }
    undo_ports(ctx, &mut p);
    undo_pac(ctx, &mut p);
    undo_ca(ctx, &mut p);
    p
}

} // verus!
