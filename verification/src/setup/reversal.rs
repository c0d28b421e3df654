//! What `--undo` reverses of what `proxy setup` installs.

use vstd::prelude::*;
use crate::order::{lemma_sorted_keys, sorted_keys};
use crate::setup::model::{note_v, strs, Platform, PlanV, PriorAutoProxy, ResourceV, SetupContext, StepV};
use crate::setup::plan::{
    ca_part, dropin_file, pac_part, pac_url, ports_part, resolved_restart, resolver_file, resolver_part,
    set_autoproxy, set_autoproxy_steps, spec_plan, standard_port,
};
use crate::setup::undo::{
    drop_redirect_v, gnome_restore_v, gnome_restores, granted_capability, installed_redirect, mac_off_v,
    mac_pac_steps, mac_restore_v, mac_restores, mac_resolver_files, remove_file_v, spec_plan_undo, undo_ca_part,
    undo_pac_part, undo_ports_part, undo_resolver_part, without, wrote_dropin, wrote_resolver,
};

verus! {

/// Whether a resource outlasts the step that touched it: everything but a
/// service reload, which leaves nothing behind to remove.
pub open spec fn lasting(r: ResourceV) -> bool {
    !(r is ServiceReload)
}

/// Whether some step of `p` acts on `r`.
pub open spec fn acts_on(p: PlanV, r: ResourceV) -> bool {
    exists|j: int| 0 <= j < p.steps.len() && #[trigger] p.steps[j].resource == Some(r)
}

/// Whether a context names the CA it installs as the CA setup generates:
/// true of every context built from settings, where the CA installed is
/// the generated one unless a certificate of the user's is configured.
pub open spec fn installs_generated_ca(c: SetupContext) -> bool {
    c.https && !c.custom_cert ==> c.ca_path@ == c.generated_ca@ && c.generated_ca@.len() > 0
}

proof fn lemma_acts_on_plus(a: PlanV, b: PlanV, r: ResourceV)
    ensures
        acts_on(a, r) ==> acts_on(a.plus(b), r),
        acts_on(b, r) ==> acts_on(a.plus(b), r),
{
    if acts_on(a, r) {
        let j = choose|j: int| 0 <= j < a.steps.len() && #[trigger] a.steps[j].resource == Some(r);
        assert(a.plus(b).steps[j] == a.steps[j]);
    }
    if acts_on(b, r) {
        let j = choose|j: int| 0 <= j < b.steps.len() && #[trigger] b.steps[j].resource == Some(r);
        assert(a.plus(b).steps[a.steps.len() + j] == b.steps[j]);
    }
}

proof fn lemma_mac_pac_steps(services: Seq<Seq<char>>, url: Seq<char>, priors: Seq<crate::setup::model::PriorAutoProxy>, k: int)
    requires
        0 <= k < services.len(),
    ensures
        exists|j: int|
            0 <= j < mac_pac_steps(services, url, priors).len() && #[trigger] mac_pac_steps(services, url, priors)[j].resource
                == Some(ResourceV::AutoProxy { service: services[k], url }),
    decreases services.len(),
{
    let head = mac_pac_steps(services.drop_last(), url, priors);
    let all = mac_pac_steps(services, url, priors);
    assert(all == head + seq![mac_off_v(services.last(), url)] + mac_restores(services.last(), url, priors));
    if k < services.len() - 1 {
        lemma_mac_pac_steps(services.drop_last(), url, priors, k);
        let j = choose|j: int|
            0 <= j < head.len() && #[trigger] head[j].resource == Some(ResourceV::AutoProxy { service: services.drop_last()[k], url });
        assert(services.drop_last()[k] == services[k]);
        assert(all[j] == head[j]);
        assert(mac_pac_steps(services, url, priors)[j].resource == Some(ResourceV::AutoProxy { service: services[k], url }));
    } else {
        assert(all[head.len() as int] == mac_off_v(services.last(), url));
        assert(mac_pac_steps(services, url, priors)[head.len() as int].resource == Some(
            ResourceV::AutoProxy { service: services[k], url },
        ));
    }
}

proof fn lemma_resolver_undone(c: SetupContext, managed: Seq<Seq<char>>, i: int)
    requires
        !c.pac,
        0 <= i < resolver_part(c).steps.len(),
        resolver_part(c).steps[i].resource matches Some(r) && lasting(r),
    ensures
        acts_on(undo_resolver_part(c, managed), resolver_part(c).steps[i].resource->0),
{
    let u = undo_resolver_part(c, managed);
    match c.platform {
        Platform::MacOs => {
            assert(u.steps[0].resource == resolver_part(c).steps[i].resource);
        },
        Platform::Linux => {
            assert(u.steps[0].resource == resolver_part(c).steps[i].resource);
        },
        Platform::Other => {},
    }
}

proof fn lemma_pac_undone(c: SetupContext, i: int)
    requires
        0 <= i < pac_part(c).steps.len(),
        pac_part(c).steps[i].resource matches Some(r) && lasting(r),
    ensures
        acts_on(undo_pac_part(c), pac_part(c).steps[i].resource->0),
{
    let url = pac_url(c);
    let u = undo_pac_part(c);
    match c.platform {
        Platform::MacOs => {
            let services = strs(c.network_services@);
            let k = i - 1;
            assert(pac_part(c).steps[i] == set_autoproxy_steps(services, url)[k]);
            assert(set_autoproxy_steps(services, url)[k] == set_autoproxy(services[k], url));
            lemma_mac_pac_steps(services, url, c.prior_auto_proxy@, k);
            let j = choose|j: int|
                0 <= j < mac_pac_steps(services, url, c.prior_auto_proxy@).len() && #[trigger] mac_pac_steps(
                    services,
                    url,
                    c.prior_auto_proxy@,
                )[j].resource == Some(ResourceV::AutoProxy { service: services[k], url });
            assert(u.steps[j].resource == pac_part(c).steps[i].resource);
        },
        Platform::Linux => {
            assert(u.steps[0].resource == pac_part(c).steps[i].resource);
        },
        Platform::Other => {},
    }
}

proof fn lemma_ca_undone(c: SetupContext, i: int)
    requires
        installs_generated_ca(c),
        0 <= i < ca_part(c).steps.len(),
        ca_part(c).steps[i].resource matches Some(r) && lasting(r),
    ensures
        acts_on(undo_ca_part(c), ca_part(c).steps[i].resource->0),
{
    assert(undo_ca_part(c).steps[0].resource == ca_part(c).steps[i].resource);
}

proof fn lemma_ports_undone(c: SetupContext, i: int)
    requires
        0 <= i < ports_part(c).steps.len(),
        ports_part(c).steps[i].resource matches Some(r) && lasting(r),
    ensures
        acts_on(undo_ports_part(c), ports_part(c).steps[i].resource->0),
{
    let u = undo_ports_part(c);
    match c.platform {
        Platform::MacOs => {
            if i == 0 {
                assert(u.steps[1].resource == ports_part(c).steps[i].resource);
            } else {
                assert(u.steps[0].resource == ports_part(c).steps[i].resource);
            }
        },
        Platform::Linux => {
            if c.proxy_port < 1024 {
                assert(u.steps.len() == 1);
                assert(u.steps[0].resource == ports_part(c).steps[i].resource);
            } else {
                assert(u.steps[0].resource == ports_part(c).steps[i].resource);
            }
        },
        Platform::Other => {},
    }
}

/// `--undo` reverses what `proxy setup` installs: every file, block,
/// redirect, capability, trusted CA and automatic-proxy URL that a step of
/// the setup plan acts on is acted on again by a step of the undo plan for
/// the same context, whatever other resolver files undo sweeps up. Only
/// reloading a service, which leaves nothing behind, is not repeated.
pub proof fn law_undo_reverses_setup(c: SetupContext, managed: Seq<Seq<char>>, i: int)
    requires
        installs_generated_ca(c),
        0 <= i < spec_plan(c).steps.len(),
        spec_plan(c).steps[i].resource matches Some(r) && lasting(r),
    ensures
        acts_on(spec_plan_undo(c, managed), spec_plan(c).steps[i].resource->0),
{
    let first = if c.pac { pac_part(c) } else { resolver_part(c) };
    let r = spec_plan(c).steps[i].resource->0;
    let u_res = undo_resolver_part(c, managed);
    let u_ports = undo_ports_part(c);
    let u_pac = undo_pac_part(c);
    let u_ca = undo_ca_part(c);
    let undo = spec_plan_undo(c, managed);
    assert(undo == u_res.plus(u_ports).plus(u_pac).plus(u_ca));
    let n1 = first.steps.len() as int;
    let n2 = ca_part(c).steps.len() as int;
    if i < n1 {
        assert(spec_plan(c).steps[i] == first.steps[i]);
        if c.pac {
            lemma_pac_undone(c, i);
            lemma_acts_on_plus(u_res.plus(u_ports), u_pac, r);
        } else {
            lemma_resolver_undone(c, managed, i);
            lemma_acts_on_plus(u_res, u_ports, r);
            lemma_acts_on_plus(u_res.plus(u_ports), u_pac, r);
        }
        lemma_acts_on_plus(u_res.plus(u_ports).plus(u_pac), u_ca, r);
    } else if i < n1 + n2 {
        assert(spec_plan(c).steps[i] == ca_part(c).steps[i - n1]);
        lemma_ca_undone(c, i - n1);
        lemma_acts_on_plus(u_res.plus(u_ports).plus(u_pac), u_ca, r);
    } else {
        assert(spec_plan(c).steps[i] == ports_part(c).steps[i - n1 - n2]);
        lemma_ports_undone(c, i - n1 - n2);
        lemma_acts_on_plus(u_res, u_ports, r);
        lemma_acts_on_plus(u_res.plus(u_ports), u_pac, r);
        lemma_acts_on_plus(u_res.plus(u_ports).plus(u_pac), u_ca, r);
    }
}

// ─── what undo claims ───────────────────────────────────────────────────────

/// The kinds of resource a setup step installs by name and an undo step
/// takes back by name: files, blocks, redirects, capabilities, and the
/// service reloads that make them take effect.
pub open spec fn claimed_kind(r: ResourceV) -> bool {
    r is File || r is Block || r is Redirect || r is BindCapability || r is ServiceReload
}

/// What of those kinds a context's resolver steps install.
pub open spec fn resolver_installed(c: SetupContext, r: ResourceV) -> bool {
    ||| c.platform == Platform::MacOs && wrote_resolver(c) && r == ResourceV::File(resolver_file(c))
    ||| c.platform == Platform::Linux && wrote_dropin(c) && (r == ResourceV::File(dropin_file(c)) || r
        == ResourceV::ServiceReload("systemd-resolved"@))
}

/// What of those kinds a context's port steps install.
pub open spec fn ports_installed(c: SetupContext, r: ResourceV) -> bool {
    ||| c.platform == Platform::MacOs && installed_redirect(c) && (r == ResourceV::File(c.pf_anchor@) || r
        == ResourceV::Block(c.pf_conf@) || r == ResourceV::ServiceReload("pf"@))
    ||| c.platform == Platform::Linux && installed_redirect(c) && r == ResourceV::Redirect {
        from: standard_port(c),
        to: c.proxy_port,
    }
    ||| c.platform == Platform::Linux && granted_capability(c) && r == ResourceV::BindCapability(c.binary@)
}

/// Everything of those kinds a context's setup installs.
pub open spec fn installed_resource(c: SetupContext, r: ResourceV) -> bool {
    resolver_installed(c, r) || ports_installed(c, r)
}

/// No step of `steps` names a resource of a claimed kind.
pub open spec fn claims_nothing(steps: Seq<StepV>) -> bool {
    forall|j: int| 0 <= j < steps.len() ==> (#[trigger] steps[j].resource matches Some(x) ==> !claimed_kind(x))
}

proof fn lemma_acts_on_either(a: PlanV, b: PlanV, r: ResourceV)
    ensures
        acts_on(a.plus(b), r) == (acts_on(a, r) || acts_on(b, r)),
{
    lemma_acts_on_plus(a, b, r);
    if acts_on(a.plus(b), r) {
        let j = choose|j: int| 0 <= j < a.plus(b).steps.len() && #[trigger] a.plus(b).steps[j].resource == Some(r);
        if j < a.steps.len() {
            assert(a.plus(b).steps[j] == a.steps[j]);
        } else {
            assert(a.plus(b).steps[j] == b.steps[j - a.steps.len()]);
        }
    }
}

proof fn lemma_acts_on_step(s: StepV, r: ResourceV)
    ensures
        acts_on(PlanV::step(s), r) == (s.resource == Some(r)),
{
    if s.resource == Some(r) {
        assert(PlanV::step(s).steps[0] == s);
    }
}

proof fn lemma_acts_on_claims_nothing(p: PlanV, r: ResourceV)
    requires
        claims_nothing(p.steps),
        claimed_kind(r),
    ensures
        !acts_on(p, r),
{
    if acts_on(p, r) {
        let j = choose|j: int| 0 <= j < p.steps.len() && #[trigger] p.steps[j].resource == Some(r);
        assert(p.steps[j].resource matches Some(x) ==> !claimed_kind(x));
    }
}

proof fn lemma_claims_nothing_concat(a: Seq<StepV>, b: Seq<StepV>)
    requires
        claims_nothing(a),
        claims_nothing(b),
    ensures
        claims_nothing(a + b),
{
    assert forall|j: int| 0 <= j < (a + b).len() implies (#[trigger] (a + b)[j].resource matches Some(x)
        ==> !claimed_kind(x)) by {
        if j < a.len() {
            assert((a + b)[j] == a[j]);
        } else {
            assert((a + b)[j] == b[j - a.len()]);
        }
    }
}

proof fn lemma_mac_restores_claim_nothing(service: Seq<char>, url: Seq<char>, priors: Seq<PriorAutoProxy>)
    ensures
        claims_nothing(mac_restores(service, url, priors)),
    decreases priors.len(),
{
    if priors.len() > 0 {
        lemma_mac_restores_claim_nothing(service, url, priors.drop_last());
        let tail = if priors.last().target@ == service {
            mac_restore_v(service, url, priors.last())
        } else {
            Seq::empty()
        };
        assert(claims_nothing(tail));
        lemma_claims_nothing_concat(mac_restores(service, url, priors.drop_last()), tail);
    }
}

proof fn lemma_mac_pac_steps_claim_nothing(services: Seq<Seq<char>>, url: Seq<char>, priors: Seq<PriorAutoProxy>)
    ensures
        claims_nothing(mac_pac_steps(services, url, priors)),
    decreases services.len(),
{
    if services.len() > 0 {
        lemma_mac_pac_steps_claim_nothing(services.drop_last(), url, priors);
        lemma_mac_restores_claim_nothing(services.last(), url, priors);
        let off = seq![mac_off_v(services.last(), url)];
        assert(claims_nothing(off));
        lemma_claims_nothing_concat(mac_pac_steps(services.drop_last(), url, priors), off);
        lemma_claims_nothing_concat(
            mac_pac_steps(services.drop_last(), url, priors) + off,
            mac_restores(services.last(), url, priors),
        );
    }
}

proof fn lemma_gnome_restores_claim_nothing(url: Seq<char>, priors: Seq<PriorAutoProxy>)
    ensures
        claims_nothing(gnome_restores(url, priors)),
    decreases priors.len(),
{
    if priors.len() > 0 {
        lemma_gnome_restores_claim_nothing(url, priors.drop_last());
        let tail = if priors.last().target@ == "gnome"@ {
            gnome_restore_v(url, priors.last())
        } else {
            Seq::empty()
        };
        assert(claims_nothing(tail));
        lemma_claims_nothing_concat(gnome_restores(url, priors.drop_last()), tail);
    }
}

proof fn lemma_pac_parts_claim_nothing(c: SetupContext)
    ensures
        claims_nothing(pac_part(c).steps),
        claims_nothing(ca_part(c).steps),
        claims_nothing(undo_pac_part(c).steps),
        claims_nothing(undo_ca_part(c).steps),
{
    let url = pac_url(c);
    let services = strs(c.network_services@);
    let autoproxy = set_autoproxy_steps(services, url);
    assert(claims_nothing(autoproxy)) by {
        assert forall|j: int| 0 <= j < autoproxy.len() implies (#[trigger] autoproxy[j].resource matches Some(x)
            ==> !claimed_kind(x)) by {
            assert(autoproxy[j] == set_autoproxy(services[j], url));
        }
    }
    let first = seq![note_v("the supervisor serves the PAC file at "@ + url + " while the proxy is running"@)];
    assert(claims_nothing(first));
    let rest = pac_part(c).steps.subrange(1, pac_part(c).steps.len() as int);
    assert(pac_part(c).steps == first + rest);
    assert(claims_nothing(rest));
    lemma_claims_nothing_concat(first, rest);
    lemma_mac_pac_steps_claim_nothing(services, url, c.prior_auto_proxy@);
    lemma_gnome_restores_claim_nothing(url, c.prior_auto_proxy@);
    if c.platform == Platform::Linux && c.gnome {
        let off = undo_pac_part(c).steps.subrange(0, 1);
        assert(claims_nothing(off));
        lemma_claims_nothing_concat(off, gnome_restores(url, c.prior_auto_proxy@));
        assert(undo_pac_part(c).steps =~= off + gnome_restores(url, c.prior_auto_proxy@));
    }
}

proof fn lemma_resolver_part_claims(c: SetupContext, r: ResourceV)
    requires
        !c.pac,
    ensures
        acts_on(resolver_part(c), r) == resolver_installed(c, r),
{
    let p = resolver_part(c);
    if !c.dns_enabled || c.lan {
        lemma_acts_on_step(p.steps[0], r);
        assert(p == PlanV::step(p.steps[0]));
    } else {
        match c.platform {
            Platform::MacOs => {
                let a = p.steps[0];
                let tail = if crate::setup::plan::tld_is_localhost(c) {
                    PlanV::advice(crate::setup::plan::localhost_note())
                } else {
                    PlanV::empty()
                };
                assert(p == PlanV::step(a).plus(tail));
                lemma_acts_on_either(PlanV::step(a), tail, r);
                lemma_acts_on_step(a, r);
                assert(!acts_on(tail, r));
            },
            Platform::Linux => {
                if c.systemd_resolved && crate::setup::plan::tld_is_localhost(c) {
                    lemma_acts_on_step(p.steps[0], r);
                    assert(p == PlanV::step(p.steps[0]));
                } else if c.systemd_resolved {
                    let a = p.steps[0];
                    let b = resolved_restart("restart systemd-resolved to pick up the route (interrupts DNS briefly)"@);
                    let tail = PlanV { steps: Seq::empty(), manual: p.manual };
                    assert(p =~= PlanV::step(a).plus(PlanV::step(b)).plus(tail));
                    lemma_acts_on_either(PlanV::step(a).plus(PlanV::step(b)), tail, r);
                    lemma_acts_on_either(PlanV::step(a), PlanV::step(b), r);
                    lemma_acts_on_step(a, r);
                    lemma_acts_on_step(b, r);
                    assert(!acts_on(tail, r));
                } else {
                    assert(!acts_on(p, r));
                }
            },
            Platform::Other => {
                assert(!acts_on(p, r));
            },
        }
    }
}

proof fn lemma_undo_resolver_claims(c: SetupContext, managed: Seq<Seq<char>>, r: ResourceV)
    requires
        forall|i: int| 0 <= i < managed.len() ==> managed[i] == resolver_file(c),
    ensures
        acts_on(undo_resolver_part(c, managed), r) == resolver_installed(c, r),
{
    let rf = resolver_file(c);
    let p = undo_resolver_part(c, managed);
    match c.platform {
        Platform::MacOs => {
            let w: Seq<Seq<char>> = if managed.len() > 0 { seq![rf] } else { Seq::empty() };
            if managed.len() > 0 {
                assert(managed[0] == rf);
                assert(managed.contains(rf));
            }
            assert forall|x: Seq<char>| w.contains(x) <==> managed.contains(x) by {
                if managed.contains(x) {
                    let i = choose|i: int| 0 <= i < managed.len() && managed[i] == x;
                    assert(w[0] == rf);
                }
                if w.contains(x) {
                    assert(w[0] == rf);
                }
            }
            lemma_sorted_keys(w, managed);
            assert(sorted_keys(managed) == w);
            let none = Seq::<Seq<char>>::empty();
            assert(without(none, rf) == none);
            if managed.len() > 0 {
                assert(seq![rf].drop_last() =~= none);
                assert(seq![rf].last() == rf);
                assert(without(seq![rf], rf) == without(none, rf));
            }
            assert(without(sorted_keys(managed), rf) == none);
            let head: Seq<Seq<char>> = if wrote_resolver(c) { seq![rf] } else { Seq::empty() };
            assert(mac_resolver_files(c, managed) =~= head);
            if wrote_resolver(c) {
                let a = remove_file_v(rf, None);
                assert(p.steps =~= seq![a]);
                assert(p == PlanV::step(a));
                lemma_acts_on_step(a, r);
            } else {
                assert(p.steps =~= Seq::<StepV>::empty());
                assert(!acts_on(p, r));
            }
        },
        Platform::Linux => {
            if wrote_dropin(c) {
                let a = remove_file_v(dropin_file(c), None);
                let b = resolved_restart("restart systemd-resolved to drop the route"@);
                assert(p == PlanV::step(a).plus(PlanV::step(b)));
                lemma_acts_on_either(PlanV::step(a), PlanV::step(b), r);
                lemma_acts_on_step(a, r);
                lemma_acts_on_step(b, r);
            } else {
                assert(!acts_on(p, r));
            }
        },
        Platform::Other => {
            assert(!acts_on(p, r));
        },
    }
}

proof fn lemma_ports_part_claims(c: SetupContext, r: ResourceV)
    ensures
        acts_on(ports_part(c), r) == ports_installed(c, r),
{
    let p = ports_part(c);
    if c.proxy_port < 1024 {
        if c.platform == Platform::Linux {
            lemma_acts_on_step(p.steps[0], r);
            assert(p == PlanV::step(p.steps[0]));
        } else {
            assert(!acts_on(p, r));
        }
    } else if !crate::setup::plan::needs_redirect(c) || c.pac {
        lemma_acts_on_step(p.steps[0], r);
        assert(p == PlanV::step(p.steps[0]));
    } else {
        match c.platform {
            Platform::MacOs => {
                let a = p.steps[0];
                let b = p.steps[1];
                let d = p.steps[2];
                assert(p =~= PlanV::step(a).plus(PlanV::step(b)).plus(PlanV::step(d)));
                lemma_acts_on_either(PlanV::step(a).plus(PlanV::step(b)), PlanV::step(d), r);
                lemma_acts_on_either(PlanV::step(a), PlanV::step(b), r);
                lemma_acts_on_step(a, r);
                lemma_acts_on_step(b, r);
                lemma_acts_on_step(d, r);
            },
            Platform::Linux => {
                lemma_acts_on_step(p.steps[0], r);
                assert(p == PlanV::step(p.steps[0]));
            },
            Platform::Other => {
                assert(!acts_on(p, r));
            },
        }
    }
}

proof fn lemma_undo_ports_claims(c: SetupContext, r: ResourceV)
    ensures
        acts_on(undo_ports_part(c), r) == ports_installed(c, r),
{
    let p = undo_ports_part(c);
    match c.platform {
        Platform::MacOs => {
            if installed_redirect(c) {
                let a = p.steps[0];
                let b = p.steps[1];
                let d = p.steps[2];
                assert(p =~= PlanV::step(a).plus(PlanV::step(b)).plus(PlanV::step(d)));
                lemma_acts_on_either(PlanV::step(a).plus(PlanV::step(b)), PlanV::step(d), r);
                lemma_acts_on_either(PlanV::step(a), PlanV::step(b), r);
                lemma_acts_on_step(a, r);
                lemma_acts_on_step(b, r);
                lemma_acts_on_step(d, r);
            } else {
                assert(!acts_on(p, r));
            }
        },
        Platform::Linux => {
            let x = if installed_redirect(c) { PlanV::step(drop_redirect_v(c)) } else { PlanV::empty() };
            let y = if granted_capability(c) { PlanV::step(p.steps[p.steps.len() - 1]) } else { PlanV::empty() };
            assert(p =~= x.plus(y));
            lemma_acts_on_either(x, y, r);
            if installed_redirect(c) {
                lemma_acts_on_step(drop_redirect_v(c), r);
            }
            if granted_capability(c) {
                lemma_acts_on_step(p.steps[p.steps.len() - 1], r);
            }
        },
        Platform::Other => {
            assert(!acts_on(p, r));
        },
    }
}

/// `--undo` claims nothing that `proxy setup` did not install: when no file
/// of the resolver directory but the context's own resolver file carries
/// pitchfork's header, the undo plan acts on a file, block, redirect,
/// capability or service reload exactly when the setup plan for the same
/// context does, and these are the ones [`installed_resource`] lists.
pub proof fn law_undo_claims_what_setup_installs(c: SetupContext, managed: Seq<Seq<char>>, r: ResourceV)
    requires
        forall|i: int| 0 <= i < managed.len() ==> managed[i] == resolver_file(c),
        claimed_kind(r),
    ensures
        acts_on(spec_plan_undo(c, managed), r) == acts_on(spec_plan(c), r),
        acts_on(spec_plan(c), r) == installed_resource(c, r),
{
    lemma_pac_parts_claim_nothing(c);
    let first = if c.pac { pac_part(c) } else { resolver_part(c) };
    assert(spec_plan(c) == first.plus(ca_part(c)).plus(ports_part(c)));
    lemma_acts_on_either(first.plus(ca_part(c)), ports_part(c), r);
    lemma_acts_on_either(first, ca_part(c), r);
    lemma_acts_on_claims_nothing(ca_part(c), r);
    if c.pac {
        lemma_acts_on_claims_nothing(pac_part(c), r);
    } else {
        lemma_resolver_part_claims(c, r);
    }
    lemma_ports_part_claims(c, r);
    let u_res = undo_resolver_part(c, managed);
    let u_ports = undo_ports_part(c);
    let u_pac = undo_pac_part(c);
    let u_ca = undo_ca_part(c);
    assert(spec_plan_undo(c, managed) == u_res.plus(u_ports).plus(u_pac).plus(u_ca));
    lemma_acts_on_either(u_res.plus(u_ports).plus(u_pac), u_ca, r);
    lemma_acts_on_either(u_res.plus(u_ports), u_pac, r);
    lemma_acts_on_either(u_res, u_ports, r);
    lemma_acts_on_claims_nothing(u_pac, r);
    lemma_acts_on_claims_nothing(u_ca, r);
    lemma_undo_resolver_claims(c, managed, r);
    lemma_undo_ports_claims(c, r);
}

} // verus!
