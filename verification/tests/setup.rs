//! Setup and undo plans, records, capabilities and the pf.conf block.
use pitchfork_proxy::setup::apply::{already_done, skip_reason, Observed};
use pitchfork_proxy::setup::blocks::{
    is_pf_filter, is_pf_translation, pf_keyword, splice_block, splice_pf_block, MARKER_END, MARKER_START,
};
use pitchfork_proxy::setup::caps::{
    capabilities_from_getcap, parse_capabilities, revoke_already_done, untrust_already_done,
};
use pitchfork_proxy::setup::combine::{plan_undo_from, plan_with_reconcile};
use pitchfork_proxy::setup::context::{contact_host, HostAddress};
use pitchfork_proxy::setup::model::{Action, Platform, PriorAutoProxy, ProbeExpect, Resource, SetupContext};
use pitchfork_proxy::setup::plan::{macos_resolver_file, pf_anchor_rules, plan, resolved_dropin};
use pitchfork_proxy::setup::records::{
    fixed_paths, merged_records, sanitize_record, undo_key, validate_tld, MAX_RECORDS,
};
use pitchfork_proxy::setup::undo::plan_undo;

const BIND_CAPABILITY: &str = "cap_net_bind_service";
const GENERATED_CA: &str = "/state/proxy/ca.pem";
const BINARY: &str = "/usr/local/bin/pitchfork";

fn ctx(platform: Platform) -> SetupContext {
    SetupContext {
        platform,
        tld: "test".into(),
        dns_port: 15353,
        proxy_port: 8443,
        https: true,
        dns_enabled: true,
        pac: false,
        systemd_resolved: true,
        systemd_version: Some(255),
        lan: false,
        contact_host: "127.0.0.1".to_string(),
        ca_path: "/state/proxy/ca.pem".to_string(),
        generated_ca: "/state/proxy/ca.pem".to_string(),
        ca_trusted: false,
        custom_cert: false,
        binary: "/usr/local/bin/pitchfork".to_string(),
        resolver_dir: "/etc/resolver".to_string(),
        resolved_dropin_dir: "/etc/systemd/resolved.conf.d".to_string(),
        pf_conf: "/etc/pf.conf".to_string(),
        pf_anchor: "/etc/pf.anchors/pitchfork".to_string(),
        network_services: vec![],
        gnome: false,
        prior_auto_proxy: vec![],
    }
}

/// No resolver files were found carrying pitchfork's header.
fn none() -> Vec<String> {
    vec![]
}

fn nothing_seen() -> Observed {
    Observed {
        content: None,
        exists: false,
        managed: false,
        probe_matched: false,
        capabilities: None,
        ca_trusted: false,
        trust_state: None,
    }
}

#[test]
fn a_tld_that_could_escape_the_resolver_directory_is_refused() {
    for bad in ["../../etc/passwd", "..", "a/b", "test\nDNS=8.8.8.8", "", ".test", "te st"] {
        assert!(validate_tld(bad).is_err(), "expected {bad:?} to be refused");
    }
    for good in ["localhost", "test", "dev.internal", "my-tld"] {
        assert!(validate_tld(good).is_ok(), "expected {good:?} to be allowed");
    }
}

#[test]
fn lan_mode_leaves_the_mdns_local_namespace_alone() {
    let mut c = ctx(Platform::MacOs);
    c.lan = true;
    c.tld = "local".into();
    let lines = plan(&c).describe();
    assert!(lines.iter().any(|l| l.contains("mDNS")));
    assert!(!lines.iter().any(|l| l.contains("/etc/resolver")));

    let mut c = ctx(Platform::Linux);
    c.lan = true;
    c.tld = "local".into();
    let lines = plan(&c).describe();
    assert!(!lines.iter().any(|l| l.contains("resolved.conf.d")));
}

#[test]
fn the_sudo_ca_step_names_the_certificate_it_should_trust() {
    let c = ctx(Platform::Linux);
    let step = plan(&c)
        .steps
        .into_iter()
        .find(|s| s.summary.contains("trust store"))
        .expect("linux plans a CA install");
    let Action::Run { argv, .. } = step.action else {
        panic!("expected a command");
    };
    assert!(argv.contains(&"--cert".to_string()));
    assert!(argv.contains(&"/state/proxy/ca.pem".to_string()));
}

#[test]
fn undo_only_reverts_proxy_settings_that_point_at_pitchfork() {
    let mut c = ctx(Platform::MacOs);
    c.network_services = vec!["Wi-Fi".into()];
    let step = plan_undo(&c, &none())
        .steps
        .into_iter()
        .find(|s| s.summary.contains("automatic proxy URL"))
        .expect("undo turns the PAC URL off");
    let Action::RunIfPresent { probe, .. } = step.action else {
        panic!("expected a guarded command");
    };
    assert!(probe.argv.contains(&"-getautoproxyurl".to_string()));
    assert_eq!(
        probe.expect,
        vec![ProbeExpect::Contains("http://127.0.0.1:8443/proxy.pac".to_string())]
    );
}

#[test]
fn undo_revokes_the_capability_through_a_checked_action() {
    let mut privileged = ctx(Platform::Linux);
    privileged.proxy_port = 443;
    let step = plan_undo(&privileged, &none())
        .steps
        .into_iter()
        .find(|s| s.summary.contains("cap_net_bind_service"))
        .expect("undo revokes the capability it granted");
    assert!(matches!(step.action, Action::RevokeBindCapability { .. }));

    assert!(!plan_undo(&ctx(Platform::Linux), &none())
        .describe()
        .iter()
        .any(|l| l.contains("cap_net_bind_service")));
}

#[test]
fn every_capability_clause_is_read_not_just_the_last() {
    assert_eq!(parse_capabilities("cap_net_bind_service=ep"), vec!["cap_net_bind_service"]);
    assert_eq!(
        parse_capabilities("cap_sys_admin=ei cap_net_bind_service=ep"),
        vec!["cap_sys_admin", "cap_net_bind_service"]
    );
    assert_eq!(
        parse_capabilities("cap_net_bind_service=ep cap_sys_admin=ei"),
        vec!["cap_net_bind_service", "cap_sys_admin"]
    );
    assert_eq!(
        parse_capabilities("cap_net_bind_service,cap_sys_admin=ep"),
        vec!["cap_net_bind_service", "cap_sys_admin"]
    );
    assert_eq!(parse_capabilities("cap_net_bind_service+ep"), vec!["cap_net_bind_service"]);
    assert_eq!(parse_capabilities("= cap_net_bind_service+ep"), vec!["cap_net_bind_service"]);
    assert!(parse_capabilities("").is_empty());

    assert!(parse_capabilities("cap_net_bind_service=ep").iter().all(|c| c == BIND_CAPABILITY));
    let shared = parse_capabilities("cap_sys_admin=ei cap_net_bind_service=ep");
    assert!(shared.iter().any(|c| c == BIND_CAPABILITY));
    assert!(shared.iter().any(|c| c != BIND_CAPABILITY));
}

#[test]
fn macos_plan_covers_resolver_ca_and_port_redirect() {
    let c = ctx(Platform::MacOs);
    let resolver = c.resolver_file();
    assert_eq!(
        plan(&c).describe(),
        vec![
            format!("[sudo] write {resolver} pointing *.test at 127.0.0.1:15353"),
            "install the pitchfork CA at /state/proxy/ca.pem into the system trust store".to_string(),
            "[sudo] write /etc/pf.anchors/pitchfork redirecting port 443 to 8443".to_string(),
            "[sudo] load the pitchfork anchor into /etc/pf.conf".to_string(),
            "[sudo] enable pf and load the new rules".to_string(),
        ]
    );
}

#[test]
fn linux_plan_writes_a_resolved_dropin_and_sudoes_the_ca() {
    let c = ctx(Platform::Linux);
    let dropin = c.resolved_dropin();
    let ca = c.ca_path.clone();
    assert_eq!(
        plan(&c).describe(),
        vec![
            format!("[sudo] write {dropin} routing *.test to 127.0.0.1:15353"),
            "[sudo] restart systemd-resolved to pick up the route (interrupts DNS briefly)".to_string(),
            format!("[sudo] install the pitchfork CA at {ca} into the system trust store"),
            "[sudo] redirect loopback traffic for port 443 to 8443 (iptables)".to_string(),
        ]
    );
}

#[test]
fn macos_says_what_taking_over_localhost_costs() {
    let mut c = ctx(Platform::MacOs);
    c.tld = "localhost".into();
    let p = plan(&c);
    assert!(
        p.manual.iter().any(|m| m.contains("only while the supervisor is running")),
        "expected a note about the dependency: {:?}",
        p.manual
    );
    assert!(plan(&ctx(Platform::MacOs)).manual.is_empty());
}

#[test]
fn linux_with_localhost_tld_needs_no_resolver_change() {
    let mut c = ctx(Platform::Linux);
    c.tld = "localhost".into();
    let lines = plan(&c).describe();
    assert!(lines[0].contains("systemd-resolved already answers *.localhost"));
    assert!(!lines[0].starts_with("[sudo]"));
}

#[test]
fn linux_without_systemd_resolved_falls_back_to_dnsmasq_advice() {
    let mut c = ctx(Platform::Linux);
    c.systemd_resolved = false;
    let p = plan(&c);
    assert!(!p.describe().iter().any(|l| l.contains("resolved.conf.d")));
    assert!(p.manual[0].contains("dnsmasq"));
    assert!(p.manual[0].contains("server=/test/127.0.0.1#15353"));
}

#[test]
fn pac_plan_needs_no_sudo_for_resolution_or_ports() {
    let mut c = ctx(Platform::MacOs);
    c.pac = true;
    c.ca_trusted = true;
    c.network_services = vec!["Wi-Fi".into()];
    let p = plan(&c);
    assert!(!p.needs_sudo(), "PAC setup must not require sudo: {:?}", p.describe());
    assert!(p
        .describe()
        .iter()
        .any(|l| l.contains("set the automatic proxy URL for \"Wi-Fi\" to http://127.0.0.1:8443/proxy.pac")));
    assert!(p.describe().iter().any(|l| l.contains("no port redirect is needed")));
}

#[test]
fn pac_does_not_excuse_a_privileged_port() {
    let mut c = ctx(Platform::Linux);
    c.pac = true;
    c.proxy_port = 443;
    c.ca_trusted = true;
    let lines = plan(&c).describe();
    assert!(
        lines.iter().any(|l| l.starts_with("[sudo]") && l.contains("cap_net_bind_service")),
        "expected the capability grant: {lines:?}"
    );

    let mut c = ctx(Platform::MacOs);
    c.pac = true;
    c.proxy_port = 443;
    c.ca_trusted = true;
    let p = plan(&c);
    assert!(!p.needs_sudo());
    assert!(p.manual.iter().any(|m| m.contains("will not run the supervisor as root")));
}

#[test]
fn pac_on_linux_still_needs_sudo_only_for_the_ca() {
    let mut c = ctx(Platform::Linux);
    c.pac = true;
    c.gnome = true;
    let sudo_steps: Vec<String> =
        plan(&c).describe().into_iter().filter(|l| l.starts_with("[sudo]")).collect();
    assert_eq!(sudo_steps.len(), 1, "unexpected sudo steps: {sudo_steps:?}");
    assert!(sudo_steps[0].contains("trust store"));

    let mut trusted = c.clone();
    trusted.ca_trusted = true;
    assert!(!plan(&trusted).needs_sudo());
    let mut plain = c.clone();
    plain.https = false;
    assert!(!plan(&plain).needs_sudo());
}

#[test]
fn an_ipv6_proxy_host_is_advertised_as_an_ipv6_url() {
    // What parsing "::1", "::", "0.0.0.0", "127.0.0.1", "192.168.1.5" and
    // "not-an-address" as an IP address gives.
    let v6 = |text: &str, unspecified: bool| HostAddress::V6 { text: text.to_string(), unspecified };
    let v4 = |text: &str, unspecified: bool| HostAddress::V4 { text: text.to_string(), unspecified };
    assert_eq!(contact_host(&v6("::1", false)), "[::1]");
    assert_eq!(contact_host(&v6("::", true)), "[::1]");
    assert_eq!(contact_host(&v4("0.0.0.0", true)), "127.0.0.1");
    assert_eq!(contact_host(&v4("127.0.0.1", false)), "127.0.0.1");
    assert_eq!(contact_host(&v4("192.168.1.5", false)), "192.168.1.5");
    assert_eq!(contact_host(&HostAddress::NotAnAddress), "127.0.0.1");

    let mut c = ctx(Platform::MacOs);
    c.pac = true;
    c.contact_host = "[::1]".to_string();
    c.network_services = vec!["Wi-Fi".into()];
    assert!(plan(&c).describe().iter().any(|l| l.contains("http://[::1]:8443/proxy.pac")));
}

#[test]
fn gnome_pac_plan_sets_the_autoconfig_url() {
    let mut c = ctx(Platform::Linux);
    c.pac = true;
    c.gnome = true;
    c.https = false;
    let lines = plan(&c).describe();
    assert!(lines.iter().any(|l| l.contains("GNOME automatic proxy URL")));
    assert!(lines.iter().any(|l| l.contains("proxy mode to automatic")));
}

#[test]
fn privileged_proxy_port_uses_setcap_on_linux_and_advice_on_macos() {
    let mut c = ctx(Platform::Linux);
    c.proxy_port = 443;
    assert!(plan(&c).describe().iter().any(|l| l.contains("cap_net_bind_service")));

    let mut c = ctx(Platform::MacOs);
    c.proxy_port = 443;
    let p = plan(&c);
    assert!(!p.describe().iter().any(|l| l.contains("pf.anchors")));
    assert!(p.manual[0].contains("will not run the supervisor as root"));
}

#[test]
fn a_trusted_ca_and_a_custom_cert_both_skip_the_trust_step() {
    let mut c = ctx(Platform::MacOs);
    c.ca_trusted = true;
    assert!(plan(&c).describe().iter().any(|l| l.contains("is already trusted")));

    let mut c = ctx(Platform::MacOs);
    c.custom_cert = true;
    assert!(plan(&c).describe().iter().any(|l| l.contains("installs no CA")));
}

#[test]
fn a_privileged_port_is_never_papered_over_with_a_redirect() {
    let mut c = ctx(Platform::Linux);
    c.https = false;
    c.proxy_port = 443;
    let lines = plan(&c).describe();
    assert!(lines.iter().any(|l| l.contains("cap_net_bind_service")));
    assert!(!lines.iter().any(|l| l.contains("iptables")));
}

#[test]
fn plain_http_plans_no_ca_step_and_redirects_port_80() {
    let mut c = ctx(Platform::Linux);
    c.https = false;
    let lines = plan(&c).describe();
    assert!(!lines.iter().any(|l| l.contains("trust store")));
    assert!(lines.iter().any(|l| l.contains("port 80 to 8443")));
}

#[test]
fn disabled_resolver_skips_resolver_steps() {
    let mut c = ctx(Platform::MacOs);
    c.dns_enabled = false;
    let lines = plan(&c).describe();
    assert!(lines[0].contains("proxy.dns is false"));
    assert!(!lines.iter().any(|l| l.contains("/etc/resolver")));
}

#[test]
fn the_iptables_redirect_is_guarded_against_stacking_duplicates() {
    let c = ctx(Platform::Linux);
    let step = plan(&c)
        .steps
        .into_iter()
        .find(|s| s.summary.contains("iptables"))
        .expect("linux plans an iptables redirect");
    let Action::Run { skip_if, argv, .. } = step.action else {
        panic!("expected a command");
    };
    assert!(argv.contains(&"-A".to_string()));
    let guard = skip_if.expect("the append must carry a guard").argv;
    assert!(guard.contains(&"-C".to_string()));
    assert_eq!(guard.len(), argv.len());
    assert_eq!(guard[guard.len() - 1], argv[argv.len() - 1]);
}

#[test]
fn undo_reverses_what_setup_recorded_not_what_settings_now_say() {
    let mut recorded = ctx(Platform::Linux);
    recorded.proxy_port = 8443;
    recorded.contact_host = "127.0.0.1".into();

    let mut current = ctx(Platform::Linux);
    current.proxy_port = 9999;
    current.contact_host = "127.0.0.1".into();

    let lines = plan_undo_from(Some(&current), std::slice::from_ref(&recorded), &none()).describe();
    assert!(
        lines.iter().any(|l| l.contains("port 443 to 8443")),
        "the installed redirect must be reversed: {lines:?}"
    );
    assert!(lines.iter().any(|l| l.contains("port 443 to 9999")));
    let mut sorted = lines.clone();
    sorted.sort();
    sorted.dedup();
    assert_eq!(sorted.len(), lines.len(), "duplicate steps in {lines:?}");
}

#[test]
fn a_failed_setup_does_not_erase_what_an_earlier_one_installed() {
    let mut first = ctx(Platform::Linux);
    first.proxy_port = 8443;
    let mut second = ctx(Platform::Linux);
    second.proxy_port = 9999;

    let after_first = merged_records(vec![], first.clone(), &none());
    let after_failed_second = merged_records(after_first, second.clone(), &none());
    assert_eq!(after_failed_second.len(), 2);
    assert_eq!(after_failed_second[0].proxy_port, 8443);
    assert_eq!(after_failed_second[1].proxy_port, 9999);

    let lines = plan_undo_from(Some(&second), &after_failed_second, &none()).describe();
    assert!(lines.iter().any(|l| l.contains("port 443 to 8443")));
    assert!(lines.iter().any(|l| l.contains("port 443 to 9999")));
}

#[test]
fn re_recording_the_same_setup_does_not_grow_the_list() {
    let c = ctx(Platform::Linux);
    let once = merged_records(vec![], c.clone(), &none());
    let twice = merged_records(once.clone(), c.clone(), &none());
    assert_eq!(twice.len(), 1, "an identical setup replaces its entry");
    assert_eq!(undo_key(&twice[0], &none()), undo_key(&c, &none()));
}

#[test]
fn the_record_list_is_capped() {
    let mut records = vec![];
    for port in 0..(MAX_RECORDS as u16 + 5) {
        let mut c = ctx(Platform::Linux);
        c.proxy_port = 2000 + port;
        records = merged_records(records, c, &none());
    }
    assert_eq!(records.len(), MAX_RECORDS);
    assert_eq!(records.last().unwrap().proxy_port, 2000 + MAX_RECORDS as u16 + 4);
}

#[test]
fn a_second_setup_removes_the_redirect_it_supersedes() {
    let mut first = ctx(Platform::Linux);
    first.proxy_port = 8443;
    let mut second = ctx(Platform::Linux);
    second.proxy_port = 9999;

    let lines = plan_with_reconcile(&second, std::slice::from_ref(&first), &none()).describe();
    let drop_old = lines
        .iter()
        .position(|l| l.contains("drop the iptables redirect from port 443 to 8443"))
        .expect("the superseded redirect is removed");
    let add_new = lines
        .iter()
        .position(|l| l.contains("redirect loopback traffic for port 443 to 9999"))
        .expect("the new redirect is installed");
    assert!(drop_old < add_new, "remove before install: {lines:?}");
}

#[test]
fn re_running_setup_never_untrusts_the_ca_it_still_needs() {
    let mut first = ctx(Platform::Linux);
    first.proxy_port = 8443;
    first.ca_trusted = true;
    let mut second = ctx(Platform::Linux);
    second.proxy_port = 9999;
    second.ca_trusted = true;

    let lines = plan_with_reconcile(&second, std::slice::from_ref(&first), &none()).describe();
    assert!(
        !lines.iter().any(|l| l.contains("from the system trust store")),
        "the CA must survive a re-run: {lines:?}"
    );
    assert!(lines.iter().any(|l| l.contains("port 443 to 8443")));
}

#[test]
fn switching_to_pac_removes_the_resolver_it_no_longer_uses() {
    let dns = ctx(Platform::Linux);
    let mut pac = ctx(Platform::Linux);
    pac.pac = true;
    pac.ca_trusted = true;

    let lines = plan_with_reconcile(&pac, std::slice::from_ref(&dns), &none()).describe();
    assert!(
        lines.iter().any(|l| l.contains("remove") && l.contains("resolved.conf.d")),
        "the superseded resolver drop-in must be removed: {lines:?}"
    );
}

#[test]
fn re_running_the_same_setup_removes_nothing() {
    let c = ctx(Platform::Linux);
    assert_eq!(
        plan_with_reconcile(&c, std::slice::from_ref(&c), &none()).describe(),
        plan(&c).describe()
    );
}

#[test]
fn undo_reverses_every_recorded_setup_not_just_the_last() {
    let mut first = ctx(Platform::Linux);
    first.proxy_port = 8443;
    let mut second = ctx(Platform::Linux);
    second.proxy_port = 9999;
    let current = second.clone();

    let lines = plan_undo_from(Some(&current), &[first, second], &none()).describe();
    assert!(lines.iter().any(|l| l.contains("port 443 to 8443")));
    assert!(lines.iter().any(|l| l.contains("port 443 to 9999")));
    let mut sorted = lines.clone();
    sorted.sort();
    sorted.dedup();
    assert_eq!(sorted.len(), lines.len(), "duplicate steps in {lines:?}");
}

#[test]
fn undo_works_from_records_alone_when_the_tld_no_longer_validates() {
    let recorded = ctx(Platform::Linux);
    let lines = plan_undo_from(None, std::slice::from_ref(&recorded), &none()).describe();
    assert_eq!(lines, plan_undo(&recorded, &none()).describe());
    assert!(lines.iter().any(|l| l.contains("resolved.conf.d")));

    assert!(plan_undo_from(None, &[], &none()).steps.is_empty());
}

#[test]
fn undo_without_a_record_still_uses_the_current_settings() {
    let current = ctx(Platform::Linux);
    assert_eq!(
        plan_undo_from(Some(&current), &[], &none()).describe(),
        plan_undo(&current, &none()).describe()
    );
}

#[test]
fn a_tampered_record_cannot_steer_a_privileged_write() {
    let mut evil = ctx(Platform::MacOs);
    evil.tld = "../../etc/passwd".into();
    assert!(sanitize_record(evil, GENERATED_CA, BINARY).is_none(), "an unusable TLD is dropped");

    let mut redirected = ctx(Platform::MacOs);
    redirected.resolver_dir = "/tmp/attacker".to_string();
    redirected.pf_conf = "/etc/shadow".to_string();
    redirected.pf_anchor = "/tmp/anchor".to_string();
    redirected.resolved_dropin_dir = "/tmp/dropins".to_string();
    redirected.generated_ca = "/tmp/ca.pem".to_string();

    redirected.binary = "/usr/bin/some-other-daemon".to_string();

    let clean = sanitize_record(redirected, GENERATED_CA, BINARY).expect("a valid TLD is kept");
    assert_eq!(clean.binary, BINARY);
    assert_ne!(clean.binary, "/usr/bin/some-other-daemon");
    let fixed = fixed_paths();
    assert_eq!(clean.resolver_dir, fixed.resolver_dir);
    assert_eq!(clean.pf_conf, fixed.pf_conf);
    assert_eq!(clean.pf_anchor, fixed.pf_anchor);
    assert_eq!(clean.resolved_dropin_dir, fixed.resolved_dropin_dir);
    assert_eq!(clean.generated_ca, GENERATED_CA);

    let lines = plan_undo(&clean, &none()).describe().join("\n");
    assert!(!lines.contains("/usr/bin/some-other-daemon"));
    assert!(!lines.contains("/tmp/attacker"));
    assert!(!lines.contains("/etc/shadow"));
    assert!(!lines.contains("/tmp/ca.pem"));
}

#[test]
fn an_untrust_step_runs_when_the_certificate_file_is_gone() {
    // The certificate file is missing, and the store was not asked.
    let missing = "/nonexistent/pitchfork-ca.pem".to_string();
    assert!(!already_done(&Action::UntrustCa { path: missing, sudo: false }, &nothing_seen()));
}

#[test]
fn a_setup_that_wrote_no_resolver_file_never_claims_one() {
    let mut no_resolved = ctx(Platform::Linux);
    no_resolved.systemd_resolved = false;
    assert!(
        !plan_undo(&no_resolved, &none()).describe().iter().any(|l| l.contains("resolved.conf.d")),
        "nothing was installed, so nothing is claimed"
    );

    let mut dns_off = ctx(Platform::Linux);
    dns_off.dns_enabled = false;
    assert!(!plan_undo(&dns_off, &none()).describe().iter().any(|l| l.contains("resolved.conf.d")));
    let mut localhost = ctx(Platform::Linux);
    localhost.tld = "localhost".into();
    assert!(!plan_undo(&localhost, &none()).describe().iter().any(|l| l.contains("resolved.conf.d")));
    let mut lan = ctx(Platform::Linux);
    lan.lan = true;
    assert!(!plan_undo(&lan, &none()).describe().iter().any(|l| l.contains("resolved.conf.d")));

    assert!(plan_undo(&ctx(Platform::Linux), &none())
        .describe()
        .iter()
        .any(|l| l.contains("resolved.conf.d")));

    let mut second = no_resolved.clone();
    second.proxy_port = 9999;
    let lines = plan_with_reconcile(&second, std::slice::from_ref(&no_resolved), &none()).describe();
    assert!(!lines.iter().any(|l| l.contains("resolved.conf.d")));
    assert!(lines.iter().any(|l| l.contains("port 443 to 8443")));
}

#[test]
fn an_http_only_setup_never_claims_the_ca() {
    let mut http = ctx(Platform::Linux);
    http.https = false;
    assert!(
        !plan_undo(&http, &none()).describe().iter().any(|l| l.contains("trust store")),
        "an HTTP-only setup has no CA to remove"
    );

    let mut second = http.clone();
    second.proxy_port = 9999;
    let lines = plan_with_reconcile(&second, std::slice::from_ref(&http), &none()).describe();
    assert!(!lines.iter().any(|l| l.contains("trust store")));
    assert!(lines.iter().any(|l| l.contains("port 80 to 8443")));
}

#[test]
fn undo_always_queues_the_ca_removal_and_probes_for_it() {
    let mut custom = ctx(Platform::MacOs);
    custom.custom_cert = true;
    custom.ca_path = "/etc/mycert.pem".to_string();

    let step = plan_undo(&custom, &none())
        .steps
        .into_iter()
        .find(|s| s.summary.contains("trust store"))
        .expect("the CA removal is queued even with a custom certificate");
    let Action::UntrustCa { path, .. } = &step.action else {
        panic!("expected the probing action");
    };
    assert_eq!(path, &custom.generated_ca);
    assert_ne!(path, &custom.ca_path);

    assert!(!step.needs_sudo());
    let mut linux = ctx(Platform::Linux);
    linux.custom_cert = true;
    assert!(plan_undo(&linux, &none())
        .steps
        .iter()
        .find(|s| s.summary.contains("trust store"))
        .expect("queued on linux too")
        .needs_sudo());
}

#[test]
fn undo_reverses_each_platform_step() {
    let mac = ctx(Platform::MacOs);
    let resolver = mac.resolver_file();
    assert_eq!(
        plan_undo(&mac, &none()).describe(),
        vec![
            format!("[sudo] remove {resolver}"),
            "[sudo] remove the pitchfork anchor from /etc/pf.conf".to_string(),
            "[sudo] remove /etc/pf.anchors/pitchfork".to_string(),
            "[sudo] reload pf rules from /etc/pf.conf".to_string(),
            "remove the pitchfork CA at /state/proxy/ca.pem from the system trust store".to_string(),
        ]
    );

    let linux = ctx(Platform::Linux);
    let dropin = linux.resolved_dropin();
    let lines = plan_undo(&linux, &none()).describe();
    assert!(lines.contains(&format!("[sudo] remove {dropin}")));
    assert!(lines.iter().any(|l| l.contains("drop the iptables redirect")));
    assert!(!lines.iter().any(|l| l.contains("revoke cap_net_bind_service")));
}

#[test]
fn undo_turns_off_a_pac_url_even_without_the_pac_flag() {
    let mut c = ctx(Platform::MacOs);
    c.pac = false;
    c.network_services = vec!["Wi-Fi".into()];
    assert!(plan_undo(&c, &none())
        .describe()
        .iter()
        .any(|l| l.contains("turn off the automatic proxy URL") && l.contains("Wi-Fi")));
}

/// Apple's stock `/etc/pf.conf`, verbatim.
const APPLE_PF_CONF: &str = r#"#
# Default PF configuration file.
#
# This file contains the main ruleset, which gets automatically loaded
# at startup.  PF will not be automatically enabled, however.  Instead,
# each component which utilizes PF is responsible for enabling and disabling
# PF via -E and -X as documented in pfctl(8).
#

#
# com.apple anchor point
#
scrub-anchor "com.apple/*"
nat-anchor "com.apple/*"
rdr-anchor "com.apple/*"
dummynet-anchor "com.apple/*"
anchor "com.apple/*"
load anchor "com.apple" from "/etc/pf.anchors/com.apple"
"#;

#[test]
fn the_pf_block_lands_before_the_filter_anchor() {
    let block = "rdr-anchor \"pitchfork\"\nload anchor \"pitchfork\" from \"/etc/pf.anchors/pitchfork\"";
    let out = splice_pf_block(APPLE_PF_CONF, block);

    let lines: Vec<&str> = out.lines().collect();
    let ours = lines
        .iter()
        .position(|l| l.contains("rdr-anchor \"pitchfork\""))
        .expect("our rdr-anchor is present");
    let apple_rdr = lines.iter().position(|l| l.contains("rdr-anchor \"com.apple/*\"")).unwrap();
    let apple_filter = lines.iter().position(|l| l.trim() == "anchor \"com.apple/*\"").unwrap();
    assert!(apple_rdr < ours, "must follow the existing rdr-anchor");
    assert!(ours < apple_filter, "must precede the filter anchor");
    assert_eq!(out.matches(MARKER_START).count(), 1);
    assert!(out.ends_with('\n'));

    let again = splice_pf_block(&out, block);
    assert_eq!(again, out);

    assert_eq!(splice_pf_block(&again, ""), APPLE_PF_CONF);
}

#[test]
fn a_pf_conf_with_no_rdr_anchor_still_lands_before_the_filters() {
    let custom = "set skip on lo0\nblock in all\npass out all\n";
    let out = splice_pf_block(custom, "rdr-anchor \"pitchfork\"");
    let lines: Vec<&str> = out.lines().collect();
    let ours = lines.iter().position(|l| l.contains("rdr-anchor \"pitchfork\"")).unwrap();
    let first_filter = lines.iter().position(|l| l.trim() == "block in all").unwrap();
    assert!(ours < first_filter, "translation must precede filtering");
    assert_eq!(splice_pf_block(&out, ""), custom);

    let out = splice_pf_block("# empty ruleset\n", "rdr-anchor \"pitchfork\"");
    assert!(out.contains("rdr-anchor \"pitchfork\""));
    assert_eq!(out.matches(MARKER_START).count(), 1);
}

#[test]
fn a_pf_block_in_the_wrong_place_is_repositioned_not_left_alone() {
    let stale = format!("{}{MARKER_START}\nrdr-anchor \"pitchfork\"\n{MARKER_END}\n", APPLE_PF_CONF);
    let action = Action::EnsureBlock {
        path: "/nonexistent".to_string(),
        content: "rdr-anchor \"pitchfork\"".to_string(),
        sudo: false,
        pf_order: true,
        prerequisite: None,
    };
    assert_ne!(splice_pf_block(&stale, "rdr-anchor \"pitchfork\""), stale);
    // The file could not be read.
    assert!(!already_done(&action, &nothing_seen()), "a missing file is not already done");

    let fixed = splice_pf_block(&stale, "rdr-anchor \"pitchfork\"");
    let lines: Vec<&str> = fixed.lines().collect();
    let ours = lines.iter().position(|l| l.contains("rdr-anchor \"pitchfork\"")).unwrap();
    let filter = lines.iter().position(|l| l.trim() == "anchor \"com.apple/*\"").unwrap();
    assert!(ours < filter, "the stale block should have moved up");
    assert_eq!(fixed.matches(MARKER_START).count(), 1);
}

#[test]
fn a_pac_setup_claims_no_resolver_file_on_undo() {
    for platform in [Platform::MacOs, Platform::Linux] {
        // An empty resolver directory: no file carries pitchfork's header.
        let mut c = ctx(platform);
        c.pac = true;
        c.resolver_dir = "/nonexistent/pitchfork-resolver".to_string();

        let resolver = c.resolver_file();
        let dropin = c.resolved_dropin();
        let names_resolver = |l: &String| l.contains(&resolver) || l.contains(&dropin);

        let forward = plan(&c).describe();
        assert!(
            !forward.iter().any(names_resolver),
            "{platform:?}: pac setup wrote resolver configuration: {forward:?}"
        );

        let undo = plan_undo(&c, &none()).describe();
        assert!(
            !undo.iter().any(names_resolver),
            "{platform:?}: pac undo claimed a resolver file it never wrote: {undo:?}"
        );
        assert!(
            !undo.iter().any(|l| l.contains("systemd-resolved")),
            "{platform:?}: pac undo restarted the resolver for nothing: {undo:?}"
        );
    }
}

#[test]
fn undo_restores_an_automatic_proxy_url_that_setup_replaced() {
    let mut mac = ctx(Platform::MacOs);
    mac.pac = true;
    mac.network_services = vec!["Wi-Fi".into()];
    mac.prior_auto_proxy = vec![PriorAutoProxy {
        target: "Wi-Fi".into(),
        url: "https://corp.example/proxy.pac".into(),
        state: "on".into(),
    }];
    let lines = plan_undo(&mac, &none()).describe();
    let at = |needle: &str| lines.iter().position(|l| l.contains(needle));

    let off = at("turn off the automatic proxy URL").expect("no disable step");
    let url = at("restore the automatic proxy URL").expect("no url restore");
    let state = at("restore the automatic proxy switch").expect("no state restore");
    assert!(
        lines[url].contains("https://corp.example/proxy.pac"),
        "the restore step did not name the recorded URL: {:?}",
        lines[url]
    );
    assert!(off < url && url < state, "restore steps are out of order");

    let mut disabled = mac.clone();
    disabled.prior_auto_proxy[0].state = "off".into();
    let lines = plan_undo(&disabled, &none()).describe();
    let last_switch = lines.iter().rposition(|l| l.contains("automatic proxy switch")).expect("no state restore");
    assert!(
        lines[last_switch].ends_with("off"),
        "the last word on the switch was not the recorded state: {:?}",
        lines[last_switch]
    );

    let mut linux = ctx(Platform::Linux);
    linux.pac = true;
    linux.gnome = true;
    linux.prior_auto_proxy = vec![PriorAutoProxy {
        target: "gnome".into(),
        url: "http://wpad.corp/proxy.pac".into(),
        state: "manual".into(),
    }];
    let lines = plan_undo(&linux, &none()).describe();
    let mode = lines
        .iter()
        .position(|l| l.contains("restore the GNOME proxy mode to manual"))
        .expect("no mode restore");
    let url = lines.iter().position(|l| l.contains("http://wpad.corp/proxy.pac")).expect("no url restore");
    assert!(url < mode, "the GNOME restore steps are out of order");

    let mut bare = ctx(Platform::MacOs);
    bare.pac = true;
    bare.network_services = vec!["Wi-Fi".into()];
    assert!(
        !plan_undo(&bare, &none()).describe().iter().any(|l| l.contains("restore the automatic proxy")),
        "a restore was planned with nothing recorded to restore"
    );
}

#[test]
fn a_recorded_automatic_proxy_value_that_could_steer_a_command_is_dropped() {
    let mut c = ctx(Platform::MacOs);
    c.prior_auto_proxy = vec![
        PriorAutoProxy {
            target: "-setairportpower".into(),
            url: "https://corp.example/proxy.pac".into(),
            state: "on".into(),
        },
        PriorAutoProxy { target: "Wi-Fi".into(), url: "-setautoproxystate".into(), state: "on".into() },
        PriorAutoProxy {
            target: "Wi-Fi".into(),
            url: "https://corp.example/proxy.pac".into(),
            state: "; rm -rf /".into(),
        },
        PriorAutoProxy { target: "Wi-Fi".into(), url: "/etc/passwd".into(), state: "on".into() },
        PriorAutoProxy {
            target: "Wi-Fi".into(),
            url: "https://corp.example/proxy.pac".into(),
            state: "on".into(),
        },
    ];
    let kept = sanitize_record(c, GENERATED_CA, BINARY).expect("the record itself is usable").prior_auto_proxy;
    assert_eq!(
        kept,
        vec![PriorAutoProxy {
            target: "Wi-Fi".into(),
            url: "https://corp.example/proxy.pac".into(),
            state: "on".into(),
        }],
        "an unusable recorded value survived"
    );
}

#[test]
fn a_trust_store_that_will_not_answer_does_not_cancel_the_ca_removal() {
    assert!(!untrust_already_done(true, None), "an unreadable trust store cancelled the removal");
    assert!(!untrust_already_done(false, Some(false)));
    assert!(!untrust_already_done(false, None));
    assert!(!untrust_already_done(false, Some(true)));
    assert!(!untrust_already_done(true, Some(true)));
    assert!(untrust_already_done(true, Some(false)));
}

#[test]
fn a_capability_that_cannot_be_read_is_not_taken_for_absent() {
    let bind = BIND_CAPABILITY.to_string();
    let other = "cap_net_raw".to_string();

    assert!(!revoke_already_done(None), "an unreadable probe was taken for absent");

    assert!(revoke_already_done(Some(&[])));
    assert!(revoke_already_done(Some(std::slice::from_ref(&other))));

    assert!(!revoke_already_done(Some(std::slice::from_ref(&bind))));
    assert!(!revoke_already_done(Some(&[bind, other])));
}

#[test]
fn getcap_output_is_read_the_way_getcap_writes_it() {
    assert_eq!(parse_capabilities(&format!(" {BIND_CAPABILITY}=ep")), vec![BIND_CAPABILITY.to_string()]);
    assert!(parse_capabilities("").is_empty());
}

#[test]
fn output_that_does_not_name_the_binary_is_no_answer() {
    let matched = |stdout: &str| capabilities_from_getcap("/usr/local/bin/pitchfork", stdout);

    assert_eq!(matched(""), Some(vec![]), "empty output is no capabilities");
    assert_eq!(matched("   \n"), Some(vec![]));
    assert_eq!(
        matched(&format!("/usr/local/bin/pitchfork {BIND_CAPABILITY}=ep\n")),
        Some(vec![BIND_CAPABILITY.to_string()])
    );
    assert_eq!(
        matched("/usr/local/bin/pitchfor\u{fffd}k cap_net_bind_service=ep\n"),
        None,
        "output naming a different path was read as an empty list"
    );
    assert_eq!(matched("something unexpected\n"), None);
}

#[test]
fn an_old_systemd_is_warned_about_rather_than_silently_ineffective() {
    let mut c = ctx(Platform::Linux);
    c.systemd_version = Some(245);
    let p = plan(&c);
    assert!(p.manual.iter().any(|m| m.contains("too old")), "expected a version warning: {:?}", p.manual);
    assert!(!plan(&ctx(Platform::Linux)).manual.iter().any(|m| m.contains("too old")));
}

#[test]
fn the_resolved_restart_is_unconditional() {
    let steps = plan(&ctx(Platform::Linux)).steps;
    let restart = steps
        .iter()
        .find(|s| s.summary.contains("restart systemd-resolved"))
        .expect("linux plans a restart");
    let Action::Run { skip_if, .. } = &restart.action else {
        panic!("expected a command");
    };
    assert!(skip_if.is_none(), "the restart must not be guarded");
    assert!(restart.summary.contains("interrupts DNS"));
}

#[test]
fn pf_keywords_are_whole_words_not_prefixes() {
    assert!(!is_pf_translation("nat_if = \"en0\""));
    assert!(!is_pf_translation("nat_if=\"en0\""));
    assert!(!is_pf_filter("pass_hosts = \"{ 10.0.0.1 }\""));
    assert!(!is_pf_filter("blocklist = \"{ 1.2.3.4 }\""));
    assert!(is_pf_translation("rdr-anchor \"com.apple/*\""));
    assert!(is_pf_translation("  nat on en0 from any to any"));
    assert!(is_pf_filter("anchor \"com.apple/*\""));
    assert!(is_pf_filter("pass out all"));
    assert!(is_pf_filter("block in all"));
    assert!(!is_pf_translation("set skip on lo0"));
    assert!(!is_pf_filter("set skip on lo0"));
}

#[test]
fn a_macro_named_like_a_rule_does_not_move_the_block() {
    let custom = "nat_if = \"en0\"\nset skip on lo0\nblock in all\n";
    let out = splice_pf_block(custom, "rdr-anchor \"pitchfork\"");
    let lines: Vec<&str> = out.lines().collect();
    let ours = lines.iter().position(|l| l.contains("rdr-anchor \"pitchfork\"")).unwrap();
    let macro_line = lines.iter().position(|l| l.starts_with("nat_if")).unwrap();
    let filter = lines.iter().position(|l| l.trim() == "block in all").unwrap();
    assert!(ours > macro_line, "must not be treated as a translation rule");
    assert!(ours < filter, "must still precede the filter");
}

#[test]
fn splice_block_inserts_replaces_and_removes() {
    let original = "scrub-anchor \"com.apple/*\"\n";
    let added = splice_block(original, "rdr-anchor \"pitchfork\"");
    assert_eq!(
        added,
        "scrub-anchor \"com.apple/*\"\n\n# pitchfork-start\nrdr-anchor \"pitchfork\"\n# pitchfork-end\n"
    );

    let replaced = splice_block(&added, "rdr-anchor \"other\"");
    assert!(replaced.contains("rdr-anchor \"other\""));
    assert!(!replaced.contains("rdr-anchor \"pitchfork\""));
    assert_eq!(replaced.matches(MARKER_START).count(), 1);

    assert_eq!(splice_block(&added, ""), original);
}

#[test]
fn generated_files_carry_the_expected_contents() {
    assert_eq!(
        macos_resolver_file(15353),
        "# Managed by pitchfork (pitchfork proxy setup)\nnameserver 127.0.0.1\nport 15353\n"
    );
    let dropin = resolved_dropin("test", 15353);
    assert!(dropin.contains("[Resolve]"));
    assert!(dropin.contains("DNS=127.0.0.1:15353"));
    assert!(dropin.contains("Domains=~test"));
    assert!(pf_anchor_rules(443, 8443).contains("port 443 -> 127.0.0.1 port 8443"));
}

// ─── beyond the original's cases ────────────────────────────────────────────

#[test]
fn a_tld_label_is_at_most_sixty_three_chars_and_never_starts_or_ends_with_a_dash() {
    let long = "a".repeat(63);
    assert!(validate_tld(&long).is_ok());
    assert!(validate_tld(&format!("{long}a")).is_err());
    assert!(validate_tld(&format!("x.{long}")).is_ok());
    assert!(validate_tld("-dev").is_err());
    assert!(validate_tld("dev-").is_err());
    assert!(validate_tld("a-.b").is_err());
    assert!(validate_tld("a.-b").is_err());
    assert!(validate_tld("a..b").is_err());
    assert!(validate_tld("test.").is_err());
    assert_eq!(validate_tld("é").unwrap_err().tld, "é");
}

#[test]
fn pf_keyword_is_the_first_word_unless_it_assigns_a_macro() {
    assert_eq!(pf_keyword("  rdr pass on lo0"), Some("rdr".to_string()));
    assert_eq!(pf_keyword("nat_if=\"en0\""), None);
    assert_eq!(pf_keyword("   "), None);
    assert_eq!(pf_keyword(""), None);
}

#[test]
fn the_undo_plan_across_setups_lists_each_summary_once() {
    let c = ctx(Platform::Linux);
    let lines = plan_undo_from(Some(&c), &[c.clone(), c.clone()], &none()).describe();
    assert_eq!(lines, plan_undo(&c, &none()).describe());
}

#[test]
fn undo_sweeps_every_resolver_file_found_on_macos() {
    let c = ctx(Platform::MacOs);
    let managed = vec!["/etc/resolver/old".to_string(), c.resolver_file()];
    let lines = plan_undo(&c, &managed).describe();
    assert_eq!(lines[0], format!("[sudo] remove {}", c.resolver_file()));
    assert_eq!(lines[1], "[sudo] remove /etc/resolver/old");
    assert_eq!(lines.iter().filter(|l| l.contains("/etc/resolver/test")).count(), 1);
}

#[test]
fn already_done_reads_what_was_observed() {
    let write = Action::WriteFile { path: "/x".into(), content: "abc".into(), sudo: false };
    let mut seen = nothing_seen();
    assert!(!already_done(&write, &seen));
    seen.content = Some("abc".into());
    assert!(already_done(&write, &seen));

    let remove = Action::RemoveFile { path: "/x".into(), sudo: true, still_referenced_by: None };
    assert!(already_done(&remove, &nothing_seen()));
    assert_eq!(skip_reason(&remove, false, false), "nothing there");
    assert_eq!(skip_reason(&remove, true, false), "not written by pitchfork, left alone");
    let mut present = nothing_seen();
    present.exists = true;
    present.managed = true;
    assert!(!already_done(&remove, &present));

    let block = Action::RemoveBlock { path: "/etc/pf.conf".into(), sudo: true };
    let mut file = nothing_seen();
    file.content = Some(format!("x\n{MARKER_START}\ny\n{MARKER_END}\n"));
    assert!(!already_done(&block, &file));
    file.content = Some("x\n".into());
    assert!(already_done(&block, &file));

    let mut revoked = nothing_seen();
    revoked.capabilities = Some(vec!["cap_net_raw".into()]);
    assert!(already_done(&Action::RevokeBindCapability { binary: BINARY.into() }, &revoked));
    assert_eq!(skip_reason(&Action::Note, false, false), "already done");
}

#[test]
fn undo_acts_on_every_resource_setup_installs() {
    for platform in [Platform::MacOs, Platform::Linux, Platform::Other] {
        for (pac, port) in [(false, 8443u16), (true, 8443), (false, 443)] {
            let mut c = ctx(platform);
            c.pac = pac;
            c.proxy_port = port;
            c.network_services = vec!["Wi-Fi".to_string(), "Ethernet".to_string()];
            c.gnome = true;
            let undo: Vec<Resource> = plan_undo(&c, &none()).steps.into_iter().filter_map(|s| s.resource).collect();
            for step in plan(&c).steps {
                match step.resource {
                    Some(Resource::ServiceReload(_)) | None => {}
                    Some(r) => assert!(undo.contains(&r), "{platform:?} pac={pac} port={port}: {r:?} is not undone"),
                }
            }
        }
    }
}

/// The resources of the kinds both plans name outright.
fn claimed(steps: &[pitchfork_proxy::setup::model::Step]) -> Vec<Resource> {
    let mut out: Vec<Resource> = steps
        .iter()
        .filter_map(|s| s.resource.clone())
        .filter(|r| !matches!(r, Resource::TrustedCa(_) | Resource::AutoProxy { .. }))
        .collect();
    out.sort_by_key(|r| format!("{r:?}"));
    out.dedup();
    out
}

#[test]
fn undo_claims_exactly_what_setup_installs() {
    let mut contexts = vec![ctx(Platform::MacOs), ctx(Platform::Linux)];
    let mut privileged = ctx(Platform::Linux);
    privileged.proxy_port = 443;
    contexts.push(privileged);
    let mut pac = ctx(Platform::MacOs);
    pac.pac = true;
    contexts.push(pac);
    let mut dns_off = ctx(Platform::Linux);
    dns_off.dns_enabled = false;
    contexts.push(dns_off);
    for c in contexts {
        for managed in [none(), vec![c.resolver_file()]] {
            let undo = plan_undo(&c, &managed);
            assert_eq!(claimed(&undo.steps), claimed(&plan(&c).steps), "{:?}", c.platform);
        }
    }
}

#[test]
fn undo_removes_other_managed_resolver_files_in_ascending_order() {
    let c = ctx(Platform::MacOs);
    let managed = vec![
        "/etc/resolver/zeta".to_string(),
        "/etc/resolver/alpha".to_string(),
        "/etc/resolver/test".to_string(),
    ];
    let removed: Vec<String> = plan_undo(&c, &managed)
        .steps
        .iter()
        .filter_map(|s| match &s.resource {
            Some(Resource::File(p)) if p.starts_with("/etc/resolver/") => Some(p.clone()),
            _ => None,
        })
        .collect();
    assert_eq!(removed, vec!["/etc/resolver/test", "/etc/resolver/alpha", "/etc/resolver/zeta"]);
}
