//! The verdicts of `proxy doctor`.
use pitchfork_proxy::dns::BindAddress;
use pitchfork_proxy::doctor::pac::{
    active_network_services, answer_of, autoproxy_enabled, combine_service_answers, decide_gnome, is_auto_mode,
    means_no_such_setting, pac_authority, pac_fetch_result, pac_file_check, pac_request, service_uses_pac, Answer,
    CommandOutcome,
};
use pitchfork_proxy::doctor::resolver::{
    probe_name_for, published_only, published_resolution_check, reply_verdict, resolution_check, resolver_check,
    resolver_disabled_check, responder_address, responder_query, unpublished_check, ReplyVerdict,
};
use pitchfork_proxy::doctor::run::{
    certificate_step, configured_cert_problem, custom_certificate_check, generated_ca_check, listener_check,
    plan_doctor, port_probe_of, standard_port_check, standard_port_step, usable_proxy_port, CertificateStep,
    PortExchange, PortProbe, StandardPortStep,
};
use pitchfork_proxy::doctor::{Check, Status};
use pitchfork_proxy::settings::Settings;
use pitchfork_proxy::setup::context::HostAddress;

#[test]
fn only_a_missing_setting_counts_as_an_answer() {
    for absent in [
        "No schemas installed\n",
        "No such schema \u{201c}org.gnome.system.proxy\u{201d}\n",
        "No such key \u{201c}autoconfig-url\u{201d}\n",
    ] {
        assert!(means_no_such_setting(absent), "not recognised as an absent setting: {absent:?}");
    }

    for unclear in [
        "Failed to connect to the session bus: No such file or directory\n",
        "Error spawning command line \u{201c}dbus-launch\u{201d}\n",
        "** Error: The parameters were not valid.\n",
        "Operation not permitted\n",
        "",
    ] {
        assert!(!means_no_such_setting(unclear), "treated as proof that nothing is configured: {unclear:?}");
    }
}

#[test]
fn a_machine_with_no_pac_gives_a_definite_answer() {
    let ours = "http://127.0.0.1:8443/proxy.pac";
    let said = |s: &str| Answer::Said(s.to_string());

    assert_eq!(decide_gnome(Answer::Nothing, None, ours), Some(false));
    assert_eq!(decide_gnome(said("'manual'\n"), None, ours), Some(false));
    assert_eq!(decide_gnome(said("'auto'\n"), Some(said(&format!("'{ours}'\n"))), ours), Some(true));
    assert_eq!(
        decide_gnome(said("'auto'\n"), Some(said("'https://corp.example/proxy.pac'\n")), ours),
        Some(false)
    );
    assert_eq!(decide_gnome(Answer::Unknown, None, ours), None);
    assert_eq!(decide_gnome(said("'auto'\n"), Some(Answer::Unknown), ours), None);
}

#[test]
fn the_standard_port_is_not_expected_under_pac() {
    let pac = Check::new("standard port", Status::Pass, "not needed: the PAC file sends requests to port 8443");
    assert_eq!(pac.status, Status::Pass);
    assert!(pac.line().contains("not needed"));
}

#[test]
fn a_pac_url_only_counts_when_automatic_proxy_is_on() {
    assert!(autoproxy_enabled("URL: http://127.0.0.1:8443/proxy.pac\nEnabled: Yes\n"));
    assert!(!autoproxy_enabled("URL: http://127.0.0.1:8443/proxy.pac\nEnabled: No\n"));

    assert!(is_auto_mode("'auto'\n"));
    assert!(!is_auto_mode("'none'\n"));
    assert!(!is_auto_mode("'manual'\n"));
}

#[test]
fn check_lines_are_single_line_and_labelled() {
    let line = Check::new("dns resolver", Status::Fail, "no reply").line();
    assert!(!line.contains('\n'));
    assert!(line.starts_with("[fail] dns resolver"));
    assert!(line.ends_with("no reply"));
}

#[test]
fn check_lines_pad_the_name_to_a_column() {
    assert_eq!(Check::new("proxy", Status::Pass, "ok").line(), "[ok  ] proxy                  ok");
    let long = "a name longer than twenty-two";
    assert_eq!(Check::new(long, Status::Warn, "x").line(), format!("[warn] {long} x"));
}

#[test]
fn a_resolver_that_timed_out_is_not_reported_as_a_broken_name() {
    let no_pac = Some(false);

    let timed_out = resolution_check("app.test", "test", no_pac, false, None);
    assert_eq!(timed_out.status, Status::Warn);
    assert!(timed_out.detail.contains("did not answer in time"), "the timeout was not explained: {}", timed_out.detail);

    let refused =
        resolution_check("app.test", "test", no_pac, false, Some(Err("Name or service not known".into())));
    assert_eq!(refused.status, Status::Fail);
    assert!(refused.detail.contains("Name or service not known"));

    assert_eq!(resolution_check("app.test", "test", no_pac, false, Some(Ok(vec![]))).status, Status::Fail);

    let found = resolution_check("app.test", "test", no_pac, false, Some(Ok(vec!["127.0.0.1".to_string()])));
    assert_eq!(found.status, Status::Pass);
    assert!(found.detail.contains("127.0.0.1"));

    for answer in [None, Some(Err("boom".to_string())), Some(Ok(vec![]))] {
        assert_eq!(
            resolution_check("app.test", "test", Some(true), false, answer).status,
            Status::Pass,
            "a PAC setup was told to fix its DNS"
        );
    }

    for answer in [None, Some(Err("boom".to_string())), Some(Ok(vec![]))] {
        assert_eq!(
            resolution_check("app.test", "test", None, false, answer).status,
            Status::Warn,
            "an unreadable proxy configuration was reported as broken DNS"
        );
    }
    for answer in [Some(Err("boom".to_string())), Some(Ok(vec![]))] {
        let c = resolution_check("app.local", "local", no_pac, true, answer);
        assert_eq!(c.status, Status::Warn, "a broken mDNS path was hidden");
        assert!(c.detail.contains("mDNS"), "the warning did not say where to look: {}", c.detail);
        assert!(!c.detail.contains("run `pitchfork proxy setup`"), "LAN mode was told to re-run setup: {}", c.detail);
    }
    for (pac, lan) in [(no_pac, true), (None, false)] {
        let c = resolution_check("app.local", "local", pac, lan, None);
        assert_eq!(c.status, Status::Warn);
        assert!(c.detail.contains("did not answer in time"), "{}", c.detail);
    }
    assert_eq!(
        resolution_check("app.local", "local", no_pac, true, Some(Ok(vec!["192.168.1.10".to_string()]))).status,
        Status::Pass
    );
    assert_eq!(
        resolution_check("app.test", "test", None, false, Some(Ok(vec!["127.0.0.1".to_string()]))).status,
        Status::Pass
    );
}

#[test]
fn resolution_lists_every_address() {
    let c = resolution_check(
        "app.test",
        "test",
        Some(false),
        false,
        Some(Ok(vec!["127.0.0.1".to_string(), "::1".to_string()])),
    );
    assert_eq!(c.detail, "app.test resolves to 127.0.0.1, ::1");
    assert_eq!(c.name, "system resolution");
}

#[test]
fn probe_names_are_unique_and_under_the_tld() {
    let a = probe_name_for(0x1234_abcd, "test");
    let b = probe_name_for(0x0000_00ff, "test");
    assert!(a.ends_with(".test"));
    assert_ne!(a, b, "each run must use a name nothing could have cached");
    assert_eq!(a, "pf-doctor-1234abcd.test");
    assert_eq!(b, "pf-doctor-000000ff.test");
}

#[test]
fn a_resolver_without_dns_says_so() {
    let c = resolver_disabled_check();
    assert_eq!(c.status, Status::Warn);
    assert_eq!(c.detail, "proxy.dns is false, so pitchfork answers no DNS queries");
    let ok = resolver_check(Ok("127.0.0.1".to_string()), 15353, "test");
    assert_eq!(ok.status, Status::Pass);
    assert_eq!(ok.detail, "127.0.0.1:15353 answers *.test with 127.0.0.1");
    let bad = resolver_check(Err("no reply within 3s".to_string()), 15353, "test");
    assert_eq!(bad.status, Status::Fail);
    assert_eq!(bad.detail, "127.0.0.1:15353 did not answer: no reply within 3s");
}

#[test]
fn the_probe_query_asks_for_the_record_the_bind_address_implies() {
    let q = responder_query("a.test", false).unwrap();
    assert_eq!(
        q,
        vec![0x7f, 0x00, 0x01, 0x00, 0x00, 0x01, 0, 0, 0, 0, 0, 0, 1, b'a', 4, b't', b'e', b's', b't', 0, 0, 1, 0, 1]
    );
    let q6 = responder_query("a.test", true).unwrap();
    assert_eq!(&q6[q6.len() - 4..], &[0, 28, 0, 1]);
    let long = format!("{}.test", "x".repeat(300));
    assert_eq!(responder_query(&long, false), Err("label too long".to_string()));
}

#[test]
fn the_reply_is_read_back_to_its_address() {
    let mut reply = vec![0x7f, 0x00, 0x81, 0x80, 0, 1, 0, 1, 0, 0, 0, 0, 1, b'a', 4, b't', b'e', b's', b't', 0, 0, 1, 0, 1];
    reply.extend_from_slice(&[0xc0, 0x0c, 0, 1, 0, 1, 0, 0, 0, 0, 0, 4, 127, 0, 0, 1]);
    assert_eq!(reply_verdict(true, &reply), ReplyVerdict::Accept);
    assert_eq!(responder_address(&reply, false), Ok(vec![127, 0, 0, 1]));

    // A datagram from elsewhere, or for another query, is not the answer.
    assert_eq!(reply_verdict(false, &reply), ReplyVerdict::Ignore);
    let mut other = reply.clone();
    other[0] = 0x12;
    assert_eq!(reply_verdict(true, &other), ReplyVerdict::Ignore);
    assert_eq!(reply_verdict(true, &reply[..8]), ReplyVerdict::TooShort);

    // REFUSED is reported as such.
    let mut refused = reply[..24].to_vec();
    refused[3] = 0x85;
    assert_eq!(responder_address(&refused, false), Err("responder returned rcode 5".to_string()));

    // A reply with no answer record.
    let bare = reply[..24].to_vec();
    assert_eq!(responder_address(&bare, false), Err("reply carried no address record".to_string()));
}

#[test]
fn settings_commands_are_classified_by_what_they_said() {
    assert!(matches!(answer_of(CommandOutcome::TimedOut), Answer::Unknown));
    assert!(matches!(answer_of(CommandOutcome::NotInstalled), Answer::Nothing));
    assert!(matches!(answer_of(CommandOutcome::SpawnFailed), Answer::Unknown));
    let ok = CommandOutcome::Exited { success: true, stdout: "'auto'\n".to_string(), stderr: String::new() };
    assert!(matches!(answer_of(ok), Answer::Said(s) if s == "'auto'\n"));
    let absent = CommandOutcome::Exited { success: false, stdout: String::new(), stderr: "No schemas installed\n".to_string() };
    assert!(matches!(answer_of(absent), Answer::Nothing));
    let bus = CommandOutcome::Exited {
        success: false,
        stdout: String::new(),
        stderr: "Failed to connect to the session bus\n".to_string(),
    };
    assert!(matches!(answer_of(bus), Answer::Unknown));
}

#[test]
fn macos_services_are_read_from_the_listing() {
    let listing = "An asterisk (*) denotes that a network service is disabled.\nWi-Fi\n*Bluetooth PAN\n  \n Thunderbolt Bridge \n";
    assert_eq!(active_network_services(listing), vec!["Wi-Fi".to_string(), "Thunderbolt Bridge".to_string()]);
    assert!(active_network_services("").is_empty());

    let url = "http://127.0.0.1:8443/proxy.pac";
    assert!(service_uses_pac("URL: http://127.0.0.1:8443/proxy.pac\nEnabled: Yes\n", url));
    assert!(!service_uses_pac("URL: http://127.0.0.1:8443/proxy.pac\nEnabled: No\n", url));
    assert!(!service_uses_pac("URL: http://elsewhere/proxy.pac\nEnabled: Yes\n", url));

    assert_eq!(combine_service_answers(&vec![Some(false), None, Some(true)]), Some(true));
    assert_eq!(combine_service_answers(&vec![Some(false), None]), None);
    assert_eq!(combine_service_answers(&vec![Some(false), Some(false)]), Some(false));
    assert_eq!(combine_service_answers(&vec![]), Some(false));
}

#[test]
fn the_pac_file_is_fetched_from_its_authority() {
    assert_eq!(pac_authority("http://127.0.0.1:8443/proxy.pac"), "127.0.0.1:8443");
    assert_eq!(pac_authority("http://[::1]:8443/proxy.pac"), "[::1]:8443");
    assert_eq!(pac_authority("127.0.0.1:80"), "127.0.0.1:80");
    assert_eq!(
        pac_request("127.0.0.1:8443"),
        "GET /proxy.pac HTTP/1.1\r\nHost: 127.0.0.1:8443\r\nConnection: close\r\n\r\n"
    );
    assert_eq!(pac_fetch_result(Some(Ok("function FindProxyForURL(u, h) {}".to_string()))), Ok(()));
    assert_eq!(
        pac_fetch_result(Some(Ok("<html>".to_string()))),
        Err("the response was not a PAC script".to_string())
    );
    assert_eq!(pac_fetch_result(Some(Err("refused".to_string()))), Err("refused".to_string()));
    assert_eq!(pac_fetch_result(None), Err("no reply within 3s".to_string()));

    let ok = pac_file_check("http://x/proxy.pac", Ok(()));
    assert_eq!(ok.status, Status::Pass);
    assert_eq!(ok.detail, "the system proxy uses http://x/proxy.pac, and it is being served");
    let bad = pac_file_check("http://x/proxy.pac", Err("refused".to_string()));
    assert_eq!(bad.status, Status::Fail);
    assert_eq!(bad.detail, "the system proxy uses http://x/proxy.pac, but it could not be fetched: refused");
}

fn enabled_settings() -> Settings {
    let mut s = Settings::default();
    s.proxy.enable = true;
    s.proxy.port = 8443;
    s.proxy.https = true;
    s.proxy.tld = "test".to_string();
    s
}

fn loopback_v4() -> (HostAddress, BindAddress) {
    (HostAddress::V4 { text: "127.0.0.1".to_string(), unspecified: false }, BindAddress::V4([127, 0, 0, 1]))
}

#[test]
fn a_disabled_proxy_or_an_unusable_port_ends_the_run() {
    let (host, bind) = loopback_v4();
    let off = Settings::default();
    let c = plan_doctor(&off, &host, bind).err().unwrap();
    assert_eq!(c.name, "proxy");
    assert_eq!(c.detail, "disabled \u{2014} set proxy.enable = true");

    let mut bad = enabled_settings();
    bad.proxy.port = 70000;
    let c = plan_doctor(&bad, &host, BindAddress::V4([127, 0, 0, 1])).err().unwrap();
    assert_eq!(c.name, "proxy port");
    assert!(c.detail.starts_with("proxy.port is 70000, which is not a usable port"));

    let c = usable_proxy_port(-1).err().unwrap();
    assert!(c.detail.starts_with("proxy.port is -1,"));
    assert_eq!(usable_proxy_port(0).err().unwrap().status, Status::Fail);
    assert_eq!(usable_proxy_port(443).ok(), Some(443));
}

#[test]
fn the_plan_follows_the_bind_address() {
    let s = enabled_settings();
    let (host, bind) = loopback_v4();
    let p = plan_doctor(&s, &host, bind).ok().unwrap();
    assert_eq!(p.proxy_port, 8443);
    assert_eq!(p.standard_port, 443);
    assert_eq!(p.proxy_at, "127.0.0.1:8443");
    assert_eq!(p.pac_url, "http://127.0.0.1:8443/proxy.pac");
    assert!(!p.resolver_v6);
    assert_eq!(p.probe_addr, vec![127, 0, 0, 1]);
    assert_eq!(p.tld, "test");

    let v6 = HostAddress::V6 { text: "::1".to_string(), unspecified: false };
    let mut one = [0u8; 16];
    one[15] = 1;
    let p = plan_doctor(&s, &v6, BindAddress::V6(one)).ok().unwrap();
    assert_eq!(p.proxy_at, "[::1]:8443");
    assert!(p.resolver_v6);

    let any = HostAddress::V4 { text: "0.0.0.0".to_string(), unspecified: true };
    let p = plan_doctor(&s, &any, BindAddress::V4([0, 0, 0, 0])).ok().unwrap();
    assert_eq!(p.proxy_at, "127.0.0.1:8443");
    assert_eq!(p.probe_addr, vec![127, 0, 0, 1]);

    let mut lan = enabled_settings();
    lan.proxy.lan = true;
    let p = plan_doctor(&lan, &v6, BindAddress::V6(one)).ok().unwrap();
    assert!(!p.resolver_v6, "LAN mode serves IPv4");
    assert_eq!(p.tld, "local");
}

#[test]
fn a_listener_that_hangs_up_is_a_port_conflict_not_an_unknown() {
    assert_eq!(port_probe_of(PortExchange::HungUp), PortProbe::Foreign);
    assert_eq!(port_probe_of(PortExchange::Refused), PortProbe::Closed);
    assert_eq!(port_probe_of(PortExchange::TimedOut), PortProbe::Silent);
    assert_eq!(
        port_probe_of(PortExchange::Answered("HTTP/1.1 301\r\nX-Pitchfork: 1\r\n".to_string())),
        PortProbe::Pitchfork
    );
    assert_eq!(port_probe_of(PortExchange::Answered("HTTP/1.1 200 OK\r\n".to_string())), PortProbe::Foreign);
}

#[test]
fn listener_checks_name_the_address() {
    let c = listener_check(PortProbe::Pitchfork, "127.0.0.1:8443");
    assert_eq!(c.status, Status::Pass);
    assert_eq!(c.detail, "the pitchfork proxy answers on 127.0.0.1:8443");
    assert_eq!(listener_check(PortProbe::Foreign, "x").status, Status::Fail);
    assert_eq!(listener_check(PortProbe::Silent, "x").status, Status::Warn);
    let closed = listener_check(PortProbe::Closed, "127.0.0.1:8443");
    assert_eq!(closed.status, Status::Fail);
    assert!(closed.detail.contains("pitchfork supervisor start"));
}

#[test]
fn the_standard_port_step_follows_the_pac_state() {
    assert!(matches!(standard_port_step(443, 443, None), StandardPortStep::NotNeeded));
    match standard_port_step(8443, 443, Some(true)) {
        StandardPortStep::Settled(c) => {
            assert_eq!(c.status, Status::Pass);
            assert_eq!(c.detail, "not needed: the PAC file sends requests to port 8443");
        },
        other => panic!("unexpected {other:?}"),
    }
    match standard_port_step(8443, 443, None) {
        StandardPortStep::Settled(c) => assert_eq!(c.status, Status::Warn),
        other => panic!("unexpected {other:?}"),
    }
    assert!(matches!(standard_port_step(8443, 443, Some(false)), StandardPortStep::Probe));

    assert_eq!(standard_port_check(PortProbe::Pitchfork, 443, 8443).detail, "port 443 reaches the proxy on 8443");
    let closed = standard_port_check(PortProbe::Closed, 443, 8443);
    assert_eq!(closed.status, Status::Warn);
    assert_eq!(closed.detail, "port 443 is not redirected, so URLs need :8443 \u{2014} run `pitchfork proxy setup`");
    assert_eq!(standard_port_check(PortProbe::Foreign, 443, 8443).status, Status::Fail);
}

#[test]
fn unpublished_and_published_names() {
    assert!(published_only(true, true, Some(true)));
    assert!(published_only(false, false, None));
    assert!(!published_only(false, false, Some(true)));
    assert!(!published_only(false, true, Some(false)));

    assert_eq!(unpublished_check(false, true, "local").status, Status::Pass);
    assert_eq!(unpublished_check(false, false, "test").status, Status::Warn);
    assert_eq!(unpublished_check(true, false, "test").status, Status::Warn);

    let c = published_resolution_check("app.test", "test", Some(false), false, false, Some(Ok(vec![])));
    assert_eq!(c.status, Status::Fail);
    assert!(c.detail.contains("proxy.dns is false"));
    let c = published_resolution_check("app.test", "test", Some(false), false, true, Some(Ok(vec![])));
    assert_eq!(c.detail, "app.test does not resolve \u{2014} run `pitchfork proxy setup`");
}

#[test]
fn certificate_checks() {
    let mut s = enabled_settings();
    assert!(matches!(certificate_step(&s, "/state"), CertificateStep::CheckGenerated { ca } if ca == "/state/proxy/ca.pem"));
    s.proxy.tls_cert = "/c.pem".to_string();
    assert!(matches!(certificate_step(&s, "/state"), CertificateStep::Refuse(c) if c.status == Status::Fail));
    s.proxy.tls_key = "/k.pem".to_string();
    assert!(matches!(certificate_step(&s, "/state"), CertificateStep::LoadCustom { cert, key } if cert == "/c.pem" && key == "/k.pem"));
    s.proxy.https = false;
    assert!(matches!(certificate_step(&s, "/state"), CertificateStep::Skip));

    assert_eq!(
        configured_cert_problem("/c.pem", false, "/k.pem", true),
        Some("proxy.tls_cert /c.pem does not exist, so the HTTPS listener cannot start".to_string())
    );
    assert_eq!(
        configured_cert_problem("/c.pem", true, "", false),
        Some("proxy.tls_cert is set but proxy.tls_key is empty".to_string())
    );
    assert_eq!(
        configured_cert_problem("/c.pem", true, "/k.pem", false),
        Some("proxy.tls_key /k.pem does not exist, so the HTTPS listener cannot start".to_string())
    );
    assert_eq!(configured_cert_problem("/c.pem", true, "/k.pem", true), None);

    assert_eq!(custom_certificate_check("/c.pem", Some(Ok(()))).status, Status::Pass);
    assert_eq!(custom_certificate_check("/c.pem", Some(Err("bad".to_string()))).detail, "bad");
    assert_eq!(custom_certificate_check("/c.pem", None).status, Status::Warn);

    assert_eq!(generated_ca_check("/ca.pem", false, None).status, Status::Fail);
    assert_eq!(generated_ca_check("/ca.pem", true, Some(true)).status, Status::Pass);
    assert_eq!(generated_ca_check("/ca.pem", true, Some(false)).status, Status::Fail);
    assert_eq!(generated_ca_check("/ca.pem", true, None).status, Status::Warn);
}
