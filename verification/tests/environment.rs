//! Reading the machine's tools, and the guards around running a setup step.
use pitchfork_proxy::setup::apply::{
    block_refusal, is_managed, removal_refusal, with_block, without_our_block, write_refusal, Referrer, RunReport,
    OWNED_HEADER,
};
use pitchfork_proxy::setup::environment::{gnome_prior_auto_proxy, mac_prior_auto_proxy, parse_number, systemd_version_from};

#[test]
fn the_systemd_version_is_the_first_lines_second_word() {
    assert_eq!(systemd_version_from("systemd 255 (255.4-1ubuntu8)\n+PAM +AUDIT\n"), Some(255));
    assert_eq!(systemd_version_from("systemd 249\n"), Some(249));
    assert_eq!(systemd_version_from("systemd\n"), None);
    assert_eq!(systemd_version_from("systemd two\n"), None);
    assert_eq!(systemd_version_from(""), None);
    assert_eq!(parse_number("4294967295"), Some(u32::MAX));
    assert_eq!(parse_number("4294967296"), None);
}

#[test]
fn a_macos_services_prior_auto_proxy_is_read_back() {
    let ours = "http://127.0.0.1:8443/proxy.pac";
    let p = mac_prior_auto_proxy("Wi-Fi", "URL: http://corp/proxy.pac\nEnabled: Yes\n", ours).unwrap();
    assert_eq!(p.target, "Wi-Fi");
    assert_eq!(p.url, "http://corp/proxy.pac");
    assert_eq!(p.state, "on");
    let p = mac_prior_auto_proxy("Wi-Fi", "url : http://corp/proxy.pac \nenabled: no\n", ours).unwrap();
    assert_eq!(p.url, "http://corp/proxy.pac");
    assert_eq!(p.state, "off");
    assert!(mac_prior_auto_proxy("Wi-Fi", "URL: (null)\nEnabled: No\n", ours).is_none());
    assert!(mac_prior_auto_proxy("Wi-Fi", &format!("URL: {ours}\nEnabled: Yes\n"), ours).is_none());
    assert!(mac_prior_auto_proxy("Wi-Fi", "Enabled: Yes\n", ours).is_none());
}

#[test]
fn gnomes_prior_auto_proxy_is_read_back() {
    let ours = "http://127.0.0.1:8443/proxy.pac";
    let p = gnome_prior_auto_proxy(Some("'http://corp/proxy.pac'\n"), Some("'auto'\n"), ours).unwrap();
    assert_eq!(p.target, "gnome");
    assert_eq!(p.url, "http://corp/proxy.pac");
    assert_eq!(p.state, "auto");
    let p = gnome_prior_auto_proxy(Some("'http://corp/proxy.pac'\n"), None, ours).unwrap();
    assert_eq!(p.state, "none");
    assert!(gnome_prior_auto_proxy(Some("''\n"), Some("'auto'\n"), ours).is_none());
    assert!(gnome_prior_auto_proxy(None, Some("'auto'\n"), ours).is_none());
    assert!(gnome_prior_auto_proxy(Some(&format!("'{ours}'\n")), Some("'auto'\n"), ours).is_none());
}

#[test]
fn a_file_somebody_else_wrote_is_not_taken_over() {
    let owned = format!("{OWNED_HEADER}\nnameserver 127.0.0.1\n");
    assert!(is_managed(Some(&owned)));
    assert!(!is_managed(Some("nameserver 1.1.1.1\n")));
    assert!(!is_managed(None));

    assert_eq!(
        write_refusal("/etc/resolver/test", &owned, true, false),
        Some(
            "/etc/resolver/test already exists and was not written by pitchfork, so it was left alone. Move it aside if it is no longer needed, or choose a different proxy.tld."
                .to_string()
        )
    );
    assert_eq!(write_refusal("/etc/resolver/test", &owned, true, true), None);
    assert_eq!(write_refusal("/etc/resolver/test", &owned, false, false), None);
    assert_eq!(write_refusal("/etc/pf.anchors/x", "rdr pass", true, false), None);
}

#[test]
fn an_anchor_still_referenced_is_left_in_place() {
    let conf = "# pitchfork-start\nload anchor\n# pitchfork-end\n";
    assert_eq!(
        removal_refusal("/etc/pf.anchors/pitchfork", "/etc/pf.conf", Referrer::Read(conf.to_string())),
        Some("/etc/pf.conf still names /etc/pf.anchors/pitchfork, so /etc/pf.anchors/pitchfork was left in place".to_string())
    );
    assert_eq!(
        removal_refusal("/a", "/etc/pf.conf", Referrer::Unreadable("permission denied".to_string())),
        Some("/etc/pf.conf could not be read (permission denied), so /a was left in place".to_string())
    );
    assert_eq!(removal_refusal("/a", "/etc/pf.conf", Referrer::Absent), None);
    assert_eq!(removal_refusal("/a", "/etc/pf.conf", Referrer::Read("pass all\n".to_string())), None);
}

#[test]
fn a_block_naming_a_file_that_is_not_ours_is_not_written() {
    assert_eq!(
        block_refusal("/etc/pf.conf", Some("/etc/pf.anchors/pitchfork"), false, true),
        Some("/etc/pf.anchors/pitchfork was not written by pitchfork, so the block naming it was not written to /etc/pf.conf".to_string())
    );
    assert_eq!(
        block_refusal("/etc/pf.conf", Some("/etc/pf.anchors/pitchfork"), false, false),
        Some("/etc/pf.anchors/pitchfork does not exist, so the block naming it was not written to /etc/pf.conf".to_string())
    );
    assert_eq!(block_refusal("/etc/pf.conf", Some("/a"), true, true), None);
    assert_eq!(block_refusal("/etc/pf.conf", None, false, false), None);
}

#[test]
fn blocks_are_spliced_in_and_out() {
    let with = with_block("a\n", "x", false);
    assert!(with.contains("x"));
    let without = without_our_block(&with);
    assert!(!without.contains("x"));
}

#[test]
fn the_report_counts_every_step() {
    let mut r = RunReport::new();
    r.skip();
    r.record("write resolver", Ok(()));
    r.record("trust CA", Err("denied".to_string()));
    assert_eq!(r.skipped, 1);
    assert_eq!(r.applied, 1);
    assert_eq!(r.failed, vec![("trust CA".to_string(), "denied".to_string())]);
}
