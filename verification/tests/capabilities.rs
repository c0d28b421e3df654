//! Revoking the bind capability from a binary.
use pitchfork_proxy::setup::caps::{join_strings, revoke_decision, Revoke};

fn caps(names: &[&str]) -> Vec<String> {
    names.iter().map(|n| n.to_string()).collect()
}

#[test]
fn a_binary_holding_only_our_capability_is_cleared() {
    let c = caps(&["cap_net_bind_service"]);
    assert_eq!(
        revoke_decision("/usr/local/bin/pitchfork", Some(&c)),
        Revoke::Run(caps(&["setcap", "-r", "/usr/local/bin/pitchfork"]))
    );
}

#[test]
fn a_binary_without_our_capability_needs_nothing() {
    assert_eq!(revoke_decision("/bin/p", Some(&[])), Revoke::Done);
    let c = caps(&["cap_chown"]);
    assert_eq!(revoke_decision("/bin/p", Some(&c)), Revoke::Done);
}

#[test]
fn capabilities_granted_by_somebody_else_are_not_cleared_with_ours() {
    let c = caps(&["cap_chown", "cap_net_bind_service", "cap_kill"]);
    assert_eq!(
        revoke_decision("/bin/p", Some(&c)),
        Revoke::Refuse(
            "/bin/p also carries cap_chown, cap_kill, which pitchfork did not grant. \
             Removing cap_net_bind_service here would clear those too, so it has been left alone.\n\
             Remove it by hand with: sudo setcap cap_chown,cap_kill=ep /bin/p"
                .to_string()
        )
    );
}

#[test]
fn unreadable_capabilities_are_never_reported_as_revoked() {
    assert_eq!(
        revoke_decision("/bin/p", None),
        Revoke::Refuse(
            "Could not read the capabilities on /bin/p \u{2014} `getcap` was not found or failed, \
             so cap_net_bind_service was left in place.\n\
             Check with: sudo getcap /bin/p\n\
             Remove with: sudo setcap -r /bin/p"
                .to_string()
        )
    );
}

#[test]
fn joining_puts_the_separator_only_between_items() {
    assert_eq!(join_strings(&caps(&[]), ", "), "");
    assert_eq!(join_strings(&caps(&["a"]), ", "), "a");
    assert_eq!(join_strings(&caps(&["a", "b", "c"]), ","), "a,b,c");
}
