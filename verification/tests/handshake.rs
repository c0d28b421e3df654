//! The decisions of the SNI peek loop.
use pitchfork_proxy::routing::handshake::{
    next_pause, peek_step, PeekStep, SniProbe, PEEK_MAX_PAUSE_MS, PEEK_MIN_PAUSE_MS, SNI_PEEK_MAX_BYTES,
    SNI_PEEK_START_BYTES,
};

/// A ClientHello on the wire, in one record, naming `host`.
fn client_hello_wire(host: &str) -> Vec<u8> {
    let mut entry = vec![0u8];
    entry.extend_from_slice(&(host.len() as u16).to_be_bytes());
    entry.extend_from_slice(host.as_bytes());
    let mut sni = (entry.len() as u16).to_be_bytes().to_vec();
    sni.extend_from_slice(&entry);

    let mut ext = vec![0x00, 0x00];
    ext.extend_from_slice(&(sni.len() as u16).to_be_bytes());
    ext.extend_from_slice(&sni);

    let mut body = vec![0x03, 0x03];
    body.extend_from_slice(&[0x22; 32]);
    body.push(0);
    body.extend_from_slice(&[0x00, 0x02, 0x13, 0x01]);
    body.extend_from_slice(&[0x01, 0x00]);
    body.extend_from_slice(&(ext.len() as u16).to_be_bytes());
    body.extend_from_slice(&ext);

    let mut msg = vec![0x01];
    let len = body.len() as u32;
    msg.extend_from_slice(&[(len >> 16) as u8, (len >> 8) as u8, len as u8]);
    msg.extend_from_slice(&body);

    let mut record = vec![0x16, 0x03, 0x01];
    record.extend_from_slice(&(msg.len() as u16).to_be_bytes());
    record.extend_from_slice(&msg);
    record
}

#[test]
fn a_complete_hello_settles_on_its_host() {
    let wire = client_hello_wire("api.localhost");
    assert_eq!(
        peek_step(&wire, SNI_PEEK_START_BYTES, false),
        PeekStep::Settled(SniProbe::Host("api.localhost".to_string()))
    );
}

#[test]
fn a_hello_arriving_in_pieces_is_waited_for_then_read() {
    let wire = client_hello_wire("api.localhost");
    let mut last = None;
    for end in (3..wire.len()).step_by(3) {
        let step = peek_step(&wire[..end], SNI_PEEK_START_BYTES, false);
        assert_eq!(step, PeekStep::Wait, "after {end} bytes");
        last = Some(step);
    }
    assert!(last.is_some());
    assert_eq!(
        peek_step(&wire, SNI_PEEK_START_BYTES, false),
        PeekStep::Settled(SniProbe::Host("api.localhost".to_string()))
    );
}

#[test]
fn a_stalled_hello_is_undetermined_at_the_deadline_never_no_host() {
    let wire = client_hello_wire("api.localhost");
    let half = &wire[..wire.len() / 2];
    assert_eq!(peek_step(half, SNI_PEEK_START_BYTES, false), PeekStep::Wait);
    assert_eq!(peek_step(half, SNI_PEEK_START_BYTES, true), PeekStep::Settled(SniProbe::Undetermined));
}

#[test]
fn a_peer_that_hung_up_silently_names_no_host() {
    assert_eq!(peek_step(&[], SNI_PEEK_START_BYTES, false), PeekStep::Settled(SniProbe::NoHost));
}

#[test]
fn bytes_that_are_not_tls_name_no_host() {
    assert_eq!(
        peek_step(b"GET / HTTP/1.1\r\n\r\n", SNI_PEEK_START_BYTES, false),
        PeekStep::Settled(SniProbe::NoHost)
    );
}

#[test]
fn a_full_window_is_widened_up_to_the_cap() {
    // A record header promising more than the window holds.
    let mut big = vec![0x16, 0x03, 0x01, 0x3f, 0xff, 0x01];
    big.resize(SNI_PEEK_START_BYTES, 0);
    assert_eq!(peek_step(&big, SNI_PEEK_START_BYTES, false), PeekStep::Widen(2 * SNI_PEEK_START_BYTES));
    big.resize(SNI_PEEK_MAX_BYTES / 2 + 10, 0);
    assert_eq!(peek_step(&big, SNI_PEEK_MAX_BYTES / 2 + 10, false), PeekStep::Widen(SNI_PEEK_MAX_BYTES));
    big.resize(SNI_PEEK_MAX_BYTES, 0);
    assert_eq!(peek_step(&big, SNI_PEEK_MAX_BYTES, false), PeekStep::Settled(SniProbe::Undetermined));
}

#[test]
fn the_pause_backs_off_while_stalled_and_resets_on_progress() {
    assert_eq!(next_pause(PEEK_MIN_PAUSE_MS, 10, 10), 20);
    assert_eq!(next_pause(160, 10, 10), PEEK_MAX_PAUSE_MS);
    assert_eq!(next_pause(PEEK_MAX_PAUSE_MS, 10, 10), PEEK_MAX_PAUSE_MS);
    assert_eq!(next_pause(PEEK_MAX_PAUSE_MS, 11, 10), PEEK_MIN_PAUSE_MS);
}
