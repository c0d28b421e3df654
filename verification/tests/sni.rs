//! ClientHello parsing.
use pitchfork_proxy::sni::{
    parse_sni, SniPeek, CONTENT_TYPE_HANDSHAKE, EXTENSION_SERVER_NAME, HANDSHAKE_TYPE_CLIENT_HELLO,
    NAME_TYPE_HOST_NAME,
};


/// Build a `server_name` extension body for one host name.
fn server_name_ext(host: &str) -> Vec<u8> {
    let mut entry = vec![NAME_TYPE_HOST_NAME];
    entry.extend_from_slice(&(host.len() as u16).to_be_bytes());
    entry.extend_from_slice(host.as_bytes());

    let mut body = (entry.len() as u16).to_be_bytes().to_vec();
    body.extend_from_slice(&entry);
    body
}

/// Wrap an extension body with its type and length.
fn extension(ext_type: u16, body: &[u8]) -> Vec<u8> {
    let mut out = ext_type.to_be_bytes().to_vec();
    out.extend_from_slice(&(body.len() as u16).to_be_bytes());
    out.extend_from_slice(body);
    out
}

/// A ClientHello handshake message carrying `extensions`.
fn client_hello(extensions: Vec<Vec<u8>>) -> Vec<u8> {
    let mut body = Vec::new();
    body.extend_from_slice(&[0x03, 0x03]); // client_version TLS 1.2
    body.extend_from_slice(&[0x11; 32]); // random
    body.push(0); // empty legacy_session_id
    body.extend_from_slice(&[0x00, 0x02, 0x13, 0x01]); // one cipher suite
    body.extend_from_slice(&[0x01, 0x00]); // compression: null

    let ext_bytes: Vec<u8> = extensions.concat();
    body.extend_from_slice(&(ext_bytes.len() as u16).to_be_bytes());
    body.extend_from_slice(&ext_bytes);

    let mut msg = vec![HANDSHAKE_TYPE_CLIENT_HELLO];
    let len = body.len() as u32;
    msg.extend_from_slice(&[(len >> 16) as u8, (len >> 8) as u8, len as u8]);
    msg.extend_from_slice(&body);
    msg
}

/// Wrap handshake bytes in a single TLS record.
fn record(payload: &[u8]) -> Vec<u8> {
    let mut out = vec![CONTENT_TYPE_HANDSHAKE, 0x03, 0x01];
    out.extend_from_slice(&(payload.len() as u16).to_be_bytes());
    out.extend_from_slice(payload);
    out
}

/// Split handshake bytes across several records of `chunk` bytes each, the
/// shape a fragmenting client produces.
fn records_of(payload: &[u8], chunk: usize) -> Vec<u8> {
    payload.chunks(chunk).flat_map(record).collect()
}

#[test]
fn test_parse_sni_finds_hostname() {
    let hello = client_hello(vec![extension(
        EXTENSION_SERVER_NAME,
        &server_name_ext("api.localhost"),
    )]);
    assert_eq!(
        parse_sni(&record(&hello)),
        SniPeek::Found("api.localhost".to_string())
    );
}

#[test]
fn test_parse_sni_lowercases_and_strips_root_dot() {
    // Host names are case-insensitive, and a trailing dot names the same
    // host, so both spellings must resolve to one routing key.
    let hello = client_hello(vec![extension(
        EXTENSION_SERVER_NAME,
        &server_name_ext("API.LocalHost."),
    )]);
    assert_eq!(
        parse_sni(&record(&hello)),
        SniPeek::Found("api.localhost".to_string())
    );
}

#[test]
fn test_parse_sni_skips_other_extensions() {
    let hello = client_hello(vec![
        extension(0x002b, &[0x02, 0x03, 0x04]), // supported_versions
        extension(EXTENSION_SERVER_NAME, &server_name_ext("app.localhost")),
        extension(0x0010, &[0x00, 0x03, 0x02, b'h', b'2']), // ALPN
    ]);
    assert_eq!(
        parse_sni(&record(&hello)),
        SniPeek::Found("app.localhost".to_string())
    );
}

#[test]
fn test_parse_sni_absent_without_extension() {
    // A client connecting by IP address sends no server_name extension.
    let hello = client_hello(vec![extension(0x002b, &[0x02, 0x03, 0x04])]);
    assert_eq!(parse_sni(&record(&hello)), SniPeek::Absent);
}

#[test]
fn test_parse_sni_absent_with_empty_extension_list() {
    let hello = client_hello(vec![]);
    assert_eq!(parse_sni(&record(&hello)), SniPeek::Absent);
}

#[test]
fn test_parse_sni_absent_when_extensions_omitted_entirely() {
    // An SSLv3-era hello ends after the compression list.
    let full = client_hello(vec![]);
    // Drop the 2-byte extensions length and the (empty) extension block.
    let mut body = full[4..].to_vec();
    body.truncate(body.len() - 2);
    let mut msg = vec![HANDSHAKE_TYPE_CLIENT_HELLO];
    let len = body.len() as u32;
    msg.extend_from_slice(&[(len >> 16) as u8, (len >> 8) as u8, len as u8]);
    msg.extend_from_slice(&body);
    assert_eq!(parse_sni(&record(&msg)), SniPeek::Absent);
}

#[test]
fn test_parse_sni_across_fragmented_records() {
    // A ClientHello split over several records still yields its hostname
    // once every fragment has arrived.
    let hello = client_hello(vec![extension(
        EXTENSION_SERVER_NAME,
        &server_name_ext("split.localhost"),
    )]);
    for chunk in [1usize, 5, 17, 64] {
        assert_eq!(
            parse_sni(&records_of(&hello, chunk)),
            SniPeek::Found("split.localhost".to_string()),
            "fragmented into {chunk}-byte records"
        );
    }
}

#[test]
fn test_parse_sni_incomplete_prefixes_of_a_fragmented_hello() {
    // Every strict prefix of a fragmented ClientHello is incomplete: the
    // caller must wait rather than route on a half-read hello.
    let hello = client_hello(vec![extension(
        EXTENSION_SERVER_NAME,
        &server_name_ext("split.localhost"),
    )]);
    let wire = records_of(&hello, 7);
    for n in 1..wire.len() {
        assert_eq!(
            parse_sni(&wire[..n]),
            SniPeek::Incomplete,
            "prefix of {n} bytes should be incomplete"
        );
    }
    assert_eq!(
        parse_sni(&wire),
        SniPeek::Found("split.localhost".to_string())
    );
}

#[test]
fn test_parse_sni_incomplete_on_truncated_record() {
    let hello = client_hello(vec![extension(
        EXTENSION_SERVER_NAME,
        &server_name_ext("api.localhost"),
    )]);
    let wire = record(&hello);
    assert_eq!(parse_sni(&wire[..wire.len() - 10]), SniPeek::Incomplete);
    assert_eq!(parse_sni(&[]), SniPeek::Incomplete);
    assert_eq!(parse_sni(&[CONTENT_TYPE_HANDSHAKE]), SniPeek::Incomplete);
}

/// A TLS 1.3 client may send a compatibility ChangeCipherSpec, or early
/// data, right behind its hello. The hostname must still be found, or the
/// connection would be terminated with the proxy's certificate instead of
/// spliced to the daemon.
#[test]
fn test_parse_sni_finds_hostname_before_a_non_handshake_record() {
    let hello = client_hello(vec![extension(
        EXTENSION_SERVER_NAME,
        &server_name_ext("api.localhost"),
    )]);

    // ClientHello followed by a dummy ChangeCipherSpec record.
    let mut wire = record(&hello);
    wire.extend_from_slice(&[0x14, 0x03, 0x03, 0x00, 0x01, 0x01]);
    assert_eq!(
        parse_sni(&wire),
        SniPeek::Found("api.localhost".to_string())
    );

    // …and then application data, as an 0-RTT client sends.
    wire.extend_from_slice(&[0x17, 0x03, 0x03, 0x00, 0x03, 0xaa, 0xbb, 0xcc]);
    assert_eq!(
        parse_sni(&wire),
        SniPeek::Found("api.localhost".to_string())
    );

    // A fragmented hello followed by the same trailing record.
    let mut fragmented = records_of(&hello, 9);
    fragmented.extend_from_slice(&[0x14, 0x03, 0x03, 0x00, 0x01, 0x01]);
    assert_eq!(
        parse_sni(&fragmented),
        SniPeek::Found("api.localhost".to_string())
    );
}

/// A truncated record header behind a complete hello is not a reason to
/// keep waiting: the hostname is already known.
#[test]
fn test_parse_sni_ignores_a_partial_trailing_record_header() {
    let hello = client_hello(vec![extension(
        EXTENSION_SERVER_NAME,
        &server_name_ext("api.localhost"),
    )]);
    let mut wire = record(&hello);
    wire.extend_from_slice(&[0x14, 0x03]);
    assert_eq!(
        parse_sni(&wire),
        SniPeek::Found("api.localhost".to_string())
    );
}

#[test]
fn test_parse_sni_rejects_non_tls() {
    // A plain HTTP request on the TLS port, and an alert record, are both
    // ruled out immediately rather than waited on.
    assert_eq!(parse_sni(b"GET / HTTP/1.1\r\n"), SniPeek::NotTls);
    assert_eq!(
        parse_sni(&[0x15, 0x03, 0x01, 0x00, 0x02, 0x01, 0x00]),
        SniPeek::NotTls
    );
    assert_eq!(parse_sni(b"G"), SniPeek::NotTls);
}

#[test]
fn test_parse_sni_rejects_non_client_hello_handshake() {
    // A ServerHello (type 2) is not a routable client connection.
    let mut msg = vec![0x02, 0x00, 0x00, 0x02, 0x03, 0x03];
    msg = record(&msg);
    assert_eq!(parse_sni(&msg), SniPeek::NotTls);
}

#[test]
fn test_parse_sni_absent_for_non_ascii_hostname() {
    // Internationalized names travel A-label encoded; raw UTF-8 is not a
    // routable host name.
    let hello = client_hello(vec![extension(
        EXTENSION_SERVER_NAME,
        &server_name_ext("café.localhost"),
    )]);
    assert_eq!(parse_sni(&record(&hello)), SniPeek::Absent);
}

#[test]
fn test_parse_sni_absent_for_empty_hostname() {
    let hello = client_hello(vec![extension(EXTENSION_SERVER_NAME, &server_name_ext(""))]);
    assert_eq!(parse_sni(&record(&hello)), SniPeek::Absent);
}

#[test]
fn test_parse_sni_absent_for_a_root_dot_hostname() {
    for host in [".", ".."] {
        let hello = client_hello(vec![extension(EXTENSION_SERVER_NAME, &server_name_ext(host))]);
        assert_eq!(parse_sni(&record(&hello)), SniPeek::Absent);
    }
}

#[test]
fn test_parse_sni_skips_unknown_name_types() {
    // An entry with an unknown NameType is skipped, and a following
    // host_name entry still resolves.
    let mut entries = vec![0x7f, 0x00, 0x02, 0xaa, 0xbb];
    let host = "second.localhost";
    entries.push(NAME_TYPE_HOST_NAME);
    entries.extend_from_slice(&(host.len() as u16).to_be_bytes());
    entries.extend_from_slice(host.as_bytes());
    let mut body = (entries.len() as u16).to_be_bytes().to_vec();
    body.extend_from_slice(&entries);

    let hello = client_hello(vec![extension(EXTENSION_SERVER_NAME, &body)]);
    assert_eq!(
        parse_sni(&record(&hello)),
        SniPeek::Found("second.localhost".to_string())
    );
}

#[test]
fn test_parse_sni_does_not_panic_on_arbitrary_bytes() {
    // Length fields are attacker-controlled; every path must return a
    // verdict rather than index out of bounds.
    let hello = client_hello(vec![extension(
        EXTENSION_SERVER_NAME,
        &server_name_ext("api.localhost"),
    )]);
    let wire = record(&hello);
    for i in 0..wire.len() {
        for corruption in [0x00u8, 0xff, 0x7f] {
            let mut bad = wire.clone();
            bad[i] = corruption;
            let _ = parse_sni(&bad);
        }
    }
}
