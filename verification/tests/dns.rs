//! The loopback DNS responder's answers.
use pitchfork_proxy::dns::{
    config_from_settings, dns_port, handle_query, header_only, parse_question, truncate_for_udp, BindAddress,
    ResolverConfig, CLASS_IN, DEFAULT_DNS_PORT, FLAG_AA, FLAG_QR, FLAG_RD, FLAG_TC, MAX_TCP_CONNECTIONS,
    RCODE_FORMERR, RCODE_NOERROR, RCODE_NOTIMP, RCODE_REFUSED, TYPE_A, TYPE_AAAA,
};
use pitchfork_proxy::dns::{tcp_frame, tcp_message_len};
use pitchfork_proxy::settings::Settings;

const V6_LOOPBACK: [u8; 16] = [0, 0, 0, 0, 0, 0, 0, 0, 0, 0, 0, 0, 0, 0, 0, 1];
const V6_ANY: [u8; 16] = [0; 16];

/// Encode a query for `name` of type `qtype`.
fn query(id: u16, name: &str, qtype: u16) -> Vec<u8> {
    let mut out = Vec::new();
    out.extend_from_slice(&id.to_be_bytes());
    out.extend_from_slice(&FLAG_RD.to_be_bytes());
    out.extend_from_slice(&1u16.to_be_bytes());
    out.extend_from_slice(&0u16.to_be_bytes());
    out.extend_from_slice(&0u16.to_be_bytes());
    out.extend_from_slice(&0u16.to_be_bytes());
    for label in name.split('.') {
        out.push(label.len() as u8);
        out.extend_from_slice(label.as_bytes());
    }
    out.push(0);
    out.extend_from_slice(&qtype.to_be_bytes());
    out.extend_from_slice(&CLASS_IN.to_be_bytes());
    out
}

fn rcode(resp: &[u8]) -> u16 {
    u16::from_be_bytes([resp[2], resp[3]]) & 0x000F
}

fn ancount(resp: &[u8]) -> u16 {
    u16::from_be_bytes([resp[6], resp[7]])
}

/// The RDATA of the single answer record.
fn rdata(resp: &[u8]) -> Vec<u8> {
    let q = parse_question(resp).expect("response echoes the question");
    let rdlen = usize::from(u16::from_be_bytes([resp[q.end + 10], resp[q.end + 11]]));
    resp[q.end + 12..q.end + 12 + rdlen].to_vec()
}

/// A dual-stack loopback config, as a proxy bound to `::` would serve.
fn cfg() -> ResolverConfig {
    ResolverConfig::for_bind("localhost", BindAddress::V6(V6_ANY))
}

#[test]
fn a_query_under_tld_answers_loopback() {
    let resp = handle_query(&query(0x1234, "myapp.localhost", TYPE_A), &cfg()).unwrap();
    assert_eq!(&resp[0..2], &0x1234u16.to_be_bytes());
    assert_eq!(rcode(&resp), RCODE_NOERROR);
    assert_eq!(ancount(&resp), 1);
    assert_eq!(rdata(&resp), vec![127, 0, 0, 1]);
    let flags = u16::from_be_bytes([resp[2], resp[3]]);
    assert_eq!(flags & FLAG_QR, FLAG_QR);
    assert_eq!(flags & FLAG_AA, FLAG_AA);
    assert_eq!(flags & FLAG_RD, FLAG_RD);
}

#[test]
fn a_query_answers_multi_level_names() {
    let resp = handle_query(&query(1, "core.fix-refs.entiredb.localhost", TYPE_A), &cfg()).unwrap();
    assert_eq!(rcode(&resp), RCODE_NOERROR);
    assert_eq!(rdata(&resp), vec![127, 0, 0, 1]);
}

#[test]
fn tld_apex_resolves() {
    let resp = handle_query(&query(1, "localhost", TYPE_A), &cfg()).unwrap();
    assert_eq!(rcode(&resp), RCODE_NOERROR);
    assert_eq!(ancount(&resp), 1);
}

#[test]
fn matching_is_case_insensitive() {
    let resp = handle_query(&query(1, "MyApp.LOCALHOST", TYPE_A), &cfg()).unwrap();
    assert_eq!(rcode(&resp), RCODE_NOERROR);
    assert_eq!(ancount(&resp), 1);
}

#[test]
fn aaaa_query_answers_ipv6_loopback() {
    let resp = handle_query(&query(1, "myapp.localhost", TYPE_AAAA), &cfg()).unwrap();
    assert_eq!(rcode(&resp), RCODE_NOERROR);
    assert_eq!(ancount(&resp), 1);
    assert_eq!(rdata(&resp), V6_LOOPBACK.to_vec());
}

#[test]
fn lan_mode_answers_lan_ip_and_nodata_for_aaaa() {
    let cfg = ResolverConfig::lan("local", [192, 168, 1, 42]);
    let a = handle_query(&query(1, "myapp.local", TYPE_A), &cfg).unwrap();
    assert_eq!(rdata(&a), vec![192, 168, 1, 42]);

    let aaaa = handle_query(&query(1, "myapp.local", TYPE_AAAA), &cfg).unwrap();
    assert_eq!(rcode(&aaaa), RCODE_NOERROR);
    assert_eq!(ancount(&aaaa), 0);
}

#[test]
fn name_outside_tld_is_refused_not_nxdomain() {
    let resp = handle_query(&query(1, "example.com", TYPE_A), &cfg()).unwrap();
    assert_eq!(rcode(&resp), RCODE_REFUSED);
    assert_eq!(ancount(&resp), 0);
    assert_eq!(u16::from_be_bytes([resp[2], resp[3]]) & FLAG_AA, 0);
}

#[test]
fn tld_suffix_without_label_boundary_is_refused() {
    let resp = handle_query(&query(1, "notlocalhost", TYPE_A), &cfg()).unwrap();
    assert_eq!(rcode(&resp), RCODE_REFUSED);
}

#[test]
fn lan_mode_serves_ipv4_whatever_proxy_host_says() {
    let cfg = ResolverConfig::lan("local", [192, 168, 1, 42]);
    assert_eq!(cfg.ipv4, Some([192, 168, 1, 42]));
    assert_eq!(cfg.ipv6, None);
    let fallback = ResolverConfig::loopback("local");
    assert_eq!(fallback.ipv4, Some([127, 0, 0, 1]));
    assert_eq!(fallback.ipv6, None);
}

#[test]
fn answers_name_only_addresses_the_proxy_listens_on() {
    let v6 = ResolverConfig::for_bind("test", BindAddress::V6(V6_LOOPBACK));
    assert_eq!(v6.ipv4, None);
    assert_eq!(v6.ipv6, Some(V6_LOOPBACK));
    let a = handle_query(&query(1, "x.test", TYPE_A), &v6).unwrap();
    assert_eq!(rcode(&a), RCODE_NOERROR);
    assert_eq!(ancount(&a), 0);
    let aaaa = handle_query(&query(1, "x.test", TYPE_AAAA), &v6).unwrap();
    assert_eq!(rdata(&aaaa), V6_LOOPBACK.to_vec());

    let specific_v4 = ResolverConfig::for_bind("test", BindAddress::V4([192, 168, 1, 5]));
    assert_eq!(specific_v4.ipv4, Some([192, 168, 1, 5]));
    assert_eq!(specific_v4.ipv6, None);
    // fd00::1
    let fd00_1 = [0xfd, 0, 0, 0, 0, 0, 0, 0, 0, 0, 0, 0, 0, 0, 0, 1];
    let specific_v6 = ResolverConfig::for_bind("test", BindAddress::V6(fd00_1));
    assert_eq!(specific_v6.ipv4, None);
    assert_eq!(specific_v6.ipv6, Some(fd00_1));

    let any_v4 = ResolverConfig::for_bind("test", BindAddress::V4([0, 0, 0, 0]));
    assert_eq!(any_v4.ipv4, Some([127, 0, 0, 1]));
    assert_eq!(any_v4.ipv6, None);
    let any_v6 = ResolverConfig::for_bind("test", BindAddress::V6(V6_ANY));
    assert_eq!(any_v6.ipv4, Some([127, 0, 0, 1]));
    assert_eq!(any_v6.ipv6, Some(V6_LOOPBACK));
}

#[test]
fn aaaa_is_nodata_unless_the_proxy_listens_on_ipv6() {
    let v4_only = ResolverConfig::loopback("localhost");
    let resp = handle_query(&query(1, "myapp.localhost", TYPE_AAAA), &v4_only).unwrap();
    assert_eq!(rcode(&resp), RCODE_NOERROR);
    assert_eq!(ancount(&resp), 0);
    let a = handle_query(&query(1, "myapp.localhost", TYPE_A), &v4_only).unwrap();
    assert_eq!(ancount(&a), 1);
}

#[test]
fn unsupported_record_type_under_tld_is_nodata() {
    const TYPE_MX: u16 = 15;
    let resp = handle_query(&query(1, "myapp.localhost", TYPE_MX), &cfg()).unwrap();
    assert_eq!(rcode(&resp), RCODE_NOERROR);
    assert_eq!(ancount(&resp), 0);
}

#[test]
fn non_internet_class_is_refused() {
    let mut q = query(1, "myapp.localhost", TYPE_A);
    let len = q.len();
    q[len - 2..].copy_from_slice(&3u16.to_be_bytes());
    let resp = handle_query(&q, &cfg()).unwrap();
    assert_eq!(rcode(&resp), RCODE_REFUSED);
}

#[test]
fn malformed_and_unsupported_messages() {
    assert!(handle_query(&[0u8; 4], &cfg()).is_none());
    let mut resp_msg = query(1, "myapp.localhost", TYPE_A);
    resp_msg[2] |= 0x80;
    assert!(handle_query(&resp_msg, &cfg()).is_none());
    let q = query(1, "myapp.localhost", TYPE_A);
    let resp = handle_query(&q[..16], &cfg()).unwrap();
    assert_eq!(rcode(&resp), RCODE_FORMERR);
    let mut upd = query(1, "myapp.localhost", TYPE_A);
    upd[2] |= 5 << 3;
    let resp = handle_query(&upd, &cfg()).unwrap();
    assert_eq!(rcode(&resp), RCODE_NOTIMP);
}

#[test]
fn compression_pointer_in_question_is_rejected() {
    let mut q = query(1, "myapp.localhost", TYPE_A);
    q[12] = 0xC0;
    let resp = handle_query(&q, &cfg()).unwrap();
    assert_eq!(rcode(&resp), RCODE_FORMERR);
}

#[test]
fn the_tcp_connection_cap_is_bounded() {
    assert!((8..=1024).contains(&MAX_TCP_CONNECTIONS));
}

// ─── beyond the original's cases ────────────────────────────────────────────

#[test]
fn a_reply_copies_the_question_and_appends_one_record() {
    let q = query(7, "a.localhost", TYPE_A);
    let resp = handle_query(&q, &cfg()).unwrap();
    assert_eq!(&resp[12..q.len()], &q[12..]);
    // Pointer to the name, type, class, TTL 60, length 4, address.
    assert_eq!(
        &resp[q.len()..],
        &[0xC0, 0x0C, 0, 1, 0, 1, 0, 0, 0, 60, 0, 4, 127, 0, 0, 1]
    );
}

#[test]
fn a_question_naming_more_than_255_bytes_is_malformed() {
    let long = vec!["a".repeat(63); 4].join(".");
    assert_eq!(long.len(), 255);
    assert_eq!(parse_question(&query(1, &long, TYPE_A)).unwrap().name, long);
    let longer = format!("b.{long}");
    assert!(parse_question(&query(1, &longer, TYPE_A)).is_none());
    let resp = handle_query(&query(1, &longer, TYPE_A), &cfg()).unwrap();
    assert_eq!(rcode(&resp), RCODE_FORMERR);
}

#[test]
fn two_questions_are_malformed() {
    let mut q = query(1, "a.localhost", TYPE_A);
    q[5] = 2;
    assert_eq!(rcode(&handle_query(&q, &cfg()).unwrap()), RCODE_FORMERR);
}

#[test]
fn header_only_replies_carry_no_sections() {
    assert_eq!(header_only(0xABCD, FLAG_QR, RCODE_REFUSED), vec![0xAB, 0xCD, 0x80, 5, 0, 0, 0, 0, 0, 0, 0, 0]);
}

#[test]
fn an_oversized_udp_reply_is_truncated_with_tc_set() {
    let small = vec![1u8; 100];
    assert_eq!(truncate_for_udp(small.clone()), small);
    let mut big = vec![0u8; 600];
    big[2] = 0x84;
    big[6] = 0;
    big[7] = 1;
    let cut = truncate_for_udp(big);
    assert_eq!(cut.len(), 512);
    assert_eq!(u16::from_be_bytes([cut[2], cut[3]]) & FLAG_TC, FLAG_TC);
    assert_eq!(cut[2], 0x86);
    assert_eq!(u16::from_be_bytes([cut[6], cut[7]]), 0);
}

#[test]
fn the_resolver_port_falls_back_when_out_of_range() {
    let mut s = Settings::default();
    assert_eq!(dns_port(&s), 15353);
    s.proxy.dns_port = 5300;
    assert_eq!(dns_port(&s), 5300);
    s.proxy.dns_port = 0;
    assert_eq!(dns_port(&s), DEFAULT_DNS_PORT);
    s.proxy.dns_port = 70000;
    assert_eq!(dns_port(&s), DEFAULT_DNS_PORT);
}

#[test]
fn resolver_config_follows_lan_mode_and_the_bind_address() {
    let mut s = Settings::default();
    let c = config_from_settings(&s, None, BindAddress::V4([127, 0, 0, 1]));
    assert_eq!((c.tld.as_str(), c.ipv4, c.ipv6), ("localhost", Some([127, 0, 0, 1]), None));
    s.proxy.lan = true;
    let c = config_from_settings(&s, Some([10, 0, 0, 2]), BindAddress::V6(V6_ANY));
    assert_eq!((c.ipv4, c.ipv6), (Some([10, 0, 0, 2]), None));
    let c = config_from_settings(&s, None, BindAddress::V6(V6_ANY));
    assert_eq!((c.ipv4, c.ipv6), (Some([127, 0, 0, 1]), None));
}

#[test]
fn a_tcp_length_prefix_is_read_big_endian_and_zero_closes() {
    assert_eq!(tcp_message_len(0, 0), None);
    assert_eq!(tcp_message_len(0, 29), Some(29));
    assert_eq!(tcp_message_len(1, 0), Some(256));
    assert_eq!(tcp_message_len(0xff, 0xff), Some(65535));
}

#[test]
fn a_reply_is_framed_with_its_length_or_not_at_all() {
    assert_eq!(tcp_frame(&[7, 8, 9]), Some(vec![0, 3, 7, 8, 9]));
    let long = vec![0u8; 300];
    let framed = tcp_frame(&long).unwrap();
    assert_eq!(&framed[..2], &[1, 44]);
    assert_eq!(tcp_message_len(framed[0], framed[1]), Some(300));
    assert_eq!(framed.len(), 302);
    assert_eq!(tcp_frame(&vec![0u8; 65535]).map(|f| f.len()), Some(65537));
    assert_eq!(tcp_frame(&vec![0u8; 65536]), None);
}
