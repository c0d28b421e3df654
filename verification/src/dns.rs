//! The loopback DNS responder: which port it listens on, what it answers
//! with, and the answer to one query.
//!
//! Everything under the configured TLD resolves to the proxy's address and
//! everything else is REFUSED, so the system resolver moves on to its next
//! server. The question section is parsed by hand and the answer written
//! back by hand.

use vstd::prelude::*;
use vstd::utf8::{decode_utf8, encode_scalar, encode_utf8, valid_utf8};
use crate::names::{owns_name, spec_owns_name};
use crate::settings::Settings;

verus! {

/// The port the resolver listens on when `proxy.dns_port` is unusable.
///
/// 5353 (the obvious choice) is taken by mDNSResponder on macOS.
pub const DEFAULT_DNS_PORT: u16 = 15353;

/// Maximum size of a DNS message carried over UDP without EDNS0.
pub const MAX_UDP_PAYLOAD: usize = 512;

/// Maximum size of a DNS message carried over TCP (RFC 1035 §4.2.2).
pub const MAX_TCP_MESSAGE: usize = 65535;

/// Maximum number of TCP connections served at once.
pub const MAX_TCP_CONNECTIONS: usize = 64;

/// TTL advertised on answers, in seconds: short, because a LAN address can
/// change under a client.
pub const TTL: u32 = 60;

pub const TYPE_A: u16 = 1;
pub const TYPE_AAAA: u16 = 28;
pub const CLASS_IN: u16 = 1;

pub const RCODE_NOERROR: u16 = 0;
pub const RCODE_FORMERR: u16 = 1;
pub const RCODE_NOTIMP: u16 = 4;
pub const RCODE_REFUSED: u16 = 5;

pub const FLAG_QR: u16 = 0x8000;
pub const FLAG_AA: u16 = 0x0400;
pub const FLAG_TC: u16 = 0x0200;
pub const FLAG_RD: u16 = 0x0100;

/// The resolver port `proxy.dns_port` asks for, when it is one.
pub open spec fn spec_dns_port(configured: i64) -> u16 {
    if 0 < configured <= 65535 {
        configured as u16
    } else {
        DEFAULT_DNS_PORT
    }
}

/// The port the resolver should listen on: `proxy.dns_port` when it is in
/// 1..=65535, [`DEFAULT_DNS_PORT`] otherwise.
pub fn dns_port(s: &Settings) -> (p: u16)
    ensures
        p == spec_dns_port(s.proxy.dns_port),
{
    let configured = s.proxy.dns_port;
    if 0 < configured && configured <= 65535 {
        configured as u16
    } else {
        DEFAULT_DNS_PORT
    }
}

// ─── what the responder answers with ────────────────────────────────────────

/// What the responder answers with.
#[derive(Clone, Debug, PartialEq, Eq)]
pub struct ResolverConfig {
    /// TLD the responder is authoritative for, without a leading dot.
    pub tld: String,
    /// Address returned for `A` queries, or `None` to answer NODATA.
    pub ipv4: Option<[u8; 4]>,
    /// Address returned for `AAAA` queries, or `None` to answer NODATA.
    pub ipv6: Option<[u8; 16]>,
}

/// An address the proxy binds.
#[derive(Clone, Copy, Debug, PartialEq, Eq)]
pub enum BindAddress {
    V4([u8; 4]),
    V6([u8; 16]),
}

pub open spec fn loopback_v4() -> Seq<u8> {
    seq![127u8, 0, 0, 1]
}

pub open spec fn loopback_v6() -> Seq<u8> {
    seq![0u8, 0, 0, 0, 0, 0, 0, 0, 0, 0, 0, 0, 0, 0, 0, 1]
}

/// Whether every byte of an address is zero: the wildcard address.
pub open spec fn unspecified(a: Seq<u8>) -> bool {
    forall|i: int| 0 <= i < a.len() ==> #[trigger] a[i] == 0
}

pub open spec fn opt_bytes4(o: Option<[u8; 4]>) -> Option<Seq<u8>> {
    match o {
        Some(a) => Some(a@),
        None => None,
    }
}

pub open spec fn opt_bytes16(o: Option<[u8; 16]>) -> Option<Seq<u8>> {
    match o {
        Some(a) => Some(a@),
        None => None,
    }
}

fn loopback4() -> (a: [u8; 4])
    ensures
        a@ == loopback_v4(),
{
    let a: [u8; 4] = [127, 0, 0, 1];
    assert(a@ =~= loopback_v4());
    a
}

fn loopback6() -> (a: [u8; 16])
    ensures
        a@ == loopback_v6(),
{
    let a: [u8; 16] = [0, 0, 0, 0, 0, 0, 0, 0, 0, 0, 0, 0, 0, 0, 0, 1];
    assert(a@ =~= loopback_v6());
    a
}

pub fn all_zero(a: &[u8]) -> (r: bool)
    ensures
        r == unspecified(a@),
{
    let mut i: usize = 0;
    while i < a.len()
        invariant
            i <= a@.len(),
            forall|k: int| 0 <= k < i ==> a@[k] == 0,
        decreases a.len() - i,
    {
        if a[i] != 0 {
            return false;
        }
        i += 1;
    }
    true
}

impl ResolverConfig {
    /// Loopback configuration for `tld`, IPv4 only.
    pub fn loopback(tld: &str) -> (c: ResolverConfig)
        ensures
            c.tld@ == tld@,
            opt_bytes4(c.ipv4) == Some(loopback_v4()),
            c.ipv6 is None,
    {
        ResolverConfig { tld: tld.to_owned(), ipv4: Some(loopback4()), ipv6: None }
    }

    /// LAN configuration for `tld`: the detected interface address, IPv4
    /// only.
    pub fn lan(tld: &str, ip: [u8; 4]) -> (c: ResolverConfig)
        ensures
            c.tld@ == tld@,
            c.ipv4 == Some(ip),
            c.ipv6 is None,
    {
        ResolverConfig { tld: tld.to_owned(), ipv4: Some(ip), ipv6: None }
    }

    /// Configuration for a proxy bound to `bind_ip`.
    ///
    /// The answers name addresses that reach the listener: a specific
    /// address is served for its own family and the other family gets
    /// NODATA; `0.0.0.0` becomes the IPv4 loopback; `::` becomes both
    /// loopbacks, since a wildcard IPv6 socket accepts IPv4 too on a
    /// dual-stack host.
    pub fn for_bind(tld: &str, bind_ip: BindAddress) -> (c: ResolverConfig)
        ensures
            c.tld@ == tld@,
            match bind_ip {
                BindAddress::V4(ip) => if unspecified(ip@) {
                    opt_bytes4(c.ipv4) == Some(loopback_v4()) && c.ipv6 is None
                } else {
                    c.ipv4 == Some(ip) && c.ipv6 is None
                },
                BindAddress::V6(ip) => if unspecified(ip@) {
                    opt_bytes4(c.ipv4) == Some(loopback_v4()) && opt_bytes16(c.ipv6) == Some(loopback_v6())
                } else {
                    c.ipv4 is None && c.ipv6 == Some(ip)
                },
            },
    {
        match bind_ip {
            BindAddress::V4(ip) => {
                if all_zero(&ip) {
                    ResolverConfig { tld: tld.to_owned(), ipv4: Some(loopback4()), ipv6: None }
                } else {
                    ResolverConfig { tld: tld.to_owned(), ipv4: Some(ip), ipv6: None }
                }
            },
            BindAddress::V6(ip) => {
                if all_zero(&ip) {
                    ResolverConfig { tld: tld.to_owned(), ipv4: Some(loopback4()), ipv6: Some(loopback6()) }
                } else {
                    ResolverConfig { tld: tld.to_owned(), ipv4: None, ipv6: Some(ip) }
                }
            },
        }
    }
}

// ─── the question ───────────────────────────────────────────────────────────

/// What `String::from_utf8_lossy` makes of `bytes`.
pub uninterp spec fn utf8_lossy(bytes: Seq<u8>) -> Seq<char>;

/// The text of a label, invalid UTF-8 replaced.
///
/// Calls `String::from_utf8_lossy`. Its documentation says that valid UTF-8
/// is returned as it decodes; what an invalid sequence becomes (U+FFFD in
/// its place) is left to the name.
#[verifier::external_body]
fn lossy_text(bytes: &[u8]) -> (s: String)
    ensures
        s@ == utf8_lossy(bytes@),
        valid_utf8(bytes@) ==> s@ == decode_utf8(bytes@),
{
    String::from_utf8_lossy(bytes).into_owned()
}

/// The labels of a name starting at `pos`, and where the name ends: each
/// label is a length byte and that many bytes, the name a zero byte. A
/// length byte with either of its top two bits set (a compression pointer)
/// is refused.
pub open spec fn labels_from(msg: Seq<u8>, pos: int) -> Option<(Seq<Seq<u8>>, int)>
    decreases msg.len() - pos,
{
    if pos < 0 || pos >= msg.len() {
        None
    } else {
        let len = msg[pos] as int;
        if len == 0 {
            Some((Seq::empty(), pos + 1))
        } else if len >= 64 {
            None
        } else if pos + 1 + len > msg.len() {
            None
        } else {
            match labels_from(msg, pos + 1 + len) {
                Some((rest, end)) => Some((seq![msg.subrange(pos + 1, pos + 1 + len)] + rest, end)),
                None => None,
            }
        }
    }
}

/// The labels' text, each after a dot once the name holds anything.
pub open spec fn join_names(labels: Seq<Seq<u8>>) -> Seq<char>
    decreases labels.len(),
{
    if labels.len() == 0 {
        Seq::empty()
    } else {
        let head = join_names(labels.drop_last());
        (if head.len() > 0 {
            head + seq!['.']
        } else {
            head
        }) + utf8_lossy(labels.last())
    }
}

/// A parsed question: the name, its type and class, and where the question
/// ends.
pub struct QuestionV {
    pub name: Seq<char>,
    pub qtype: u16,
    pub qclass: u16,
    pub end: int,
}

/// Two bytes, big-endian.
pub open spec fn be16(hi: u8, lo: u8) -> u16 {
    ((hi as u16) << 8u16) | (lo as u16)
}

/// The question following the 12-byte header: a name of at most 255 bytes
/// of text, then its type and class.
pub open spec fn spec_parse_question(msg: Seq<u8>) -> Option<QuestionV> {
    match labels_from(msg, 12) {
        Some((labels, p)) => if p + 4 <= msg.len() && encode_utf8(join_names(labels)).len() <= 255 {
            Some(
                QuestionV {
                    name: join_names(labels),
                    qtype: be16(msg[p], msg[p + 1]),
                    qclass: be16(msg[p + 2], msg[p + 3]),
                    end: p + 4,
                },
            )
        } else {
            None
        },
        None => None,
    }
}

/// A parsed question section.
pub struct Question {
    pub name: String,
    pub qtype: u16,
    pub qclass: u16,
    /// Offset just past the question, where the answer section starts.
    pub end: usize,
}

/// The UTF-8 length of a concatenation is the sum of the lengths.
proof fn lemma_encode_len_concat(a: Seq<char>, b: Seq<char>)
    ensures
        encode_utf8(a + b).len() == encode_utf8(a).len() + encode_utf8(b).len(),
    decreases a.len(),
{
    if a.len() > 0 {
        assert((a + b).drop_first() =~= a.drop_first() + b);
        assert((a + b)[0] == a[0]);
        lemma_encode_len_concat(a.drop_first(), b);
    } else {
        assert(a + b =~= b);
    }
}

/// Adding labels never shortens the name.
proof fn lemma_join_grows(a: Seq<Seq<u8>>, b: Seq<Seq<u8>>)
    ensures
        encode_utf8(join_names(a)).len() <= encode_utf8(join_names(a + b)).len(),
    decreases b.len(),
{
    if b.len() == 0 {
        assert(a + b =~= a);
    } else {
        lemma_join_grows(a, b.drop_last());
        let ab = a + b;
        assert(ab.drop_last() =~= a + b.drop_last());
        let head = join_names(ab.drop_last());
        lemma_encode_len_concat(head, seq!['.']);
        if head.len() > 0 {
            lemma_encode_len_concat(head + seq!['.'], utf8_lossy(ab.last()));
        } else {
            lemma_encode_len_concat(head, utf8_lossy(ab.last()));
        }
    }
}

/// The UTF-8 length of one char.
proof fn lemma_encode_one(c: char)
    ensures
        encode_utf8(seq![c]).len() == (if (c as u32) <= 0x7F {
            1int
        } else if (c as u32) <= 0x7FF {
            2int
        } else if (c as u32) <= 0xFFFF {
            3int
        } else {
            4int
        }),
{
    vstd::utf8::char_is_scalar(c);
    let one = seq![c];
    assert(one.drop_first() =~= Seq::<char>::empty());
    assert(one[0] == c);
    assert(encode_utf8(one) == encode_scalar(c as u32) + encode_utf8(one.drop_first()));
    assert(encode_utf8(Seq::<char>::empty()).len() == 0);
}

/// How many bytes of UTF-8 encode `s`, when that is at most `cap`.
fn utf8_len_at_most(s: &str, cap: usize) -> (r: Option<usize>)
    requires
        cap < usize::MAX - 4,
    ensures
        match r {
            Some(n) => n == encode_utf8(s@).len() && n <= cap,
            None => encode_utf8(s@).len() > cap,
        },
{
    let cs = crate::text::chars_of(s);
    let mut n: usize = 0;
    let mut i: usize = 0;
    while i < cs.len()
        invariant
            i <= cs@.len(),
            cs@ == s@,
            cap < usize::MAX - 4,
            n <= cap,
            n == encode_utf8(cs@.subrange(0, i as int)).len(),
        decreases cs.len() - i,
    {
        let c = cs[i];
        let v = c as u32;
        proof {
            lemma_encode_one(c);
            lemma_encode_len_concat(cs@.subrange(0, i as int), seq![c]);
            assert(cs@.subrange(0, i + 1) =~= cs@.subrange(0, i as int) + seq![c]);
        }
        let w: usize = if v <= 0x7F {
            1
        } else if v <= 0x7FF {
            2
        } else if v <= 0xFFFF {
            3
        } else {
            4
        };
        n = n + w;
        i += 1;
        if n > cap {
            proof {
                lemma_encode_len_concat(cs@.subrange(0, i as int), cs@.subrange(i as int, cs@.len() as int));
                assert(cs@.subrange(0, i as int) + cs@.subrange(i as int, cs@.len() as int) =~= s@);
            }
            return None;
        }
    }
    assert(cs@.subrange(0, i as int) =~= s@);
    Some(n)
}

/// Parse the single question following the 12-byte header.
///
/// Queries never use name compression, so pointers are rejected rather than
/// followed.
pub fn parse_question(msg: &[u8]) -> (r: Option<Question>)
    ensures
        match r {
            Some(q) => spec_parse_question(msg@) == Some(
                QuestionV { name: q.name@, qtype: q.qtype, qclass: q.qclass, end: q.end as int },
            ),
            None => spec_parse_question(msg@) is None,
        },
{
    let ghost m = msg@;
    let mut pos: usize = 12;
    let mut name = String::new();
    let mut name_len: usize = 0;
    let ghost mut acc: Seq<Seq<u8>> = Seq::empty();
    loop
        invariant_except_break
            match labels_from(m, pos as int) {
                Some((rest, end)) => labels_from(m, 12) == Some((acc + rest, end)),
                None => labels_from(m, 12) is None,
            },
        invariant
            m == msg@,
            12 <= pos,
            name@ == join_names(acc),
            name_len == encode_utf8(name@).len(),
            name_len <= 255,
        ensures
            labels_from(m, 12) == Some((acc, pos as int)),
        decreases msg.len() - pos,
    {
        if pos >= msg.len() {
            return None;
        }
        let len = msg[pos] as usize;
        if len == 0 {
            pos += 1;
            assert(acc + Seq::<Seq<u8>>::empty() =~= acc);
            break;
        }
        if len >= 64 {
            return None;
        }
        if len > msg.len() - pos - 1 {
            return None;
        }
        let start = pos + 1;
        let ghost label = m.subrange(start as int, start + len);
        proof {
            match labels_from(m, start + len) {
                Some((rest, end)) => {
                    assert(acc + (seq![label] + rest) =~= acc.push(label) + rest);
                },
                None => {},
            }
        }
        let text = lossy_text(&msg[start..start + len]);
        let ghost before = acc;
        let ghost old_name = name@;
        let dot: usize = if !name.as_str().is_empty() {
            name.append(".");
            proof { reveal_strlit("."); }
            1
        } else {
            0
        };
        proof {
            lemma_encode_len_concat(old_name, seq!['.']);
            lemma_encode_one('.');
            if dot == 1 {
                assert(name@ =~= old_name + seq!['.']);
            } else {
                assert(name@ == old_name);
            }
            assert(encode_utf8(name@).len() == name_len + dot);
        }
        let ghost with_dot = name@;
        name.append(text.as_str());
        proof {
            acc = acc.push(label);
            assert(acc.drop_last() =~= before);
            assert(name@ =~= join_names(acc));
            lemma_encode_len_concat(with_dot, text@);
            assert(encode_utf8(name@).len() == name_len + dot + encode_utf8(text@).len());
        }
        pos = start + len;
        match utf8_len_at_most(text.as_str(), 255) {
            Some(t) if name_len + dot + t <= 255 => {
                name_len = name_len + dot + t;
            },
            _ => {
                proof {
                    if let Some((rest, end)) = labels_from(m, pos as int) {
                        lemma_join_grows(acc, rest);
                    }
                }
                return None;
            },
        }
    }
    if pos > msg.len() || msg.len() - pos < 4 {
        return None;
    }
    let qtype = ((msg[pos] as u16) << 8u16) | (msg[pos + 1] as u16);
    let qclass = ((msg[pos + 2] as u16) << 8u16) | (msg[pos + 3] as u16);
    Some(Question { name, qtype, qclass, end: pos + 4 })
}

// ─── the answer ─────────────────────────────────────────────────────────────

/// Two bytes, big-endian.
pub open spec fn bytes16(x: u16) -> Seq<u8> {
    seq![(x >> 8u16) as u8, (x & 0xffu16) as u8]
}

/// Four bytes, big-endian.
pub open spec fn bytes32(x: u32) -> Seq<u8> {
    seq![(x >> 24u32) as u8, ((x >> 16u32) & 0xffu32) as u8, ((x >> 8u32) & 0xffu32) as u8, (x & 0xffu32) as u8]
}

/// A DNS header: id, flags, then the four section counts.
pub open spec fn header(id: u16, flags: u16, qdcount: u16, ancount: u16) -> Seq<u8> {
    bytes16(id) + bytes16(flags) + bytes16(qdcount) + bytes16(ancount) + bytes16(0) + bytes16(0)
}

/// A response carrying only a header.
pub open spec fn spec_header_only(id: u16, flags: u16, rcode: u16) -> Seq<u8> {
    header(id, flags | rcode, 0, 0)
}

/// The record data a query of `qtype` for an owned name gets.
pub open spec fn answer_for(qtype: u16, cfg: ResolverConfig) -> Option<Seq<u8>> {
    if qtype == TYPE_A {
        opt_bytes4(cfg.ipv4)
    } else if qtype == TYPE_AAAA {
        opt_bytes16(cfg.ipv6)
    } else {
        None
    }
}

/// The answer record: a pointer to the question's name, the type, class
/// IN, the TTL and the address.
pub open spec fn answer_record(qtype: u16, rdata: Seq<u8>) -> Seq<u8> {
    seq![0xC0u8, 0x0Cu8] + bytes16(qtype) + bytes16(CLASS_IN) + bytes32(TTL) + bytes16(rdata.len() as u16) + rdata
}

/// The reply to `query`, or `None` for a message that gets none.
///
/// Shorter than a header or itself a response: no reply. A non-standard
/// opcode: NOTIMP. Not exactly one question, or one that does not parse:
/// FORMERR. A name of class IN under the TLD: an authoritative NOERROR with
/// the configured address for its type, or none (NODATA). Anything else:
/// REFUSED, so the stub resolver asks its next server. The id, the opcode
/// and the recursion-desired bit are echoed; the question is copied as it
/// came.
pub open spec fn spec_handle_query(query: Seq<u8>, cfg: ResolverConfig) -> Option<Seq<u8>> {
    if query.len() < 12 {
        None
    } else {
        let id = be16(query[0], query[1]);
        let req_flags = be16(query[2], query[3]);
        let opcode = req_flags & 0x7800u16;
        let qdcount = be16(query[4], query[5]);
        let base = FLAG_QR | opcode | (req_flags & FLAG_RD);
        if req_flags & FLAG_QR != 0 {
            None
        } else if opcode != 0 {
            Some(spec_header_only(id, base, RCODE_NOTIMP))
        } else if qdcount != 1 {
            Some(spec_header_only(id, base, RCODE_FORMERR))
        } else {
            match spec_parse_question(query) {
                None => Some(spec_header_only(id, base, RCODE_FORMERR)),
                Some(q) => {
                    let owned = q.qclass == CLASS_IN && spec_owns_name(cfg.tld@, q.name);
                    let answer = if owned {
                        answer_for(q.qtype, cfg)
                    } else {
                        None
                    };
                    let rcode = if owned {
                        RCODE_NOERROR
                    } else {
                        RCODE_REFUSED
                    };
                    let aa = if owned {
                        FLAG_AA
                    } else {
                        0u16
                    };
                    let ancount: u16 = if answer is Some {
                        1
                    } else {
                        0
                    };
                    Some(
                        header(id, base | aa | rcode, 1, ancount) + query.subrange(12, q.end) + match answer {
                            Some(r) => answer_record(q.qtype, r),
                            None => Seq::empty(),
                        },
                    )
                },
            }
        }
    }
}

/// Append `x` as two big-endian bytes.
fn push16(out: &mut Vec<u8>, x: u16)
    ensures
        final(out)@ == old(out)@ + bytes16(x),
{
    out.push((x >> 8u16) as u8);
    out.push((x & 0xffu16) as u8);
    assert(final(out)@ =~= old(out)@ + bytes16(x));
}

/// Append `x` as four big-endian bytes.
fn push32(out: &mut Vec<u8>, x: u32)
    ensures
        final(out)@ == old(out)@ + bytes32(x),
{
    out.push((x >> 24u32) as u8);
    out.push(((x >> 16u32) & 0xffu32) as u8);
    out.push(((x >> 8u32) & 0xffu32) as u8);
    out.push((x & 0xffu32) as u8);
    assert(final(out)@ =~= old(out)@ + bytes32(x));
}

/// Append the bytes of `src`.
fn push_all(out: &mut Vec<u8>, src: &[u8])
    ensures
        final(out)@ == old(out)@ + src@,
{
    let mut i: usize = 0;
    while i < src.len()
        invariant
            i <= src@.len(),
            out@ == old(out)@ + src@.subrange(0, i as int),
        decreases src.len() - i,
    {
        out.push(src[i]);
        i += 1;
        assert(out@ =~= old(out)@ + src@.subrange(0, i as int));
    }
    assert(src@.subrange(0, i as int) =~= src@);
}

fn push_header(out: &mut Vec<u8>, id: u16, flags: u16, qdcount: u16, ancount: u16)
    ensures
        final(out)@ == old(out)@ + header(id, flags, qdcount, ancount),
{
    push16(out, id);
    push16(out, flags);
    push16(out, qdcount);
    push16(out, ancount);
    push16(out, 0);
    push16(out, 0);
    assert(final(out)@ =~= old(out)@ + header(id, flags, qdcount, ancount));
}

/// Build a response carrying only a header.
pub fn header_only(id: u16, flags: u16, rcode: u16) -> (r: Vec<u8>)
    ensures
        r@ == spec_header_only(id, flags, rcode),
{
    let mut out: Vec<u8> = Vec::new();
    push_header(&mut out, id, flags | rcode, 0, 0);
    assert(out@ =~= spec_header_only(id, flags, rcode));
    out
}

/// Answer a DNS query.
///
/// Returns `None` when the datagram is not a query this responder should
/// reply to at all (shorter than a header, or itself a response).
pub fn handle_query(query: &[u8], cfg: &ResolverConfig) -> (r: Option<Vec<u8>>)
    ensures
        match r {
            Some(v) => spec_handle_query(query@, *cfg) == Some(v@),
            None => spec_handle_query(query@, *cfg) is None,
        },
{
    if query.len() < 12 {
        return None;
    }
    let id = ((query[0] as u16) << 8u16) | (query[1] as u16);
    let req_flags = ((query[2] as u16) << 8u16) | (query[3] as u16);
    if req_flags & FLAG_QR != 0 {
        return None;
    }
    let opcode = req_flags & 0x7800u16;
    let qdcount = ((query[4] as u16) << 8u16) | (query[5] as u16);
    let base_flags = FLAG_QR | opcode | (req_flags & FLAG_RD);
    if opcode != 0 {
        return Some(header_only(id, base_flags, RCODE_NOTIMP));
    }
    if qdcount != 1 {
        return Some(header_only(id, base_flags, RCODE_FORMERR));
    }
    let q = match parse_question(query) {
        Some(q) => q,
        None => {
            return Some(header_only(id, base_flags, RCODE_FORMERR));
        },
    };
    let owned = q.qclass == CLASS_IN && owns_name(cfg.tld.as_str(), q.name.as_str());
    let rcode = if owned {
        RCODE_NOERROR
    } else {
        RCODE_REFUSED
    };
    let aa = if owned {
        FLAG_AA
    } else {
        0u16
    };
    let mut out: Vec<u8> = Vec::new();
    let v4 = if owned && q.qtype == TYPE_A {
        cfg.ipv4
    } else {
        None
    };
    let v6 = if owned && q.qtype == TYPE_AAAA {
        cfg.ipv6
    } else {
        None
    };
    let has_answer = v4.is_some() || v6.is_some();
    let ancount: u16 = if has_answer {
        1
    } else {
        0
    };
    push_header(&mut out, id, base_flags | aa | rcode, 1, ancount);
    let ghost head = out@;
    proof {
        assert(12 <= q.end <= query@.len()) by {
            lemma_question_end(query@);
        }
    }
    push_all(&mut out, &query[12..q.end]);
    let ghost with_q = out@;
    match v4 {
        Some(a) => {
            out.push(0xC0u8);
            out.push(0x0Cu8);
            push16(&mut out, q.qtype);
            push16(&mut out, CLASS_IN);
            push32(&mut out, TTL);
            push16(&mut out, 4u16);
            push_all(&mut out, &a);
            assert(out@ =~= with_q + answer_record(q.qtype, a@));
        },
        None => match v6 {
            Some(a) => {
                out.push(0xC0u8);
                out.push(0x0Cu8);
                push16(&mut out, q.qtype);
                push16(&mut out, CLASS_IN);
                push32(&mut out, TTL);
                push16(&mut out, 16u16);
                push_all(&mut out, &a);
                assert(out@ =~= with_q + answer_record(q.qtype, a@));
            },
            None => {
                assert(out@ =~= with_q + Seq::<u8>::empty());
            },
        },
    }
    Some(out)
}

/// Where a parsed question ends lies inside the message, past the header.
proof fn lemma_question_end(msg: Seq<u8>)
    ensures
        spec_parse_question(msg) matches Some(q) ==> 12 <= q.end <= msg.len(),
{
    lemma_labels_end(msg, 12);
}

proof fn lemma_labels_end(msg: Seq<u8>, pos: int)
    ensures
        labels_from(msg, pos) matches Some((l, end)) ==> pos < end <= msg.len(),
    decreases msg.len() - pos,
{
    if 0 <= pos < msg.len() {
        let len = msg[pos] as int;
        if len != 0 && len < 64 && pos + 1 + len <= msg.len() {
            lemma_labels_end(msg, pos + 1 + len);
        }
    }
}

/// A UDP reply cut to fit a datagram.
pub open spec fn spec_truncate_for_udp(resp: Seq<u8>) -> Seq<u8> {
    if resp.len() <= MAX_UDP_PAYLOAD {
        resp
    } else {
        let flags = be16(resp[2], resp[3]) | FLAG_TC;
        (resp.subrange(0, 2) + bytes16(flags) + resp.subrange(4, 6) + bytes16(0) + resp.subrange(
            8,
            resp.len() as int,
        )).subrange(0, MAX_UDP_PAYLOAD as int)
    }
}

/// Truncate a response to fit a UDP datagram, setting the TC bit so the
/// client retries over TCP and zeroing the answer count.
pub fn truncate_for_udp(resp: Vec<u8>) -> (r: Vec<u8>)
    ensures
        r@ == spec_truncate_for_udp(resp@),
{
    if resp.len() <= MAX_UDP_PAYLOAD {
        return resp;
    }
    let mut resp = resp;
    let flags = (((resp[2] as u16) << 8u16) | (resp[3] as u16)) | FLAG_TC;
    let ghost r0 = resp@;
    resp.set(2, (flags >> 8u16) as u8);
    resp.set(3, (flags & 0xffu16) as u8);
    resp.set(6, 0u8);
    resp.set(7, 0u8);
    resp.truncate(MAX_UDP_PAYLOAD);
    assert((0u16 >> 8u16) as u8 == 0u8 && (0u16 & 0xffu16) as u8 == 0u8) by (bit_vector);
    let ghost built = r0.subrange(0, 2) + bytes16(flags) + r0.subrange(4, 6) + bytes16(0) + r0.subrange(8, r0.len() as int);
    assert(built.len() == r0.len());
    assert forall|i: int| 0 <= i < MAX_UDP_PAYLOAD implies #[trigger] resp@[i] == built[i] by {
        if i < 2 {
        } else if i < 4 {
        } else if i < 6 {
        } else if i < 8 {
        } else {
        }
    }
    assert(resp@ =~= spec_truncate_for_udp(r0));
    resp
}

/// The length a TCP message's two-byte big-endian prefix announces, or
/// `None` when the connection is to be closed: an empty message, or one
/// over the limit.
pub open spec fn spec_tcp_message_len(hi: u8, lo: u8) -> Option<int> {
    if hi * 256 + lo == 0 || hi * 256 + lo > MAX_TCP_MESSAGE {
        None
    } else {
        Some(hi * 256 + lo)
    }
}

/// The length a TCP message's two-byte big-endian prefix announces, or
/// `None` when the connection is to be closed.
pub fn tcp_message_len(hi: u8, lo: u8) -> (r: Option<usize>)
    ensures
        match r {
            Some(n) => spec_tcp_message_len(hi, lo) == Some(n as int),
            None => spec_tcp_message_len(hi, lo) is None,
        },
{
    let len: usize = (hi as usize) * 256 + (lo as usize);
    if len == 0 || len > MAX_TCP_MESSAGE {
        None
    } else {
        Some(len)
    }
}

/// A reply framed for TCP: its length in two big-endian bytes, then the
/// reply. `None` when the length does not fit the prefix: the reply cannot
/// be sent at all, and the connection is closed rather than desynchronised.
pub fn tcp_frame(resp: &[u8]) -> (r: Option<Vec<u8>>)
    ensures
        resp@.len() <= 65535 ==> (r matches Some(f) && f@ == seq![(resp@.len() / 256) as u8, (resp@.len() % 256) as u8]
            + resp@),
        resp@.len() > 65535 ==> r is None,
{
    let n = resp.len();
    if n > 65535 {
        return None;
    }
    let mut out: Vec<u8> = Vec::new();
    out.push((n / 256) as u8);
    out.push((n % 256) as u8);
    crate::sni::append_bytes(&mut out, resp);
    Some(out)
}

/// A reply framed for TCP announces its own length: the reader of the
/// prefix takes exactly the reply's bytes as the next message.
pub proof fn law_a_framed_reply_announces_its_length(resp: Seq<u8>)
    requires
        0 < resp.len() <= 65535,
    ensures
        spec_tcp_message_len((resp.len() / 256) as u8, (resp.len() % 256) as u8) == Some(resp.len() as int),
{
}

/// Resolver configuration implied by the settings.
///
/// In LAN mode (`proxy.lan`, or a `proxy.lan_ip`) the detected interface
/// address `lan_ip` is served, IPv4 only, or loopback while none is known.
/// Otherwise the answers follow `host_addr`, the address the proxy binds
/// (`proxy.host` parsed as an address, `127.0.0.1` when it is not one).
pub fn config_from_settings(s: &Settings, lan_ip: Option<[u8; 4]>, host_addr: BindAddress) -> (c: ResolverConfig)
    ensures
        c.tld@ == crate::names::spec_effective_tld(s.proxy),
        (s.proxy.lan || s.proxy.lan_ip@.len() > 0) ==> match lan_ip {
            Some(ip) => c.ipv4 == Some(ip) && c.ipv6 is None,
            None => opt_bytes4(c.ipv4) == Some(loopback_v4()) && c.ipv6 is None,
        },
        !(s.proxy.lan || s.proxy.lan_ip@.len() > 0) ==> match host_addr {
            BindAddress::V4(ip) => if unspecified(ip@) {
                opt_bytes4(c.ipv4) == Some(loopback_v4()) && c.ipv6 is None
            } else {
                c.ipv4 == Some(ip) && c.ipv6 is None
            },
            BindAddress::V6(ip) => if unspecified(ip@) {
                opt_bytes4(c.ipv4) == Some(loopback_v4()) && opt_bytes16(c.ipv6) == Some(loopback_v6())
            } else {
                c.ipv4 is None && c.ipv6 == Some(ip)
            },
        },
{
    let lan_enabled = s.proxy.lan || !s.proxy.lan_ip.as_str().is_empty();
    let tld = crate::names::effective_tld(s);
    if lan_enabled {
        return match lan_ip {
            Some(ip) => ResolverConfig::lan(tld, ip),
            None => ResolverConfig::loopback(tld),
        };
    }
    ResolverConfig::for_bind(tld, host_addr)
}

/// Two bytes read big-endian and written back are the same two bytes.
proof fn lemma_be16_bytes(a: u8, b: u8)
    ensures
        bytes16(be16(a, b)) == seq![a, b],
{
    let x = be16(a, b);
    assert(((((a as u16) << 8u16) | (b as u16)) >> 8u16) as u8 == a) by (bit_vector);
    assert(((((a as u16) << 8u16) | (b as u16)) & 0xffu16) as u8 == b) by (bit_vector);
    assert(bytes16(x) =~= seq![a, b]);
}

proof fn lemma_qr_byte(req: u16, e1: u16)
    by (bit_vector)
    ensures
        ((((0x8000u16 | (req & 0x7800u16) | (req & 0x0100u16)) | e1) >> 8u16) as u8) & 0x80u8 != 0u8,
{
}

proof fn lemma_qr_byte2(req: u16, e1: u16, e2: u16)
    by (bit_vector)
    ensures
        (((((0x8000u16 | (req & 0x7800u16) | (req & 0x0100u16)) | e1) | e2) >> 8u16) as u8) & 0x80u8 != 0u8,
{
}

/// Law: every reply starts with the id of the query it answers, and is
/// marked a response.
pub proof fn law_reply_echoes_the_id(query: Seq<u8>, cfg: ResolverConfig)
    ensures
        spec_handle_query(query, cfg) matches Some(r) ==> r.len() >= 12 && r[0] == query[0] && r[1] == query[1]
            && r[2] & 0x80u8 != 0,
{
    if let Some(r) = spec_handle_query(query, cfg) {
        lemma_be16_bytes(query[0], query[1]);
        let req = be16(query[2], query[3]);
        assert forall|e1: u16| #![trigger (0x8000u16 | (req & 0x7800u16) | (req & 0x0100u16)) | e1]
            ((((0x8000u16 | (req & 0x7800u16) | (req & 0x0100u16)) | e1) >> 8u16) as u8) & 0x80u8 != 0u8 by {
            lemma_qr_byte(req, e1);
        }
        assert forall|e1: u16, e2: u16| #![trigger ((0x8000u16 | (req & 0x7800u16) | (req & 0x0100u16)) | e1) | e2]
            (((((0x8000u16 | (req & 0x7800u16) | (req & 0x0100u16)) | e1) | e2) >> 8u16) as u8) & 0x80u8 != 0u8 by {
            lemma_qr_byte2(req, e1, e2);
        }
        assert(r[0] == bytes16(be16(query[0], query[1]))[0]);
        assert(r[1] == bytes16(be16(query[0], query[1]))[1]);
    }
}

proof fn lemma_flag_bytes(req: u16, aa: u16, rcode: u16)
    by (bit_vector)
    requires
        aa == 0u16 || aa == 0x0400u16,
        rcode < 16u16,
    ensures
        ((((0x8000u16 | (req & 0x7800u16) | (req & 0x0100u16)) | aa | rcode) & 0xffu16) as u8) & 0x0fu8 == rcode as u8,
        (((((0x8000u16 | (req & 0x7800u16) | (req & 0x0100u16)) | aa | rcode) >> 8u16) as u8) & 0x04u8 != 0u8) == (aa
            == 0x0400u16),
{
}

/// The responder answers only for its own names: a standard query whose
/// question names something under the TLD, in class IN, is answered with
/// authority and no error; any other question is refused and gets no
/// answer record.
pub proof fn law_only_names_under_the_tld_are_answered(query: Seq<u8>, cfg: ResolverConfig)
    requires
        query.len() >= 12,
        be16(query[2], query[3]) & FLAG_QR == 0,
        be16(query[2], query[3]) & 0x7800u16 == 0,
        be16(query[4], query[5]) == 1,
        spec_parse_question(query) is Some,
    ensures
        spec_handle_query(query, cfg) matches Some(r) && r.len() >= 12 && {
            let q = spec_parse_question(query)->0;
            let owned = q.qclass == CLASS_IN && spec_owns_name(cfg.tld@, q.name);
            &&& (r[3] & 0x0fu8) == (if owned {
                0u8
            } else {
                5u8
            })
            &&& ((r[2] & 0x04u8) != 0u8) == owned
            &&& !owned ==> r[6] == 0u8 && r[7] == 0u8
        },
{
    let q = spec_parse_question(query)->0;
    let owned = q.qclass == CLASS_IN && spec_owns_name(cfg.tld@, q.name);
    let req = be16(query[2], query[3]);
    let id = be16(query[0], query[1]);
    let base = FLAG_QR | (req & 0x7800u16) | (req & FLAG_RD);
    let aa = if owned { FLAG_AA } else { 0u16 };
    let rcode = if owned { RCODE_NOERROR } else { RCODE_REFUSED };
    let answer = if owned { answer_for(q.qtype, cfg) } else { None };
    let ancount: u16 = if answer is Some { 1 } else { 0 };
    let flags = base | aa | rcode;
    let r = spec_handle_query(query, cfg)->0;
    lemma_flag_bytes(req, aa, rcode);
    assert(r == header(id, flags, 1, ancount) + query.subrange(12, q.end) + match answer {
        Some(x) => answer_record(q.qtype, x),
        None => Seq::empty(),
    });
    assert(r[2] == (flags >> 8u16) as u8);
    assert(r[3] == (flags & 0xffu16) as u8);
    assert(r[6] == (ancount >> 8u16) as u8);
    assert(r[7] == (ancount & 0xffu16) as u8);
    assert((0u16 >> 8u16) as u8 == 0u8 && (0u16 & 0xffu16) as u8 == 0u8) by (bit_vector);
}

} // verus!
