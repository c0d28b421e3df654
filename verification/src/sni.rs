//! TLS ClientHello parsing, used to route a connection before any TLS
//! handshake takes place.
//!
//! The proxy peeks at the bytes a client sent without consuming them, reads
//! the Server Name Indication (SNI) extension, and uses the hostname to decide
//! whether to terminate TLS itself or splice the raw stream to a daemon that
//! terminates TLS on its own.
//!
//! Only the parts of RFC 8446 §4.1.2 / RFC 6066 §3 needed for that decision are
//! parsed; nothing here validates the handshake.

use vstd::prelude::*;
use crate::text::{lower, lower_char, lower_seq, push_char};

verus! {

/// TLS record content type for handshake records.
pub const CONTENT_TYPE_HANDSHAKE: u8 = 0x16;

/// Handshake message type for a ClientHello.
pub const HANDSHAKE_TYPE_CLIENT_HELLO: u8 = 0x01;

/// Extension type for `server_name` (RFC 6066 §3).
pub const EXTENSION_SERVER_NAME: u16 = 0x0000;

/// `NameType.host_name` inside the `server_name` extension.
pub const NAME_TYPE_HOST_NAME: u8 = 0x00;

/// The outcome of looking for an SNI hostname in the bytes read so far.
#[derive(Debug, Clone, PartialEq, Eq)]
pub enum SniPeek {
    /// The ClientHello carried a `server_name` extension with this hostname,
    /// lowercased and without a trailing root dot.
    Found(String),
    /// A complete ClientHello was parsed and it carried no usable hostname.
    Absent,
    /// The bytes end mid-message: a complete ClientHello may still arrive.
    Incomplete,
    /// The bytes cannot be the start of a TLS handshake.
    NotTls,
}

/// The mathematical outcome of a peek.
pub enum Verdict {
    Found(Seq<char>),
    Absent,
    Incomplete,
    NotTls,
}

impl SniPeek {
    pub open spec fn view(&self) -> Verdict {
        match self {
            SniPeek::Found(s) => Verdict::Found(s@),
            SniPeek::Absent => Verdict::Absent,
            SniPeek::Incomplete => Verdict::Incomplete,
            SniPeek::NotTls => Verdict::NotTls,
        }
    }
}

/// Big-endian value of two bytes.
pub open spec fn be16(a: u8, b: u8) -> int {
    a * 256 + b
}

/// Big-endian value of three bytes.
pub open spec fn be24(a: u8, b: u8, c: u8) -> int {
    a * 65536 + b * 256 + c
}

/// What the record layer yields: either the reassembled handshake bytes, or
/// a verdict reached before any ClientHello could be parsed.
pub enum RecordScan {
    Hello(Seq<u8>),
    Early(Verdict),
}

/// Reassembly of handshake records from `buf[pos..]`, `hs` holding the
/// handshake bytes of the complete records already read.
///
/// A complete handshake record adds its payload. A record of another type,
/// a partial header or a record whose payload has not fully arrived ends the
/// handshake bytes; if there are none yet, the first of these is `NotTls`
/// (or `Incomplete` for a partial header that starts like a handshake), and
/// the second two are read as the hello still arriving.
pub open spec fn scan_records(buf: Seq<u8>, pos: int, hs: Seq<u8>) -> RecordScan
    decreases buf.len() - pos,
{
    if pos < 0 || pos >= buf.len() {
        RecordScan::Hello(hs)
    } else if buf.len() - pos < 5 {
        if hs.len() > 0 {
            RecordScan::Hello(hs)
        } else if buf[pos] == CONTENT_TYPE_HANDSHAKE {
            RecordScan::Early(Verdict::Incomplete)
        } else {
            RecordScan::Early(Verdict::NotTls)
        }
    } else if buf[pos] != CONTENT_TYPE_HANDSHAKE {
        if hs.len() > 0 {
            RecordScan::Hello(hs)
        } else {
            RecordScan::Early(Verdict::NotTls)
        }
    } else {
        let len = be16(buf[pos + 3], buf[pos + 4]);
        if pos + 5 + len <= buf.len() {
            scan_records(buf, pos + 5 + len, hs + buf.subrange(pos + 5, pos + 5 + len))
        } else {
            RecordScan::Hello(hs)
        }
    }
}

/// The position after a block prefixed by a one-byte length at `p`.
pub open spec fn skip1(h: Seq<u8>, p: int) -> Option<int> {
    if 0 <= p && p + 1 <= h.len() && p + 1 + h[p] <= h.len() {
        Some(p + 1 + h[p])
    } else {
        None
    }
}

/// The position after a block prefixed by a two-byte length at `p`.
pub open spec fn skip2(h: Seq<u8>, p: int) -> Option<int> {
    if 0 <= p && p + 2 <= h.len() && p + 2 + be16(h[p], h[p + 1]) <= h.len() {
        Some(p + 2 + be16(h[p], h[p + 1]))
    } else {
        None
    }
}

/// `s` without its trailing `.` chars.
pub open spec fn trim_end_dots(s: Seq<char>) -> Seq<char>
    decreases s.len(),
{
    if s.len() > 0 && s.last() == '.' {
        trim_end_dots(s.drop_last())
    } else {
        s
    }
}

/// Bytes read as chars one for one.
pub open spec fn byte_chars(b: Seq<u8>) -> Seq<char> {
    b.map_values(|x: u8| x as char)
}

/// Whether every byte is ASCII.
pub open spec fn ascii_bytes(b: Seq<u8>) -> bool {
    forall|i: int| 0 <= i < b.len() ==> #[trigger] b[i] < 128
}

/// A `host_name` entry: routable when it is ASCII and something is left once
/// its trailing root dots are gone; the name is then lowercased.
pub open spec fn host_verdict(name: Seq<u8>) -> Verdict {
    if ascii_bytes(name) && trim_end_dots(byte_chars(name)).len() > 0 {
        Verdict::Found(lower_seq(trim_end_dots(byte_chars(name))))
    } else {
        Verdict::Absent
    }
}

/// The entries of a `ServerNameList`, from offset `q`: the first `host_name`
/// entry decides, other name types are skipped.
pub open spec fn name_entries(l: Seq<u8>, q: int) -> Verdict
    decreases l.len() - q,
{
    if q < 0 || q >= l.len() {
        Verdict::Absent
    } else if q + 3 > l.len() {
        Verdict::Incomplete
    } else {
        let n = be16(l[q + 1], l[q + 2]);
        if q + 3 + n > l.len() {
            Verdict::Incomplete
        } else if l[q] != NAME_TYPE_HOST_NAME {
            name_entries(l, q + 3 + n)
        } else {
            host_verdict(l.subrange(q + 3, q + 3 + n))
        }
    }
}

/// The body of a `server_name` extension.
pub open spec fn server_name_list(body: Seq<u8>) -> Verdict {
    match skip2(body, 0) {
        None => Verdict::Incomplete,
        Some(end) => name_entries(body.subrange(2, end), 0),
    }
}

/// The extension block of a ClientHello, from offset `q`: the first
/// `server_name` extension decides.
pub open spec fn extensions(e: Seq<u8>, q: int) -> Verdict
    decreases e.len() - q,
{
    if q < 0 || q >= e.len() {
        Verdict::Absent
    } else if q + 4 > e.len() {
        Verdict::Incomplete
    } else {
        let t = be16(e[q], e[q + 1]);
        let n = be16(e[q + 2], e[q + 3]);
        if q + 4 + n > e.len() {
            Verdict::Incomplete
        } else if t == EXTENSION_SERVER_NAME {
            server_name_list(e.subrange(q + 4, q + 4 + n))
        } else {
            extensions(e, q + 4 + n)
        }
    }
}

/// A ClientHello's extensions, starting at offset `p` of the handshake `h`:
/// absent altogether, or a two-byte length and that many bytes.
pub open spec fn hello_extensions(h: Seq<u8>, p: int) -> Verdict {
    if p == h.len() {
        Verdict::Absent
    } else {
        match skip2(h, p) {
            None => Verdict::Incomplete,
            Some(end) => extensions(h.subrange(p + 2, end), 0),
        }
    }
}

/// The verdict on reassembled handshake bytes.
///
/// A ClientHello is: type (1), body length (3), version and random (34),
/// session id (1-byte length), cipher suites (2-byte length), compression
/// methods (1-byte length), then optionally the extensions.
pub open spec fn handshake_verdict(h: Seq<u8>) -> Verdict {
    if h.len() == 0 {
        Verdict::Incomplete
    } else if h[0] != HANDSHAKE_TYPE_CLIENT_HELLO {
        Verdict::NotTls
    } else if h.len() < 4 || h.len() - 4 < be24(h[1], h[2], h[3]) || h.len() < 38 {
        Verdict::Incomplete
    } else {
        match skip1(h, 38) {
            None => Verdict::Incomplete,
            Some(p1) => match skip2(h, p1) {
                None => Verdict::Incomplete,
                Some(p2) => match skip1(h, p2) {
                    None => Verdict::Incomplete,
                    Some(p3) => hello_extensions(h, p3),
                },
            },
        }
    }
}

/// The verdict on the first bytes a client sent.
pub open spec fn sni_verdict(buf: Seq<u8>) -> Verdict {
    match scan_records(buf, 0, Seq::empty()) {
        RecordScan::Early(v) => v,
        RecordScan::Hello(h) => handshake_verdict(h),
    }
}

/// A cursor over a byte slice that yields `None` instead of panicking when
/// the slice runs out.
pub struct Reader<'a> {
    pub buf: &'a [u8],
    pub pos: usize,
}

impl<'a> Reader<'a> {
    pub open spec fn wf(&self) -> bool {
        self.pos <= self.buf@.len()
    }

    pub fn new(buf: &'a [u8]) -> (r: Self)
        ensures
            r.buf@ == buf@,
            r.pos == 0,
    {
        Reader { buf, pos: 0 }
    }

    pub fn remaining(&self) -> (n: usize)
        requires
            self.wf(),
        ensures
            n == self.buf@.len() - self.pos,
    {
        self.buf.len() - self.pos
    }

    pub fn u8(&mut self) -> (r: Option<u8>)
        requires
            old(self).wf(),
        ensures
            final(self).wf(),
            final(self).buf@ == old(self).buf@,
            old(self).pos < old(self).buf@.len() ==> r == Some(old(self).buf@[old(self).pos as int])
                && final(self).pos == old(self).pos + 1,
            old(self).pos >= old(self).buf@.len() ==> r is None && final(self).pos == old(self).pos,
    {
        if self.pos < self.buf.len() {
            let b = self.buf[self.pos];
            self.pos = self.pos + 1;
            Some(b)
        } else {
            None
        }
    }

    pub fn u16(&mut self) -> (r: Option<u16>)
        requires
            old(self).wf(),
        ensures
            final(self).wf(),
            final(self).buf@ == old(self).buf@,
            old(self).pos + 2 <= old(self).buf@.len() ==> r == Some(
                be16(old(self).buf@[old(self).pos as int], old(self).buf@[old(self).pos + 1]) as u16,
            ) && final(self).pos == old(self).pos + 2,
            old(self).pos + 2 > old(self).buf@.len() ==> r is None,
    {
        let hi = match self.u8() {
            Some(b) => b,
            None => return None,
        };
        let lo = match self.u8() {
            Some(b) => b,
            None => return None,
        };
        Some(hi as u16 * 256 + lo as u16)
    }

    pub fn u24(&mut self) -> (r: Option<u32>)
        requires
            old(self).wf(),
        ensures
            final(self).wf(),
            final(self).buf@ == old(self).buf@,
            old(self).pos + 3 <= old(self).buf@.len() ==> r == Some(
                be24(
                    old(self).buf@[old(self).pos as int],
                    old(self).buf@[old(self).pos + 1],
                    old(self).buf@[old(self).pos + 2],
                ) as u32,
            ) && final(self).pos == old(self).pos + 3,
            old(self).pos + 3 > old(self).buf@.len() ==> r is None,
    {
        let a = match self.u8() {
            Some(b) => b,
            None => return None,
        };
        let b = match self.u8() {
            Some(b) => b,
            None => return None,
        };
        let c = match self.u8() {
            Some(b) => b,
            None => return None,
        };
        Some(a as u32 * 65536 + b as u32 * 256 + c as u32)
    }

    pub fn bytes(&mut self, n: usize) -> (r: Option<&'a [u8]>)
        requires
            old(self).wf(),
        ensures
            final(self).wf(),
            final(self).buf@ == old(self).buf@,
            old(self).pos + n <= old(self).buf@.len() ==> r is Some && r->0@ == old(self).buf@.subrange(
                old(self).pos as int,
                old(self).pos + n,
            ) && final(self).pos == old(self).pos + n,
            old(self).pos + n > old(self).buf@.len() ==> r is None && final(self).pos == old(self).pos,
    {
        if n > self.buf.len() - self.pos {
            return None;
        }
        let end = self.pos + n;
        let slice = &self.buf[self.pos..end];
        self.pos = end;
        Some(slice)
    }

    /// Skip a length-prefixed block whose length is `len_bytes` wide.
    pub fn skip_prefixed(&mut self, len_bytes: usize) -> (r: Option<()>)
        requires
            old(self).wf(),
        ensures
            final(self).wf(),
            final(self).buf@ == old(self).buf@,
            len_bytes == 1 ==> match skip1(old(self).buf@, old(self).pos as int) {
                Some(p) => r is Some && final(self).pos == p,
                None => r is None,
            },
            len_bytes == 2 ==> match skip2(old(self).buf@, old(self).pos as int) {
                Some(p) => r is Some && final(self).pos == p,
                None => r is None,
            },
            len_bytes != 1 && len_bytes != 2 ==> r is None,
    {
        let len: usize = if len_bytes == 1 {
            match self.u8() {
                Some(b) => b as usize,
                None => return None,
            }
        } else if len_bytes == 2 {
            match self.u16() {
                Some(v) => v as usize,
                None => return None,
            }
        } else {
            return None;
        };
        match self.bytes(len) {
            Some(_) => Some(()),
            None => None,
        }
    }
}

/// Look for an SNI hostname in `buf`, which holds the first bytes a client
/// sent on a connection.
///
/// A ClientHello may be split across several TLS records, so the handshake
/// bytes are reassembled from every complete handshake record in `buf` before
/// being parsed. Reassembly stops at the first record of another content type
/// rather than rejecting the connection: a TLS 1.3 client may follow its hello
/// with a compatibility ChangeCipherSpec or early data in the same flight.
pub fn parse_sni(buf: &[u8]) -> (r: SniPeek)
    ensures
        r@ == sni_verdict(buf@),
{
    let mut records = Reader::new(buf);
    let mut handshake: Vec<u8> = Vec::new();
    loop
        invariant_except_break
            scan_records(buf@, 0, Seq::empty()) == scan_records(buf@, records.pos as int, handshake@),
        invariant
            records.wf(),
            records.buf@ == buf@,
        ensures
            scan_records(buf@, 0, Seq::empty()) == RecordScan::Hello(handshake@),
        decreases buf@.len() - records.pos,
    {
        let ghost p = records.pos as int;
        if records.remaining() == 0 {
            break;
        }
        if records.remaining() < 5 {
            if handshake.len() > 0 {
                break;
            }
            return match records.u8() {
                Some(t) => if t == CONTENT_TYPE_HANDSHAKE {
                    SniPeek::Incomplete
                } else {
                    SniPeek::NotTls
                },
                None => SniPeek::Incomplete,
            };
        }
        let content_type = match records.u8() {
            Some(t) => t,
            None => return SniPeek::Incomplete,
        };
        if content_type != CONTENT_TYPE_HANDSHAKE {
            if handshake.len() > 0 {
                break;
            }
            return SniPeek::NotTls;
        }
        if records.u16().is_none() {
            return SniPeek::Incomplete;
        }
        let len = match records.u16() {
            Some(l) => l,
            None => return SniPeek::Incomplete,
        };
        match records.bytes(len as usize) {
            Some(payload) => {
                append_bytes(&mut handshake, payload);
            },
            None => break,
        }
    }
    parse_handshake(&handshake)
}

/// Append every byte of `s` to `v`.
pub fn append_bytes(v: &mut Vec<u8>, s: &[u8])
    ensures
        final(v)@ == old(v)@ + s@,
{
    let mut i: usize = 0;
    while i < s.len()
        invariant
            i <= s@.len(),
            v@ == old(v)@ + s@.subrange(0, i as int),
        decreases s@.len() - i,
    {
        v.push(s[i]);
        i += 1;
        assert(v@ =~= old(v)@ + s@.subrange(0, i as int));
    }
    assert(s@.subrange(0, s@.len() as int) =~= s@);
}

/// Parse reassembled handshake bytes and return the SNI hostname.
pub fn parse_handshake(handshake: &[u8]) -> (r: SniPeek)
    ensures
        r@ == handshake_verdict(handshake@),
{
    let ghost h = handshake@;
    let mut r = Reader::new(handshake);
    match r.u8() {
        Some(t) => {
            if t != HANDSHAKE_TYPE_CLIENT_HELLO {
                return SniPeek::NotTls;
            }
        },
        None => return SniPeek::Incomplete,
    }
    let body_len = match r.u24() {
        Some(l) => l,
        None => return SniPeek::Incomplete,
    };
    if r.remaining() < body_len as usize {
        return SniPeek::Incomplete;
    }
    if r.bytes(34).is_none() {
        return SniPeek::Incomplete;
    }
    assert(r.pos == 38);
    if r.skip_prefixed(1).is_none() || r.skip_prefixed(2).is_none() || r.skip_prefixed(1).is_none() {
        return SniPeek::Incomplete;
    }
    if r.remaining() == 0 {
        return SniPeek::Absent;
    }
    let ghost p3 = r.pos as int;
    let ext_total = match r.u16() {
        Some(t) => t,
        None => return SniPeek::Incomplete,
    };
    let ext_bytes = match r.bytes(ext_total as usize) {
        Some(b) => b,
        None => return SniPeek::Incomplete,
    };
    assert(skip2(h, p3) == Some(p3 + 2 + ext_total));
    assert(handshake_verdict(h) == hello_extensions(h, p3));
    assert(handshake_verdict(h) == extensions(ext_bytes@, 0));
    let mut ext = Reader::new(ext_bytes);
    while ext.remaining() > 0
        invariant
            ext.wf(),
            ext.buf@ == ext_bytes@,
            h == handshake@,
            handshake_verdict(h) == extensions(ext_bytes@, ext.pos as int),
        decreases ext_bytes@.len() - ext.pos,
    {
        let ghost q = ext.pos as int;
        let ext_type = ext.u16();
        let ext_len = ext.u16();
        assert(ext_type is None ==> q + 2 > ext_bytes@.len());
        assert(0 <= q < ext_bytes@.len());
        assert(q + 4 > ext_bytes@.len() ==> extensions(ext_bytes@, q) == Verdict::Incomplete);
        if ext_type.is_none() || ext_len.is_none() {
            assert(q + 4 > ext_bytes@.len());
            assert(extensions(ext_bytes@, q) == Verdict::Incomplete);
            return SniPeek::Incomplete;
        }
        let ext_type = ext_type.unwrap();
        let ext_len = ext_len.unwrap();
        let body = match ext.bytes(ext_len as usize) {
            Some(b) => b,
            None => {
                assert(extensions(ext_bytes@, q) == Verdict::Incomplete);
                return SniPeek::Incomplete;
            },
        };
        if ext_type == EXTENSION_SERVER_NAME {
            return parse_server_name_list(body);
        }
    }
    SniPeek::Absent
}

/// The verdict on one `host_name` entry.
pub fn host_name_entry(name: &[u8]) -> (r: SniPeek)
    ensures
        r@ == host_verdict(name@),
{
    if name.len() == 0 {
        return SniPeek::Absent;
    }
    let mut i: usize = 0;
    while i < name.len()
        invariant
            i <= name@.len(),
            forall|j: int| 0 <= j < i ==> #[trigger] name@[j] < 128,
        decreases name@.len() - i,
    {
        if name[i] >= 128 {
            return SniPeek::Absent;
        }
        i += 1;
    }
    let ghost chars = byte_chars(name@);
    let mut k: usize = name.len();
    assert(chars.subrange(0, k as int) =~= chars);
    while k > 0 && name[k - 1] == 0x2e
        invariant
            k <= name@.len(),
            chars == byte_chars(name@),
            trim_end_dots(chars) == trim_end_dots(chars.subrange(0, k as int)),
        decreases k,
    {
        assert(chars.subrange(0, k as int).drop_last() =~= chars.subrange(0, k - 1));
        k -= 1;
    }
    assert(trim_end_dots(chars.subrange(0, k as int)) == chars.subrange(0, k as int));
    if k == 0 {
        return SniPeek::Absent;
    }
    let mut out = String::new();
    let mut j: usize = 0;
    while j < k
        invariant
            j <= k <= name@.len(),
            chars == byte_chars(name@),
            ascii_bytes(name@),
            out@ == lower_seq(chars.subrange(0, j as int)),
        decreases k - j,
    {
        let c = lower_char(name[j] as char);
        push_char(&mut out, c);
        j += 1;
        assert(out@ =~= lower_seq(chars.subrange(0, j as int)));
    }
    SniPeek::Found(out)
}

/// Parse the `ServerNameList` body of a `server_name` extension.
pub fn parse_server_name_list(body: &[u8]) -> (r: SniPeek)
    ensures
        r@ == server_name_list(body@),
{
    let mut r = Reader::new(body);
    let list_len = match r.u16() {
        Some(l) => l,
        None => return SniPeek::Incomplete,
    };
    let list = match r.bytes(list_len as usize) {
        Some(l) => l,
        None => return SniPeek::Incomplete,
    };
    let mut names = Reader::new(list);
    while names.remaining() > 0
        invariant
            names.wf(),
            names.buf@ == list@,
            server_name_list(body@) == name_entries(list@, names.pos as int),
        decreases list@.len() - names.pos,
    {
        let name_type = names.u8();
        let name_len = names.u16();
        let (name_type, name_len) = match (name_type, name_len) {
            (Some(t), Some(l)) => (t, l),
            _ => return SniPeek::Incomplete,
        };
        let name = match names.bytes(name_len as usize) {
            Some(n) => n,
            None => return SniPeek::Incomplete,
        };
        if name_type != NAME_TYPE_HOST_NAME {
            continue;
        }
        return host_name_entry(name);
    }
    SniPeek::Absent
}

/// `p` framed as one TLS handshake record (legacy version 3.1).
pub open spec fn handshake_record(p: Seq<u8>) -> Seq<u8> {
    seq![CONTENT_TYPE_HANDSHAKE, 0x03u8, 0x01u8, (p.len() / 256) as u8, (p.len() % 256) as u8] + p
}

/// The handshake bytes `h` cut into records of at most `k` bytes each, in
/// order, as a fragmenting client sends them.
pub open spec fn handshake_records(h: Seq<u8>, k: int) -> Seq<u8>
    decreases h.len(),
{
    if k <= 0 || h.len() <= k {
        handshake_record(h)
    } else {
        handshake_record(h.take(k)) + handshake_records(h.skip(k), k)
    }
}

proof fn lemma_scan_one_record(buf: Seq<u8>, pos: int, hs: Seq<u8>, p: Seq<u8>)
    requires
        0 <= pos,
        p.len() <= 65535,
        pos + 5 + p.len() <= buf.len(),
        buf.subrange(pos, pos + 5 + p.len()) == handshake_record(p),
    ensures
        scan_records(buf, pos, hs) == scan_records(buf, pos + 5 + p.len(), hs + p),
{
    let n = p.len() as int;
    let r = handshake_record(p);
    let w = buf.subrange(pos, pos + 5 + n);
    assert(w[0] == buf[pos]);
    assert(w[3] == buf[pos + 3]);
    assert(w[4] == buf[pos + 4]);
    assert(be16((n / 256) as u8, (n % 256) as u8) == n);
    assert(buf.subrange(pos + 5, pos + 5 + n) =~= p) by {
        assert forall|i: int| 0 <= i < n implies buf.subrange(pos + 5, pos + 5 + n)[i] == p[i] by {
            assert(w[5 + i] == buf[pos + 5 + i]);
            assert(r[5 + i] == p[i]);
        }
    }
}

proof fn lemma_scan_fragmented_records(buf: Seq<u8>, pos: int, hs: Seq<u8>, h: Seq<u8>, k: int)
    requires
        0 <= pos,
        0 < h.len() <= 65535,
        k >= 1,
        pos + handshake_records(h, k).len() <= buf.len(),
        buf.subrange(pos, pos + handshake_records(h, k).len()) == handshake_records(h, k),
    ensures
        handshake_records(h, k).len() >= 5 + h.len(),
        scan_records(buf, pos, hs) == scan_records(buf, pos + handshake_records(h, k).len(), hs + h),
    decreases h.len(),
{
    let all = handshake_records(h, k);
    if h.len() <= k {
        lemma_scan_one_record(buf, pos, hs, h);
    } else {
        let a = h.take(k);
        let b = h.skip(k);
        let ra = handshake_record(a);
        let rb = handshake_records(b, k);
        assert(all == ra + rb);
        let w = buf.subrange(pos, pos + all.len());
        assert(buf.subrange(pos, pos + ra.len()) =~= ra) by {
            assert forall|i: int| 0 <= i < ra.len() implies buf.subrange(pos, pos + ra.len())[i] == ra[i] by {
                assert(w[i] == buf[pos + i]);
            }
        }
        lemma_scan_one_record(buf, pos, hs, a);
        lemma_scan_fragmented_records_len(b, k);
        let mid = pos + ra.len();
        assert(buf.subrange(mid, mid + rb.len()) =~= rb) by {
            assert forall|i: int| 0 <= i < rb.len() implies buf.subrange(mid, mid + rb.len())[i] == rb[i] by {
                assert(w[ra.len() + i] == buf[mid + i]);
            }
        }
        lemma_scan_fragmented_records(buf, mid, hs + a, b, k);
        assert(hs + a + b =~= hs + h);
    }
}

proof fn lemma_scan_fragmented_records_len(h: Seq<u8>, k: int)
    requires
        0 < h.len(),
        k >= 1,
    ensures
        handshake_records(h, k).len() >= 5 + h.len(),
    decreases h.len(),
{
    if h.len() > k {
        lemma_scan_fragmented_records_len(h.skip(k), k);
    }
}

/// The verdict on a hello does not depend on how the client cut it into
/// records, nor on what follows it in the same flight: a record of another
/// content type, or the first bytes of a record header.
pub proof fn law_sni_verdict_ignores_record_boundaries(h: Seq<u8>, k: int, tail: Seq<u8>)
    requires
        0 < h.len() <= 65535,
        k >= 1,
        tail.len() < 5 || tail[0] != CONTENT_TYPE_HANDSHAKE,
    ensures
        sni_verdict(handshake_record(h)) == handshake_verdict(h),
        sni_verdict(handshake_records(h, k)) == sni_verdict(handshake_record(h)),
        sni_verdict(handshake_records(h, k) + tail) == sni_verdict(handshake_record(h)),
        sni_verdict(handshake_record(h) + tail) == sni_verdict(handshake_record(h)),
{
    lemma_sni_verdict_of_records(h, k, tail);
    lemma_sni_verdict_of_records(h, k, Seq::empty());
    lemma_sni_verdict_of_records(h, h.len() as int, tail);
    lemma_sni_verdict_of_records(h, h.len() as int, Seq::empty());
    assert(handshake_records(h, k) + Seq::<u8>::empty() =~= handshake_records(h, k));
    assert(handshake_records(h, h.len() as int) == handshake_record(h));
    assert(handshake_record(h) + Seq::<u8>::empty() =~= handshake_record(h));
}

proof fn lemma_sni_verdict_of_records(h: Seq<u8>, k: int, tail: Seq<u8>)
    requires
        0 < h.len() <= 65535,
        k >= 1,
        tail.len() < 5 || tail[0] != CONTENT_TYPE_HANDSHAKE,
    ensures
        sni_verdict(handshake_records(h, k) + tail) == handshake_verdict(h),
{
    let rs = handshake_records(h, k);
    let buf = rs + tail;
    assert(buf.subrange(0, rs.len() as int) =~= rs);
    lemma_scan_fragmented_records(buf, 0, Seq::empty(), h, k);
    assert(Seq::<u8>::empty() + h =~= h);
    if tail.len() > 0 {
        assert(buf[rs.len() as int] == tail[0]);
    }
    assert(scan_records(buf, rs.len() as int, h) == RecordScan::Hello(h));
}

/// Whether `h` can stand as the host a hello names: not empty, ASCII,
/// lowercase, and not ending in the root dot.
pub open spec fn routable_name(h: Seq<char>) -> bool {
    &&& h.len() > 0
    &&& h.last() != '.'
    &&& lower_seq(h) == h
    &&& forall|i: int| 0 <= i < h.len() ==> (#[trigger] h[i] as u32) < 128
}

proof fn lemma_trim_end_dots(s: Seq<char>)
    ensures
        trim_end_dots(s).len() <= s.len(),
        forall|i: int| 0 <= i < trim_end_dots(s).len() ==> #[trigger] trim_end_dots(s)[i] == s[i],
        trim_end_dots(s).len() > 0 ==> trim_end_dots(s).last() != '.',
    decreases s.len(),
{
    if s.len() > 0 && s.last() == '.' {
        lemma_trim_end_dots(s.drop_last());
        assert forall|i: int| 0 <= i < trim_end_dots(s).len() implies #[trigger] trim_end_dots(s)[i] == s[i] by {
            assert(trim_end_dots(s.drop_last())[i] == s.drop_last()[i]);
        }
    }
}

proof fn lemma_host_verdict_routable(name: Seq<u8>)
    ensures
        host_verdict(name) matches Verdict::Found(h) ==> routable_name(h),
{
    let b = byte_chars(name);
    let t = trim_end_dots(b);
    lemma_trim_end_dots(b);
    if ascii_bytes(name) && t.len() > 0 {
        let h = lower_seq(t);
        assert forall|i: int| 0 <= i < t.len() implies (#[trigger] t[i] as u32) < 128 by {
            assert(t[i] == b[i]);
            assert(name[i] < 128);
        }
        assert forall|i: int| 0 <= i < h.len() implies lower(h[i]) == h[i] && (#[trigger] h[i] as u32) < 128 by {
            assert(h[i] == lower(t[i]));
            assert((t[i] as u32) < 128);
        }
        assert(lower_seq(h) =~= h);
        assert(h.last() == lower(t.last()));
    }
}

proof fn lemma_name_entries_routable(l: Seq<u8>, q: int)
    ensures
        name_entries(l, q) matches Verdict::Found(h) ==> routable_name(h),
    decreases l.len() - q,
{
    if 0 <= q && q + 3 <= l.len() {
        let n = be16(l[q + 1], l[q + 2]);
        if q + 3 + n <= l.len() {
            if l[q] != NAME_TYPE_HOST_NAME {
                lemma_name_entries_routable(l, q + 3 + n);
            } else {
                lemma_host_verdict_routable(l.subrange(q + 3, q + 3 + n));
            }
        }
    }
}

proof fn lemma_extensions_routable(e: Seq<u8>, q: int)
    ensures
        extensions(e, q) matches Verdict::Found(h) ==> routable_name(h),
    decreases e.len() - q,
{
    if 0 <= q && q + 4 <= e.len() {
        let t = be16(e[q], e[q + 1]);
        let n = be16(e[q + 2], e[q + 3]);
        if q + 4 + n <= e.len() {
            if t == EXTENSION_SERVER_NAME {
                let body = e.subrange(q + 4, q + 4 + n);
                match skip2(body, 0) {
                    Some(end) => lemma_name_entries_routable(body.subrange(2, end), 0),
                    None => {},
                }
            } else {
                lemma_extensions_routable(e, q + 4 + n);
            }
        }
    }
}

proof fn lemma_scan_records_early(buf: Seq<u8>, pos: int, hs: Seq<u8>)
    ensures
        scan_records(buf, pos, hs) matches RecordScan::Early(v) ==> v == Verdict::Incomplete || v
            == Verdict::NotTls,
    decreases buf.len() - pos,
{
    if 0 <= pos < buf.len() && buf.len() - pos >= 5 && buf[pos] == CONTENT_TYPE_HANDSHAKE {
        let len = be16(buf[pos + 3], buf[pos + 4]);
        if pos + 5 + len <= buf.len() {
            lemma_scan_records_early(buf, pos + 5 + len, hs + buf.subrange(pos + 5, pos + 5 + len));
        }
    }
}

/// A host name found in a hello is one the router can take as it is: not
/// empty, ASCII, lowercase, and without the root dot.
pub proof fn law_a_found_host_is_routable(buf: Seq<u8>)
    ensures
        sni_verdict(buf) matches Verdict::Found(h) ==> routable_name(h),
{
    lemma_scan_records_early(buf, 0, Seq::empty());
    match scan_records(buf, 0, Seq::empty()) {
        RecordScan::Early(v) => {},
        RecordScan::Hello(h) => {
            if h.len() >= 38 {
                match skip1(h, 38) {
                    Some(p1) => match skip2(h, p1) {
                        Some(p2) => match skip1(h, p2) {
                            Some(p3) => {
                                if p3 != h.len() {
                                    match skip2(h, p3) {
                                        Some(end) => lemma_extensions_routable(h.subrange(p3 + 2, end), 0),
                                        None => {},
                                    }
                                }
                            },
                            None => {},
                        },
                        None => {},
                    },
                    None => {},
                }
            }
        },
    }
}

/// `v` as three big-endian bytes.
pub open spec fn be24_bytes(v: int) -> Seq<u8> {
    seq![(v / 65536) as u8, ((v / 256) % 256) as u8, (v % 256) as u8]
}

/// The ClientHello `h`, whose legacy_session_id (at offset 38) is empty,
/// carrying the session id `sid` instead, its body length grown to match.
pub open spec fn with_session_id(h: Seq<u8>, sid: Seq<u8>) -> Seq<u8> {
    seq![h[0]] + be24_bytes(be24(h[1], h[2], h[3]) + sid.len()) + h.subrange(4, 38) + seq![sid.len() as u8] + sid
        + h.subrange(39, h.len() as int)
}

proof fn lemma_skips_shift(a: Seq<u8>, b: Seq<u8>, da: int, db: int, p: int)
    requires
        0 <= da <= a.len(),
        0 <= db <= b.len(),
        a.subrange(da, a.len() as int) == b.subrange(db, b.len() as int),
        0 <= p,
    ensures
        skip1(a, da + p) == match skip1(b, db + p) {
            Some(x) => Some(x - db + da),
            None => None::<int>,
        },
        skip2(a, da + p) == match skip2(b, db + p) {
            Some(x) => Some(x - db + da),
            None => None::<int>,
        },
        hello_extensions(a, da + p) == hello_extensions(b, db + p),
{
    let n = a.len() - da;
    assert(a.subrange(da, a.len() as int).len() == n);
    assert(b.len() - db == n);
    assert forall|j: int| da <= j < a.len() implies #[trigger] a[j] == b[j - da + db] by {
        assert(a.subrange(da, a.len() as int)[j - da] == a[j]);
        assert(b.subrange(db, b.len() as int)[j - da] == b[j - da + db]);
    }
    if p < n {
        assert(a[da + p] == b[db + p]);
    }
    if p + 1 < n {
        assert(a[da + p + 1] == b[db + p + 1]);
    }
    if da + p != a.len() {
        match skip2(b, db + p) {
            Some(end) => {
                let ea = end - db + da;
                assert(a.subrange(da + p + 2, ea) =~= b.subrange(db + p + 2, end)) by {
                    assert forall|i: int| 0 <= i < ea - (da + p + 2) implies #[trigger] a.subrange(da + p + 2, ea)[i]
                        == b.subrange(db + p + 2, end)[i] by {
                        assert(a[da + p + 2 + i] == b[db + p + 2 + i]);
                    }
                }
            },
            None => {},
        }
    }
}

proof fn lemma_be24_bytes(v: int)
    requires
        0 <= v < 16777216,
    ensures
        be24(be24_bytes(v)[0], be24_bytes(v)[1], be24_bytes(v)[2]) == v,
{
    let a = v / 65536;
    let b = (v / 256) % 256;
    let c = v % 256;
    assert(0 <= a < 256 && 0 <= b < 256 && 0 <= c < 256) by (nonlinear_arith)
        requires
            0 <= v < 16777216,
            a == v / 65536,
            b == (v / 256) % 256,
            c == v % 256,
    ;
    assert(a * 65536 + b * 256 + c == v) by (nonlinear_arith)
        requires
            0 <= v,
            a == v / 65536,
            b == (v / 256) % 256,
            c == v % 256,
    ;
    assert(be24_bytes(v)[0] == a && be24_bytes(v)[1] == b && be24_bytes(v)[2] == c);
}

proof fn lemma_with_session_id_shape(h: Seq<u8>, sid: Seq<u8>)
    requires
        h.len() >= 39,
        sid.len() <= 255,
        be24(h[1], h[2], h[3]) + sid.len() < 16777216,
    ensures
        with_session_id(h, sid).len() == h.len() + sid.len(),
        with_session_id(h, sid)[0] == h[0],
        be24(with_session_id(h, sid)[1], with_session_id(h, sid)[2], with_session_id(h, sid)[3]) == be24(
            h[1],
            h[2],
            h[3],
        ) + sid.len(),
        with_session_id(h, sid)[38] == sid.len(),
        with_session_id(h, sid).subrange(39 + sid.len() as int, with_session_id(h, sid).len() as int) == h.subrange(
            39,
            h.len() as int,
        ),
{
    let n = sid.len() as int;
    let g = with_session_id(h, sid);
    let v = be24(h[1], h[2], h[3]) + n;
    lemma_be24_bytes(v);
    assert(g[1] == be24_bytes(v)[0] && g[2] == be24_bytes(v)[1] && g[3] == be24_bytes(v)[2]);
    assert(g[38] == n as u8);
    assert(g.subrange(39 + n, g.len() as int) =~= h.subrange(39, h.len() as int)) by {
        assert forall|i: int| 0 <= i < h.len() - 39 implies #[trigger] g.subrange(39 + n, g.len() as int)[i]
            == h.subrange(39, h.len() as int)[i] by {
            assert(g[39 + n + i] == h[39 + i]);
        }
    }
}

/// The verdict on a ClientHello does not depend on its legacy_session_id:
/// a hello carrying a session id of up to 255 bytes (TLS 1.3 clients send
/// 32) gives what the same hello with an empty one gives, whatever the
/// id's bytes.
pub proof fn law_session_id_does_not_matter(h: Seq<u8>, sid: Seq<u8>)
    requires
        h.len() >= 39,
        h[38] == 0,
        sid.len() <= 255,
        be24(h[1], h[2], h[3]) + sid.len() < 16777216,
    ensures
        handshake_verdict(with_session_id(h, sid)) == handshake_verdict(h),
        with_session_id(h, sid).len() <= 65535 ==> sni_verdict(handshake_record(with_session_id(h, sid)))
            == sni_verdict(handshake_record(h)),
{
    let n = sid.len() as int;
    let g = with_session_id(h, sid);
    lemma_with_session_id_shape(h, sid);
    assert(skip1(g, 38) == Some(39 + n));
    assert(skip1(h, 38) == Some(39int));
    lemma_skips_shift(g, h, 39 + n, 39, 0);
    match skip2(h, 39) {
        Some(p2) => {
            lemma_skips_shift(g, h, 39 + n, 39, p2 - 39);
            match skip1(h, p2) {
                Some(p3) => {
                    lemma_skips_shift(g, h, 39 + n, 39, p3 - 39);
                },
                None => {},
            }
        },
        None => {},
    }
    if g.len() <= 65535 {
        law_sni_verdict_ignores_record_boundaries(g, 1, Seq::empty());
        law_sni_verdict_ignores_record_boundaries(h, 1, Seq::empty());
    }
}

} // verus!
