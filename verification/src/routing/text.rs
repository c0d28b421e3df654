//! The proxy's small text rules: host names, ports in authorities, HTML
//! escaping and the messages it answers with.

use vstd::prelude::*;
use vstd::utf8::{decode_utf8, encode_utf8, is_char_boundary};
use crate::names::trim_end_dots;
use crate::text::{chars_of, dec, dec_string, push_char, string_of};

verus! {

// ─── suffixes ───────────────────────────────────────────────────────────────

/// A byte with ASCII upper case folded to lower case.
pub open spec fn lower_byte(b: u8) -> u8 {
    if 65 <= b <= 90 {
        (b + 32) as u8
    } else {
        b
    }
}

/// Whether two byte strings are equal once ASCII case is folded
/// (`eq_ignore_ascii_case`).
pub open spec fn eq_fold_bytes(a: Seq<u8>, b: Seq<u8>) -> bool {
    a.len() == b.len() && forall|i: int| 0 <= i < a.len() ==> #[trigger] lower_byte(a[i]) == lower_byte(b[i])
}

/// Where `.{suffix}` starts at the end of `s`, compared as bytes ignoring
/// ASCII case, with something before it and at a char boundary.
pub open spec fn dot_suffix_split(s: Seq<u8>, suffix: Seq<u8>) -> Option<int> {
    if s.len() <= suffix.len() + 1 {
        None
    } else {
        let split = s.len() - suffix.len() - 1;
        if is_char_boundary(s, split) && s[split] == 46u8 && eq_fold_bytes(
            s.subrange(split + 1, s.len() as int),
            suffix,
        ) {
            Some(split)
        } else {
            None
        }
    }
}

/// What is left of `s` before a trailing `.{suffix}` (ignoring ASCII case),
/// as text.
pub open spec fn spec_strip_dot_suffix(s: Seq<char>, suffix: Seq<char>) -> Option<Seq<char>> {
    match dot_suffix_split(encode_utf8(s), encode_utf8(suffix)) {
        Some(split) => Some(decode_utf8(encode_utf8(s).subrange(0, split))),
        None => None,
    }
}

/// The subdomain of `host` under `tld`, as text.
pub open spec fn spec_strip_tld(host: Seq<char>, tld: Seq<char>) -> Option<Seq<char>> {
    spec_strip_dot_suffix(trim_end_dots(host), tld)
}

fn lower_u8(b: u8) -> (r: u8)
    ensures
        r == lower_byte(b),
{
    if 65 <= b && b <= 90 {
        b + 32
    } else {
        b
    }
}

/// Strip a trailing `.{suffix}` from `s`, ignoring ASCII case.
///
/// Returns the remaining prefix, or `None` when `s` does not end that way.
pub fn strip_dot_suffix_ignore_case(s: &str, suffix: &str) -> (r: Option<String>)
    ensures
        match r {
            Some(h) => dot_suffix_split(encode_utf8(s@), encode_utf8(suffix@)) matches Some(split) && encode_utf8(h@)
                == encode_utf8(s@).subrange(0, split),
            None => dot_suffix_split(encode_utf8(s@), encode_utf8(suffix@)) is None,
        },
        match r {
            Some(h) => spec_strip_dot_suffix(s@, suffix@) == Some(h@),
            None => spec_strip_dot_suffix(s@, suffix@) is None,
        },
{
    let sb = s.as_bytes();
    let fb = suffix.as_bytes();
    if sb.len() == 0 || fb.len() >= sb.len() - 1 {
        return None;
    }
    let split = sb.len() - fb.len() - 1;
    if !s.is_char_boundary(split) {
        return None;
    }
    if sb[split] != 46u8 {
        return None;
    }
    let n = sb.len();
    let mut i: usize = 0;
    while i < fb.len()
        invariant
            n == sb@.len(),
            sb@ == encode_utf8(s@),
            fb@ == encode_utf8(suffix@),
            split + 1 + fb@.len() == sb@.len(),
            i <= fb@.len(),
            forall|k: int| 0 <= k < i ==> lower_byte(#[trigger] sb@[split + 1 + k]) == lower_byte(fb@[k]),
        decreases fb.len() - i,
    {
        if lower_u8(sb[split + 1 + i]) != lower_u8(fb[i]) {
            assert(lower_byte(sb@.subrange(split + 1, sb@.len() as int)[i as int]) != lower_byte(fb@[i as int]));
            return None;
        }
        i += 1;
    }
    assert forall|k: int| 0 <= k < fb@.len() implies #[trigger] lower_byte(
        sb@.subrange(split + 1, sb@.len() as int)[k],
    ) == lower_byte(fb@[k]) by {
        assert(sb@.subrange(split + 1, sb@.len() as int)[k] == sb@[split + 1 + k]);
    }
    let (head, _tail) = s.split_at(split);
    let h = head.to_owned();
    proof {
        vstd::utf8::encode_utf8_decode_utf8(h@);
    }
    Some(h)
}

/// `s` without trailing dots.
fn without_end_dots(s: &str) -> (r: String)
    ensures
        r@ == trim_end_dots(s@),
{
    let v = chars_of(s);
    let k = crate::names::trim_end_dots_len(&v, v.len());
    assert(v@.subrange(0, v@.len() as int) =~= v@);
    string_of(&v, 0, k)
}

/// The subdomain of `host` under `tld`: the host without a trailing root
/// dot and without `.{tld}` (ignoring ASCII case); `None` when nothing is
/// left or the host is not under the TLD.
///
/// `api.myproject.localhost` gives `api.myproject`; `API.LocalHost.` gives
/// `API`; `localhost` gives nothing.
pub fn strip_tld(host: &str, tld: &str) -> (r: Option<String>)
    ensures
        match r {
            Some(h) => dot_suffix_split(encode_utf8(trim_end_dots(host@)), encode_utf8(tld@)) matches Some(split)
                && encode_utf8(h@) == encode_utf8(trim_end_dots(host@)).subrange(0, split),
            None => dot_suffix_split(encode_utf8(trim_end_dots(host@)), encode_utf8(tld@)) is None,
        },
        match r {
            Some(h) => spec_strip_tld(host@, tld@) == Some(h@),
            None => spec_strip_tld(host@, tld@) is None,
        },
{
    let trimmed = without_end_dots(host);
    strip_dot_suffix_ignore_case(trimmed.as_str(), tld)
}

// ─── ports ──────────────────────────────────────────────────────────────────

/// The value of a run of decimal digits.
pub open spec fn digits_value(d: Seq<char>) -> nat
    decreases d.len(),
{
    if d.len() == 0 {
        0
    } else {
        10 * digits_value(d.drop_last()) + ((d.last() as u32) - 48) as nat
    }
}

pub open spec fn is_digit(c: char) -> bool {
    '0' <= c && c <= '9'
}

/// The digits of a number: after a leading `+`, if there is one.
pub open spec fn unsigned_digits(p: Seq<char>) -> Seq<char> {
    if p.len() > 0 && p[0] == '+' {
        p.drop_first()
    } else {
        p
    }
}

/// What `str::parse::<u16>` gives: an optional `+`, then one or more
/// digits whose value fits.
pub open spec fn parse_u16(p: Seq<char>) -> Option<u16> {
    let d = unsigned_digits(p);
    if d.len() > 0 && (forall|i: int| 0 <= i < d.len() ==> is_digit(#[trigger] d[i])) && digits_value(d) <= 65535 {
        Some(digits_value(d) as u16)
    } else {
        None
    }
}

pub proof fn lemma_digits_grow(d: Seq<char>, i: int)
    requires
        0 <= i <= d.len(),
        forall|k: int| 0 <= k < d.len() ==> is_digit(#[trigger] d[k]),
    ensures
        digits_value(d.subrange(0, i)) <= digits_value(d),
    decreases d.len() - i,
{
    if i < d.len() {
        lemma_digits_grow(d, i + 1);
        assert(d.subrange(0, i + 1).drop_last() =~= d.subrange(0, i));
    } else {
        assert(d.subrange(0, i) =~= d);
    }
}

/// [`parse_u16`] in executable form.
pub fn parse_port(p: &str) -> (r: Option<u16>)
    ensures
        r == parse_u16(p@),
{
    let v = chars_of(p);
    let start: usize = if v.len() > 0 && v[0] == '+' {
        1
    } else {
        0
    };
    let ghost d = unsigned_digits(p@);
    assert(d =~= v@.subrange(start as int, v@.len() as int));
    if start == v.len() {
        return None;
    }
    let mut value: u32 = 0;
    let mut i = start;
    while i < v.len()
        invariant
            start <= i <= v@.len(),
            v@ == p@,
            d == v@.subrange(start as int, v@.len() as int),
            d == unsigned_digits(p@),
            forall|k: int| start <= k < i ==> is_digit(#[trigger] v@[k]),
            value == digits_value(v@.subrange(start as int, i as int)),
            value <= 65535,
        decreases v.len() - i,
    {
        let c = v[i];
        if !('0' <= c && c <= '9') {
            assert(!is_digit(d[i - start]));
            return None;
        }
        assert(v@.subrange(start as int, i + 1).drop_last() =~= v@.subrange(start as int, i as int));
        value = value * 10 + (c as u32 - 48);
        i += 1;
        if value > 65535 {
            proof {
                if forall|j: int| 0 <= j < d.len() ==> is_digit(#[trigger] d[j]) {
                    lemma_digits_grow(d, i - start);
                    assert(d.subrange(0, i - start) =~= v@.subrange(start as int, i as int));
                }
            }
            return None;
        }
    }
    assert(v@.subrange(start as int, i as int) =~= d);
    Some(value as u16)
}

/// The last position of `c` in `s`.
pub open spec fn last_index(s: Seq<char>, c: char) -> Option<int>
    decreases s.len(),
{
    if s.len() == 0 {
        None
    } else if s.last() == c {
        Some(s.len() - 1)
    } else {
        last_index(s.drop_last(), c)
    }
}

pub(crate) fn last_index_of(v: &Vec<char>, c: char) -> (r: Option<usize>)
    ensures
        match r {
            Some(i) => last_index(v@, c) == Some(i as int) && i < v@.len(),
            None => last_index(v@, c) is None,
        },
{
    let mut i = v.len();
    assert(v@.subrange(0, i as int) =~= v@);
    while i > 0
        invariant
            i <= v@.len(),
            last_index(v@, c) == last_index(v@.subrange(0, i as int), c),
        decreases i,
    {
        if v[i - 1] == c {
            return Some(i - 1);
        }
        assert(v@.subrange(0, i as int).drop_last() =~= v@.subrange(0, i - 1));
        i -= 1;
    }
    assert(v@.subrange(0, 0) =~= Seq::<char>::empty());
    None
}

/// The port a CONNECT authority (`host:port`, `[v6]:port`) names.
pub open spec fn spec_connect_port(a: Seq<char>) -> Option<u16> {
    match last_index(a, ':') {
        None => None,
        Some(i) => {
            let host = a.subrange(0, i);
            if host.contains(':') && !(host.len() > 0 && host.last() == ']') {
                None
            } else {
                parse_u16(a.subrange(i + 1, a.len() as int))
            }
        },
    }
}

/// The port in a CONNECT authority (`host:port`, `[v6]:port`), if it names
/// one. A bare IPv6 literal's last colon is inside the address, not before
/// a port.
pub fn connect_port(authority: &str) -> (r: Option<u16>)
    ensures
        r == spec_connect_port(authority@),
{
    let v = chars_of(authority);
    let i = match last_index_of(&v, ':') {
        Some(i) => i,
        None => return None,
    };
    let mut has_colon = false;
    let mut k: usize = 0;
    while k < i
        invariant
            i < v@.len(),
            k <= i,
            has_colon == (exists|j: int| 0 <= j < k && v@[j] == ':'),
        decreases i - k,
    {
        if v[k] == ':' {
            has_colon = true;
        }
        k += 1;
    }
    let ghost host = v@.subrange(0, i as int);
    assert(has_colon == host.contains(':')) by {
        if has_colon {
            let j = choose|j: int| 0 <= j < i && v@[j] == ':';
            assert(host[j] == ':');
        }
        if host.contains(':') {
            let j = choose|j: int| 0 <= j < host.len() && host[j] == ':';
            assert(v@[j] == ':');
        }
    }
    let bracket = i > 0 && v[i - 1] == ']';
    if has_colon && !bracket {
        return None;
    }
    let n = v.len();
    assert(i < n);
    let port = string_of(&v, i + 1, n);
    parse_port(port.as_str())
}

// ─── the port a Host header carries ─────────────────────────────────────────

/// The `:port` part of a Host header: after `]:` for a bracketed IPv6
/// literal, after the last `:` otherwise, when that is one or more digits.
/// The text after the port separator of a Host header.
pub open spec fn port_text(h: Seq<char>) -> Option<Seq<char>> {
    if h.len() > 0 && h[0] == '[' {
        match crate::setup::blocks::find(h, "]:"@) {
            Some(i) => Some(h.subrange(i + 2, h.len() as int)),
            None => None,
        }
    } else {
        match last_index(h, ':') {
            Some(i) => Some(h.subrange(i + 1, h.len() as int)),
            None => None,
        }
    }
}

pub open spec fn spec_host_port_suffix(h: Seq<char>) -> Seq<char> {
    match port_text(h) {
        Some(p) => if p.len() > 0 && forall|i: int| 0 <= i < p.len() ==> is_digit(#[trigger] p[i]) {
            ":"@ + p
        } else {
            Seq::empty()
        },
        None => Seq::empty(),
    }
}

/// The `:port` part of a Host header, or an empty string when it carries
/// none.
///
/// Links on pitchfork's own pages keep the port the request arrived on.
pub fn host_port_suffix(raw_host: &str) -> (r: String)
    ensures
        r@ == spec_host_port_suffix(raw_host@),
{
    let v = chars_of(raw_host);
    let from: Option<usize> = if v.len() > 0 && v[0] == '[' {
        let needle = chars_of("]:");
        proof { reveal_strlit("]:"); }
        match crate::setup::blocks::find_chars(&v, &needle) {
            Some(i) => {
                proof { crate::setup::blocks::lemma_find_occurs(v@, needle@, 0); }
                Some(i + 2)
            },
            None => None,
        }
    } else {
        match last_index_of(&v, ':') {
            Some(i) => Some(i + 1),
            None => None,
        }
    };
    proof {
        if v@.len() > 0 && v@[0] == '[' {
            crate::setup::blocks::lemma_find_occurs(v@, "]:"@, 0);
        }
    }
    let start = match from {
        Some(s) => s,
        None => {
            assert(port_text(v@) is None);
            return String::new();
        },
    };
    assert(start <= v@.len());
    assert(port_text(v@) == Some(v@.subrange(start as int, v@.len() as int)));
    let mut ok = start < v.len();
    let mut k = start;
    while k < v.len()
        invariant
            start <= k <= v@.len(),
            ok == (start < v@.len() && forall|j: int| start <= j < k ==> is_digit(#[trigger] v@[j])),
        decreases v.len() - k,
    {
        if !('0' <= v[k] && v[k] <= '9') {
            ok = false;
        }
        k += 1;
    }
    let ghost p = v@.subrange(start as int, v@.len() as int);
    assert(ok == (p.len() > 0 && forall|j: int| 0 <= j < p.len() ==> is_digit(#[trigger] p[j]))) by {
        if ok {
            assert forall|j: int| 0 <= j < p.len() implies is_digit(#[trigger] p[j]) by {
                assert(p[j] == v@[start + j]);
            }
        } else if start < v@.len() {
            let j = choose|j: int| start <= j < v@.len() && !is_digit(#[trigger] v@[j]);
            assert(p[j - start] == v@[j]);
        }
    }
    if ok {
        let mut r = String::from_str(":");
        let port = string_of(&v, start, v.len());
        r.append(port.as_str());
        assert(r@ == ":"@ + p);
        r
    } else {
        String::new()
    }
}

// ─── HTML ───────────────────────────────────────────────────────────────────

/// The HTML escape of one char.
pub open spec fn escape_char(c: char) -> Seq<char> {
    if c == '&' {
        "&amp;"@
    } else if c == '<' {
        "&lt;"@
    } else if c == '>' {
        "&gt;"@
    } else if c == '"' {
        "&quot;"@
    } else if c == '\'' {
        "&#x27;"@
    } else {
        seq![c]
    }
}

/// `s` with each of the five characters that change the meaning of HTML
/// text escaped.
pub open spec fn spec_escape_html(s: Seq<char>) -> Seq<char>
    decreases s.len(),
{
    if s.len() == 0 {
        Seq::empty()
    } else {
        spec_escape_html(s.drop_last()) + escape_char(s.last())
    }
}

/// Escape the five characters that change the meaning of HTML text.
pub fn escape_html(s: &str) -> (r: String)
    ensures
        r@ == spec_escape_html(s@),
{
    let v = chars_of(s);
    let mut r = String::new();
    let mut i: usize = 0;
    while i < v.len()
        invariant
            i <= v@.len(),
            v@ == s@,
            r@ == spec_escape_html(v@.subrange(0, i as int)),
        decreases v.len() - i,
    {
        let c = v[i];
        assert(v@.subrange(0, i + 1).drop_last() =~= v@.subrange(0, i as int));
        if c == '&' {
            r.append("&amp;");
        } else if c == '<' {
            r.append("&lt;");
        } else if c == '>' {
            r.append("&gt;");
        } else if c == '"' {
            r.append("&quot;");
        } else if c == '\'' {
            r.append("&#x27;");
        } else {
            let ghost before = r@;
            push_char(&mut r, c);
            assert(r@ =~= before + seq![c]);
        }
        i += 1;
    }
    assert(v@.subrange(0, i as int) =~= s@);
    r
}

// ─── messages ───────────────────────────────────────────────────────────────

/// Why a passthrough host could not be spliced on this connection.
pub open spec fn spec_passthrough_unroutable(host: Seq<char>, is_tls: bool) -> Seq<char> {
    if is_tls {
        "'"@ + host + "' uses proxy_tls = \"passthrough\", which routes on the host name in the TLS ClientHello.\nThis connection's TLS handshake named a different host, so it was terminated here and the request inside it cannot be spliced to the daemon.\nMake the connection itself name '"@
            + host + "' rather than overriding the Host header of a connection opened to something else."@
    } else {
        "'"@ + host + "' uses proxy_tls = \"passthrough\", but the proxy is serving plain HTTP.\nPassthrough splices a TLS stream to the daemon, so it requires settings.proxy.https = true.\nEnable HTTPS on the proxy, or set proxy_tls = \"terminate\" on the daemon."@
    }
}

/// Why a request for a passthrough host reached the HTTP path, and what
/// fixes it: over TLS the handshake named another host; over plain HTTP
/// the proxy is not serving HTTPS.
pub fn passthrough_unroutable_message(host: &str, is_tls: bool) -> (m: String)
    ensures
        m@ == spec_passthrough_unroutable(host@, is_tls),
{
    let mut m = String::from_str("'");
    m.append(host);
    if is_tls {
        m.append(
            "' uses proxy_tls = \"passthrough\", which routes on the host name in the TLS ClientHello.\nThis connection's TLS handshake named a different host, so it was terminated here and the request inside it cannot be spliced to the daemon.\nMake the connection itself name '",
        );
        m.append(host);
        m.append("' rather than overriding the Host header of a connection opened to something else.");
    } else {
        m.append(
            "' uses proxy_tls = \"passthrough\", but the proxy is serving plain HTTP.\nPassthrough splices a TLS stream to the daemon, so it requires settings.proxy.https = true.\nEnable HTTPS on the proxy, or set proxy_tls = \"terminate\" on the daemon.",
        );
    }
    m
}

/// Why `proxy.tls_cert` and `proxy.tls_key` cannot be used as configured:
/// they are a pair, so both are set or neither is.
pub open spec fn spec_tls_pair_problem(cert: Seq<char>, key: Seq<char>) -> Option<Seq<char>> {
    if cert.len() > 0 && key.len() == 0 {
        Some(
            "proxy.tls_cert is set but proxy.tls_key is empty; set both, or neither to use the generated CA"@,
        )
    } else if cert.len() == 0 && key.len() > 0 {
        Some(
            "proxy.tls_key is set but proxy.tls_cert is empty; set both, or neither to use the generated CA"@,
        )
    } else {
        None
    }
}

pub fn tls_pair_problem(cert: &str, key: &str) -> (r: Option<String>)
    ensures
        match r {
            Some(m) => spec_tls_pair_problem(cert@, key@) == Some(m@),
            None => spec_tls_pair_problem(cert@, key@) is None,
        },
{
    match (cert.is_empty(), key.is_empty()) {
        (false, true) => Some(
            String::from_str(
                "proxy.tls_cert is set but proxy.tls_key is empty; set both, or neither to use the generated CA",
            ),
        ),
        (true, false) => Some(
            String::from_str(
                "proxy.tls_key is set but proxy.tls_cert is empty; set both, or neither to use the generated CA",
            ),
        ),
        _ => None,
    }
}

/// The message for a proxy port that would not bind, given the error's
/// text.
pub open spec fn spec_bind_error_message(port: u16, err: Seq<char>) -> Seq<char> {
    if port < 1024 {
        "Failed to bind proxy server to port "@ + dec(port as nat) + ": "@ + err
            + "\nHint: ports below 1024 require elevated privileges. Run `pitchfork proxy setup`, which grants the bind capability on Linux, or set an unprivileged proxy.port and let setup redirect "@
            + dec(port as nat) + " to it."@
    } else {
        "Failed to bind proxy server to port "@ + dec(port as nat) + ": "@ + err
            + "\nHint: another process may already be using this port."@
    }
}

/// Build a human-friendly error message for a port binding failure.
pub fn bind_error_message(port: u16, err: &str) -> (m: String)
    ensures
        m@ == spec_bind_error_message(port, err@),
{
    let p = dec_string(port as u64);
    let mut m = String::from_str("Failed to bind proxy server to port ");
    m.append(p.as_str());
    m.append(": ");
    m.append(err);
    if port < 1024 {
        m.append(
            "\nHint: ports below 1024 require elevated privileges. Run `pitchfork proxy setup`, which grants the bind capability on Linux, or set an unprivileged proxy.port and let setup redirect ",
        );
        m.append(p.as_str());
        m.append(" to it.");
    } else {
        m.append("\nHint: another process may already be using this port.");
    }
    m
}

// ─── the certificate cache's file names ─────────────────────────────────────

/// The uppercase hex digit for `d < 16`.
pub open spec fn hex_digit(d: u8) -> char {
    if d < 10 {
        (48 + d) as char
    } else {
        (55 + d) as char
    }
}

/// A byte as a file name keeps it: letters, digits, `-` and `.`; every other
/// byte is `%` and two uppercase hex digits.
pub open spec fn stem_byte(b: u8) -> Seq<char> {
    if (48 <= b <= 57) || (65 <= b <= 90) || (97 <= b <= 122) || b == 45 || b == 46 {
        seq![b as char]
    } else {
        seq!['%', hex_digit(b / 16), hex_digit(b % 16)]
    }
}

pub open spec fn spec_cert_cache_file_stem(bytes: Seq<u8>) -> Seq<char>
    decreases bytes.len(),
{
    if bytes.len() == 0 {
        Seq::empty()
    } else {
        spec_cert_cache_file_stem(bytes.drop_last()) + stem_byte(bytes.last())
    }
}

fn hex(d: u8) -> (c: char)
    requires
        d < 16,
    ensures
        c == hex_digit(d),
{
    if d < 10 {
        (48 + d) as char
    } else {
        (55 + d) as char
    }
}

/// A file name for `domain`'s cached certificate, distinct for distinct
/// names: letters, digits, `-` and `.` are kept, every other byte is
/// percent-encoded.
pub fn cert_cache_file_stem(domain: &str) -> (r: String)
    ensures
        r@ == spec_cert_cache_file_stem(encode_utf8(domain@)),
{
    let b = domain.as_bytes();
    let mut r = String::new();
    let mut i: usize = 0;
    while i < b.len()
        invariant
            i <= b@.len(),
            b@ == encode_utf8(domain@),
            r@ == spec_cert_cache_file_stem(b@.subrange(0, i as int)),
        decreases b.len() - i,
    {
        let x = b[i];
        assert(b@.subrange(0, i + 1).drop_last() =~= b@.subrange(0, i as int));
        let ghost before = r@;
        if (48 <= x && x <= 57) || (65 <= x && x <= 90) || (97 <= x && x <= 122) || x == 45 || x == 46 {
            push_char(&mut r, x as char);
        } else {
            push_char(&mut r, '%');
            push_char(&mut r, hex(x / 16));
            push_char(&mut r, hex(x % 16));
        }
        assert(r@ =~= before + stem_byte(x));
        i += 1;
    }
    assert(b@.subrange(0, i as int) =~= b@);
    r
}

/// The value of an uppercase hex digit.
pub open spec fn hex_value(c: char) -> int {
    if c <= '9' {
        c as int - 48
    } else {
        c as int - 55
    }
}

/// The bytes a cache file name was made from, read left to right: `%` and
/// two hex digits stand for one byte, any other char for itself.
pub open spec fn unstem(s: Seq<char>) -> Seq<u8>
    decreases s.len(),
{
    if s.len() == 0 {
        Seq::empty()
    } else if s[0] == '%' && s.len() >= 3 {
        seq![(hex_value(s[1]) * 16 + hex_value(s[2])) as u8] + unstem(s.subrange(3, s.len() as int))
    } else {
        seq![s[0] as u8] + unstem(s.subrange(1, s.len() as int))
    }
}

proof fn lemma_stem_front(bytes: Seq<u8>)
    requires
        bytes.len() > 0,
    ensures
        spec_cert_cache_file_stem(bytes) == stem_byte(bytes[0]) + spec_cert_cache_file_stem(
            bytes.subrange(1, bytes.len() as int),
        ),
    decreases bytes.len(),
{
    if bytes.len() == 1 {
        assert(bytes.drop_last() =~= Seq::<u8>::empty());
        assert(bytes.subrange(1, 1) =~= Seq::<u8>::empty());
        assert(stem_byte(bytes[0]) + Seq::<char>::empty() =~= stem_byte(bytes[0]));
    } else {
        lemma_stem_front(bytes.drop_last());
        let tail = bytes.subrange(1, bytes.len() as int);
        assert(tail.drop_last() =~= bytes.drop_last().subrange(1, bytes.drop_last().len() as int));
        assert(tail.last() == bytes.last());
        assert(bytes.drop_last()[0] == bytes[0]);
    }
}

proof fn lemma_hex_digit(d: u8)
    requires
        d < 16,
    ensures
        hex_value(hex_digit(d)) == d,
        hex_digit(d) != '%',
{
}

proof fn lemma_unstem_byte(b: u8, rest: Seq<char>)
    ensures
        unstem(stem_byte(b) + rest) == seq![b] + unstem(rest),
{
    let s = stem_byte(b) + rest;
    if (48 <= b <= 57) || (65 <= b <= 90) || (97 <= b <= 122) || b == 45 || b == 46 {
        assert(s[0] == b as char);
        assert(s.subrange(1, s.len() as int) =~= rest);
    } else {
        lemma_hex_digit(b / 16);
        lemma_hex_digit(b % 16);
        assert(s[0] == '%');
        assert(s.subrange(3, s.len() as int) =~= rest);
        assert(hex_value(s[1]) * 16 + hex_value(s[2]) == b);
    }
}

proof fn lemma_unstem_stem(bytes: Seq<u8>)
    ensures
        unstem(spec_cert_cache_file_stem(bytes)) == bytes,
    decreases bytes.len(),
{
    if bytes.len() > 0 {
        let tail = bytes.subrange(1, bytes.len() as int);
        lemma_stem_front(bytes);
        lemma_unstem_stem(tail);
        lemma_unstem_byte(bytes[0], spec_cert_cache_file_stem(tail));
        assert(seq![bytes[0]] + tail =~= bytes);
    }
}

proof fn lemma_stem_has_no_slash(bytes: Seq<u8>)
    ensures
        !spec_cert_cache_file_stem(bytes).contains('/'),
    decreases bytes.len(),
{
    if bytes.len() > 0 {
        lemma_stem_has_no_slash(bytes.drop_last());
        let b = bytes.last();
        let head = spec_cert_cache_file_stem(bytes.drop_last());
        let s = head + stem_byte(b);
        if (48 <= b <= 57) || (65 <= b <= 90) || (97 <= b <= 122) || b == 45 || b == 46 {
        } else {
            lemma_hex_digit(b / 16);
            lemma_hex_digit(b % 16);
        }
        assert forall|i: int| 0 <= i < s.len() implies s[i] != '/' by {
            if i < head.len() {
                assert(s[i] == head[i]);
            }
        }
    }
}

/// Distinct names are cached in distinct files, and no file name carries
/// a path separator: a certificate minted for one name is never read back
/// for another, nor written outside the cache directory.
pub proof fn law_cert_files_are_distinct(a: Seq<char>, b: Seq<char>)
    ensures
        a != b ==> spec_cert_cache_file_stem(encode_utf8(a)) != spec_cert_cache_file_stem(encode_utf8(b)),
        !spec_cert_cache_file_stem(encode_utf8(a)).contains('/'),
{
    lemma_unstem_stem(encode_utf8(a));
    lemma_unstem_stem(encode_utf8(b));
    vstd::utf8::encode_utf8_decode_utf8(a);
    vstd::utf8::encode_utf8_decode_utf8(b);
    lemma_stem_has_no_slash(encode_utf8(a));
}

} // verus!
