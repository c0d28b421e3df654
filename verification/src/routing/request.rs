//! What the proxy makes of an incoming request before it forwards it: the
//! host it routes on, loop detection, CONNECT refusals, and the headers the
//! backend is told.

use vstd::prelude::*;
use crate::names::{owns_name, spec_owns_name, trim_end_dots, trim_end_dots_len};
use crate::routing::text::{connect_port, digits_value, is_digit, last_index, spec_connect_port, unsigned_digits};
use crate::setup::blocks::{find, find_chars, lemma_find_occurs};
use crate::split::{before_char, before_char_from, lead_char, trail_char};
use crate::text::{chars_of, dec, dec_string, string_of};

verus! {

// ─── the host a request routes on ───────────────────────────────────────────

/// `s` without leading `c`s (`str::trim_start_matches`).
pub open spec fn strip_lead(s: Seq<char>, c: char) -> Seq<char> {
    s.subrange(lead_char(s, c) as int, s.len() as int)
}

/// `s` without trailing `c`s (`str::trim_end_matches`).
pub open spec fn strip_trail(s: Seq<char>, c: char) -> Seq<char> {
    s.subrange(0, s.len() - trail_char(s, c))
}

/// `s` without the brackets around an IPv6 literal.
pub open spec fn unbracket(s: Seq<char>) -> Seq<char> {
    strip_trail(strip_lead(s, '['), ']')
}

proof fn lemma_lead_char_len(s: Seq<char>, c: char)
    ensures
        lead_char(s, c) <= s.len(),
    decreases s.len(),
{
    if s.len() > 0 && s[0] == c {
        lemma_lead_char_len(s.drop_first(), c);
    }
}

proof fn lemma_trail_char_len(s: Seq<char>, c: char)
    ensures
        trail_char(s, c) <= s.len(),
    decreases s.len(),
{
    if s.len() > 0 && s.last() == c {
        lemma_trail_char_len(s.drop_last(), c);
    }
}

/// The bounds of `unbracket(v[from..to])` within `v`.
fn unbracket_range(v: &Vec<char>, from: usize, to: usize) -> (r: (usize, usize))
    requires
        from <= to <= v@.len(),
    ensures
        from <= r.0 <= r.1 <= to,
        v@.subrange(r.0 as int, r.1 as int) == unbracket(v@.subrange(from as int, to as int)),
{
    let ghost s = v@.subrange(from as int, to as int);
    let mut start = from;
    assert(v@.subrange(from as int, to as int) =~= s);
    while start < to && v[start] == '['
        invariant
            from <= start <= to <= v@.len(),
            s == v@.subrange(from as int, to as int),
            lead_char(s, '[') == (start - from) + lead_char(v@.subrange(start as int, to as int), '['),
        decreases to - start,
    {
        assert(v@.subrange(start as int, to as int).drop_first() =~= v@.subrange(start + 1, to as int));
        start += 1;
    }
    proof {
        lemma_lead_char_len(s, '[');
    }
    let ghost t = v@.subrange(start as int, to as int);
    assert(strip_lead(s, '[') =~= t);
    let mut end = to;
    assert(t.subrange(0, t.len() as int) =~= t);
    while end > start && v[end - 1] == ']'
        invariant
            from <= start <= end <= to <= v@.len(),
            t == v@.subrange(start as int, to as int),
            trail_char(t, ']') == (to - end) + trail_char(v@.subrange(start as int, end as int), ']'),
        decreases end - start,
    {
        assert(v@.subrange(start as int, end as int).drop_last() =~= v@.subrange(start as int, end - 1));
        end -= 1;
    }
    proof {
        lemma_trail_char_len(t, ']');
    }
    assert(strip_trail(t, ']') =~= v@.subrange(start as int, end as int));
    (start, end)
}

/// The host a request routes on: the Host header (or `:authority`) without
/// its port, without the brackets of an IPv6 literal, and without a trailing
/// root dot.
pub open spec fn spec_routing_host(raw: Seq<char>) -> Seq<char> {
    let h = if raw.len() > 0 && raw[0] == '[' {
        unbracket(
            match find(raw, "]:"@) {
                Some(i) => raw.subrange(0, i),
                None => raw,
            },
        )
    } else {
        raw.subrange(0, before_char(raw, ':') as int)
    };
    trim_end_dots(h)
}

/// The host a request routes on.
pub fn routing_host(raw_host: &str) -> (r: String)
    ensures
        r@ == spec_routing_host(raw_host@),
{
    let v = chars_of(raw_host);
    let n = v.len();
    let (a, b) = if n > 0 && v[0] == '[' {
        let sep = chars_of("]:");
        let cut = match find_chars(&v, &sep) {
            Some(i) => {
                proof {
                    lemma_find_occurs(v@, sep@, 0);
                }
                i
            },
            None => n,
        };
        assert(v@.subrange(0, n as int) =~= v@);
        unbracket_range(&v, 0, cut)
    } else {
        let k = before_char_from(&v, 0, ':');
        assert(v@.subrange(0, n as int) =~= v@);
        (0, k)
    };
    let h = string_of(&v, a, b);
    let hv = chars_of(h.as_str());
    let k = trim_end_dots_len(&hv, hv.len());
    assert(hv@.subrange(0, hv@.len() as int) =~= hv@);
    string_of(&hv, 0, k)
}

// ─── loops ──────────────────────────────────────────────────────────────────

/// The request header counting how many times a request passed the proxy.
pub const PROXY_HOPS_HEADER: &'static str = "x-pitchfork-hops";

/// The response header every pitchfork answer carries.
pub const PITCHFORK_HEADER: &'static str = "x-pitchfork";

/// How many passes through the proxy make a loop.
pub const MAX_PROXY_HOPS: u64 = 5;

/// What `str::parse::<u64>` gives.
pub open spec fn parse_u64(p: Seq<char>) -> Option<u64> {
    let d = unsigned_digits(p);
    if d.len() > 0 && (forall|i: int| 0 <= i < d.len() ==> is_digit(#[trigger] d[i])) && digits_value(d)
        <= u64::MAX {
        Some(digits_value(d) as u64)
    } else {
        None
    }
}

/// [`parse_u64`] in executable form.
pub fn parse_u64_text(p: &str) -> (r: Option<u64>)
    ensures
        r == parse_u64(p@),
{
    let v = chars_of(p);
    let start: usize = if v.len() > 0 && v[0] == '+' {
        1
    } else {
        0
    };
    let ghost d = unsigned_digits(p@);
    assert(d =~= v@.subrange(start as int, v@.len() as int));
    if start == v.len() {
        return None;
    }
    let mut value: u128 = 0;
    let mut i = start;
    while i < v.len()
        invariant
            start <= i <= v@.len(),
            v@ == p@,
            d == v@.subrange(start as int, v@.len() as int),
            d == unsigned_digits(p@),
            forall|k: int| start <= k < i ==> is_digit(#[trigger] v@[k]),
            value == digits_value(v@.subrange(start as int, i as int)),
            value <= u64::MAX,
        decreases v.len() - i,
    {
        let c = v[i];
        if !('0' <= c && c <= '9') {
            assert(!is_digit(d[i - start]));
            return None;
        }
        assert(v@.subrange(start as int, i + 1).drop_last() =~= v@.subrange(start as int, i as int));
        value = value * 10 + (c as u128 - 48);
        i += 1;
        if value > u64::MAX as u128 {
            proof {
                if forall|j: int| 0 <= j < d.len() ==> is_digit(#[trigger] d[j]) {
                    crate::routing::text::lemma_digits_grow(d, i - start);
                    assert(d.subrange(0, i - start) =~= v@.subrange(start as int, i as int));
                }
            }
            return None;
        }
    }
    assert(v@.subrange(start as int, i as int) =~= d);
    Some(value as u64)
}

/// The hop count a request carries: only a request that came through
/// another pitchfork proxy has one. `header` is the value of the hop header
/// as text, `None` when it is absent or not text; an external client cannot
/// forge a count, since a value that is not a number counts as none.
pub open spec fn spec_hops(header: Option<Seq<char>>) -> u64 {
    match header {
        Some(v) => match parse_u64(v) {
            Some(n) => n,
            None => 0,
        },
        None => 0,
    }
}

/// The hop count a request carries.
pub fn hops_of(header: Option<&str>) -> (r: u64)
    ensures
        r == spec_hops(crate::names::opt_view(header)),
{
    match header {
        Some(v) => match parse_u64_text(v) {
            Some(n) => n,
            None => 0,
        },
        None => 0,
    }
}

/// Why a request is refused as a loop: it has passed through the proxy
/// [`MAX_PROXY_HOPS`] times or more.
pub open spec fn spec_loop_message(host: Seq<char>, hops: u64) -> Option<Seq<char>> {
    if hops >= MAX_PROXY_HOPS {
        Some(
            "Loop detected for '"@ + host + "': request has passed through the proxy "@ + dec(hops as nat)
                + " times.\nThis usually means a backend is proxying back through pitchfork without rewriting \nthe Host header. If you use Vite/webpack proxy, set changeOrigin: true."@,
        )
    } else {
        None
    }
}

/// Why a request is refused as a loop, if it is.
pub fn loop_message(host: &str, hops: u64) -> (r: Option<String>)
    ensures
        match r {
            Some(m) => spec_loop_message(host@, hops) == Some(m@),
            None => spec_loop_message(host@, hops) is None,
        },
{
    if hops >= MAX_PROXY_HOPS {
        let mut m = String::from_str("Loop detected for '");
        m.append(host);
        m.append("': request has passed through the proxy ");
        m.append(dec_string(hops).as_str());
        m.append(
            " times.\nThis usually means a backend is proxying back through pitchfork without rewriting \nthe Host header. If you use Vite/webpack proxy, set changeOrigin: true.",
        );
        Some(m)
    } else {
        None
    }
}

/// The hop count a forwarded request carries on: one more than it came in
/// with.
pub fn next_hops(hops: u64) -> (r: String)
    requires
        hops < MAX_PROXY_HOPS,
    ensures
        r@ == dec((hops + 1) as nat),
{
    dec_string(hops + 1)
}

// ─── CONNECT ────────────────────────────────────────────────────────────────

/// The host a CONNECT authority names: before its last `:`, without the
/// brackets of an IPv6 literal.
pub open spec fn spec_connect_host(authority: Seq<char>) -> Seq<char> {
    unbracket(
        match last_index(authority, ':') {
            Some(i) => authority.subrange(0, i),
            None => authority,
        },
    )
}

/// The host a CONNECT authority names.
pub fn connect_host(authority: &str) -> (r: String)
    ensures
        r@ == spec_connect_host(authority@),
{
    let v = chars_of(authority);
    let n = v.len();
    let mut k = n;
    assert(v@.subrange(0, n as int) =~= v@);
    while k > 0 && v[k - 1] != ':'
        invariant
            n == v@.len(),
            k <= n,
            last_index(v@, ':') == last_index(v@.subrange(0, k as int), ':'),
        decreases k,
    {
        assert(v@.subrange(0, k as int).drop_last() =~= v@.subrange(0, k - 1));
        k -= 1;
    }
    let cut = if k > 0 {
        k - 1
    } else {
        assert(v@.subrange(0, 0) =~= Seq::<char>::empty());
        n
    };
    let (a, b) = unbracket_range(&v, 0, cut);
    string_of(&v, a, b)
}

/// Why a CONNECT is refused, with the status to answer: pitchfork only
/// tunnels names under its TLD (403), and over plain HTTP it cannot serve
/// an `https://` URL's TLS handshake (502).
pub open spec fn spec_connect_refusal(tld: Seq<char>, host: Seq<char>, is_tls: bool, authority: Seq<char>) -> Option<
    (u16, Seq<char>),
> {
    if !spec_owns_name(tld, host) {
        Some((403u16, "pitchfork only tunnels CONNECT for names under ."@ + tld + " \u{2014} refusing "@ + host))
    } else if !is_tls && spec_connect_port(authority) == Some(443u16) {
        Some(
            (
                502u16,
                "proxy.https is false, so pitchfork cannot serve https://"@ + host
                    + "; use http:// or enable proxy.https"@,
            ),
        )
    } else {
        None
    }
}

/// Why a CONNECT for `authority` (naming `host`) is refused, if it is.
pub fn connect_refusal(tld: &str, host: &str, is_tls: bool, authority: &str) -> (r: Option<(u16, String)>)
    ensures
        match r {
            Some((status, m)) => spec_connect_refusal(tld@, host@, is_tls, authority@) == Some((status, m@)),
            None => spec_connect_refusal(tld@, host@, is_tls, authority@) is None,
        },
{
    if !owns_name(tld, host) {
        let mut m = String::from_str("pitchfork only tunnels CONNECT for names under .");
        m.append(tld);
        m.append(" \u{2014} refusing ");
        m.append(host);
        return Some((403, m));
    }
    if !is_tls && connect_port(authority) == Some(443u16) {
        let mut m = String::from_str("proxy.https is false, so pitchfork cannot serve https://");
        m.append(host);
        m.append("; use http:// or enable proxy.https");
        return Some((502, m));
    }
    None
}

/// The status of a CONNECT the proxy cannot take on now.
pub const STATUS_SERVICE_UNAVAILABLE: u16 = 503;

/// What becomes of a CONNECT for `authority`: `Ok` with the host to tunnel
/// to, or the status and message it is refused with. The checks run in
/// this order: the name must be under the TLD (403) and, over plain HTTP,
/// not ask for port 443 (502); then the proxy must know its own listener
/// address (`has_target`), must not be shutting down, and must have a
/// tunnel slot free (each 503).
pub open spec fn spec_connect_decision(
    tld: Seq<char>,
    authority: Seq<char>,
    is_tls: bool,
    has_target: bool,
    shutting_down: bool,
    slot_free: bool,
) -> Result<Seq<char>, (u16, Seq<char>)> {
    let host = spec_connect_host(authority);
    match spec_connect_refusal(tld, host, is_tls, authority) {
        Some(refusal) => Err(refusal),
        None => if !has_target {
            Err((STATUS_SERVICE_UNAVAILABLE, "The proxy listener address is unknown, so CONNECT cannot be tunnelled"@))
        } else if shutting_down {
            Err((STATUS_SERVICE_UNAVAILABLE, "The proxy is shutting down"@))
        } else if !slot_free {
            Err((STATUS_SERVICE_UNAVAILABLE, "Too many CONNECT tunnels are open"@))
        } else {
            Ok(host)
        },
    }
}

/// Decide a CONNECT for `authority`: the host to tunnel to, or why it is
/// refused. `slot_free` says whether a tunnel slot can be taken; the caller
/// takes it only when the answer is `Ok`, and holds it for the life of the
/// tunnel.
pub fn connect_decision(
    tld: &str,
    authority: &str,
    is_tls: bool,
    has_target: bool,
    shutting_down: bool,
    slot_free: bool,
) -> (r: Result<String, (u16, String)>)
    ensures
        match r {
            Ok(host) => spec_connect_decision(tld@, authority@, is_tls, has_target, shutting_down, slot_free) == Ok::<
                Seq<char>,
                (u16, Seq<char>),
            >(host@),
            Err((status, m)) => spec_connect_decision(tld@, authority@, is_tls, has_target, shutting_down, slot_free)
                == Err::<Seq<char>, (u16, Seq<char>)>((status, m@)),
        },
{
    let host = connect_host(authority);
    if let Some(refusal) = connect_refusal(tld, host.as_str(), is_tls, authority) {
        return Err(refusal);
    }
    if !has_target {
        return Err(
            (
                STATUS_SERVICE_UNAVAILABLE,
                String::from_str("The proxy listener address is unknown, so CONNECT cannot be tunnelled"),
            ),
        );
    }
    if shutting_down {
        return Err((STATUS_SERVICE_UNAVAILABLE, String::from_str("The proxy is shutting down")));
    }
    if !slot_free {
        return Err((STATUS_SERVICE_UNAVAILABLE, String::from_str("Too many CONNECT tunnels are open")));
    }
    Ok(host)
}

// ─── what the backend is told ───────────────────────────────────────────────

/// The host a request names: HTTP/2's `:authority` when it is there and not
/// empty, else the `Host` header.
pub open spec fn spec_request_host(authority: Option<Seq<char>>, host_header: Option<Seq<char>>) -> Option<Seq<char>> {
    match authority {
        Some(a) => if a.len() > 0 {
            Some(a)
        } else {
            host_header
        },
        None => host_header,
    }
}

/// The host a request names.
pub fn request_host(authority: Option<&str>, host_header: Option<&str>) -> (r: Option<String>)
    ensures
        crate::hostname::registry::opt_string(r) == spec_request_host(
            crate::names::opt_view(authority),
            crate::names::opt_view(host_header),
        ),
{
    match authority {
        Some(a) => if !a.is_empty() {
            return Some(a.to_owned());
        },
        None => {},
    }
    match host_header {
        Some(h) => Some(h.to_owned()),
        None => None,
    }
}

/// The `X-Forwarded-*` values a forwarded request carries, all derived from
/// the connection itself: the client's address (`127.0.0.1` when unknown),
/// the scheme, the Host header as sent, and the port after its last `:` or
/// the scheme's default.
pub open spec fn spec_forwarded(is_tls: bool, host_header: Seq<char>, remote: Option<Seq<char>>) -> Seq<
    (Seq<char>, Seq<char>),
> {
    seq![
        ("x-forwarded-for"@, match remote {
            Some(r) => r,
            None => "127.0.0.1"@,
        }),
        ("x-forwarded-proto"@, if is_tls {
            "https"@
        } else {
            "http"@
        }),
        ("x-forwarded-host"@, host_header),
        ("x-forwarded-port"@, match last_index(host_header, ':') {
            Some(i) => host_header.subrange(i + 1, host_header.len() as int),
            None => if is_tls {
                "443"@
            } else {
                "80"@
            },
        }),
    ]
}

/// The views of name and value pairs.
pub open spec fn pair_views(v: Seq<(String, String)>) -> Seq<(Seq<char>, Seq<char>)> {
    v.map_values(|p: (String, String)| (p.0@, p.1@))
}

/// The `X-Forwarded-*` headers a forwarded request carries, replacing any
/// the client sent.
pub fn forwarded_headers(is_tls: bool, host_header: &str, remote: Option<&str>) -> (r: Vec<(String, String)>)
    ensures
        pair_views(r@) == spec_forwarded(is_tls, host_header@, crate::names::opt_view(remote)),
{
    let v = chars_of(host_header);
    let n = v.len();
    let mut k = n;
    assert(v@.subrange(0, n as int) =~= v@);
    while k > 0 && v[k - 1] != ':'
        invariant
            n == v@.len(),
            k <= n,
            last_index(v@, ':') == last_index(v@.subrange(0, k as int), ':'),
        decreases k,
    {
        assert(v@.subrange(0, k as int).drop_last() =~= v@.subrange(0, k - 1));
        k -= 1;
    }
    let port = if k > 0 {
        string_of(&v, k, n)
    } else {
        assert(v@.subrange(0, 0) =~= Seq::<char>::empty());
        String::from_str(if is_tls {
            "443"
        } else {
            "80"
        })
    };
    let client = match remote {
        Some(a) => a.to_owned(),
        None => String::from_str("127.0.0.1"),
    };
    let r = vec![
        (String::from_str("x-forwarded-for"), client),
        (String::from_str("x-forwarded-proto"), String::from_str(if is_tls {
            "https"
        } else {
            "http"
        })),
        (String::from_str("x-forwarded-host"), host_header.to_owned()),
        (String::from_str("x-forwarded-port"), port),
    ];
    assert(pair_views(r@) =~= spec_forwarded(is_tls, host_header@, crate::names::opt_view(remote)));
    r
}

/// Whether hop-by-hop headers are stripped from a backend's response: over
/// HTTPS (HTTP/2 forbids them), except on a 101, whose `Upgrade` header the
/// client needs to finish a WebSocket handshake.
pub fn strips_hop_by_hop(is_tls: bool, status: u16) -> (r: bool)
    ensures
        r == (is_tls && status != 101),
{
    is_tls && status != 101
}

/// Cookie fields an HTTP/2 client sent separately, joined with `; ` into
/// one, since an HTTP/1.1 backend would join them with `, ` and corrupt
/// every value; `None` when there are fewer than two.
pub open spec fn spec_joined_cookies(fields: Seq<Seq<u8>>) -> Option<Seq<u8>> {
    if fields.len() < 2 {
        None
    } else {
        Some(join_bytes(fields))
    }
}

/// Byte strings joined with `; `.
pub open spec fn join_bytes(fields: Seq<Seq<u8>>) -> Seq<u8>
    decreases fields.len(),
{
    if fields.len() == 0 {
        Seq::empty()
    } else if fields.len() == 1 {
        fields[0]
    } else {
        join_bytes(fields.drop_last()) + seq![59u8, 32u8] + fields.last()
    }
}

/// The views of byte vectors.
pub open spec fn byte_views(v: Seq<Vec<u8>>) -> Seq<Seq<u8>> {
    v.map_values(|x: Vec<u8>| x@)
}

/// Rejoin a `cookie` header that arrived split across several fields.
pub fn joined_cookies(fields: &Vec<Vec<u8>>) -> (r: Option<Vec<u8>>)
    ensures
        match r {
            Some(j) => spec_joined_cookies(byte_views(fields@)) == Some(j@),
            None => spec_joined_cookies(byte_views(fields@)) is None,
        },
{
    if fields.len() < 2 {
        return None;
    }
    let ghost all = byte_views(fields@);
    let mut out: Vec<u8> = Vec::new();
    let mut i: usize = 0;
    while i < fields.len()
        invariant
            i <= fields@.len(),
            all == byte_views(fields@),
            out@ == join_bytes(all.subrange(0, i as int)),
        decreases fields.len() - i,
    {
        let ghost next = all.subrange(0, i + 1);
        assert(next.drop_last() =~= all.subrange(0, i as int));
        if i > 0 {
            out.push(59u8);
            out.push(32u8);
        }
        let f = &fields[i];
        let ghost before = out@;
        let mut j: usize = 0;
        while j < f.len()
            invariant
                j <= f@.len(),
                out@ == before + f@.subrange(0, j as int),
            decreases f@.len() - j,
        {
            out.push(f[j]);
            j += 1;
            assert(out@ =~= before + f@.subrange(0, j as int));
        }
        assert(f@.subrange(0, f@.len() as int) =~= f@);
        i += 1;
        if i == 1 {
            assert(next.len() == 1);
            assert(out@ =~= join_bytes(next));
        } else {
            assert(out@ =~= join_bytes(next));
        }
    }
    assert(all.subrange(0, i as int) =~= all);
    Some(out)
}

// ─── plain HTTP on the HTTPS port ───────────────────────────────────────────

/// Where a plain-HTTP request that reached the HTTPS listener is sent: the
/// same host (brackets kept for an IPv6 literal, its port dropped) on the
/// proxy's port, which a URL leaves out when it is 443 or unusable, and the
/// same path.
pub open spec fn spec_https_location(raw_host: Seq<char>, proxy_port: i64, path: Seq<char>) -> Seq<char> {
    let bracketed = raw_host.len() > 0 && raw_host[0] == '[';
    let host = if bracketed {
        "["@ + unbracket(
            match find(raw_host, "]:"@) {
                Some(i) => raw_host.subrange(0, i),
                None => raw_host,
            },
        ) + "]"@
    } else {
        match last_index(raw_host, ':') {
            Some(i) => raw_host.subrange(0, i),
            None => raw_host,
        }
    };
    let port = if 1 <= proxy_port <= 65535 && proxy_port != 443 {
        ":"@ + dec(proxy_port as nat)
    } else {
        Seq::empty()
    };
    "https://"@ + host + port + path
}

/// How a plain-HTTP request on the HTTPS port is answered: redirected to
/// HTTPS, or refused with a status and message when it asks for a
/// WebSocket upgrade (which cannot work there) or names no host.
pub open spec fn spec_https_redirect(has_upgrade: bool, raw_host: Option<Seq<char>>, proxy_port: i64, path: Seq<char>) -> Result<
    Seq<char>,
    (u16, Seq<char>),
> {
    if has_upgrade {
        Err((400u16, "WebSocket over plain HTTP is not supported on the HTTPS port. Use wss:// instead."@))
    } else {
        match raw_host {
            None => Err((400u16, "Missing Host header"@)),
            Some(h) => Ok(spec_https_location(h, proxy_port, path)),
        }
    }
}

/// How a plain-HTTP request on the HTTPS port is answered.
pub fn https_redirect(has_upgrade: bool, raw_host: Option<&str>, proxy_port: i64, path: &str) -> (r: Result<
    String,
    (u16, String),
>)
    ensures
        match r {
            Ok(l) => spec_https_redirect(has_upgrade, crate::names::opt_view(raw_host), proxy_port, path@) == Ok::<
                Seq<char>,
                (u16, Seq<char>),
            >(l@),
            Err((status, m)) => spec_https_redirect(has_upgrade, crate::names::opt_view(raw_host), proxy_port, path@)
                == Err::<Seq<char>, (u16, Seq<char>)>((status, m@)),
        },
{
    if has_upgrade {
        return Err(
            (400, String::from_str("WebSocket over plain HTTP is not supported on the HTTPS port. Use wss:// instead.")),
        );
    }
    let raw = match raw_host {
        Some(h) => h,
        None => return Err((400, String::from_str("Missing Host header"))),
    };
    let v = chars_of(raw);
    let n = v.len();
    let host_text = if n > 0 && v[0] == '[' {
        let sep = chars_of("]:");
        let cut = match find_chars(&v, &sep) {
            Some(i) => {
                proof {
                    lemma_find_occurs(v@, sep@, 0);
                }
                i
            },
            None => n,
        };
        assert(v@.subrange(0, n as int) =~= v@);
        let (a, b) = unbracket_range(&v, 0, cut);
        let mut h = String::from_str("[");
        h.append(string_of(&v, a, b).as_str());
        h.append("]");
        h
    } else {
        let mut k = n;
        assert(v@.subrange(0, n as int) =~= v@);
        while k > 0 && v[k - 1] != ':'
            invariant
                n == v@.len(),
                k <= n,
                last_index(v@, ':') == last_index(v@.subrange(0, k as int), ':'),
            decreases k,
        {
            assert(v@.subrange(0, k as int).drop_last() =~= v@.subrange(0, k - 1));
            k -= 1;
        }
        let cut = if k > 0 {
            k - 1
        } else {
            assert(v@.subrange(0, 0) =~= Seq::<char>::empty());
            n
        };
        string_of(&v, 0, cut)
    };
    let mut port_text = String::new();
    if 1 <= proxy_port && proxy_port <= 65535 && proxy_port != 443 {
        port_text.append(":");
        port_text.append(dec_string(proxy_port as u64).as_str());
    }
    assert(port_text@ == (if 1 <= proxy_port <= 65535 && proxy_port != 443 {
        ":"@ + dec(proxy_port as nat)
    } else {
        Seq::<char>::empty()
    }));
    let mut location = String::from_str("https://");
    location.append(host_text.as_str());
    location.append(port_text.as_str());
    location.append(path);
    Ok(location)
}

} // verus!
