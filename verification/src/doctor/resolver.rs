//! The resolver checks: the query sent straight to pitchfork's responder,
//! what its reply says, and what the system resolver's answer means.

use vstd::prelude::*;
use vstd::utf8::encode_utf8;
use crate::doctor::{Check, Status};
use crate::split::{split_chars, split_on, views_of, Sep};
use crate::text::{chars_of, dec, dec_string, string_of};

verus! {

// ─── the query ──────────────────────────────────────────────────────────────

/// The transaction ID of the probe, echoed in the reply.
pub const QUERY_ID: u16 = 0x7f00;

/// The labels of a query name, each as its bytes.
pub open spec fn query_labels(name: Seq<char>) -> Seq<Seq<u8>> {
    split_on(name, Sep::Dot).map_values(|p: Seq<char>| encode_utf8(p))
}

/// Labels in wire form: each preceded by its length.
pub open spec fn wire_labels(ls: Seq<Seq<u8>>) -> Seq<u8>
    decreases ls.len(),
{
    if ls.len() == 0 {
        Seq::empty()
    } else {
        wire_labels(ls.drop_last()) + seq![ls.last().len() as u8] + ls.last()
    }
}

/// The probe's query for `name`: ID, recursion desired, one question for
/// the AAAA record when `v6` and the A record otherwise, class IN; `None`
/// when a label is longer than a length byte can say.
pub open spec fn spec_responder_query(name: Seq<char>, v6: bool) -> Option<Seq<u8>> {
    let ls = query_labels(name);
    if forall|i: int| 0 <= i < ls.len() ==> (#[trigger] ls[i]).len() <= 255 {
        Some(
            seq![0x7fu8, 0x00, 0x01, 0x00, 0x00, 0x01, 0, 0, 0, 0, 0, 0] + wire_labels(ls) + seq![0u8] + (if v6 {
                seq![0u8, 28]
            } else {
                seq![0u8, 1]
            }) + seq![0u8, 1],
        )
    } else {
        None
    }
}

/// The query that asks the responder directly for `name`, for the record
/// the proxy's bind address means it answers.
pub fn responder_query(name: &str, v6: bool) -> (r: Result<Vec<u8>, String>)
    ensures
        match r {
            Ok(m) => spec_responder_query(name@, v6) == Some(m@),
            Err(e) => spec_responder_query(name@, v6) is None && e@ == "label too long"@,
        },
{
    let v = chars_of(name);
    let pieces = split_chars(&v, Sep::Dot);
    let ghost ls = query_labels(name@);
    let mut msg: Vec<u8> = vec![0x7fu8, 0x00, 0x01, 0x00, 0x00, 0x01, 0, 0, 0, 0, 0, 0];
    let ghost head = msg@;
    let mut i: usize = 0;
    assert(ls.subrange(0, 0) =~= Seq::<Seq<u8>>::empty());
    while i < pieces.len()
        invariant
            views_of(pieces@) == split_on(name@, Sep::Dot),
            ls == query_labels(name@),
            ls.len() == pieces@.len(),
            i <= pieces@.len(),
            forall|j: int| 0 <= j < i ==> (#[trigger] ls[j]).len() <= 255,
            msg@ == head + wire_labels(ls.subrange(0, i as int)),
            head == seq![0x7fu8, 0x00, 0x01, 0x00, 0x00, 0x01, 0, 0, 0, 0, 0, 0],
        decreases pieces@.len() - i,
    {
        let n = pieces[i].len();
        let label = string_of(&pieces[i], 0, n);
        assert(pieces@[i as int]@.subrange(0, n as int) =~= pieces@[i as int]@);
        let bytes = label.as_str().as_bytes();
        assert(bytes@ == ls[i as int]);
        if bytes.len() > 255 {
            return Err(String::from_str("label too long"));
        }
        let ghost before = msg@;
        msg.push(bytes.len() as u8);
        let mut j: usize = 0;
        while j < bytes.len()
            invariant
                j <= bytes@.len(),
                msg@ == before + seq![bytes@.len() as u8] + bytes@.subrange(0, j as int),
            decreases bytes@.len() - j,
        {
            msg.push(bytes[j]);
            j += 1;
            assert(msg@ =~= before + seq![bytes@.len() as u8] + bytes@.subrange(0, j as int));
        }
        assert(ls.subrange(0, i + 1).drop_last() =~= ls.subrange(0, i as int));
        assert(bytes@.subrange(0, bytes@.len() as int) =~= bytes@);
        i += 1;
        assert(msg@ =~= head + wire_labels(ls.subrange(0, i as int)));
    }
    assert(ls.subrange(0, ls.len() as int) =~= ls);
    msg.push(0u8);
    msg.push(0u8);
    msg.push(if v6 {
        28u8
    } else {
        1u8
    });
    msg.push(0u8);
    msg.push(1u8);
    assert(msg@ =~= head + wire_labels(ls) + seq![0u8] + (if v6 {
        seq![0u8, 28]
    } else {
        seq![0u8, 1]
    }) + seq![0u8, 1]);
    Ok(msg)
}

// ─── the reply ──────────────────────────────────────────────────────────────

/// What to make of a datagram that arrived on the probe's socket.
#[derive(Clone, Copy, Debug, PartialEq, Eq, Structural)]
pub enum ReplyVerdict {
    /// Not the responder's reply: from elsewhere, or for another query.
    Ignore,
    /// From the responder, but too short to be a DNS message.
    TooShort,
    /// The responder's reply to the probe.
    Accept,
}

/// What a datagram that arrived on the probe's socket is.
pub open spec fn spec_reply_verdict(from_responder: bool, reply: Seq<u8>) -> ReplyVerdict {
    if !from_responder {
        ReplyVerdict::Ignore
    } else if reply.len() < 12 {
        ReplyVerdict::TooShort
    } else if reply[0] != 0x7f || reply[1] != 0 {
        ReplyVerdict::Ignore
    } else {
        ReplyVerdict::Accept
    }
}

/// What to make of a datagram: another process can write to the probe's
/// port, so only a reply from the responder carrying the probe's ID counts.
pub fn reply_verdict(from_responder: bool, reply: &[u8]) -> (r: ReplyVerdict)
    ensures
        r == spec_reply_verdict(from_responder, reply@),
{
    if !from_responder {
        ReplyVerdict::Ignore
    } else if reply.len() < 12 {
        ReplyVerdict::TooShort
    } else if reply[0] != 0x7f || reply[1] != 0 {
        ReplyVerdict::Ignore
    } else {
        ReplyVerdict::Accept
    }
}

/// Where the question's name ends when it starts at `pos`: past the label
/// whose length byte is 0, or past the message's end.
pub open spec fn skip_name(resp: Seq<u8>, pos: int) -> int
    decreases resp.len() - pos,
{
    if pos < 0 || pos >= resp.len() {
        pos
    } else {
        let next = pos + 1 + resp[pos];
        if resp[pos] == 0 || next >= resp.len() {
            next
        } else {
            skip_name(resp, next)
        }
    }
}

/// The address the responder answered with: the first answer's data after
/// the echoed question, 16 bytes for AAAA and 4 for A; or why there is none.
pub open spec fn spec_responder_address(resp: Seq<u8>, v6: bool) -> Result<Seq<u8>, Seq<char>> {
    let rcode = resp[3] & 0x0fu8;
    if rcode != 0 {
        Err("responder returned rcode "@ + dec(rcode as nat))
    } else {
        let start = skip_name(resp, 12) + 4 + 12;
        let end = start + if v6 {
            16int
        } else {
            4int
        };
        if end <= resp.len() {
            Ok(resp.subrange(start, end))
        } else {
            Err("reply carried no address record"@)
        }
    }
}

/// Read the address out of the responder's reply.
pub fn responder_address(resp: &[u8], v6: bool) -> (r: Result<Vec<u8>, String>)
    requires
        12 <= resp@.len() <= 512,
    ensures
        match r {
            Ok(a) => spec_responder_address(resp@, v6) == Ok::<Seq<u8>, Seq<char>>(a@),
            Err(e) => spec_responder_address(resp@, v6) == Err::<Seq<u8>, Seq<char>>(e@),
        },
{
    let rcode = resp[3] & 0x0f;
    if rcode != 0 {
        let mut e = String::from_str("responder returned rcode ");
        e.append(dec_string(rcode as u64).as_str());
        return Err(e);
    }
    let n = resp.len();
    let mut pos: usize = 12;
    let mut done = false;
    while !done && pos < n
        invariant
            n == resp@.len() <= 512,
            pos <= n + 256,
            !done ==> skip_name(resp@, 12) == skip_name(resp@, pos as int),
            done ==> skip_name(resp@, 12) == pos,
        decreases n + 256 - pos,
    {
        let l = resp[pos] as usize;
        let next = pos + 1 + l;
        if l == 0 || next >= n {
            done = true;
        }
        pos = next;
    }
    let start = pos + 4 + 12;
    let end = start + if v6 {
        16
    } else {
        4
    };
    if end <= n {
        let mut a: Vec<u8> = Vec::new();
        let mut k = start;
        while k < end
            invariant
                start <= k <= end <= n,
                n == resp@.len(),
                a@ == resp@.subrange(start as int, k as int),
            decreases end - k,
        {
            a.push(resp[k]);
            k += 1;
            assert(a@ =~= resp@.subrange(start as int, k as int));
        }
        Ok(a)
    } else {
        Err(String::from_str("reply carried no address record"))
    }
}

// ─── the verdicts ───────────────────────────────────────────────────────────

/// The responder's check when `proxy.dns` is off.
pub fn resolver_disabled_check() -> (c: Check)
    ensures
        c.name@ == "dns resolver"@,
        c.status == Status::Warn,
        c.detail@ == "proxy.dns is false, so pitchfork answers no DNS queries"@,
{
    Check::new("dns resolver", Status::Warn, "proxy.dns is false, so pitchfork answers no DNS queries")
}

/// The responder's check from what the probe got back: the address it
/// answered with, or why it did not.
pub fn resolver_check(answer: Result<String, String>, dns_port: u16, tld: &str) -> (c: Check)
    ensures
        c.name@ == "dns resolver"@,
        match answer {
            Ok(ip) => c.status == Status::Pass && c.detail@ == "127.0.0.1:"@ + dec(dns_port as nat) + " answers *."@
                + tld@ + " with "@ + ip@,
            Err(e) => c.status == Status::Fail && c.detail@ == "127.0.0.1:"@ + dec(dns_port as nat)
                + " did not answer: "@ + e@,
        },
{
    let mut d = String::from_str("127.0.0.1:");
    d.append(dec_string(dns_port as u64).as_str());
    match answer {
        Ok(ip) => {
            d.append(" answers *.");
            d.append(tld);
            d.append(" with ");
            d.append(ip.as_str());
            Check::new("dns resolver", Status::Pass, d.as_str())
        },
        Err(e) => {
            d.append(" did not answer: ");
            d.append(e.as_str());
            Check::new("dns resolver", Status::Fail, d.as_str())
        },
    }
}

/// A lowercase hex digit.
pub open spec fn hex_char(d: nat) -> char {
    if d < 10 {
        (48 + d) as char
    } else {
        (87 + d) as char
    }
}

/// The last `k` hex digits of `n`, zero-padded (`{:0k$x}` for `n` that fits).
pub open spec fn hex_digits(n: nat, k: nat) -> Seq<char>
    decreases k,
{
    if k == 0 {
        Seq::empty()
    } else {
        hex_digits(n / 16, (k - 1) as nat).push(hex_char(n % 16))
    }
}

proof fn lemma_hex_digits_len(n: nat, k: nat)
    ensures
        hex_digits(n, k).len() == k,
    decreases k,
{
    if k > 0 {
        lemma_hex_digits_len(n / 16, (k - 1) as nat);
    }
}

fn hex_digits_of(n: u32, k: usize) -> (v: Vec<char>)
    ensures
        v@ == hex_digits(n as nat, k as nat),
    decreases k,
{
    if k == 0 {
        return Vec::new();
    }
    let mut v = hex_digits_of(n / 16, k - 1);
    let d = n % 16;
    let c = if d < 10 {
        ((48 + d) as u8) as char
    } else {
        ((87 + d) as u8) as char
    };
    v.push(c);
    v
}

/// The name the resolver check looks up: under the TLD, with a label
/// nothing could have cached or registered.
pub open spec fn spec_probe_name(nonce: u32, tld: Seq<char>) -> Seq<char> {
    "pf-doctor-"@ + hex_digits(nonce as nat, 8) + "."@ + tld
}

/// The name the resolver check looks up, for a fresh `nonce`.
pub fn probe_name_for(nonce: u32, tld: &str) -> (r: String)
    ensures
        r@ == spec_probe_name(nonce, tld@),
{
    let h = hex_digits_of(nonce, 8);
    proof {
        lemma_hex_digits_len(nonce as nat, 8);
    }
    let mut r = String::from_str("pf-doctor-");
    r.append(string_of(&h, 0, 8).as_str());
    assert(h@.subrange(0, 8) =~= h@);
    r.append(".");
    r.append(tld);
    r
}

/// `items` joined with `, `.
pub open spec fn join_comma(items: Seq<Seq<char>>) -> Seq<char>
    decreases items.len(),
{
    if items.len() == 0 {
        Seq::empty()
    } else if items.len() == 1 {
        items[0]
    } else {
        join_comma(items.drop_last()) + ", "@ + items.last()
    }
}

fn join_comma_of(items: &Vec<String>) -> (s: String)
    ensures
        s@ == join_comma(crate::names::views(items@)),
{
    let ghost all = crate::names::views(items@);
    let mut s = String::new();
    let mut i: usize = 0;
    while i < items.len()
        invariant
            i <= items@.len(),
            all == crate::names::views(items@),
            s@ == join_comma(all.subrange(0, i as int)),
        decreases items.len() - i,
    {
        let ghost next = all.subrange(0, i + 1);
        assert(next.drop_last() =~= all.subrange(0, i as int));
        if i > 0 {
            s.append(", ");
        }
        s.append(items[i].as_str());
        i += 1;
        if i == 1 {
            assert(next.len() == 1);
        }
        assert(s@ =~= join_comma(next));
    }
    assert(all.subrange(0, i as int) =~= all);
    s
}

/// The addresses a finished lookup found, as text.
pub open spec fn resolved_ips(resolved: Option<Result<Vec<String>, String>>) -> Seq<Seq<char>> {
    match resolved {
        Some(Ok(ips)) => crate::names::views(ips@),
        _ => Seq::empty(),
    }
}

/// The system-resolution check's status and detail, from what the system
/// resolver said about `name`: `resolved` is `None` when the lookup did not
/// finish in time, and `pac_ready` whether a PAC file is in use.
///
/// A name that resolves passes. Under a PAC file the system resolver is not
/// consulted, so it passes anyway. A lookup that never came back is a
/// warning, not a broken name; so is a name that does not resolve in LAN
/// mode (mDNS, which setup does not configure) or while the PAC state is
/// unknown. Otherwise a name that does not resolve fails, quoting the
/// resolver.
pub open spec fn spec_resolution(
    name: Seq<char>,
    tld: Seq<char>,
    pac_ready: Option<bool>,
    lan: bool,
    resolved: Option<Result<Vec<String>, String>>,
) -> (Status, Seq<char>) {
    if resolved_ips(resolved).len() > 0 {
        (Status::Pass, name + " resolves to "@ + join_comma(resolved_ips(resolved)))
    } else if pac_ready == Some(true) {
        (Status::Pass, "not needed: the system proxy sends *."@ + tld + " to pitchfork (PAC)"@)
    } else if resolved is None {
        (
            Status::Warn,
            "the system resolver did not answer in time, so "@ + name + " could not be checked"@,
        )
    } else if lan {
        (
            Status::Warn,
            name + " did not resolve. In LAN mode *."@ + tld
                + " is answered over mDNS, which `proxy setup` does not configure: check that the supervisor is publishing and that this host resolves mDNS names"@,
        )
    } else if pac_ready is None {
        (
            Status::Warn,
            name
                + " does not resolve, but the system would not say whether a proxy auto-config file is in use, which would explain it"@,
        )
    } else {
        match resolved {
            Some(Err(e)) => (Status::Fail, name + " does not resolve ("@ + e@ + ") \u{2014} run `pitchfork proxy setup`"@),
            _ => (Status::Fail, name + " does not resolve \u{2014} run `pitchfork proxy setup`"@),
        }
    }
}

/// Turn the system resolver's answer about `name` into a check.
pub fn resolution_check(
    name: &str,
    tld: &str,
    pac_ready: Option<bool>,
    lan: bool,
    resolved: Option<Result<Vec<String>, String>>,
) -> (c: Check)
    ensures
        c.name@ == "system resolution"@,
        (c.status, c.detail@) == spec_resolution(name@, tld@, pac_ready, lan, resolved),
{
    let ghost r0 = resolved;
    if let Some(Ok(ips)) = &resolved {
        if ips.len() > 0 {
            let mut d = name.to_owned();
            d.append(" resolves to ");
            d.append(join_comma_of(ips).as_str());
            return Check::new("system resolution", Status::Pass, d.as_str());
        }
    }
    if pac_ready == Some(true) {
        let mut d = String::from_str("not needed: the system proxy sends *.");
        d.append(tld);
        d.append(" to pitchfork (PAC)");
        return Check::new("system resolution", Status::Pass, d.as_str());
    }
    match resolved {
        None => {
            let mut d = String::from_str("the system resolver did not answer in time, so ");
            d.append(name);
            d.append(" could not be checked");
            Check::new("system resolution", Status::Warn, d.as_str())
        },
        Some(found) => {
            if lan {
                let mut d = name.to_owned();
                d.append(" did not resolve. In LAN mode *.");
                d.append(tld);
                d.append(
                    " is answered over mDNS, which `proxy setup` does not configure: check that the supervisor is publishing and that this host resolves mDNS names",
                );
                return Check::new("system resolution", Status::Warn, d.as_str());
            }
            if pac_ready.is_none() {
                let mut d = name.to_owned();
                d.append(
                    " does not resolve, but the system would not say whether a proxy auto-config file is in use, which would explain it",
                );
                return Check::new("system resolution", Status::Warn, d.as_str());
            }
            let mut d = name.to_owned();
            match found {
                Err(e) => {
                    d.append(" does not resolve (");
                    d.append(e.as_str());
                    d.append(") \u{2014} run `pitchfork proxy setup`");
                },
                Ok(_) => {
                    d.append(" does not resolve \u{2014} run `pitchfork proxy setup`");
                },
            }
            Check::new("system resolution", Status::Fail, d.as_str())
        },
    }
}

/// Whether the system-resolution check can only look up a published slug:
/// in LAN mode (mDNS publishes one record per slug, no wildcard), and with
/// the responder off unless a working PAC file keeps names away from the
/// system resolver.
pub open spec fn spec_published_only(lan: bool, dns: bool, pac_ready: Option<bool>) -> bool {
    lan || (!dns && pac_ready != Some(true))
}

/// Whether the system-resolution check looks up a published slug.
pub fn published_only(lan: bool, dns: bool, pac_ready: Option<bool>) -> (r: bool)
    ensures
        r == spec_published_only(lan, dns, pac_ready),
{
    lan || (!dns && pac_ready != Some(true))
}

/// The system-resolution check when there is no published name to look
/// up: the registry did not open in time, or nothing is registered.
pub fn unpublished_check(unreadable: bool, lan: bool, tld: &str) -> (c: Check)
    ensures
        c.name@ == "system resolution"@,
        unreadable ==> c.status == Status::Warn && c.detail@
            == "the slug registry did not open in time, so there was no name to check"@,
        !unreadable && lan ==> c.status == Status::Pass && c.detail@
            == "nothing is published yet \u{2014} add one with `pitchfork proxy add <slug>`"@,
        !unreadable && !lan ==> c.status == Status::Warn && c.detail@ == "proxy.dns is false and no slug is published, so *."@
            + tld@
            + " names resolve only where the system or browser does so itself \u{2014} enable proxy.dns and run `pitchfork proxy setup`, or register a slug with proxy.sync_hosts on"@,
{
    if unreadable {
        Check::new(
            "system resolution",
            Status::Warn,
            "the slug registry did not open in time, so there was no name to check",
        )
    } else if lan {
        Check::new(
            "system resolution",
            Status::Pass,
            "nothing is published yet \u{2014} add one with `pitchfork proxy add <slug>`",
        )
    } else {
        let mut d = String::from_str("proxy.dns is false and no slug is published, so *.");
        d.append(tld);
        d.append(
            " names resolve only where the system or browser does so itself \u{2014} enable proxy.dns and run `pitchfork proxy setup`, or register a slug with proxy.sync_hosts on",
        );
        Check::new("system resolution", Status::Warn, d.as_str())
    }
}

/// The system-resolution check for a name that was looked up. With the
/// responder off outside LAN mode, setup installs no resolver route, so a
/// failure says what would help instead of "run setup".
pub fn published_resolution_check(
    lookup: &str,
    tld: &str,
    pac_ready: Option<bool>,
    lan: bool,
    dns: bool,
    resolved: Option<Result<Vec<String>, String>>,
) -> (c: Check)
    ensures
        c.name@ == "system resolution"@,
        c.status == spec_resolution(lookup@, tld@, pac_ready, lan, resolved).0,
        if !dns && !lan && c.status == Status::Fail {
            c.detail@ == lookup@
                + " does not resolve, and proxy.dns is false \u{2014} enable proxy.dns and run `pitchfork proxy setup`, or keep proxy.sync_hosts on"@
        } else {
            c.detail@ == spec_resolution(lookup@, tld@, pac_ready, lan, resolved).1
        },
{
    let mut check = resolution_check(lookup, tld, pac_ready, lan, resolved);
    if !dns && !lan && check.status == Status::Fail {
        let mut d = lookup.to_owned();
        d.append(
            " does not resolve, and proxy.dns is false \u{2014} enable proxy.dns and run `pitchfork proxy setup`, or keep proxy.sync_hosts on",
        );
        check.detail = d;
    }
    check
}

/// A probe that gave up is not a probe that found a problem: a lookup that
/// did not finish in time, or a PAC state the system would not tell, never
/// fails the system-resolution check, and under a PAC file in use the check
/// passes whatever the resolver said.
pub proof fn law_an_unsettled_probe_never_fails(
    name: Seq<char>,
    tld: Seq<char>,
    pac_ready: Option<bool>,
    lan: bool,
    resolved: Option<Result<Vec<String>, String>>,
)
    ensures
        resolved is None ==> spec_resolution(name, tld, pac_ready, lan, resolved).0 != Status::Fail,
        pac_ready is None ==> spec_resolution(name, tld, pac_ready, lan, resolved).0 != Status::Fail,
        pac_ready == Some(true) ==> spec_resolution(name, tld, pac_ready, lan, resolved).0 == Status::Pass,
        lan ==> spec_resolution(name, tld, pac_ready, lan, resolved).0 != Status::Fail,
{
}

} // verus!
