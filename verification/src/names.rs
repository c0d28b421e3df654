//! Which names the proxy answers for, and the URL it advertises for a host.
//!
//! The DNS responder and the certificate resolver share [`owns_name`]: a name
//! the proxy will not resolve is a name it must not issue a certificate for.

use vstd::prelude::*;
use crate::settings::{ProxySettings, Settings};
use crate::text::{concat, dec, dec_string, eq_fold, lower, lower_char, lower_seq, push_char, chars_of, to_ascii_lowercase};

verus! {

/// `s` without leading `.` chars.
pub open spec fn trim_start_dots(s: Seq<char>) -> Seq<char>
    decreases s.len(),
{
    if s.len() > 0 && s[0] == '.' {
        trim_start_dots(s.drop_first())
    } else {
        s
    }
}

/// `s` without trailing `.` chars.
pub open spec fn trim_end_dots(s: Seq<char>) -> Seq<char>
    decreases s.len(),
{
    if s.len() > 0 && s.last() == '.' {
        trim_end_dots(s.drop_last())
    } else {
        s
    }
}

/// `s` without `.` at either end.
pub open spec fn trim_dots(s: Seq<char>) -> Seq<char> {
    trim_end_dots(trim_start_dots(s))
}

/// Whether the (trimmed) name `n` is the (trimmed) TLD `t` or lies beneath
/// it: `<label>.<t>` with a non-empty label, compared ASCII
/// case-insensitively.
pub open spec fn owns(t: Seq<char>, n: Seq<char>) -> bool {
    t.len() > 0 && n.len() > 0 && (eq_fold(n, t) || (n.len() > t.len() + 1 && n[n.len() - t.len()
        - 1] == '.' && eq_fold(n.subrange(n.len() - t.len(), n.len() as int), t)))
}

/// Whether `name` is the TLD itself or a name beneath it, ignoring ASCII case
/// and a trailing root dot on `name` and dots around `tld`.
pub open spec fn spec_owns_name(tld: Seq<char>, name: Seq<char>) -> bool {
    owns(trim_dots(tld), trim_end_dots(name))
}

/// The end of `s` once trailing dots are dropped.
pub fn trim_end_dots_len(v: &Vec<char>, to: usize) -> (k: usize)
    requires
        to <= v@.len(),
    ensures
        k <= to,
        trim_end_dots(v@.subrange(0, to as int)) == v@.subrange(0, k as int),
{
    let mut k = to;
    while k > 0 && v[k - 1] == '.'
        invariant
            k <= to <= v@.len(),
            trim_end_dots(v@.subrange(0, to as int)) == trim_end_dots(v@.subrange(0, k as int)),
        decreases k,
    {
        assert(v@.subrange(0, k as int).drop_last() =~= v@.subrange(0, k - 1));
        k -= 1;
    }
    k
}

/// The start of `s[..to]` once leading dots are dropped.
pub fn trim_start_dots_len(v: &Vec<char>, to: usize) -> (k: usize)
    requires
        to <= v@.len(),
    ensures
        k <= to,
        trim_start_dots(v@.subrange(0, to as int)) == v@.subrange(k as int, to as int),
{
    let mut k: usize = 0;
    assert(v@.subrange(0, to as int) =~= v@.subrange(0, to as int));
    while k < to && v[k] == '.'
        invariant
            k <= to <= v@.len(),
            trim_start_dots(v@.subrange(0, to as int)) == trim_start_dots(v@.subrange(k as int, to as int)),
        decreases to - k,
    {
        assert(v@.subrange(k as int, to as int).drop_first() =~= v@.subrange(k + 1, to as int));
        k += 1;
    }
    k
}

/// Whether `a[a_from..a_from+n]` and `b[b_from..b_from+n]` are equal ignoring
/// ASCII case.
pub fn eq_fold_range(a: &Vec<char>, a_from: usize, b: &Vec<char>, b_from: usize, n: usize) -> (r: bool)
    requires
        a_from + n <= a@.len(),
        b_from + n <= b@.len(),
    ensures
        r == eq_fold(a@.subrange(a_from as int, a_from + n), b@.subrange(b_from as int, b_from + n)),
{
    let mut i: usize = 0;
    while i < n
        invariant
            i <= n,
            a_from + n <= a.len(),
            b_from + n <= b.len(),
            forall|j: int| 0 <= j < i ==> #[trigger] lower(a@[a_from + j]) == lower(b@[b_from + j]),
        decreases n - i,
    {
        if lower_char(a[a_from + i]) != lower_char(b[b_from + i]) {
            assert(lower(a@.subrange(a_from as int, a_from + n)[i as int]) != lower(
                b@.subrange(b_from as int, b_from + n)[i as int],
            ));
            return false;
        }
        i += 1;
    }
    assert forall|j: int| 0 <= j < n implies #[trigger] lower(a@.subrange(a_from as int, a_from + n)[j])
        == lower(b@.subrange(b_from as int, b_from + n)[j]) by {
        assert(a@.subrange(a_from as int, a_from + n)[j] == a@[a_from + j]);
        assert(b@.subrange(b_from as int, b_from + n)[j] == b@[b_from + j]);
    }
    true
}

/// Whether `a` and `b` are equal ignoring ASCII case.
pub fn eq_ignore_ascii_case(a: &str, b: &str) -> (r: bool)
    ensures
        r == eq_fold(a@, b@),
{
    let av = chars_of(a);
    let bv = chars_of(b);
    if av.len() != bv.len() {
        return false;
    }
    assert(av@.subrange(0, av@.len() as int) =~= av@);
    assert(bv@.subrange(0, bv@.len() as int) =~= bv@);
    eq_fold_range(&av, 0, &bv, 0, av.len())
}

/// `v[from..to]` as a vector of its own.
pub fn sub_chars(v: &Vec<char>, from: usize, to: usize) -> (w: Vec<char>)
    requires
        from <= to <= v@.len(),
    ensures
        w@ == v@.subrange(from as int, to as int),
{
    let mut w: Vec<char> = Vec::new();
    let mut i = from;
    while i < to
        invariant
            from <= i <= to <= v@.len(),
            w@ == v@.subrange(from as int, i as int),
        decreases to - i,
    {
        w.push(v[i]);
        i += 1;
        assert(w@ =~= v@.subrange(from as int, i as int));
    }
    w
}

/// `trim_dots(s)` as a vector.
pub fn trimmed_dots(s: &str) -> (w: Vec<char>)
    ensures
        w@ == trim_dots(s@),
{
    let v = chars_of(s);
    let start = trim_start_dots_len(&v, v.len());
    assert(v@.subrange(0, v@.len() as int) =~= v@);
    let rest = sub_chars(&v, start, v.len());
    let end = trim_end_dots_len(&rest, rest.len());
    assert(rest@.subrange(0, rest@.len() as int) =~= rest@);
    sub_chars(&rest, 0, end)
}

/// `trim_end_dots(s)` as a vector.
pub fn trimmed_end_dots(s: &str) -> (w: Vec<char>)
    ensures
        w@ == trim_end_dots(s@),
{
    let v = chars_of(s);
    let end = trim_end_dots_len(&v, v.len());
    assert(v@.subrange(0, v@.len() as int) =~= v@);
    sub_chars(&v, 0, end)
}

/// [`owns`] on char vectors.
pub fn owns_chars(t: &Vec<char>, n: &Vec<char>) -> (r: bool)
    ensures
        r == owns(t@, n@),
{
    let tlen = t.len();
    let nlen = n.len();
    if tlen == 0 || nlen == 0 {
        return false;
    }
    assert(t@.subrange(0, tlen as int) =~= t@);
    assert(n@.subrange(0, nlen as int) =~= n@);
    if nlen == tlen && eq_fold_range(n, 0, t, 0, tlen) {
        return true;
    }
    if nlen > tlen && nlen - tlen > 1 && n[nlen - tlen - 1] == '.' {
        return eq_fold_range(n, nlen - tlen, t, 0, tlen);
    }
    false
}

/// Whether `name` is the TLD itself or a name beneath it.
///
/// One definition shared by the DNS responder, which uses it to decide what
/// it is authoritative for, and the certificate resolver, which uses it to
/// decide what the local CA is allowed to sign. Comparison is ASCII
/// case-insensitive, per RFC 4343, and a trailing root dot is ignored.
pub fn owns_name(tld: &str, name: &str) -> (r: bool)
    ensures
        r == spec_owns_name(tld@, name@),
{
    let t = trimmed_dots(tld);
    let n = trimmed_end_dots(name);
    owns_chars(&t, &n)
}

/// Whether `name` sits strictly beneath `tld`, rather than being the TLD
/// itself.
pub open spec fn spec_strictly_under(tld: Seq<char>, name: Seq<char>) -> bool {
    !eq_fold(trim_end_dots(name), trim_dots(tld)) && spec_owns_name(tld, name)
}

/// Whether `name` sits strictly beneath `tld`, rather than being the TLD
/// itself.
pub fn is_strictly_under_tld(tld: &str, name: &str) -> (r: bool)
    ensures
        r == spec_strictly_under(tld@, name@),
{
    let t = trimmed_dots(tld);
    let n = trimmed_end_dots(name);
    let same = n.len() == t.len() && {
        assert(t@.subrange(0, t@.len() as int) =~= t@);
        assert(n@.subrange(0, n@.len() as int) =~= n@);
        eq_fold_range(&n, 0, &t, 0, t.len())
    };
    !same && owns_chars(&t, &n)
}

/// The views of a vector of strings.
pub open spec fn views(v: Seq<String>) -> Seq<Seq<char>> {
    v.map_values(|s: String| s@)
}

/// Whether two distinct positions of `l` hold `f`.
pub open spec fn collides(l: Seq<Seq<char>>, f: Seq<char>) -> bool {
    exists|i: int, j: int| 0 <= i < j < l.len() && #[trigger] l[i] == f && #[trigger] l[j] == f
}

/// Whether `f` occurs at two distinct positions below `j`.
pub open spec fn collides_below(l: Seq<Seq<char>>, f: Seq<char>, j: int) -> bool {
    exists|a: int, b: int| 0 <= a < b < j && #[trigger] l[a] == f && #[trigger] l[b] == f
}

/// Whether `x` occurs in `v`.
pub fn vec_contains(v: &Vec<String>, x: &String) -> (r: bool)
    ensures
        r == views(v@).contains(x@),
{
    let mut i: usize = 0;
    while i < v.len()
        invariant
            i <= v@.len(),
            forall|k: int| 0 <= k < i ==> v@[k]@ != x@,
        decreases v@.len() - i,
    {
        if v[i] == *x {
            assert(views(v@)[i as int] == x@);
            return true;
        }
        i += 1;
    }
    proof {
        if views(v@).contains(x@) {
            let k = choose|k: int| 0 <= k < views(v@).len() && views(v@)[k] == x@;
            assert(v@[k]@ == x@);
        }
    }
    false
}

/// Lowercased keys that more than one spelling in `keys` maps to.
///
/// Host names are case-insensitive (RFC 4343), so such keys are ambiguous as
/// routing targets no matter which spelling a request uses. Identical
/// spellings collide too. Each collision is listed once.
pub fn ascii_case_collisions(keys: &[&str]) -> (r: Vec<String>)
    ensures
        forall|f: Seq<char>|
            views(r@).contains(f) <==> collides(keys@.map_values(|k: &str| lower_seq(k@)), f),
        views(r@).no_duplicates(),
{
    let ghost l = keys@.map_values(|k: &str| lower_seq(k@));
    let mut lowered: Vec<String> = Vec::new();
    let mut k: usize = 0;
    while k < keys.len()
        invariant
            k <= keys@.len(),
            l == keys@.map_values(|k: &str| lower_seq(k@)),
            views(lowered@) == l.subrange(0, k as int),
        decreases keys@.len() - k,
    {
        assert(l[k as int] == lower_seq(keys@[k as int]@));
        let x = to_ascii_lowercase(keys[k]);
        let ghost prev = lowered@;
        lowered.push(x);
        assert(lowered@ == prev.push(x));
        assert(views(lowered@) =~= views(prev).push(x@));
        k += 1;
        assert(views(lowered@) =~= l.subrange(0, k as int));
    }
    assert(views(lowered@) =~= l);
    let mut out: Vec<String> = Vec::new();
    let mut j: usize = 0;
    while j < lowered.len()
        invariant
            j <= lowered@.len(),
            views(lowered@) == l,
            forall|f: Seq<char>| views(out@).contains(f) <==> collides_below(l, f, j as int),
            views(out@).no_duplicates(),
        decreases lowered@.len() - j,
    {
        let mut seen = false;
        let mut i: usize = 0;
        while i < j
            invariant
                i <= j < lowered@.len(),
                views(lowered@) == l,
                seen <==> exists|a: int| 0 <= a < i && #[trigger] l[a] == l[j as int],
            decreases j - i,
        {
            if lowered[i] == lowered[j] {
                assert(l[i as int] == l[j as int]);
                seen = true;
            }
            i += 1;
        }
        let ghost fj = l[j as int];
        let ghost before = views(out@);
        let mut pushed = false;
        if seen && !vec_contains(&out, &lowered[j]) {
            let c = lowered[j].clone();
            out.push(c);
            pushed = true;
            assert(views(out@) =~= before.push(fj));
        }
        proof {
            assert(pushed ==> views(out@) == before.push(fj));
            assert(!pushed ==> views(out@) == before);
            assert(!pushed ==> (!seen || before.contains(fj)));
            assert forall|f: Seq<char>| views(out@).contains(f) implies collides_below(l, f, j + 1) by {
                if before.contains(f) {
                    assert(collides_below(l, f, j as int));
                    let (a, b) = choose|a: int, b: int| 0 <= a < b < j && #[trigger] l[a] == f && #[trigger] l[b] == f;
                    assert(0 <= a < b < j + 1 && l[a] == f && l[b] == f);
                } else {
                    assert(pushed);
                    let k = choose|k: int| 0 <= k < views(out@).len() && views(out@)[k] == f;
                    assert(k == before.len());
                    assert(f == fj);
                    let a = choose|a: int| 0 <= a < j && #[trigger] l[a] == l[j as int];
                    assert(0 <= a < j < j + 1 && l[a] == f && l[j as int] == f);
                }
            }
            assert forall|f: Seq<char>| collides_below(l, f, j + 1) implies views(out@).contains(f) by {
                let (a, b) = choose|a: int, b: int| 0 <= a < b < j + 1 && #[trigger] l[a] == f && #[trigger] l[b] == f;
                if b < j {
                    assert(collides_below(l, f, j as int));
                    assert(before.contains(f));
                    let k = choose|k: int| 0 <= k < before.len() && before[k] == f;
                    if pushed {
                        assert(views(out@)[k] == f);
                    }
                } else {
                    assert(l[a] == l[j as int]);
                    assert(seen);
                    if pushed {
                        assert(views(out@)[before.len() as int] == f);
                    }
                }
            }
        }
        j += 1;
    }
    assert forall|f: Seq<char>| collides_below(l, f, l.len() as int) <==> collides(l, f) by {}
    out
}

/// The TLD in force: LAN mode forces `.local`, because mDNS publishes names
/// in that domain.
pub open spec fn spec_effective_tld(p: ProxySettings) -> Seq<char> {
    if p.lan || p.lan_ip@.len() > 0 {
        "local"@
    } else {
        p.tld@
    }
}

/// The TLD the proxy actually serves on.
pub fn effective_tld(s: &Settings) -> (t: &str)
    ensures
        t@ == spec_effective_tld(s.proxy),
{
    if s.proxy.lan || !s.proxy.lan_ip.as_str().is_empty() {
        "local"
    } else {
        s.proxy.tld.as_str()
    }
}

/// The view of an optional string.
pub open spec fn opt_view(o: Option<&str>) -> Option<Seq<char>> {
    match o {
        Some(s) => Some(s@),
        None => None,
    }
}

/// The URL for a proxy host: `None` while the proxy is off, for an unrouted
/// daemon, or when `proxy.port` is not a port; otherwise
/// `<scheme>://<host>.<tld>`, with `:<port>` unless the port is the scheme's
/// standard one.
pub open spec fn spec_proxy_url(host: Option<Seq<char>>, p: ProxySettings) -> Option<Seq<char>> {
    if !p.enable || host is None || p.port <= 0 || p.port > 65535 {
        None
    } else {
        let scheme = if p.https { "https"@ } else { "http"@ };
        let standard: i64 = if p.https { 443 } else { 80 };
        let base = scheme + "://"@ + host->0 + "."@ + spec_effective_tld(p);
        Some(if p.port == standard { base } else { base + ":"@ + dec(p.port as nat) })
    }
}

/// Build the URL for a proxy hostname: a legacy slug, or an automatic
/// `<daemon>.<worktree>.<project>` host.
///
/// This is the one place a pitchfork URL is spelled out, so everything that
/// shows a URL agrees with what the proxy serves.
pub fn build_proxy_url(host: Option<&str>, s: &Settings) -> (r: Option<String>)
    ensures
        r matches Some(u) ==> spec_proxy_url(opt_view(host), s.proxy) == Some(u@),
        r is None ==> spec_proxy_url(opt_view(host), s.proxy) is None,
{
    if !s.proxy.enable {
        return None;
    }
    let host = match host {
        Some(h) => h,
        None => return None,
    };
    if s.proxy.port <= 0 || s.proxy.port > 65535 {
        return None;
    }
    let scheme = if s.proxy.https { "https" } else { "http" };
    let standard: i64 = if s.proxy.https { 443 } else { 80 };
    let tld = effective_tld(s);
    let mut url = String::from_str(scheme);
    url.append("://");
    url.append(host);
    url.append(".");
    url.append(tld);
    if s.proxy.port != standard {
        url.append(":");
        let digits = dec_string(s.proxy.port as u64);
        url.append(digits.as_str());
    }
    Some(url)
}

} // verus!
