//! What a past setup leaves behind for `--undo`: the TLD check, the record
//! of each setup, and the rebuilding of a record read from disk.

use vstd::prelude::*;
use crate::setup::model::{strs, PriorAutoProxy, SetupContext};
use crate::setup::plan::describe_v;
use crate::setup::undo::{plan_undo, spec_plan_undo};
use crate::text::{chars_of, has_prefix, is_alnum, starts_with, str_eq};

verus! {

// ─── the TLD ────────────────────────────────────────────────────────────────

/// How many chars of a label stand right before position `i` of `t`: the
/// length of the label `i` is in, as far as `i`.
pub open spec fn label_run(t: Seq<char>, i: int) -> nat
    decreases i,
{
    if i <= 0 {
        0
    } else if t[i - 1] == '.' {
        0
    } else {
        label_run(t, i - 1) + 1
    }
}

/// A char a TLD may hold: an ASCII letter or digit, `-` or `.`.
pub open spec fn tld_char(c: char) -> bool {
    is_alnum(c) || c == '-' || c == '.'
}

/// Whether `t` is a DNS suffix: dot-separated labels of ASCII letters,
/// digits and `-`, each 1 to 63 chars long and neither starting nor ending
/// with `-`.
pub open spec fn is_valid_tld(t: Seq<char>) -> bool {
    &&& t.len() > 0
    &&& label_run(t, t.len() as int) > 0
    &&& forall|i: int| 0 <= i < t.len() ==> tld_char(#[trigger] t[i])
    &&& forall|i: int| 0 <= i < t.len() && #[trigger] t[i] == '.' ==> label_run(t, i) > 0 && t[i - 1] != '-'
    &&& forall|i: int|
        0 <= i < t.len() && #[trigger] t[i] == '-' ==> label_run(t, i) > 0 && i + 1 < t.len() && t[i + 1] != '.'
    &&& forall|i: int| 0 <= i <= t.len() ==> #[trigger] label_run(t, i) <= 63
}

/// A `proxy.tld` that is not a valid host name suffix.
#[derive(Clone, Debug, PartialEq, Eq)]
pub struct InvalidTld {
    /// The value that was refused.
    pub tld: String,
}

/// Reject a TLD that must not reach a privileged file path or a config
/// file.
///
/// `proxy.tld` ends up joined onto `/etc/resolver` for a `sudo` write and
/// delete, and interpolated into a systemd-resolved drop-in, so only a real
/// DNS suffix is allowed through.
pub fn validate_tld(tld: &str) -> (r: Result<(), InvalidTld>)
    ensures
        r is Ok <==> is_valid_tld(tld@),
        r matches Err(e) ==> e.tld@ == tld@,
{
    let t = chars_of(tld);
    let ghost s = tld@;
    let n = t.len();
    let mut run: usize = 0;
    let mut i: usize = 0;
    while i < n
        invariant
            t@ == s,
            s == tld@,
            n == s.len(),
            i <= n,
            run == label_run(s, i as int),
            forall|k: int| 0 <= k < i ==> tld_char(#[trigger] s[k]),
            forall|k: int| 0 <= k < i && #[trigger] s[k] == '.' ==> label_run(s, k) > 0 && s[k - 1] != '-',
            forall|k: int| 0 <= k < i && #[trigger] s[k] == '-' ==> label_run(s, k) > 0 && k + 1 < s.len() && s[k + 1] != '.',
            forall|k: int| 0 <= k <= i ==> #[trigger] label_run(s, k) <= 63,
        decreases n - i,
    {
        let c = t[i];
        if c == '.' {
            if run == 0 || t[i - 1] == '-' {
                assert(s[i as int] == '.');
                assert(!is_valid_tld(s));
                return Err(InvalidTld { tld: tld.to_owned() });
            }
            run = 0;
        } else if c == '-' || ('0' <= c && c <= '9') || ('a' <= c && c <= 'z') || ('A' <= c && c <= 'Z') {
            if c == '-' && (run == 0 || i + 1 >= n || t[i + 1] == '.') {
                assert(s[i as int] == '-');
                assert(!is_valid_tld(s));
                return Err(InvalidTld { tld: tld.to_owned() });
            }
            if run >= 63 {
                assert(label_run(s, i + 1) == 64);
                assert(!is_valid_tld(s));
                return Err(InvalidTld { tld: tld.to_owned() });
            }
            run = run + 1;
        } else {
            assert(!tld_char(s[i as int]));
            return Err(InvalidTld { tld: tld.to_owned() });
        }
        i += 1;
        assert(label_run(s, i as int) == run);
    }
    if run == 0 {
        return Err(InvalidTld { tld: tld.to_owned() });
    }
    Ok(())
}

// ─── the records ────────────────────────────────────────────────────────────

/// How many past setups are remembered.
pub const MAX_RECORDS: usize = 32;

/// `lines` joined with newlines.
pub open spec fn join_lines(lines: Seq<Seq<char>>) -> Seq<char>
    decreases lines.len(),
{
    if lines.len() == 0 {
        Seq::empty()
    } else if lines.len() == 1 {
        lines[0]
    } else {
        join_lines(lines.drop_last()) + seq!['\n'] + lines.last()
    }
}

/// What two contexts have to agree on to count as the same installation:
/// the lines of their undo plans.
pub open spec fn undo_key_v(c: SetupContext, managed: Seq<Seq<char>>) -> Seq<char> {
    join_lines(describe_v(spec_plan_undo(c, managed)))
}

/// `lines` joined with newlines.
pub fn join_lines_of(lines: &Vec<String>) -> (s: String)
    ensures
        s@ == join_lines(strs(lines@)),
{
    let mut s = String::new();
    let mut i: usize = 0;
    while i < lines.len()
        invariant
            i <= lines@.len(),
            s@ == join_lines(strs(lines@).subrange(0, i as int)),
        decreases lines.len() - i,
    {
        let ghost pre = strs(lines@).subrange(0, i as int);
        let ghost next = strs(lines@).subrange(0, i + 1);
        assert(next.drop_last() =~= pre);
        assert(next.last() == lines@[i as int]@);
        if i > 0 {
            proof { reveal_strlit("\n"); }
            s.append("\n");
        }
        s.append(lines[i].as_str());
        i += 1;
        if i == 1 {
            assert(next.len() == 1);
        }
        assert(s@ =~= join_lines(next));
    }
    assert(strs(lines@).subrange(0, i as int) =~= strs(lines@));
    s
}

/// The key a setup is recognised by among the records.
pub fn undo_key(ctx: &SetupContext, managed: &Vec<String>) -> (k: String)
    ensures
        k@ == undo_key_v(*ctx, strs(managed@)),
{
    let lines = plan_undo(ctx, managed).describe();
    join_lines_of(&lines)
}

/// The records of `existing` whose key is not `key`, in order.
pub open spec fn others(existing: Seq<SetupContext>, key: Seq<char>, managed: Seq<Seq<char>>) -> Seq<SetupContext>
    decreases existing.len(),
{
    if existing.len() == 0 {
        Seq::empty()
    } else {
        let kept = others(existing.drop_last(), key, managed);
        if undo_key_v(existing.last(), managed) == key {
            kept
        } else {
            kept.push(existing.last())
        }
    }
}

/// `existing` with `c` added as the newest record: an identical setup
/// replaces its earlier entry, and past [`MAX_RECORDS`] the oldest go.
pub open spec fn spec_merged_records(existing: Seq<SetupContext>, c: SetupContext, managed: Seq<Seq<char>>) -> Seq<
    SetupContext,
> {
    let merged = others(existing, undo_key_v(c, managed), managed).push(c);
    if merged.len() > MAX_RECORDS {
        merged.subrange(merged.len() - MAX_RECORDS, merged.len() as int)
    } else {
        merged
    }
}

/// `existing` with `ctx` added, oldest first.
///
/// An identical configuration replaces its earlier entry; a different one
/// is appended. Nothing is dropped for failing, because a setup that fails
/// part-way may still have installed something.
pub fn merged_records(existing: Vec<SetupContext>, ctx: SetupContext, managed: &Vec<String>) -> (r: Vec<SetupContext>)
    ensures
        r@ == spec_merged_records(existing@, ctx, strs(managed@)),
        r@.len() <= MAX_RECORDS,
        r@.last() == ctx,
{
    let ghost m = strs(managed@);
    let ghost e = existing@;
    let key = undo_key(&ctx, managed);
    let mut rest = existing;
    let mut merged: Vec<SetupContext> = Vec::new();
    let ghost mut k: int = 0;
    while rest.len() > 0
        invariant
            0 <= k <= e.len(),
            rest@ == e.subrange(k, e.len() as int),
            merged@ == others(e.subrange(0, k), key@, m),
            key@ == undo_key_v(ctx, m),
            m == strs(managed@),
        decreases rest@.len(),
    {
        let ghost before = rest@;
        let r = rest.remove(0);
        assert(r == e[k]);
        assert(rest@ =~= e.subrange(k + 1, e.len() as int));
        assert(e.subrange(0, k + 1).drop_last() =~= e.subrange(0, k));
        let rk = undo_key(&r, managed);
        if !str_eq(rk.as_str(), key.as_str()) {
            merged.push(r);
        }
        proof { k = k + 1; }
    }
    assert(e.subrange(0, k) =~= e);
    merged.push(ctx);
    if merged.len() > MAX_RECORDS {
        let excess = merged.len() - MAX_RECORDS;
        let tail = merged.split_off(excess);
        tail
    } else {
        merged
    }
}

/// Every record of `others(existing, key)` has a key other than `key`.
proof fn lemma_others_keys(existing: Seq<SetupContext>, key: Seq<char>, managed: Seq<Seq<char>>)
    ensures
        forall|i: int|
            0 <= i < others(existing, key, managed).len() ==> undo_key_v(
                #[trigger] others(existing, key, managed)[i],
                managed,
            ) != key,
    decreases existing.len(),
{
    if existing.len() > 0 {
        lemma_others_keys(existing.drop_last(), key, managed);
        let kept = others(existing.drop_last(), key, managed);
        let out = others(existing, key, managed);
        assert forall|i: int| 0 <= i < out.len() implies undo_key_v(#[trigger] out[i], managed) != key by {
            if i < kept.len() {
                assert(out[i] == kept[i]);
            }
        }
    }
}

/// `others` leaves alone a list in which no record has `key`.
proof fn lemma_others_none(s: Seq<SetupContext>, key: Seq<char>, managed: Seq<Seq<char>>)
    requires
        forall|i: int| 0 <= i < s.len() ==> undo_key_v(#[trigger] s[i], managed) != key,
    ensures
        others(s, key, managed) == s,
    decreases s.len(),
{
    if s.len() > 0 {
        lemma_others_none(s.drop_last(), key, managed);
        assert(s.drop_last().push(s.last()) =~= s);
    }
}

/// Law: recording the same setup twice leaves the records as recording it
/// once did, so re-running one setup never grows the list.
pub proof fn law_re_recording_is_idempotent(existing: Seq<SetupContext>, c: SetupContext, managed: Seq<Seq<char>>)
    ensures
        spec_merged_records(spec_merged_records(existing, c, managed), c, managed) == spec_merged_records(
            existing,
            c,
            managed,
        ),
{
    let key = undo_key_v(c, managed);
    let f = others(existing, key, managed);
    lemma_others_keys(existing, key, managed);
    let merged = f.push(c);
    let once = spec_merged_records(existing, c, managed);
    // Every record of `once` but its last comes from `f`.
    let body = once.drop_last();
    assert(once.last() == c);
    assert forall|i: int| 0 <= i < body.len() implies undo_key_v(#[trigger] body[i], managed) != key by {
        if merged.len() > MAX_RECORDS {
            assert(body[i] == merged[merged.len() - MAX_RECORDS + i]);
            assert(merged[merged.len() - MAX_RECORDS + i] == f[merged.len() - MAX_RECORDS + i]);
        } else {
            assert(body[i] == f[i]);
        }
    }
    lemma_others_none(body, key, managed);
    assert(once =~= body.push(c));
    assert(others(once, key, managed) == others(body, key, managed));
    assert(others(once, key, managed).push(c) =~= once);
}

// ─── a record read from disk ────────────────────────────────────────────────

/// The system paths setup writes to, which are fixed rather than configured.
pub struct FixedPaths {
    pub resolver_dir: String,
    pub resolved_dropin_dir: String,
    pub pf_conf: String,
    pub pf_anchor: String,
}

pub fn fixed_paths() -> (f: FixedPaths)
    ensures
        f.resolver_dir@ == "/etc/resolver"@,
        f.resolved_dropin_dir@ == "/etc/systemd/resolved.conf.d"@,
        f.pf_conf@ == "/etc/pf.conf"@,
        f.pf_anchor@ == "/etc/pf.anchors/pitchfork"@,
{
    FixedPaths {
        resolver_dir: String::from_str("/etc/resolver"),
        resolved_dropin_dir: String::from_str("/etc/systemd/resolved.conf.d"),
        pf_conf: String::from_str("/etc/pf.conf"),
        pf_anchor: String::from_str("/etc/pf.anchors/pitchfork"),
    }
}

/// A value that cannot be read as a flag: not empty, no leading `-`.
pub open spec fn plain(v: Seq<char>) -> bool {
    v.len() > 0 && v[0] != '-'
}

/// A switch value `networksetup` or `gsettings` takes.
pub open spec fn known_state(s: Seq<char>) -> bool {
    s == "on"@ || s == "off"@ || s == "none"@ || s == "auto"@ || s == "manual"@
}

/// A URL an automatic-proxy setting can hold.
pub open spec fn usable_url(u: Seq<char>) -> bool {
    starts_with(u, "http://"@) || starts_with(u, "https://"@) || starts_with(u, "file://"@)
}

/// Whether a recorded automatic-proxy value is safe to hand back to the
/// tool it came from.
pub open spec fn usable_prior(p: PriorAutoProxy) -> bool {
    plain(p.target@) && plain(p.url@) && known_state(p.state@) && usable_url(p.url@)
}

/// The usable values of `priors`, in order.
pub open spec fn usable_priors(priors: Seq<PriorAutoProxy>) -> Seq<PriorAutoProxy>
    decreases priors.len(),
{
    if priors.len() == 0 {
        Seq::empty()
    } else if usable_prior(priors.last()) {
        usable_priors(priors.drop_last()).push(priors.last())
    } else {
        usable_priors(priors.drop_last())
    }
}

/// `after` is `before` with every privileged path rebuilt and the unusable
/// automatic-proxy values dropped.
pub open spec fn rebuilt(before: SetupContext, after: SetupContext, generated_ca: Seq<char>, binary: Seq<char>) -> bool {
    &&& after.platform == before.platform
    &&& after.tld == before.tld
    &&& after.dns_port == before.dns_port
    &&& after.proxy_port == before.proxy_port
    &&& after.https == before.https
    &&& after.dns_enabled == before.dns_enabled
    &&& after.pac == before.pac
    &&& after.systemd_resolved == before.systemd_resolved
    &&& after.systemd_version == before.systemd_version
    &&& after.lan == before.lan
    &&& after.contact_host == before.contact_host
    &&& after.ca_path == before.ca_path
    &&& after.ca_trusted == before.ca_trusted
    &&& after.custom_cert == before.custom_cert
    &&& after.network_services == before.network_services
    &&& after.gnome == before.gnome
    &&& after.generated_ca@ == generated_ca
    &&& after.binary@ == binary
    &&& after.resolver_dir@ == "/etc/resolver"@
    &&& after.resolved_dropin_dir@ == "/etc/systemd/resolved.conf.d"@
    &&& after.pf_conf@ == "/etc/pf.conf"@
    &&& after.pf_anchor@ == "/etc/pf.anchors/pitchfork"@
    &&& after.prior_auto_proxy@ == usable_priors(before.prior_auto_proxy@)
}

/// Whether `p` is safe to hand back to the tool it came from.
pub fn is_usable_prior(p: &PriorAutoProxy) -> (r: bool)
    ensures
        r == usable_prior(*p),
{
    let t = chars_of(p.target.as_str());
    let u = chars_of(p.url.as_str());
    let plain_target = t.len() > 0 && t[0] != '-';
    let plain_url = u.len() > 0 && u[0] != '-';
    let s = p.state.as_str();
    let known = str_eq(s, "on") || str_eq(s, "off") || str_eq(s, "none") || str_eq(s, "auto") || str_eq(s, "manual");
    let url = p.url.as_str();
    let usable = has_prefix(url, "http://") || has_prefix(url, "https://") || has_prefix(url, "file://");
    plain_target && plain_url && known && usable
}

/// A record as read from disk, with everything privileged rebuilt.
///
/// The record decides which resources undo removes and its fields reach
/// `sudo` as file paths, so it is treated as input: the TLD is validated as
/// a configured one is, the fixed system paths are restored, the generated
/// CA and the binary are the ones this build uses (`generated_ca`,
/// `binary`), and automatic-proxy values that could be read as a flag or
/// that the tool would not take are dropped. `None` when the TLD is refused.
pub fn sanitize_record(ctx: SetupContext, generated_ca: &str, binary: &str) -> (r: Option<SetupContext>)
    ensures
        r is None <==> !is_valid_tld(ctx.tld@),
        r matches Some(after) ==> rebuilt(ctx, after, generated_ca@, binary@),
{
    if validate_tld(ctx.tld.as_str()).is_err() {
        return None;
    }
    let fixed = fixed_paths();
    let ghost before = ctx;
    let mut c = ctx;
    c.resolver_dir = fixed.resolver_dir;
    c.resolved_dropin_dir = fixed.resolved_dropin_dir;
    c.pf_conf = fixed.pf_conf;
    c.pf_anchor = fixed.pf_anchor;
    c.generated_ca = generated_ca.to_owned();
    c.binary = binary.to_owned();
    let ghost priors = before.prior_auto_proxy@;
    let mut rest: Vec<PriorAutoProxy> = Vec::new();
    std::mem::swap(&mut rest, &mut c.prior_auto_proxy);
    let mut kept: Vec<PriorAutoProxy> = Vec::new();
    let ghost mut k: int = 0;
    while rest.len() > 0
        invariant
            0 <= k <= priors.len(),
            rest@ == priors.subrange(k, priors.len() as int),
            kept@ == usable_priors(priors.subrange(0, k)),
        decreases rest@.len(),
    {
        let p = rest.remove(0);
        assert(p == priors[k]);
        assert(rest@ =~= priors.subrange(k + 1, priors.len() as int));
        assert(priors.subrange(0, k + 1).drop_last() =~= priors.subrange(0, k));
        if is_usable_prior(&p) {
            kept.push(p);
        }
        proof { k = k + 1; }
    }
    assert(priors.subrange(0, k) =~= priors);
    c.prior_auto_proxy = kept;
    Some(c)
}

} // verus!
