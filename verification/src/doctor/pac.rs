//! Whether the system proxy is pointed at pitchfork's PAC file, from what
//! the settings commands said, and whether that file is served.

use vstd::prelude::*;
use crate::doctor::{Check, Status};
use crate::setup::blocks::contains_text;
use crate::split::{before_char, before_char_from, lines, lines_of, trim, trim_char, trim_char_text, trim_text};
use crate::text::{contains, ends_with, has_prefix, has_suffix, lower_seq, starts_with, str_eq, string_of, to_ascii_lowercase};

verus! {

// ─── what a settings command said ───────────────────────────────────────────

/// What a settings command had to say.
///
/// A machine with no such setting at all has given a definite answer; a
/// command that failed for another reason, or never returned, has not.
#[derive(Clone, Debug)]
pub enum Answer {
    Said(String),
    /// There is no such setting on this machine, which is an answer.
    Nothing,
    /// Nothing was learned either way.
    Unknown,
}

/// How running a settings command went.
#[derive(Clone, Debug)]
pub enum CommandOutcome {
    /// It did not finish within the probe's deadline.
    TimedOut,
    /// The tool is not installed.
    NotInstalled,
    /// It could not be started for another reason.
    SpawnFailed,
    /// It ran to completion.
    Exited { success: bool, stdout: String, stderr: String },
}

/// Whether a failed settings command's error output says the setting does
/// not exist on this machine: no GNOME schemas at all, not this schema, or
/// not this key.
pub open spec fn spec_means_no_such_setting(stderr: Seq<char>) -> bool {
    let s = lower_seq(stderr);
    contains(s, "no schemas installed"@) || contains(s, "no such schema"@) || contains(s, "no such key"@)
}

/// Whether a failed settings command proves the setting does not exist here.
///
/// Matched on what the tool said rather than on its exit status, which is
/// the same for "no such schema" as for "the session bus is not running".
pub fn means_no_such_setting(stderr: &str) -> (r: bool)
    ensures
        r == spec_means_no_such_setting(stderr@),
{
    let s = to_ascii_lowercase(stderr);
    contains_text(s.as_str(), "no schemas installed") || contains_text(s.as_str(), "no such schema")
        || contains_text(s.as_str(), "no such key")
}

/// What a settings command's outcome tells: its output when it succeeded;
/// a definite "no such setting" when the tool is missing or says so; and
/// nothing otherwise.
pub fn answer_of(outcome: CommandOutcome) -> (r: Answer)
    ensures
        match outcome {
            CommandOutcome::TimedOut => r is Unknown,
            CommandOutcome::NotInstalled => r is Nothing,
            CommandOutcome::SpawnFailed => r is Unknown,
            CommandOutcome::Exited { success, stdout, stderr } => if success {
                r == Answer::Said(stdout)
            } else if spec_means_no_such_setting(stderr@) {
                r is Nothing
            } else {
                r is Unknown
            },
        },
{
    match outcome {
        CommandOutcome::TimedOut => Answer::Unknown,
        CommandOutcome::NotInstalled => Answer::Nothing,
        CommandOutcome::SpawnFailed => Answer::Unknown,
        CommandOutcome::Exited { success, stdout, stderr } => {
            if success {
                Answer::Said(stdout)
            } else if means_no_such_setting(stderr.as_str()) {
                Answer::Nothing
            } else {
                Answer::Unknown
            }
        },
    }
}

// ─── whether the system uses pitchfork's PAC file ───────────────────────────

/// Whether a GNOME proxy mode, as `gsettings` prints it (quoted), is `auto`.
pub open spec fn spec_is_auto_mode(m: Seq<char>) -> bool {
    trim_char(trim(m), '\'') == "auto"@
}

/// Whether a GNOME proxy mode, as `gsettings` prints it, is `auto`.
pub fn is_auto_mode(m: &str) -> (r: bool)
    ensures
        r == spec_is_auto_mode(m@),
{
    let t = trim_text(m);
    let u = trim_char_text(t.as_str(), '\'');
    str_eq(u.as_str(), "auto")
}

/// What the two GNOME proxy settings say about whether the system proxy
/// uses `pac_url`.
pub open spec fn spec_decide_gnome(mode: Answer, url: Option<Answer>, pac_url: Seq<char>) -> Option<bool> {
    match mode {
        Answer::Unknown => None,
        Answer::Nothing => Some(false),
        Answer::Said(m) => if !spec_is_auto_mode(m@) {
            Some(false)
        } else {
            match url {
                Some(Answer::Said(u)) => Some(contains(u@, pac_url)),
                Some(Answer::Nothing) => Some(false),
                Some(Answer::Unknown) => None,
                None => None,
            }
        },
    }
}

/// Read the two GNOME proxy settings into an answer.
///
/// `url` is `None` when the mode ruled the question out before it was worth
/// asking. No schema, no key or no `gsettings` means nothing is configured
/// through GNOME; only a probe that settled nothing leaves the answer open.
pub fn decide_gnome(mode: Answer, url: Option<Answer>, pac_url: &str) -> (r: Option<bool>)
    ensures
        r == spec_decide_gnome(mode, url, pac_url@),
{
    match mode {
        Answer::Unknown => None,
        Answer::Nothing => Some(false),
        Answer::Said(m) => {
            if !is_auto_mode(m.as_str()) {
                return Some(false);
            }
            match url {
                Some(Answer::Said(u)) => Some(contains_text(u.as_str(), pac_url)),
                Some(Answer::Nothing) => Some(false),
                Some(Answer::Unknown) => None,
                None => None,
            }
        },
    }
}

/// Whether a line of `networksetup -getautoproxyurl` output says automatic
/// proxy is on.
pub open spec fn says_enabled(line: Seq<char>) -> bool {
    let l = lower_seq(trim(line));
    starts_with(l, "enabled:"@) && ends_with(l, "yes"@)
}

/// Whether `networksetup -getautoproxyurl` output says automatic proxy is on.
pub open spec fn spec_autoproxy_enabled(output: Seq<char>) -> bool {
    exists|i: int| 0 <= i < lines(output).len() && says_enabled(#[trigger] lines(output)[i])
}

/// Whether `networksetup -getautoproxyurl` output says automatic proxy is
/// on. A leftover URL with automatic proxy switched off routes nothing.
pub fn autoproxy_enabled(output: &str) -> (r: bool)
    ensures
        r == spec_autoproxy_enabled(output@),
{
    let v = crate::text::chars_of(output);
    let ls = lines_of(&v);
    let mut i: usize = 0;
    while i < ls.len()
        invariant
            v@ == output@,
            crate::split::views_of(ls@) == lines(output@),
            i <= ls@.len(),
            forall|j: int| 0 <= j < i ==> !says_enabled(#[trigger] lines(output@)[j]),
        decreases ls@.len() - i,
    {
        let n = ls[i].len();
        let line = string_of(&ls[i], 0, n);
        assert(ls@[i as int]@.subrange(0, n as int) =~= ls@[i as int]@);
        assert(line@ == lines(output@)[i as int]);
        let t = trim_text(line.as_str());
        let l = to_ascii_lowercase(t.as_str());
        if has_prefix(l.as_str(), "enabled:") && has_suffix(l.as_str(), "yes") {
            return true;
        }
        i += 1;
    }
    false
}

/// Whether one network service's automatic proxy is on and points at
/// `pac_url`.
pub fn service_uses_pac(output: &str, pac_url: &str) -> (r: bool)
    ensures
        r == (contains(output@, pac_url@) && spec_autoproxy_enabled(output@)),
{
    contains_text(output, pac_url) && autoproxy_enabled(output)
}

/// The services of a `networksetup -listallnetworkservices` listing that
/// are enabled, trimmed; `ls` holds its lines after the header.
pub open spec fn enabled_services(ls: Seq<Seq<char>>) -> Seq<Seq<char>>
    decreases ls.len(),
{
    if ls.len() == 0 {
        Seq::empty()
    } else {
        let rest = enabled_services(ls.drop_last());
        let l = ls.last();
        if trim(l).len() > 0 && !(l.len() > 0 && l[0] == '*') {
            rest.push(trim(l))
        } else {
            rest
        }
    }
}

/// The enabled services of a `networksetup -listallnetworkservices`
/// listing: its lines after the header, without blank ones and without
/// those marked disabled by a leading asterisk, trimmed.
pub open spec fn spec_active_network_services(listing: Seq<char>) -> Seq<Seq<char>> {
    let ls = lines(listing);
    if ls.len() == 0 {
        Seq::empty()
    } else {
        enabled_services(ls.subrange(1, ls.len() as int))
    }
}

/// The enabled network services of a `networksetup` listing.
pub fn active_network_services(listing: &str) -> (r: Vec<String>)
    ensures
        crate::names::views(r@) == spec_active_network_services(listing@),
{
    let v = crate::text::chars_of(listing);
    let ls = lines_of(&v);
    let mut out: Vec<String> = Vec::new();
    if ls.len() == 0 {
        assert(crate::names::views(out@) =~= Seq::<Seq<char>>::empty());
        return out;
    }
    let ghost all = lines(listing@);
    let mut i: usize = 1;
    assert(all.subrange(1, 1) =~= Seq::<Seq<char>>::empty());
    while i < ls.len()
        invariant
            v@ == listing@,
            crate::split::views_of(ls@) == all,
            all == lines(listing@),
            1 <= i <= ls@.len(),
            crate::names::views(out@) == enabled_services(all.subrange(1, i as int)),
        decreases ls@.len() - i,
    {
        let n = ls[i].len();
        let line = string_of(&ls[i], 0, n);
        assert(ls@[i as int]@.subrange(0, n as int) =~= ls@[i as int]@);
        assert(line@ == all[i as int]);
        let t = trim_text(line.as_str());
        let t_len = crate::text::chars_of(t.as_str()).len();
        let starred = n > 0 && ls[i][0] == '*';
        let ghost before = crate::names::views(out@);
        assert(all.subrange(1, i + 1).drop_last() =~= all.subrange(1, i as int));
        if t_len > 0 && !starred {
            out.push(t);
            assert(crate::names::views(out@) =~= before.push(trim(all[i as int])));
        }
        i += 1;
    }
    assert(all.subrange(1, ls@.len() as int) =~= all.subrange(1, all.len() as int));
    out
}

/// Whether the system proxy uses the PAC file, from each enabled service's
/// answer: yes when one service points at it; unknown when none does but
/// one would not answer, since that could have been the configured one;
/// no otherwise.
pub open spec fn spec_combine_service_answers(answers: Seq<Option<bool>>) -> Option<bool> {
    if answers.contains(Some(true)) {
        Some(true)
    } else if answers.contains(None) {
        None
    } else {
        Some(false)
    }
}

/// Combine the per-service answers of a macOS probe.
pub fn combine_service_answers(answers: &Vec<Option<bool>>) -> (r: Option<bool>)
    ensures
        r == spec_combine_service_answers(answers@),
{
    let mut unknown = false;
    let mut i: usize = 0;
    while i < answers.len()
        invariant
            i <= answers@.len(),
            forall|j: int| 0 <= j < i ==> answers@[j] != Some(true),
            unknown == exists|j: int| 0 <= j < i && answers@[j] is None,
        decreases answers@.len() - i,
    {
        match answers[i] {
            Some(true) => {
                assert(answers@[i as int] == Some(true));
                return Some(true);
            },
            Some(false) => {},
            None => {
                unknown = true;
            },
        }
        i += 1;
    }
    proof {
        if unknown {
            let j = choose|j: int| 0 <= j < answers@.len() && answers@[j] is None;
            assert(answers@[j] == None::<bool>);
        }
        if answers@.contains(None) {
            let j = choose|j: int| 0 <= j < answers@.len() && answers@[j] == None::<bool>;
            assert(unknown);
        }
    }
    if unknown {
        None
    } else {
        Some(false)
    }
}

// ─── fetching the PAC file ──────────────────────────────────────────────────

/// `s` with every leading copy of `p` removed (`str::trim_start_matches`).
pub open spec fn strip_leading(s: Seq<char>, p: Seq<char>) -> Seq<char>
    decreases s.len(),
{
    if p.len() > 0 && starts_with(s, p) {
        strip_leading(s.subrange(p.len() as int, s.len() as int), p)
    } else {
        s
    }
}

/// The `host:port` a PAC URL names: what follows `http://`, up to the
/// first `/`.
pub open spec fn spec_pac_authority(url: Seq<char>) -> Seq<char> {
    let rest = strip_leading(url, "http://"@);
    rest.subrange(0, before_char(rest, '/') as int)
}

/// Whether `v[start..]` starts with `http://`.
fn http_prefix_at(v: &Vec<char>, start: usize) -> (r: bool)
    requires
        start <= v@.len(),
    ensures
        r == starts_with(v@.subrange(start as int, v@.len() as int), "http://"@),
{
    let tail = string_of(v, start, v.len());
    has_prefix(tail.as_str(), "http://")
}

/// The `host:port` a PAC URL names.
pub fn pac_authority(url: &str) -> (r: String)
    ensures
        r@ == spec_pac_authority(url@),
{
    let v = crate::text::chars_of(url);
    let n = v.len();
    let mut start: usize = 0;
    proof {
        reveal_strlit("http://");
    }
    assert(v@.subrange(0, n as int) =~= v@);
    while http_prefix_at(&v, start)
        invariant
            n == v@.len(),
            v@ == url@,
            start <= n,
            "http://"@.len() == 7,
            strip_leading(url@, "http://"@) == strip_leading(v@.subrange(start as int, n as int), "http://"@),
        decreases n - start,
    {
        let ghost rest = v@.subrange(start as int, n as int);
        assert(rest.subrange(7, rest.len() as int) =~= v@.subrange(start + 7, n as int));
        start += 7;
    }
    let k = before_char_from(&v, start, '/');
    let ghost rest = v@.subrange(start as int, n as int);
    assert(rest.subrange(0, before_char(rest, '/') as int) =~= v@.subrange(start as int, start + k));
    string_of(&v, start, start + k)
}

/// The request that fetches the PAC script from `host`.
pub open spec fn spec_pac_request(host: Seq<char>) -> Seq<char> {
    "GET /proxy.pac HTTP/1.1\r\nHost: "@ + host + "\r\nConnection: close\r\n\r\n"@
}

/// The request that fetches the PAC script from `host`.
pub fn pac_request(host: &str) -> (r: String)
    ensures
        r@ == spec_pac_request(host@),
{
    let mut r = String::from_str("GET /proxy.pac HTTP/1.1\r\nHost: ");
    r.append(host);
    r.append("\r\nConnection: close\r\n\r\n");
    r
}

/// What fetching the PAC file came to: fine when the body is a PAC script;
/// otherwise why not. `outcome` is `None` when nothing came back in time.
pub open spec fn spec_pac_fetch_result(outcome: Option<Result<String, String>>) -> Result<(), Seq<char>> {
    match outcome {
        Some(Ok(body)) => if contains(body@, "FindProxyForURL"@) {
            Ok(())
        } else {
            Err("the response was not a PAC script"@)
        },
        Some(Err(e)) => Err(e@),
        None => Err("no reply within 3s"@),
    }
}

/// What fetching the PAC file came to.
pub fn pac_fetch_result(outcome: Option<Result<String, String>>) -> (r: Result<(), String>)
    ensures
        match r {
            Ok(()) => spec_pac_fetch_result(outcome) == Ok::<(), Seq<char>>(()),
            Err(e) => spec_pac_fetch_result(outcome) == Err::<(), Seq<char>>(e@),
        },
{
    match outcome {
        Some(Ok(body)) => if contains_text(body.as_str(), "FindProxyForURL") {
            Ok(())
        } else {
            Err(String::from_str("the response was not a PAC script"))
        },
        Some(Err(e)) => Err(e),
        None => Err(String::from_str("no reply within 3s")),
    }
}

/// The check on the PAC file the system proxy uses.
pub fn pac_file_check(pac_url: &str, fetched: Result<(), String>) -> (c: Check)
    ensures
        c.name@ == "pac file"@,
        match fetched {
            Ok(()) => c.status == Status::Pass && c.detail@ == "the system proxy uses "@ + pac_url@
                + ", and it is being served"@,
            Err(e) => c.status == Status::Fail && c.detail@ == "the system proxy uses "@ + pac_url@
                + ", but it could not be fetched: "@ + e@,
        },
{
    let mut d = String::from_str("the system proxy uses ");
    d.append(pac_url);
    match fetched {
        Ok(()) => {
            d.append(", and it is being served");
            Check::new("pac file", Status::Pass, d.as_str())
        },
        Err(e) => {
            d.append(", but it could not be fetched: ");
            d.append(e.as_str());
            Check::new("pac file", Status::Fail, d.as_str())
        },
    }
}

/// Only a probe that settled nothing leaves the GNOME answer open: when
/// the URL is read whenever the mode is `auto`, the answer is unknown only
/// if the mode or the URL could not be read.
pub proof fn law_only_an_unsettled_probe_leaves_the_answer_open(mode: Answer, url: Option<Answer>, pac_url: Seq<char>)
    requires
        (mode matches Answer::Said(m) && spec_is_auto_mode(m@)) ==> url is Some,
    ensures
        spec_decide_gnome(mode, url, pac_url) is None ==> (mode is Unknown || url == Some(Answer::Unknown)),
        mode is Nothing ==> spec_decide_gnome(mode, url, pac_url) == Some(false),
{
}

} // verus!
