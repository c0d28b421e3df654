//! What the machine's own tools say, read into the facts setup plans with:
//! the systemd version, and the automatic-proxy settings setup will replace.

use vstd::prelude::*;
use crate::names::eq_ignore_ascii_case;
use crate::routing::text::{digits_value, is_digit, lemma_digits_grow, unsigned_digits};
use crate::setup::model::PriorAutoProxy;
use crate::split::{
    before_char, before_char_from, lines, lines_of, trim, trim_char, trim_char_text, trim_text, views_of, words,
    words_of,
};
use crate::text::{chars_of, eq_fold, str_eq, string_of};

verus! {

// ─── systemd ────────────────────────────────────────────────────────────────

/// What `str::parse::<u32>` gives: an optional `+`, then one or more digits
/// whose value fits.
pub open spec fn parse_u32(p: Seq<char>) -> Option<u32> {
    let d = unsigned_digits(p);
    if d.len() > 0 && (forall|i: int| 0 <= i < d.len() ==> is_digit(#[trigger] d[i])) && digits_value(d)
        <= 4294967295 {
        Some(digits_value(d) as u32)
    } else {
        None
    }
}

/// [`parse_u32`] in executable form.
pub fn parse_number(p: &str) -> (r: Option<u32>)
    ensures
        r == parse_u32(p@),
{
    let v = chars_of(p);
    let start: usize = if v.len() > 0 && v[0] == '+' {
        1
    } else {
        0
    };
    let ghost d = unsigned_digits(p@);
    assert(d =~= v@.subrange(start as int, v@.len() as int));
    if start == v.len() {
        return None;
    }
    let mut value: u64 = 0;
    let mut i = start;
    while i < v.len()
        invariant
            start <= i <= v@.len(),
            v@ == p@,
            d == v@.subrange(start as int, v@.len() as int),
            d == unsigned_digits(p@),
            forall|k: int| start <= k < i ==> is_digit(#[trigger] v@[k]),
            value == digits_value(v@.subrange(start as int, i as int)),
            value <= 4294967295,
        decreases v.len() - i,
    {
        let c = v[i];
        if !('0' <= c && c <= '9') {
            assert(!is_digit(d[i - start]));
            return None;
        }
        assert(v@.subrange(start as int, i + 1).drop_last() =~= v@.subrange(start as int, i as int));
        value = value * 10 + (c as u64 - 48);
        i += 1;
        if value > 4294967295 {
            proof {
                if forall|j: int| 0 <= j < d.len() ==> is_digit(#[trigger] d[j]) {
                    lemma_digits_grow(d, i - start);
                    assert(d.subrange(0, i - start) =~= v@.subrange(start as int, i as int));
                }
            }
            return None;
        }
    }
    assert(v@.subrange(start as int, i as int) =~= d);
    Some(value as u32)
}

/// The major version in `systemctl --version` output, whose first line
/// reads like `systemd 255 (255.4-1)`: the first line's second word.
pub open spec fn spec_systemd_version(output: Seq<char>) -> Option<u32> {
    let ls = lines(output);
    if ls.len() == 0 {
        None
    } else {
        let ws = words(ls[0]);
        if ws.len() < 2 {
            None
        } else {
            parse_u32(ws[1])
        }
    }
}

/// The major version of systemd, read from `systemctl --version` output;
/// `None` when it cannot be read, so no version-specific warning is given
/// rather than a wrong one.
pub fn systemd_version_from(output: &str) -> (r: Option<u32>)
    ensures
        r == spec_systemd_version(output@),
{
    let v = chars_of(output);
    let ls = lines_of(&v);
    if ls.len() == 0 {
        return None;
    }
    let ws = words_of(&ls[0]);
    if ws.len() < 2 {
        return None;
    }
    let n = ws[1].len();
    let word = string_of(&ws[1], 0, n);
    assert(ws@[1]@.subrange(0, n as int) =~= ws@[1]@);
    parse_number(word.as_str())
}

// ─── the automatic proxy setup replaces ─────────────────────────────────────

/// The value of the first `name: value` line of `ls` whose key is `name`
/// ignoring case and surrounding white space, trimmed.
pub open spec fn field_in(ls: Seq<Seq<char>>, name: Seq<char>) -> Option<Seq<char>>
    decreases ls.len(),
{
    if ls.len() == 0 {
        None
    } else {
        let l = ls[0];
        let k = before_char(l, ':');
        if k < l.len() && eq_fold(trim(l.subrange(0, k as int)), name) {
            Some(trim(l.subrange(k as int + 1, l.len() as int)))
        } else {
            field_in(ls.drop_first(), name)
        }
    }
}

/// The value of field `name` in `networksetup` output.
fn field_of(output: &str, name: &str) -> (r: Option<String>)
    ensures
        match r {
            Some(v) => field_in(lines(output@), name@) == Some(v@),
            None => field_in(lines(output@), name@) is None,
        },
{
    let v = chars_of(output);
    let ls = lines_of(&v);
    let ghost all = lines(output@);
    let mut i: usize = 0;
    assert(all.subrange(0, all.len() as int) =~= all);
    while i < ls.len()
        invariant
            views_of(ls@) == all,
            all == lines(output@),
            i <= ls@.len(),
            field_in(all, name@) == field_in(all.subrange(i as int, all.len() as int), name@),
        decreases ls@.len() - i,
    {
        let line = &ls[i];
        let ghost l = all[i as int];
        assert(line@ == l);
        let n = line.len();
        let k = before_char_from(line, 0, ':');
        assert(line@.subrange(0, n as int) =~= l);
        assert(all.subrange(i as int, all.len() as int)[0] == l);
        if k < n {
            let key = string_of(line, 0, k);
            let key = trim_text(key.as_str());
            if eq_ignore_ascii_case(key.as_str(), name) {
                let value = string_of(line, k + 1, n);
                return Some(trim_text(value.as_str()));
            }
        }
        assert(all.subrange(i as int, all.len() as int).drop_first() =~= all.subrange(i + 1, all.len() as int));
        i += 1;
    }
    None
}

/// What a macOS service's automatic proxy was before setup, from
/// `networksetup -getautoproxyurl` output: its URL and whether it was on.
/// Nothing to restore when no URL is set (`(null)`), or when it is already
/// pitchfork's own.
pub open spec fn spec_mac_prior(service: Seq<char>, output: Seq<char>, our_url: Seq<char>) -> Option<
    (Seq<char>, Seq<char>, Seq<char>),
> {
    let url = match field_in(lines(output), "URL"@) {
        Some(u) => u,
        None => Seq::empty(),
    };
    if url.len() == 0 || url == "(null)"@ || url == our_url {
        None
    } else {
        let enabled = match field_in(lines(output), "Enabled"@) {
            Some(e) => eq_fold(e, "yes"@),
            None => false,
        };
        Some((service, url, if enabled {
            "on"@
        } else {
            "off"@
        }))
    }
}

/// The view of a prior automatic-proxy setting.
pub open spec fn prior_v(p: PriorAutoProxy) -> (Seq<char>, Seq<char>, Seq<char>) {
    (p.target@, p.url@, p.state@)
}

/// What a macOS service's automatic proxy was before setup.
pub fn mac_prior_auto_proxy(service: &str, output: &str, our_url: &str) -> (r: Option<PriorAutoProxy>)
    ensures
        match r {
            Some(p) => spec_mac_prior(service@, output@, our_url@) == Some(prior_v(p)),
            None => spec_mac_prior(service@, output@, our_url@) is None,
        },
{
    let url = match field_of(output, "URL") {
        Some(u) => u,
        None => String::new(),
    };
    if url.as_str().is_empty() || str_eq(url.as_str(), "(null)") || str_eq(url.as_str(), our_url) {
        return None;
    }
    let enabled = match field_of(output, "Enabled") {
        Some(e) => eq_ignore_ascii_case(e.as_str(), "yes"),
        None => false,
    };
    Some(
        PriorAutoProxy {
            target: service.to_owned(),
            url,
            state: String::from_str(if enabled {
                "on"
            } else {
                "off"
            }),
        },
    )
}

/// A `gsettings` value without white space and quotes around it.
pub open spec fn unquote(v: Seq<char>) -> Seq<char> {
    trim_char(trim(v), '\'')
}

fn unquoted(v: &str) -> (r: String)
    ensures
        r@ == unquote(v@),
{
    let t = trim_text(v);
    trim_char_text(t.as_str(), '\'')
}

/// What GNOME's automatic proxy was before setup, from the outputs of
/// `gsettings get` for the URL and the mode (`None` where the command
/// failed): the URL and the mode to restore, unless no URL is set or it is
/// already pitchfork's own. An unreadable mode restores as `none`.
pub open spec fn spec_gnome_prior(url_output: Option<Seq<char>>, mode_output: Option<Seq<char>>, our_url: Seq<char>) -> Option<
    (Seq<char>, Seq<char>, Seq<char>),
> {
    let url = match url_output {
        Some(u) => unquote(u),
        None => Seq::empty(),
    };
    if url.len() == 0 || url == our_url {
        None
    } else {
        Some(("gnome"@, url, match mode_output {
            Some(m) => unquote(m),
            None => "none"@,
        }))
    }
}

/// What GNOME's automatic proxy was before setup.
pub fn gnome_prior_auto_proxy(url_output: Option<&str>, mode_output: Option<&str>, our_url: &str) -> (r: Option<
    PriorAutoProxy,
>)
    ensures
        match r {
            Some(p) => spec_gnome_prior(
                crate::names::opt_view(url_output),
                crate::names::opt_view(mode_output),
                our_url@,
            ) == Some(prior_v(p)),
            None => spec_gnome_prior(
                crate::names::opt_view(url_output),
                crate::names::opt_view(mode_output),
                our_url@,
            ) is None,
        },
{
    let url = match url_output {
        Some(u) => unquoted(u),
        None => String::new(),
    };
    if url.as_str().is_empty() || str_eq(url.as_str(), our_url) {
        return None;
    }
    let state = match mode_output {
        Some(m) => unquoted(m),
        None => String::from_str("none"),
    };
    Some(PriorAutoProxy { target: String::from_str("gnome"), url, state })
}

} // verus!
