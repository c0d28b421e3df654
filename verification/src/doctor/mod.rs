//! `proxy doctor`: what each probe's outcome means, as one line per thing
//! that has to be true for a proxy URL to work in a browser.
//!
//! The probes themselves (sockets, subprocesses, the system resolver, the
//! trust store) run outside; every verdict drawn from what they found is
//! made here.

use vstd::prelude::*;

pub mod pac;
pub mod resolver;
pub mod run;

verus! {

// ─── checks ─────────────────────────────────────────────────────────────────

/// Result of one check.
#[derive(Clone, Copy, Debug, PartialEq, Eq, Structural)]
pub enum Status {
    Pass,
    Warn,
    Fail,
}

/// The four-column tag a check's line starts with.
pub open spec fn spec_glyph(s: Status) -> Seq<char> {
    match s {
        Status::Pass => "ok  "@,
        Status::Warn => "warn"@,
        Status::Fail => "fail"@,
    }
}

impl Status {
    pub fn glyph(self) -> (r: &'static str)
        ensures
            r@ == spec_glyph(self),
    {
        match self {
            Status::Pass => "ok  ",
            Status::Warn => "warn",
            Status::Fail => "fail",
        }
    }
}

/// One named check and what it found.
#[derive(Clone, Debug)]
pub struct Check {
    pub name: String,
    pub status: Status,
    pub detail: String,
}

/// `n` spaces.
pub open spec fn spaces(n: nat) -> Seq<char> {
    Seq::new(n, |i: int| ' ')
}

/// `s` padded with spaces on the right to `w` chars (`{:<w}`).
pub open spec fn pad_right(s: Seq<char>, w: nat) -> Seq<char> {
    if s.len() >= w {
        s
    } else {
        s + spaces((w - s.len()) as nat)
    }
}

/// The line a check prints: its tag in brackets, its name padded to 22
/// columns, and its detail.
pub open spec fn spec_line(c: Check) -> Seq<char> {
    "["@ + spec_glyph(c.status) + "] "@ + pad_right(c.name@, 22) + " "@ + c.detail@
}

impl Check {
    pub fn new(name: &str, status: Status, detail: &str) -> (c: Check)
        ensures
            c.name@ == name@,
            c.status == status,
            c.detail@ == detail@,
    {
        Check { name: name.to_owned(), status, detail: detail.to_owned() }
    }

    /// The single line this check prints.
    pub fn line(&self) -> (r: String)
        ensures
            r@ == spec_line(*self),
    {
        let mut r = String::from_str("[");
        r.append(self.status.glyph());
        r.append("] ");
        r.append(self.name.as_str());
        let n = crate::text::chars_of(self.name.as_str()).len();
        let mut k = n;
        while k < 22
            invariant
                n == self.name@.len(),
                n <= k <= 22 || (n > 22 && k == n),
                r@ == "["@ + spec_glyph(self.status) + "] "@ + self.name@ + spaces((k - n) as nat),
            decreases 22 - k,
        {
            r.append(" ");
            proof {
                reveal_strlit(" ");
            }
            k += 1;
            assert(spaces((k - n) as nat) =~= spaces((k - 1 - n) as nat).push(' '));
            assert(r@ =~= "["@ + spec_glyph(self.status) + "] "@ + self.name@ + spaces((k - n) as nat));
        }
        assert(spaces(0) =~= Seq::<char>::empty());
        proof {
            if n >= 22 {
                assert(k == n);
                assert(self.name@ + spaces(0) =~= self.name@);
            } else {
                assert(k == 22);
            }
        }
        r.append(" ");
        r.append(self.detail.as_str());
        r
    }
}

} // verus!
