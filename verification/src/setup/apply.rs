//! Deciding, step by step, what running a plan still has to do.

use vstd::prelude::*;
use crate::names::views;
use crate::setup::blocks::{
    contains_text, marker_start, spec_splice_block, spec_splice_pf_block, splice_block, splice_pf_block, MARKER_START,
};
use crate::setup::caps::{bind_capability, revoke_already_done, untrust_already_done};
use crate::setup::model::{Action, ActionV};
use crate::text::{contains, str_eq};

verus! {

/// What the system showed about one step's target, read before deciding
/// whether the step still has to run.
pub struct Observed {
    /// The contents of the file the action reads, when it could be read.
    pub content: Option<String>,
    /// Whether the action's path exists.
    pub exists: bool,
    /// Whether that file carries pitchfork's header.
    pub managed: bool,
    /// Whether the action's guard probe ran and matched.
    pub probe_matched: bool,
    /// The capabilities on the binary, when `getcap` could say.
    pub capabilities: Option<Vec<String>>,
    /// Whether the CA is in the system trust store.
    pub ca_trusted: bool,
    /// What the trust store answered about the CA, when it answered.
    pub trust_state: Option<bool>,
}

pub open spec fn opt_view(o: Option<String>) -> Option<Seq<char>> {
    match o {
        Some(s) => Some(s@),
        None => None,
    }
}

/// Whether a step's effect is already in place, so running it can be
/// skipped.
pub open spec fn spec_already_done(a: ActionV, o: Observed) -> bool {
    match a {
        ActionV::WriteFile { content, .. } => opt_view(o.content) == Some(content),
        // Either it is gone, or it is not ours to remove.
        ActionV::RemoveFile { .. } => !o.exists || !o.managed,
        // For a pf.conf the block's position matters as much as its presence.
        ActionV::EnsureBlock { content, pf_order, .. } => match opt_view(o.content) {
            Some(c) => if pf_order {
                spec_splice_pf_block(c, content) == c
            } else {
                contains(c, marker_start()) && contains(c, content)
            },
            None => false,
        },
        ActionV::RemoveBlock { .. } => match opt_view(o.content) {
            Some(c) => !contains(c, marker_start()),
            None => false,
        },
        ActionV::Note => true,
        ActionV::Run { skip_if, .. } => skip_if is Some && o.probe_matched,
        // Nothing of ours to revert means there is nothing to do.
        ActionV::RunIfPresent { .. } => !o.probe_matched,
        ActionV::RevokeBindCapability { .. } => match o.capabilities {
            Some(c) => !views(c@).contains(bind_capability()),
            None => false,
        },
        ActionV::TrustCa { .. } => o.ca_trusted,
        ActionV::UntrustCa { .. } => o.exists && o.trust_state == Some(false),
    }
}

/// Whether a step's effect is already in place, so running it can be
/// skipped.
///
/// A command with no guard is always run; one with a guard is skipped when
/// the guard matched. A CA is only counted as already removed when its
/// certificate is present and the store says it is not trusted.
pub fn already_done(action: &Action, observed: &Observed) -> (r: bool)
    ensures
        r == spec_already_done(action@, *observed),
{
    match action {
        Action::WriteFile { content, .. } => match &observed.content {
            Some(c) => str_eq(c.as_str(), content.as_str()),
            None => false,
        },
        Action::RemoveFile { .. } => !observed.exists || !observed.managed,
        Action::EnsureBlock { content, pf_order, .. } => match &observed.content {
            Some(c) => {
                if *pf_order {
                    let spliced = splice_pf_block(c.as_str(), content.as_str());
                    str_eq(spliced.as_str(), c.as_str())
                } else {
                    contains_text(c.as_str(), MARKER_START) && contains_text(c.as_str(), content.as_str())
                }
            },
            None => false,
        },
        Action::RemoveBlock { .. } => match &observed.content {
            Some(c) => !contains_text(c.as_str(), MARKER_START),
            None => false,
        },
        Action::Note => true,
        Action::Run { skip_if, .. } => skip_if.is_some() && observed.probe_matched,
        Action::RunIfPresent { .. } => !observed.probe_matched,
        Action::RevokeBindCapability { .. } => match &observed.capabilities {
            Some(c) => revoke_already_done(Some(c.as_slice())),
            None => false,
        },
        Action::TrustCa { .. } => observed.ca_trusted,
        Action::UntrustCa { .. } => untrust_already_done(observed.exists, observed.trust_state),
    }
}

/// Why a step was skipped, for the line `apply` prints.
pub open spec fn spec_skip_reason(a: ActionV, exists: bool, managed: bool) -> Seq<char> {
    match a {
        ActionV::RemoveFile { .. } => if exists && !managed {
            "not written by pitchfork, left alone"@
        } else {
            "nothing there"@
        },
        ActionV::RunIfPresent { .. } => "not configured by pitchfork"@,
        _ => "already done"@,
    }
}

/// Why a step was skipped, for the line `apply` prints.
pub fn skip_reason(action: &Action, exists: bool, managed: bool) -> (r: &'static str)
    ensures
        r@ == spec_skip_reason(action@, exists, managed),
{
    match action {
        Action::RemoveFile { .. } => if exists && !managed {
            "not written by pitchfork, left alone"
        } else {
            "nothing there"
        },
        Action::RunIfPresent { .. } => "not configured by pitchfork",
        _ => "already done",
    }
}

/// Outcome of running a plan, for reporting.
pub struct RunReport {
    /// Steps that ran and succeeded.
    pub applied: usize,
    /// Steps already in effect.
    pub skipped: usize,
    /// Steps that failed, with why.
    pub failed: Vec<(String, String)>,
}

impl RunReport {
    /// A report of nothing run yet.
    pub fn new() -> (r: RunReport)
        ensures
            r.applied == 0,
            r.skipped == 0,
            r.failed@.len() == 0,
    {
        RunReport { applied: 0, skipped: 0, failed: Vec::new() }
    }

    /// Count a step that was already in effect.
    pub fn skip(&mut self)
        requires
            old(self).skipped < usize::MAX,
        ensures
            final(self).skipped == old(self).skipped + 1,
            final(self).applied == old(self).applied,
            final(self).failed@ == old(self).failed@,
    {
        self.skipped = self.skipped + 1;
    }

    /// Count a step that ran: applied when it succeeded, and recorded with
    /// its error when it failed, so the steps after it still run.
    pub fn record(&mut self, summary: &str, outcome: Result<(), String>)
        requires
            old(self).applied < usize::MAX,
        ensures
            final(self).skipped == old(self).skipped,
            match outcome {
                Ok(()) => final(self).applied == old(self).applied + 1 && final(self).failed@ == old(self).failed@,
                Err(e) => {
                    &&& final(self).applied == old(self).applied
                    &&& final(self).failed@.len() == old(self).failed@.len() + 1
                    &&& final(self).failed@.drop_last() == old(self).failed@
                    &&& final(self).failed@.last().0@ == summary@
                    &&& final(self).failed@.last().1@ == e@
                },
            },
    {
        match outcome {
            Ok(()) => {
                self.applied = self.applied + 1;
            },
            Err(e) => {
                self.failed.push((summary.to_owned(), e));
            },
        }
    }
}

// ─── running one step ───────────────────────────────────────────────────────

/// The first line of every file pitchfork owns outright.
pub const OWNED_HEADER: &'static str = "# Managed by pitchfork (pitchfork proxy setup)";

/// Whether a file, by what it holds, is one pitchfork wrote; a file that
/// could not be read is not.
pub fn is_managed(contents: Option<&str>) -> (r: bool)
    ensures
        r == match contents {
            Some(c) => contains(c@, OWNED_HEADER@),
            None => false,
        },
{
    match contents {
        Some(c) => contains_text(c, OWNED_HEADER),
        None => false,
    }
}

/// Why writing an owned file to `path` is refused: a file carrying the
/// header is one pitchfork claims outright, so it does not take over a file
/// somebody else put there.
pub open spec fn spec_write_refusal(path: Seq<char>, content: Seq<char>, exists: bool, managed: bool) -> Option<
    Seq<char>,
> {
    if contains(content, OWNED_HEADER@) && exists && !managed {
        Some(
            path
                + " already exists and was not written by pitchfork, so it was left alone. Move it aside if it is no longer needed, or choose a different proxy.tld."@,
        )
    } else {
        None
    }
}

/// Why writing `content` to `path` is refused, if it is.
pub fn write_refusal(path: &str, content: &str, exists: bool, managed: bool) -> (r: Option<String>)
    ensures
        match r {
            Some(m) => spec_write_refusal(path@, content@, exists, managed) == Some(m@),
            None => spec_write_refusal(path@, content@, exists, managed) is None,
        },
{
    if contains_text(content, OWNED_HEADER) && exists && !managed {
        let mut m = path.to_owned();
        m.append(
            " already exists and was not written by pitchfork, so it was left alone. Move it aside if it is no longer needed, or choose a different proxy.tld.",
        );
        Some(m)
    } else {
        None
    }
}

/// What reading the file that may still reference a removed one gave.
#[derive(Clone, Debug)]
pub enum Referrer {
    /// It does not exist, so it references nothing.
    Absent,
    /// Its contents.
    Read(String),
    /// It exists but could not be read, with why.
    Unreadable(String),
}

/// Why removing `path` is refused while `referrer` may still load it: it
/// names our block, or it could not be read, which is not evidence that
/// the reference is gone.
pub open spec fn spec_removal_refusal(path: Seq<char>, referrer: Seq<char>, state: Referrer) -> Option<Seq<char>> {
    match state {
        Referrer::Absent => None,
        Referrer::Read(c) => if contains(c@, marker_start()) {
            Some(referrer + " "@ + ("still names "@ + path) + ", so "@ + path + " was left in place"@)
        } else {
            None
        },
        Referrer::Unreadable(e) => Some(
            referrer + " "@ + ("could not be read ("@ + e@ + ")"@) + ", so "@ + path + " was left in place"@,
        ),
    }
}

/// Why removing `path` is refused, if it is.
pub fn removal_refusal(path: &str, referrer: &str, state: Referrer) -> (r: Option<String>)
    ensures
        match r {
            Some(m) => spec_removal_refusal(path@, referrer@, state) == Some(m@),
            None => spec_removal_refusal(path@, referrer@, state) is None,
        },
{
    let why = match state {
        Referrer::Absent => return None,
        Referrer::Read(c) => {
            if !contains_text(c.as_str(), MARKER_START) {
                return None;
            }
            let mut w = String::from_str("still names ");
            w.append(path);
            w
        },
        Referrer::Unreadable(e) => {
            let mut w = String::from_str("could not be read (");
            w.append(e.as_str());
            w.append(")");
            w
        },
    };
    let mut m = referrer.to_owned();
    m.append(" ");
    m.append(why.as_str());
    m.append(", so ");
    m.append(path);
    m.append(" was left in place");
    Some(m)
}

/// Why a block naming `prerequisite` is not written to `path`: the file it
/// names has to be present and ours, or the block would load somebody
/// else's rules.
pub open spec fn spec_block_refusal(path: Seq<char>, prerequisite: Option<Seq<char>>, managed: bool, exists: bool) -> Option<
    Seq<char>,
> {
    match prerequisite {
        Some(p) => if managed {
            None
        } else {
            Some(
                p + " "@ + (if exists {
                    "was not written by pitchfork"@
                } else {
                    "does not exist"@
                }) + ", so the block naming it was not written to "@ + path,
            )
        },
        None => None,
    }
}

/// Why a block is not written, if it is not.
pub fn block_refusal(path: &str, prerequisite: Option<&str>, managed: bool, exists: bool) -> (r: Option<String>)
    ensures
        match r {
            Some(m) => spec_block_refusal(path@, crate::names::opt_view(prerequisite), managed, exists) == Some(m@),
            None => spec_block_refusal(path@, crate::names::opt_view(prerequisite), managed, exists) is None,
        },
{
    match prerequisite {
        Some(p) => {
            if managed {
                return None;
            }
            let mut m = p.to_owned();
            m.append(" ");
            m.append(if exists {
                "was not written by pitchfork"
            } else {
                "does not exist"
            });
            m.append(", so the block naming it was not written to ");
            m.append(path);
            Some(m)
        },
        None => None,
    }
}

/// The text a file gets when a block is ensured in it: spliced where a pf
/// ruleset needs it, or replacing the marked block otherwise.
pub fn with_block(current: &str, content: &str, pf_order: bool) -> (r: String)
    ensures
        r@ == if pf_order {
            spec_splice_pf_block(current@, content@)
        } else {
            spec_splice_block(current@, content@)
        },
{
    if pf_order {
        splice_pf_block(current, content)
    } else {
        splice_block(current, content)
    }
}

/// The text a file keeps when our block is removed from it.
pub fn without_our_block(current: &str) -> (r: String)
    ensures
        r@ == spec_splice_block(current@, ""@),
{
    splice_block(current, "")
}

} // verus!
