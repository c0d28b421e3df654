//! Reading the SNI of a TLS connection before anything is consumed: the
//! decisions the peek loop takes after each look at the socket's buffered
//! bytes. Waiting, peeking and the readiness check stay with the caller.

use vstd::prelude::*;
use crate::sni::{parse_sni, sni_verdict, SniPeek, Verdict};

verus! {

/// How many of a connection's opening bytes the first look examines.
pub const SNI_PEEK_START_BYTES: usize = 2048;

/// How much of the opening bytes is examined at most while looking for SNI.
pub const SNI_PEEK_MAX_BYTES: usize = 16384;

/// The pause between looks while a hello is still arriving, in milliseconds.
pub const PEEK_MIN_PAUSE_MS: u64 = 10;

/// The longest pause between looks at a stalled hello, in milliseconds.
pub const PEEK_MAX_PAUSE_MS: u64 = 200;

/// What peeking at a connection's ClientHello found.
///
/// "No hostname" and "hostname unknown" differ: a connection whose hostname
/// could not be read may still belong to a passthrough daemon.
#[derive(Debug, Clone, PartialEq, Eq)]
pub enum SniProbe {
    /// The ClientHello named this host.
    Host(String),
    /// A complete ClientHello carried no SNI, the connection is not a TLS
    /// handshake, or the client hung up before sending anything.
    NoHost,
    /// Nothing settled: the hello stalled, or was still incomplete when the
    /// cap on examined bytes was reached.
    Undetermined,
}

/// The mathematical value of a probe.
pub enum ProbeV {
    Host(Seq<char>),
    NoHost,
    Undetermined,
}

impl SniProbe {
    pub open spec fn view(&self) -> ProbeV {
        match self {
            SniProbe::Host(h) => ProbeV::Host(h@),
            SniProbe::NoHost => ProbeV::NoHost,
            SniProbe::Undetermined => ProbeV::Undetermined,
        }
    }
}

/// What the peek loop does after a look at the buffered bytes.
#[derive(Debug, Clone, PartialEq, Eq)]
pub enum PeekStep {
    /// The probe is over with this result.
    Settled(SniProbe),
    /// The window was full: look again at once through a window this large.
    Widen(usize),
    /// The hello is still arriving: wait for more, unless the peer closed.
    Wait,
}

/// The mathematical value of a step.
pub enum PeekStepV {
    Settled(ProbeV),
    Widen(nat),
    Wait,
}

impl PeekStep {
    pub open spec fn view(&self) -> PeekStepV {
        match self {
            PeekStep::Settled(p) => PeekStepV::Settled(p@),
            PeekStep::Widen(n) => PeekStepV::Widen(*n as nat),
            PeekStep::Wait => PeekStepV::Wait,
        }
    }
}

/// The step after a look that found `peeked` through a window of `window`
/// bytes, `deadline_passed` telling whether the probe's time is up.
///
/// Nothing buffered means the peer hung up without a word. A hostname, a
/// hello without one, or bytes that are not TLS settle the probe. An
/// incomplete hello that filled the window widens it, up to the cap; at the
/// cap, or once the deadline has passed, the probe gives up undetermined.
pub open spec fn spec_peek_step(peeked: Seq<u8>, window: nat, deadline_passed: bool) -> PeekStepV {
    if peeked.len() == 0 {
        PeekStepV::Settled(ProbeV::NoHost)
    } else {
        match sni_verdict(peeked) {
            Verdict::Found(h) => PeekStepV::Settled(ProbeV::Host(h)),
            Verdict::Absent => PeekStepV::Settled(ProbeV::NoHost),
            Verdict::NotTls => PeekStepV::Settled(ProbeV::NoHost),
            Verdict::Incomplete => if peeked.len() == window && window < SNI_PEEK_MAX_BYTES {
                PeekStepV::Widen(if 2 * window <= SNI_PEEK_MAX_BYTES { 2 * window } else { SNI_PEEK_MAX_BYTES as nat })
            } else if peeked.len() >= SNI_PEEK_MAX_BYTES || deadline_passed {
                PeekStepV::Settled(ProbeV::Undetermined)
            } else {
                PeekStepV::Wait
            },
        }
    }
}

/// The step after a look that found `peeked` through a window of `window`
/// bytes.
pub fn peek_step(peeked: &[u8], window: usize, deadline_passed: bool) -> (r: PeekStep)
    requires
        peeked@.len() <= window,
    ensures
        r@ == spec_peek_step(peeked@, window as nat, deadline_passed),
{
    let n = peeked.len();
    if n == 0 {
        return PeekStep::Settled(SniProbe::NoHost);
    }
    match parse_sni(peeked) {
        SniPeek::Found(h) => PeekStep::Settled(SniProbe::Host(h)),
        SniPeek::Absent => PeekStep::Settled(SniProbe::NoHost),
        SniPeek::NotTls => PeekStep::Settled(SniProbe::NoHost),
        SniPeek::Incomplete => {
            if n == window && window < SNI_PEEK_MAX_BYTES {
                let wider = if window <= SNI_PEEK_MAX_BYTES / 2 {
                    window * 2
                } else {
                    SNI_PEEK_MAX_BYTES
                };
                PeekStep::Widen(wider)
            } else if n >= SNI_PEEK_MAX_BYTES || deadline_passed {
                PeekStep::Settled(SniProbe::Undetermined)
            } else {
                PeekStep::Wait
            }
        },
    }
}

/// The pause before the next look: short while the hello is still growing,
/// doubling up to the cap while it has stalled.
pub open spec fn spec_next_pause(pause_ms: u64, seen: nat, seen_before: nat) -> nat {
    if seen > seen_before {
        PEEK_MIN_PAUSE_MS as nat
    } else if 2 * pause_ms <= PEEK_MAX_PAUSE_MS {
        (2 * pause_ms) as nat
    } else {
        PEEK_MAX_PAUSE_MS as nat
    }
}

/// The pause before the next look, in milliseconds, after the previous
/// pause of `pause_ms` and looks that saw `seen` and then `seen_before` bytes.
pub fn next_pause(pause_ms: u64, seen: usize, seen_before: usize) -> (r: u64)
    ensures
        r == spec_next_pause(pause_ms, seen as nat, seen_before as nat),
{
    if seen > seen_before {
        PEEK_MIN_PAUSE_MS
    } else if pause_ms <= PEEK_MAX_PAUSE_MS / 2 {
        pause_ms * 2
    } else {
        PEEK_MAX_PAUSE_MS
    }
}

// ─── laws ───────────────────────────────────────────────────────────────────

/// A hello that is still incomplete never settles as "no hostname": the
/// probe either looks again or gives up undetermined, so a connection that
/// may belong to a passthrough daemon is never taken for one that names
/// nobody.
pub proof fn law_an_incomplete_hello_never_reads_as_no_host(peeked: Seq<u8>, window: nat, deadline_passed: bool)
    requires
        peeked.len() > 0,
        sni_verdict(peeked) == Verdict::Incomplete,
    ensures
        spec_peek_step(peeked, window, deadline_passed) != PeekStepV::Settled(ProbeV::NoHost),
        spec_peek_step(peeked, window, deadline_passed) is Settled ==> spec_peek_step(peeked, window, deadline_passed)
            == PeekStepV::Settled(ProbeV::Undetermined),
{
}

/// The window only grows, and never past the cap.
pub proof fn law_the_window_grows_within_the_cap(peeked: Seq<u8>, window: nat, deadline_passed: bool)
    requires
        peeked.len() <= window,
    ensures
        spec_peek_step(peeked, window, deadline_passed) matches PeekStepV::Widen(w) ==> window < w
            <= SNI_PEEK_MAX_BYTES,
{
}

/// The pause between looks stays between the short pause and the cap: a
/// slow client is never polled faster, nor left waiting longer.
pub proof fn law_the_pause_stays_bounded(pause_ms: u64, seen: nat, seen_before: nat)
    requires
        PEEK_MIN_PAUSE_MS <= pause_ms <= PEEK_MAX_PAUSE_MS,
    ensures
        PEEK_MIN_PAUSE_MS <= spec_next_pause(pause_ms, seen, seen_before) <= PEEK_MAX_PAUSE_MS,
{
}

} // verus!
