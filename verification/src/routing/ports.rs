//! Which of a running daemon's ports a hostname forwards to.

use vstd::prelude::*;
use crate::routing::slugs::{ProxyTlsMode, ProxyTlsRoute};

verus! {

/// The ports a daemon record carries.
#[derive(Clone, Debug)]
pub struct DaemonPorts {
    /// The ports its config declares, in order.
    pub configured: Vec<u16>,
    /// The ports it was started on, position for position; 0 where the
    /// operating system was asked to choose and nothing is detected yet.
    pub resolved: Vec<u16>,
    /// The port it was detected listening on first.
    pub active: Option<u16>,
}

/// The first port of `s` that is not 0.
pub open spec fn first_nonzero(s: Seq<u16>) -> Option<u16>
    decreases s.len(),
{
    if s.len() == 0 {
        None
    } else if s[0] != 0 {
        Some(s[0])
    } else {
        first_nonzero(s.drop_first())
    }
}

/// A port, unless it is 0.
pub open spec fn nonzero(p: Option<u16>) -> Option<u16> {
    match p {
        Some(v) => if v != 0 {
            Some(v)
        } else {
            None
        },
        None => None,
    }
}

/// `a`, or `b` when `a` is `None`.
pub open spec fn or_else(a: Option<u16>, b: Option<u16>) -> Option<u16> {
    if a is Some {
        a
    } else {
        b
    }
}

/// Whether `i` is the first position of `x` in `s`.
pub open spec fn is_first_position(s: Seq<u16>, x: u16, i: int) -> bool {
    &&& 0 <= i < s.len()
    &&& s[i] == x
    &&& forall|j: int| 0 <= j < i ==> #[trigger] s[j] != x
}

/// The first position of `x` in `s`.
pub open spec fn position(s: Seq<u16>, x: u16) -> Option<int> {
    if exists|i: int| is_first_position(s, x, i) {
        Some(choose|i: int| is_first_position(s, x, i))
    } else {
        None
    }
}

/// The port a hostname with `route` forwards to on a daemon with these
/// configured, resolved and detected ports.
///
/// Without a configured port, a terminating hostname takes the detected
/// port, else the first resolved one; a passthrough hostname the other way
/// round, since the first detected listener need not be the TLS one. Port 0
/// is never an answer. With a configured port, its position in the declared
/// list picks the resolved port at that position (none while that is still
/// 0); failing that, the configured port is used as written when the daemon
/// bound it or has no resolved ports to contradict it.
pub open spec fn spec_select_daemon_port(
    route: ProxyTlsRoute,
    configured: Seq<u16>,
    resolved: Seq<u16>,
    active: Option<u16>,
) -> Option<u16> {
    match route.port {
        None => {
            let detected = nonzero(active);
            let first_declared = first_nonzero(resolved);
            if route.mode == ProxyTlsMode::Passthrough {
                or_else(first_declared, detected)
            } else {
                or_else(detected, first_declared)
            }
        },
        Some(want) => {
            let by_position = match position(configured, want) {
                Some(idx) => if idx < resolved.len() {
                    Some(nonzero(Some(resolved[idx])))
                } else {
                    None
                },
                None => None,
            };
            match by_position {
                Some(p) => p,
                None => if resolved.contains(want) || resolved.len() == 0 {
                    Some(want)
                } else {
                    None
                },
            }
        },
    }
}

/// The first port of `s` that is not 0.
fn first_nonzero_of(s: &Vec<u16>) -> (r: Option<u16>)
    ensures
        r == first_nonzero(s@),
{
    let n = s.len();
    let mut i: usize = 0;
    assert(s@.subrange(0, n as int) =~= s@);
    while i < n
        invariant
            n == s@.len(),
            i <= n,
            first_nonzero(s@) == first_nonzero(s@.subrange(i as int, n as int)),
        decreases n - i,
    {
        assert(s@.subrange(i as int, n as int)[0] == s@[i as int]);
        if s[i] != 0 {
            return Some(s[i]);
        }
        assert(s@.subrange(i as int, n as int).drop_first() =~= s@.subrange(i + 1, n as int));
        i += 1;
    }
    None
}

/// The first position of `x` in `s`.
fn position_of(s: &Vec<u16>, x: u16) -> (r: Option<usize>)
    ensures
        match r {
            Some(i) => position(s@, x) == Some(i as int),
            None => position(s@, x) is None,
        },
{
    let mut i: usize = 0;
    while i < s.len()
        invariant
            i <= s@.len(),
            forall|j: int| 0 <= j < i ==> #[trigger] s@[j] != x,
        decreases s@.len() - i,
    {
        if s[i] == x {
            assert(is_first_position(s@, x, i as int));
            let ghost c = choose|c: int| is_first_position(s@, x, c);
            assert(c == i) by {
                if c < i {
                    assert(s@[c] != x);
                }
                if c > i {
                    assert(s@[i as int] != x);
                }
            }
            return Some(i);
        }
        i += 1;
    }
    assert(!exists|c: int| is_first_position(s@, x, c)) by {
        assert forall|c: int| !is_first_position(s@, x, c) by {
            if 0 <= c < s@.len() {
                assert(s@[c] != x);
            }
        }
    }
    None
}

/// Whether `x` occurs in `s`.
fn holds_port(s: &Vec<u16>, x: u16) -> (r: bool)
    ensures
        r == s@.contains(x),
{
    match position_of(s, x) {
        Some(i) => {
            assert(s@[i as int] == x);
            true
        },
        None => {
            assert(!s@.contains(x)) by {
                if s@.contains(x) {
                    let j = choose|j: int| 0 <= j < s@.len() && s@[j] == x;
                    lemma_first_position_exists(s@, x, j);
                }
            }
            false
        },
    }
}

/// Where `x` occurs in `s` at all, a first position of it exists.
proof fn lemma_first_position_exists(s: Seq<u16>, x: u16, k: int)
    requires
        0 <= k < s.len(),
        s[k] == x,
    ensures
        exists|i: int| is_first_position(s, x, i),
    decreases k,
{
    if exists|j: int| 0 <= j < k && #[trigger] s[j] == x {
        let j = choose|j: int| 0 <= j < k && #[trigger] s[j] == x;
        lemma_first_position_exists(s, x, j);
    } else {
        assert(is_first_position(s, x, k));
    }
}

/// Pick which of a running daemon's ports a hostname forwards to.
pub fn select_daemon_port(route: &ProxyTlsRoute, daemon: &DaemonPorts) -> (r: Option<u16>)
    ensures
        r == spec_select_daemon_port(*route, daemon.configured@, daemon.resolved@, daemon.active),
{
    match route.port {
        None => {
            let detected = match daemon.active {
                Some(p) => if p != 0 {
                    Some(p)
                } else {
                    None
                },
                None => None,
            };
            let first_declared = first_nonzero_of(&daemon.resolved);
            if route.mode.is_passthrough() {
                if first_declared.is_some() {
                    first_declared
                } else {
                    detected
                }
            } else {
                if detected.is_some() {
                    detected
                } else {
                    first_declared
                }
            }
        },
        Some(want) => {
            if let Some(idx) = position_of(&daemon.configured, want) {
                if idx < daemon.resolved.len() {
                    let resolved = daemon.resolved[idx];
                    return if resolved != 0 {
                        Some(resolved)
                    } else {
                        None
                    };
                }
            }
            if holds_port(&daemon.resolved, want) || daemon.resolved.len() == 0 {
                Some(want)
            } else {
                None
            }
        },
    }
}

/// `first_nonzero` never gives 0.
proof fn lemma_first_nonzero(s: Seq<u16>)
    ensures
        first_nonzero(s) != Some(0u16),
    decreases s.len(),
{
    if s.len() > 0 && s[0] == 0 {
        lemma_first_nonzero(s.drop_first());
    }
}

/// Port 0, which a daemon carries where the operating system was asked to
/// choose and nothing is detected yet, is never forwarded to, unless the
/// hostname itself configures port 0.
pub proof fn law_port_zero_is_never_forwarded(
    route: ProxyTlsRoute,
    configured: Seq<u16>,
    resolved: Seq<u16>,
    active: Option<u16>,
)
    requires
        route.port != Some(0u16),
    ensures
        spec_select_daemon_port(route, configured, resolved, active) != Some(0u16),
{
    lemma_first_nonzero(resolved);
}

} // verus!
