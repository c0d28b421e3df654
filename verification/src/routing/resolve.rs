//! From a host to an answer: the slug context a host resolves to, the
//! running daemon that serves it, and what the proxy replies with, keeping
//! the details of this machine from clients elsewhere on the network.

use vstd::prelude::*;
use crate::hostname::registry::opt_string;
use crate::names::{opt_view, views};
use crate::routing::ports::{select_daemon_port, spec_select_daemon_port, DaemonPorts};
use crate::routing::slugs::{
    match_worktree_prefix, spec_worktree_route, worktree_index, worktree_route, CachedSlugEntry, PrefixMatch,
    ProxyTlsRoute,
};
use crate::routing::text::{spec_strip_dot_suffix, strip_dot_suffix_ignore_case};
use crate::names::eq_ignore_ascii_case;
use crate::text::{eq_fold, str_eq};

verus! {

// ─── the slug context of a host ─────────────────────────────────────────────

/// What a host resolves to within a slug before the daemon's running state
/// is consulted: the namespace and worktree it names, and its TLS route.
#[derive(Debug)]
pub struct RouteContext {
    /// The namespace the daemon runs under.
    pub expected_namespace: Option<String>,
    /// The worktree checkout the host names, if any.
    pub worktree_dir: Option<String>,
    /// How its TLS is handled and which port it maps to.
    pub route: ProxyTlsRoute,
}

/// The context a subdomain resolves to within `cached`: a wildcard prefix
/// naming a worktree takes that worktree's namespace (the slug's when it
/// has none), directory and route; an ambiguous prefix is refused; anything
/// else is the slug's main checkout. `Err` carries the refusal.
pub open spec fn spec_route_context(host: Seq<char>, subdomain: Seq<char>, cached: CachedSlugEntry) -> Result<
    (Option<Seq<char>>, Option<Seq<char>>, ProxyTlsRoute),
    Seq<char>,
> {
    let main = Ok((opt_string(cached.namespace), None, cached.tls));
    if eq_fold(subdomain, cached.slug@) {
        main
    } else {
        match spec_strip_dot_suffix(subdomain, cached.slug@) {
            None => main,
            Some(p) => match worktree_index(cached.worktrees@, p) {
                Some(w) => {
                    let wt = cached.worktrees@[w];
                    Ok(
                        (
                            if wt.namespace is Some {
                                opt_string(wt.namespace)
                            } else {
                                opt_string(cached.namespace)
                            },
                            Some(wt.path@),
                            spec_worktree_route(cached, wt.sanitized_branch@),
                        ),
                    )
                },
                None => if views(cached.rejected_worktree_prefixes@).contains(crate::text::lower_seq(p)) {
                    Err(
                        "'"@ + host + "' is ambiguous: more than one branch or workspace of '"@ + cached.slug@
                            + "' sanitizes to the prefix '"@ + p
                            + "', and host names are case-insensitive.\nRename one of them so the prefixes differ by more than case, then reload.\nThe supervisor log lists the colliding branches."@,
                    )
                } else {
                    main
                },
            },
        }
    }
}

/// A copy of an optional name.
fn copy_name(o: &Option<String>) -> (r: Option<String>)
    ensures
        opt_string(r) == opt_string(*o),
{
    match o {
        Some(s) => Some(s.as_str().to_owned()),
        None => None,
    }
}

/// The views of a route context.
pub open spec fn context_v(c: RouteContext) -> (Option<Seq<char>>, Option<Seq<char>>, ProxyTlsRoute) {
    (opt_string(c.expected_namespace), opt_string(c.worktree_dir), c.route)
}

/// Resolve `subdomain` (of `host`) within the slug entry it matched.
pub fn route_context(host: &str, subdomain: &str, cached: &CachedSlugEntry) -> (r: Result<RouteContext, String>)
    ensures
        match r {
            Ok(c) => spec_route_context(host@, subdomain@, *cached) == Ok::<
                (Option<Seq<char>>, Option<Seq<char>>, ProxyTlsRoute),
                Seq<char>,
            >(context_v(c)),
            Err(m) => spec_route_context(host@, subdomain@, *cached) == Err::<
                (Option<Seq<char>>, Option<Seq<char>>, ProxyTlsRoute),
                Seq<char>,
            >(m@),
        },
{
    let main = RouteContext { expected_namespace: copy_name(&cached.namespace), worktree_dir: None, route: cached.tls };
    if eq_ignore_ascii_case(subdomain, cached.slug.as_str()) {
        return Ok(main);
    }
    let prefix = match strip_dot_suffix_ignore_case(subdomain, cached.slug.as_str()) {
        Some(p) => p,
        None => return Ok(main),
    };
    match match_worktree_prefix(cached, prefix.as_str()) {
        PrefixMatch::Worktree(wt) => {
            let ns = match &wt.namespace {
                Some(n) => Some(n.as_str().to_owned()),
                None => copy_name(&cached.namespace),
            };
            let route = worktree_route(cached, wt.sanitized_branch.as_str());
            Ok(RouteContext { expected_namespace: ns, worktree_dir: Some(wt.path.as_str().to_owned()), route })
        },
        PrefixMatch::Ambiguous => {
            let mut m = String::from_str("'");
            m.append(host);
            m.append("' is ambiguous: more than one branch or workspace of '");
            m.append(cached.slug.as_str());
            m.append("' sanitizes to the prefix '");
            m.append(prefix.as_str());
            m.append(
                "', and host names are case-insensitive.\nRename one of them so the prefixes differ by more than case, then reload.\nThe supervisor log lists the colliding branches.",
            );
            Err(m)
        },
        PrefixMatch::Unknown => Ok(main),
    }
}

// ─── the running daemon ─────────────────────────────────────────────────────

/// A daemon as the supervisor's state records it.
#[derive(Clone, Debug)]
pub struct DaemonRecord {
    pub namespace: String,
    pub name: String,
    /// Whether it is running.
    pub running: bool,
    /// Its ports.
    pub ports: DaemonPorts,
}

/// Whether record `d` is a running daemon called `name`, in `namespace`
/// when one is expected.
pub open spec fn serves(d: DaemonRecord, name: Seq<char>, namespace: Option<Seq<char>>) -> bool {
    &&& d.name@ == name
    &&& d.running
    &&& match namespace {
        Some(ns) => d.namespace@ == ns,
        None => true,
    }
}

/// The first record that serves `name` in `namespace`.
pub open spec fn first_serving(ds: Seq<DaemonRecord>, name: Seq<char>, namespace: Option<Seq<char>>) -> Option<int> {
    if exists|i: int| 0 <= i < ds.len() && serves(ds[i], name, namespace) && forall|j: int|
        0 <= j < i ==> !serves(#[trigger] ds[j], name, namespace) {
        Some(
            choose|i: int|
                0 <= i < ds.len() && serves(ds[i], name, namespace) && forall|j: int|
                    0 <= j < i ==> !serves(#[trigger] ds[j], name, namespace),
        )
    } else {
        None
    }
}

/// What a running daemon gives a host with `route`: `None` when no record
/// serves it, so it is to be auto-started; otherwise the port of the first
/// that does, if it has a usable one.
pub open spec fn spec_running_port(
    route: ProxyTlsRoute,
    ds: Seq<DaemonRecord>,
    name: Seq<char>,
    namespace: Option<Seq<char>>,
) -> Option<Option<u16>> {
    match first_serving(ds, name, namespace) {
        Some(i) => Some(
            spec_select_daemon_port(route, ds[i].ports.configured@, ds[i].ports.resolved@, ds[i].ports.active),
        ),
        None => None,
    }
}

/// The port of the first running daemon called `name` (in `namespace` when
/// one is expected), or `None` when none runs.
pub fn running_port(route: &ProxyTlsRoute, daemons: &Vec<DaemonRecord>, name: &str, namespace: Option<&str>) -> (r:
    Option<Option<u16>>)
    ensures
        r == spec_running_port(*route, daemons@, name@, opt_view(namespace)),
{
    let ghost ns = opt_view(namespace);
    let mut i: usize = 0;
    while i < daemons.len()
        invariant
            i <= daemons@.len(),
            ns == opt_view(namespace),
            forall|j: int| 0 <= j < i ==> !serves(#[trigger] daemons@[j], name@, ns),
        decreases daemons.len() - i,
    {
        let d = &daemons[i];
        let in_namespace = match namespace {
            Some(n) => str_eq(d.namespace.as_str(), n),
            None => true,
        };
        if str_eq(d.name.as_str(), name) && d.running && in_namespace {
            let ghost ds = daemons@;
            assert(serves(ds[i as int], name@, ns));
            let ghost c = choose|c: int|
                0 <= c < ds.len() && serves(ds[c], name@, ns) && forall|j: int|
                    0 <= j < c ==> !serves(#[trigger] ds[j], name@, ns);
            assert(c == i) by {
                if c < i {
                    assert(!serves(ds[c], name@, ns));
                }
                if c > i {
                    assert(!serves(ds[i as int], name@, ns));
                }
            }
            return Some(select_daemon_port(route, &d.ports));
        }
        i += 1;
    }
    None
}

/// The namespace an auto-start runs the daemon under: the one the host
/// names, else the slug's, else `global`.
pub fn auto_start_namespace(expected: Option<&str>, slug_namespace: &Option<String>) -> (r: String)
    ensures
        r@ == match opt_view(expected) {
            Some(n) => n,
            None => match opt_string(*slug_namespace) {
                Some(n) => n,
                None => "global"@,
            },
        },
{
    match expected {
        Some(n) => n.to_owned(),
        None => match slug_namespace {
            Some(n) => n.as_str().to_owned(),
            None => String::from_str("global"),
        },
    }
}

/// What one look at the state file tells an auto-start waiting for its
/// daemon.
#[derive(Clone, Debug, PartialEq, Eq)]
pub enum StartPoll {
    /// It runs and has a port for this host.
    Ready(u16),
    /// It runs but has no usable port yet: look again.
    Wait,
    /// It stopped.
    Exited,
    /// Its record is gone.
    Disappeared,
}

/// What one look at the state file tells an auto-start waiting for its
/// daemon, whose record is `record` (`None` when there is none).
pub fn start_poll(route: &ProxyTlsRoute, record: Option<&DaemonRecord>) -> (r: StartPoll)
    ensures
        match record {
            Some(d) => if d.running {
                match spec_select_daemon_port(*route, d.ports.configured@, d.ports.resolved@, d.ports.active) {
                    Some(p) => r == StartPoll::Ready(p),
                    None => r == StartPoll::Wait,
                }
            } else {
                r == StartPoll::Exited
            },
            None => r == StartPoll::Disappeared,
        },
{
    match record {
        Some(d) => {
            if d.running {
                match select_daemon_port(route, &d.ports) {
                    Some(p) => StartPoll::Ready(p),
                    None => StartPoll::Wait,
                }
            } else {
                StartPoll::Exited
            }
        },
        None => StartPoll::Disappeared,
    }
}

/// Why an auto-start that ran failed, for a poll that ended it.
pub fn start_failure(daemon_id: &str, poll: StartPoll) -> (r: Option<String>)
    ensures
        poll == StartPoll::Exited ==> (r matches Some(m) && m@ == "Daemon '"@ + daemon_id@
            + "' started but exited unexpectedly.\nCheck its logs for errors."@),
        poll == StartPoll::Disappeared ==> (r matches Some(m) && m@ == "Daemon '"@ + daemon_id@
            + "' started but disappeared from the state file.\nCheck its logs for errors."@),
        (poll is Ready || poll is Wait) ==> r is None,
{
    match poll {
        StartPoll::Exited => {
            let mut m = String::from_str("Daemon '");
            m.append(daemon_id);
            m.append("' started but exited unexpectedly.\nCheck its logs for errors.");
            Some(m)
        },
        StartPoll::Disappeared => {
            let mut m = String::from_str("Daemon '");
            m.append(daemon_id);
            m.append("' started but disappeared from the state file.\nCheck its logs for errors.");
            Some(m)
        },
        _ => None,
    }
}

/// The order that puts the candidates running in this checkout first,
/// keeping the order within each group: `here[i]` tells whether candidate
/// `i` runs here.
pub open spec fn spec_checkout_order(here: Seq<bool>) -> Seq<usize> {
    positions_where(here, true) + positions_where(here, false)
}

/// The positions of `here` holding `b`, in order.
pub open spec fn positions_where(here: Seq<bool>, b: bool) -> Seq<usize>
    decreases here.len(),
{
    if here.len() == 0 {
        Seq::empty()
    } else if here.last() == b {
        positions_where(here.drop_last(), b).push((here.len() - 1) as usize)
    } else {
        positions_where(here.drop_last(), b)
    }
}

/// The positions of `here` holding `b`.
fn positions_of(here: &Vec<bool>, b: bool) -> (r: Vec<usize>)
    ensures
        r@ == positions_where(here@, b),
{
    let mut r: Vec<usize> = Vec::new();
    let mut i: usize = 0;
    while i < here.len()
        invariant
            i <= here@.len(),
            r@ == positions_where(here@.subrange(0, i as int), b),
        decreases here.len() - i,
    {
        assert(here@.subrange(0, i + 1).drop_last() =~= here@.subrange(0, i as int));
        if here[i] == b {
            r.push(i);
        }
        i += 1;
    }
    assert(here@.subrange(0, i as int) =~= here@);
    r
}

/// The order that puts the candidates running in this checkout first.
pub fn checkout_order(here: &Vec<bool>) -> (r: Vec<usize>)
    ensures
        r@ == spec_checkout_order(here@),
{
    let mut first = positions_of(here, true);
    let mut rest = positions_of(here, false);
    first.append(&mut rest);
    first
}

// ─── the reply ──────────────────────────────────────────────────────────────

/// What resolving a host found.
#[derive(Clone, Debug)]
pub enum ResolveResult {
    /// A running daemon serves it on this port.
    Ready(u16),
    /// Its daemon is being started.
    Starting { slug: String },
    /// A reserved project or stack hostname.
    Page { project: String, worktree: Option<String>, daemons: Vec<String>, dir: Option<String> },
    /// A name nothing claims, with what is known nearby.
    Unknown { heading: String, known: Vec<String> },
    /// No daemon matched.
    NotFound,
    /// Routing refused, with why.
    Error(String),
}

/// How the proxy answers a resolved request.
#[derive(Clone, Debug)]
pub enum Reply {
    /// Forward to the daemon on this port.
    Forward(u16),
    /// Serve the page shown while the daemon starts.
    Starting { slug: String },
    /// Send the reserved hostname to its page in the web UI, or serve the
    /// placeholder when there is none.
    Page { project: String, worktree: Option<String>, daemons: Vec<String>, dir: Option<String> },
    /// Serve the 404 page.
    UnknownHost { heading: String, known: Vec<String> },
    /// Answer 502 with this message.
    BadGateway(String),
}

/// A reply as text.
pub enum ReplyV {
    Forward(u16),
    Starting { slug: Seq<char> },
    Page { project: Seq<char>, worktree: Option<Seq<char>>, daemons: Seq<Seq<char>>, dir: Option<Seq<char>> },
    UnknownHost { heading: Seq<char>, known: Seq<Seq<char>> },
    BadGateway(Seq<char>),
}

impl Reply {
    pub open spec fn view(&self) -> ReplyV {
        match self {
            Reply::Forward(p) => ReplyV::Forward(*p),
            Reply::Starting { slug } => ReplyV::Starting { slug: slug@ },
            Reply::Page { project, worktree, daemons, dir } => ReplyV::Page {
                project: project@,
                worktree: opt_string(*worktree),
                daemons: views(daemons@),
                dir: opt_string(*dir),
            },
            Reply::UnknownHost { heading, known } => ReplyV::UnknownHost { heading: heading@, known: views(known@) },
            Reply::BadGateway(m) => ReplyV::BadGateway(m@),
        }
    }
}

/// The message for a host no daemon answers to.
pub open spec fn spec_not_found_message(host: Seq<char>, tld: Seq<char>) -> Seq<char> {
    "No daemon found for host '"@ + host
        + "'.\nA daemon is reachable once it configures a `port` and its project is known to pitchfork; run `pitchfork proxy status` to see the hostnames it serves.\nExpected format: <daemon>.<project>."@
        + tld
}

/// The message for a host no daemon answers to.
pub fn not_found_message(host: &str, tld: &str) -> (r: String)
    ensures
        r@ == spec_not_found_message(host@, tld@),
{
    let mut m = String::from_str("No daemon found for host '");
    m.append(host);
    m.append(
        "'.\nA daemon is reachable once it configures a `port` and its project is known to pitchfork; run `pitchfork proxy status` to see the hostnames it serves.\nExpected format: <daemon>.<project>.",
    );
    m.append(tld);
    m
}

/// What a client elsewhere on the network is told in place of a refusal
/// that names directories on this machine.
pub open spec fn spec_not_available(host: Seq<char>) -> Seq<char> {
    "'"@ + host + "' is not available."@
}

/// How the proxy answers a request for `host` that resolved to `result`.
///
/// A reserved page answers only a client on this machine; elsewhere it
/// looks like an unknown name, which tells nothing about which projects
/// exist. A 404 lists nearby names and says what was recognised only to a
/// local client, and a refusal that names directories is replaced by a
/// plain "not available".
pub open spec fn spec_reply(result: ResolveResult, host: Seq<char>, tld: Seq<char>, local_client: bool) -> ReplyV {
    match result {
        ResolveResult::Ready(p) => ReplyV::Forward(p),
        ResolveResult::Starting { slug } => ReplyV::Starting { slug: slug@ },
        ResolveResult::Page { project, worktree, daemons, dir } => if local_client {
            ReplyV::Page {
                project: project@,
                worktree: opt_string(worktree),
                daemons: views(daemons@),
                dir: opt_string(dir),
            }
        } else {
            ReplyV::UnknownHost { heading: "Not found"@, known: Seq::empty() }
        },
        ResolveResult::Unknown { heading, known } => if local_client {
            ReplyV::UnknownHost { heading: heading@, known: views(known@) }
        } else {
            ReplyV::UnknownHost { heading: "Not found"@, known: Seq::empty() }
        },
        ResolveResult::NotFound => ReplyV::BadGateway(spec_not_found_message(host, tld)),
        ResolveResult::Error(m) => if local_client {
            ReplyV::BadGateway(m@)
        } else {
            ReplyV::BadGateway(spec_not_available(host))
        },
    }
}

/// How the proxy answers a request for `host` that resolved to `result`.
pub fn reply_for(result: ResolveResult, host: &str, tld: &str, local_client: bool) -> (r: Reply)
    ensures
        r@ == spec_reply(result, host@, tld@, local_client),
{
    match result {
        ResolveResult::Ready(p) => Reply::Forward(p),
        ResolveResult::Starting { slug } => Reply::Starting { slug },
        ResolveResult::Page { project, worktree, daemons, dir } => if local_client {
            Reply::Page { project, worktree, daemons, dir }
        } else {
            let known: Vec<String> = Vec::new();
            assert(views(known@) =~= Seq::<Seq<char>>::empty());
            Reply::UnknownHost { heading: String::from_str("Not found"), known }
        },
        ResolveResult::Unknown { heading, known } => if local_client {
            Reply::UnknownHost { heading, known }
        } else {
            let known: Vec<String> = Vec::new();
            assert(views(known@) =~= Seq::<Seq<char>>::empty());
            Reply::UnknownHost { heading: String::from_str("Not found"), known }
        },
        ResolveResult::NotFound => Reply::BadGateway(not_found_message(host, tld)),
        ResolveResult::Error(m) => if local_client {
            Reply::BadGateway(m)
        } else {
            let mut t = String::from_str("'");
            t.append(host);
            t.append("' is not available.");
            Reply::BadGateway(t)
        },
    }
}

/// A client elsewhere on the network learns nothing of this machine's
/// projects, daemons or directories from a name that does not route: a
/// reserved page, a 404 and a refusal all answer it the same way for every
/// such name.
pub proof fn law_remote_clients_learn_nothing(result: ResolveResult, host: Seq<char>, tld: Seq<char>)
    requires
        result is Page || result is Unknown || result is Error,
    ensures
        spec_reply(result, host, tld, false) == (ReplyV::UnknownHost { heading: "Not found"@, known: Seq::empty() })
            || spec_reply(result, host, tld, false) == ReplyV::BadGateway(spec_not_available(host)),
{
}

} // verus!
