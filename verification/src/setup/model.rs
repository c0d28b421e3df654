//! The data a setup plan is made of, and its mathematical view.

use vstd::prelude::*;
use crate::text::{dec};

verus! {

/// Host platform, as far as setup is concerned.
#[derive(Clone, Copy, Debug, PartialEq, Eq, Structural)]
pub enum Platform {
    MacOs,
    Linux,
    Other,
}

/// An automatic-proxy setting as it stood before setup changed it.
#[derive(Clone, Debug, PartialEq, Eq)]
pub struct PriorAutoProxy {
    /// The macOS network service this belongs to, or `gnome`.
    pub target: String,
    /// The URL that was configured.
    pub url: String,
    /// The switch that went with it: `on`/`off` on macOS, the proxy mode on
    /// GNOME.
    pub state: String,
}

/// Everything a plan depends on, gathered up front so planning is pure.
///
/// Paths are held as the text they are displayed as.
#[derive(Clone, Debug)]
pub struct SetupContext {
    pub platform: Platform,
    /// TLD proxy URLs live under.
    pub tld: String,
    /// Port the loopback resolver listens on.
    pub dns_port: u16,
    /// Port the proxy listens on.
    pub proxy_port: u16,
    /// Whether the proxy serves HTTPS.
    pub https: bool,
    /// Whether the loopback resolver is enabled at all.
    pub dns_enabled: bool,
    /// Configure the system through a PAC file instead of the resolver.
    pub pac: bool,
    /// Whether systemd-resolved is the active stub resolver.
    pub systemd_resolved: bool,
    /// Major version of systemd, when it could be determined.
    pub systemd_version: Option<u32>,
    /// Whether LAN mode is on, in which case `.local` is mDNS territory.
    pub lan: bool,
    /// Address a local client uses to reach the proxy, as it appears in a URL.
    pub contact_host: String,
    /// Path to the CA certificate.
    pub ca_path: String,
    /// Whether the CA is already in the system trust store.
    pub ca_trusted: bool,
    /// Whether a custom `tls_cert` is configured (pitchfork then owns no CA).
    pub custom_cert: bool,
    /// Where the CA pitchfork generates lives, whatever `proxy.tls_cert` says.
    pub generated_ca: String,
    /// Path to the running pitchfork binary.
    pub binary: String,
    /// Directory holding per-domain macOS resolver files.
    pub resolver_dir: String,
    /// Directory holding systemd-resolved drop-ins.
    pub resolved_dropin_dir: String,
    /// Path to `pf.conf` on macOS.
    pub pf_conf: String,
    /// Path to the pitchfork pf anchor file on macOS.
    pub pf_anchor: String,
    /// Active macOS network services to point at the PAC file.
    pub network_services: Vec<String>,
    /// Whether the GNOME proxy settings are available.
    pub gnome: bool,
    /// The automatic-proxy configuration found before `--pac` overwrote it.
    pub prior_auto_proxy: Vec<PriorAutoProxy>,
}

/// A command run for its result rather than its effect.
#[derive(Clone, Debug, PartialEq, Eq)]
pub struct Probe {
    pub argv: Vec<String>,
    /// Every one of these must hold for the probe to pass.
    pub expect: Vec<ProbeExpect>,
}

/// A condition on a probe's output.
#[derive(Clone, Debug, PartialEq, Eq)]
pub enum ProbeExpect {
    /// The output contains this text anywhere.
    Contains(String),
}

/// One action in a plan.
#[derive(Clone, Debug, PartialEq, Eq)]
pub enum Action {
    /// Replace a file pitchfork owns entirely.
    WriteFile { path: String, content: String, sudo: bool },
    /// Delete a file pitchfork wrote, once `still_referenced_by` no longer
    /// names it.
    RemoveFile { path: String, sudo: bool, still_referenced_by: Option<String> },
    /// Insert or replace a marked block inside a file pitchfork shares.
    EnsureBlock { path: String, content: String, sudo: bool, pf_order: bool, prerequisite: Option<String> },
    /// Remove pitchfork's marked block from a shared file.
    RemoveBlock { path: String, sudo: bool },
    /// Run a command, unless `skip_if` shows it has already taken effect.
    Run { argv: Vec<String>, sudo: bool, skip_if: Option<Probe> },
    /// Run a command only when `probe` shows the state is ours to revert.
    RunIfPresent { probe: Probe, argv: Vec<String>, sudo: bool },
    /// Drop `cap_net_bind_service` from a binary's file capabilities.
    RevokeBindCapability { binary: String },
    /// Install the CA into the system trust store, in this process.
    TrustCa { path: String },
    /// Remove the CA from the system trust store.
    UntrustCa { path: String, sudo: bool },
    /// Nothing to do; the line exists to explain why.
    Note,
}

/// The system resource a step installs or removes.
#[derive(Clone, Debug, PartialEq, Eq, Hash)]
pub enum Resource {
    File(String),
    Block(String),
    Redirect { from: u16, to: u16 },
    BindCapability(String),
    TrustedCa(String),
    AutoProxy { service: String, url: String },
    ServiceReload(String),
}

/// A single planned step.
#[derive(Clone, Debug, PartialEq, Eq)]
pub struct Step {
    /// One line, shown in the plan and echoed while running.
    pub summary: String,
    pub action: Action,
    /// What this step acts on, when it acts on something durable.
    pub resource: Option<Resource>,
}

/// An ordered list of steps plus trailing advice.
#[derive(Clone, Debug, Default, PartialEq, Eq)]
pub struct Plan {
    pub steps: Vec<Step>,
    /// Things the user has to do by hand, printed after the plan.
    pub manual: Vec<String>,
}

// ─── views ──────────────────────────────────────────────────────────────────

pub open spec fn strs(v: Seq<String>) -> Seq<Seq<char>> {
    v.map_values(|s: String| s@)
}

pub open spec fn opt_str(o: Option<String>) -> Option<Seq<char>> {
    match o {
        Some(s) => Some(s@),
        None => None,
    }
}

pub struct ProbeV {
    pub argv: Seq<Seq<char>>,
    pub expect: Seq<Seq<char>>,
}

pub open spec fn probe_expect_v(e: ProbeExpect) -> Seq<char> {
    match e {
        ProbeExpect::Contains(s) => s@,
    }
}

impl Probe {
    pub open spec fn view(&self) -> ProbeV {
        ProbeV { argv: strs(self.argv@), expect: self.expect@.map_values(|e: ProbeExpect| probe_expect_v(e)) }
    }
}

pub open spec fn opt_probe(o: Option<Probe>) -> Option<ProbeV> {
    match o {
        Some(p) => Some(p@),
        None => None,
    }
}

pub enum ActionV {
    WriteFile { path: Seq<char>, content: Seq<char>, sudo: bool },
    RemoveFile { path: Seq<char>, sudo: bool, still_referenced_by: Option<Seq<char>> },
    EnsureBlock {
        path: Seq<char>,
        content: Seq<char>,
        sudo: bool,
        pf_order: bool,
        prerequisite: Option<Seq<char>>,
    },
    RemoveBlock { path: Seq<char>, sudo: bool },
    Run { argv: Seq<Seq<char>>, sudo: bool, skip_if: Option<ProbeV> },
    RunIfPresent { probe: ProbeV, argv: Seq<Seq<char>>, sudo: bool },
    RevokeBindCapability { binary: Seq<char> },
    TrustCa { path: Seq<char> },
    UntrustCa { path: Seq<char>, sudo: bool },
    Note,
}

impl Action {
    pub open spec fn view(&self) -> ActionV {
        match self {
            Action::WriteFile { path, content, sudo } => ActionV::WriteFile {
                path: path@,
                content: content@,
                sudo: *sudo,
            },
            Action::RemoveFile { path, sudo, still_referenced_by } => ActionV::RemoveFile {
                path: path@,
                sudo: *sudo,
                still_referenced_by: opt_str(*still_referenced_by),
            },
            Action::EnsureBlock { path, content, sudo, pf_order, prerequisite } => ActionV::EnsureBlock {
                path: path@,
                content: content@,
                sudo: *sudo,
                pf_order: *pf_order,
                prerequisite: opt_str(*prerequisite),
            },
            Action::RemoveBlock { path, sudo } => ActionV::RemoveBlock { path: path@, sudo: *sudo },
            Action::Run { argv, sudo, skip_if } => ActionV::Run {
                argv: strs(argv@),
                sudo: *sudo,
                skip_if: opt_probe(*skip_if),
            },
            Action::RunIfPresent { probe, argv, sudo } => ActionV::RunIfPresent {
                probe: probe@,
                argv: strs(argv@),
                sudo: *sudo,
            },
            Action::RevokeBindCapability { binary } => ActionV::RevokeBindCapability { binary: binary@ },
            Action::TrustCa { path } => ActionV::TrustCa { path: path@ },
            Action::UntrustCa { path, sudo } => ActionV::UntrustCa { path: path@, sudo: *sudo },
            Action::Note => ActionV::Note,
        }
    }
}

pub enum ResourceV {
    File(Seq<char>),
    Block(Seq<char>),
    Redirect { from: u16, to: u16 },
    BindCapability(Seq<char>),
    TrustedCa(Seq<char>),
    AutoProxy { service: Seq<char>, url: Seq<char> },
    ServiceReload(Seq<char>),
}

impl Resource {
    pub open spec fn view(&self) -> ResourceV {
        match self {
            Resource::File(p) => ResourceV::File(p@),
            Resource::Block(p) => ResourceV::Block(p@),
            Resource::Redirect { from, to } => ResourceV::Redirect { from: *from, to: *to },
            Resource::BindCapability(p) => ResourceV::BindCapability(p@),
            Resource::TrustedCa(p) => ResourceV::TrustedCa(p@),
            Resource::AutoProxy { service, url } => ResourceV::AutoProxy { service: service@, url: url@ },
            Resource::ServiceReload(s) => ResourceV::ServiceReload(s@),
        }
    }
}

pub open spec fn opt_resource(o: Option<Resource>) -> Option<ResourceV> {
    match o {
        Some(r) => Some(r@),
        None => None,
    }
}

pub struct StepV {
    pub summary: Seq<char>,
    pub action: ActionV,
    pub resource: Option<ResourceV>,
}

impl Step {
    pub open spec fn view(&self) -> StepV {
        StepV { summary: self.summary@, action: self.action@, resource: opt_resource(self.resource) }
    }
}

pub struct PlanV {
    pub steps: Seq<StepV>,
    pub manual: Seq<Seq<char>>,
}

pub open spec fn steps_v(s: Seq<Step>) -> Seq<StepV> {
    s.map_values(|x: Step| x@)
}

impl Plan {
    pub open spec fn view(&self) -> PlanV {
        PlanV { steps: steps_v(self.steps@), manual: strs(self.manual@) }
    }
}

impl PlanV {
    pub open spec fn empty() -> PlanV {
        PlanV { steps: Seq::empty(), manual: Seq::empty() }
    }

    /// `self` followed by `other`, steps and advice alike.
    pub open spec fn plus(self, other: PlanV) -> PlanV {
        PlanV { steps: self.steps + other.steps, manual: self.manual + other.manual }
    }

    pub open spec fn step(s: StepV) -> PlanV {
        PlanV { steps: seq![s], manual: Seq::empty() }
    }

    pub open spec fn advice(m: Seq<char>) -> PlanV {
        PlanV { steps: Seq::empty(), manual: seq![m] }
    }
}

// ─── what a step means ──────────────────────────────────────────────────────

/// Whether running an action needs elevated privileges.
pub open spec fn action_needs_sudo(a: ActionV) -> bool {
    match a {
        ActionV::WriteFile { sudo, .. } => sudo,
        ActionV::RemoveFile { sudo, .. } => sudo,
        ActionV::EnsureBlock { sudo, .. } => sudo,
        ActionV::RemoveBlock { sudo, .. } => sudo,
        ActionV::Run { sudo, .. } => sudo,
        ActionV::RunIfPresent { sudo, .. } => sudo,
        ActionV::RevokeBindCapability { .. } => true,
        ActionV::UntrustCa { sudo, .. } => sudo,
        ActionV::TrustCa { .. } => false,
        ActionV::Note => false,
    }
}

/// The display line of a step: its summary, marked when it needs sudo.
pub open spec fn step_line(s: StepV) -> Seq<char> {
    if action_needs_sudo(s.action) {
        "[sudo] "@ + s.summary
    } else {
        s.summary
    }
}

/// A note step: a line of explanation that acts on nothing.
pub open spec fn note_v(summary: Seq<char>) -> StepV {
    StepV { summary, action: ActionV::Note, resource: None }
}

/// The URL of the PAC script served by the proxy at `host:port`.
pub open spec fn spec_pac_url(host: Seq<char>, port: u16) -> Seq<char> {
    "http://"@ + host + ":"@ + dec(port as nat) + "/proxy.pac"@
}

/// A path joined onto a directory the way `Path::join` spells it on Unix:
/// an absolute name replaces the directory, and exactly one separator goes
/// between them.
pub open spec fn path_join(dir: Seq<char>, name: Seq<char>) -> Seq<char> {
    if name.len() > 0 && name[0] == '/' {
        name
    } else if dir.len() == 0 {
        name
    } else if dir.last() == '/' {
        dir + name
    } else {
        dir + "/"@ + name
    }
}

} // verus!
