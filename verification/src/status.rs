//! `veloslet status`: one command that answers "is this worker working, and if not, what
//! do I fix?".
//!
//! The worker-side counterpart of `velosctl doctor`. An *observation* records what was
//! seen (the config's mode, an HTTP status, whether launchd knows the label), and a
//! function turns each observation into a [`Check`] carrying a verdict and a fix-it hint.
//! [`diagnose`] says which probe to make next, and once they are made puts the report
//! together.
use vstd::prelude::*;

use crate::daemon::{WorkerConfig, BUNDLE_ID};
use crate::host;
use crate::host::HostResources;
use crate::json::Json;
use crate::memory;
use crate::memory::Memory;
use crate::report;
use crate::report::{Body, CallResult, CheckView, FileRead, HttpReply, Who, WhoView};
use crate::runtime;
use crate::text;

pub use crate::report::{plural, url, Check, Report, Status};

verus! {

/// The `container` CLI (Apple Containerization), the runtime this worker drives.
pub const RUNTIME_BIN: &'static str = "container";

// ---------------------------------------------------------------------------
// Observations: what the probes saw
// ---------------------------------------------------------------------------

/// What the worker config looked like on disk.
#[derive(Debug, Clone, PartialEq, Eq)]
pub enum ConfigState {
    /// Nothing has been written yet: this machine has never run `setup`.
    Missing(String),
    /// Present but unreadable or not valid JSON.
    Unusable { path: String, error: String },
    /// Present and parsed. `mode` is the unix permission bits, where known.
    Present { path: String, mode: Option<u32>, config: Box<WorkerConfig> },
}

/// Whether the control plane answered its liveness probe.
#[derive(Debug, Clone, PartialEq, Eq)]
pub enum Reachability {
    Reachable,
    Unreachable(String),
    /// The URL is `https` but this build has no TLS backend, so no request to
    /// it can ever succeed.
    NoTlsSupport,
}

/// Who the server says this worker's credential belongs to (`GET /auth/v1/me`).
#[derive(Debug, Clone, PartialEq, Eq)]
pub enum IdentityState {
    /// The credential is live and names this worker.
    Worker(String),
    /// Accepted, but for a different name than the config claims.
    Admin,
    /// The server refused it: revoked, or the worker was deleted.
    Rejected(u16),
    Unexpected(String),
}

/// Advertised capacity versus what the machine physically has.
#[derive(Debug, Clone, PartialEq, Eq)]
pub enum CapacityState {
    Fits { cpu: u32, memory: Memory, host: HostResources },
    Exceeds(String),
    /// The host could not be measured (not macOS, or `sysctl` failed).
    Unknown(String),
}

/// Whether this machine can run containers.
#[derive(Debug, Clone, PartialEq, Eq)]
pub enum RuntimeState {
    Absent,
    Available(String),
    Broken(String),
}

/// Whether launchd is running the background worker.
#[derive(Debug, Clone, PartialEq, Eq)]
pub enum AgentState {
    /// Not macOS: there is no LaunchAgent to have.
    NotApplicable,
    /// launchd knows the label.
    Loaded,
    /// launchd does not know it; the worker only runs when `run` is in a terminal.
    NotLoaded,
    /// A LaunchAgent is loaded under the *pre-rename* bundle id, which no
    /// current `stop`/`uninstall` will touch.
    StaleLabel(String),
    /// The current agent **and** a stale one are both loaded: two workers, same
    /// config, same node name, racing each other.
    Duplicate(String),
}

// ---------------------------------------------------------------------------
// Observation to verdict
// ---------------------------------------------------------------------------

/// The check of the worker binary itself.
pub open spec fn binary_check(version: Seq<char>, path: Option<Seq<char>>) -> CheckView {
    match path {
        Some(p) => report::passed("veloslet"@, "v"@ + version + " ("@ + p + ")"@),
        None => report::passed("veloslet"@, "v"@ + version),
    }
}

/// The check of the worker binary itself: its version and where it is installed.
pub fn check_agent_binary(version: &str, path: Option<&str>) -> (r: Check)
    ensures
        r@ == binary_check(version@, path.deep_view()),
{
    match path {
        Some(p) => Check::pass("veloslet", &text::cat5("v", version, " (", p, ")")),
        None => Check::pass("veloslet", &text::cat2("v", version)),
    }
}

/// The check of the config file. The credential lives in it; group or other read is a leak.
pub open spec fn config_check(state: ConfigState) -> CheckView {
    match state {
        ConfigState::Missing(path) => report::failed(
            "config file"@,
            path@ + " does not exist"@,
            "run `veloslet setup --server <url> --node <name> --token <token> --cpu <n> --memory <size>`"@,
        ),
        ConfigState::Unusable { path, error } => report::failed(
            "config file"@,
            path@ + " is unusable: "@ + error@,
            "fix the JSON by hand, or delete it and run `veloslet setup` again"@,
        ),
        ConfigState::Present { path, mode, .. } => match mode {
            Some(m) => if m & 0o077 != 0 {
                report::warned(
                    "config file"@,
                    path@ + " is mode "@ + text::octal((m & 0o777) as nat)
                        + " — it holds this worker's credential"@,
                    "chmod 600 "@ + path@,
                )
            } else {
                report::passed("config file"@, path@)
            },
            None => report::passed("config file"@, path@),
        },
    }
}

/// The check of the config file.
pub fn check_config(state: &ConfigState) -> (r: Check)
    ensures
        r@ == config_check(*state),
{
    match state {
        ConfigState::Missing(path) => Check::fail(
            "config file",
            &text::cat2(path, " does not exist"),
            "run `veloslet setup --server <url> --node <name> --token <token> --cpu <n> --memory <size>`",
        ),
        ConfigState::Unusable { path, error } => Check::fail(
            "config file",
            &text::cat3(path, " is unusable: ", error),
            "fix the JSON by hand, or delete it and run `veloslet setup` again",
        ),
        ConfigState::Present { path, mode, .. } => match mode {
            Some(m) => if *m & 0o077 != 0 {
                let bits: u32 = *m & 0o777;
                Check::warn(
                    "config file",
                    &text::cat4(
                        path,
                        " is mode ",
                        &text::octal_text(bits as u64),
                        " — it holds this worker's credential",
                    ),
                    &text::cat2("chmod 600 ", path),
                )
            } else {
                Check::pass("config file", path)
            },
            None => Check::pass("config file", path),
        },
    }
}

/// The check that this worker has joined.
pub open spec fn joined_check(cfg: WorkerConfig) -> CheckView {
    if cfg.credential is Some {
        report::passed("joined"@, "holds a credential for "@ + cfg.node@)
    } else {
        report::failed(
            "joined"@,
            "no credential — this worker has never joined a control plane"@,
            "mint a token with `velosctl token create`, then run `veloslet setup --token <token> …`"@,
        )
    }
}

/// The check that this worker has joined.
pub fn check_joined(cfg: &WorkerConfig) -> (r: Check)
    ensures
        r@ == joined_check(*cfg),
{
    if cfg.is_connected() {
        Check::pass("joined", &text::cat2("holds a credential for ", &cfg.node))
    } else {
        Check::fail(
            "joined",
            "no credential — this worker has never joined a control plane",
            "mint a token with `velosctl token create`, then run `veloslet setup --token <token> …`",
        )
    }
}

/// The check that the server answers.
pub open spec fn reachable_check(server: Seq<char>, reach: Reachability) -> CheckView {
    match reach {
        Reachability::Reachable => report::passed("reachable"@, server + " answered /healthz"@),
        Reachability::NoTlsSupport => report::failed(
            "reachable"@,
            server + " is https, and this veloslet was built without TLS support"@,
            "reinstall an official release build, or rebuild with reqwest's `rustls` feature"@,
        ),
        Reachability::Unreachable(why) => report::failed(
            "reachable"@,
            server + ": "@ + why@,
            "check the control plane is running and the URL is right (`veloslet config set --server <url>`)"@,
        ),
    }
}

/// The check that the server answers.
pub fn check_reachable(server: &str, reach: &Reachability) -> (r: Check)
    ensures
        r@ == reachable_check(server@, *reach),
{
    match reach {
        Reachability::Reachable => Check::pass(
            "reachable",
            &text::cat2(server, " answered /healthz"),
        ),
        Reachability::NoTlsSupport => Check::fail(
            "reachable",
            &text::cat2(server, " is https, and this veloslet was built without TLS support"),
            "reinstall an official release build, or rebuild with reqwest's `rustls` feature",
        ),
        Reachability::Unreachable(why) => Check::fail(
            "reachable",
            &text::cat3(server, ": ", why),
            "check the control plane is running and the URL is right (`veloslet config set --server <url>`)",
        ),
    }
}

/// The check that the server knows this worker under the name in its config.
pub open spec fn identity_check(node: Seq<char>, state: IdentityState) -> CheckView {
    match state {
        IdentityState::Worker(name) => if name@ == node {
            report::passed("identity"@, "the server knows this worker as "@ + name@)
        } else {
            report::failed(
                "identity"@,
                "the credential belongs to "@ + name@ + ", but the config says "@ + node,
                "the config was edited after joining — run `veloslet setup` again with a new token"@,
            )
        },
        IdentityState::Admin => report::failed(
            "identity"@,
            "this credential is an admin token, not a worker credential"@,
            "worker credentials come from `veloslet setup`; do not paste a CLI token into the config"@,
        ),
        IdentityState::Rejected(code) => report::failed(
            "identity"@,
            "the server rejected this worker's credential (HTTP "@ + text::decimal(code as nat)
                + ")"@,
            "the worker was deleted, which revokes its credential — mint a new join token and run `veloslet setup` again"@,
        ),
        IdentityState::Unexpected(why) => report::failed(
            "identity"@,
            "could not confirm this worker's identity: "@ + why@,
            "check the server logs"@,
        ),
    }
}

/// The check that the server knows this worker under the name in its config.
pub fn check_identity(node: &str, state: &IdentityState) -> (r: Check)
    ensures
        r@ == identity_check(node@, *state),
{
    match state {
        IdentityState::Worker(name) => if text::same(name, node) {
            Check::pass("identity", &text::cat2("the server knows this worker as ", name))
        } else {
            Check::fail(
                "identity",
                &text::cat4("the credential belongs to ", name, ", but the config says ", node),
                "the config was edited after joining — run `veloslet setup` again with a new token",
            )
        },
        IdentityState::Admin => Check::fail(
            "identity",
            "this credential is an admin token, not a worker credential",
            "worker credentials come from `veloslet setup`; do not paste a CLI token into the config",
        ),
        IdentityState::Rejected(code) => Check::fail(
            "identity",
            &text::cat3(
                "the server rejected this worker's credential (HTTP ",
                &text::decimal_text(*code as u64),
                ")",
            ),
            "the worker was deleted, which revokes its credential — mint a new join token and run `veloslet setup` again",
        ),
        IdentityState::Unexpected(why) => Check::fail(
            "identity",
            &text::cat2("could not confirm this worker's identity: ", why),
            "check the server logs",
        ),
    }
}

/// The check of advertised capacity.
pub open spec fn capacity_check(state: CapacityState) -> CheckView {
    match state {
        CapacityState::Fits { cpu, memory, host } => report::passed(
            "capacity"@,
            "advertising "@ + text::decimal(cpu as nat) + " cpu, "@ + memory::size_text(memory@)
                + (" of "@ + text::decimal(host.cpu as nat) + " cpu, "@ + memory::size_text(
                host.memory_bytes,
            )),
        ),
        CapacityState::Exceeds(why) => report::failed(
            "capacity"@,
            why@,
            "lower it with `veloslet config set --cpu <n> --memory <size>` — the worker refuses to start while it advertises more than the machine has"@,
        ),
        CapacityState::Unknown(why) => report::warned(
            "capacity"@,
            "could not measure this machine: "@ + why@,
            "capacity is validated against the host at startup; this check needs macOS"@,
        ),
    }
}

/// The check of advertised capacity. That it exceeds the host can only come of editing the
/// file by hand: `setup` and `config set` both validate. It means the worker will refuse
/// to start.
pub fn check_capacity(state: &CapacityState) -> (r: Check)
    ensures
        r@ == capacity_check(*state),
{
    match state {
        CapacityState::Fits { cpu, memory, host } => {
            let has = text::cat4(
                " of ",
                &text::decimal_text(host.cpu as u64),
                " cpu, ",
                &Memory::from_bytes(host.memory_bytes).render(),
            );
            Check::pass(
                "capacity",
                &text::cat5(
                    "advertising ",
                    &text::decimal_text(*cpu as u64),
                    " cpu, ",
                    &memory.render(),
                    &has,
                ),
            )
        },
        CapacityState::Exceeds(why) => Check::fail(
            "capacity",
            why,
            "lower it with `veloslet config set --cpu <n> --memory <size>` — the worker refuses to start while it advertises more than the machine has",
        ),
        CapacityState::Unknown(why) => Check::warn(
            "capacity",
            &text::cat2("could not measure this machine: ", why),
            "capacity is validated against the host at startup; this check needs macOS",
        ),
    }
}

/// The check of the container runtime.
pub open spec fn runtime_check(state: RuntimeState) -> CheckView {
    match state {
        RuntimeState::Available(version) => report::passed("runtime"@, version@),
        RuntimeState::Absent => report::failed(
            "runtime"@,
            "no `"@ + RUNTIME_BIN@ + "` CLI on PATH — this machine cannot run containers"@,
            "install Apple Containerization (https://github.com/apple/containerization) and run `container system start`"@,
        ),
        RuntimeState::Broken(why) => report::failed(
            "runtime"@,
            "`"@ + RUNTIME_BIN@ + "` is present but did not answer: "@ + why@,
            "run `container system start`"@,
        ),
    }
}

/// The check of the container runtime. Its version is printed as it is: it already names
/// itself.
pub fn check_runtime(state: &RuntimeState) -> (r: Check)
    ensures
        r@ == runtime_check(*state),
{
    match state {
        RuntimeState::Available(version) => Check::pass("runtime", version),
        RuntimeState::Absent => Check::fail(
            "runtime",
            &text::cat3(
                "no `",
                RUNTIME_BIN,
                "` CLI on PATH — this machine cannot run containers",
            ),
            "install Apple Containerization (https://github.com/apple/containerization) and run `container system start`",
        ),
        RuntimeState::Broken(why) => Check::fail(
            "runtime",
            &text::cat4("`", RUNTIME_BIN, "` is present but did not answer: ", why),
            "run `container system start`",
        ),
    }
}

/// The check of the background worker.
pub open spec fn agent_check(state: AgentState) -> CheckView {
    match state {
        AgentState::NotApplicable => report::skipped(
            "background"@,
            "the LaunchAgent is macOS-only; run this worker under your own service manager"@,
        ),
        AgentState::Loaded => report::passed(
            "background"@,
            "launchd is running "@ + BUNDLE_ID@,
        ),
        AgentState::Duplicate(stale) => report::failed(
            "background"@,
            "two workers are loaded — "@ + BUNDLE_ID@ + " and "@ + stale@
                + " — sharing one config and one node name"@,
            "they reconcile against each other and delete each other's containers; drop the old one with `launchctl unload ~/Library/LaunchAgents/"@
                + stale@ + ".plist && rm ~/Library/LaunchAgents/"@ + stale@ + ".plist`"@,
        ),
        AgentState::NotLoaded => report::warned(
            "background"@,
            "no LaunchAgent loaded — this worker only runs while `veloslet run` is in a terminal"@,
            "run `veloslet run -d` to keep it running across logins and crashes"@,
        ),
        AgentState::StaleLabel(label) => report::warned(
            "background"@,
            "launchd is running "@ + label@ + ", which is not the current "@ + BUNDLE_ID@,
            "that agent predates a bundle rename, so `veloslet stop`/`uninstall` will not touch it — remove it with `launchctl unload ~/Library/LaunchAgents/"@
                + label@ + ".plist` and `rm` that plist, then `veloslet run -d`"@,
        ),
    }
}

/// The check of the background worker.
pub fn check_agent(state: &AgentState) -> (r: Check)
    ensures
        r@ == agent_check(*state),
{
    match state {
        AgentState::NotApplicable => Check::skip(
            "background",
            "the LaunchAgent is macOS-only; run this worker under your own service manager",
        ),
        AgentState::Loaded => Check::pass(
            "background",
            &text::cat2("launchd is running ", BUNDLE_ID),
        ),
        AgentState::Duplicate(stale) => Check::fail(
            "background",
            &text::cat5(
                "two workers are loaded — ",
                BUNDLE_ID,
                " and ",
                stale,
                " — sharing one config and one node name",
            ),
            &text::cat5(
                "they reconcile against each other and delete each other's containers; drop the old one with `launchctl unload ~/Library/LaunchAgents/",
                stale,
                ".plist && rm ~/Library/LaunchAgents/",
                stale,
                ".plist`",
            ),
        ),
        AgentState::NotLoaded => Check::warn(
            "background",
            "no LaunchAgent loaded — this worker only runs while `veloslet run` is in a terminal",
            "run `veloslet run -d` to keep it running across logins and crashes",
        ),
        AgentState::StaleLabel(label) => Check::warn(
            "background",
            &text::cat4("launchd is running ", label, ", which is not the current ", BUNDLE_ID),
            &text::cat3(
                "that agent predates a bundle rename, so `veloslet stop`/`uninstall` will not touch it — remove it with `launchctl unload ~/Library/LaunchAgents/",
                label,
                ".plist` and `rm` that plist, then `veloslet run -d`",
            ),
        ),
    }
}

// ---------------------------------------------------------------------------
// Answer to observation
// ---------------------------------------------------------------------------

/// Read the identity out of `{"identity": "admin"}` / `{"identity": {"worker": n}}`.
pub fn parse_identity(body: &Json) -> (r: Option<IdentityState>)
    ensures
        match report::identity_in(body@) {
            Some(WhoView::Admin) => r matches Some(IdentityState::Admin),
            Some(WhoView::Worker(name)) => r matches Some(IdentityState::Worker(n)) && n@ == name,
            None => r is None,
        },
{
    match report::read_identity(body) {
        Some(Who::Admin) => Some(IdentityState::Admin),
        Some(Who::Worker(name)) => Some(IdentityState::Worker(name)),
        None => None,
    }
}

/// Tell a missing TLS backend apart from a server that is simply down: without
/// one, an https URL is rejected up front with "scheme is not http" rather
/// than failing to connect.
pub fn classify_transport(server: &str, cause: String) -> (r: Reachability)
    ensures
        r == (if report::lacks_tls(server@, cause@) {
            Reachability::NoTlsSupport
        } else {
            Reachability::Unreachable(cause)
        }),
{
    if report::is_tls_missing(server, &cause) {
        return Reachability::NoTlsSupport;
    }
    Reachability::Unreachable(cause)
}

/// What the worker config at `path` looks like: `read` is what reading it came back with.
pub fn observe_config(path: String, read: FileRead<WorkerConfig>) -> (r: ConfigState)
    ensures
        match read {
            FileRead::NotFound => r == ConfigState::Missing(path),
            FileRead::Unusable(error) => r == (ConfigState::Unusable { path, error }),
            FileRead::Parsed { value, mode } => r == (ConfigState::Present {
                path,
                mode,
                config: Box::new(value),
            }),
        },
{
    match read {
        FileRead::NotFound => ConfigState::Missing(path),
        FileRead::Unusable(error) => ConfigState::Unusable { path, error },
        FileRead::Parsed { value, mode } => ConfigState::Present {
            path,
            mode,
            config: Box::new(value),
        },
    }
}

/// What the answer to `GET /healthz` says.
pub fn observe_reachability(server: &str, reply: HttpReply) -> (r: Reachability)
    ensures
        match reply {
            HttpReply::Failed(cause) => r == (if report::lacks_tls(server@, cause@) {
                Reachability::NoTlsSupport
            } else {
                Reachability::Unreachable(cause)
            }),
            HttpReply::Answered { success, status, .. } => if success {
                r is Reachable
            } else {
                r matches Reachability::Unreachable(why) && why@ == "HTTP "@ + status@
            },
        },
{
    match reply {
        HttpReply::Failed(cause) => classify_transport(server, cause),
        HttpReply::Answered { success, status, .. } => if success {
            Reachability::Reachable
        } else {
            Reachability::Unreachable(text::cat2("HTTP ", &status))
        },
    }
}

/// What the answer to `GET /auth/v1/me` says.
pub fn observe_identity(reply: HttpReply) -> (r: IdentityState)
    ensures
        match reply {
            HttpReply::Failed(cause) => r == IdentityState::Unexpected(cause),
            HttpReply::Answered { success, code, body, .. } => if !success {
                r == IdentityState::Rejected(code)
            } else {
                match body {
                    Body::Unreadable(cause) => r == IdentityState::Unexpected(cause),
                    Body::Read { json, text } => match report::identity_in(json@) {
                        Some(WhoView::Admin) => r is Admin,
                        Some(WhoView::Worker(name)) => r matches IdentityState::Worker(n) && n@
                            == name,
                        None => r matches IdentityState::Unexpected(what) && what@
                            == "unrecognized body: "@ + text@,
                    },
                }
            },
        },
{
    match reply {
        HttpReply::Failed(cause) => IdentityState::Unexpected(cause),
        HttpReply::Answered { success, code, body, .. } => {
            if !success {
                return IdentityState::Rejected(code);
            }
            match body {
                Body::Unreadable(cause) => IdentityState::Unexpected(cause),
                Body::Read { json, text } => match parse_identity(&json) {
                    Some(state) => state,
                    None => IdentityState::Unexpected(
                        crate::text::cat2("unrecognized body: ", &text),
                    ),
                },
            }
        },
    }
}

/// What the host says of advertised capacity. `host` is what was measured, or why it could
/// not be.
pub fn observe_capacity(cfg: &WorkerConfig, host: Result<HostResources, String>) -> (r:
    CapacityState)
    ensures
        match host {
            Ok(h) => if host::fits_host(cfg.cpu, cfg.memory, h) {
                r == (CapacityState::Fits { cpu: cfg.cpu, memory: cfg.memory, host: h })
            } else {
                r matches CapacityState::Exceeds(why) && host::capacity_problem(
                    cfg.cpu,
                    cfg.memory,
                    h,
                ) == Some(why@)
            },
            Err(why) => r == CapacityState::Unknown(why),
        },
{
    match host {
        Ok(h) => match host::validate_capacity(cfg.cpu, cfg.memory, h) {
            Ok(_) => CapacityState::Fits { cpu: cfg.cpu, memory: cfg.memory, host: h },
            Err(e) => CapacityState::Exceeds(e.message()),
        },
        Err(why) => CapacityState::Unknown(why),
    }
}

/// The first 120 characters of a trimmed output.
pub open spec fn excerpt(output: Seq<char>) -> Seq<char> {
    let s = text::trimmed(output);
    if s.len() <= 120 {
        s
    } else {
        s.take(120)
    }
}

/// Why listing the instances failed, if it did: what was printed as error, in excerpt, why
/// the call could not be made, or what is wrong with the listing that was printed.
pub open spec fn listing_problem(call: CallResult) -> Option<Seq<char>> {
    match call {
        CallResult::NotFound => Some("not found"@),
        CallResult::Failed(why) => Some(why@),
        CallResult::Exited { success, stdout, stderr, .. } => if success {
            runtime::listing_error(text::trimmed(stdout@))
        } else {
            Some(excerpt(stderr@))
        },
    }
}

/// Whether a call listed the instances: a call that exits well but prints what is no
/// listing did not, any more than before a heartbeat.
pub fn listing_outcome(call: CallResult) -> (r: Result<(), String>)
    ensures
        match r {
            Ok(_) => listing_problem(call) is None,
            Err(why) => listing_problem(call) == Some(why@),
        },
{
    match call {
        CallResult::NotFound => Err("not found".to_owned()),
        CallResult::Failed(why) => Err(why),
        CallResult::Exited { success, stdout, stderr, .. } => if success {
            match runtime::parse_list(&text::trim(&stdout)) {
                Ok(_) => Ok(()),
                Err(e) => Err(e.message()),
            }
        } else {
            Err(text::shortened(&text::trim(&stderr), 120))
        },
    }
}

/// The state of a runtime: `version` is what `container --version` came back with, and
/// `listing` whether it listed its instances, or why not. The CLI being installed is not
/// enough: its services can be down while it keeps answering `--version`.
pub fn judge_runtime(version: CallResult, listing: Result<(), String>) -> (r: RuntimeState)
    ensures
        match version {
            CallResult::NotFound => r is Absent,
            CallResult::Failed(why) => r == RuntimeState::Broken(why),
            CallResult::Exited { success, stdout, stderr, .. } => if !success {
                r matches RuntimeState::Broken(why) && why@ == excerpt(stderr@)
            } else {
                match listing {
                    Err(cause) => r == RuntimeState::Broken(cause),
                    Ok(_) => r matches RuntimeState::Available(v) && v@ == report::first_line(
                        stdout@,
                    ),
                }
            },
        },
{
    match version {
        CallResult::NotFound => RuntimeState::Absent,
        CallResult::Failed(why) => RuntimeState::Broken(why),
        CallResult::Exited { success, stdout, stderr, .. } => if success {
            match listing {
                Err(why) => RuntimeState::Broken(why),
                Ok(_) => RuntimeState::Available(report::trimmed_first_line(&stdout)),
            }
        } else {
            RuntimeState::Broken(text::shortened(&text::trim(&stderr), 120))
        },
    }
}

/// What the runtime says: `version` is what `container --version` came back with, and
/// `listing` what listing the instances did. It is the check made before every heartbeat.
pub fn observe_runtime(version: CallResult, listing: CallResult) -> (r: RuntimeState)
    ensures
        match version {
            CallResult::NotFound => r is Absent,
            CallResult::Failed(why) => r == RuntimeState::Broken(why),
            CallResult::Exited { success, stdout, stderr, .. } => if !success {
                r matches RuntimeState::Broken(why) && why@ == excerpt(stderr@)
            } else {
                match listing_problem(listing) {
                    Some(cause) => r matches RuntimeState::Broken(why) && why@ == cause,
                    None => r matches RuntimeState::Available(v) && v@ == report::first_line(
                        stdout@,
                    ),
                }
            },
        },
{
    judge_runtime(version, listing_outcome(listing))
}

/// The label of a line of `launchctl list`, its third word, where it is one of a velos
/// worker.
pub open spec fn worker_label(line: Seq<char>) -> Option<Seq<char>> {
    let words = text::words_of(line);
    if words.len() > 2 && text::ends_with(words[2], "velos-worker"@) {
        Some(words[2])
    } else {
        None
    }
}

/// The labels of velos workers among the lines, in order.
pub open spec fn worker_labels(lines: Seq<Seq<char>>) -> Seq<Seq<char>>
    decreases lines.len(),
{
    if lines.len() == 0 {
        Seq::empty()
    } else {
        match worker_label(lines.last()) {
            Some(l) => worker_labels(lines.drop_last()).push(l),
            None => worker_labels(lines.drop_last()),
        }
    }
}

/// The first label that is not the current one.
pub open spec fn stale_label(labels: Seq<Seq<char>>) -> Option<Seq<char>>
    decreases labels.len(),
{
    if labels.len() == 0 {
        None
    } else if labels[0] != BUNDLE_ID@ {
        Some(labels[0])
    } else {
        stale_label(labels.skip(1))
    }
}

fn labels_in(listing: &str) -> (r: Vec<String>)
    ensures
        r.deep_view() == worker_labels(text::lines_of(listing@)),
{
    let lines = text::lines(listing);
    let ghost all = lines.deep_view();
    let mut out: Vec<String> = Vec::new();
    for i in 0..lines.len()
        invariant
            all == lines.deep_view(),
            out.deep_view() == worker_labels(all.take(i as int)),
    {
        assert(all.take(i + 1).drop_last() =~= all.take(i as int));
        assert(all.take(i + 1).last() == lines@[i as int]@);
        let words = text::words(&lines[i]);
        let ghost before = out.deep_view();
        if words.len() > 2 {
            assert(words.deep_view()[2] == words@[2]@);
            if text::has_suffix(&words[2], "velos-worker") {
                out.push(words[2].clone());
                assert(out.deep_view() =~= before.push(words@[2]@));
            }
        }
    }
    assert(all.take(all.len() as int) =~= all);
    out
}

fn first_stale(labels: &Vec<String>) -> (r: Option<String>)
    ensures
        r.deep_view() == stale_label(labels.deep_view()),
{
    let ghost all = labels.deep_view();
    let mut i: usize = 0;
    assert(all.skip(0) =~= all);
    while i < labels.len()
        invariant
            i <= labels@.len(),
            all == labels.deep_view(),
            stale_label(all) == stale_label(all.skip(i as int)),
        decreases labels@.len() - i,
    {
        assert(all.skip(i as int)[0] == labels@[i as int]@);
        assert(all.skip(i as int).skip(1) =~= all.skip(i + 1));
        if !text::same(&labels[i], BUNDLE_ID) {
            return Some(labels[i].clone());
        }
        i += 1;
    }
    None
}

fn has_current(labels: &Vec<String>) -> (r: bool)
    ensures
        r == labels.deep_view().contains(BUNDLE_ID@),
{
    let ghost all = labels.deep_view();
    for i in 0..labels.len()
        invariant
            all == labels.deep_view(),
            forall|k: int| 0 <= k < i ==> #[trigger] all[k] != BUNDLE_ID@,
    {
        if text::same(&labels[i], BUNDLE_ID) {
            assert(all[i as int] == BUNDLE_ID@);
            return true;
        }
    }
    false
}

/// Which velos worker label, if any, launchd is running. `listing` is what `launchctl
/// list` printed, if it could be run.
///
/// Looks for *any* `velos-worker` label rather than only the current one, so a
/// LaunchAgent left behind by a pre-rename install is reported instead of
/// silently reading as "not running".
pub fn observe_agent(on_macos: bool, listing: Option<&str>) -> (r: AgentState)
    ensures
        !on_macos ==> r is NotApplicable,
        on_macos ==> match listing {
            None => r is NotLoaded,
            Some(text) => {
                let labels = worker_labels(crate::text::lines_of(text@));
                match (labels.contains(BUNDLE_ID@), stale_label(labels)) {
                    (true, Some(other)) => r matches AgentState::Duplicate(l) && l@ == other,
                    (true, None) => r is Loaded,
                    (false, Some(other)) => r matches AgentState::StaleLabel(l) && l@ == other,
                    (false, None) => r is NotLoaded,
                }
            },
        },
{
    if !on_macos {
        return AgentState::NotApplicable;
    }
    let printed = match listing {
        Some(s) => s,
        None => {
            return AgentState::NotLoaded;
        },
    };
    let labels = labels_in(printed);
    match (has_current(&labels), first_stale(&labels)) {
        (true, Some(other)) => AgentState::Duplicate(other),
        (true, None) => AgentState::Loaded,
        (false, Some(other)) => AgentState::StaleLabel(other),
        (false, None) => AgentState::NotLoaded,
    }
}

// ---------------------------------------------------------------------------
// The diagnosis
// ---------------------------------------------------------------------------

/// What was seen so far. A probe that was not made yet left nothing.
#[derive(Debug)]
pub struct Observations {
    /// Where the worker is installed, if that can be told.
    pub exe: Option<String>,
    pub config: Option<ConfigState>,
    pub reach: Option<Reachability>,
    pub identity: Option<IdentityState>,
    pub capacity: Option<CapacityState>,
    pub runtime: Option<RuntimeState>,
    pub agent: Option<AgentState>,
}

/// A probe to make.
#[derive(Debug, Clone, Copy, PartialEq, Eq, Structural)]
pub enum Probe {
    Config,
    Reachability,
    Identity,
    Capacity,
    Runtime,
    Agent,
}

/// What comes next: a probe, or the report.
#[derive(Debug)]
pub enum Diagnosis {
    Probe(Probe),
    Done(Report),
}

/// The usable config that was seen, if one was.
pub open spec fn usable(seen: Observations) -> Option<WorkerConfig> {
    match seen.config {
        Some(ConfigState::Present { config, .. }) => Some(*config),
        _ => None,
    }
}

/// The probe to make next, if one is left. Without a usable config nothing that reads it is
/// asked; the identity is asked only of a server that answers, and only with a credential.
pub open spec fn next_probe(seen: Observations) -> Option<Probe> {
    let cfg = usable(seen);
    if seen.config is None {
        Some(Probe::Config)
    } else if cfg is Some && seen.reach is None {
        Some(Probe::Reachability)
    } else if cfg is Some && seen.reach->0 is Reachable && cfg->0.credential is Some
        && seen.identity is None {
        Some(Probe::Identity)
    } else if cfg is Some && seen.capacity is None {
        Some(Probe::Capacity)
    } else if seen.runtime is None {
        Some(Probe::Runtime)
    } else if seen.agent is None {
        Some(Probe::Agent)
    } else {
        None
    }
}

/// The checks that read the config, where there is one to read.
pub open spec fn config_checks(cfg: WorkerConfig, seen: Observations) -> Seq<CheckView> {
    seq![
        joined_check(cfg),
        report::passed("server"@, cfg.server@),
        reachable_check(cfg.server@, seen.reach->0),
        if !(seen.reach->0 is Reachable) {
            report::skipped("identity"@, "server unreachable"@)
        } else if cfg.credential is None {
            report::skipped("identity"@, "this worker has not joined yet"@)
        } else {
            identity_check(cfg.node@, seen.identity->0)
        },
        capacity_check(seen.capacity->0),
    ]
}

/// The same checks, where there is no usable config.
pub open spec fn no_config_checks() -> Seq<CheckView> {
    seq![
        report::skipped("joined"@, "no usable config"@),
        report::skipped("server"@, "no usable config"@),
        report::skipped("reachable"@, "no usable config"@),
        report::skipped("identity"@, "no usable config"@),
        report::skipped("capacity"@, "no usable config"@),
    ]
}

/// All checks, once no probe is left to make.
pub open spec fn all_checks(version: Seq<char>, seen: Observations) -> Seq<CheckView> {
    seq![binary_check(version, seen.exe.deep_view()), config_check(seen.config->0)] + match usable(
        seen,
    ) {
        Some(cfg) => config_checks(cfg, seen),
        None => no_config_checks(),
    } + seq![runtime_check(seen.runtime->0), agent_check(seen.agent->0)]
}

/// Decides what comes next: the probe to make, or, once all are made, the report.
///
/// Checks that depend on an earlier one are skipped rather than guessed: without
/// a usable config there is nothing to check at all, an unreachable server skips
/// the identity check, and a worker that has not joined skips it too rather than
/// reporting a 401 it was always going to get.
pub fn diagnose(version: &str, seen: &Observations) -> (r: Diagnosis)
    ensures
        match next_probe(*seen) {
            Some(p) => r == Diagnosis::Probe(p),
            None => r matches Diagnosis::Done(report) && report.checks.deep_view() == all_checks(
                version@,
                *seen,
            ),
        },
{
    let state = match &seen.config {
        Some(s) => s,
        None => {
            return Diagnosis::Probe(Probe::Config);
        },
    };
    let exe: Option<&str> = match &seen.exe {
        Some(p) => Some(p.as_str()),
        None => None,
    };
    let mut checks = vec![check_agent_binary(version, exe), check_config(state)];
    match state {
        ConfigState::Present { config, .. } => {
            let cfg: &WorkerConfig = &**config;
            checks.push(check_joined(cfg));
            checks.push(Check::pass("server", &cfg.server));
            let reach = match &seen.reach {
                Some(r) => r,
                None => {
                    return Diagnosis::Probe(Probe::Reachability);
                },
            };
            checks.push(check_reachable(&cfg.server, reach));
            match reach {
                Reachability::Reachable => if cfg.is_connected() {
                    match &seen.identity {
                        Some(identity) => {
                            checks.push(check_identity(&cfg.node, identity));
                        },
                        None => {
                            return Diagnosis::Probe(Probe::Identity);
                        },
                    }
                } else {
                    checks.push(Check::skip("identity", "this worker has not joined yet"));
                },
                _ => {
                    checks.push(Check::skip("identity", "server unreachable"));
                },
            }
            match &seen.capacity {
                Some(capacity) => {
                    checks.push(check_capacity(capacity));
                },
                None => {
                    return Diagnosis::Probe(Probe::Capacity);
                },
            }
        },
        _ => {
            checks.push(Check::skip("joined", "no usable config"));
            checks.push(Check::skip("server", "no usable config"));
            checks.push(Check::skip("reachable", "no usable config"));
            checks.push(Check::skip("identity", "no usable config"));
            checks.push(Check::skip("capacity", "no usable config"));
        },
    }
    match &seen.runtime {
        Some(runtime) => {
            checks.push(check_runtime(runtime));
        },
        None => {
            return Diagnosis::Probe(Probe::Runtime);
        },
    }
    match &seen.agent {
        Some(agent) => {
            checks.push(check_agent(agent));
        },
        None => {
            return Diagnosis::Probe(Probe::Agent);
        },
    }
    assert(checks.deep_view() =~= all_checks(version@, *seen));
    Diagnosis::Done(Report { checks })
}

// ---------------------------------------------------------------------------
// What holds of every diagnosis
// ---------------------------------------------------------------------------

/// The names of the checks of a report, in order.
pub open spec fn check_names() -> Seq<Seq<char>> {
    seq![
        "veloslet"@,
        "config file"@,
        "joined"@,
        "server"@,
        "reachable"@,
        "identity"@,
        "capacity"@,
        "runtime"@,
        "background"@,
    ]
}

/// A report names every check, in one order, whatever was seen: a check that could not be
/// made is skipped, never dropped.
pub proof fn law_no_check_is_dropped(version: Seq<char>, seen: Observations)
    ensures
        all_checks(version, seen).len() == check_names().len(),
        forall|i: int|
            0 <= i < check_names().len() ==> (#[trigger] all_checks(version, seen)[i]).name
                == check_names()[i],
{
}

/// Every check that warns or fails says how to fix it, and no other check does.
pub proof fn law_problems_come_with_a_fix(version: Seq<char>, seen: Observations, i: int)
    requires
        0 <= i < check_names().len(),
    ensures
        all_checks(version, seen)[i].hint is Some <==> all_checks(version, seen)[i].status
            == Status::Warn || all_checks(version, seen)[i].status == Status::Fail,
{
}

/// Without a usable config the report fails, nothing that needs the config is probed or
/// passes, and the runtime and the background worker are still reported.
pub proof fn law_missing_config_skips(version: Seq<char>, seen: Observations)
    requires
        seen.config is Some,
        usable(seen) is None,
    ensures
        next_probe(seen) matches Some(p) ==> p == Probe::Runtime || p == Probe::Agent,
        forall|i: int|
            2 <= i < 7 ==> (#[trigger] all_checks(version, seen)[i]).status == Status::Skip,
        all_checks(version, seen)[7] == runtime_check(seen.runtime->0),
        all_checks(version, seen)[8] == agent_check(seen.agent->0),
        report::any_failed(all_checks(version, seen)),
{
    let checks = all_checks(version, seen);
    assert(checks[1] == config_check(seen.config->0));
    assert(checks[1].status == Status::Fail);
}

/// The server is asked for the identity only where it answers and the worker holds a
/// credential; else the check is skipped.
pub proof fn law_identity_is_asked_with_reason(
    version: Seq<char>,
    seen: Observations,
    cfg: WorkerConfig,
)
    requires
        usable(seen) == Some(cfg),
        seen.reach is Some,
        !(seen.reach->0 is Reachable) || cfg.credential is None,
    ensures
        next_probe(seen) != Some(Probe::Identity),
        all_checks(version, seen)[5].status == Status::Skip,
{
}

/// The identity passes exactly where the server knows the worker under the name in its
/// config; a credential of another name, or a revoked one, fails.
pub proof fn law_identity_must_match(node: Seq<char>, state: IdentityState)
    ensures
        identity_check(node, state).status == Status::Pass <==> (state matches IdentityState::Worker(
            name,
        ) && name@ == node),
        identity_check(node, state).status == Status::Pass || identity_check(node, state).status
            == Status::Fail,
{
}

/// A runtime that is missing or does not answer makes the report fail: a machine that
/// cannot run containers gets no clean bill of health.
pub proof fn law_broken_runtime_fails_the_report(version: Seq<char>, seen: Observations)
    requires
        seen.runtime matches Some(r) && !(r is Available),
    ensures
        report::any_failed(all_checks(version, seen)),
{
    let checks = all_checks(version, seen);
    assert(checks[7] == runtime_check(seen.runtime->0));
    assert(checks[7].status == Status::Fail);
}

/// A probe is asked for only where it was not made yet, so the diagnosis ends.
pub proof fn law_no_probe_is_made_twice(seen: Observations)
    ensures
        match next_probe(seen) {
            Some(Probe::Config) => seen.config is None,
            Some(Probe::Reachability) => seen.reach is None,
            Some(Probe::Identity) => seen.identity is None,
            Some(Probe::Capacity) => seen.capacity is None,
            Some(Probe::Runtime) => seen.runtime is None,
            Some(Probe::Agent) => seen.agent is None,
            None => true,
        },
        seen.config is Some && seen.reach is Some && seen.identity is Some && seen.capacity is Some
            && seen.runtime is Some && seen.agent is Some ==> next_probe(seen) is None,
{
}

/// A config passes exactly where it was read and no one but its owner may touch it: a mode with
/// one of its last six bits set warns, and is shown by its last nine. One that is missing or
/// cannot be used fails.
pub proof fn law_config_verdicts(state: ConfigState)
    ensures
        match state {
            ConfigState::Missing(path) => config_check(state).status == Status::Fail
                && text::starts_with(config_check(state).detail, path@),
            ConfigState::Unusable { path, error } => config_check(state).status == Status::Fail
                && text::starts_with(config_check(state).detail, path@) && text::ends_with(
                config_check(state).detail,
                error@,
            ),
            ConfigState::Present { path, mode, .. } => {
                &&& text::starts_with(config_check(state).detail, path@)
                &&& config_check(state).status == (if mode matches Some(m) && m % 64 != 0 {
                    Status::Warn
                } else {
                    Status::Pass
                })
                &&& config_check(state).status == Status::Warn ==> text::contains(
                    config_check(state).detail,
                    text::octal((mode->0 % 512) as nat),
                ) && text::ends_with(config_check(state).hint->0, path@)
            },
        },
{
    let shown = config_check(state).detail;
    let none = Seq::<char>::empty();
    match state {
        ConfigState::Missing(path) => {
            text::law_parts_of_a_string(none, path@, " does not exist"@);
        },
        ConfigState::Unusable { path, error } => {
            assert(shown =~= path@ + (" is unusable: "@ + error@));
            text::law_parts_of_a_string(none, path@, " is unusable: "@ + error@);
            text::law_parts_of_a_string(path@ + " is unusable: "@, error@, none);
        },
        ConfigState::Present { path, mode, .. } => {
            assert(path@ + none =~= path@);
            text::law_parts_of_a_string(none, path@, none);
            if let Some(m) = mode {
                assert((m & 0o077 != 0) == (m % 64 != 0)) by (bit_vector);
                assert(m & 0o777 == m % 512) by (bit_vector);
                let digits = text::octal((m % 512) as nat);
                let tail = " — it holds this worker's credential"@;
                if m % 64 != 0 {
                    assert(shown =~= path@ + (" is mode "@ + digits + tail));
                    text::law_parts_of_a_string(none, path@, " is mode "@ + digits + tail);
                    text::law_parts_of_a_string(path@ + " is mode "@, digits, tail);
                    text::law_parts_of_a_string("chmod 600 "@, path@, none);
                }
            }
        },
    }
}

/// A worker that holds a credential passes as joined, and no other does; a server that answers
/// passes, and no other does.
pub proof fn law_server_verdicts(cfg: WorkerConfig, server: Seq<char>, reach: Reachability)
    ensures
        joined_check(cfg).status == (if cfg.credential is Some {
            Status::Pass
        } else {
            Status::Fail
        }),
        cfg.credential is Some ==> text::ends_with(joined_check(cfg).detail, cfg.node@),
        reachable_check(server, reach).status == (if reach is Reachable {
            Status::Pass
        } else {
            Status::Fail
        }),
        text::starts_with(reachable_check(server, reach).detail, server),
        reach matches Reachability::Unreachable(why) ==> text::ends_with(
            reachable_check(server, reach).detail,
            why@,
        ),
{
    let none = Seq::<char>::empty();
    text::law_parts_of_a_string("holds a credential for "@, cfg.node@, none);
    match reach {
        Reachability::Reachable => {
            text::law_parts_of_a_string(none, server, " answered /healthz"@);
        },
        Reachability::NoTlsSupport => {
            text::law_parts_of_a_string(
                none,
                server,
                " is https, and this veloslet was built without TLS support"@,
            );
        },
        Reachability::Unreachable(why) => {
            assert(server + ": "@ + why@ =~= server + (": "@ + why@));
            text::law_parts_of_a_string(none, server, ": "@ + why@);
            text::law_parts_of_a_string(server + ": "@, why@, none);
        },
    }
}

/// What is said of an identity says whose it is, with which status it was rejected, or why it
/// could not be told.
pub proof fn law_identity_is_told(node: Seq<char>, state: IdentityState)
    ensures
        match state {
            IdentityState::Worker(name) => text::contains(
                identity_check(node, state).detail,
                name@,
            ) && text::ends_with(identity_check(node, state).detail, node),
            IdentityState::Admin => true,
            IdentityState::Rejected(code) => text::contains(
                identity_check(node, state).detail,
                text::decimal(code as nat),
            ),
            IdentityState::Unexpected(why) => text::ends_with(
                identity_check(node, state).detail,
                why@,
            ),
        },
{
    let none = Seq::<char>::empty();
    match state {
        IdentityState::Worker(name) => {
            if name@ == node {
                let lead = "the server knows this worker as "@;
                assert(lead + name@ =~= lead + name@ + none);
                text::law_parts_of_a_string(lead, name@, none);
            } else {
                let lead = "the credential belongs to "@;
                let middle = ", but the config says "@;
                assert(lead + name@ + middle + node =~= lead + name@ + (middle + node));
                text::law_parts_of_a_string(lead, name@, middle + node);
                text::law_parts_of_a_string(lead + name@ + middle, node, none);
            }
        },
        IdentityState::Admin => {},
        IdentityState::Rejected(code) => {
            text::law_parts_of_a_string(
                "the server rejected this worker's credential (HTTP "@,
                text::decimal(code as nat),
                ")"@,
            );
        },
        IdentityState::Unexpected(why) => {
            text::law_parts_of_a_string(
                "could not confirm this worker's identity: "@,
                why@,
                none,
            );
        },
    }
}

/// Capacity that fits passes and shows what is advertised of what there is; one that does not
/// fails with the reason, and a machine that could not be measured warns.
pub proof fn law_capacity_verdicts(state: CapacityState)
    ensures
        match state {
            CapacityState::Fits { cpu, memory, host } => {
                &&& capacity_check(state).status == Status::Pass
                &&& text::contains(
                    capacity_check(state).detail,
                    text::decimal(cpu as nat) + " cpu, "@ + memory::size_text(memory@) + " of "@,
                )
                &&& text::ends_with(
                    capacity_check(state).detail,
                    text::decimal(host.cpu as nat) + " cpu, "@ + memory::size_text(
                        host.memory_bytes,
                    ),
                )
            },
            CapacityState::Exceeds(why) => capacity_check(state).status == Status::Fail
                && capacity_check(state).detail == why@,
            CapacityState::Unknown(why) => capacity_check(state).status == Status::Warn
                && text::ends_with(capacity_check(state).detail, why@),
        },
{
    let none = Seq::<char>::empty();
    match state {
        CapacityState::Fits { cpu, memory, host } => {
            let asked = text::decimal(cpu as nat) + " cpu, "@ + memory::size_text(memory@)
                + " of "@;
            let there = text::decimal(host.cpu as nat) + " cpu, "@ + memory::size_text(
                host.memory_bytes,
            );
            assert(capacity_check(state).detail =~= "advertising "@ + asked + there);
            text::law_parts_of_a_string("advertising "@, asked, there);
            text::law_parts_of_a_string("advertising "@ + asked, there, none);
        },
        CapacityState::Exceeds(_) => {},
        CapacityState::Unknown(why) => {
            text::law_parts_of_a_string("could not measure this machine: "@, why@, none);
        },
    }
}

/// A runtime that answers passes with its version; a worker without one that does, fails.
pub proof fn law_runtime_verdicts(state: RuntimeState)
    ensures
        match state {
            RuntimeState::Available(version) => runtime_check(state).status == Status::Pass
                && runtime_check(state).detail == version@,
            RuntimeState::Absent => runtime_check(state).status == Status::Fail,
            RuntimeState::Broken(why) => runtime_check(state).status == Status::Fail
                && text::ends_with(runtime_check(state).detail, why@),
        },
{
    if let RuntimeState::Broken(why) = state {
        text::law_parts_of_a_string(
            "`"@ + RUNTIME_BIN@ + "` is present but did not answer: "@,
            why@,
            Seq::empty(),
        );
    }
}

/// An agent that runs under the current name alone passes. One that does not run, or runs under
/// another name alone, warns; two that run fail; and where there can be none the check is
/// skipped. Another name is shown, and the fix is for it.
pub proof fn law_agent_verdicts(state: AgentState)
    ensures
        match state {
            AgentState::NotApplicable => agent_check(state).status == Status::Skip,
            AgentState::Loaded => agent_check(state).status == Status::Pass,
            AgentState::NotLoaded => agent_check(state).status == Status::Warn,
            AgentState::StaleLabel(label) => agent_check(state).status == Status::Warn
                && text::contains(agent_check(state).detail, label@) && text::contains(
                agent_check(state).hint->0,
                label@,
            ),
            AgentState::Duplicate(stale) => agent_check(state).status == Status::Fail
                && text::contains(agent_check(state).detail, stale@) && text::contains(
                agent_check(state).hint->0,
                stale@,
            ),
        },
{
    match state {
        AgentState::StaleLabel(label) => {
            let tail = ", which is not the current "@ + BUNDLE_ID@;
            assert(agent_check(state).detail =~= "launchd is running "@ + label@ + tail);
            text::law_parts_of_a_string("launchd is running "@, label@, tail);
            text::law_parts_of_a_string(
                "that agent predates a bundle rename, so `veloslet stop`/`uninstall` will not touch it — remove it with `launchctl unload ~/Library/LaunchAgents/"@,
                label@,
                ".plist` and `rm` that plist, then `veloslet run -d`"@,
            );
        },
        AgentState::Duplicate(stale) => {
            text::law_parts_of_a_string(
                "two workers are loaded — "@ + BUNDLE_ID@ + " and "@,
                stale@,
                " — sharing one config and one node name"@,
            );
            text::law_parts_of_a_string(
                "they reconcile against each other and delete each other's containers; drop the old one with `launchctl unload ~/Library/LaunchAgents/"@
                    + stale@ + ".plist && rm ~/Library/LaunchAgents/"@,
                stale@,
                ".plist`"@,
            );
        },
        _ => {},
    }
}

/// The binary's check shows its version and where it is installed, and passes.
pub proof fn law_binary_is_shown(version: Seq<char>, path: Option<Seq<char>>)
    ensures
        binary_check(version, path).status == Status::Pass,
        text::starts_with(binary_check(version, path).detail, "v"@ + version),
        path matches Some(p) ==> text::contains(binary_check(version, path).detail, p),
{
    let none = Seq::<char>::empty();
    let lead = "v"@ + version;
    match path {
        Some(p) => {
            assert(lead + " ("@ + p + ")"@ =~= lead + (" ("@ + p + ")"@));
            text::law_parts_of_a_string(none, lead, " ("@ + p + ")"@);
            text::law_parts_of_a_string(lead + " ("@, p, ")"@);
        },
        None => {
            assert(lead + none =~= lead);
            text::law_parts_of_a_string(none, lead, none);
        },
    }
}

/// An excerpt is the start of the trimmed output: all of it up to 120 characters.
pub proof fn law_excerpts_are_the_start(output: Seq<char>)
    ensures
        text::starts_with(text::trimmed(output), excerpt(output)),
        excerpt(output).len() == (if text::trimmed(output).len() < 120 {
            text::trimmed(output).len()
        } else {
            120
        }),
{
    let s = text::trimmed(output);
    let n = excerpt(output).len() as int;
    assert(s.take(n) =~= excerpt(output));
    assert(s =~= excerpt(output) + s.skip(n));
    text::law_parts_of_a_string(Seq::empty(), excerpt(output), s.skip(n));
}

/// Listing succeeds exactly where the call was made, exited well, and printed nothing or JSON.
pub proof fn law_listing_must_be_readable(call: CallResult)
    ensures
        listing_problem(call) is None <==> (call matches CallResult::Exited {
            success,
            stdout,
            ..
        } && success && (text::trimmed(stdout@).len() == 0 || crate::json::parsed(
            text::trimmed(stdout@),
        ) is Ok)),
        call matches CallResult::Failed(why) ==> listing_problem(call) == Some(why@),
        call matches CallResult::Exited { success, stderr, .. } ==> !success ==> listing_problem(
            call,
        ) == Some(excerpt(stderr@)),
{
    if let CallResult::Exited { stdout, .. } = call {
        runtime::law_only_what_is_not_json_is_wrong(text::trimmed(stdout@));
    }
}

/// A line names a worker exactly where its third word ends as a worker's label does, and it is
/// that word. Lines are read one after the other.
pub proof fn law_labels_are_third_words(
    line: Seq<char>,
    label: Seq<char>,
    a: Seq<Seq<char>>,
    b: Seq<Seq<char>>,
)
    ensures
        worker_label(line) == Some(label) <==> text::words_of(line).len() >= 3 && text::words_of(
            line,
        )[2] == label && text::ends_with(label, "velos-worker"@),
        worker_labels(a + b) == worker_labels(a) + worker_labels(b),
        worker_labels(seq![line]) == (match worker_label(line) {
            Some(l) => seq![l],
            None => Seq::empty(),
        }),
    decreases b.len(),
{
    reveal_with_fuel(worker_labels, 2);
    assert(seq![line].drop_last() =~= Seq::<Seq<char>>::empty());
    assert(worker_labels(seq![line]) =~= (match worker_label(line) {
        Some(l) => seq![l],
        None => Seq::empty(),
    }));
    if b.len() == 0 {
        assert(a + b =~= a);
    } else {
        law_labels_are_third_words(line, label, a, b.drop_last());
        assert((a + b).drop_last() =~= a + b.drop_last());
        assert((a + b).last() == b.last());
    }
    assert(worker_labels(a + b) =~= worker_labels(a) + worker_labels(b));
}

/// A stale label is the first that is not the current one, and there is none exactly where all
/// are current.
pub proof fn law_stale_labels_are_not_current(labels: Seq<Seq<char>>, i: int)
    ensures
        0 <= i < labels.len() && labels[i] != "io.github.blossomstack.velos-worker"@ && (forall|
            k: int,
        |
            0 <= k < i ==> #[trigger] labels[k] == "io.github.blossomstack.velos-worker"@)
            ==> stale_label(labels) == Some(labels[i]),
        stale_label(labels) is None <==> forall|k: int|
            0 <= k < labels.len() ==> #[trigger] labels[k]
                == "io.github.blossomstack.velos-worker"@,
    decreases labels.len(),
{
    if labels.len() > 0 && labels[0] == BUNDLE_ID@ {
        let rest = labels.skip(1);
        law_stale_labels_are_not_current(rest, i - 1);
        assert(forall|k: int| 0 <= k < rest.len() ==> #[trigger] rest[k] == labels[k + 1]);
        assert(forall|k: int| 0 < k < labels.len() ==> #[trigger] labels[k] == rest[k - 1]);
    }
}

/// Each probe is asked for exactly where it can be made, was not made, and every one before it
/// that can be made was.
pub proof fn law_probes_are_made_in_order(seen: Observations)
    ensures
        ({
            let cfg = usable(seen);
            let asks = cfg is Some && seen.reach is Some && seen.reach->0 is Reachable
                && cfg->0.credential is Some;
            let read = seen.config is Some && (cfg is Some ==> seen.reach is Some && (asks
                ==> seen.identity is Some) && seen.capacity is Some);
            let next = next_probe(seen);
            &&& next == Some(Probe::Config) <==> seen.config is None
            &&& next == Some(Probe::Reachability) <==> cfg is Some && seen.reach is None
            &&& next == Some(Probe::Identity) <==> asks && seen.identity is None
            &&& next == Some(Probe::Capacity) <==> cfg is Some && seen.reach is Some && (asks
                ==> seen.identity is Some) && seen.capacity is None
            &&& next == Some(Probe::Runtime) <==> read && seen.runtime is None
            &&& next == Some(Probe::Agent) <==> read && seen.runtime is Some && seen.agent is None
        }),
        usable(seen) is Some <==> (seen.config matches Some(c) && c is Present),
        seen.config matches Some(ConfigState::Present { config, .. }) ==> usable(seen) == Some(
            *config,
        ),
{
}

/// Once no probe is left, each check is that of what its probe saw.
pub proof fn law_checks_are_of_what_was_seen(version: Seq<char>, seen: Observations)
    ensures
        ({
            let checks = all_checks(version, seen);
            &&& checks[0] == binary_check(version, seen.exe.deep_view())
            &&& checks[1] == config_check(seen.config->0)
            &&& checks[7] == runtime_check(seen.runtime->0)
            &&& checks[8] == agent_check(seen.agent->0)
            &&& usable(seen) matches Some(cfg) ==> {
                &&& checks[2] == joined_check(cfg)
                &&& checks[3].status == Status::Pass && checks[3].detail == cfg.server@
                &&& checks[4] == reachable_check(cfg.server@, seen.reach->0)
                &&& seen.reach->0 is Reachable && cfg.credential is Some ==> checks[5]
                    == identity_check(cfg.node@, seen.identity->0)
                &&& checks[6] == capacity_check(seen.capacity->0)
            }
        }),
{
}

} // verus!
