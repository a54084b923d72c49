//! `velosctl doctor`: one command that answers "is my setup working, and if not, what do
//! I fix?".
//!
//! An *observation* records what was seen (a config file's mode, an HTTP status, the
//! identity a token maps to), and a function turns each observation into a [`Check`]
//! carrying a verdict and a fix-it hint. [`diagnose`] says which probe to make next, and
//! once they are made puts the report together.
use vstd::prelude::*;

use crate::json;
use crate::json::{Json, JsonView};
use crate::report;
use crate::report::{Body, CallResult, CheckView, FileRead, HttpReply, Who, WhoView};
use crate::text;

pub use crate::report::{plural, url, Check, Report, Status};

verus! {

/// The `container` CLI (Apple Containerization), the runtime a worker needs.
pub const RUNTIME_BIN: &'static str = "container";

/// Which layer a setting came from.
#[derive(Debug, Clone, Copy, PartialEq, Eq, Structural)]
pub enum Source {
    Flag,
    Env,
    Config,
    Default,
}

/// The name of a layer.
pub open spec fn source_text(s: Source) -> Seq<char> {
    match s {
        Source::Flag => "flag"@,
        Source::Env => "environment"@,
        Source::Config => "config file"@,
        Source::Default => "built-in default"@,
    }
}

impl Source {
    /// The name of the layer.
    pub fn label(self) -> (r: &'static str)
        ensures
            r@ == source_text(self),
    {
        match self {
            Source::Flag => "flag",
            Source::Env => "environment",
            Source::Config => "config file",
            Source::Default => "built-in default",
        }
    }
}

/// The server a CLI with no settings talks to.
pub const DEFAULT_SERVER: &'static str = "http://127.0.0.1:8080";

/// The first layer that supplies a setting: the flag, else the environment, else the
/// config file.
pub open spec fn first_supplied(
    flag: Option<Seq<char>>,
    env: Option<Seq<char>>,
    config: Option<Seq<char>>,
) -> Option<(Seq<char>, Source)> {
    match (flag, env, config) {
        (Some(v), _, _) => Some((v, Source::Flag)),
        (None, Some(v), _) => Some((v, Source::Env)),
        (None, None, Some(v)) => Some((v, Source::Config)),
        (None, None, None) => None,
    }
}

/// The text of a layer's setting.
pub open spec fn layer(o: Option<&str>) -> Option<Seq<char>> {
    match o {
        Some(v) => Some(v@),
        None => None,
    }
}

/// The credential to present and the layer it came from, if any layer has one.
pub fn resolve_token<'a>(
    flag: Option<&'a str>,
    env: Option<&'a str>,
    config: Option<&'a str>,
) -> (r: Option<(&'a str, Source)>)
    ensures
        match r {
            Some((v, s)) => first_supplied(layer(flag), layer(env), layer(config)) == Some((v@, s)),
            None => first_supplied(layer(flag), layer(env), layer(config)) is None,
        },
{
    match (flag, env, config) {
        (Some(v), _, _) => Some((v, Source::Flag)),
        (None, Some(v), _) => Some((v, Source::Env)),
        (None, None, Some(v)) => Some((v, Source::Config)),
        (None, None, None) => None,
    }
}

/// The server to talk to and the layer it came from: [`DEFAULT_SERVER`] where no layer
/// names one.
pub fn resolve_server<'a>(
    flag: Option<&'a str>,
    env: Option<&'a str>,
    config: Option<&'a str>,
) -> (r: (&'a str, Source))
    ensures
        (r.0@, r.1) == match first_supplied(layer(flag), layer(env), layer(config)) {
            Some(found) => found,
            None => (DEFAULT_SERVER@, Source::Default),
        },
{
    match resolve_token(flag, env, config) {
        Some(found) => found,
        None => (DEFAULT_SERVER, Source::Default),
    }
}

// ---------------------------------------------------------------------------
// Observations: what the probes saw
// ---------------------------------------------------------------------------

/// What `~/.velos/config` looked like on disk.
#[derive(Debug, Clone, PartialEq, Eq)]
pub enum ConfigState {
    /// No home directory, so there is nowhere for a config to live.
    NoHome,
    /// The path is free: nothing has been saved yet.
    Missing(String),
    /// Present but unreadable or not valid JSON.
    Unusable { path: String, error: String },
    /// Present and parsed. `mode` is the unix permission bits, where known.
    Present { path: String, mode: Option<u32> },
}

/// Whether the control plane answered its liveness probe.
#[derive(Debug, Clone, PartialEq, Eq)]
pub enum Reachability {
    Reachable,
    Unreachable(String),
    /// The URL is `https` but this build has no TLS backend, so no request to
    /// it can ever succeed.
    NoTlsSupport,
}

/// Whether the admin account has been created (`GET /auth/v1/status`).
#[derive(Debug, Clone, PartialEq, Eq)]
pub enum InitState {
    Initialized,
    Uninitialized,
    Unexpected(String),
}

/// Who the saved credential turns out to be (`GET /auth/v1/me`).
#[derive(Debug, Clone, PartialEq, Eq)]
pub enum IdentityState {
    Admin,
    Worker(String),
    Rejected(u16),
    Unexpected(String),
}

/// What a list of workers looks like (`GET /api/v1/workers`).
#[derive(Debug, Clone, PartialEq, Eq)]
pub enum ApiAccess {
    Denied(u16),
    Workers { total: usize, ready: usize },
    Unexpected(String),
}

/// Whether this machine can run containers.
#[derive(Debug, Clone, PartialEq, Eq)]
pub enum RuntimeState {
    Absent,
    Available(String),
    Broken(String),
}

// ---------------------------------------------------------------------------
// Observation to verdict
// ---------------------------------------------------------------------------

/// The check of the CLI itself.
pub open spec fn cli_check(version: Seq<char>, path: Option<Seq<char>>) -> CheckView {
    match path {
        Some(p) => report::passed("velosctl"@, "v"@ + version + " ("@ + p + ")"@),
        None => report::passed("velosctl"@, "v"@ + version),
    }
}

/// The check of the CLI itself: its version and where it is installed.
pub fn check_cli(version: &str, path: Option<&str>) -> (r: Check)
    ensures
        r@ == cli_check(version@, path.deep_view()),
{
    match path {
        Some(p) => Check::pass("velosctl", &text::cat5("v", version, " (", p, ")")),
        None => Check::pass("velosctl", &text::cat2("v", version)),
    }
}

/// A file mode as four octal digits.
pub open spec fn mode_text(mode: u32) -> Seq<char> {
    text::zero_padded(text::octal(mode as nat), 4)
}

/// The check of the config file. It holds a bearer token, so group or other access is a
/// real leak.
pub open spec fn config_check(state: ConfigState) -> CheckView {
    match state {
        ConfigState::NoHome => report::failed(
            "config file"@,
            "no home directory, so no config can be saved"@,
            "set HOME, or pass --server/--token on every command"@,
        ),
        ConfigState::Missing(path) => report::warned(
            "config file"@,
            path@ + " not written yet"@,
            "run `velosctl login --token <token> --server <url>` to save one"@,
        ),
        ConfigState::Unusable { path, error } => report::failed(
            "config file"@,
            path@ + " is unusable: "@ + error@,
            "delete it and run `velosctl login` again"@,
        ),
        ConfigState::Present { path, mode } => match mode {
            Some(m) => if m & 0o077 != 0 {
                report::warned(
                    "config file"@,
                    path@ + " is mode "@ + mode_text(m) + " — readable by other users"@,
                    "chmod 600 "@ + path@,
                )
            } else {
                report::passed("config file"@, path@ + " (mode "@ + mode_text(m) + ")"@)
            },
            None => report::passed("config file"@, path@),
        },
    }
}

/// The check of the config file.
pub fn check_config(state: &ConfigState) -> (r: Check)
    ensures
        r@ == config_check(*state),
{
    match state {
        ConfigState::NoHome => Check::fail(
            "config file",
            "no home directory, so no config can be saved",
            "set HOME, or pass --server/--token on every command",
        ),
        ConfigState::Missing(path) => Check::warn(
            "config file",
            &text::cat2(path, " not written yet"),
            "run `velosctl login --token <token> --server <url>` to save one",
        ),
        ConfigState::Unusable { path, error } => Check::fail(
            "config file",
            &text::cat3(path, " is unusable: ", error),
            "delete it and run `velosctl login` again",
        ),
        ConfigState::Present { path, mode } => match mode {
            Some(m) => {
                let digits = text::pad_zeros(&text::octal_text(*m as u64), 4);
                if *m & 0o077 != 0 {
                    Check::warn(
                        "config file",
                        &text::cat4(path, " is mode ", &digits, " — readable by other users"),
                        &text::cat2("chmod 600 ", path),
                    )
                } else {
                    Check::pass("config file", &text::cat4(path, " (mode ", &digits, ")"))
                }
            },
            None => Check::pass("config file", path),
        },
    }
}

/// The check of the server URL.
pub open spec fn server_check(server: Seq<char>, source: Source) -> CheckView {
    report::passed("server url"@, server + " (from "@ + source_text(source) + ")"@)
}

/// The check of the server URL: what it is and which layer supplied it.
pub fn check_server(server: &str, source: Source) -> (r: Check)
    ensures
        r@ == server_check(server@, source),
{
    Check::pass("server url", &text::cat4(server, " (from ", source.label(), ")"))
}

/// The check of the credential.
pub open spec fn credential_check(source: Option<Source>) -> CheckView {
    match source {
        Some(s) => report::passed("credential"@, "present (from "@ + source_text(s) + ")"@),
        None => report::failed(
            "credential"@,
            "none — every API call will be rejected"@,
            "run `velosctl login --token <token> --server <url>`"@,
        ),
    }
}

/// The check of the credential: whether there is one.
pub fn check_credential(source: Option<Source>) -> (r: Check)
    ensures
        r@ == credential_check(source),
{
    match source {
        Some(s) => Check::pass("credential", &text::cat3("present (from ", s.label(), ")")),
        None => Check::fail(
            "credential",
            "none — every API call will be rejected",
            "run `velosctl login --token <token> --server <url>`",
        ),
    }
}

/// The check that the server answers.
pub open spec fn reachable_check(server: Seq<char>, reach: Reachability) -> CheckView {
    match reach {
        Reachability::Reachable => report::passed("reachable"@, server + " answered /healthz"@),
        Reachability::NoTlsSupport => report::failed(
            "reachable"@,
            server + " is https, and this velosctl was built without TLS support"@,
            "use an http:// URL, or tunnel to the server (ssh -L 8080:127.0.0.1:8080 <host>)"@,
        ),
        Reachability::Unreachable(why) => report::failed(
            "reachable"@,
            server + ": "@ + why@,
            "start the control plane with `velos-server`, or point at another one with --server"@,
        ),
    }
}

/// The check that the server answers.
pub fn check_reachable(server: &str, reach: &Reachability) -> (r: Check)
    ensures
        r@ == reachable_check(server@, *reach),
{
    match reach {
        Reachability::Reachable => Check::pass(
            "reachable",
            &text::cat2(server, " answered /healthz"),
        ),
        Reachability::NoTlsSupport => Check::fail(
            "reachable",
            &text::cat2(server, " is https, and this velosctl was built without TLS support"),
            "use an http:// URL, or tunnel to the server (ssh -L 8080:127.0.0.1:8080 <host>)",
        ),
        Reachability::Unreachable(why) => Check::fail(
            "reachable",
            &text::cat3(server, ": ", why),
            "start the control plane with `velos-server`, or point at another one with --server",
        ),
    }
}

/// The check that the server was set up.
pub open spec fn initialized_check(server: Seq<char>, state: InitState) -> CheckView {
    match state {
        InitState::Initialized => report::passed("initialized"@, "the admin account exists"@),
        InitState::Uninitialized => report::failed(
            "initialized"@,
            "no admin account — the server rejects everything until first-run setup"@,
            "open "@ + server + " and create the admin account"@,
        ),
        InitState::Unexpected(what) => report::failed(
            "initialized"@,
            "could not read the setup state: "@ + what@,
            "check that --server points at a Velos control plane"@,
        ),
    }
}

/// The check that the server was set up.
pub fn check_initialized(server: &str, state: &InitState) -> (r: Check)
    ensures
        r@ == initialized_check(server@, *state),
{
    match state {
        InitState::Initialized => Check::pass("initialized", "the admin account exists"),
        InitState::Uninitialized => Check::fail(
            "initialized",
            "no admin account — the server rejects everything until first-run setup",
            &text::cat3("open ", server, " and create the admin account"),
        ),
        InitState::Unexpected(what) => Check::fail(
            "initialized",
            &text::cat2("could not read the setup state: ", what),
            "check that --server points at a Velos control plane",
        ),
    }
}

/// The check of whom the credential belongs to.
pub open spec fn identity_check(state: IdentityState) -> CheckView {
    match state {
        IdentityState::Admin => report::passed("identity"@, "admin"@),
        IdentityState::Worker(name) => report::warned(
            "identity"@,
            "worker '"@ + name@ + "' — a worker credential, not an admin one"@,
            "log in with an admin CLI token to manage the cluster"@,
        ),
        IdentityState::Rejected(code) => report::failed(
            "identity"@,
            "the server rejected this credential (HTTP "@ + text::decimal(code as nat) + ")"@,
            "mint a fresh CLI token in the dashboard and run `velosctl login` again"@,
        ),
        IdentityState::Unexpected(what) => report::failed(
            "identity"@,
            "unexpected reply from /auth/v1/me: "@ + what@,
            "check that --server points at a Velos control plane"@,
        ),
    }
}

/// The check of whom the credential belongs to.
pub fn check_identity(state: &IdentityState) -> (r: Check)
    ensures
        r@ == identity_check(*state),
{
    match state {
        IdentityState::Admin => Check::pass("identity", "admin"),
        IdentityState::Worker(name) => Check::warn(
            "identity",
            &text::cat3("worker '", name, "' — a worker credential, not an admin one"),
            "log in with an admin CLI token to manage the cluster",
        ),
        IdentityState::Rejected(code) => Check::fail(
            "identity",
            &text::cat3(
                "the server rejected this credential (HTTP ",
                &text::decimal_text(*code as u64),
                ")",
            ),
            "mint a fresh CLI token in the dashboard and run `velosctl login` again",
        ),
        IdentityState::Unexpected(what) => Check::fail(
            "identity",
            &text::cat2("unexpected reply from /auth/v1/me: ", what),
            "check that --server points at a Velos control plane",
        ),
    }
}

/// The check of API access, and how many workers are Ready.
pub open spec fn api_check(access: ApiAccess) -> CheckView {
    match access {
        ApiAccess::Workers { total, ready } => if total == 0 {
            report::warned(
                "api access"@,
                "no workers registered"@,
                "register one with `veloslet run --server <url> --node <name> --token <bootstrap>`"@,
            )
        } else if ready == 0 {
            report::warned(
                "api access"@,
                "none of "@ + report::counted(total as nat, "worker"@) + " Ready"@,
                "check `velosctl get workers` — a stale lease marks a worker NotReady"@,
            )
        } else {
            report::passed(
                "api access"@,
                text::decimal(ready as nat) + " of "@ + report::counted(total as nat, "worker"@)
                    + " Ready"@,
            )
        },
        ApiAccess::Denied(code) => report::failed(
            "api access"@,
            "/api/v1/workers returned HTTP "@ + text::decimal(code as nat),
            "the credential is not allowed to read workers — log in as admin"@,
        ),
        ApiAccess::Unexpected(what) => report::failed(
            "api access"@,
            "unexpected reply from /api/v1/workers: "@ + what@,
            "check that --server points at a Velos control plane"@,
        ),
    }
}

/// The check of API access, and how many workers are Ready.
pub fn check_api(access: &ApiAccess) -> (r: Check)
    ensures
        r@ == api_check(*access),
{
    match access {
        ApiAccess::Workers { total, ready } => if *total == 0 {
            Check::warn(
                "api access",
                "no workers registered",
                "register one with `veloslet run --server <url> --node <name> --token <bootstrap>`",
            )
        } else if *ready == 0 {
            Check::warn(
                "api access",
                &text::cat3("none of ", &plural(*total, "worker"), " Ready"),
                "check `velosctl get workers` — a stale lease marks a worker NotReady",
            )
        } else {
            Check::pass(
                "api access",
                &text::cat4(
                    &text::decimal_text(*ready as u64),
                    " of ",
                    &plural(*total, "worker"),
                    " Ready",
                ),
            )
        },
        ApiAccess::Denied(code) => Check::fail(
            "api access",
            &text::cat2("/api/v1/workers returned HTTP ", &text::decimal_text(*code as u64)),
            "the credential is not allowed to read workers — log in as admin",
        ),
        ApiAccess::Unexpected(what) => Check::fail(
            "api access",
            &text::cat2("unexpected reply from /api/v1/workers: ", what),
            "check that --server points at a Velos control plane",
        ),
    }
}

/// The check of the container runtime. Only a worker host needs it, so its absence is
/// never fatal.
pub open spec fn runtime_check(state: RuntimeState) -> CheckView {
    match state {
        RuntimeState::Available(version) => report::passed("runtime"@, version@),
        RuntimeState::Absent => report::warned(
            "runtime"@,
            "`"@ + RUNTIME_BIN@ + "` not on PATH"@,
            "only needed on machines that run workers — install Apple's container CLI there"@,
        ),
        RuntimeState::Broken(why) => report::warned(
            "runtime"@,
            "`"@ + RUNTIME_BIN@ + "` failed: "@ + why@,
            "containers will not start on this machine until it runs"@,
        ),
    }
}

/// The check of the container runtime.
pub fn check_runtime(state: &RuntimeState) -> (r: Check)
    ensures
        r@ == runtime_check(*state),
{
    match state {
        RuntimeState::Available(version) => Check::pass("runtime", version),
        RuntimeState::Absent => Check::warn(
            "runtime",
            &text::cat3("`", RUNTIME_BIN, "` not on PATH"),
            "only needed on machines that run workers — install Apple's container CLI there",
        ),
        RuntimeState::Broken(why) => Check::warn(
            "runtime",
            &text::cat4("`", RUNTIME_BIN, "` failed: ", why),
            "containers will not start on this machine until it runs",
        ),
    }
}

// ---------------------------------------------------------------------------
// Answer to observation
// ---------------------------------------------------------------------------

/// Whether a condition says that its worker is Ready.
pub open spec fn says_ready(condition: JsonView) -> bool {
    json::text(json::get(condition, "conditionType"@)) == Some("Ready"@) && json::boolean(
        json::get(condition, "status"@),
    ) == Some(true)
}

/// Whether a worker carries a true `Ready` condition.
pub open spec fn ready(worker: JsonView) -> bool {
    let conditions = json::items(json::at(worker, seq!["status"@, "conditions"@]));
    exists|i: int| 0 <= i < conditions.len() && says_ready(#[trigger] conditions[i])
}

/// How many workers are Ready.
pub open spec fn ready_count(workers: Seq<JsonView>) -> nat
    decreases workers.len(),
{
    if workers.len() == 0 {
        0
    } else {
        ready_count(workers.drop_last()) + if ready(workers.last()) {
            1nat
        } else {
            0nat
        }
    }
}

/// A worker is Ready when it carries a true `Ready` condition.
pub fn is_ready(worker: &Json) -> (r: bool)
    ensures
        r == ready(worker@),
{
    let path: [&str; 2] = ["status", "conditions"];
    assert(path.deep_view() =~= seq!["status"@, "conditions"@]);
    if let Some(j) = worker.at(&path) {
        if let Some(conditions) = j.as_array() {
            let ghost all = json::models(conditions@);
            for i in 0..conditions.len()
                invariant
                    all == json::models(conditions@),
                    all == json::items(json::at(worker@, seq!["status"@, "conditions"@])),
                    forall|k: int| 0 <= k < i ==> !says_ready(#[trigger] all[k]),
            {
                let named = match conditions[i].get("conditionType") {
                    Some(t) => match t.as_str() {
                        Some(s) => text::same(s, "Ready"),
                        None => false,
                    },
                    None => false,
                };
                let holds = match conditions[i].get("status") {
                    Some(b) => match b.as_bool() {
                        Some(b) => b,
                        None => false,
                    },
                    None => false,
                };
                if named && holds {
                    assert(says_ready(all[i as int]));
                    return true;
                }
                assert(!says_ready(all[i as int]));
            }
        }
    }
    false
}

/// Count workers and how many are Ready, from a `{ "items": [...] }` list.
pub fn count_workers(body: &Json) -> (r: Option<(usize, usize)>)
    ensures
        match json::get(body@, "items"@) {
            Some(JsonView::Array(workers)) => r matches Some(n) && n.0 == workers.len() && n.1
                == ready_count(workers),
            _ => r is None,
        },
{
    let list = match body.get("items") {
        Some(j) => j,
        None => {
            return None;
        },
    };
    let workers = match list.as_array() {
        Some(a) => a,
        None => {
            return None;
        },
    };
    let ghost all = json::models(workers@);
    let mut n: usize = 0;
    for i in 0..workers.len()
        invariant
            all == json::models(workers@),
            n <= i,
            n == ready_count(all.take(i as int)),
    {
        assert(all.take(i + 1).drop_last() =~= all.take(i as int));
        assert(all.take(i + 1).last() == workers@[i as int]@);
        if is_ready(&workers[i]) {
            n += 1;
        }
    }
    assert(all.take(all.len() as int) =~= all);
    Some((workers.len(), n))
}

/// Read the identity out of `{"identity": "admin"}` / `{"identity": {"worker": n}}`.
pub fn parse_identity(body: &Json) -> (r: Option<IdentityState>)
    ensures
        match report::identity_in(body@) {
            Some(WhoView::Admin) => r matches Some(IdentityState::Admin),
            Some(WhoView::Worker(name)) => r matches Some(IdentityState::Worker(n)) && n@ == name,
            None => r is None,
        },
{
    match report::read_identity(body) {
        Some(Who::Admin) => Some(IdentityState::Admin),
        Some(Who::Worker(name)) => Some(IdentityState::Worker(name)),
        None => None,
    }
}

/// Tell a missing TLS backend apart from a server that is simply down: without
/// one, an https URL is rejected up front with "scheme is not http" rather
/// than failing to connect.
pub fn classify_transport(server: &str, cause: String) -> (r: Reachability)
    ensures
        r == (if report::lacks_tls(server@, cause@) {
            Reachability::NoTlsSupport
        } else {
            Reachability::Unreachable(cause)
        }),
{
    if report::is_tls_missing(server, &cause) {
        return Reachability::NoTlsSupport;
    }
    Reachability::Unreachable(cause)
}

/// What `~/.velos/config` looks like: `path` is where it would be, if there is a home
/// directory, and `read` what reading it came back with.
pub fn observe_config(path: Option<String>, read: FileRead<()>) -> (r: ConfigState)
    ensures
        match path {
            None => r is NoHome,
            Some(p) => match read {
                FileRead::NotFound => r == ConfigState::Missing(p),
                FileRead::Unusable(error) => r == (ConfigState::Unusable { path: p, error }),
                FileRead::Parsed { mode, .. } => r == (ConfigState::Present { path: p, mode }),
            },
        },
{
    match path {
        None => ConfigState::NoHome,
        Some(path) => match read {
            FileRead::NotFound => ConfigState::Missing(path),
            FileRead::Unusable(error) => ConfigState::Unusable { path, error },
            FileRead::Parsed { mode, .. } => ConfigState::Present { path, mode },
        },
    }
}

/// What the answer to `GET /healthz` says.
pub fn observe_reachability(server: &str, reply: HttpReply) -> (r: Reachability)
    ensures
        match reply {
            HttpReply::Failed(cause) => r == (if report::lacks_tls(server@, cause@) {
                Reachability::NoTlsSupport
            } else {
                Reachability::Unreachable(cause)
            }),
            HttpReply::Answered { success, status, .. } => if success {
                r is Reachable
            } else {
                r matches Reachability::Unreachable(why) && why@ == "HTTP "@ + status@
            },
        },
{
    match reply {
        HttpReply::Failed(cause) => classify_transport(server, cause),
        HttpReply::Answered { success, status, .. } => if success {
            Reachability::Reachable
        } else {
            Reachability::Unreachable(text::cat2("HTTP ", &status))
        },
    }
}

/// What the answer to `GET /auth/v1/status` says.
pub fn observe_init(reply: HttpReply) -> (r: InitState)
    ensures
        match reply {
            HttpReply::Failed(cause) => r == InitState::Unexpected(cause),
            HttpReply::Answered { success, status, body, .. } => if !success {
                r matches InitState::Unexpected(what) && what@ == "HTTP "@ + status@
            } else {
                match body {
                    Body::Unreadable(cause) => r == InitState::Unexpected(cause),
                    Body::Read { json, .. } => match json::boolean(
                        json::get(json@, "initialized"@),
                    ) {
                        Some(true) => r is Initialized,
                        Some(false) => r is Uninitialized,
                        None => r matches InitState::Unexpected(what) && what@
                            == "no `initialized` field"@,
                    },
                }
            },
        },
{
    match reply {
        HttpReply::Failed(cause) => InitState::Unexpected(cause),
        HttpReply::Answered { success, status, body, .. } => {
            if !success {
                return InitState::Unexpected(text::cat2("HTTP ", &status));
            }
            match body {
                Body::Unreadable(cause) => InitState::Unexpected(cause),
                Body::Read { json, .. } => {
                    let flag = match json.get("initialized") {
                        Some(j) => j.as_bool(),
                        None => None,
                    };
                    match flag {
                        Some(true) => InitState::Initialized,
                        Some(false) => InitState::Uninitialized,
                        None => InitState::Unexpected("no `initialized` field".to_owned()),
                    }
                },
            }
        },
    }
}

/// What the answer to `GET /auth/v1/me` says.
pub fn observe_identity(reply: HttpReply) -> (r: IdentityState)
    ensures
        match reply {
            HttpReply::Failed(cause) => r == IdentityState::Unexpected(cause),
            HttpReply::Answered { success, code, body, .. } => if !success {
                r == IdentityState::Rejected(code)
            } else {
                match body {
                    Body::Unreadable(cause) => r == IdentityState::Unexpected(cause),
                    Body::Read { json, text } => match report::identity_in(json@) {
                        Some(WhoView::Admin) => r is Admin,
                        Some(WhoView::Worker(name)) => r matches IdentityState::Worker(n) && n@
                            == name,
                        None => r matches IdentityState::Unexpected(what) && what@
                            == "unrecognized body: "@ + text@,
                    },
                }
            },
        },
{
    match reply {
        HttpReply::Failed(cause) => IdentityState::Unexpected(cause),
        HttpReply::Answered { success, code, body, .. } => {
            if !success {
                return IdentityState::Rejected(code);
            }
            match body {
                Body::Unreadable(cause) => IdentityState::Unexpected(cause),
                Body::Read { json, text } => match parse_identity(&json) {
                    Some(state) => state,
                    None => IdentityState::Unexpected(
                        crate::text::cat2("unrecognized body: ", &text),
                    ),
                },
            }
        },
    }
}

/// What the answer to `GET /api/v1/workers` says.
pub fn observe_api(reply: HttpReply) -> (r: ApiAccess)
    ensures
        match reply {
            HttpReply::Failed(cause) => r == ApiAccess::Unexpected(cause),
            HttpReply::Answered { success, code, body, .. } => if !success {
                r == ApiAccess::Denied(code)
            } else {
                match body {
                    Body::Unreadable(cause) => r == ApiAccess::Unexpected(cause),
                    Body::Read { json, text } => match json::get(json@, "items"@) {
                        Some(JsonView::Array(workers)) => r matches ApiAccess::Workers {
                            total,
                            ready,
                        } && total == workers.len() && ready == ready_count(workers),
                        _ => r matches ApiAccess::Unexpected(what) && what@
                            == "unrecognized body: "@ + text@,
                    },
                }
            },
        },
{
    match reply {
        HttpReply::Failed(cause) => ApiAccess::Unexpected(cause),
        HttpReply::Answered { success, code, body, .. } => {
            if !success {
                return ApiAccess::Denied(code);
            }
            match body {
                Body::Unreadable(cause) => ApiAccess::Unexpected(cause),
                Body::Read { json, text } => match count_workers(&json) {
                    Some(n) => ApiAccess::Workers { total: n.0, ready: n.1 },
                    None => ApiAccess::Unexpected(crate::text::cat2("unrecognized body: ", &text)),
                },
            }
        },
    }
}

/// What `container --version` says, the same probe a worker makes at startup.
pub fn observe_runtime(call: CallResult) -> (r: RuntimeState)
    ensures
        match call {
            CallResult::NotFound => r is Absent,
            CallResult::Failed(why) => r == RuntimeState::Broken(why),
            CallResult::Exited { success, status, stdout, .. } => if success {
                r matches RuntimeState::Available(v) && v@ == report::first_line(stdout@)
            } else {
                r matches RuntimeState::Broken(why) && why@ == "exited with "@ + status@
            },
        },
{
    match call {
        CallResult::NotFound => RuntimeState::Absent,
        CallResult::Failed(why) => RuntimeState::Broken(why),
        CallResult::Exited { success, status, stdout, .. } => if success {
            RuntimeState::Available(report::trimmed_first_line(&stdout))
        } else {
            RuntimeState::Broken(text::cat2("exited with ", &status))
        },
    }
}

// ---------------------------------------------------------------------------
// The diagnosis
// ---------------------------------------------------------------------------

/// How the CLI resolved its settings, as `doctor` needs to report them.
#[derive(Debug)]
pub struct Environment<'a> {
    pub server: &'a str,
    pub server_source: Source,
    /// The bearer credential and where it came from, when there is one.
    pub token: Option<(&'a str, Source)>,
}

/// What was seen so far. A probe that was not made yet left nothing.
#[derive(Debug)]
pub struct Observations {
    /// Where the CLI is installed, if that can be told.
    pub exe: Option<String>,
    pub config: ConfigState,
    /// Why no HTTP client could be built, if none could.
    pub client_error: Option<String>,
    pub reach: Option<Reachability>,
    pub init: Option<InitState>,
    pub identity: Option<IdentityState>,
    pub api: Option<ApiAccess>,
    pub runtime: Option<RuntimeState>,
}

/// A probe to make.
#[derive(Debug, Clone, Copy, PartialEq, Eq, Structural)]
pub enum Probe {
    Reachability,
    Init,
    Identity,
    Api,
    Runtime,
}

/// What comes next: a probe, or the report.
#[derive(Debug)]
pub enum Diagnosis {
    Probe(Probe),
    Done(Report),
}

/// The probe to make next, if one is left. A server that does not answer is not asked
/// anything else, no credential is presented where there is none, and one that was
/// rejected is not presented again.
pub open spec fn next_probe(has_token: bool, seen: Observations) -> Option<Probe> {
    if seen.client_error is Some {
        None
    } else if seen.reach is None {
        Some(Probe::Reachability)
    } else if seen.reach->0 is Reachable && seen.init is None {
        Some(Probe::Init)
    } else if seen.reach->0 is Reachable && has_token && seen.identity is None {
        Some(Probe::Identity)
    } else if seen.reach->0 is Reachable && has_token && !(seen.identity->0 is Rejected)
        && seen.api is None {
        Some(Probe::Api)
    } else if seen.runtime is None {
        Some(Probe::Runtime)
    } else {
        None
    }
}

/// The checks that need no server.
pub open spec fn local_checks(
    env: Environment,
    version: Seq<char>,
    seen: Observations,
) -> Seq<CheckView> {
    seq![
        cli_check(version, seen.exe.deep_view()),
        config_check(seen.config),
        server_check(env.server@, env.server_source),
        credential_check(
            match env.token {
                Some(t) => Some(t.1),
                None => None,
            },
        ),
    ]
}

/// The checks that need a server that answers: made, or skipped with the reason.
pub open spec fn server_checks(env: Environment, seen: Observations) -> Seq<CheckView> {
    if !(seen.reach->0 is Reachable) {
        seq![
            report::skipped("initialized"@, "server unreachable"@),
            report::skipped("identity"@, "server unreachable"@),
            report::skipped("api access"@, "server unreachable"@),
        ]
    } else if env.token is None {
        seq![
            initialized_check(env.server@, seen.init->0),
            report::skipped("identity"@, "no credential to check"@),
            report::skipped("api access"@, "no credential to check"@),
        ]
    } else {
        seq![
            initialized_check(env.server@, seen.init->0),
            identity_check(seen.identity->0),
            if seen.identity->0 is Rejected {
                report::skipped("api access"@, "the credential was rejected"@)
            } else {
                api_check(seen.api->0)
            },
        ]
    }
}

/// All checks, once no probe is left to make.
pub open spec fn all_checks(env: Environment, version: Seq<char>, seen: Observations) -> Seq<
    CheckView,
> {
    match seen.client_error {
        Some(e) => local_checks(env, version, seen).push(
            report::failed(
                "reachable"@,
                "could not build an HTTP client: "@ + e@,
                "this is a bug — please report it"@,
            ),
        ),
        None => local_checks(env, version, seen).push(
            reachable_check(env.server@, seen.reach->0),
        ) + server_checks(env, seen).push(runtime_check(seen.runtime->0)),
    }
}

/// Decides what comes next: the probe to make, or, once all are made, the report.
///
/// Checks that depend on an earlier one are skipped rather than guessed: an
/// unreachable server skips the three checks that would have to talk to it, a
/// missing credential skips the two that would have to present one, and a
/// rejected credential skips the API check that would only repeat its 401.
pub fn diagnose(env: &Environment, version: &str, seen: &Observations) -> (r: Diagnosis)
    ensures
        match next_probe(env.token is Some, *seen) {
            Some(p) => r == Diagnosis::Probe(p),
            None => r matches Diagnosis::Done(report) && report.checks.deep_view() == all_checks(
                *env,
                version@,
                *seen,
            ),
        },
{
    let ghost want = all_checks(*env, version@, *seen);
    let exe: Option<&str> = match &seen.exe {
        Some(p) => Some(p.as_str()),
        None => None,
    };
    let source = match env.token {
        Some(t) => Some(t.1),
        None => None,
    };
    let mut checks = vec![
        check_cli(version, exe),
        check_config(&seen.config),
        check_server(env.server, env.server_source),
        check_credential(source),
    ];
    assert(checks.deep_view() =~= local_checks(*env, version@, *seen));
    if let Some(e) = &seen.client_error {
        checks.push(
            Check::fail(
                "reachable",
                &text::cat2("could not build an HTTP client: ", e),
                "this is a bug — please report it",
            ),
        );
        assert(checks.deep_view() =~= want);
        return Diagnosis::Done(Report { checks });
    }
    let reach = match &seen.reach {
        Some(r) => r,
        None => {
            return Diagnosis::Probe(Probe::Reachability);
        },
    };
    checks.push(check_reachable(env.server, reach));
    match (reach, env.token.is_some()) {
        (Reachability::Reachable, has_token) => {
            match &seen.init {
                Some(state) => {
                    checks.push(check_initialized(env.server, state));
                },
                None => {
                    return Diagnosis::Probe(Probe::Init);
                },
            }
            if has_token {
                let identity = match &seen.identity {
                    Some(state) => state,
                    None => {
                        return Diagnosis::Probe(Probe::Identity);
                    },
                };
                checks.push(check_identity(identity));
                match identity {
                    IdentityState::Rejected(_) => {
                        checks.push(Check::skip("api access", "the credential was rejected"));
                    },
                    _ => match &seen.api {
                        Some(access) => {
                            checks.push(check_api(access));
                        },
                        None => {
                            return Diagnosis::Probe(Probe::Api);
                        },
                    },
                }
            } else {
                checks.push(Check::skip("identity", "no credential to check"));
                checks.push(Check::skip("api access", "no credential to check"));
            }
        },
        _ => {
            checks.push(Check::skip("initialized", "server unreachable"));
            checks.push(Check::skip("identity", "server unreachable"));
            checks.push(Check::skip("api access", "server unreachable"));
        },
    }
    match &seen.runtime {
        Some(state) => {
            checks.push(check_runtime(state));
        },
        None => {
            return Diagnosis::Probe(Probe::Runtime);
        },
    }
    assert(checks.deep_view() =~= want);
    Diagnosis::Done(Report { checks })
}

// ---------------------------------------------------------------------------
// What holds of every diagnosis
// ---------------------------------------------------------------------------

/// The names of the checks of a full report, in order.
pub open spec fn check_names() -> Seq<Seq<char>> {
    seq![
        "velosctl"@,
        "config file"@,
        "server url"@,
        "credential"@,
        "reachable"@,
        "initialized"@,
        "identity"@,
        "api access"@,
        "runtime"@,
    ]
}

/// A report names every check, in one order, whatever was seen: a check that could not be
/// made is skipped, never dropped.
pub proof fn law_no_check_is_dropped(env: Environment, version: Seq<char>, seen: Observations)
    requires
        seen.client_error is None,
    ensures
        all_checks(env, version, seen).len() == check_names().len(),
        forall|i: int|
            0 <= i < check_names().len() ==> (#[trigger] all_checks(env, version, seen)[i]).name
                == check_names()[i],
{
}

/// Every check that warns or fails says how to fix it, and no other check does.
pub proof fn law_problems_come_with_a_fix(
    env: Environment,
    version: Seq<char>,
    seen: Observations,
    i: int,
)
    requires
        0 <= i < all_checks(env, version, seen).len(),
    ensures
        all_checks(env, version, seen)[i].hint is Some <==> all_checks(env, version, seen)[i].status
            == Status::Warn || all_checks(env, version, seen)[i].status == Status::Fail,
{
}

/// A server that does not answer is not asked anything else, and the three checks that
/// would have to ask it are skipped.
pub proof fn law_unreachable_server_skips(
    env: Environment,
    version: Seq<char>,
    seen: Observations,
)
    requires
        seen.client_error is None,
        seen.reach matches Some(r) && !(r is Reachable),
    ensures
        next_probe(env.token is Some, seen) matches Some(p) ==> p == Probe::Runtime,
        all_checks(env, version, seen)[5] == report::skipped("initialized"@, "server unreachable"@),
        all_checks(env, version, seen)[6] == report::skipped("identity"@, "server unreachable"@),
        all_checks(env, version, seen)[7] == report::skipped("api access"@, "server unreachable"@),
        report::any_failed(all_checks(env, version, seen)),
{
    let checks = all_checks(env, version, seen);
    assert(checks[4] == reachable_check(env.server@, seen.reach->0));
    assert(checks[4].status == Status::Fail);
}

/// Without a credential none is presented, and the two checks that would have to are
/// skipped; a rejected one is not presented a second time.
pub proof fn law_credential_is_presented_once(
    env: Environment,
    version: Seq<char>,
    seen: Observations,
)
    requires
        seen.client_error is None,
        seen.reach matches Some(r) && r is Reachable,
    ensures
        env.token is None ==> {
            &&& next_probe(false, seen) != Some(Probe::Identity)
            &&& next_probe(false, seen) != Some(Probe::Api)
            &&& all_checks(env, version, seen)[6] == report::skipped(
                "identity"@,
                "no credential to check"@,
            )
            &&& all_checks(env, version, seen)[7] == report::skipped(
                "api access"@,
                "no credential to check"@,
            )
        },
        env.token is Some && (seen.identity matches Some(i) && i is Rejected) ==> {
            &&& next_probe(true, seen) != Some(Probe::Api)
            &&& all_checks(env, version, seen)[6].status == Status::Fail
            &&& all_checks(env, version, seen)[7] == report::skipped(
                "api access"@,
                "the credential was rejected"@,
            )
        },
{
}

/// A probe is asked for only where it was not made yet, so the diagnosis ends.
pub proof fn law_no_probe_is_made_twice(has_token: bool, seen: Observations)
    ensures
        match next_probe(has_token, seen) {
            Some(Probe::Reachability) => seen.reach is None,
            Some(Probe::Init) => seen.init is None,
            Some(Probe::Identity) => seen.identity is None,
            Some(Probe::Api) => seen.api is None,
            Some(Probe::Runtime) => seen.runtime is None,
            None => true,
        },
        seen.reach is Some && seen.init is Some && seen.identity is Some && seen.api is Some
            && seen.runtime is Some ==> next_probe(has_token, seen) is None,
{
}

/// A missing container runtime never makes the report fail: only worker hosts need it.
pub proof fn law_runtime_never_fails(state: RuntimeState)
    ensures
        runtime_check(state).status != Status::Fail,
{
}

/// A worker is Ready exactly where one of its conditions is named `Ready` and is true.
pub proof fn law_ready_is_a_true_condition(worker: JsonView)
    ensures
        ready(worker) <==> (json::get(worker, "status"@) matches Some(status) && (json::get(
            status,
            "conditions"@,
        ) matches Some(JsonView::Array(conditions)) && exists|i: int|
            0 <= i < conditions.len() && json::get(#[trigger] conditions[i], "conditionType"@)
                == Some(JsonView::Text("Ready"@)) && json::get(conditions[i], "status"@) == Some(
                JsonView::Bool(true),
            ))),
{
    let path = seq!["status"@, "conditions"@];
    assert(path.skip(1) =~= seq!["conditions"@]);
    assert(seq!["conditions"@].skip(1) =~= Seq::<Seq<char>>::empty());
    reveal_with_fuel(json::at, 3);
    match json::at(worker, path) {
        Some(JsonView::Array(conditions)) => {
            if ready(worker) {
                let i = choose|i: int|
                    0 <= i < conditions.len() && says_ready(#[trigger] conditions[i]);
                assert(json::get(conditions[i], "conditionType"@) == Some(
                    JsonView::Text("Ready"@),
                ));
            }
            if exists|i: int|
                0 <= i < conditions.len() && json::get(#[trigger] conditions[i], "conditionType"@)
                    == Some(JsonView::Text("Ready"@)) && json::get(conditions[i], "status"@)
                    == Some(JsonView::Bool(true)) {
                let i = choose|i: int|
                    0 <= i < conditions.len() && json::get(
                        #[trigger] conditions[i],
                        "conditionType"@,
                    ) == Some(JsonView::Text("Ready"@)) && json::get(conditions[i], "status"@)
                        == Some(JsonView::Bool(true));
                assert(says_ready(conditions[i]));
            }
        },
        _ => {},
    }
}

/// The number of Ready workers is how many of the list are Ready: it adds up over lists, is
/// that of the whole list exactly where every worker is Ready, and none where none is.
pub proof fn law_every_ready_worker_is_counted(a: Seq<JsonView>, b: Seq<JsonView>)
    ensures
        ready_count(a) == a.filter(|w: JsonView| ready(w)).len(),
        ready_count(a + b) == ready_count(a) + ready_count(b),
        ready_count(a) == a.len() <==> forall|i: int|
            0 <= i < a.len() ==> ready(#[trigger] a[i]),
        ready_count(a) == 0 <==> forall|i: int| 0 <= i < a.len() ==> !ready(#[trigger] a[i]),
{
    lemma_ready_filtered(a);
    lemma_ready_sum(a, b);
    lemma_ready_bounds(a);
}

proof fn lemma_ready_filtered(a: Seq<JsonView>)
    ensures
        ready_count(a) == a.filter(|w: JsonView| ready(w)).len(),
    decreases a.len(),
{
    reveal(Seq::filter);
    if a.len() > 0 {
        lemma_ready_filtered(a.drop_last());
    }
}

proof fn lemma_ready_sum(a: Seq<JsonView>, b: Seq<JsonView>)
    ensures
        ready_count(a + b) == ready_count(a) + ready_count(b),
    decreases b.len(),
{
    if b.len() == 0 {
        assert(a + b =~= a);
    } else {
        lemma_ready_sum(a, b.drop_last());
        assert((a + b).drop_last() =~= a + b.drop_last());
        assert((a + b).last() == b.last());
    }
}

proof fn lemma_ready_bounds(a: Seq<JsonView>)
    ensures
        ready_count(a) <= a.len(),
        ready_count(a) == a.len() <==> forall|i: int|
            0 <= i < a.len() ==> ready(#[trigger] a[i]),
        ready_count(a) == 0 <==> forall|i: int| 0 <= i < a.len() ==> !ready(#[trigger] a[i]),
    decreases a.len(),
{
    if a.len() > 0 {
        let init = a.drop_last();
        lemma_ready_bounds(init);
        assert forall|i: int| 0 <= i < a.len() - 1 implies #[trigger] a[i] == init[i] by {}
        assert forall|i: int| 0 <= i < init.len() implies #[trigger] init[i] == a[i] by {}
        assert(a[a.len() - 1] == a.last());
    }
}

/// The first layer that supplies a setting wins: the flag over the environment, and that over
/// the config file.
pub proof fn law_first_layer_wins(
    flag: Option<Seq<char>>,
    env: Option<Seq<char>>,
    config: Option<Seq<char>>,
    v: Seq<char>,
)
    ensures
        first_supplied(flag, env, config) == Some((v, Source::Flag)) <==> flag == Some(v),
        first_supplied(flag, env, config) == Some((v, Source::Env)) <==> flag is None && env
            == Some(v),
        first_supplied(flag, env, config) == Some((v, Source::Config)) <==> flag is None
            && env is None && config == Some(v),
        first_supplied(flag, env, config) is None <==> flag is None && env is None
            && config is None,
        first_supplied(flag, env, config) != Some((v, Source::Default)),
{
}

/// The layers have different names.
pub proof fn law_layers_are_told_apart(a: Source, b: Source)
    ensures
        source_text(a) == source_text(b) ==> a == b,
{
    reveal_strlit("flag");
    reveal_strlit("environment");
    reveal_strlit("config file");
    reveal_strlit("built-in default");
    assert("flag"@.len() == 4 && "environment"@.len() == 11 && "config file"@.len() == 11
        && "built-in default"@.len() == 16);
    assert("environment"@[0] == 'e' && "config file"@[0] == 'c');
}

/// A config file passes exactly where it was read and no one but its owner may touch it: it
/// holds a credential, so a mode with one of its last six bits set warns. One that is
/// missing warns, and one that cannot be used fails.
pub proof fn law_config_verdicts(state: ConfigState)
    ensures
        match state {
            ConfigState::NoHome => config_check(state).status == Status::Fail,
            ConfigState::Missing(path) => config_check(state).status == Status::Warn
                && text::contains(config_check(state).detail, path@),
            ConfigState::Unusable { path, error } => config_check(state).status == Status::Fail
                && text::contains(config_check(state).detail, path@) && text::contains(
                config_check(state).detail,
                error@,
            ),
            ConfigState::Present { path, mode } => {
                &&& text::contains(config_check(state).detail, path@)
                &&& config_check(state).status == (if mode matches Some(m) && m % 64 != 0 {
                    Status::Warn
                } else {
                    Status::Pass
                })
                &&& mode matches Some(m) ==> text::contains(
                    config_check(state).detail,
                    mode_text(m),
                )
            },
        },
{
    let shown = config_check(state).detail;
    let none = Seq::<char>::empty();
    match state {
        ConfigState::NoHome => {},
        ConfigState::Missing(path) => {
            assert(shown =~= none + path@ + " not written yet"@);
            text::law_parts_of_a_string(none, path@, " not written yet"@);
        },
        ConfigState::Unusable { path, error } => {
            assert(shown =~= none + path@ + (" is unusable: "@ + error@));
            text::law_parts_of_a_string(none, path@, " is unusable: "@ + error@);
            assert(shown =~= path@ + " is unusable: "@ + error@ + none);
            text::law_parts_of_a_string(path@ + " is unusable: "@, error@, none);
        },
        ConfigState::Present { path, mode } => {
            match mode {
                Some(m) => {
                    assert((m & 0o077 != 0) == (m % 64 != 0)) by (bit_vector);
                    let lead = if m % 64 != 0 {
                        " is mode "@
                    } else {
                        " (mode "@
                    };
                    let tail = if m % 64 != 0 {
                        " — readable by other users"@
                    } else {
                        ")"@
                    };
                    assert(shown =~= none + path@ + (lead + mode_text(m) + tail));
                    text::law_parts_of_a_string(none, path@, lead + mode_text(m) + tail);
                    assert(shown =~= path@ + lead + mode_text(m) + tail);
                    text::law_parts_of_a_string(path@ + lead, mode_text(m), tail);
                },
                None => {
                    assert(shown =~= none + path@ + none);
                    text::law_parts_of_a_string(none, path@, none);
                },
            }
        },
    }
}

/// A credential that is there passes, and a missing one fails; a server that answers passes,
/// and any other fails; a server that was set up passes, and any other fails.
pub proof fn law_server_verdicts(
    source: Option<Source>,
    server: Seq<char>,
    reach: Reachability,
    init: InitState,
)
    ensures
        credential_check(source).status == (if source is Some {
            Status::Pass
        } else {
            Status::Fail
        }),
        reachable_check(server, reach).status == (if reach is Reachable {
            Status::Pass
        } else {
            Status::Fail
        }),
        text::starts_with(reachable_check(server, reach).detail, server),
        reach matches Reachability::Unreachable(why) ==> text::ends_with(
            reachable_check(server, reach).detail,
            why@,
        ),
        initialized_check(server, init).status == (if init is Initialized {
            Status::Pass
        } else {
            Status::Fail
        }),
        init is Uninitialized ==> text::contains(initialized_check(server, init).hint->0, server),
        init matches InitState::Unexpected(what) ==> text::ends_with(
            initialized_check(server, init).detail,
            what@,
        ),
{
    let none = Seq::<char>::empty();
    match reach {
        Reachability::Reachable => {
            text::law_parts_of_a_string(none, server, " answered /healthz"@);
        },
        Reachability::NoTlsSupport => {
            text::law_parts_of_a_string(
                none,
                server,
                " is https, and this velosctl was built without TLS support"@,
            );
        },
        Reachability::Unreachable(why) => {
            assert(server + ": "@ + why@ =~= server + (": "@ + why@));
            text::law_parts_of_a_string(none, server, ": "@ + why@);
            text::law_parts_of_a_string(server + ": "@, why@, none);
        },
    }
    match init {
        InitState::Initialized => {},
        InitState::Uninitialized => {
            text::law_parts_of_a_string("open "@, server, " and create the admin account"@);
        },
        InitState::Unexpected(what) => {
            text::law_parts_of_a_string("could not read the setup state: "@, what@, none);
        },
    }
}

/// An admin's credential passes, a worker's warns and names it, and any other answer fails and
/// says what came back.
pub proof fn law_identity_verdicts(state: IdentityState)
    ensures
        match state {
            IdentityState::Admin => identity_check(state).status == Status::Pass,
            IdentityState::Worker(name) => identity_check(state).status == Status::Warn
                && text::contains(identity_check(state).detail, name@),
            IdentityState::Rejected(code) => identity_check(state).status == Status::Fail
                && text::contains(identity_check(state).detail, text::decimal(code as nat)),
            IdentityState::Unexpected(what) => identity_check(state).status == Status::Fail
                && text::ends_with(identity_check(state).detail, what@),
        },
{
    match state {
        IdentityState::Admin => {},
        IdentityState::Worker(name) => {
            text::law_parts_of_a_string(
                "worker '"@,
                name@,
                "' — a worker credential, not an admin one"@,
            );
        },
        IdentityState::Rejected(code) => {
            text::law_parts_of_a_string(
                "the server rejected this credential (HTTP "@,
                text::decimal(code as nat),
                ")"@,
            );
        },
        IdentityState::Unexpected(what) => {
            text::law_parts_of_a_string(
                "unexpected reply from /auth/v1/me: "@,
                what@,
                Seq::empty(),
            );
        },
    }
}

/// API access passes exactly where at least one worker is registered and at least one is Ready,
/// and says how many of how many are. Where none is it warns, and where the list was refused
/// or is not one it fails.
pub proof fn law_api_verdicts(access: ApiAccess)
    ensures
        match access {
            ApiAccess::Workers { total, ready } => {
                &&& api_check(access).status == (if total > 0 && ready > 0 {
                    Status::Pass
                } else {
                    Status::Warn
                })
                &&& total > 0 ==> text::contains(
                    api_check(access).detail,
                    report::counted(total as nat, "worker"@),
                )
                &&& total > 0 && ready > 0 ==> text::starts_with(
                    api_check(access).detail,
                    text::decimal(ready as nat) + " of "@,
                )
            },
            ApiAccess::Denied(code) => api_check(access).status == Status::Fail
                && text::ends_with(api_check(access).detail, text::decimal(code as nat)),
            ApiAccess::Unexpected(what) => api_check(access).status == Status::Fail
                && text::ends_with(api_check(access).detail, what@),
        },
{
    let none = Seq::<char>::empty();
    match access {
        ApiAccess::Workers { total, ready } => {
            if total > 0 {
                let all = report::counted(total as nat, "worker"@);
                if ready == 0 {
                    text::law_parts_of_a_string("none of "@, all, " Ready"@);
                } else {
                    let lead = text::decimal(ready as nat) + " of "@;
                    text::law_parts_of_a_string(lead, all, " Ready"@);
                    text::law_parts_of_a_string(none, lead, all + " Ready"@);
                    assert(lead + (all + " Ready"@) =~= lead + all + " Ready"@);
                }
            }
        },
        ApiAccess::Denied(code) => {
            text::law_parts_of_a_string(
                "/api/v1/workers returned HTTP "@,
                text::decimal(code as nat),
                none,
            );
        },
        ApiAccess::Unexpected(what) => {
            text::law_parts_of_a_string(
                "unexpected reply from /api/v1/workers: "@,
                what@,
                none,
            );
        },
    }
}

/// A runtime that answers passes with its version; one that is absent, or does not run, warns.
pub proof fn law_runtime_verdicts(state: RuntimeState)
    ensures
        match state {
            RuntimeState::Available(version) => runtime_check(state).status == Status::Pass
                && runtime_check(state).detail == version@,
            RuntimeState::Absent => runtime_check(state).status == Status::Warn,
            RuntimeState::Broken(why) => runtime_check(state).status == Status::Warn
                && text::ends_with(runtime_check(state).detail, why@),
        },
{
    if let RuntimeState::Broken(why) = state {
        text::law_parts_of_a_string("`"@ + RUNTIME_BIN@ + "` failed: "@, why@, Seq::empty());
    }
}

/// The CLI's check shows its version and where it is installed, and the server's shows the URL
/// and the layer it is from; both pass.
pub proof fn law_settings_are_shown(
    version: Seq<char>,
    path: Option<Seq<char>>,
    server: Seq<char>,
    source: Source,
)
    ensures
        cli_check(version, path).status == Status::Pass,
        text::starts_with(cli_check(version, path).detail, "v"@ + version),
        path matches Some(p) ==> text::contains(cli_check(version, path).detail, p),
        server_check(server, source).status == Status::Pass,
        text::starts_with(server_check(server, source).detail, server),
        text::contains(server_check(server, source).detail, source_text(source)),
        text::contains(credential_check(Some(source)).detail, source_text(source)),
{
    let none = Seq::<char>::empty();
    match path {
        Some(p) => {
            let lead = "v"@ + version;
            assert(lead + " ("@ + p + ")"@ =~= lead + (" ("@ + p + ")"@));
            text::law_parts_of_a_string(none, lead, " ("@ + p + ")"@);
            text::law_parts_of_a_string(lead + " ("@, p, ")"@);
        },
        None => {
            text::law_parts_of_a_string(none, "v"@ + version, none);
            assert("v"@ + version + none =~= "v"@ + version);
        },
    }
    let name = source_text(source);
    assert(server + " (from "@ + name + ")"@ =~= server + (" (from "@ + name + ")"@));
    text::law_parts_of_a_string(none, server, " (from "@ + name + ")"@);
    text::law_parts_of_a_string(server + " (from "@, name, ")"@);
    text::law_parts_of_a_string("present (from "@, name, ")"@);
}

/// Each probe is asked for exactly where it can be made, was not made, and every one before it
/// that can be made was.
pub proof fn law_probes_are_made_in_order(has_token: bool, seen: Observations)
    ensures
        ({
            let client = seen.client_error is None;
            let answers = seen.reach matches Some(r) && r is Reachable;
            let accepted = has_token && seen.identity is Some && !(seen.identity->0 is Rejected);
            let next = next_probe(has_token, seen);
            &&& next == Some(Probe::Reachability) <==> client && seen.reach is None
            &&& next == Some(Probe::Init) <==> client && answers && seen.init is None
            &&& next == Some(Probe::Identity) <==> client && answers && seen.init is Some
                && has_token && seen.identity is None
            &&& next == Some(Probe::Api) <==> client && answers && seen.init is Some && accepted
                && seen.api is None
            &&& next == Some(Probe::Runtime) <==> client && seen.reach is Some && (answers
                ==> seen.init is Some && (has_token ==> seen.identity is Some && (accepted
                ==> seen.api is Some))) && seen.runtime is None
            &&& !client ==> next is None
        }),
{
}

/// Once no probe is left, each check is that of what its probe saw.
pub proof fn law_checks_are_of_what_was_seen(
    env: Environment,
    version: Seq<char>,
    seen: Observations,
)
    ensures
        ({
            let checks = all_checks(env, version, seen);
            &&& checks[0] == cli_check(version, seen.exe.deep_view())
            &&& checks[1] == config_check(seen.config)
            &&& checks[2] == server_check(env.server@, env.server_source)
            &&& checks[3].status == (if env.token is Some {
                Status::Pass
            } else {
                Status::Fail
            })
            &&& seen.client_error matches Some(e) ==> checks.len() == 5 && checks[4].name
                == "reachable"@ && checks[4].status == Status::Fail && text::ends_with(
                checks[4].detail,
                e@,
            )
            &&& seen.client_error is None ==> {
                &&& checks[4] == reachable_check(env.server@, seen.reach->0)
                &&& checks[8] == runtime_check(seen.runtime->0)
                &&& seen.reach->0 is Reachable ==> checks[5] == initialized_check(
                    env.server@,
                    seen.init->0,
                )
                &&& seen.reach->0 is Reachable && env.token is Some ==> checks[6]
                    == identity_check(seen.identity->0)
                &&& seen.reach->0 is Reachable && env.token is Some && !(
                seen.identity->0 is Rejected) ==> checks[7] == api_check(seen.api->0)
            }
        }),
{
    if let Some(e) = seen.client_error {
        text::law_parts_of_a_string("could not build an HTTP client: "@, e@, Seq::empty());
    }
}

/// A mode is shown in octal, with zeros in front where it has fewer than four digits.
pub proof fn law_modes_have_four_digits(mode: u32, i: int)
    ensures
        mode_text(mode).len() == (if text::octal(mode as nat).len() < 4 {
            4
        } else {
            text::octal(mode as nat).len()
        }),
        text::ends_with(mode_text(mode), text::octal(mode as nat)),
        0 <= i < mode_text(mode).len() - text::octal(mode as nat).len() ==> mode_text(mode)[i]
            == '0',
{
    let digits = text::octal(mode as nat);
    let shown = mode_text(mode);
    text::law_padding_fills_up(digits, 4, i);
    let n = shown.len() - digits.len();
    assert(shown =~= shown.take(n) + digits);
    text::law_parts_of_a_string(shown.take(n), digits, Seq::empty());
}

} // verus!
