//! Locating and editing `~/.velos/veloslet.json`.
//!
//! The config is the worker's whole identity: where its control plane is, what
//! it advertises, and, once `veloslet setup` has joined, the credential it
//! speaks with.
//!
//! Fields are addressed by a closed [`Field`] enum rather than by string key.
//! A typo is then a parse error naming the valid fields, not a silently written
//! entry that only explodes later when `run` reads the file.
use vstd::prelude::*;

use crate::daemon;
use crate::daemon::{Bearer, JoinError, WorkerConfig};
use crate::host;
use crate::host::{CapacityError, HostResources};
use crate::memory;
use crate::memory::Memory;
use crate::text;

verus! {

/// What `config show` prints in place of the credential. Deliberately not a
/// fixed-width mask: the length of a secret is itself information.
pub const REDACTED: &'static str = "<set — hidden>";

/// The config path used when `--config` is not given: below the home directory.
pub fn default_path(home: &str) -> (r: String)
    ensures
        r@ == daemon::below(daemon::below(home@, ".velos"@), "veloslet.json"@),
{
    daemon::path_below(&daemon::path_below(home, ".velos"), "veloslet.json")
}

/// What to say when there is no config at `path` yet, the state every new machine
/// starts in.
pub fn missing_config(path: &str) -> (r: String)
    ensures
        r@ == "no worker config at "@ + path@
            + " — run `veloslet setup --server <url> --node <name> --token <token> --cpu <n> --memory <size>` first"@,
{
    text::cat3(
        "no worker config at ",
        path,
        " — run `veloslet setup --server <url> --node <name> --token <token> --cpu <n> --memory <size>` first",
    )
}

// ---------------------------------------------------------------------------
// Reading fields
// ---------------------------------------------------------------------------

/// A settable/readable config field.
///
/// The credential is absent by design: it is *earned* by `veloslet setup`, not
/// declared. Allowing it to be typed in would make a worker identity forgeable
/// by hand and put a secret in the shell history and the process table.
#[derive(Debug, Clone, Copy, PartialEq, Eq, Structural)]
pub enum Field {
    Server,
    Node,
    Cpu,
    Memory,
    ReconcileSecs,
    HeartbeatSecs,
    LeaseSecs,
}

/// A field's value as text.
pub open spec fn field_text(field: Field, cfg: WorkerConfig) -> Seq<char> {
    match field {
        Field::Server => cfg.server@,
        Field::Node => cfg.node@,
        Field::Cpu => text::decimal(cfg.cpu as nat),
        Field::Memory => memory::size_text(cfg.memory@),
        Field::ReconcileSecs => text::decimal(cfg.reconcile_secs as nat),
        Field::HeartbeatSecs => text::decimal(cfg.heartbeat_secs as nat),
        Field::LeaseSecs => text::decimal(cfg.lease_secs as nat),
    }
}

impl Field {
    /// The field's current value, rendered the same way it is stored.
    pub fn read(self, cfg: &WorkerConfig) -> (r: String)
        ensures
            r@ == field_text(self, *cfg),
    {
        match self {
            Field::Server => cfg.server.clone(),
            Field::Node => cfg.node.clone(),
            Field::Cpu => text::decimal_text(cfg.cpu as u64),
            Field::Memory => cfg.memory.render(),
            Field::ReconcileSecs => text::decimal_text(cfg.reconcile_secs),
            Field::HeartbeatSecs => text::decimal_text(cfg.heartbeat_secs),
            Field::LeaseSecs => text::decimal_text(cfg.lease_secs as u64),
        }
    }
}

// ---------------------------------------------------------------------------
// Editing
// ---------------------------------------------------------------------------

/// The edits `config set` applies. Every field is optional; applying none at all
/// is rejected rather than silently rewriting the file unchanged.
#[derive(Debug)]
pub struct Edits {
    /// Server base URL, e.g. http://192.168.68.60:8088
    pub server: Option<String>,
    /// This worker's name.
    pub node: Option<String>,
    /// Advertised CPU cores.
    pub cpu: Option<u32>,
    /// Advertised memory, e.g. 8G.
    pub memory: Option<Memory>,
    /// Reconcile interval in seconds.
    pub reconcile_secs: Option<u64>,
    /// Heartbeat (lease renew) interval in seconds.
    pub heartbeat_secs: Option<u64>,
    /// Lease duration in seconds.
    pub lease_secs: Option<u32>,
}

/// No edits.
pub open spec fn no_edits() -> Edits {
    Edits {
        server: None,
        node: None,
        cpu: None,
        memory: None,
        reconcile_secs: None,
        heartbeat_secs: None,
        lease_secs: None,
    }
}

impl Default for Edits {
    fn default() -> (r: Edits)
        ensures
            r == no_edits(),
    {
        Edits {
            server: None,
            node: None,
            cpu: None,
            memory: None,
            reconcile_secs: None,
            heartbeat_secs: None,
            lease_secs: None,
        }
    }
}

impl Clone for Edits {
    fn clone(&self) -> (r: Edits)
        ensures
            r == *self,
    {
        Edits {
            server: match &self.server {
                Some(s) => Some(s.clone()),
                None => None,
            },
            node: match &self.node {
                Some(s) => Some(s.clone()),
                None => None,
            },
            cpu: self.cpu,
            memory: self.memory,
            reconcile_secs: self.reconcile_secs,
            heartbeat_secs: self.heartbeat_secs,
            lease_secs: self.lease_secs,
        }
    }
}

/// The value an edit sets, or the one that was there.
pub open spec fn or<T>(edit: Option<T>, current: T) -> T {
    match edit {
        Some(v) => v,
        None => current,
    }
}

/// A config with the edits in place; the secrets are none of their business.
pub open spec fn edited(e: Edits, cfg: WorkerConfig) -> WorkerConfig {
    WorkerConfig {
        server: or(e.server, cfg.server),
        node: or(e.node, cfg.node),
        cpu: or(e.cpu, cfg.cpu),
        memory: or(e.memory, cfg.memory),
        reconcile_secs: or(e.reconcile_secs, cfg.reconcile_secs),
        heartbeat_secs: or(e.heartbeat_secs, cfg.heartbeat_secs),
        lease_secs: or(e.lease_secs, cfg.lease_secs),
        ..cfg
    }
}

/// Whether the edits would rename a worker that has joined.
pub open spec fn renames_joined(e: Edits, cfg: WorkerConfig) -> bool {
    cfg.credential is Some && (e.node matches Some(n) && n@ != cfg.node@)
}

/// A name, where it is set.
pub open spec fn if_set(set: bool, name: Seq<char>) -> Seq<Seq<char>> {
    if set {
        seq![name]
    } else {
        Seq::empty()
    }
}

/// The names of the fields that edits set, in order.
pub open spec fn touched_names(e: Edits) -> Seq<Seq<char>> {
    if_set(e.server is Some, "server"@) + if_set(e.node is Some, "node"@) + if_set(
        e.cpu is Some,
        "cpu"@,
    ) + if_set(e.memory is Some, "memory"@) + if_set(e.reconcile_secs is Some, "reconcile-secs"@)
        + if_set(e.heartbeat_secs is Some, "heartbeat-secs"@) + if_set(
        e.lease_secs is Some,
        "lease-secs"@,
    )
}

/// A rename that is refused: the worker joined under one name, and another was asked for.
#[derive(Debug, PartialEq, Eq)]
pub struct RenameRefused {
    pub joined: String,
    pub wanted: String,
}

/// The text of a refused rename.
pub open spec fn rename_refused_text(e: RenameRefused) -> Seq<char> {
    "this worker joined as "@ + text::debug_text(e.joined@)
        + ", and its credential is bound to that name — renaming it here would leave it unable to authenticate. Run `veloslet setup --node "@
        + e.wanted@ + (" --token <new token> ...` to join again as "@ + text::debug_text(e.wanted@))
}

impl RenameRefused {
    /// The text of the error.
    pub fn message(&self) -> (r: String)
        ensures
            r@ == rename_refused_text(*self),
    {
        let again = text::cat2(
            " --token <new token> ...` to join again as ",
            &text::quoted(&self.wanted),
        );
        text::cat5(
            "this worker joined as ",
            &text::quoted(&self.joined),
            ", and its credential is bound to that name — renaming it here would leave it unable to authenticate. Run `veloslet setup --node ",
            &self.wanted,
            &again,
        )
    }
}

fn push_if(names: &mut Vec<&'static str>, set: bool, name: &'static str)
    ensures
        final(names).deep_view() == old(names).deep_view() + if_set(set, name@),
{
    let ghost before = names.deep_view();
    if set {
        names.push(name);
        assert(names.deep_view() =~= before + seq![name@]);
    } else {
        assert(names.deep_view() =~= before + Seq::<Seq<char>>::empty());
    }
}

impl Edits {
    /// Whether no field was supplied.
    pub fn is_empty(&self) -> (r: bool)
        ensures
            r == (*self == no_edits()),
    {
        self.server.is_none() && self.node.is_none() && self.cpu.is_none() && self.memory.is_none()
            && self.reconcile_secs.is_none() && self.heartbeat_secs.is_none()
            && self.lease_secs.is_none()
    }

    /// The fields this would change, for the "set X, Y" confirmation line.
    pub fn touched(&self) -> (r: Vec<&'static str>)
        ensures
            r.deep_view() == touched_names(*self),
    {
        let mut names: Vec<&'static str> = Vec::new();
        push_if(&mut names, self.server.is_some(), "server");
        push_if(&mut names, self.node.is_some(), "node");
        push_if(&mut names, self.cpu.is_some(), "cpu");
        push_if(&mut names, self.memory.is_some(), "memory");
        push_if(&mut names, self.reconcile_secs.is_some(), "reconcile-secs");
        push_if(&mut names, self.heartbeat_secs.is_some(), "heartbeat-secs");
        push_if(&mut names, self.lease_secs.is_some(), "lease-secs");
        assert(names.deep_view() =~= touched_names(*self));
        names
    }

    /// Apply these edits to a config.
    ///
    /// Renaming a joined worker is refused: the credential is bound to the name
    /// the server issued it for, so a rename would leave the worker
    /// authenticating as a node that no longer matches its config. Fail closed and
    /// say to re-join.
    pub fn apply(self, cfg: &WorkerConfig) -> (r: Result<WorkerConfig, RenameRefused>)
        ensures
            match r {
                Ok(next) => !renames_joined(self, *cfg) && next == edited(self, *cfg),
                Err(e) => renames_joined(self, *cfg) && e.joined == cfg.node && Some(e.wanted)
                    == self.node,
            },
    {
        if let Some(node) = &self.node {
            if cfg.is_connected() && *node != cfg.node {
                return Err(RenameRefused { joined: cfg.node.clone(), wanted: node.clone() });
            }
        }
        Ok(self.over(cfg.clone()))
    }

    /// A config with these edits in place.
    fn over(self, cfg: WorkerConfig) -> (r: WorkerConfig)
        ensures
            r == edited(self, cfg),
    {
        let mut next = cfg;
        if let Some(v) = self.server {
            next.server = v;
        }
        if let Some(v) = self.node {
            next.node = v;
        }
        if let Some(v) = self.cpu {
            next.cpu = v;
        }
        if let Some(v) = self.memory {
            next.memory = v;
        }
        if let Some(v) = self.reconcile_secs {
            next.reconcile_secs = v;
        }
        if let Some(v) = self.heartbeat_secs {
            next.heartbeat_secs = v;
        }
        if let Some(v) = self.lease_secs {
            next.lease_secs = v;
        }
        next
    }
}

/// Why a `config set` is refused.
#[derive(Debug, PartialEq, Eq)]
pub enum SetError {
    Nothing,
    Rename(RenameRefused),
    /// The host could not be measured, for this reason.
    Host(String),
    Capacity(CapacityError),
}

/// The text of a refused `config set`.
pub open spec fn set_error_text(e: SetError) -> Seq<char> {
    match e {
        SetError::Nothing => "nothing to set — pass at least one field, e.g. `--cpu 8` (see --help)"@,
        SetError::Rename(r) => rename_refused_text(r),
        SetError::Host(why) => why@,
        SetError::Capacity(c) => host::capacity_error_text(c),
    }
}

impl SetError {
    /// The text of the error.
    pub fn message(&self) -> (r: String)
        ensures
            r@ == set_error_text(*self),
    {
        match self {
            SetError::Nothing => "nothing to set — pass at least one field, e.g. `--cpu 8` (see --help)".to_owned(),
            SetError::Rename(r) => r.message(),
            SetError::Host(why) => why.clone(),
            SetError::Capacity(c) => c.message(),
        }
    }
}

/// The config that `config set` writes. An edit of nothing is refused, and so is one that
/// renames a joined worker or that leaves a capacity the host does not have. `host` is what
/// was measured, or why it could not be, which counts only once the edit itself is sound.
pub fn set_fields(edits: Edits, cfg: &WorkerConfig, host: Result<HostResources, String>) -> (r:
    Result<WorkerConfig, SetError>)
    ensures
        match r {
            Ok(next) => edits != no_edits() && !renames_joined(edits, *cfg) && next == edited(
                edits,
                *cfg,
            ) && (host matches Ok(h) && host::fits_host(next.cpu, next.memory, h)),
            Err(SetError::Nothing) => edits == no_edits(),
            Err(SetError::Rename(e)) => renames_joined(edits, *cfg) && e.joined == cfg.node && Some(
                e.wanted,
            ) == edits.node,
            Err(SetError::Host(why)) => edits != no_edits() && !renames_joined(edits, *cfg)
                && host == Err::<HostResources, String>(why),
            Err(SetError::Capacity(e)) => edits != no_edits() && !renames_joined(edits, *cfg) && (
            host matches Ok(h) && host::capacity_problem(
                edited(edits, *cfg).cpu,
                edited(edits, *cfg).memory,
                h,
            ) == Some(host::capacity_error_text(e))),
        },
{
    if edits.is_empty() {
        return Err(SetError::Nothing);
    }
    match edits.apply(cfg) {
        Ok(next) => match host {
            Ok(h) => match host::validate_capacity(next.cpu, next.memory, h) {
                Ok(_) => Ok(next),
                Err(e) => Err(SetError::Capacity(e)),
            },
            Err(why) => Err(SetError::Host(why)),
        },
        Err(e) => Err(SetError::Rename(e)),
    }
}

// ---------------------------------------------------------------------------
// Setting up
// ---------------------------------------------------------------------------

/// The settings that neither flags nor an existing config give.
#[derive(Debug, PartialEq, Eq)]
pub struct MissingSettings {
    pub names: Vec<&'static str>,
}

/// The flags of the settings that a first `setup` misses, in order.
pub open spec fn missing_names(e: Edits) -> Seq<Seq<char>> {
    if_set(e.server is None, "--server"@) + if_set(e.node is None, "--node"@) + if_set(
        e.cpu is None,
        "--cpu"@,
    ) + if_set(e.memory is None, "--memory"@)
}

/// Whether flags alone make up a config.
pub open spec fn complete(e: Edits) -> bool {
    e.server is Some && e.node is Some && e.cpu is Some && e.memory is Some
}

/// The config that flags alone make up, intervals at their defaults where they are not
/// given.
pub open spec fn fresh(e: Edits) -> WorkerConfig {
    WorkerConfig {
        server: e.server->0,
        node: e.node->0,
        token: None,
        credential: None,
        cpu: e.cpu->0,
        memory: e.memory->0,
        reconcile_secs: or(e.reconcile_secs, daemon::DEFAULT_RECONCILE_SECS),
        heartbeat_secs: or(e.heartbeat_secs, daemon::DEFAULT_HEARTBEAT_SECS),
        lease_secs: or(e.lease_secs, daemon::DEFAULT_LEASE_SECS),
    }
}

/// The text for settings that are missing.
pub open spec fn missing_text(names: Seq<Seq<char>>) -> Seq<char> {
    "there is no worker config yet, so these are required: "@ + text::joined(names, ", "@)
}

impl MissingSettings {
    /// The text of the error.
    pub fn message(&self) -> (r: String)
        ensures
            r@ == missing_text(self.names.deep_view()),
    {
        let mut names: Vec<String> = Vec::new();
        for i in 0..self.names.len()
            invariant
                names.deep_view() == self.names.deep_view().take(i as int),
        {
            let ghost before = names.deep_view();
            names.push(self.names[i].to_owned());
            assert(names.deep_view() =~= before.push(self.names@[i as int]@));
            assert(self.names.deep_view().take(i + 1) =~= before.push(self.names@[i as int]@));
        }
        assert(self.names.deep_view().take(self.names@.len() as int) =~= self.names.deep_view());
        text::cat2(
            "there is no worker config yet, so these are required: ",
            &text::join(&names, ", "),
        )
    }
}

fn fill(edit: Option<u64>, current: u64) -> (r: u64)
    ensures
        r == or(edit, current),
{
    match edit {
        Some(v) => v,
        None => current,
    }
}

/// The config to join with: flags win, the existing config fills the rest, so re-joining a
/// configured machine needs no flags at all, and may rename it. Server, node and capacity
/// are required where there is no config yet, and all missing ones are reported at once.
/// Secrets do not carry over: the join brings its own.
pub fn resolve_setup(fields: Edits, existing: Option<WorkerConfig>) -> (r: Result<
    WorkerConfig,
    MissingSettings,
>)
    ensures
        match resolved(fields, existing) {
            Some(cfg) => r == Ok::<WorkerConfig, MissingSettings>(cfg),
            None => r matches Err(m) && m.names.deep_view() == missing_names(fields),
        },
{
    match existing {
        Some(cfg) => {
            let next = fields.over(cfg);
            Ok(WorkerConfig { token: None, credential: None, ..next })
        },
        None => {
            let mut names: Vec<&'static str> = Vec::new();
            push_if(&mut names, fields.server.is_none(), "--server");
            push_if(&mut names, fields.node.is_none(), "--node");
            push_if(&mut names, fields.cpu.is_none(), "--cpu");
            push_if(&mut names, fields.memory.is_none(), "--memory");
            assert(names.deep_view() =~= missing_names(fields));
            let reconcile_secs: u64 = fill(fields.reconcile_secs, daemon::DEFAULT_RECONCILE_SECS);
            let heartbeat_secs: u64 = fill(fields.heartbeat_secs, daemon::DEFAULT_HEARTBEAT_SECS);
            let lease_secs: u32 = match fields.lease_secs {
                Some(v) => v,
                None => daemon::DEFAULT_LEASE_SECS,
            };
            match (fields.server, fields.node, fields.cpu, fields.memory) {
                (Some(server), Some(node), Some(cpu), Some(memory)) => Ok(
                    WorkerConfig {
                        server,
                        node,
                        token: None,
                        credential: None,
                        cpu,
                        memory,
                        reconcile_secs,
                        heartbeat_secs,
                        lease_secs,
                    },
                ),
                _ => Err(MissingSettings { names }),
            }
        },
    }
}

/// Why a `setup` is refused before the server is asked.
#[derive(Debug, PartialEq, Eq)]
pub enum SetupError {
    Missing(MissingSettings),
    /// The host could not be measured, for this reason.
    Host(String),
    Capacity(CapacityError),
}

impl SetupError {
    /// The text of the error.
    pub fn message(&self) -> (r: String)
        ensures
            r@ == match self {
                SetupError::Missing(m) => missing_text(m.names.deep_view()),
                SetupError::Host(why) => why@,
                SetupError::Capacity(c) => host::capacity_error_text(*c),
            },
    {
        match self {
            SetupError::Missing(m) => m.message(),
            SetupError::Host(why) => why.clone(),
            SetupError::Capacity(c) => c.message(),
        }
    }
}

/// What flags and an existing config make up, if they make one up: the config to join with.
pub open spec fn resolved(fields: Edits, existing: Option<WorkerConfig>) -> Option<WorkerConfig> {
    match existing {
        Some(cfg) => Some(WorkerConfig { token: None, credential: None, ..edited(fields, cfg) }),
        None => if complete(fields) {
            Some(fresh(fields))
        } else {
            None
        },
    }
}

/// The config that `setup` joins with. Impossible capacity is rejected before the network
/// is touched. `host` is what was measured, or why it could not be, which counts only where
/// no setting is missing.
pub fn prepare_setup(
    fields: Edits,
    existing: Option<WorkerConfig>,
    host: Result<HostResources, String>,
) -> (r: Result<WorkerConfig, SetupError>)
    ensures
        match r {
            Ok(cfg) => resolved(fields, existing) == Some(cfg) && (host matches Ok(h)
                && host::fits_host(cfg.cpu, cfg.memory, h)),
            Err(SetupError::Missing(m)) => resolved(fields, existing) is None
                && m.names.deep_view() == missing_names(fields),
            Err(SetupError::Host(why)) => resolved(fields, existing) is Some && host == Err::<
                HostResources,
                String,
            >(why),
            Err(SetupError::Capacity(e)) => resolved(fields, existing) is Some && (
            host matches Ok(h) && host::capacity_problem(
                resolved(fields, existing)->0.cpu,
                resolved(fields, existing)->0.memory,
                h,
            ) == Some(host::capacity_error_text(e))),
        },
{
    match resolve_setup(fields, existing) {
        Ok(cfg) => match host {
            Ok(h) => match host::validate_capacity(cfg.cpu, cfg.memory, h) {
                Ok(_) => Ok(cfg),
                Err(e) => Err(SetupError::Capacity(e)),
            },
            Err(why) => Err(SetupError::Host(why)),
        },
        Err(m) => Err(SetupError::Missing(m)),
    }
}

/// Why a worker does not start.
#[derive(Debug, Clone, Copy, PartialEq, Eq, Structural)]
pub enum StartError {
    Capacity(CapacityError),
    Join(JoinError),
}

impl StartError {
    /// The text of the error.
    pub fn message(&self) -> (r: String)
        ensures
            r@ == match self {
                StartError::Capacity(c) => host::capacity_error_text(*c),
                StartError::Join(j) => daemon::join_error_text(*j),
            },
    {
        match self {
            StartError::Capacity(c) => c.message(),
            StartError::Join(j) => j.message(),
        }
    }
}

/// What a worker starts with: the secret that it registers with. It never starts with more
/// capacity than the machine has, nor without a secret.
pub fn startup(cfg: &WorkerConfig, host: HostResources) -> (r: Result<Bearer, StartError>)
    ensures
        match r {
            Ok(b) => host::fits_host(cfg.cpu, cfg.memory, host) && daemon::bearer_of(*cfg) == Ok::<
                Bearer,
                JoinError,
            >(b),
            Err(StartError::Capacity(e)) => host::capacity_problem(cfg.cpu, cfg.memory, host)
                == Some(host::capacity_error_text(e)),
            Err(StartError::Join(e)) => host::fits_host(cfg.cpu, cfg.memory, host)
                && daemon::bearer_of(*cfg) == Err::<Bearer, JoinError>(e),
        },
{
    match host::validate_capacity(cfg.cpu, cfg.memory, host) {
        Ok(_) => match cfg.bearer() {
            Ok(b) => Ok(b),
            Err(e) => Err(StartError::Join(e)),
        },
        Err(e) => Err(StartError::Capacity(e)),
    }
}

// ---------------------------------------------------------------------------
// Showing
// ---------------------------------------------------------------------------

/// The config with the credential replaced by a marker.
///
/// `config show` exists to be pasted into an issue, so the one thing it must
/// never do is print the credential. Whether there is one is the part that is
/// actually diagnostic, and that survives.
pub fn redacted(cfg: &WorkerConfig) -> (r: WorkerConfig)
    ensures
        r.credential.deep_view() == (if cfg.credential is Some {
            Some(REDACTED@)
        } else {
            None
        }),
        r == (WorkerConfig { credential: r.credential, ..*cfg }),
{
    let mut masked = cfg.clone();
    masked.credential = match &cfg.credential {
        Some(_) => Some(REDACTED.to_owned()),
        None => None,
    };
    masked
}

// ---------------------------------------------------------------------------
// What holds of every edit
// ---------------------------------------------------------------------------

/// Editing nothing changes nothing, editing twice is editing once, and no edit touches a
/// secret.
pub proof fn law_edits_change_what_they_name(e: Edits, cfg: WorkerConfig)
    ensures
        edited(no_edits(), cfg) == cfg,
        edited(e, edited(e, cfg)) == edited(e, cfg),
        edited(e, cfg).token == cfg.token,
        edited(e, cfg).credential == cfg.credential,
        !renames_joined(no_edits(), cfg),
        !renames_joined(e, edited(e, cfg)),
{
}

/// A field that was set reads back as what it was set to, and one that was not, as what it
/// was.
pub proof fn law_fields_read_back(e: Edits, cfg: WorkerConfig)
    ensures
        field_text(Field::Server, edited(e, cfg)) == or(e.server, cfg.server)@,
        field_text(Field::Node, edited(e, cfg)) == or(e.node, cfg.node)@,
        field_text(Field::Cpu, edited(e, cfg)) == text::decimal(or(e.cpu, cfg.cpu) as nat),
        field_text(Field::Memory, edited(e, cfg)) == memory::size_text(or(e.memory, cfg.memory)@),
        field_text(Field::ReconcileSecs, edited(e, cfg)) == text::decimal(
            or(e.reconcile_secs, cfg.reconcile_secs) as nat,
        ),
        field_text(Field::HeartbeatSecs, edited(e, cfg)) == text::decimal(
            or(e.heartbeat_secs, cfg.heartbeat_secs) as nat,
        ),
        field_text(Field::LeaseSecs, edited(e, cfg)) == text::decimal(
            or(e.lease_secs, cfg.lease_secs) as nat,
        ),
{
}

/// Nothing is touched exactly where there is nothing to edit, and a first `setup` misses
/// nothing exactly where its flags make up a config.
pub proof fn law_names_are_complete(e: Edits)
    ensures
        touched_names(e).len() == 0 <==> e == no_edits(),
        missing_names(e).len() == 0 <==> complete(e),
{
}

/// Setting up over an existing config with no flags at all joins with that config's
/// settings: only the secrets are left behind. Flags win over it, one by one.
pub proof fn law_setup_falls_back_to_the_config(fields: Edits, cfg: WorkerConfig)
    ensures
        resolved(no_edits(), Some(cfg)) == Some(
            (WorkerConfig { token: None, credential: None, ..cfg }),
        ),
        resolved(fields, Some(cfg)) is Some,
        resolved(fields, Some(cfg))->0.server == or(fields.server, cfg.server),
        resolved(fields, Some(cfg))->0.node == or(fields.node, cfg.node),
        resolved(fields, Some(cfg))->0.cpu == or(fields.cpu, cfg.cpu),
        resolved(fields, Some(cfg))->0.memory == or(fields.memory, cfg.memory),
        resolved(fields, Some(cfg))->0.reconcile_secs == or(
            fields.reconcile_secs,
            cfg.reconcile_secs,
        ),
        resolved(fields, Some(cfg))->0.heartbeat_secs == or(
            fields.heartbeat_secs,
            cfg.heartbeat_secs,
        ),
        resolved(fields, Some(cfg))->0.lease_secs == or(fields.lease_secs, cfg.lease_secs),
        resolved(fields, None) is Some <==> missing_names(fields).len() == 0,
{
}

/// Each edit sets its own field, and a field without an edit stays as it was.
pub proof fn law_each_edit_sets_its_field(e: Edits, cfg: WorkerConfig)
    ensures
        match e.server {
            Some(v) => edited(e, cfg).server == v,
            None => edited(e, cfg).server == cfg.server,
        },
        match e.node {
            Some(v) => edited(e, cfg).node == v,
            None => edited(e, cfg).node == cfg.node,
        },
        match e.cpu {
            Some(v) => edited(e, cfg).cpu == v,
            None => edited(e, cfg).cpu == cfg.cpu,
        },
        match e.memory {
            Some(v) => edited(e, cfg).memory == v,
            None => edited(e, cfg).memory == cfg.memory,
        },
        match e.reconcile_secs {
            Some(v) => edited(e, cfg).reconcile_secs == v,
            None => edited(e, cfg).reconcile_secs == cfg.reconcile_secs,
        },
        match e.heartbeat_secs {
            Some(v) => edited(e, cfg).heartbeat_secs == v,
            None => edited(e, cfg).heartbeat_secs == cfg.heartbeat_secs,
        },
        match e.lease_secs {
            Some(v) => edited(e, cfg).lease_secs == v,
            None => edited(e, cfg).lease_secs == cfg.lease_secs,
        },
{
}

/// A field reads as what the config holds under it, and a number as its digits.
pub proof fn law_fields_read_as_held(cfg: WorkerConfig)
    ensures
        field_text(Field::Server, cfg) == cfg.server@,
        field_text(Field::Node, cfg) == cfg.node@,
        text::value_in_base(field_text(Field::Cpu, cfg), 10) == cfg.cpu,
        text::value_in_base(field_text(Field::ReconcileSecs, cfg), 10) == cfg.reconcile_secs,
        text::value_in_base(field_text(Field::HeartbeatSecs, cfg), 10) == cfg.heartbeat_secs,
        text::value_in_base(field_text(Field::LeaseSecs, cfg), 10) == cfg.lease_secs,
{
    text::law_numerals_denote_their_number(cfg.cpu as nat);
    text::law_numerals_denote_their_number(cfg.reconcile_secs as nat);
    text::law_numerals_denote_their_number(cfg.heartbeat_secs as nat);
    text::law_numerals_denote_their_number(cfg.lease_secs as nat);
}

/// A rename is refused exactly where the worker has joined and the name is another one: a
/// worker that has not joined may be renamed, and the name it has is no rename.
pub proof fn law_only_joined_workers_keep_their_name(e: Edits, cfg: WorkerConfig)
    ensures
        cfg.credential is None ==> !renames_joined(e, cfg),
        e.node is None ==> !renames_joined(e, cfg),
        e.node matches Some(n) && n@ == cfg.node@ ==> !renames_joined(e, cfg),
        cfg.credential is Some && (e.node matches Some(n) && n@ != cfg.node@) ==> renames_joined(
            e,
            cfg,
        ),
{
}

/// A field is named as touched exactly where an edit sets it, and a flag as missing exactly
/// where a setting without a default is not given.
pub proof fn law_names_are_of_the_fields(e: Edits)
    ensures
        touched_names(e).contains("server"@) <==> e.server is Some,
        touched_names(e).contains("node"@) <==> e.node is Some,
        touched_names(e).contains("cpu"@) <==> e.cpu is Some,
        touched_names(e).contains("memory"@) <==> e.memory is Some,
        touched_names(e).contains("reconcile-secs"@) <==> e.reconcile_secs is Some,
        touched_names(e).contains("heartbeat-secs"@) <==> e.heartbeat_secs is Some,
        touched_names(e).contains("lease-secs"@) <==> e.lease_secs is Some,
        missing_names(e).contains("--server"@) <==> e.server is None,
        missing_names(e).contains("--node"@) <==> e.node is None,
        missing_names(e).contains("--cpu"@) <==> e.cpu is None,
        missing_names(e).contains("--memory"@) <==> e.memory is None,
{
    lemma_names_differ();
    lemma_touched_holds(e, "server"@);
    lemma_touched_holds(e, "node"@);
    lemma_touched_holds(e, "cpu"@);
    lemma_touched_holds(e, "memory"@);
    lemma_touched_holds(e, "reconcile-secs"@);
    lemma_touched_holds(e, "heartbeat-secs"@);
    lemma_touched_holds(e, "lease-secs"@);
    lemma_missing_holds(e, "--server"@);
    lemma_missing_holds(e, "--node"@);
    lemma_missing_holds(e, "--cpu"@);
    lemma_missing_holds(e, "--memory"@);
}

proof fn lemma_names_differ()
    ensures
        "server"@.len() == 6 && "server"@[0] == 's',
        "node"@.len() == 4,
        "cpu"@.len() == 3,
        "memory"@.len() == 6 && "memory"@[0] == 'm',
        "reconcile-secs"@.len() == 14 && "reconcile-secs"@[0] == 'r',
        "heartbeat-secs"@.len() == 14 && "heartbeat-secs"@[0] == 'h',
        "lease-secs"@.len() == 10,
        "--server"@.len() == 8 && "--server"@[2] == 's',
        "--node"@.len() == 6,
        "--cpu"@.len() == 5,
        "--memory"@.len() == 8 && "--memory"@[2] == 'm',
{
    reveal_strlit("server");
    reveal_strlit("node");
    reveal_strlit("cpu");
    reveal_strlit("memory");
    reveal_strlit("reconcile-secs");
    reveal_strlit("heartbeat-secs");
    reveal_strlit("lease-secs");
    reveal_strlit("--server");
    reveal_strlit("--node");
    reveal_strlit("--cpu");
    reveal_strlit("--memory");
}

proof fn lemma_sum_contains<T>(a: Seq<T>, b: Seq<T>, x: T)
    ensures
        (a + b).contains(x) <==> a.contains(x) || b.contains(x),
{
    if a.contains(x) {
        let i = a.index_of(x);
        assert((a + b)[i] == x);
    }
    if b.contains(x) {
        let i = b.index_of(x);
        assert((a + b)[a.len() + i] == x);
    }
    if (a + b).contains(x) {
        let i = (a + b).index_of(x);
        if i < a.len() {
            assert(a[i] == x);
        } else {
            assert(b[i - a.len()] == x);
        }
    }
}

proof fn lemma_if_set_contains(set: bool, name: Seq<char>, x: Seq<char>)
    ensures
        if_set(set, name).contains(x) <==> set && name == x,
{
    if set {
        assert(if_set(set, name)[0] == name);
    }
}

proof fn lemma_touched_holds(e: Edits, x: Seq<char>)
    ensures
        touched_names(e).contains(x) <==> {
            ||| e.server is Some && "server"@ == x
            ||| e.node is Some && "node"@ == x
            ||| e.cpu is Some && "cpu"@ == x
            ||| e.memory is Some && "memory"@ == x
            ||| e.reconcile_secs is Some && "reconcile-secs"@ == x
            ||| e.heartbeat_secs is Some && "heartbeat-secs"@ == x
            ||| e.lease_secs is Some && "lease-secs"@ == x
        },
{
    let a = if_set(e.server is Some, "server"@);
    let b = if_set(e.node is Some, "node"@);
    let c = if_set(e.cpu is Some, "cpu"@);
    let d = if_set(e.memory is Some, "memory"@);
    let f = if_set(e.reconcile_secs is Some, "reconcile-secs"@);
    let g = if_set(e.heartbeat_secs is Some, "heartbeat-secs"@);
    let h = if_set(e.lease_secs is Some, "lease-secs"@);
    lemma_if_set_contains(e.server is Some, "server"@, x);
    lemma_if_set_contains(e.node is Some, "node"@, x);
    lemma_if_set_contains(e.cpu is Some, "cpu"@, x);
    lemma_if_set_contains(e.memory is Some, "memory"@, x);
    lemma_if_set_contains(e.reconcile_secs is Some, "reconcile-secs"@, x);
    lemma_if_set_contains(e.heartbeat_secs is Some, "heartbeat-secs"@, x);
    lemma_if_set_contains(e.lease_secs is Some, "lease-secs"@, x);
    lemma_sum_contains(a, b, x);
    lemma_sum_contains(a + b, c, x);
    lemma_sum_contains(a + b + c, d, x);
    lemma_sum_contains(a + b + c + d, f, x);
    lemma_sum_contains(a + b + c + d + f, g, x);
    lemma_sum_contains(a + b + c + d + f + g, h, x);
}

proof fn lemma_missing_holds(e: Edits, x: Seq<char>)
    ensures
        missing_names(e).contains(x) <==> {
            ||| e.server is None && "--server"@ == x
            ||| e.node is None && "--node"@ == x
            ||| e.cpu is None && "--cpu"@ == x
            ||| e.memory is None && "--memory"@ == x
        },
{
    let a = if_set(e.server is None, "--server"@);
    let b = if_set(e.node is None, "--node"@);
    let c = if_set(e.cpu is None, "--cpu"@);
    let d = if_set(e.memory is None, "--memory"@);
    lemma_if_set_contains(e.server is None, "--server"@, x);
    lemma_if_set_contains(e.node is None, "--node"@, x);
    lemma_if_set_contains(e.cpu is None, "--cpu"@, x);
    lemma_if_set_contains(e.memory is None, "--memory"@, x);
    lemma_sum_contains(a, b, x);
    lemma_sum_contains(a + b, c, x);
    lemma_sum_contains(a + b + c, d, x);
}

/// A first `setup` takes what its flags say, beats every 10 seconds, reconciles every 5 and
/// holds its lease for 40 where they do not say otherwise, and has no secret yet. Over an
/// existing config no secret carries over either.
pub proof fn law_first_setup_takes_its_flags(e: Edits, existing: Option<WorkerConfig>)
    ensures
        resolved(e, existing) matches Some(cfg) ==> cfg.token is None && cfg.credential is None,
        existing is None ==> (resolved(e, existing) is Some <==> e.server is Some && e.node is Some
            && e.cpu is Some && e.memory is Some),
        existing is None ==> (resolved(e, existing) matches Some(cfg) ==> {
            &&& Some(cfg.server) == e.server
            &&& Some(cfg.node) == e.node
            &&& Some(cfg.cpu) == e.cpu
            &&& Some(cfg.memory) == e.memory
            &&& match e.reconcile_secs {
                Some(v) => cfg.reconcile_secs == v,
                None => cfg.reconcile_secs == 5,
            }
            &&& match e.heartbeat_secs {
                Some(v) => cfg.heartbeat_secs == v,
                None => cfg.heartbeat_secs == 10,
            }
            &&& match e.lease_secs {
                Some(v) => cfg.lease_secs == v,
                None => cfg.lease_secs == 40,
            }
        }),
{
}

/// Every missing setting is in the message.
pub proof fn law_missing_settings_are_all_named(names: Seq<Seq<char>>, i: int)
    requires
        0 <= i < names.len(),
    ensures
        text::contains(missing_text(names), names[i]),
{
    let front = names.take(i);
    let back = names.skip(i + 1);
    let lead = "there is no worker config yet, so these are required: "@;
    assert(names =~= front + (seq![names[i]] + back));
    text::law_joining_puts_one_separator_between(front, seq![names[i]] + back, ", "@, names[i]);
    text::law_joining_puts_one_separator_between(seq![names[i]], back, ", "@, names[i]);
    let rest = if back.len() == 0 {
        Seq::<char>::empty()
    } else {
        ", "@ + text::joined(back, ", "@)
    };
    let before = if front.len() == 0 {
        Seq::<char>::empty()
    } else {
        text::joined(front, ", "@) + ", "@
    };
    if back.len() == 0 {
        assert(seq![names[i]] + back =~= seq![names[i]]);
    }
    if front.len() == 0 {
        assert(front + (seq![names[i]] + back) =~= seq![names[i]] + back);
    }
    assert(missing_text(names) =~= (lead + before) + names[i] + rest);
    text::law_parts_of_a_string(lead + before, names[i], rest);
}

/// A refused rename names the name that was asked for, and a refused edit tells its cause.
pub proof fn law_refusals_tell_their_cause(e: RenameRefused, why: String, c: CapacityError)
    ensures
        text::contains(rename_refused_text(e), "--node "@ + e.wanted@ + " --token"@),
        text::contains(rename_refused_text(e), text::debug_text(e.joined@)),
        text::ends_with(rename_refused_text(e), text::debug_text(e.wanted@)),
        set_error_text(SetError::Rename(e)) == rename_refused_text(e),
        set_error_text(SetError::Host(why)) == why@,
        set_error_text(SetError::Capacity(c)) == host::capacity_error_text(c),
{
    let a = "this worker joined as "@;
    let joined = text::debug_text(e.joined@);
    let b = ", and its credential is bound to that name — renaming it here would leave it unable to authenticate. Run `veloslet setup --node "@;
    let b1 = ", and its credential is bound to that name — renaming it here would leave it unable to authenticate. Run `veloslet setup "@;
    let c1 = " --token <new token> ...` to join again as "@;
    let c2 = " <new token> ...` to join again as "@;
    let wanted = text::debug_text(e.wanted@);
    let all = rename_refused_text(e);
    assert(all =~= a + joined + (b + e.wanted@ + c1 + wanted));
    text::law_parts_of_a_string(a, joined, b + e.wanted@ + c1 + wanted);
    assert(all =~= a + joined + b + e.wanted@ + c1 + wanted);
    text::law_parts_of_a_string(a + joined + b + e.wanted@ + c1, wanted, Seq::empty());
    reveal_strlit(
        ", and its credential is bound to that name — renaming it here would leave it unable to authenticate. Run `veloslet setup --node ",
    );
    reveal_strlit(
        ", and its credential is bound to that name — renaming it here would leave it unable to authenticate. Run `veloslet setup ",
    );
    reveal_strlit(" --token <new token> ...` to join again as ");
    reveal_strlit(" <new token> ...` to join again as ");
    reveal_strlit("--node ");
    reveal_strlit(" --token");
    assert(b =~= b1 + "--node "@);
    assert(c1 =~= " --token"@ + c2);
    let named = "--node "@ + e.wanted@ + " --token"@;
    assert(all =~= a + joined + b1 + named + (c2 + wanted));
    text::law_parts_of_a_string(a + joined + b1, named, c2 + wanted);
}

} // verus!
