//! Self-installation as a macOS launchd LaunchAgent, and the worker's secrets.
//!
//! macOS silently blocks a bare LaunchAgent from reaching a LAN server: a launchd job
//! has no app for the system to attribute (and prompt) the connection to. The fix is to
//! give the worker a real *app-bundle identity*: wrap the binary in a code-signed `.app`
//! carrying a bundle id and an `NSLocalNetworkUsageDescription`, then point the
//! LaunchAgent at it via `AssociatedBundleIdentifiers`.
//!
//! This module renders those files, lists the steps that put them in place, holds the
//! persisted config type, and decides which secret the worker presents and what it
//! writes back after registering.
use vstd::prelude::*;

use crate::host;
use crate::host::HostResources;
use crate::json;
use crate::json::{Json, JsonView};
use crate::memory::Memory;
use crate::text;

verus! {

/// The launchd label and app-bundle identifier for the worker daemon. macOS pins the
/// Local Network privacy grant to this identity, so it must be stable.
pub const BUNDLE_ID: &'static str = "io.github.blossomstack.velos-worker";

/// Human-facing bundle name shown in the Local Network privacy prompt and list.
pub const BUNDLE_DISPLAY_NAME: &'static str = "Veloslet Worker";

/// The executable name inside the app bundle (`Velos.app/Contents/MacOS/<name>`).
pub const BUNDLE_EXECUTABLE: &'static str = "veloslet";

/// How often a worker reconciles, in seconds, where its config does not say.
pub const DEFAULT_RECONCILE_SECS: u64 = 5;

/// How often a worker renews its lease, in seconds, where its config does not say.
pub const DEFAULT_HEARTBEAT_SECS: u64 = 10;

/// How long a lease lasts, in seconds, where the config does not say.
pub const DEFAULT_LEASE_SECS: u32 = 40;

// ---------------------------------------------------------------------------
// Secrets
// ---------------------------------------------------------------------------

/// The secret a worker presents when it registers.
///
/// The two variants are not interchangeable, and that is the point: only a
/// [`Bearer::Join`] registration mints a credential, so the join is one-shot.
/// Callers must opt in to the secret itself via [`Bearer::expose`].
#[derive(PartialEq, Eq)]
pub enum Bearer {
    /// A one-shot join token minted by an admin. The registration it authorizes
    /// mints the worker's credential; it is never presented again afterwards.
    Join(String),
    /// The credential minted by a previous join. This is the durable secret on
    /// disk, and it is what every later start presents.
    Credential(String),
}

impl Clone for Bearer {
    fn clone(&self) -> (r: Bearer)
        ensures
            r == *self,
    {
        match self {
            Bearer::Join(s) => Bearer::Join(s.clone()),
            Bearer::Credential(s) => Bearer::Credential(s.clone()),
        }
    }
}

/// The secret that a bearer holds.
pub open spec fn secret(b: Bearer) -> Seq<char> {
    match b {
        Bearer::Join(s) => s@,
        Bearer::Credential(s) => s@,
    }
}

/// What may be shown of a bearer: which one it is, and nothing of the secret.
pub open spec fn shown(b: Bearer) -> Seq<char> {
    match b {
        Bearer::Join(_) => "Join(***)"@,
        Bearer::Credential(_) => "Credential(***)"@,
    }
}

impl Bearer {
    /// Explicitly read the secret (to put it in an `Authorization` header).
    pub fn expose(&self) -> (r: &str)
        ensures
            r@ == secret(*self),
    {
        match self {
            Bearer::Join(s) => s.as_str(),
            Bearer::Credential(s) => s.as_str(),
        }
    }

    /// The bearer for logs and messages, its secret masked.
    pub fn redacted(&self) -> (r: &'static str)
        ensures
            r@ == shown(*self),
    {
        match self {
            Bearer::Join(_) => "Join(***)",
            Bearer::Credential(_) => "Credential(***)",
        }
    }
}

/// Why a worker cannot register, or cannot finish joining.
#[derive(Debug, Clone, Copy, PartialEq, Eq, Structural)]
pub enum JoinError {
    NoSecret,
    NoCredentialIssued,
}

/// The text of a join error.
pub open spec fn join_error_text(e: JoinError) -> Seq<char> {
    match e {
        JoinError::NoSecret => "worker config holds neither a credential nor a join token; mint one with `velosctl token create` and re-run `veloslet install --token <token>`"@,
        JoinError::NoCredentialIssued => "the server accepted the join token but returned no worker credential"@,
    }
}

impl JoinError {
    /// The text of the error.
    pub fn message(&self) -> (r: String)
        ensures
            r@ == join_error_text(*self),
    {
        match self {
            JoinError::NoSecret => "worker config holds neither a credential nor a join token; mint one with `velosctl token create` and re-run `veloslet install --token <token>`".to_owned(),
            JoinError::NoCredentialIssued => "the server accepted the join token but returned no worker credential".to_owned(),
        }
    }
}

// ---------------------------------------------------------------------------
// The persisted config
// ---------------------------------------------------------------------------

/// Persisted worker configuration (written as JSON to `~/.velos/veloslet.json`).
///
/// The secrets live here, not in the LaunchAgent's argument vector, so they
/// never show up in the process table. The file is created `0600`.
#[derive(Debug, PartialEq, Eq)]
pub struct WorkerConfig {
    /// Server base URL, e.g. `http://192.168.68.60:8088`.
    pub server: String,
    /// This worker's name.
    pub node: String,
    /// One-shot join token (`id.secret`), present only until this worker has
    /// joined. The first successful registration replaces it with `credential`,
    /// so an expired join token can never strand a worker that already joined.
    pub token: Option<String>,
    /// The worker credential (`node.secret`) issued at join, re-presented on
    /// every later start. Revoking it is what evicts this worker for good.
    pub credential: Option<String>,
    /// Advertised CPU cores; validated against the host at startup.
    pub cpu: u32,
    /// Advertised memory (e.g. `"8G"`); validated against the host.
    pub memory: Memory,
    pub reconcile_secs: u64,
    pub heartbeat_secs: u64,
    pub lease_secs: u32,
}

impl Clone for WorkerConfig {
    fn clone(&self) -> (r: WorkerConfig)
        ensures
            r == *self,
    {
        WorkerConfig {
            server: self.server.clone(),
            node: self.node.clone(),
            token: match &self.token {
                Some(t) => Some(t.clone()),
                None => None,
            },
            credential: match &self.credential {
                Some(c) => Some(c.clone()),
                None => None,
            },
            cpu: self.cpu,
            memory: self.memory,
            reconcile_secs: self.reconcile_secs,
            heartbeat_secs: self.heartbeat_secs,
            lease_secs: self.lease_secs,
        }
    }
}

/// The config of a worker that joined: it holds the credential, and the join token is gone.
pub open spec fn joined(cfg: WorkerConfig, credential: String) -> WorkerConfig {
    WorkerConfig { token: None, credential: Some(credential), ..cfg }
}

/// The secret a worker presents: its credential once it has joined, else its join token.
pub open spec fn bearer_of(cfg: WorkerConfig) -> Result<Bearer, JoinError> {
    match (cfg.credential, cfg.token) {
        (Some(c), _) => Ok(Bearer::Credential(c)),
        (None, Some(t)) => Ok(Bearer::Join(t)),
        (None, None) => Err(JoinError::NoSecret),
    }
}

/// The credential that a registration response issues, if it issues one.
pub open spec fn issued(response: JsonView) -> Option<Seq<char>> {
    match json::text(json::get(response, "token"@)) {
        Some(s) => if s.len() > 0 {
            Some(s)
        } else {
            None
        },
        None => None,
    }
}

/// The credential in a registration response. A join must come back with one.
pub fn credential_from_response(response: &Json) -> (r: Result<String, JoinError>)
    ensures
        match r {
            Ok(c) => issued(response@) == Some(c@),
            Err(e) => e == JoinError::NoCredentialIssued && issued(response@) is None,
        },
{
    if let Some(j) = response.get("token") {
        if let Some(s) = j.as_str() {
            if !s.is_empty() {
                return Ok(s.to_owned());
            }
        }
    }
    Err(JoinError::NoCredentialIssued)
}

impl WorkerConfig {
    /// Whether this worker has joined: it holds a credential.
    pub fn is_connected(&self) -> (r: bool)
        ensures
            r == (self.credential is Some),
    {
        self.credential.is_some()
    }

    /// This config with the credential of a join, which consumes the join token.
    pub fn with_credential(self, credential: String) -> (r: WorkerConfig)
        ensures
            r == joined(self, credential),
    {
        WorkerConfig { token: None, credential: Some(credential), ..self }
    }

    /// The secret to present at registration: the credential once this worker
    /// has joined, otherwise the one-shot join token. Fails closed when it holds
    /// neither rather than registering anonymously.
    pub fn bearer(&self) -> (r: Result<Bearer, JoinError>)
        ensures
            r == bearer_of(*self),
    {
        match (&self.credential, &self.token) {
            (Some(c), _) => Ok(Bearer::Credential(c.clone())),
            (None, Some(t)) => Ok(Bearer::Join(t.clone())),
            (None, None) => Err(JoinError::NoSecret),
        }
    }

    /// Fold a successful registration response into the persisted config.
    ///
    /// A [`Bearer::Join`] registration must come back with a credential: it is
    /// stored and the join token erased, which is what consumes the join. A
    /// [`Bearer::Credential`] registration only refreshes what the worker
    /// advertises, so there is nothing to write back (`Ok(None)`).
    pub fn adopt(&self, bearer: &Bearer, response: &Json) -> (r: Result<
        Option<WorkerConfig>,
        JoinError,
    >)
        ensures
            match bearer {
                Bearer::Credential(_) => r matches Ok(None),
                Bearer::Join(_) => match issued(response@) {
                    Some(c) => r matches Ok(Some(cfg)) && cfg.credential is Some
                        && cfg.credential->0@ == c && cfg == joined(*self, cfg.credential->0),
                    None => r == Err::<Option<WorkerConfig>, JoinError>(
                        JoinError::NoCredentialIssued,
                    ),
                },
            },
    {
        match bearer {
            Bearer::Credential(_) => Ok(None),
            Bearer::Join(_) => match credential_from_response(response) {
                Ok(credential) => Ok(Some(self.clone().with_credential(credential))),
                Err(e) => Err(e),
            },
        }
    }
}

// ---------------------------------------------------------------------------
// The files of the background worker
// ---------------------------------------------------------------------------

/// A character as plist text.
pub open spec fn escaped_char(c: char) -> Seq<char> {
    if c == '&' {
        "&amp;"@
    } else if c == '<' {
        "&lt;"@
    } else if c == '>' {
        "&gt;"@
    } else {
        seq![c]
    }
}

/// A string as plist text.
pub open spec fn escaped(s: Seq<char>) -> Seq<char>
    decreases s.len(),
{
    if s.len() == 0 {
        Seq::empty()
    } else {
        escaped(s.drop_last()) + escaped_char(s.last())
    }
}

/// Minimal XML text escaping for plist `<string>` values.
pub fn xml_escape(s: &str) -> (r: String)
    ensures
        r@ == escaped(s@),
{
    let cs = text::chars_of(s);
    let mut out = String::new();
    for i in 0..cs.len()
        invariant
            cs@ == s@,
            out@ == escaped(s@.take(i as int)),
    {
        assert(s@.take(i + 1).drop_last() =~= s@.take(i as int));
        let c = cs[i];
        if c == '&' {
            out.append("&amp;");
        } else if c == '<' {
            out.append("&lt;");
        } else if c == '>' {
            out.append("&gt;");
        } else {
            let ghost before = out@;
            out.push(c);
            assert(out@ =~= before + seq![c]);
        }
    }
    assert(s@.take(s@.len() as int) =~= s@);
    out
}

/// The app-bundle `Info.plist` of a version.
pub open spec fn info_plist(version: Seq<char>) -> Seq<char> {
    r#"<?xml version="1.0" encoding="UTF-8"?>
<!DOCTYPE plist PUBLIC "-//Apple//DTD PLIST 1.0//EN" "http://www.apple.com/DTDs/PropertyList-1.0.dtd">
<plist version="1.0">
<dict>
    <key>CFBundleName</key><string>Velos</string>
    <key>CFBundleDisplayName</key><string>"#@ + escaped(BUNDLE_DISPLAY_NAME@) + r#"</string>
    <key>CFBundleIdentifier</key><string>"#@ + escaped(BUNDLE_ID@) + r#"</string>
    <key>CFBundleExecutable</key><string>"#@ + escaped(BUNDLE_EXECUTABLE@) + r#"</string>
    <key>CFBundlePackageType</key><string>APPL</string>
    <key>CFBundleInfoDictionaryVersion</key><string>6.0</string>
    <key>CFBundleVersion</key><string>"#@ + escaped(version) + r#"</string>
    <key>CFBundleShortVersionString</key><string>"#@ + escaped(version) + r#"</string>
    <key>LSBackgroundOnly</key><true/>
    <key>NSLocalNetworkUsageDescription</key>
    <string>Velos Worker connects to the Velos control-plane server on your local network to register this machine and reconcile containers.</string>
</dict>
</plist>
"#@
}

/// Render the app-bundle `Info.plist` that gives the worker a stable identity
/// plus the local-network usage string macOS shows the user.
pub fn render_info_plist(version: &str) -> (r: String)
    ensures
        r@ == info_plist(version@),
{
    let v = xml_escape(version);
    let mut out = r#"<?xml version="1.0" encoding="UTF-8"?>
<!DOCTYPE plist PUBLIC "-//Apple//DTD PLIST 1.0//EN" "http://www.apple.com/DTDs/PropertyList-1.0.dtd">
<plist version="1.0">
<dict>
    <key>CFBundleName</key><string>Velos</string>
    <key>CFBundleDisplayName</key><string>"#.to_owned();
    out.append(&xml_escape(BUNDLE_DISPLAY_NAME));
    out.append(r#"</string>
    <key>CFBundleIdentifier</key><string>"#);
    out.append(&xml_escape(BUNDLE_ID));
    out.append(r#"</string>
    <key>CFBundleExecutable</key><string>"#);
    out.append(&xml_escape(BUNDLE_EXECUTABLE));
    out.append(r#"</string>
    <key>CFBundlePackageType</key><string>APPL</string>
    <key>CFBundleInfoDictionaryVersion</key><string>6.0</string>
    <key>CFBundleVersion</key><string>"#);
    out.append(&v);
    out.append(r#"</string>
    <key>CFBundleShortVersionString</key><string>"#);
    out.append(&v);
    out.append(r#"</string>
    <key>LSBackgroundOnly</key><true/>
    <key>NSLocalNetworkUsageDescription</key>
    <string>Velos Worker connects to the Velos control-plane server on your local network to register this machine and reconcile containers.</string>
</dict>
</plist>
"#);
    out
}

/// The plist line of each program argument.
pub open spec fn arg_lines(args: Seq<Seq<char>>) -> Seq<Seq<char>> {
    args.map_values(|a: Seq<char>| "        <string>"@ + escaped(a) + "</string>"@)
}

/// The LaunchAgent plist.
pub open spec fn launch_agent(
    args: Seq<Seq<char>>,
    path_env: Seq<char>,
    stdout_path: Seq<char>,
    stderr_path: Seq<char>,
) -> Seq<char> {
    r#"<?xml version="1.0" encoding="UTF-8"?>
<!DOCTYPE plist PUBLIC "-//Apple//DTD PLIST 1.0//EN" "http://www.apple.com/DTDs/PropertyList-1.0.dtd">
<plist version="1.0">
<dict>
    <key>Label</key>
    <string>"#@ + escaped(BUNDLE_ID@) + r#"</string>

    <!-- Tell macOS which signed bundle is responsible for this agent's network
         access so Local Network Privacy can attribute (and prompt for) the
         connection instead of silently denying it. (Apple TN3179) -->
    <key>AssociatedBundleIdentifiers</key>
    <array>
        <string>"#@ + escaped(BUNDLE_ID@) + r#"</string>
    </array>

    <key>ProgramArguments</key>
    <array>
"#@ + text::joined(arg_lines(args), "\n"@) + r#"
    </array>

    <!-- launchd's default PATH is minimal; add /usr/local/bin so the Apple
         `container` CLI is discoverable by the runtime. -->
    <key>EnvironmentVariables</key>
    <dict>
        <key>PATH</key>
        <string>"#@ + escaped(path_env) + r#"</string>
        <key>RUST_LOG</key>
        <string>info</string>
    </dict>

    <key>RunAtLoad</key>
    <true/>
    <key>KeepAlive</key>
    <true/>

    <key>StandardOutPath</key>
    <string>"#@ + escaped(stdout_path) + r#"</string>
    <key>StandardErrorPath</key>
    <string>"#@ + escaped(stderr_path) + r#"</string>
</dict>
</plist>
"#@
}

/// Render the LaunchAgent plist. `AssociatedBundleIdentifiers` is what lets
/// Local Network Privacy attribute the agent's traffic to the signed bundle.
pub fn render_launch_agent(
    program_args: &[String],
    path_env: &str,
    stdout_path: &str,
    stderr_path: &str,
) -> (r: String)
    ensures
        r@ == launch_agent(program_args.deep_view(), path_env@, stdout_path@, stderr_path@),
{
    let mut lines: Vec<String> = Vec::new();
    let ghost want = arg_lines(program_args.deep_view());
    for i in 0..program_args.len()
        invariant
            want == arg_lines(program_args.deep_view()),
            lines.deep_view() == want.take(i as int),
    {
        let ghost before = lines.deep_view();
        let line = text::cat3("        <string>", &xml_escape(&program_args[i]), "</string>");
        assert(want[i as int] == line@);
        lines.push(line);
        assert(lines.deep_view() =~= before.push(line@));
        assert(want.take(i + 1) =~= want.take(i as int).push(line@));
    }
    assert(want.take(want.len() as int) =~= want);
    let label = xml_escape(BUNDLE_ID);
    let mut out = r#"<?xml version="1.0" encoding="UTF-8"?>
<!DOCTYPE plist PUBLIC "-//Apple//DTD PLIST 1.0//EN" "http://www.apple.com/DTDs/PropertyList-1.0.dtd">
<plist version="1.0">
<dict>
    <key>Label</key>
    <string>"#.to_owned();
    out.append(&label);
    out.append(r#"</string>

    <!-- Tell macOS which signed bundle is responsible for this agent's network
         access so Local Network Privacy can attribute (and prompt for) the
         connection instead of silently denying it. (Apple TN3179) -->
    <key>AssociatedBundleIdentifiers</key>
    <array>
        <string>"#);
    out.append(&label);
    out.append(r#"</string>
    </array>

    <key>ProgramArguments</key>
    <array>
"#);
    out.append(&text::join(&lines, "\n"));
    out.append(r#"
    </array>

    <!-- launchd's default PATH is minimal; add /usr/local/bin so the Apple
         `container` CLI is discoverable by the runtime. -->
    <key>EnvironmentVariables</key>
    <dict>
        <key>PATH</key>
        <string>"#);
    out.append(&xml_escape(path_env));
    out.append(r#"</string>
        <key>RUST_LOG</key>
        <string>info</string>
    </dict>

    <key>RunAtLoad</key>
    <true/>
    <key>KeepAlive</key>
    <true/>

    <key>StandardOutPath</key>
    <string>"#);
    out.append(&xml_escape(stdout_path));
    out.append(r#"</string>
    <key>StandardErrorPath</key>
    <string>"#);
    out.append(&xml_escape(stderr_path));
    out.append(r#"</string>
</dict>
</plist>
"#);
    out
}

// ---------------------------------------------------------------------------
// Installing, stopping and removing the background worker
// ---------------------------------------------------------------------------

/// `rel` below the directory `base`.
pub open spec fn below(base: Seq<char>, rel: Seq<char>) -> Seq<char> {
    if base.len() == 0 || base.last() == '/' {
        base + rel
    } else {
        base + "/"@ + rel
    }
}

/// `rel` below the directory `base`.
pub fn path_below(base: &str, rel: &str) -> (r: String)
    ensures
        r@ == below(base@, rel@),
{
    let cs = text::chars_of(base);
    if cs.len() == 0 || cs[cs.len() - 1] == '/' {
        text::cat2(base, rel)
    } else {
        text::cat3(base, "/", rel)
    }
}

/// The on-disk locations the background worker owns, all under the user's home
/// directory, and the config file.
#[derive(Debug, PartialEq, Eq)]
pub struct Paths {
    pub bundle_dir: String,
    pub bundle_bin: String,
    pub info_plist: String,
    pub config_file: String,
    /// Persistent self-signed signing identity (cert + key). Survives uninstall
    /// so the bundle's code-signature stays stable across reinstalls.
    pub codesign_dir: String,
    pub agent_plist: String,
    pub stdout_log: String,
    pub stderr_log: String,
}

/// What [`Paths`] stands for.
#[verifier::ext_equal]
pub struct PathsView {
    pub bundle_dir: Seq<char>,
    pub bundle_bin: Seq<char>,
    pub info_plist: Seq<char>,
    pub config_file: Seq<char>,
    pub codesign_dir: Seq<char>,
    pub agent_plist: Seq<char>,
    pub stdout_log: Seq<char>,
    pub stderr_log: Seq<char>,
}

impl View for Paths {
    type V = PathsView;

    open spec fn view(&self) -> PathsView {
        PathsView {
            bundle_dir: self.bundle_dir@,
            bundle_bin: self.bundle_bin@,
            info_plist: self.info_plist@,
            config_file: self.config_file@,
            codesign_dir: self.codesign_dir@,
            agent_plist: self.agent_plist@,
            stdout_log: self.stdout_log@,
            stderr_log: self.stderr_log@,
        }
    }
}

/// The locations under a home directory.
pub open spec fn paths_under(home: Seq<char>, config_file: Seq<char>) -> PathsView {
    let bundle = below(home, "Applications/Velos.app"@);
    PathsView {
        bundle_dir: bundle,
        bundle_bin: below(below(bundle, "Contents/MacOS"@), BUNDLE_EXECUTABLE@),
        info_plist: below(bundle, "Contents/Info.plist"@),
        config_file,
        codesign_dir: below(home, ".velos/codesign"@),
        agent_plist: below(below(home, "Library/LaunchAgents"@), BUNDLE_ID@ + ".plist"@),
        stdout_log: below(home, "Library/Logs/veloslet.out.log"@),
        stderr_log: below(home, "Library/Logs/veloslet.err.log"@),
    }
}

impl Paths {
    /// The locations under the home directory `home`.
    pub fn resolve(home: &str, config_file: &str) -> (r: Paths)
        ensures
            r@ == paths_under(home@, config_file@),
    {
        let bundle_dir = path_below(home, "Applications/Velos.app");
        Paths {
            bundle_bin: path_below(&path_below(&bundle_dir, "Contents/MacOS"), BUNDLE_EXECUTABLE),
            info_plist: path_below(&bundle_dir, "Contents/Info.plist"),
            bundle_dir,
            config_file: config_file.to_owned(),
            codesign_dir: path_below(home, ".velos/codesign"),
            agent_plist: path_below(
                &path_below(home, "Library/LaunchAgents"),
                &text::cat2(BUNDLE_ID, ".plist"),
            ),
            stdout_log: path_below(home, "Library/Logs/veloslet.out.log"),
            stderr_log: path_below(home, "Library/Logs/veloslet.err.log"),
        }
    }
}

/// One effect on the machine.
#[derive(Debug, PartialEq, Eq)]
pub enum Step {
    /// Copy a file, creating the directory it goes to.
    Copy { from: String, to: String, mode: u32 },
    /// Write a file, creating the directory it goes to.
    Write { path: String, contents: String, mode: u32 },
    /// Code-sign a bundle with the identity kept in a directory.
    Sign { bundle: String, identity_dir: String },
    /// Have the system verify the signature of a bundle.
    Verify { bundle: String },
    /// Unload an agent, whether it is loaded or not.
    Unload { agent: String },
    /// Load an agent.
    Load { agent: String },
    /// Show the Local Network privacy settings, if they can be shown.
    ShowPrivacySettings,
    /// Remove a file, if it is there.
    RemoveFile { path: String },
    /// Remove a directory and all it holds, if it is there.
    RemoveDir { path: String },
}

/// What a [`Step`] stands for.
#[verifier::ext_equal]
pub enum StepView {
    Copy { from: Seq<char>, to: Seq<char>, mode: u32 },
    Write { path: Seq<char>, contents: Seq<char>, mode: u32 },
    Sign { bundle: Seq<char>, identity_dir: Seq<char> },
    Verify { bundle: Seq<char> },
    Unload { agent: Seq<char> },
    Load { agent: Seq<char> },
    ShowPrivacySettings,
    RemoveFile { path: Seq<char> },
    RemoveDir { path: Seq<char> },
}

impl View for Step {
    type V = StepView;

    open spec fn view(&self) -> StepView {
        match self {
            Step::Copy { from, to, mode } => StepView::Copy { from: from@, to: to@, mode: *mode },
            Step::Write { path, contents, mode } => StepView::Write {
                path: path@,
                contents: contents@,
                mode: *mode,
            },
            Step::Sign { bundle, identity_dir } => StepView::Sign {
                bundle: bundle@,
                identity_dir: identity_dir@,
            },
            Step::Verify { bundle } => StepView::Verify { bundle: bundle@ },
            Step::Unload { agent } => StepView::Unload { agent: agent@ },
            Step::Load { agent } => StepView::Load { agent: agent@ },
            Step::ShowPrivacySettings => StepView::ShowPrivacySettings,
            Step::RemoveFile { path } => StepView::RemoveFile { path: path@ },
            Step::RemoveDir { path } => StepView::RemoveDir { path: path@ },
        }
    }
}

impl DeepView for Step {
    type V = StepView;

    open spec fn deep_view(&self) -> StepView {
        self@
    }
}

/// Whether a step may fail without the steps behind it being called off.
pub open spec fn may_fail(s: StepView) -> bool {
    s is Unload || s is ShowPrivacySettings
}

impl Step {
    /// Whether the step may fail without the steps behind it being called off.
    pub fn is_best_effort(&self) -> (r: bool)
        ensures
            r == may_fail(self@),
    {
        match self {
            Step::Unload { .. } => true,
            Step::ShowPrivacySettings => true,
            _ => false,
        }
    }
}

/// The arguments with which launchd starts the worker: the bundled binary on the config.
pub open spec fn agent_args(p: PathsView) -> Seq<Seq<char>> {
    seq![p.bundle_bin, "run"@, "--config"@, p.config_file]
}

/// Installing: give the binary `exe` a signed bundle identity, then point a LaunchAgent at
/// it and load it.
pub open spec fn start_plan(p: PathsView, exe: Seq<char>, version: Seq<char>) -> Seq<StepView> {
    seq![
        StepView::Copy { from: exe, to: p.bundle_bin, mode: 0o755 },
        StepView::Write { path: p.info_plist, contents: info_plist(version), mode: 0o644 },
        StepView::Sign { bundle: p.bundle_dir, identity_dir: p.codesign_dir },
        StepView::Verify { bundle: p.bundle_dir },
        StepView::Write {
            path: p.agent_plist,
            contents: launch_agent(
                agent_args(p),
                "/usr/local/bin:/usr/bin:/bin:/usr/sbin:/sbin"@,
                p.stdout_log,
                p.stderr_log,
            ),
            mode: 0o644,
        },
        StepView::Unload { agent: p.agent_plist },
        StepView::Load { agent: p.agent_plist },
        StepView::ShowPrivacySettings,
    ]
}

/// Stopping: the agent goes, the bundle and the config stay.
pub open spec fn stop_plan(p: PathsView) -> Seq<StepView> {
    seq![
        StepView::Unload { agent: p.agent_plist },
        StepView::RemoveFile { path: p.agent_plist },
    ]
}

/// Uninstalling: the agent, the bundle and the config go.
pub open spec fn uninstall_plan(p: PathsView) -> Seq<StepView> {
    stop_plan(p) + seq![
        StepView::RemoveDir { path: p.bundle_dir },
        StepView::RemoveFile { path: p.config_file },
    ]
}

/// The steps of `run -d`, in order: install the worker as a launchd LaunchAgent and start
/// it. A step that fails calls off those behind it, unless it is best-effort.
pub fn start_steps(paths: &Paths, exe: &str, version: &str) -> (r: Vec<Step>)
    ensures
        r.deep_view() == start_plan(paths@, exe@, version@),
{
    let program_args: [String; 4] = [
        paths.bundle_bin.clone(),
        "run".to_owned(),
        "--config".to_owned(),
        paths.config_file.clone(),
    ];
    let args: &[String] = &program_args;
    assert(args.deep_view() =~= agent_args(paths@));
    let agent = render_launch_agent(
        args,
        "/usr/local/bin:/usr/bin:/bin:/usr/sbin:/sbin",
        &paths.stdout_log,
        &paths.stderr_log,
    );
    let r = vec![
        Step::Copy { from: exe.to_owned(), to: paths.bundle_bin.clone(), mode: 0o755 },
        Step::Write {
            path: paths.info_plist.clone(),
            contents: render_info_plist(version),
            mode: 0o644,
        },
        Step::Sign {
            bundle: paths.bundle_dir.clone(),
            identity_dir: paths.codesign_dir.clone(),
        },
        Step::Verify { bundle: paths.bundle_dir.clone() },
        Step::Write { path: paths.agent_plist.clone(), contents: agent, mode: 0o644 },
        Step::Unload { agent: paths.agent_plist.clone() },
        Step::Load { agent: paths.agent_plist.clone() },
        Step::ShowPrivacySettings,
    ];
    assert(r.deep_view() =~= start_plan(paths@, exe@, version@));
    r
}

/// The steps of `stop`: unload the LaunchAgent, leaving the bundle and config in place so
/// `run -d` can start it again without re-joining.
pub fn stop_steps(paths: &Paths) -> (r: Vec<Step>)
    ensures
        r.deep_view() == stop_plan(paths@),
{
    let r = vec![
        Step::Unload { agent: paths.agent_plist.clone() },
        Step::RemoveFile { path: paths.agent_plist.clone() },
    ];
    assert(r.deep_view() =~= stop_plan(paths@));
    r
}

/// The steps of `uninstall`: take the worker off this machine for good.
pub fn uninstall_steps(paths: &Paths) -> (r: Vec<Step>)
    ensures
        r.deep_view() == uninstall_plan(paths@),
{
    let r = vec![
        Step::Unload { agent: paths.agent_plist.clone() },
        Step::RemoveFile { path: paths.agent_plist.clone() },
        Step::RemoveDir { path: paths.bundle_dir.clone() },
        Step::RemoveFile { path: paths.config_file.clone() },
    ];
    assert(r.deep_view() =~= uninstall_plan(paths@));
    r
}

/// What to say where there is no launchd.
pub open spec fn not_macos_text(command: Seq<char>) -> Seq<char> {
    "`veloslet "@ + command
        + "` manages a macOS launchd LaunchAgent and does nothing on this platform — run the worker with `veloslet run` under your own service manager (systemd, supervisord, …) instead"@
}

/// What to say of a config without a credential.
pub open spec fn not_joined_text(config_file: Seq<char>) -> Seq<char> {
    "the config at "@ + config_file + " has no credential — run `veloslet setup` first"@
}

/// Whether the background worker can be managed on this platform; if not, what to do
/// instead.
pub fn require_macos(on_macos: bool, command: &str) -> (r: Result<(), String>)
    ensures
        match r {
            Ok(_) => on_macos,
            Err(m) => !on_macos && m@ == not_macos_text(command@),
        },
{
    if on_macos {
        Ok(())
    } else {
        Err(
            text::cat3(
                "`veloslet ",
                command,
                "` manages a macOS launchd LaunchAgent and does nothing on this platform — run the worker with `veloslet run` under your own service manager (systemd, supervisord, …) instead",
            ),
        )
    }
}

/// Whether a config may run in the background: only a worker that joined can authenticate.
pub fn require_joined(cfg: &WorkerConfig, config_file: &str) -> (r: Result<(), String>)
    ensures
        match r {
            Ok(_) => cfg.credential is Some,
            Err(m) => cfg.credential is None && m@ == not_joined_text(config_file@),
        },
{
    if cfg.is_connected() {
        Ok(())
    } else {
        Err(
            text::cat3(
                "the config at ",
                config_file,
                " has no credential — run `veloslet setup` first",
            ),
        )
    }
}

/// Why `run -d` is refused, if it is: the platform is looked at first, then whether the
/// worker joined, then whether the host can be measured, then its capacity, and last
/// whether the running binary can be found.
pub open spec fn daemon_problem(
    on_macos: bool,
    cfg: WorkerConfig,
    config_file: Seq<char>,
    host: Result<HostResources, String>,
    exe: Result<String, String>,
) -> Option<Seq<char>> {
    if !on_macos {
        Some(not_macos_text("run -d"@))
    } else if cfg.credential is None {
        Some(not_joined_text(config_file))
    } else {
        match host {
            Err(why) => Some(why@),
            Ok(h) => match (host::capacity_problem(cfg.cpu, cfg.memory, h), exe) {
                (Some(problem), _) => Some(problem),
                (None, Err(why)) => Some(why@),
                (None, Ok(_)) => None,
            },
        }
    }
}

/// Decides `run -d`: the steps that install and start the worker `cfg`, or why it is
/// refused. Only a worker that joined, on macOS, within what the machine has, is ever
/// installed. `host` is what was measured and `exe` the running binary, or why it could not
/// be told.
pub fn prepare_daemon(
    on_macos: bool,
    cfg: &WorkerConfig,
    host: Result<HostResources, String>,
    paths: &Paths,
    exe: Result<String, String>,
    version: &str,
) -> (r: Result<Vec<Step>, String>)
    ensures
        match daemon_problem(on_macos, *cfg, paths.config_file@, host, exe) {
            None => r matches Ok(steps) && steps.deep_view() == start_plan(
                paths@,
                exe->Ok_0@,
                version@,
            ),
            Some(problem) => r matches Err(m) && m@ == problem,
        },
        r is Ok <==> on_macos && cfg.credential is Some && (host matches Ok(h) && host::fits_host(
            cfg.cpu,
            cfg.memory,
            h,
        )) && exe is Ok,
{
    if let Err(m) = require_macos(on_macos, "run -d") {
        return Err(m);
    }
    if let Err(m) = require_joined(cfg, &paths.config_file) {
        return Err(m);
    }
    match host {
        Err(why) => Err(why),
        Ok(h) => match host::validate_capacity(cfg.cpu, cfg.memory, h) {
            Err(e) => Err(e.message()),
            Ok(_) => match exe {
                Err(why) => Err(why),
                Ok(binary) => Ok(start_steps(paths, &binary, version)),
            },
        },
    }
}

/// The line that `setup` prints for a join: whether it is a first join, a re-join under the
/// same name, or one under another.
pub open spec fn join_line(
    previous: Option<Seq<char>>,
    server: Seq<char>,
    node: Seq<char>,
) -> Seq<char> {
    match previous {
        Some(p) => if p == node {
            "re-joined "@ + server + " as "@ + node
        } else {
            "joined "@ + server + " as "@ + node + (" (was "@ + p + ")"@)
        },
        None => "joined "@ + server + " as "@ + node,
    }
}

/// The line that `setup` prints once `cfg` was saved; `previous` is the name in the config
/// it replaced.
pub fn joined_line(previous: &Option<String>, cfg: &WorkerConfig) -> (r: String)
    ensures
        r@ == join_line(previous.deep_view(), cfg.server@, cfg.node@),
{
    match previous {
        Some(p) => if *p == cfg.node {
            text::cat4("re-joined ", &cfg.server, " as ", &cfg.node)
        } else {
            text::cat5("joined ", &cfg.server, " as ", &cfg.node, &text::cat3(" (was ", p, ")"))
        },
        None => text::cat4("joined ", &cfg.server, " as ", &cfg.node),
    }
}

// ---------------------------------------------------------------------------
// What holds of secrets, files and steps
// ---------------------------------------------------------------------------

/// The join is one-shot: whatever a config held before, once it adopted a credential it
/// holds no join token, and presents that credential on every later start.
pub proof fn law_join_is_one_shot(cfg: WorkerConfig, credential: String)
    ensures
        joined(cfg, credential).token is None,
        bearer_of(joined(cfg, credential)) == Ok::<Bearer, JoinError>(
            Bearer::Credential(credential),
        ),
{
}

/// A worker that joined never presents a join token again, even with one left on disk.
pub proof fn law_credential_outranks_token(cfg: WorkerConfig)
    ensures
        cfg.credential is Some <==> bearer_of(cfg) matches Ok(Bearer::Credential(_)),
        bearer_of(cfg) matches Ok(Bearer::Join(_)) ==> cfg.credential is None,
{
}

/// What is shown of a bearer says nothing of its secret: two of one kind show the same.
pub proof fn law_bearer_shows_no_secret(a: Bearer, b: Bearer)
    requires
        a is Join == b is Join,
    ensures
        shown(a) == shown(b),
{
}

/// Escaped text holds no markup; a text without any is left as it is.
pub proof fn law_escaping_neutralizes_markup(s: Seq<char>)
    ensures
        !escaped(s).contains('<'),
        !escaped(s).contains('>'),
        (forall|i: int| 0 <= i < s.len() ==> #[trigger] s[i] != '&' && s[i] != '<' && s[i] != '>')
            ==> escaped(s) == s,
    decreases s.len(),
{
    reveal_strlit("&amp;");
    reveal_strlit("&lt;");
    reveal_strlit("&gt;");
    if s.len() > 0 {
        let init = s.drop_last();
        law_escaping_neutralizes_markup(init);
        let head = escaped(init);
        let tail = escaped_char(s.last());
        let all = escaped(s);
        assert forall|k: int| 0 <= k < tail.len() implies #[trigger] tail[k] != '<' && tail[k]
            != '>' by {}
        assert forall|k: int| 0 <= k < all.len() implies #[trigger] all[k] != '<' && all[k]
            != '>' by {
            if k < head.len() {
                assert(head.contains(head[k]));
            } else {
                assert(all[k] == tail[k - head.len()]);
            }
        }
        if forall|i: int| 0 <= i < s.len() ==> #[trigger] s[i] != '&' && s[i] != '<' && s[i] != '>' {
            assert forall|i: int| 0 <= i < init.len() implies #[trigger] init[i] != '&' && init[i]
                != '<' && init[i] != '>' by {
                assert(init[i] == s[i]);
            }
            assert(s[s.len() - 1] == s.last());
            assert(all =~= s);
        }
    }
}

/// The agent is loaded only after the bundle was signed and its signature verified, and
/// only those two steps that say so may fail without calling off the rest.
pub proof fn law_nothing_unsigned_is_loaded(
    p: PathsView,
    exe: Seq<char>,
    version: Seq<char>,
    i: int,
)
    requires
        0 <= i < start_plan(p, exe, version).len(),
        start_plan(p, exe, version)[i] is Load,
    ensures
        exists|s: int, v: int|
            0 <= s < v < i && #[trigger] start_plan(p, exe, version)[s] == (StepView::Sign {
                bundle: p.bundle_dir,
                identity_dir: p.codesign_dir,
            }) && #[trigger] start_plan(p, exe, version)[v] == (StepView::Verify {
                bundle: p.bundle_dir,
            }) && !may_fail(start_plan(p, exe, version)[s]) && !may_fail(
                start_plan(p, exe, version)[v],
            ),
{
    let plan = start_plan(p, exe, version);
    assert(plan[2] == (StepView::Sign { bundle: p.bundle_dir, identity_dir: p.codesign_dir }));
    assert(plan[3] == (StepView::Verify { bundle: p.bundle_dir }));
}

/// Whether a step takes something off the machine.
pub open spec fn removes(s: StepView, path: Seq<char>) -> bool {
    s == (StepView::RemoveFile { path }) || s == (StepView::RemoveDir { path })
}

/// Stopping takes nothing off the machine but the agent: the bundle and the config, with
/// its credential, stay. Uninstalling takes all three, and nothing else.
pub proof fn law_stop_keeps_what_uninstall_removes(p: PathsView, i: int, path: Seq<char>)
    ensures
        0 <= i < stop_plan(p).len() && removes(stop_plan(p)[i], path) ==> path == p.agent_plist,
        0 <= i < uninstall_plan(p).len() && removes(uninstall_plan(p)[i], path) ==> path
            == p.agent_plist || path == p.bundle_dir || path == p.config_file,
        uninstall_plan(p).contains(StepView::RemoveFile { path: p.config_file }),
        uninstall_plan(p).contains(StepView::RemoveDir { path: p.bundle_dir }),
        uninstall_plan(p).contains(StepView::RemoveFile { path: p.agent_plist }),
{
    let plan = uninstall_plan(p);
    assert(plan[1] == (StepView::RemoveFile { path: p.agent_plist }));
    assert(plan[2] == (StepView::RemoveDir { path: p.bundle_dir }));
    assert(plan[3] == (StepView::RemoveFile { path: p.config_file }));
}

/// What lies below a directory under names that start differently is different.
proof fn lemma_below_differs(base: Seq<char>, a: Seq<char>, b: Seq<char>)
    requires
        a.len() > 0,
        b.len() > 0,
        a[0] != b[0],
    ensures
        below(base, a) != below(base, b),
{
    let n: int = if base.len() == 0 || base.last() == '/' {
        base.len() as int
    } else {
        base.len() as int + 1
    };
    reveal_strlit("/");
    assert(below(base, a)[n] == a[0]);
    assert(below(base, b)[n] == b[0]);
}

/// The signing identity survives uninstalling, so that the bundle's signature stays stable
/// across reinstalls: no step removes it, unless it was named as the config file.
pub proof fn law_signing_identity_survives(home: Seq<char>, config_file: Seq<char>, i: int)
    requires
        config_file != paths_under(home, config_file).codesign_dir,
        0 <= i < uninstall_plan(paths_under(home, config_file)).len(),
    ensures
        !removes(
            uninstall_plan(paths_under(home, config_file))[i],
            paths_under(home, config_file).codesign_dir,
        ),
{
    let p = paths_under(home, config_file);
    reveal_strlit(".velos/codesign");
    reveal_strlit("Applications/Velos.app");
    reveal_strlit("Library/LaunchAgents");
    reveal_strlit("/");
    lemma_below_differs(home, ".velos/codesign"@, "Applications/Velos.app"@);
    let agents = below(home, "Library/LaunchAgents"@);
    let file = BUNDLE_ID@ + ".plist"@;
    let rest = "Library/LaunchAgents"@ + "/"@ + file;
    assert(agents.last() == "Library/LaunchAgents"@.last());
    assert(p.agent_plist =~= below(home, rest));
    assert(rest[0] == "Library/LaunchAgents"@[0]);
    lemma_below_differs(home, ".velos/codesign"@, rest);
}

/// A worker presents the secret that it holds, as what it is, and fails where it holds none;
/// joining changes its secrets and nothing else.
pub proof fn law_bearer_is_the_secret_held(cfg: WorkerConfig, credential: String)
    ensures
        cfg.credential matches Some(c) ==> (bearer_of(cfg) matches Ok(b) && b is Credential
            && secret(b) == c@),
        cfg.credential is None ==> (cfg.token matches Some(t) ==> (bearer_of(cfg) matches Ok(b)
            && b is Join && secret(b) == t@)),
        bearer_of(cfg) is Err <==> cfg.credential is None && cfg.token is None,
        joined(cfg, credential).server == cfg.server,
        joined(cfg, credential).node == cfg.node,
        joined(cfg, credential).cpu == cfg.cpu,
        joined(cfg, credential).memory == cfg.memory,
        joined(cfg, credential).reconcile_secs == cfg.reconcile_secs,
        joined(cfg, credential).heartbeat_secs == cfg.heartbeat_secs,
        joined(cfg, credential).lease_secs == cfg.lease_secs,
{
}

/// What is shown of a bearer tells a join token from a credential.
pub proof fn law_bearers_are_told_apart(a: Bearer, b: Bearer)
    ensures
        shown(a) == shown(b) ==> a is Join == b is Join,
{
    reveal_strlit("Join(***)");
    reveal_strlit("Credential(***)");
    assert("Join(***)"@.len() == 9 && "Credential(***)"@.len() == 15);
}

/// A response issues exactly the string under `token`, where there is one and it is not empty.
pub proof fn law_issued_is_the_token(response: JsonView, s: Seq<char>)
    ensures
        issued(response) == Some(s) <==> json::get(response, "token"@) == Some(JsonView::Text(s))
            && s.len() > 0,
{
}

/// The two reasons not to join are told apart.
pub proof fn law_join_errors_are_told_apart()
    ensures
        join_error_text(JoinError::NoSecret) != join_error_text(JoinError::NoCredentialIssued),
{
    reveal_strlit(
        "worker config holds neither a credential nor a join token; mint one with `velosctl token create` and re-run `veloslet install --token <token>`",
    );
    reveal_strlit("the server accepted the join token but returned no worker credential");
    assert(join_error_text(JoinError::NoSecret)[0] == 'w');
    assert(join_error_text(JoinError::NoCredentialIssued)[0] == 't');
}

/// Text is escaped character by character: the three characters of markup become entities, and
/// any other stays.
pub proof fn law_escaping_is_character_by_character(a: Seq<char>, b: Seq<char>, c: char)
    ensures
        escaped(a + b) == escaped(a) + escaped(b),
        escaped(seq!['&']) == "&amp;"@,
        escaped(seq!['<']) == "&lt;"@,
        escaped(seq!['>']) == "&gt;"@,
        c != '&' && c != '<' && c != '>' ==> escaped(seq![c]) == seq![c],
    decreases b.len(),
{
    reveal_with_fuel(escaped, 2);
    assert(seq!['&'].drop_last() =~= Seq::<char>::empty());
    assert(seq!['<'].drop_last() =~= Seq::<char>::empty());
    assert(seq!['>'].drop_last() =~= Seq::<char>::empty());
    assert(seq![c].drop_last() =~= Seq::<char>::empty());
    assert(escaped(seq!['&']) =~= "&amp;"@);
    assert(escaped(seq!['<']) =~= "&lt;"@);
    assert(escaped(seq!['>']) =~= "&gt;"@);
    assert(escaped(seq![c]) =~= escaped_char(c));
    if b.len() == 0 {
        assert(a + b =~= a);
    } else {
        law_escaping_is_character_by_character(a, b.drop_last(), c);
        assert((a + b).drop_last() =~= a + b.drop_last());
        assert((a + b).last() == b.last());
    }
    assert(escaped(a + b) =~= escaped(a) + escaped(b));
}

/// What lies below a directory starts with the directory and ends with its own name, with one
/// slash between them whether the directory is written with one or not.
pub proof fn law_one_slash_stands_between(base: Seq<char>, rel: Seq<char>)
    ensures
        text::starts_with(below(base, rel), base),
        text::ends_with(below(base, rel), rel),
        base.len() > 0 && base.last() != '/' ==> below(base, rel) == base + seq!['/'] + rel
            && below(base.push('/'), rel) == below(base, rel),
{
    reveal_strlit("/");
    let none = Seq::<char>::empty();
    assert("/"@ =~= seq!['/']);
    if base.len() == 0 || base.last() == '/' {
        text::law_parts_of_a_string(base, rel, none);
        text::law_parts_of_a_string(none, base, rel);
    } else {
        text::law_parts_of_a_string(base + "/"@, rel, none);
        text::law_parts_of_a_string(none, base, "/"@ + rel);
        assert(base + ("/"@ + rel) =~= base + "/"@ + rel);
        assert(below(base.push('/'), rel) =~= below(base, rel));
    }
}

proof fn lemma_starts_through(a: Seq<char>, b: Seq<char>, c: Seq<char>)
    requires
        text::starts_with(a, b),
        text::starts_with(b, c),
    ensures
        text::starts_with(a, c),
{
    text::law_strings_take_apart(a, b);
    text::law_strings_take_apart(b, c);
    let n = c.len() as int;
    let rest = b.skip(n) + a.skip(b.len() as int);
    assert(a =~= c + rest);
    text::law_parts_of_a_string(Seq::empty(), c, rest);
}

/// All that the background worker owns lies in the home directory: the binary and its
/// description in the bundle, the agent under the bundle's name. The config is where it was
/// said to be, and the two logs are two files.
pub proof fn law_paths_lie_in_the_home(home: Seq<char>, config_file: Seq<char>)
    ensures
        ({
            let p = paths_under(home, config_file);
            &&& p.config_file == config_file
            &&& text::starts_with(p.bundle_dir, home)
            &&& text::starts_with(p.bundle_bin, p.bundle_dir)
            &&& text::ends_with(p.bundle_bin, "veloslet"@)
            &&& text::starts_with(p.info_plist, p.bundle_dir)
            &&& text::ends_with(p.info_plist, "Contents/Info.plist"@)
            &&& text::starts_with(p.codesign_dir, home)
            &&& text::starts_with(p.agent_plist, home)
            &&& text::ends_with(
                p.agent_plist,
                "io.github.blossomstack.velos-worker"@ + ".plist"@,
            )
            &&& text::starts_with(p.stdout_log, home)
            &&& text::starts_with(p.stderr_log, home)
            &&& p.stdout_log != p.stderr_log
        }),
{
    let p = paths_under(home, config_file);
    law_one_slash_stands_between(home, "Applications/Velos.app"@);
    law_one_slash_stands_between(p.bundle_dir, "Contents/MacOS"@);
    let dir = below(p.bundle_dir, "Contents/MacOS"@);
    law_one_slash_stands_between(dir, BUNDLE_EXECUTABLE@);
    lemma_starts_through(p.bundle_bin, dir, p.bundle_dir);
    law_one_slash_stands_between(p.bundle_dir, "Contents/Info.plist"@);
    law_one_slash_stands_between(home, ".velos/codesign"@);
    law_one_slash_stands_between(home, "Library/LaunchAgents"@);
    let agents = below(home, "Library/LaunchAgents"@);
    law_one_slash_stands_between(agents, BUNDLE_ID@ + ".plist"@);
    lemma_starts_through(p.agent_plist, agents, home);
    law_one_slash_stands_between(home, "Library/Logs/veloslet.out.log"@);
    law_one_slash_stands_between(home, "Library/Logs/veloslet.err.log"@);
    reveal_strlit("Library/Logs/veloslet.out.log");
    reveal_strlit("Library/Logs/veloslet.err.log");
    let out = "Library/Logs/veloslet.out.log"@;
    let err = "Library/Logs/veloslet.err.log"@;
    assert(out.len() == 29 && err.len() == 29);
    assert(out[22] == 'o' && err[22] == 'e');
    let n = p.stdout_log.len() - 29;
    assert(p.stdout_log[n + 22] == out[22]);
    assert(p.stderr_log[n + 22] == err[22]);
}

/// The bundle's description holds its identity and the version, escaped, and ends with what
/// makes it a background app that says why it wants the local network.
pub proof fn law_description_holds_the_version(version: Seq<char>)
    ensures
        text::contains(info_plist(version), escaped(version)),
        text::contains(info_plist(version), escaped("io.github.blossomstack.velos-worker"@)),
        text::contains(info_plist(version), escaped("veloslet"@)),
        text::ends_with(
            info_plist(version),
            r#"</string>
    <key>LSBackgroundOnly</key><true/>
    <key>NSLocalNetworkUsageDescription</key>
    <string>Velos Worker connects to the Velos control-plane server on your local network to register this machine and reconcile containers.</string>
</dict>
</plist>
"#@,
        ),
{
    let all = info_plist(version);
    let end = r#"</string>
    <key>LSBackgroundOnly</key><true/>
    <key>NSLocalNetworkUsageDescription</key>
    <string>Velos Worker connects to the Velos control-plane server on your local network to register this machine and reconcile containers.</string>
</dict>
</plist>
"#@;
    let before = all.take(all.len() - end.len());
    assert(all =~= before + end);
    text::law_parts_of_a_string(before, end, Seq::empty());
    let a = r#"<?xml version="1.0" encoding="UTF-8"?>
<!DOCTYPE plist PUBLIC "-//Apple//DTD PLIST 1.0//EN" "http://www.apple.com/DTDs/PropertyList-1.0.dtd">
<plist version="1.0">
<dict>
    <key>CFBundleName</key><string>Velos</string>
    <key>CFBundleDisplayName</key><string>"#@ + escaped(BUNDLE_DISPLAY_NAME@) + r#"</string>
    <key>CFBundleIdentifier</key><string>"#@;
    let id = escaped(BUNDLE_ID@);
    let b = r#"</string>
    <key>CFBundleExecutable</key><string>"#@;
    let exe = escaped(BUNDLE_EXECUTABLE@);
    let c = r#"</string>
    <key>CFBundlePackageType</key><string>APPL</string>
    <key>CFBundleInfoDictionaryVersion</key><string>6.0</string>
    <key>CFBundleVersion</key><string>"#@;
    let v = escaped(version);
    let d = all.skip((a + id + b + exe + c + v).len() as int);
    assert(all =~= a + id + b + exe + c + v + d);
    assert(all =~= a + id + (b + exe + c + v + d));
    text::law_parts_of_a_string(a, id, b + exe + c + v + d);
    assert(all =~= a + id + b + exe + (c + v + d));
    text::law_parts_of_a_string(a + id + b, exe, c + v + d);
    text::law_parts_of_a_string(a + id + b + exe + c, v, d);
}

/// Every program argument has a line of its own, escaped.
pub proof fn law_arguments_have_a_line_each(args: Seq<Seq<char>>, i: int)
    requires
        0 <= i < args.len(),
    ensures
        arg_lines(args).len() == args.len(),
        arg_lines(args)[i] == "        <string>"@ + escaped(args[i]) + "</string>"@,
{
}

/// Installing takes eight steps: the running binary is copied into the bundle, executable, and
/// described; the bundle is signed and verified; the agent is written, unloaded if it was
/// loaded, and loaded. Nothing is removed, and it is the config of the paths that it runs on.
pub proof fn law_install_is_complete(p: PathsView, exe: Seq<char>, version: Seq<char>, i: int)
    ensures
        ({
            let plan = start_plan(p, exe, version);
            &&& plan.len() == 8
            &&& plan[0] == (StepView::Copy { from: exe, to: p.bundle_bin, mode: 0o755 })
            &&& plan[1] == (StepView::Write {
                path: p.info_plist,
                contents: info_plist(version),
                mode: 0o644,
            })
            &&& plan[4] matches StepView::Write { path, contents, mode } && path == p.agent_plist
                && mode == 0o644 && contents == launch_agent(
                seq![p.bundle_bin, "run"@, "--config"@, p.config_file],
                "/usr/local/bin:/usr/bin:/bin:/usr/sbin:/sbin"@,
                p.stdout_log,
                p.stderr_log,
            )
            &&& plan[5] == (StepView::Unload { agent: p.agent_plist })
            &&& plan[6] == (StepView::Load { agent: p.agent_plist })
            &&& 0 <= i < 8 ==> !(plan[i] is RemoveFile) && !(plan[i] is RemoveDir)
        }),
{
}

/// Stopping and uninstalling unload the agent before they take its file, in that order.
pub proof fn law_agent_is_unloaded_first(p: PathsView)
    ensures
        stop_plan(p).len() == 2,
        stop_plan(p)[0] == (StepView::Unload { agent: p.agent_plist }),
        stop_plan(p)[1] == (StepView::RemoveFile { path: p.agent_plist }),
        uninstall_plan(p).len() == 4,
        uninstall_plan(p).take(2) == stop_plan(p),
{
    assert(uninstall_plan(p).take(2) =~= stop_plan(p));
}

/// Only unloading an agent and showing the settings may fail without calling off the rest.
pub proof fn law_other_steps_must_succeed(s: StepView)
    ensures
        match s {
            StepView::Unload { .. } => may_fail(s),
            StepView::ShowPrivacySettings => may_fail(s),
            StepView::Copy { .. } => !may_fail(s),
            StepView::Write { .. } => !may_fail(s),
            StepView::Sign { .. } => !may_fail(s),
            StepView::Verify { .. } => !may_fail(s),
            StepView::Load { .. } => !may_fail(s),
            StepView::RemoveFile { .. } => !may_fail(s),
            StepView::RemoveDir { .. } => !may_fail(s),
        },
{
}

/// A worker is installed exactly where it is on macOS, joined, within what the machine has, and
/// its binary is known; what is said else is of the first of these that is not so.
pub proof fn law_first_problem_is_told(
    on_macos: bool,
    cfg: WorkerConfig,
    config_file: Seq<char>,
    host: Result<HostResources, String>,
    exe: Result<String, String>,
)
    ensures
        ({
            let problem = daemon_problem(on_macos, cfg, config_file, host, exe);
            &&& problem is None <==> on_macos && cfg.credential is Some && (host matches Ok(h)
                && host::fits_host(cfg.cpu, cfg.memory, h)) && exe is Ok
            &&& !on_macos ==> problem == Some(not_macos_text("run -d"@))
            &&& on_macos && cfg.credential is None ==> problem == Some(
                not_joined_text(config_file),
            )
            &&& on_macos && cfg.credential is Some ==> (host matches Err(why) ==> problem == Some(
                why@,
            ))
            &&& on_macos && cfg.credential is Some ==> (host matches Ok(h) && !host::fits_host(
                cfg.cpu,
                cfg.memory,
                h,
            ) ==> problem == host::capacity_problem(cfg.cpu, cfg.memory, host->Ok_0))
            &&& on_macos && cfg.credential is Some && (host matches Ok(h) && host::fits_host(
                cfg.cpu,
                cfg.memory,
                h,
            )) ==> (exe matches Err(why) ==> problem == Some(why@))
        }),
{
}

/// What is said of a platform names the command, and what is said of a config names the file.
pub proof fn law_refusals_name_their_subject(command: Seq<char>, config_file: Seq<char>)
    ensures
        text::contains(not_macos_text(command), "veloslet "@ + command),
        text::contains(not_joined_text(config_file), config_file),
{
    reveal_strlit("`veloslet ");
    reveal_strlit("veloslet ");
    assert("`veloslet "@ =~= seq!['`'] + "veloslet "@);
    let rest = "` manages a macOS launchd LaunchAgent and does nothing on this platform — run the worker with `veloslet run` under your own service manager (systemd, supervisord, …) instead"@;
    assert(not_macos_text(command) =~= seq!['`'] + ("veloslet "@ + command) + rest);
    text::law_parts_of_a_string(seq!['`'], "veloslet "@ + command, rest);
    text::law_parts_of_a_string(
        "the config at "@,
        config_file,
        " has no credential — run `veloslet setup` first"@,
    );
}

/// The line of a join names the server and the worker; it is that of a re-join exactly where
/// the config held that name before, and names another name that it held.
pub proof fn law_join_line_tells_the_change(
    previous: Option<Seq<char>>,
    server: Seq<char>,
    node: Seq<char>,
)
    ensures
        text::contains(join_line(previous, server, node), server + " as "@ + node),
        text::starts_with(join_line(previous, server, node), "re-joined "@) <==> previous == Some(
            node,
        ),
        previous matches Some(p) && p != node ==> text::ends_with(
            join_line(previous, server, node),
            " (was "@ + previous->0 + ")"@,
        ),
{
    let none = Seq::<char>::empty();
    let line = join_line(previous, server, node);
    let who = server + " as "@ + node;
    reveal_strlit("re-joined ");
    reveal_strlit("joined ");
    let lead = if previous == Some(node) {
        "re-joined "@
    } else {
        "joined "@
    };
    let tail = if previous is Some && previous != Some(node) {
        " (was "@ + previous->0 + ")"@
    } else {
        none
    };
    assert(line =~= lead + who + tail);
    text::law_parts_of_a_string(lead, who, tail);
    text::law_parts_of_a_string(lead + who, tail, none);
    if previous == Some(node) {
        assert(line =~= lead + (who + tail));
        text::law_parts_of_a_string(none, lead, who + tail);
    } else {
        assert(line[0] == 'j');
        text::law_strings_take_apart(line, "re-joined "@);
        assert("re-joined "@[0] == 'r');
    }
}

/// The agent's description holds the lines of the arguments, the search path and the paths of
/// the two logs, escaped, each behind its key.
pub proof fn law_agent_holds_its_settings(
    args: Seq<Seq<char>>,
    path_env: Seq<char>,
    stdout_path: Seq<char>,
    stderr_path: Seq<char>,
)
    ensures
        ({
            let all = launch_agent(args, path_env, stdout_path, stderr_path);
            &&& text::contains(all, escaped("io.github.blossomstack.velos-worker"@))
            &&& text::contains(all, text::joined(arg_lines(args), "\n"@))
            &&& text::contains(all, escaped(path_env))
            &&& text::contains(all, escaped(stdout_path))
            &&& text::contains(all, escaped(stderr_path))
        }),
{
    let all = launch_agent(args, path_env, stdout_path, stderr_path);
    let l0 = r#"<?xml version="1.0" encoding="UTF-8"?>
<!DOCTYPE plist PUBLIC "-//Apple//DTD PLIST 1.0//EN" "http://www.apple.com/DTDs/PropertyList-1.0.dtd">
<plist version="1.0">
<dict>
    <key>Label</key>
    <string>"#@;
    let l1 = r#"</string>

    <!-- Tell macOS which signed bundle is responsible for this agent's network
         access so Local Network Privacy can attribute (and prompt for) the
         connection instead of silently denying it. (Apple TN3179) -->
    <key>AssociatedBundleIdentifiers</key>
    <array>
        <string>"#@;
    let l2 = r#"</string>
    </array>

    <key>ProgramArguments</key>
    <array>
"#@;
    let l3 = r#"
    </array>

    <!-- launchd's default PATH is minimal; add /usr/local/bin so the Apple
         `container` CLI is discoverable by the runtime. -->
    <key>EnvironmentVariables</key>
    <dict>
        <key>PATH</key>
        <string>"#@;
    let l4 = r#"</string>
        <key>RUST_LOG</key>
        <string>info</string>
    </dict>

    <key>RunAtLoad</key>
    <true/>
    <key>KeepAlive</key>
    <true/>

    <key>StandardOutPath</key>
    <string>"#@;
    let l5 = r#"</string>
    <key>StandardErrorPath</key>
    <string>"#@;
    let l6 = r#"</string>
</dict>
</plist>
"#@;
    let id = escaped(BUNDLE_ID@);
    let lines = text::joined(arg_lines(args), "\n"@);
    let path = escaped(path_env);
    let out = escaped(stdout_path);
    let err = escaped(stderr_path);
    let end = err + l6;
    let back = out + l5 + end;
    let most = path + l4 + back;
    let rest = lines + l3 + most;
    let front = l0 + id + l1 + id + l2;
    assert(all =~= front + rest);
    assert(all =~= l0 + id + (l1 + id + l2 + rest));
    text::law_parts_of_a_string(l0, id, l1 + id + l2 + rest);
    assert(all =~= front + lines + (l3 + most));
    text::law_parts_of_a_string(front, lines, l3 + most);
    assert(all =~= front + lines + l3 + path + (l4 + back));
    text::law_parts_of_a_string(front + lines + l3, path, l4 + back);
    let so_far = front + lines + l3 + path + l4;
    assert(all =~= so_far + out + (l5 + end));
    text::law_parts_of_a_string(so_far, out, l5 + end);
    assert(all =~= so_far + out + l5 + err + l6);
    text::law_parts_of_a_string(so_far + out + l5, err, l6);
}

} // verus!
