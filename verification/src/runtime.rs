//! The container runtime seam.
//!
//! The worker drives micro-VMs only through the [`ContainerRuntime`] trait. Every
//! instance is keyed by its Velos container **uid**, which makes actuation
//! idempotent: reconciling after a crash matches existing instances by uid before
//! launching. Two backends: [`AppleContainer`], which turns each operation into
//! arguments of the `container` CLI, and the in-memory [`FakeRuntime`].
use vstd::prelude::*;

use crate::json;
use crate::json::{Json, JsonView};
use crate::text;

verus! {

/// How a runtime operation fails.
#[derive(Debug, PartialEq, Eq)]
pub enum RuntimeError {
    Command(String),
    Io(String),
    Lock,
}

/// The text of a runtime error.
pub open spec fn runtime_error_text(e: RuntimeError) -> Seq<char> {
    match e {
        RuntimeError::Command(s) => "runtime command failed: "@ + s@,
        RuntimeError::Io(s) => "io error: "@ + s@,
        RuntimeError::Lock => "lock poisoned"@,
    }
}

impl RuntimeError {
    /// The text of the error.
    pub fn message(&self) -> (r: String)
        ensures
            r@ == runtime_error_text(*self),
    {
        match self {
            RuntimeError::Command(s) => text::cat2("runtime command failed: ", s),
            RuntimeError::Io(s) => text::cat2("io error: ", s),
            RuntimeError::Lock => "lock poisoned".to_owned(),
        }
    }
}

/// The runtime-local identifier of a launched instance.
#[derive(Debug, PartialEq, Eq)]
pub struct InstanceId(pub String);

impl Clone for InstanceId {
    fn clone(&self) -> (r: InstanceId)
        ensures
            r == *self,
    {
        InstanceId(self.0.clone())
    }
}

/// What the worker asks the runtime to launch.
#[derive(Debug, PartialEq, Eq)]
pub struct RunSpec {
    pub uid: String,
    pub image: String,
    pub command: Vec<String>,
    pub env: Vec<(String, String)>,
}

/// What a [`RunSpec`] stands for.
#[verifier::ext_equal]
pub struct RunSpecView {
    pub uid: Seq<char>,
    pub image: Seq<char>,
    pub command: Seq<Seq<char>>,
    pub env: Seq<(Seq<char>, Seq<char>)>,
}

impl View for RunSpec {
    type V = RunSpecView;

    open spec fn view(&self) -> RunSpecView {
        RunSpecView {
            uid: self.uid@,
            image: self.image@,
            command: self.command.deep_view(),
            env: self.env.deep_view(),
        }
    }
}

impl Clone for RunSpec {
    fn clone(&self) -> (r: RunSpec)
        ensures
            r@ == self@,
    {
        RunSpec {
            uid: self.uid.clone(),
            image: self.image.clone(),
            command: text::copy_strings(&self.command),
            env: text::copy_pairs(&self.env),
        }
    }
}

/// Observed liveness of an instance. There is no "assumed running": an instance
/// the runtime cannot account for simply isn't in the list.
#[derive(Debug, Clone, Copy, PartialEq, Eq, Structural)]
pub enum InstanceState {
    Running,
    Exited { exit_code: i32 },
}

/// One instance the runtime is tracking, tagged with its Velos uid.
#[derive(Debug, PartialEq, Eq)]
pub struct Instance {
    pub uid: String,
    pub id: InstanceId,
    pub state: InstanceState,
}

/// What an [`Instance`] stands for.
#[verifier::ext_equal]
pub struct InstanceView {
    pub uid: Seq<char>,
    pub id: Seq<char>,
    pub state: InstanceState,
}

impl View for Instance {
    type V = InstanceView;

    open spec fn view(&self) -> InstanceView {
        InstanceView { uid: self.uid@, id: self.id.0@, state: self.state }
    }
}

impl DeepView for Instance {
    type V = InstanceView;

    open spec fn deep_view(&self) -> InstanceView {
        self@
    }
}

impl Clone for Instance {
    fn clone(&self) -> (r: Instance)
        ensures
            r == *self,
    {
        Instance { uid: self.uid.clone(), id: self.id.clone(), state: self.state }
    }
}

/// What the worker needs of a container runtime.
pub trait ContainerRuntime {
    /// Launch an instance tagged with `spec.uid`. Idempotent callers check
    /// [`list`](ContainerRuntime::list) first.
    fn run(&mut self, spec: &RunSpec) -> (r: Result<InstanceId, RuntimeError>);

    /// Stop the instance tagged with `uid` (no-op if already gone).
    fn stop(&mut self, uid: &str) -> (r: Result<(), RuntimeError>);

    /// Boot the stopped instance tagged with `uid` back up.
    fn start(&mut self, uid: &str) -> (r: Result<InstanceId, RuntimeError>);

    /// Remove the instance tagged with `uid` (no-op if already gone).
    fn remove(&mut self, uid: &str) -> (r: Result<(), RuntimeError>);

    /// All instances the runtime knows about, by uid.
    fn list(&self) -> (r: Result<Vec<Instance>, RuntimeError>);

    /// Reported runtime version string.
    fn version(&self) -> (r: Result<String, RuntimeError>);
}

// ---------------------------------------------------------------------------
// FakeRuntime: in memory.
// ---------------------------------------------------------------------------

/// An in-memory runtime. An exit can be simulated with [`FakeRuntime::set_exited`].
pub struct FakeRuntime {
    instances: Vec<Instance>,
}

/// No two instances share a uid.
pub open spec fn distinct_uids(s: Seq<Instance>) -> bool {
    forall|i: int, j: int|
        0 <= i < j < s.len() ==> (#[trigger] s[i]).uid@ != (#[trigger] s[j]).uid@
}

/// The instances by uid.
pub open spec fn by_uid(s: Seq<Instance>) -> Map<Seq<char>, InstanceView>
    decreases s.len(),
{
    if s.len() == 0 {
        Map::empty()
    } else {
        by_uid(s.drop_last()).insert(s.last().uid@, s.last()@)
    }
}

/// Every instance is found under its uid, and nothing else is.
proof fn lemma_by_uid(s: Seq<Instance>)
    requires
        distinct_uids(s),
    ensures
        forall|i: int|
            0 <= i < s.len() ==> by_uid(s).contains_key((#[trigger] s[i]).uid@) && by_uid(
                s,
            )[s[i].uid@] == s[i]@,
        forall|k: Seq<char>| #[trigger]
            by_uid(s).contains_key(k) ==> exists|i: int|
                0 <= i < s.len() && (#[trigger] s[i]).uid@ == k,
        by_uid(s).dom().finite(),
        by_uid(s).dom().len() == s.len(),
    decreases s.len(),
{
    if s.len() > 0 {
        let init = s.drop_last();
        lemma_by_uid(init);
        assert forall|i: int| 0 <= i < s.len() implies by_uid(s).contains_key(
            (#[trigger] s[i]).uid@,
        ) && by_uid(s)[s[i].uid@] == s[i]@ by {
            if i < s.len() - 1 {
                assert(init[i] == s[i]);
            }
        }
        assert forall|k: Seq<char>| #[trigger] by_uid(s).contains_key(k) implies exists|i: int|
            0 <= i < s.len() && (#[trigger] s[i]).uid@ == k by {
            if k == s.last().uid@ {
                assert(s[s.len() - 1].uid@ == k);
            } else {
                let i = choose|i: int| 0 <= i < init.len() && (#[trigger] init[i]).uid@ == k;
                assert(s[i].uid@ == k);
            }
        }
        assert(!by_uid(init).contains_key(s.last().uid@)) by {
            if by_uid(init).contains_key(s.last().uid@) {
                let i = choose|i: int|
                    0 <= i < init.len() && (#[trigger] init[i]).uid@ == s.last().uid@;
                assert(s[i].uid@ == s[s.len() - 1].uid@);
            }
        }
        assert(by_uid(s).dom() =~= by_uid(init).dom().insert(s.last().uid@));
    }
}

/// Two lists of distinct instances hold the same instances by uid exactly when they hold
/// the same instances.
proof fn lemma_by_uid_is(s: Seq<Instance>, m: Map<Seq<char>, InstanceView>)
    requires
        distinct_uids(s),
        forall|i: int|
            0 <= i < s.len() ==> m.contains_key((#[trigger] s[i]).uid@) && m[s[i].uid@] == s[i]@,
        forall|k: Seq<char>| #[trigger]
            m.contains_key(k) ==> exists|i: int| 0 <= i < s.len() && (#[trigger] s[i]).uid@ == k,
    ensures
        by_uid(s) == m,
{
    lemma_by_uid(s);
    assert forall|k: Seq<char>| by_uid(s).contains_key(k) == m.contains_key(k) by {
        if by_uid(s).contains_key(k) {
            let i = choose|i: int| 0 <= i < s.len() && (#[trigger] s[i]).uid@ == k;
            assert(m.contains_key(s[i].uid@));
        }
        if m.contains_key(k) {
            let i = choose|i: int| 0 <= i < s.len() && (#[trigger] s[i]).uid@ == k;
            assert(by_uid(s).contains_key(s[i].uid@));
        }
    }
    assert forall|k: Seq<char>| by_uid(s).contains_key(k) implies by_uid(s)[k] == m[k] by {
        let i = choose|i: int| 0 <= i < s.len() && (#[trigger] s[i]).uid@ == k;
        assert(m[s[i].uid@] == s[i]@);
        assert(by_uid(s)[s[i].uid@] == s[i]@);
    }
    assert(by_uid(s) =~= m);
}

impl View for FakeRuntime {
    type V = Map<Seq<char>, InstanceView>;

    closed spec fn view(&self) -> Map<Seq<char>, InstanceView> {
        by_uid(self.instances@)
    }
}

/// The instances with that of `uid`, if there is one, in state `state`.
pub open spec fn with_state(
    m: Map<Seq<char>, InstanceView>,
    uid: Seq<char>,
    state: InstanceState,
) -> Map<Seq<char>, InstanceView> {
    if m.contains_key(uid) {
        m.insert(uid, InstanceView { state, ..m[uid] })
    } else {
        m
    }
}

impl FakeRuntime {
    #[verifier::type_invariant]
    spec fn inv(self) -> bool {
        distinct_uids(self.instances@)
    }

    /// A runtime with no instances.
    pub fn new() -> (r: FakeRuntime)
        ensures
            r@ == Map::<Seq<char>, InstanceView>::empty(),
    {
        FakeRuntime { instances: Vec::new() }
    }

    /// The instances, that of `uid` in state `state`.
    fn restated(&self, uid: &str, state: InstanceState) -> (r: Vec<Instance>)
        ensures
            distinct_uids(r@),
            by_uid(r@) == with_state(self@, uid@, state),
    {
        proof {
            use_type_invariant(self);
        }
        let mut out: Vec<Instance> = Vec::new();
        let ghost all = self.instances@;
        for i in 0..self.instances.len()
            invariant
                all == self.instances@,
                out@.len() == i,
                forall|k: int|
                    0 <= k < i ==> (#[trigger] out@[k]).uid == all[k].uid && out@[k].id
                        == all[k].id && out@[k].state == (if all[k].uid@ == uid@ {
                        state
                    } else {
                        all[k].state
                    }),
        {
            let mut inst = self.instances[i].clone();
            if text::same(&inst.uid, uid) {
                inst.state = state;
            }
            out.push(inst);
        }
        proof {
            lemma_by_uid(all);
            let m = with_state(self@, uid@, state);
            assert forall|i: int, j: int| 0 <= i < j < out@.len() implies (#[trigger] out@[i]).uid@
                != (#[trigger] out@[j]).uid@ by {
                assert(all[i].uid@ != all[j].uid@);
            }
            assert forall|i: int| 0 <= i < out@.len() implies m.contains_key(
                (#[trigger] out@[i]).uid@,
            ) && m[out@[i].uid@] == out@[i]@ by {
                assert(all[i].uid@ == out@[i].uid@);
            }
            assert forall|k: Seq<char>| #[trigger] m.contains_key(k) implies exists|i: int|
                0 <= i < out@.len() && (#[trigger] out@[i]).uid@ == k by {
                let i = choose|i: int| 0 <= i < all.len() && (#[trigger] all[i]).uid@ == k;
                assert(out@[i].uid@ == k);
            }
            lemma_by_uid_is(out@, m);
        }
        out
    }

    /// The instances but that of `uid`.
    fn without(&self, uid: &str) -> (r: Vec<Instance>)
        ensures
            distinct_uids(r@),
            by_uid(r@) == self@.remove(uid@),
    {
        proof {
            use_type_invariant(self);
        }
        let mut out: Vec<Instance> = Vec::new();
        let ghost all = self.instances@;
        proof {
            assert(by_uid(all.take(0)).remove(uid@) =~= Map::empty());
        }
        for i in 0..self.instances.len()
            invariant
                all == self.instances@,
                distinct_uids(all),
                distinct_uids(out@),
                forall|k: int|
                    0 <= k < out@.len() ==> exists|j: int|
                        0 <= j < i && all[j] == #[trigger] out@[k],
                by_uid(out@) == by_uid(all.take(i as int)).remove(uid@),
        {
            let ghost before = out@;
            assert(all.take(i + 1).drop_last() =~= all.take(i as int));
            if !text::same(&self.instances[i].uid, uid) {
                out.push(self.instances[i].clone());
                assert(out@.drop_last() =~= before);
                assert(by_uid(out@) =~= by_uid(all.take(i + 1)).remove(uid@));
            } else {
                assert(by_uid(out@) =~= by_uid(all.take(i + 1)).remove(uid@));
            }
        }
        assert(all.take(all.len() as int) =~= all);
        out
    }

    /// Simulate the instance for `uid` exiting with `exit_code`.
    pub fn set_exited(&mut self, uid: &str, exit_code: i32) -> (r: Result<(), RuntimeError>)
        ensures
            r is Ok,
            final(self)@ == with_state(old(self)@, uid@, InstanceState::Exited { exit_code }),
    {
        let next = self.restated(uid, InstanceState::Exited { exit_code });
        self.instances = next;
        Ok(())
    }
}

impl Default for FakeRuntime {
    fn default() -> (r: FakeRuntime)
        ensures
            r@ == Map::<Seq<char>, InstanceView>::empty(),
    {
        FakeRuntime::new()
    }
}

impl ContainerRuntime for FakeRuntime {
    fn run(&mut self, spec: &RunSpec) -> (r: Result<InstanceId, RuntimeError>)
        ensures
            r matches Ok(id) && id.0@ == "fake-"@ + spec.uid@,
            final(self)@ == old(self)@.insert(
                spec.uid@,
                (InstanceView {
                    uid: spec.uid@,
                    id: "fake-"@ + spec.uid@,
                    state: InstanceState::Running,
                }),
            ),
    {
        proof {
            use_type_invariant(&*self);
        }
        let id = InstanceId(text::cat2("fake-", &spec.uid));
        let mut next = self.without(&spec.uid);
        proof {
            lemma_by_uid(next@);
        }
        let ghost before = next@;
        next.push(
            Instance { uid: spec.uid.clone(), id: id.clone(), state: InstanceState::Running },
        );
        proof {
            assert(next@.drop_last() =~= before);
            assert forall|i: int, j: int| 0 <= i < j < next@.len() implies (#[trigger] next@[i]).uid@
                != (#[trigger] next@[j]).uid@ by {
                if j == next@.len() - 1 {
                    assert(by_uid(before).contains_key(before[i].uid@));
                } else {
                    assert(before[i].uid@ != before[j].uid@);
                }
            }
            assert(by_uid(next@) =~= old(self)@.insert(spec.uid@, next@.last()@));
        }
        self.instances = next;
        Ok(id)
    }

    fn stop(&mut self, uid: &str) -> (r: Result<(), RuntimeError>)
        ensures
            r is Ok,
            final(self)@ == with_state(old(self)@, uid@, InstanceState::Exited { exit_code: 0 }),
    {
        self.set_exited(uid, 0)
    }

    fn start(&mut self, uid: &str) -> (r: Result<InstanceId, RuntimeError>)
        ensures
            match r {
                Ok(id) => old(self)@.contains_key(uid@) && id.0@ == old(self)@[uid@].id,
                Err(RuntimeError::Command(m)) => !old(self)@.contains_key(uid@) && m@
                    == "no instance for "@ + uid@,
                Err(_) => false,
            },
            final(self)@ == with_state(old(self)@, uid@, InstanceState::Running),
    {
        proof {
            use_type_invariant(&*self);
            lemma_by_uid(self.instances@);
        }
        let mut found: Option<InstanceId> = None;
        for i in 0..self.instances.len()
            invariant
                *self == *old(self),
                match found {
                    Some(id) => exists|j: int|
                        0 <= j < i && (#[trigger] self.instances@[j]).uid@ == uid@
                            && self.instances@[j].id == id,
                    None => forall|j: int|
                        0 <= j < i ==> (#[trigger] self.instances@[j]).uid@ != uid@,
                },
        {
            if text::same(&self.instances[i].uid, uid) {
                found = Some(self.instances[i].id.clone());
            }
        }
        let next = self.restated(uid, InstanceState::Running);
        self.instances = next;
        match found {
            Some(id) => Ok(id),
            None => Err(RuntimeError::Command(text::cat2("no instance for ", uid))),
        }
    }

    fn remove(&mut self, uid: &str) -> (r: Result<(), RuntimeError>)
        ensures
            r is Ok,
            final(self)@ == old(self)@.remove(uid@),
    {
        let next = self.without(uid);
        self.instances = next;
        Ok(())
    }

    fn list(&self) -> (r: Result<Vec<Instance>, RuntimeError>)
        ensures
            r matches Ok(v) && distinct_uids(v@) && by_uid(v@) == self@,
    {
        proof {
            use_type_invariant(self);
        }
        let mut out: Vec<Instance> = Vec::new();
        for i in 0..self.instances.len()
            invariant
                out@ == self.instances@.take(i as int),
        {
            out.push(self.instances[i].clone());
            assert(out@ =~= self.instances@.take(i + 1));
        }
        assert(out@ =~= self.instances@);
        Ok(out)
    }

    fn version(&self) -> (r: Result<String, RuntimeError>)
        ensures
            r matches Ok(v) && v@ == "fake-runtime/1.0"@,
    {
        Ok("fake-runtime/1.0".to_owned())
    }
}

// ---------------------------------------------------------------------------
// AppleContainer: the `container` CLI of Apple Containerization.
// ---------------------------------------------------------------------------
//
// Every instance is addressed by a derived **name** `velos-<uid>`. The command
// lines, gathered in one place:
//
//   run     : `container run --detach --name velos-<uid> [--env K=V ...] [--entrypoint <cmd[0]>] <image> [cmd[1..]...]`
//   stop    : `container stop velos-<uid>`
//   start   : `container start velos-<uid>`
//   remove  : `container delete --force velos-<uid>`
//   list    : `container list --all --format json`
//   version : `container --version`
//   restart : `container system start`
/// The runtime name of the instance of a container.
pub open spec fn name_of(uid: Seq<char>) -> Seq<char> {
    "velos-"@ + uid
}

/// The runtime name of the instance of a container.
pub fn instance_name(uid: &str) -> (r: String)
    ensures
        r@ == name_of(uid@),
{
    text::cat2("velos-", uid)
}

/// An `--env K=V` for every variable, in order.
pub open spec fn env_args(env: Seq<(Seq<char>, Seq<char>)>) -> Seq<Seq<char>>
    decreases env.len(),
{
    if env.len() == 0 {
        Seq::empty()
    } else {
        env_args(env.drop_last()) + seq!["--env"@, env.last().0 + "="@ + env.last().1]
    }
}

/// The image, its entrypoint overridden by the first word of the command, if there is one,
/// and the other words behind it.
pub open spec fn image_args(spec: RunSpecView) -> Seq<Seq<char>> {
    if spec.command.len() == 0 {
        seq![spec.image]
    } else {
        seq!["--entrypoint"@, spec.command[0], spec.image] + spec.command.skip(1)
    }
}

/// The arguments of `container run`.
pub open spec fn run_args(name: Seq<char>, spec: RunSpecView) -> Seq<Seq<char>> {
    seq!["run"@, "--detach"@, "--name"@, name] + env_args(spec.env) + image_args(spec)
}

/// Build the `container run` arguments for `spec`.
///
/// `spec.command` overrides the image's `ENTRYPOINT` rather than being appended to
/// it: `command[0]` becomes the `--entrypoint` and `command[1..]` are the arguments
/// after the image. When `command` is empty the image's own entrypoint runs.
pub fn build_run_args(name: &str, spec: &RunSpec) -> (r: Vec<String>)
    ensures
        r.deep_view() == run_args(name@, spec@),
{
    let mut args: Vec<String> = vec![
        "run".to_owned(),
        "--detach".to_owned(),
        "--name".to_owned(),
        name.to_owned(),
    ];
    let ghost head = seq!["run"@, "--detach"@, "--name"@, name@];
    let ghost env = spec@.env;
    assert(args.deep_view() =~= head + env_args(env.take(0)));
    for i in 0..spec.env.len()
        invariant
            env == spec@.env,
            args.deep_view() == head + env_args(env.take(i as int)),
    {
        let ghost before = args.deep_view();
        args.push("--env".to_owned());
        args.push(text::cat3(&spec.env[i].0, "=", &spec.env[i].1));
        proof {
            assert(env.take(i + 1).drop_last() =~= env.take(i as int));
            assert(env.take(i + 1).last() == env[i as int]);
            assert(args.deep_view() =~= before + seq![
                "--env"@,
                env[i as int].0 + "="@ + env[i as int].1,
            ]);
            assert(args.deep_view() =~= head + env_args(env.take(i + 1)));
        }
    }
    assert(env.take(env.len() as int) =~= env);
    let ghost before = args.deep_view();
    if spec.command.len() == 0 {
        args.push(spec.image.clone());
        assert(args.deep_view() =~= before + image_args(spec@));
    } else {
        args.push("--entrypoint".to_owned());
        args.push(spec.command[0].clone());
        args.push(spec.image.clone());
        let ghost lead = seq!["--entrypoint"@, spec@.command[0], spec@.image];
        assert(args.deep_view() =~= before + lead);
        let mut i: usize = 1;
        while i < spec.command.len()
            invariant
                1 <= i <= spec.command@.len(),
                args.deep_view() == before + lead + spec@.command.subrange(1, i as int),
            decreases spec.command@.len() - i,
        {
            let ghost so_far = args.deep_view();
            args.push(spec.command[i].clone());
            assert(args.deep_view() =~= so_far.push(spec@.command[i as int]));
            assert(spec@.command.subrange(1, i + 1) =~= spec@.command.subrange(1, i as int).push(
                spec@.command[i as int],
            ));
            i += 1;
        }
        assert(spec@.command.subrange(1, i as int) =~= spec@.command.skip(1));
        assert(args.deep_view() =~= before + image_args(spec@));
    }
    args
}

/// The `container` CLI as a backend: the binary to call, and the arguments of each call.
#[derive(Debug, PartialEq, Eq)]
pub struct AppleContainer {
    bin: String,
}

impl View for AppleContainer {
    type V = Seq<char>;

    closed spec fn view(&self) -> Seq<char> {
        self.bin@
    }
}

impl AppleContainer {
    /// The `container` found on the path.
    pub fn new() -> (r: AppleContainer)
        ensures
            r@ == "container"@,
    {
        AppleContainer { bin: "container".to_owned() }
    }

    /// Override the CLI binary path (e.g. for an alternate install location).
    pub fn with_binary(bin: &str) -> (r: AppleContainer)
        ensures
            r@ == bin@,
    {
        AppleContainer { bin: bin.to_owned() }
    }

    /// The binary to call.
    pub fn binary(&self) -> (r: &str)
        ensures
            r@ == self@,
    {
        self.bin.as_str()
    }

    /// The name under which `spec` is launched, and the arguments that launch it.
    pub fn run_call(&self, spec: &RunSpec) -> (r: (InstanceId, Vec<String>))
        ensures
            r.0.0@ == name_of(spec.uid@),
            r.1.deep_view() == run_args(name_of(spec.uid@), spec@),
    {
        let name = instance_name(&spec.uid);
        let args = build_run_args(&name, spec);
        (InstanceId(name), args)
    }

    /// The arguments that stop the instance of `uid`.
    pub fn stop_args(&self, uid: &str) -> (r: Vec<String>)
        ensures
            r.deep_view() == seq!["stop"@, name_of(uid@)],
    {
        let r = vec!["stop".to_owned(), instance_name(uid)];
        assert(r.deep_view() =~= seq!["stop"@, name_of(uid@)]);
        r
    }

    /// The arguments that boot the instance of `uid` back up.
    pub fn start_args(&self, uid: &str) -> (r: Vec<String>)
        ensures
            r.deep_view() == seq!["start"@, name_of(uid@)],
    {
        let r = vec!["start".to_owned(), instance_name(uid)];
        assert(r.deep_view() =~= seq!["start"@, name_of(uid@)]);
        r
    }

    /// The arguments that remove the instance of `uid`.
    pub fn remove_args(&self, uid: &str) -> (r: Vec<String>)
        ensures
            r.deep_view() == seq!["delete"@, "--force"@, name_of(uid@)],
    {
        let r = vec!["delete".to_owned(), "--force".to_owned(), instance_name(uid)];
        assert(r.deep_view() =~= seq!["delete"@, "--force"@, name_of(uid@)]);
        r
    }

    /// The arguments that list all instances.
    pub fn list_args(&self) -> (r: Vec<String>)
        ensures
            r.deep_view() == seq!["list"@, "--all"@, "--format"@, "json"@],
    {
        let r = vec!["list".to_owned(), "--all".to_owned(), "--format".to_owned(), "json".to_owned()];
        assert(r.deep_view() =~= seq!["list"@, "--all"@, "--format"@, "json"@]);
        r
    }

    /// The arguments that bring the runtime's services back up.
    pub fn restart_args(&self) -> (r: Vec<String>)
        ensures
            r.deep_view() == seq!["system"@, "start"@],
    {
        let r = vec!["system".to_owned(), "start".to_owned()];
        assert(r.deep_view() =~= seq!["system"@, "start"@]);
        r
    }

    /// The arguments that report the version.
    pub fn version_args(&self) -> (r: Vec<String>)
        ensures
            r.deep_view() == seq!["--version"@],
    {
        let r = vec!["--version".to_owned()];
        assert(r.deep_view() =~= seq!["--version"@]);
        r
    }
}

impl Default for AppleContainer {
    fn default() -> (r: AppleContainer)
        ensures
            r@ == "container"@,
    {
        AppleContainer::new()
    }
}

/// What a finished call amounts to: its trimmed output where it succeeded, else a
/// [`RuntimeError::Command`] with what it printed as error.
pub fn call_outcome(success: bool, stdout: &str, stderr: &str) -> (r: Result<String, RuntimeError>)
    ensures
        match r {
            Ok(out) => success && out@ == text::trimmed(stdout@),
            Err(RuntimeError::Command(m)) => !success && m@ == text::trimmed(stderr@),
            Err(_) => false,
        },
{
    if success {
        Ok(text::trim(stdout))
    } else {
        Err(RuntimeError::Command(text::trim(stderr)))
    }
}

// ---------------------------------------------------------------------------
// Reading `container list --format json`.
// ---------------------------------------------------------------------------

/// The string a field holds: itself, or the first item of an array.
pub open spec fn held_str(field: Option<JsonView>) -> Option<Seq<char>> {
    match field {
        Some(JsonView::Text(s)) => Some(s),
        Some(JsonView::Array(a)) => if a.len() > 0 {
            json::text(Some(a[0]))
        } else {
            None
        },
        _ => None,
    }
}

/// The string of the first of `keys` whose field holds one.
pub open spec fn first_str(entry: JsonView, keys: Seq<Seq<char>>) -> Option<Seq<char>>
    decreases keys.len(),
{
    if keys.len() == 0 {
        None
    } else {
        match held_str(json::get(entry, keys[0])) {
            Some(s) => Some(s),
            None => first_str(entry, keys.skip(1)),
        }
    }
}

/// The state an entry reports: flat, nested as `status.state`, or not at all.
pub open spec fn reported_state(entry: JsonView) -> Seq<char> {
    match first_str(entry, seq!["status"@, "state"@]) {
        Some(s) => s,
        None => match json::text(json::at(entry, seq!["status"@, "state"@])) {
            Some(s) => s,
            None => "unknown"@,
        },
    }
}

/// The exit code an entry reports; zero where it reports none.
pub open spec fn reported_exit_code(entry: JsonView) -> i32 {
    let field = match json::get(entry, "exitCode"@) {
        Some(v) => Some(v),
        None => json::get(entry, "exit_code"@),
    };
    match json::as_i64(field) {
        Some(n) => n as i32,
        None => 0,
    }
}

/// The instance of an entry, where its name is one of ours.
pub open spec fn entry_instance(entry: JsonView) -> Option<InstanceView> {
    match first_str(entry, seq!["name"@, "names"@, "id"@]) {
        Some(name) => if text::starts_with(name, "velos-"@) {
            Some(
                InstanceView {
                    uid: name.skip("velos-"@.len() as int),
                    id: name,
                    state: if text::same_letters(reported_state(entry), "running"@) {
                        InstanceState::Running
                    } else {
                        InstanceState::Exited { exit_code: reported_exit_code(entry) }
                    },
                },
            )
        } else {
            None
        },
        None => None,
    }
}

/// The instances of the entries that have one, in order.
pub open spec fn listed(entries: Seq<JsonView>) -> Seq<InstanceView>
    decreases entries.len(),
{
    if entries.len() == 0 {
        Seq::empty()
    } else {
        match entry_instance(entries.last()) {
            Some(i) => listed(entries.drop_last()).push(i),
            None => listed(entries.drop_last()),
        }
    }
}

/// Read the first present string field among `keys`, descending one level into
/// an array's first element if the field is an array (e.g. `names: [..]`).
fn field_str<'a>(entry: &'a Json, keys: &[&str]) -> (r: Option<&'a str>)
    ensures
        match r {
            Some(s) => first_str(entry@, keys.deep_view()) == Some(s@),
            None => first_str(entry@, keys.deep_view()) is None,
        },
{
    let ghost all = keys.deep_view();
    let mut i: usize = 0;
    assert(all.skip(0) =~= all);
    while i < keys.len()
        invariant
            i <= keys@.len(),
            all == keys.deep_view(),
            first_str(entry@, all) == first_str(entry@, all.skip(i as int)),
        decreases keys@.len() - i,
    {
        assert(all.skip(i as int)[0] == keys@[i as int]@);
        assert(all.skip(i as int).skip(1) =~= all.skip(i + 1));
        if let Some(field) = entry.get(keys[i]) {
            if let Some(s) = field.as_str() {
                return Some(s);
            }
            if let Some(a) = field.as_array() {
                if a.len() > 0 {
                    assert(json::models(a@)[0] == a@[0]@);
                    if let Some(s) = a[0].as_str() {
                        return Some(s);
                    }
                }
            }
        }
        i += 1;
    }
    None
}

/// Read the instance state string. The Apple `container` CLI nests it as
/// `status.state` (an object, not a flat string).
fn status_str(entry: &Json) -> (r: &str)
    ensures
        r@ == reported_state(entry@),
{
    let keys: [&str; 2] = ["status", "state"];
    assert(keys.deep_view() =~= seq!["status"@, "state"@]);
    match field_str(entry, &keys) {
        Some(s) => s,
        None => match json::str_at(entry, &keys) {
            Some(s) => s,
            None => "unknown",
        },
    }
}

fn exit_code_of(entry: &Json) -> (r: i32)
    ensures
        r == reported_exit_code(entry@),
{
    let field = match entry.get("exitCode") {
        Some(v) => Some(v),
        None => entry.get("exit_code"),
    };
    match field {
        Some(v) => match v.as_i64() {
            Some(n) => #[verifier::truncate] (n as i32),
            None => 0,
        },
        None => 0,
    }
}

/// The instances that a `container list` document names. Entries whose name lacks the
/// `velos-` prefix are ignored (not ours).
pub fn instances_of(value: &Json) -> (r: Vec<Instance>)
    ensures
        r.deep_view() == listed(json::items(Some(value@))),
{
    let mut out: Vec<Instance> = Vec::new();
    if let Some(entries) = value.as_array() {
        let ghost all = json::models(entries@);
        let keys: [&str; 3] = ["name", "names", "id"];
        assert(keys.deep_view() =~= seq!["name"@, "names"@, "id"@]);
        for i in 0..entries.len()
            invariant
                all == json::models(entries@),
                keys.deep_view() == seq!["name"@, "names"@, "id"@],
                out.deep_view() == listed(all.take(i as int)),
        {
            assert(all.take(i + 1).drop_last() =~= all.take(i as int));
            let entry = &entries[i];
            if let Some(name) = field_str(entry, &keys) {
                if let Some(uid) = text::without_prefix(name, "velos-") {
                    let state = if text::same_ignoring_case(status_str(entry), "running") {
                        InstanceState::Running
                    } else {
                        InstanceState::Exited { exit_code: exit_code_of(entry) }
                    };
                    let ghost before = out.deep_view();
                    let inst = Instance { uid, id: InstanceId(name.to_owned()), state };
                    out.push(inst);
                    assert(out.deep_view() =~= before.push(inst@));
                }
            }
        }
        assert(all.take(all.len() as int) =~= all);
    }
    out
}

/// What is wrong with the text of a listing, if something is: the text of the error in it.
pub open spec fn listing_error(raw: Seq<char>) -> Option<Seq<char>> {
    if raw.len() == 0 {
        None
    } else {
        match json::parsed(raw) {
            Ok(_) => None,
            Err(message) => Some("runtime command failed: "@ + message),
        }
    }
}

/// Parse `container list --format json` into our uid-keyed instances. No output at all
/// lists nothing; a text that is not JSON is a [`RuntimeError::Command`].
pub fn parse_list(raw: &str) -> (r: Result<Vec<Instance>, RuntimeError>)
    ensures
        raw@.len() == 0 ==> (r matches Ok(v) && v@.len() == 0),
        raw@.len() > 0 ==> match json::parsed(raw@) {
            Ok(value) => r matches Ok(v) && v.deep_view() == listed(json::items(Some(value))),
            Err(message) => r matches Err(RuntimeError::Command(m)) && m@ == message,
        },
        match r {
            Ok(_) => listing_error(raw@) is None,
            Err(e) => listing_error(raw@) == Some(runtime_error_text(e)),
        },
{
    if raw.is_empty() {
        return Ok(Vec::new());
    }
    match json::parse(raw) {
        Ok(value) => Ok(instances_of(&value)),
        Err(e) => Err(RuntimeError::Command(e)),
    }
}

// ---------------------------------------------------------------------------
// What holds of every runtime
// ---------------------------------------------------------------------------

/// The name given to an instance leads back to its uid: a listed entry of that name is the
/// instance of that container, and an entry of a name without the prefix is none of ours.
pub proof fn law_name_leads_back_to_uid(entry: JsonView, uid: Seq<char>)
    ensures
        text::starts_with(name_of(uid), "velos-"@),
        name_of(uid).skip("velos-"@.len() as int) == uid,
        first_str(entry, seq!["name"@, "names"@, "id"@]) == Some(name_of(uid)) ==> (
        entry_instance(entry) matches Some(i) && i.uid == uid && i.id == name_of(uid)),
        first_str(entry, seq!["name"@, "names"@, "id"@]) matches Some(n) && !text::starts_with(
            n,
            "velos-"@,
        ) ==> entry_instance(entry) is None,
{
    let name = name_of(uid);
    let n = "velos-"@.len() as int;
    assert(name.take(n) =~= "velos-"@);
    assert(name.skip(n) =~= uid);
}

/// Two containers never share an instance name.
pub proof fn law_names_are_distinct(a: Seq<char>, b: Seq<char>)
    requires
        name_of(a) == name_of(b),
    ensures
        a == b,
{
    let n = "velos-"@.len() as int;
    assert(name_of(a).skip(n) =~= a);
    assert(name_of(b).skip(n) =~= b);
}

/// Stopping and removing are no-ops on an instance that is gone, and doing them twice is
/// doing them once; stopping keeps the instance, and neither touches another one.
pub proof fn law_stop_and_remove_are_idempotent(
    m: Map<Seq<char>, InstanceView>,
    uid: Seq<char>,
    state: InstanceState,
    other: Seq<char>,
)
    ensures
        !m.contains_key(uid) ==> with_state(m, uid, state) == m && m.remove(uid) == m,
        with_state(with_state(m, uid, state), uid, state) == with_state(m, uid, state),
        m.remove(uid).remove(uid) == m.remove(uid),
        with_state(m, uid, state).dom() == m.dom(),
        other != uid && m.contains_key(other) ==> with_state(m, uid, state)[other] == m[other]
            && m.remove(uid).contains_key(other) && m.remove(uid)[other] == m[other],
{
    assert(with_state(m, uid, state).dom() =~= m.dom());
    assert(m.remove(uid).remove(uid) =~= m.remove(uid));
    assert(with_state(with_state(m, uid, state), uid, state) =~= with_state(m, uid, state));
    if !m.contains_key(uid) {
        assert(m.remove(uid) =~= m);
    }
}

/// An instance that was stopped boots back up as the same instance.
pub proof fn law_stopped_instance_boots_back_up(m: Map<Seq<char>, InstanceView>, uid: Seq<char>)
    requires
        m.contains_key(uid),
    ensures
        ({
            let stopped = with_state(m, uid, InstanceState::Exited { exit_code: 0 });
            let up = with_state(stopped, uid, InstanceState::Running);
            &&& up.contains_key(uid)
            &&& up[uid].id == m[uid].id
            &&& up[uid].uid == m[uid].uid
            &&& up[uid].state == InstanceState::Running
        }),
{
}

/// The arguments of a run name the image exactly behind all flags: every variable comes
/// before the entrypoint and the image, and the command's other words follow the image.
pub proof fn law_run_args_order(name: Seq<char>, spec: RunSpecView)
    ensures
        run_args(name, spec).len() == 4 + 2 * spec.env.len() + (if spec.command.len() == 0 {
            1nat
        } else {
            2 + spec.command.len()
        }),
        forall|k: int|
            0 <= k < spec.env.len() ==> #[trigger] run_args(name, spec)[5 + 2 * k] == spec.env[k].0
                + "="@ + spec.env[k].1,
        spec.command.len() == 0 ==> run_args(name, spec).last() == spec.image,
        spec.command.len() > 0 ==> {
            let at = 4 + 2 * spec.env.len() as int;
            &&& run_args(name, spec)[at] == "--entrypoint"@
            &&& run_args(name, spec)[at + 1] == spec.command[0]
            &&& run_args(name, spec)[at + 2] == spec.image
            &&& forall|k: int|
                1 <= k < spec.command.len() ==> run_args(name, spec)[at + 2 + k]
                    == #[trigger] spec.command[k]
        },
{
    lemma_env_args(spec.env);
    let all = run_args(name, spec);
    let at = 4 + 2 * spec.env.len() as int;
    assert forall|k: int| 0 <= k < spec.env.len() implies #[trigger] all[5 + 2 * k]
        == spec.env[k].0 + "="@ + spec.env[k].1 by {
        assert(all[5 + 2 * k] == env_args(spec.env)[2 * k + 1]);
    }
    assert forall|k: int| 1 <= k < spec.command.len() implies all[at + 2 + k]
        == #[trigger] spec.command[k] by {
        assert(image_args(spec)[2 + k] == spec.command.skip(1)[k - 1]);
    }
}

proof fn lemma_env_args(env: Seq<(Seq<char>, Seq<char>)>)
    ensures
        env_args(env).len() == 2 * env.len(),
        forall|k: int|
            0 <= k < env.len() ==> #[trigger] env_args(env)[2 * k + 1] == env[k].0 + "="@
                + env[k].1,
    decreases env.len(),
{
    if env.len() > 0 {
        let init = env.drop_last();
        lemma_env_args(init);
        assert forall|k: int| 0 <= k < env.len() implies #[trigger] env_args(env)[2 * k + 1]
            == env[k].0 + "="@ + env[k].1 by {
            if k < init.len() {
                assert(env_args(env)[2 * k + 1] == env_args(init)[2 * k + 1]);
                assert(init[k] == env[k]);
            }
        }
    }
}

/// A run detaches under the instance's name, and every variable follows a flag of its own.
pub proof fn law_run_names_the_instance(name: Seq<char>, spec: RunSpecView, k: int)
    ensures
        run_args(name, spec)[0] == "run"@,
        run_args(name, spec)[1] == "--detach"@,
        run_args(name, spec)[2] == "--name"@,
        run_args(name, spec)[3] == name,
        0 <= k < spec.env.len() ==> run_args(name, spec)[4 + 2 * k] == "--env"@,
{
    lemma_env_args(spec.env);
    if 0 <= k < spec.env.len() {
        lemma_env_flags(spec.env, k);
        assert(run_args(name, spec)[4 + 2 * k] == env_args(spec.env)[2 * k]);
    }
}

proof fn lemma_env_flags(env: Seq<(Seq<char>, Seq<char>)>, k: int)
    requires
        0 <= k < env.len(),
    ensures
        env_args(env)[2 * k] == "--env"@,
    decreases env.len(),
{
    let init = env.drop_last();
    lemma_env_args(init);
    if k < init.len() {
        lemma_env_flags(init, k);
        assert(env_args(env)[2 * k] == env_args(init)[2 * k]);
    }
}

/// Entries are read one after the other, and a single entry is one instance, or none.
pub proof fn law_listing_follows_the_entries(a: Seq<JsonView>, b: Seq<JsonView>, entry: JsonView)
    ensures
        listed(a + b) == listed(a) + listed(b),
        listed(seq![entry]) == (match entry_instance(entry) {
            Some(i) => seq![i],
            None => Seq::empty(),
        }),
    decreases b.len(),
{
    reveal_with_fuel(listed, 2);
    assert(seq![entry].drop_last() =~= Seq::<JsonView>::empty());
    assert(listed(seq![entry]) =~= (match entry_instance(entry) {
        Some(i) => seq![i],
        None => Seq::empty(),
    }));
    if b.len() == 0 {
        assert(a + b =~= a);
    } else {
        law_listing_follows_the_entries(a, b.drop_last(), entry);
        assert((a + b).drop_last() =~= a + b.drop_last());
        assert((a + b).last() == b.last());
    }
    assert(listed(a + b) =~= listed(a) + listed(b));
}

/// A field holds a string where it is one, or where it is a list that starts with one. Of
/// several names, the first whose field holds a string counts.
pub proof fn law_first_string_counts(
    entry: JsonView,
    keys: Seq<Seq<char>>,
    i: int,
    field: Option<JsonView>,
    s: Seq<char>,
)
    ensures
        held_str(field) == Some(s) <==> field == Some(JsonView::Text(s)) || (field matches Some(
            JsonView::Array(a),
        ) && a.len() > 0 && a[0] == JsonView::Text(s)),
        0 <= i < keys.len() && held_str(json::get(entry, keys[i])) == Some(s) && (forall|k: int|
            0 <= k < i ==> held_str(json::get(entry, #[trigger] keys[k])) is None) ==> first_str(
            entry,
            keys,
        ) == Some(s),
        (forall|k: int|
            0 <= k < keys.len() ==> held_str(json::get(entry, #[trigger] keys[k])) is None)
            ==> first_str(entry, keys) is None,
    decreases keys.len(),
{
    if keys.len() > 0 && held_str(json::get(entry, keys[0])) is None {
        let rest = keys.skip(1);
        law_first_string_counts(entry, rest, i - 1, field, s);
        assert(forall|k: int| 0 <= k < rest.len() ==> #[trigger] rest[k] == keys[k + 1]);
        assert(forall|k: int| 0 < k < keys.len() ==> #[trigger] keys[k] == rest[k - 1]);
    }
}

/// An entry whose name is one of ours is the instance of that container. It runs exactly where
/// the state that it reports reads `running` in whatever case, and a state that is not
/// reported does not.
pub proof fn law_entries_become_instances(entry: JsonView, uid: Seq<char>, state: Seq<char>)
    requires
        json::get(entry, "name"@) == Some(JsonView::Text("velos-"@ + uid)),
    ensures
        entry_instance(entry) matches Some(i) && i.uid == uid && i.id == "velos-"@ + uid,
        json::get(entry, "status"@) == Some(JsonView::Text(state)) ==> (
        entry_instance(entry)->0.state is Running <==> text::same_letters(state, "running"@)),
        json::get(entry, "state"@) is None && (json::get(entry, "status"@) matches Some(inner)
            && inner is Object && json::get(inner, "state"@) == Some(JsonView::Text(state))) ==> (
        entry_instance(entry)->0.state is Running <==> text::same_letters(state, "running"@)),
        json::get(entry, "state"@) is None && json::get(entry, "status"@) is None ==> !(
        entry_instance(entry)->0.state is Running),
{
    let names = seq!["name"@, "names"@, "id"@];
    law_first_string_counts(entry, names, 0, None, "velos-"@ + uid);
    law_name_leads_back_to_uid(entry, uid);
    let keys = seq!["status"@, "state"@];
    assert(keys.skip(1) =~= seq!["state"@]);
    assert(seq!["state"@].skip(1) =~= Seq::<Seq<char>>::empty());
    reveal_with_fuel(json::at, 3);
    reveal_with_fuel(first_str, 3);
    reveal_strlit("unknown");
    reveal_strlit("running");
    assert("unknown"@.len() == 7 && "running"@.len() == 7);
    text::law_case_is_that_of_ascii_letters("unknown"@, "running"@);
    assert("unknown"@[0] == 'u' && "running"@[0] == 'r');
}

/// The exit code of an entry is the number under `exitCode`, else that under `exit_code`, and
/// zero where neither is there.
pub proof fn law_exit_codes_are_read_as_given(entry: JsonView, n: i32)
    ensures
        json::as_i64(json::get(entry, "exitCode"@)) == Some(n as i64) ==> reported_exit_code(entry)
            == n,
        json::get(entry, "exitCode"@) is None && json::as_i64(json::get(entry, "exit_code"@))
            == Some(n as i64) ==> reported_exit_code(entry) == n,
        json::get(entry, "exitCode"@) is None && json::get(entry, "exit_code"@) is None
            ==> reported_exit_code(entry) == 0,
        entry_instance(entry) matches Some(i) ==> i.state is Running || i.state == (
        InstanceState::Exited { exit_code: reported_exit_code(entry) }),
{
}

/// Every instance is found under its uid, and nothing else is found.
pub proof fn law_instances_are_found_by_uid(s: Seq<Instance>, i: int, uid: Seq<char>)
    requires
        distinct_uids(s),
    ensures
        0 <= i < s.len() ==> by_uid(s).contains_key(s[i].uid@) && by_uid(s)[s[i].uid@] == s[i]@,
        by_uid(s).contains_key(uid) <==> exists|k: int|
            0 <= k < s.len() && (#[trigger] s[k]).uid@ == uid,
{
    lemma_by_uid(s);
    if exists|k: int| 0 <= k < s.len() && (#[trigger] s[k]).uid@ == uid {
        let k = choose|k: int| 0 <= k < s.len() && (#[trigger] s[k]).uid@ == uid;
        assert(by_uid(s).contains_key(s[k].uid@));
    }
}

/// A change of state is of that instance's state alone.
pub proof fn law_only_the_state_changes(
    m: Map<Seq<char>, InstanceView>,
    uid: Seq<char>,
    state: InstanceState,
)
    requires
        m.contains_key(uid),
    ensures
        with_state(m, uid, state)[uid].state == state,
        with_state(m, uid, state)[uid].uid == m[uid].uid,
        with_state(m, uid, state)[uid].id == m[uid].id,
{
}

/// The text of an error keeps its cause, and tells a failed command from a failed call of it.
pub proof fn law_errors_keep_their_cause(e: RuntimeError, f: RuntimeError)
    ensures
        e matches RuntimeError::Command(s) ==> text::ends_with(runtime_error_text(e), s@),
        e matches RuntimeError::Io(s) ==> text::ends_with(runtime_error_text(e), s@),
        e is Command && f is Io ==> runtime_error_text(e) != runtime_error_text(f),
        e is Command && f is Lock ==> runtime_error_text(e) != runtime_error_text(f),
        e is Io && f is Lock ==> runtime_error_text(e) != runtime_error_text(f),
{
    reveal_strlit("runtime command failed: ");
    reveal_strlit("io error: ");
    reveal_strlit("lock poisoned");
    assert("runtime command failed: "@[0] == 'r' && "io error: "@[0] == 'i'
        && "lock poisoned"@[0] == 'l');
    match e {
        RuntimeError::Command(s) => {
            text::law_parts_of_a_string("runtime command failed: "@, s@, Seq::empty());
            assert(runtime_error_text(e)[0] == 'r');
        },
        RuntimeError::Io(s) => {
            text::law_parts_of_a_string("io error: "@, s@, Seq::empty());
            assert(runtime_error_text(e)[0] == 'i');
        },
        RuntimeError::Lock => {},
    }
    if let RuntimeError::Io(s) = f {
        assert(runtime_error_text(f)[0] == 'i');
    }
}

/// Something is wrong with a listing exactly where there is a text and it is not JSON.
pub proof fn law_only_what_is_not_json_is_wrong(raw: Seq<char>)
    ensures
        listing_error(raw) is Some <==> raw.len() > 0 && json::parsed(raw) is Err,
        listing_error(raw) matches Some(message) ==> text::ends_with(
            message,
            json::parsed(raw)->Err_0,
        ),
{
    if let Err(message) = json::parsed(raw) {
        text::law_parts_of_a_string("runtime command failed: "@, message, Seq::empty());
    }
}

} // verus!
