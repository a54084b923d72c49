//! Pure worker reconciliation.
//!
//! `reconcile(desired, observed)` compares the containers the server assigned to this
//! worker against what the runtime actually reports, and returns the actions that
//! converge the two. All matching is keyed by container **uid**, which makes the result
//! idempotent across crashes.
use vstd::prelude::*;

use crate::runtime::{InstanceState, RunSpec, RunSpecView};
use crate::text;

verus! {

/// Restart behavior for a container.
#[derive(Debug, Clone, Copy, PartialEq, Eq, Structural)]
pub enum RestartPolicy {
    Never,
    OnFailure,
    Always,
}

/// The policy a wire string names.
pub open spec fn restart_policy(s: Seq<char>) -> RestartPolicy {
    if s == "Always"@ {
        RestartPolicy::Always
    } else if s == "OnFailure"@ {
        RestartPolicy::OnFailure
    } else {
        RestartPolicy::Never
    }
}

/// Whether an instance that exited with `exit_code` is to be launched again.
pub open spec fn restarts(policy: RestartPolicy, exit_code: i32) -> bool {
    match policy {
        RestartPolicy::Always => true,
        RestartPolicy::OnFailure => exit_code != 0,
        RestartPolicy::Never => false,
    }
}

impl RestartPolicy {
    /// Parse the wire string; unknown values fail closed to `Never`.
    pub fn parse(s: &str) -> (r: RestartPolicy)
        ensures
            r == restart_policy(s@),
    {
        if text::same(s, "Always") {
            RestartPolicy::Always
        } else if text::same(s, "OnFailure") {
            RestartPolicy::OnFailure
        } else {
            RestartPolicy::Never
        }
    }

    fn should_restart(self, exit_code: i32) -> (r: bool)
        ensures
            r == restarts(self, exit_code),
    {
        match self {
            RestartPolicy::Always => true,
            RestartPolicy::OnFailure => exit_code != 0,
            RestartPolicy::Never => false,
        }
    }
}

/// The run state the user asked for.
#[derive(Debug, Clone, Copy, PartialEq, Eq, Structural)]
pub enum DesiredState {
    Running,
    Hibernated,
}

/// The run state a wire string names.
pub open spec fn desired_state(s: Seq<char>) -> DesiredState {
    if s == "Hibernated"@ {
        DesiredState::Hibernated
    } else {
        DesiredState::Running
    }
}

impl DesiredState {
    /// Parse the wire string. Unknown values fail closed to `Running`: a value that
    /// cannot be read is never a licence to shut a user's container down.
    pub fn parse(s: &str) -> (r: DesiredState)
        ensures
            r == desired_state(s@),
    {
        if text::same(s, "Hibernated") {
            DesiredState::Hibernated
        } else {
            DesiredState::Running
        }
    }
}

/// A container the server has assigned to this worker.
#[derive(Debug, PartialEq, Eq)]
pub struct DesiredContainer {
    pub name: String,
    pub uid: String,
    pub image: String,
    pub command: Vec<String>,
    pub env: Vec<(String, String)>,
    pub restart_policy: RestartPolicy,
    pub desired_state: DesiredState,
    pub phase: String,
    pub marked_for_deletion: bool,
    pub has_finalizer: bool,
}

/// What a [`DesiredContainer`] stands for.
#[verifier::ext_equal]
pub struct DesiredView {
    pub name: Seq<char>,
    pub spec: RunSpecView,
    pub restart_policy: RestartPolicy,
    pub desired_state: DesiredState,
    pub phase: Seq<char>,
    pub marked_for_deletion: bool,
    pub has_finalizer: bool,
}

impl View for DesiredContainer {
    type V = DesiredView;

    open spec fn view(&self) -> DesiredView {
        DesiredView {
            name: self.name@,
            spec: RunSpecView {
                uid: self.uid@,
                image: self.image@,
                command: self.command.deep_view(),
                env: self.env.deep_view(),
            },
            restart_policy: self.restart_policy,
            desired_state: self.desired_state,
            phase: self.phase@,
            marked_for_deletion: self.marked_for_deletion,
            has_finalizer: self.has_finalizer,
        }
    }
}

impl DeepView for DesiredContainer {
    type V = DesiredView;

    open spec fn deep_view(&self) -> DesiredView {
        self@
    }
}

impl DesiredContainer {
    /// What to launch for this container.
    pub fn run_spec(&self) -> (r: RunSpec)
        ensures
            r@ == self@.spec,
    {
        RunSpec {
            uid: self.uid.clone(),
            image: self.image.clone(),
            command: text::copy_strings(&self.command),
            env: text::copy_pairs(&self.env),
        }
    }
}

impl Clone for DesiredContainer {
    fn clone(&self) -> (r: DesiredContainer)
        ensures
            r@ == self@,
    {
        DesiredContainer {
            name: self.name.clone(),
            uid: self.uid.clone(),
            image: self.image.clone(),
            command: text::copy_strings(&self.command),
            env: text::copy_pairs(&self.env),
            restart_policy: self.restart_policy,
            desired_state: self.desired_state,
            phase: self.phase.clone(),
            marked_for_deletion: self.marked_for_deletion,
            has_finalizer: self.has_finalizer,
        }
    }
}

/// What the runtime reports for one instance.
#[derive(Debug, PartialEq, Eq)]
pub struct ObservedInstance {
    pub uid: String,
    pub state: InstanceState,
}

/// What an [`ObservedInstance`] stands for.
#[verifier::ext_equal]
pub struct ObservedView {
    pub uid: Seq<char>,
    pub state: InstanceState,
}

impl View for ObservedInstance {
    type V = ObservedView;

    open spec fn view(&self) -> ObservedView {
        ObservedView { uid: self.uid@, state: self.state }
    }
}

impl DeepView for ObservedInstance {
    type V = ObservedView;

    open spec fn deep_view(&self) -> ObservedView {
        self@
    }
}

impl Clone for ObservedInstance {
    fn clone(&self) -> (r: ObservedInstance)
        ensures
            r == *self,
    {
        ObservedInstance { uid: self.uid.clone(), state: self.state }
    }
}

/// An intended action; the actuator turns these into runtime and server calls.
#[derive(Debug, PartialEq, Eq)]
pub enum Action {
    /// Launch the instance, then report `Running`.
    Start { name: String, spec: RunSpec },
    /// Remove the exited instance and launch a fresh one (restart policy).
    Restart { name: String, uid: String, spec: RunSpec },
    /// Instance is running but status is stale: report `Running`.
    ReportRunning { name: String },
    /// Instance exited and won't restart: report `Succeeded`/`Failed`.
    ReportTerminal { name: String, phase: String, exit_code: i32 },
    /// Desired state is `Hibernated` and the instance is live: shut it down
    /// (keeping its disk), then report `Hibernated`.
    Hibernate { name: String, uid: String },
    /// Desired state is `Running` over a hibernated instance: boot the same
    /// instance back up and report `Running`.
    Resume { name: String, uid: String },
    /// Nothing is running and the container is meant to stay asleep: report
    /// `Hibernated`.
    ReportHibernated { name: String },
    /// Container is being deleted: stop and remove the instance, optionally clear the
    /// finalizer.
    Cleanup { name: String, uid: String, clear_finalizer: bool },
    /// Container is being deleted, has no instance, but still holds our finalizer.
    ClearFinalizer { name: String },
    /// An instance with no matching assignment: reap the orphan.
    Reap { uid: String },
}

/// What an [`Action`] stands for.
#[verifier::ext_equal]
pub enum ActionView {
    Start { name: Seq<char>, spec: RunSpecView },
    Restart { name: Seq<char>, uid: Seq<char>, spec: RunSpecView },
    ReportRunning { name: Seq<char> },
    ReportTerminal { name: Seq<char>, phase: Seq<char>, exit_code: i32 },
    Hibernate { name: Seq<char>, uid: Seq<char> },
    Resume { name: Seq<char>, uid: Seq<char> },
    ReportHibernated { name: Seq<char> },
    Cleanup { name: Seq<char>, uid: Seq<char>, clear_finalizer: bool },
    ClearFinalizer { name: Seq<char> },
    Reap { uid: Seq<char> },
}

impl View for Action {
    type V = ActionView;

    open spec fn view(&self) -> ActionView {
        match self {
            Action::Start { name, spec } => ActionView::Start { name: name@, spec: spec@ },
            Action::Restart { name, uid, spec } => ActionView::Restart {
                name: name@,
                uid: uid@,
                spec: spec@,
            },
            Action::ReportRunning { name } => ActionView::ReportRunning { name: name@ },
            Action::ReportTerminal { name, phase, exit_code } => ActionView::ReportTerminal {
                name: name@,
                phase: phase@,
                exit_code: *exit_code,
            },
            Action::Hibernate { name, uid } => ActionView::Hibernate { name: name@, uid: uid@ },
            Action::Resume { name, uid } => ActionView::Resume { name: name@, uid: uid@ },
            Action::ReportHibernated { name } => ActionView::ReportHibernated { name: name@ },
            Action::Cleanup { name, uid, clear_finalizer } => ActionView::Cleanup {
                name: name@,
                uid: uid@,
                clear_finalizer: *clear_finalizer,
            },
            Action::ClearFinalizer { name } => ActionView::ClearFinalizer { name: name@ },
            Action::Reap { uid } => ActionView::Reap { uid: uid@ },
        }
    }
}

impl Clone for Action {
    fn clone(&self) -> (r: Action)
        ensures
            r@ == self@,
    {
        match self {
            Action::Start { name, spec } => Action::Start {
                name: name.clone(),
                spec: spec.clone(),
            },
            Action::Restart { name, uid, spec } => Action::Restart {
                name: name.clone(),
                uid: uid.clone(),
                spec: spec.clone(),
            },
            Action::ReportRunning { name } => Action::ReportRunning { name: name.clone() },
            Action::ReportTerminal { name, phase, exit_code } => Action::ReportTerminal {
                name: name.clone(),
                phase: phase.clone(),
                exit_code: *exit_code,
            },
            Action::Hibernate { name, uid } => Action::Hibernate {
                name: name.clone(),
                uid: uid.clone(),
            },
            Action::Resume { name, uid } => Action::Resume { name: name.clone(), uid: uid.clone() },
            Action::ReportHibernated { name } => Action::ReportHibernated { name: name.clone() },
            Action::Cleanup { name, uid, clear_finalizer } => Action::Cleanup {
                name: name.clone(),
                uid: uid.clone(),
                clear_finalizer: *clear_finalizer,
            },
            Action::ClearFinalizer { name } => Action::ClearFinalizer { name: name.clone() },
            Action::Reap { uid } => Action::Reap { uid: uid.clone() },
        }
    }
}

impl DeepView for Action {
    type V = ActionView;

    open spec fn deep_view(&self) -> ActionView {
        self@
    }
}

/// The container an action converges, if it names one.
pub open spec fn target(a: ActionView) -> Option<Seq<char>> {
    match a {
        ActionView::Start { name, .. } => Some(name),
        ActionView::Restart { name, .. } => Some(name),
        ActionView::ReportRunning { name } => Some(name),
        ActionView::ReportTerminal { name, .. } => Some(name),
        ActionView::Hibernate { name, .. } => Some(name),
        ActionView::Resume { name, .. } => Some(name),
        ActionView::ReportHibernated { name } => Some(name),
        ActionView::Cleanup { name, .. } => Some(name),
        ActionView::ClearFinalizer { name } => Some(name),
        ActionView::Reap { .. } => None,
    }
}

/// The `status.reason` of an action that failed; only actions that drive the runtime
/// toward the user's desired state have one.
pub open spec fn reason_of_failure(a: ActionView) -> Option<Seq<char>> {
    match a {
        ActionView::Start { .. } => Some("StartFailed"@),
        ActionView::Restart { .. } => Some("RestartFailed"@),
        ActionView::Resume { .. } => Some("ResumeFailed"@),
        ActionView::Hibernate { .. } => Some("HibernateFailed"@),
        _ => None,
    }
}

impl Action {
    /// The container this action converges, if it names one. Only [`Reap`] does
    /// not: it acts on an orphaned instance the server has no object for.
    ///
    /// [`Reap`]: Action::Reap
    pub fn container(&self) -> (r: Option<&str>)
        ensures
            match r {
                Some(name) => target(self@) == Some(name@),
                None => target(self@) is None,
            },
    {
        match self {
            Action::Start { name, .. } => Some(name.as_str()),
            Action::Restart { name, .. } => Some(name.as_str()),
            Action::ReportRunning { name } => Some(name.as_str()),
            Action::ReportTerminal { name, .. } => Some(name.as_str()),
            Action::Hibernate { name, .. } => Some(name.as_str()),
            Action::Resume { name, .. } => Some(name.as_str()),
            Action::ReportHibernated { name } => Some(name.as_str()),
            Action::Cleanup { name, .. } => Some(name.as_str()),
            Action::ClearFinalizer { name } => Some(name.as_str()),
            Action::Reap { .. } => None,
        }
    }

    /// The `status.reason` to publish when this action fails, or `None` when a
    /// failure is not the container's to carry.
    ///
    /// The `Report*` actions are excluded because their only failure mode is the
    /// control plane being unreachable (the very thing a status write would need),
    /// and the teardown actions because the object they would annotate is on its way
    /// out.
    pub fn failure_reason(&self) -> (r: Option<&'static str>)
        ensures
            match r {
                Some(reason) => reason_of_failure(self@) == Some(reason@),
                None => reason_of_failure(self@) is None,
            },
    {
        match self {
            Action::Start { .. } => Some("StartFailed"),
            Action::Restart { .. } => Some("RestartFailed"),
            Action::Resume { .. } => Some("ResumeFailed"),
            Action::Hibernate { .. } => Some("HibernateFailed"),
            _ => None,
        }
    }
}

/// Whether a phase is one of a container that ran to completion.
pub open spec fn terminal(phase: Seq<char>) -> bool {
    phase == "Succeeded"@ || phase == "Failed"@
}

/// The phase of a container whose instance exited for good.
pub open spec fn phase_of_exit(exit_code: i32) -> Seq<char> {
    if exit_code == 0 {
        "Succeeded"@
    } else {
        "Failed"@
    }
}

fn is_terminal(phase: &str) -> (r: bool)
    ensures
        r == terminal(phase@),
{
    text::same(phase, "Succeeded") || text::same(phase, "Failed")
}

fn terminal_phase(exit_code: i32) -> (r: &'static str)
    ensures
        r@ == phase_of_exit(exit_code),
{
    if exit_code == 0 {
        "Succeeded"
    } else {
        "Failed"
    }
}

/// The state of the first observed instance with that uid.
pub open spec fn state_of(observed: Seq<ObservedView>, uid: Seq<char>) -> Option<InstanceState>
    decreases observed.len(),
{
    if observed.len() == 0 {
        None
    } else if observed[0].uid == uid {
        Some(observed[0].state)
    } else {
        state_of(observed.skip(1), uid)
    }
}

/// The action that converges one assigned container, whose instance is in state `obs`
/// (`None`: it has none). `None` where it is settled.
///
/// Deletion comes first, then the user's desired run state. That has to come before the
/// restart policy: a hibernated instance has exited *on purpose*, and an `Always` policy
/// would otherwise read that as a crash and immediately undo the hibernation.
pub open spec fn action_for(d: DesiredView, obs: Option<InstanceState>) -> Option<ActionView> {
    if d.marked_for_deletion {
        if obs is Some {
            Some(
                ActionView::Cleanup {
                    name: d.name,
                    uid: d.spec.uid,
                    clear_finalizer: d.has_finalizer,
                },
            )
        } else if d.has_finalizer {
            Some(ActionView::ClearFinalizer { name: d.name })
        } else {
            None
        }
    } else {
        match d.desired_state {
            DesiredState::Hibernated => if terminal(d.phase) {
                None
            } else if obs == Some(InstanceState::Running) {
                Some(ActionView::Hibernate { name: d.name, uid: d.spec.uid })
            } else if d.phase != "Hibernated"@ {
                Some(ActionView::ReportHibernated { name: d.name })
            } else {
                None
            },
            DesiredState::Running => match obs {
                None => if terminal(d.phase) {
                    None
                } else {
                    Some(ActionView::Start { name: d.name, spec: d.spec })
                },
                Some(InstanceState::Running) => if d.phase == "Running"@ {
                    None
                } else {
                    Some(ActionView::ReportRunning { name: d.name })
                },
                Some(InstanceState::Exited { exit_code }) => if d.phase == "Hibernated"@ {
                    Some(ActionView::Resume { name: d.name, uid: d.spec.uid })
                } else if restarts(d.restart_policy, exit_code) {
                    Some(ActionView::Restart { name: d.name, uid: d.spec.uid, spec: d.spec })
                } else if d.phase == phase_of_exit(exit_code) {
                    None
                } else {
                    Some(
                        ActionView::ReportTerminal {
                            name: d.name,
                            phase: phase_of_exit(exit_code),
                            exit_code,
                        },
                    )
                },
            },
        }
    }
}

/// The actions for the assigned containers that are not settled, in order.
pub open spec fn converging(desired: Seq<DesiredView>, observed: Seq<ObservedView>) -> Seq<
    ActionView,
>
    decreases desired.len(),
{
    if desired.len() == 0 {
        Seq::empty()
    } else {
        let before = converging(desired.drop_last(), observed);
        match action_for(desired.last(), state_of(observed, desired.last().spec.uid)) {
            Some(a) => before.push(a),
            None => before,
        }
    }
}

/// Whether a container with that uid is assigned.
pub open spec fn assigned(desired: Seq<DesiredView>, uid: Seq<char>) -> bool {
    exists|i: int| 0 <= i < desired.len() && (#[trigger] desired[i]).spec.uid == uid
}

/// A `Reap` for each observed instance that no assigned container owns, in order.
pub open spec fn reaping(desired: Seq<DesiredView>, observed: Seq<ObservedView>) -> Seq<ActionView>
    decreases observed.len(),
{
    if observed.len() == 0 {
        Seq::empty()
    } else {
        let before = reaping(desired, observed.drop_last());
        if assigned(desired, observed.last().uid) {
            before
        } else {
            before.push(ActionView::Reap { uid: observed.last().uid })
        }
    }
}

/// The actions that converge `observed` toward `desired`.
pub open spec fn reconciled(desired: Seq<DesiredView>, observed: Seq<ObservedView>) -> Seq<
    ActionView,
> {
    converging(desired, observed) + reaping(desired, observed)
}

fn find_state(observed: &[ObservedInstance], uid: &str) -> (r: Option<InstanceState>)
    ensures
        r == state_of(observed.deep_view(), uid@),
{
    let ghost all = observed.deep_view();
    let mut i: usize = 0;
    assert(all.skip(0) =~= all);
    while i < observed.len()
        invariant
            i <= observed@.len(),
            all == observed.deep_view(),
            state_of(all, uid@) == state_of(all.skip(i as int), uid@),
        decreases observed@.len() - i,
    {
        assert(all.skip(i as int)[0] == observed@[i as int]@);
        assert(all.skip(i as int).skip(1) =~= all.skip(i + 1));
        if text::same(&observed[i].uid, uid) {
            return Some(observed[i].state);
        }
        i += 1;
    }
    None
}

/// Decide the action for one assigned container.
fn decide(d: &DesiredContainer, obs: Option<InstanceState>) -> (r: Option<Action>)
    ensures
        match r {
            Some(a) => action_for(d@, obs) == Some(a@),
            None => action_for(d@, obs) is None,
        },
{
    if d.marked_for_deletion {
        return match obs {
            Some(_) => Some(
                Action::Cleanup {
                    name: d.name.clone(),
                    uid: d.uid.clone(),
                    clear_finalizer: d.has_finalizer,
                },
            ),
            None => if d.has_finalizer {
                Some(Action::ClearFinalizer { name: d.name.clone() })
            } else {
                None
            },
        };
    }
    match d.desired_state {
        DesiredState::Hibernated => {
            // A container that already ran to completion has nothing to suspend;
            // leave its terminal phase alone.
            if is_terminal(&d.phase) {
                return None;
            }
            match obs {
                Some(InstanceState::Running) => Some(
                    Action::Hibernate { name: d.name.clone(), uid: d.uid.clone() },
                ),
                // Already stopped, or never launched (created asleep): nothing to
                // actuate, only a phase to record.
                _ => if !text::same(&d.phase, "Hibernated") {
                    Some(Action::ReportHibernated { name: d.name.clone() })
                } else {
                    None
                },
            }
        },
        DesiredState::Running => match obs {
            // Covers waking a container whose instance is gone: its disk state is
            // lost, so a fresh launch is the honest outcome.
            None => if is_terminal(&d.phase) {
                None
            } else {
                Some(Action::Start { name: d.name.clone(), spec: d.run_spec() })
            },
            Some(InstanceState::Running) => if text::same(&d.phase, "Running") {
                None
            } else {
                Some(Action::ReportRunning { name: d.name.clone() })
            },
            Some(InstanceState::Exited { exit_code }) => {
                if text::same(&d.phase, "Hibernated") {
                    Some(Action::Resume { name: d.name.clone(), uid: d.uid.clone() })
                } else if d.restart_policy.should_restart(exit_code) {
                    Some(
                        Action::Restart {
                            name: d.name.clone(),
                            uid: d.uid.clone(),
                            spec: d.run_spec(),
                        },
                    )
                } else {
                    let phase = terminal_phase(exit_code);
                    if text::same(&d.phase, phase) {
                        None
                    } else {
                        Some(
                            Action::ReportTerminal {
                                name: d.name.clone(),
                                phase: phase.to_owned(),
                                exit_code,
                            },
                        )
                    }
                }
            },
        },
    }
}

fn is_assigned(desired: &[DesiredContainer], uid: &str) -> (r: bool)
    ensures
        r == assigned(desired.deep_view(), uid@),
{
    let ghost all = desired.deep_view();
    for i in 0..desired.len()
        invariant
            all == desired.deep_view(),
            forall|k: int| 0 <= k < i ==> (#[trigger] all[k]).spec.uid != uid@,
    {
        if text::same(&desired[i].uid, uid) {
            assert(all[i as int].spec.uid == uid@);
            return true;
        }
    }
    false
}

/// Decide the actions that converge `observed` toward `desired`.
pub fn reconcile(desired: &[DesiredContainer], observed: &[ObservedInstance]) -> (r: Vec<Action>)
    ensures
        r.deep_view() == reconciled(desired.deep_view(), observed.deep_view()),
{
    let ghost want = desired.deep_view();
    let ghost have = observed.deep_view();
    let mut actions: Vec<Action> = Vec::new();
    for i in 0..desired.len()
        invariant
            want == desired.deep_view(),
            have == observed.deep_view(),
            actions.deep_view() == converging(want.take(i as int), have),
    {
        assert(want.take(i + 1).drop_last() =~= want.take(i as int));
        assert(want.take(i + 1).last() == desired@[i as int]@);
        let obs = find_state(observed, &desired[i].uid);
        let ghost before = actions.deep_view();
        if let Some(a) = decide(&desired[i], obs) {
            actions.push(a);
            assert(actions.deep_view() =~= before.push(a@));
        }
    }
    assert(want.take(desired@.len() as int) =~= want);
    let ghost converge = converging(want, have);
    assert(actions.deep_view() =~= converge + reaping(want, have.take(0)));
    for i in 0..observed.len()
        invariant
            want == desired.deep_view(),
            have == observed.deep_view(),
            actions.deep_view() == converge + reaping(want, have.take(i as int)),
    {
        assert(have.take(i + 1).drop_last() =~= have.take(i as int));
        assert(have.take(i + 1).last() == observed@[i as int]@);
        let ghost before = actions.deep_view();
        if !is_assigned(desired, &observed[i].uid) {
            let a = Action::Reap { uid: observed[i].uid.clone() };
            actions.push(a);
            assert(actions.deep_view() =~= before.push(a@));
            assert(actions.deep_view() =~= converge + reaping(want, have.take(i + 1)));
        }
    }
    assert(have.take(observed@.len() as int) =~= have);
    actions
}

// ---------------------------------------------------------------------------
// What holds of every reconciliation
// ---------------------------------------------------------------------------

/// Whether an action brings an instance up.
pub open spec fn launches(a: ActionView) -> bool {
    a is Start || a is Restart || a is Resume
}

/// The container and its instance once `a` was carried out: the runtime did what it was
/// asked and the server stored the status, or the cleared finalizer.
pub open spec fn carried_out(d: DesiredView, obs: Option<InstanceState>, a: ActionView) -> (
    DesiredView,
    Option<InstanceState>,
) {
    let running = DesiredView { phase: "Running"@, ..d };
    let asleep = DesiredView { phase: "Hibernated"@, ..d };
    match a {
        ActionView::Start { .. } => (running, Some(InstanceState::Running)),
        ActionView::Restart { .. } => (running, Some(InstanceState::Running)),
        ActionView::Resume { .. } => (running, Some(InstanceState::Running)),
        ActionView::ReportRunning { .. } => (running, obs),
        ActionView::ReportTerminal { phase, .. } => (DesiredView { phase, ..d }, obs),
        ActionView::Hibernate { .. } => (asleep, Some(InstanceState::Exited { exit_code: 0 })),
        ActionView::ReportHibernated { .. } => (asleep, obs),
        ActionView::Cleanup { clear_finalizer, .. } => (
            DesiredView { has_finalizer: d.has_finalizer && !clear_finalizer, ..d },
            None,
        ),
        ActionView::ClearFinalizer { .. } => (DesiredView { has_finalizer: false, ..d }, obs),
        ActionView::Reap { .. } => (d, None),
    }
}

/// One action settles a container: carried out, it leaves nothing more to do.
pub proof fn law_one_action_settles(d: DesiredView, obs: Option<InstanceState>)
    ensures
        match action_for(d, obs) {
            Some(a) => {
                let (d2, obs2) = carried_out(d, obs, a);
                action_for(d2, obs2) is None
            },
            None => true,
        },
{
    reveal_strlit("Running");
    reveal_strlit("Hibernated");
    reveal_strlit("Succeeded");
    reveal_strlit("Failed");
    assert("Running"@.len() == 7);
    assert("Hibernated"@.len() == 10);
    assert("Succeeded"@.len() == 9);
    assert("Failed"@.len() == 6);
}

/// Deletion outranks everything else: a container marked for deletion is only ever torn
/// down, whatever its desired state, phase and restart policy are.
pub proof fn law_deletion_outranks(d: DesiredView, obs: Option<InstanceState>)
    requires
        d.marked_for_deletion,
    ensures
        match action_for(d, obs) {
            Some(ActionView::Cleanup { clear_finalizer, .. }) => obs is Some && clear_finalizer
                == d.has_finalizer,
            Some(ActionView::ClearFinalizer { .. }) => obs is None && d.has_finalizer,
            Some(_) => false,
            None => obs is None && !d.has_finalizer,
        },
{
}

/// A container that is to hibernate is never launched, restarted or resumed, whatever its
/// restart policy; its instance is only ever stopped, never removed.
pub proof fn law_hibernation_is_kept(d: DesiredView, obs: Option<InstanceState>)
    requires
        d.desired_state == DesiredState::Hibernated,
        !d.marked_for_deletion,
    ensures
        match action_for(d, obs) {
            Some(a) => a is Hibernate || a is ReportHibernated,
            None => true,
        },
{
}

/// The restart policy does not apply to a container that is to hibernate: whichever it is,
/// what is done about the container is the same.
pub proof fn law_policy_is_no_matter_asleep(
    d: DesiredView,
    policy: RestartPolicy,
    obs: Option<InstanceState>,
)
    requires
        d.desired_state == DesiredState::Hibernated,
    ensures
        action_for(DesiredView { restart_policy: policy, ..d }, obs) == action_for(d, obs),
{
}

/// A running instance is never launched a second time, and a fresh instance is started
/// only where there is none.
pub proof fn law_never_launched_twice(d: DesiredView, obs: Option<InstanceState>)
    ensures
        match action_for(d, obs) {
            Some(a) => {
                &&& launches(a) ==> obs != Some(InstanceState::Running)
                &&& a is Start ==> obs is None
                &&& a is Restart || a is Resume ==> obs is Some
            },
            None => true,
        },
{
}

/// A container that ran to completion and has no instance left is left alone.
pub proof fn law_finished_is_left_alone(d: DesiredView)
    requires
        terminal(d.phase),
        !d.marked_for_deletion,
    ensures
        action_for(d, None) is None,
{
}

/// An action for a container names that container, and a reason of failure is only ever
/// given for an action that names one.
pub proof fn law_actions_name_their_container(d: DesiredView, obs: Option<InstanceState>)
    ensures
        action_for(d, obs) matches Some(a) ==> target(a) == Some(d.name),
        forall|a: ActionView| #[trigger] reason_of_failure(a) is Some ==> target(a) is Some,
{
}

/// The actions for assigned containers are exactly those that their states call for, and
/// each container gets at most one.
pub proof fn law_converging_is_exact(desired: Seq<DesiredView>, observed: Seq<ObservedView>)
    ensures
        converging(desired, observed).len() <= desired.len(),
        forall|a: ActionView| #[trigger]
            converging(desired, observed).contains(a) <==> exists|i: int|
                0 <= i < desired.len() && action_for(
                    #[trigger] desired[i],
                    state_of(observed, desired[i].spec.uid),
                ) == Some(a),
    decreases desired.len(),
{
    let all = converging(desired, observed);
    if desired.len() > 0 {
        let init = desired.drop_last();
        let before = converging(init, observed);
        law_converging_is_exact(init, observed);
        let last = action_for(desired.last(), state_of(observed, desired.last().spec.uid));
        assert forall|a: ActionView| #[trigger] all.contains(a) implies exists|i: int|
            0 <= i < desired.len() && action_for(
                #[trigger] desired[i],
                state_of(observed, desired[i].spec.uid),
            ) == Some(a) by {
            if last == Some(a) {
                assert(desired[desired.len() - 1] == desired.last());
            } else {
                let k = choose|k: int| 0 <= k < all.len() && all[k] == a;
                assert(before[k] == a);
                assert(before.contains(a));
                let i = choose|i: int|
                    0 <= i < init.len() && action_for(
                        #[trigger] init[i],
                        state_of(observed, init[i].spec.uid),
                    ) == Some(a);
                assert(desired[i] == init[i]);
            }
        }
        assert forall|a: ActionView|
            (exists|i: int|
                0 <= i < desired.len() && action_for(
                    #[trigger] desired[i],
                    state_of(observed, desired[i].spec.uid),
                ) == Some(a)) implies #[trigger] all.contains(a) by {
            let i = choose|i: int|
                0 <= i < desired.len() && action_for(
                    #[trigger] desired[i],
                    state_of(observed, desired[i].spec.uid),
                ) == Some(a);
            if i == desired.len() - 1 {
                assert(all[all.len() - 1] == a);
            } else {
                assert(init[i] == desired[i]);
                assert(before.contains(a));
                let k = choose|k: int| 0 <= k < before.len() && before[k] == a;
                assert(all[k] == a);
            }
        }
    }
}

/// An instance is reaped exactly where it was observed and no assigned container owns it.
pub proof fn law_orphans_are_reaped(desired: Seq<DesiredView>, observed: Seq<ObservedView>)
    ensures
        reaping(desired, observed).len() <= observed.len(),
        forall|a: ActionView| #[trigger]
            reaping(desired, observed).contains(a) <==> exists|i: int|
                0 <= i < observed.len() && !assigned(desired, (#[trigger] observed[i]).uid) && a
                    == (ActionView::Reap { uid: observed[i].uid }),
    decreases observed.len(),
{
    let all = reaping(desired, observed);
    if observed.len() > 0 {
        let init = observed.drop_last();
        let before = reaping(desired, init);
        law_orphans_are_reaped(desired, init);
        assert forall|a: ActionView| #[trigger] all.contains(a) implies exists|i: int|
            0 <= i < observed.len() && !assigned(desired, (#[trigger] observed[i]).uid) && a == (
            ActionView::Reap { uid: observed[i].uid }) by {
            let k = choose|k: int| 0 <= k < all.len() && all[k] == a;
            if k == before.len() {
                assert(observed[observed.len() - 1] == observed.last());
            } else {
                assert(before[k] == a);
                assert(before.contains(a));
                let i = choose|i: int|
                    0 <= i < init.len() && !assigned(desired, (#[trigger] init[i]).uid) && a == (
                    ActionView::Reap { uid: init[i].uid });
                assert(observed[i] == init[i]);
            }
        }
        assert forall|a: ActionView|
            (exists|i: int|
                0 <= i < observed.len() && !assigned(desired, (#[trigger] observed[i]).uid) && a
                    == (ActionView::Reap {
                    uid: observed[i].uid,
                })) implies #[trigger] all.contains(a) by {
            let i = choose|i: int|
                0 <= i < observed.len() && !assigned(desired, (#[trigger] observed[i]).uid) && a
                    == (ActionView::Reap { uid: observed[i].uid });
            if i == observed.len() - 1 {
                assert(all[all.len() - 1] == a);
            } else {
                assert(init[i] == observed[i]);
                assert(before.contains(a));
                let k = choose|k: int| 0 <= k < before.len() && before[k] == a;
                assert(all[k] == a);
            }
        }
    }
}

/// Where every assigned container is settled and every instance belongs to one, there is
/// nothing to do.
pub proof fn law_settled_worker_is_idle(desired: Seq<DesiredView>, observed: Seq<ObservedView>)
    requires
        forall|i: int|
            0 <= i < desired.len() ==> action_for(
                #[trigger] desired[i],
                state_of(observed, desired[i].spec.uid),
            ) is None,
        forall|i: int| 0 <= i < observed.len() ==> assigned(desired, (#[trigger] observed[i]).uid),
    ensures
        reconciled(desired, observed).len() == 0,
{
    law_converging_is_exact(desired, observed);
    law_orphans_are_reaped(desired, observed);
    if converging(desired, observed).len() > 0 {
        assert(converging(desired, observed).contains(converging(desired, observed)[0]));
    }
    if reaping(desired, observed).len() > 0 {
        assert(reaping(desired, observed).contains(reaping(desired, observed)[0]));
    }
}

/// Matching goes by uid alone: an instance of another uid, wherever it stands in the list,
/// does not change what is known of a container.
pub proof fn law_other_instances_do_not_matter(
    observed: Seq<ObservedView>,
    i: int,
    other: ObservedView,
    uid: Seq<char>,
)
    requires
        0 <= i <= observed.len(),
        other.uid != uid,
    ensures
        state_of(observed.insert(i, other), uid) == state_of(observed, uid),
    decreases observed.len(),
{
    let with = observed.insert(i, other);
    if i == 0 {
        assert(with.skip(1) =~= observed);
    } else {
        assert(with.skip(1) =~= observed.skip(1).insert(i - 1, other));
        assert(with[0] == observed[0]);
        law_other_instances_do_not_matter(observed.skip(1), i - 1, other, uid);
    }
}

/// A policy and a desired state are what the wire string names, word for word; anything else
/// is `Never`, and `Running`.
pub proof fn law_wire_strings_name_their_meaning(s: Seq<char>)
    ensures
        restart_policy(s) is Always <==> s == "Always"@,
        restart_policy(s) is OnFailure <==> s == "OnFailure"@,
        restart_policy(s) is Never <==> s != "Always"@ && s != "OnFailure"@,
        desired_state(s) is Hibernated <==> s == "Hibernated"@,
        desired_state(s) is Running <==> s != "Hibernated"@,
{
    reveal_strlit("Always");
    reveal_strlit("OnFailure");
    assert("Always"@.len() == 6 && "OnFailure"@.len() == 9);
}

/// A container that is to run and whose instance exited is launched again exactly where its
/// policy says so: always, or on a failure where the exit code is not zero. Else its end is
/// reported, as `Succeeded` exactly on exit code zero, once.
pub proof fn law_exits_are_restarted_or_reported(d: DesiredView, exit_code: i32)
    requires
        !d.marked_for_deletion,
        d.desired_state is Running,
        d.phase != "Hibernated"@,
    ensures
        ({
            let a = action_for(d, Some(InstanceState::Exited { exit_code }));
            let again = d.restart_policy is Always || (d.restart_policy is OnFailure && exit_code
                != 0);
            let end = if exit_code == 0 {
                "Succeeded"@
            } else {
                "Failed"@
            };
            &&& (a is Some && a->0 is Restart) <==> again
            &&& again ==> a == Some(
                ActionView::Restart { name: d.name, uid: d.spec.uid, spec: d.spec },
            )
            &&& !again && d.phase == end ==> a is None
            &&& !again && d.phase != end ==> a == Some(
                ActionView::ReportTerminal { name: d.name, phase: end, exit_code },
            )
        }),
{
}

/// A container that is to run and has no instance is started with its own spec, unless it ran
/// to completion; one whose instance runs is reported as running unless it is already; one
/// that was put to sleep is woken up as the same instance, whatever its policy and exit code.
pub proof fn law_running_is_brought_about(d: DesiredView, exit_code: i32)
    requires
        !d.marked_for_deletion,
        d.desired_state is Running,
    ensures
        action_for(d, None) == (if d.phase == "Succeeded"@ || d.phase == "Failed"@ {
            None
        } else {
            Some(ActionView::Start { name: d.name, spec: d.spec })
        }),
        action_for(d, Some(InstanceState::Running)) == (if d.phase == "Running"@ {
            None
        } else {
            Some(ActionView::ReportRunning { name: d.name })
        }),
        d.phase == "Hibernated"@ ==> action_for(d, Some(InstanceState::Exited { exit_code }))
            == Some(ActionView::Resume { name: d.name, uid: d.spec.uid }),
{
}

/// A container that is to hibernate is left alone where it ran to completion; else a running
/// instance of it is stopped, and one that does not run is reported asleep, once.
pub proof fn law_hibernation_is_brought_about(d: DesiredView, obs: Option<InstanceState>)
    requires
        !d.marked_for_deletion,
        d.desired_state is Hibernated,
    ensures
        ({
            let a = action_for(d, obs);
            let ended = d.phase == "Succeeded"@ || d.phase == "Failed"@;
            &&& ended ==> a is None
            &&& !ended && obs == Some(InstanceState::Running) ==> a == Some(
                ActionView::Hibernate { name: d.name, uid: d.spec.uid },
            )
            &&& !ended && obs != Some(InstanceState::Running) && d.phase != "Hibernated"@ ==> a
                == Some(ActionView::ReportHibernated { name: d.name })
            &&& obs != Some(InstanceState::Running) && d.phase == "Hibernated"@ ==> a is None
        }),
{
    reveal_strlit("Hibernated");
    reveal_strlit("Succeeded");
    reveal_strlit("Failed");
    assert("Hibernated"@.len() == 10 && "Succeeded"@.len() == 9 && "Failed"@.len() == 6);
}

/// A container on its way out is torn down under its own name and uid, and lets go of the
/// object exactly where this worker holds it.
pub proof fn law_deletion_is_brought_about(d: DesiredView, obs: Option<InstanceState>)
    requires
        d.marked_for_deletion,
    ensures
        obs is Some ==> action_for(d, obs) == Some(
            ActionView::Cleanup {
                name: d.name,
                uid: d.spec.uid,
                clear_finalizer: d.has_finalizer,
            },
        ),
        obs is None ==> action_for(d, obs) == (if d.has_finalizer {
            Some(ActionView::ClearFinalizer { name: d.name })
        } else {
            None
        }),
{
}

/// What is known of a container is the state of the first instance with its uid, and nothing
/// exactly where no instance has it.
pub proof fn law_state_is_of_the_first_instance(
    observed: Seq<ObservedView>,
    uid: Seq<char>,
    state: InstanceState,
)
    ensures
        state_of(observed, uid) is None <==> forall|i: int|
            0 <= i < observed.len() ==> (#[trigger] observed[i]).uid != uid,
        state_of(observed, uid) == Some(state) <==> exists|i: int|
            {
                &&& 0 <= i < observed.len()
                &&& #[trigger] observed[i] == (ObservedView { uid, state })
                &&& forall|k: int| 0 <= k < i ==> (#[trigger] observed[k]).uid != uid
            },
    decreases observed.len(),
{
    if observed.len() > 0 {
        let rest = observed.skip(1);
        law_state_is_of_the_first_instance(rest, uid, state);
        assert forall|i: int| 0 <= i < rest.len() implies #[trigger] rest[i] == observed[i + 1] by {}
        if observed[0].uid == uid {
            if observed[0].state == state {
                assert(observed[0] == (ObservedView { uid, state }));
            }
        } else {
            if state_of(observed, uid) is None {
                assert forall|i: int| 0 <= i < observed.len() implies (#[trigger] observed[i]).uid
                    != uid by {
                    if i > 0 {
                        assert(rest[i - 1] == observed[i]);
                    }
                }
            }
            if forall|i: int| 0 <= i < observed.len() ==> (#[trigger] observed[i]).uid != uid {
                assert forall|i: int| 0 <= i < rest.len() implies (#[trigger] rest[i]).uid
                    != uid by {
                    assert(rest[i] == observed[i + 1]);
                }
            }
            if state_of(observed, uid) == Some(state) {
                let i = choose|i: int|
                    0 <= i < rest.len() && #[trigger] rest[i] == (ObservedView { uid, state })
                        && forall|k: int| 0 <= k < i ==> (#[trigger] rest[k]).uid != uid;
                assert(observed[i + 1] == (ObservedView { uid, state }));
                assert forall|k: int| 0 <= k < i + 1 implies (#[trigger] observed[k]).uid
                    != uid by {
                    if k > 0 {
                        assert(rest[k - 1] == observed[k]);
                    }
                }
            }
            if exists|i: int|
                0 <= i < observed.len() && #[trigger] observed[i] == (ObservedView { uid, state })
                    && forall|k: int| 0 <= k < i ==> (#[trigger] observed[k]).uid != uid {
                let i = choose|i: int|
                    0 <= i < observed.len() && #[trigger] observed[i] == (ObservedView {
                        uid,
                        state,
                    }) && forall|k: int| 0 <= k < i ==> (#[trigger] observed[k]).uid != uid;
                assert(i > 0);
                assert(rest[i - 1] == (ObservedView { uid, state }));
                assert forall|k: int| 0 <= k < i - 1 implies (#[trigger] rest[k]).uid != uid by {
                    assert(rest[k] == observed[k + 1]);
                }
            }
        }
    }
}

/// The actions come in the order of the containers, then those of the orphans in the order
/// of the instances: what two lists in a row call for is what the first does, then the second.
pub proof fn law_actions_follow_the_order(
    a: Seq<DesiredView>,
    b: Seq<DesiredView>,
    desired: Seq<DesiredView>,
    x: Seq<ObservedView>,
    y: Seq<ObservedView>,
)
    ensures
        converging(a + b, x) == converging(a, x) + converging(b, x),
        reaping(desired, x + y) == reaping(desired, x) + reaping(desired, y),
        reconciled(desired, x).len() == converging(desired, x).len() + reaping(desired, x).len(),
        reconciled(desired, x).take(converging(desired, x).len() as int) == converging(desired, x),
        reconciled(desired, x).skip(converging(desired, x).len() as int) == reaping(desired, x),
    decreases b.len(), y.len(),
{
    if b.len() > 0 {
        law_actions_follow_the_order(a, b.drop_last(), desired, x, y);
        assert((a + b).drop_last() =~= a + b.drop_last());
        assert((a + b).last() == b.last());
    } else {
        assert(a + b =~= a);
        if y.len() > 0 {
            law_actions_follow_the_order(a, b, desired, x, y.drop_last());
            assert((x + y).drop_last() =~= x + y.drop_last());
            assert((x + y).last() == y.last());
        } else {
            assert(x + y =~= x);
        }
    }
    assert(converging(a + b, x) =~= converging(a, x) + converging(b, x));
    assert(reaping(desired, x + y) =~= reaping(desired, x) + reaping(desired, y));
    let n = converging(desired, x).len() as int;
    assert(reconciled(desired, x).take(n) =~= converging(desired, x));
    assert(reconciled(desired, x).skip(n) =~= reaping(desired, x));
}

/// Every action but a `Reap` names its container; only launching, resuming and hibernating
/// give a reason when they fail, and no two of them the same.
pub proof fn law_failures_are_told_apart(a: ActionView, b: ActionView)
    ensures
        target(a) is None <==> a is Reap,
        reason_of_failure(a) is Some <==> a is Start || a is Restart || a is Resume
            || a is Hibernate,
        reason_of_failure(a) is Some && reason_of_failure(a) == reason_of_failure(b) ==> {
            &&& a is Start == b is Start
            &&& a is Restart == b is Restart
            &&& a is Resume == b is Resume
            &&& a is Hibernate == b is Hibernate
        },
{
    reveal_strlit("StartFailed");
    reveal_strlit("RestartFailed");
    reveal_strlit("ResumeFailed");
    reveal_strlit("HibernateFailed");
    assert("StartFailed"@.len() == 11 && "RestartFailed"@.len() == 13 && "ResumeFailed"@.len()
        == 12 && "HibernateFailed"@.len() == 15);
}

/// What is launched for a container is what the container says: its uid, image, command and
/// environment, in full.
pub proof fn law_containers_stand_for_their_fields(d: DesiredContainer)
    ensures
        d@.name == d.name@,
        d@.spec.uid == d.uid@,
        d@.spec.image == d.image@,
        d@.spec.command == d.command.deep_view(),
        d@.spec.env == d.env.deep_view(),
        d@.restart_policy == d.restart_policy,
        d@.desired_state == d.desired_state,
        d@.phase == d.phase@,
        d@.marked_for_deletion == d.marked_for_deletion,
        d@.has_finalizer == d.has_finalizer,
{
}

/// An instance is taken off the worker exactly where it was observed and no container has its
/// uid: one that a container owns is never reaped, whatever its state.
pub proof fn law_only_orphans_are_reaped(
    desired: Seq<DesiredView>,
    observed: Seq<ObservedView>,
    uid: Seq<char>,
)
    ensures
        reconciled(desired, observed).contains(ActionView::Reap { uid }) <==> (exists|i: int|
            0 <= i < observed.len() && (#[trigger] observed[i]).uid == uid) && (forall|k: int|
            0 <= k < desired.len() ==> (#[trigger] desired[k]).spec.uid != uid),
{
    let reap = ActionView::Reap { uid };
    let up = converging(desired, observed);
    let down = reaping(desired, observed);
    law_orphans_are_reaped(desired, observed);
    law_converging_is_exact(desired, observed);
    if up.contains(reap) {
        let i = choose|i: int|
            0 <= i < desired.len() && action_for(
                #[trigger] desired[i],
                state_of(observed, desired[i].spec.uid),
            ) == Some(reap);
        law_actions_name_their_container(desired[i], state_of(observed, desired[i].spec.uid));
        assert(false);
    }
    if (up + down).contains(reap) {
        let k = choose|k: int| 0 <= k < (up + down).len() && (up + down)[k] == reap;
        if k < up.len() {
            assert(up[k] == reap);
        } else {
            assert(down[k - up.len()] == reap);
        }
        assert(down.contains(reap));
        let i = choose|i: int|
            0 <= i < observed.len() && !assigned(desired, (#[trigger] observed[i]).uid) && reap == (
            ActionView::Reap { uid: observed[i].uid });
        assert(observed[i].uid == uid);
    }
    if (exists|i: int| 0 <= i < observed.len() && (#[trigger] observed[i]).uid == uid) && (forall|
        k: int,
    |
        0 <= k < desired.len() ==> (#[trigger] desired[k]).spec.uid != uid) {
        let i = choose|i: int| 0 <= i < observed.len() && (#[trigger] observed[i]).uid == uid;
        assert(!assigned(desired, observed[i].uid));
        assert(down.contains(reap));
        let k = choose|k: int| 0 <= k < down.len() && down[k] == reap;
        assert((up + down)[up.len() + k] == reap);
    }
}

/// Starting, restarting and resuming bring an instance up, and nothing else does.
pub proof fn law_three_actions_launch(a: ActionView, d: DesiredView, obs: Option<InstanceState>)
    ensures
        launches(a) == match a {
            ActionView::Start { .. } => true,
            ActionView::Restart { .. } => true,
            ActionView::Resume { .. } => true,
            _ => false,
        },
        launches(a) ==> carried_out(d, obs, a).1 == Some(InstanceState::Running),
        carried_out(d, obs, a).1 == Some(InstanceState::Running) && obs != Some(
            InstanceState::Running,
        ) ==> launches(a),
{
}

/// An action stands for its fields: what is carried out is what was decided.
pub proof fn law_actions_stand_for_their_fields(a: Action)
    ensures
        match a {
            Action::Start { name, spec } => target(a@) == Some(name@) && a@ is Start
                && a@->Start_spec == spec@,
            Action::Restart { name, uid, spec } => target(a@) == Some(name@) && a@ is Restart
                && a@->Restart_uid == uid@ && a@->Restart_spec == spec@,
            Action::ReportRunning { name } => target(a@) == Some(name@) && a@ is ReportRunning,
            Action::ReportTerminal { name, phase, exit_code } => target(a@) == Some(name@)
                && a@ is ReportTerminal && a@->phase == phase@ && a@->exit_code == exit_code,
            Action::Hibernate { name, uid } => target(a@) == Some(name@) && a@ is Hibernate
                && a@->Hibernate_uid == uid@,
            Action::Resume { name, uid } => target(a@) == Some(name@) && a@ is Resume
                && a@->Resume_uid == uid@,
            Action::ReportHibernated { name } => target(a@) == Some(name@)
                && a@ is ReportHibernated,
            Action::Cleanup { name, uid, clear_finalizer } => target(a@) == Some(name@)
                && a@ is Cleanup && a@->Cleanup_uid == uid@ && a@->clear_finalizer
                == clear_finalizer,
            Action::ClearFinalizer { name } => target(a@) == Some(name@) && a@ is ClearFinalizer,
            Action::Reap { uid } => target(a@) is None && a@ is Reap && a@->Reap_uid == uid@,
        },
{
}

} // verus!
