//! The worker daemon's decisions.
//!
//! The worker watches the containers assigned to it, reconciles desired against observed
//! state, and actuates through the container runtime. It is authoritative for container
//! `status`. Here is what it reads out of the server's documents, the calls that carry out
//! an action one after the other, and what it reports back.
use vstd::prelude::*;

use crate::json;
use crate::json::{Json, JsonView, Number, NumberView};
use crate::proxy;
use crate::proxy::{
    LocalContainer, LocalModel, ProxyBinding, ServiceModel, ServicePortView, ServiceView,
};
use crate::reconcile;
use crate::reconcile::{
    Action, ActionView, DesiredContainer, DesiredState, DesiredView, ObservedInstance,
    ObservedView, RestartPolicy,
};
use crate::runtime;
use crate::runtime::{
    Instance, InstanceId, InstanceState, InstanceView, RunSpec, RunSpecView, RuntimeError,
};
use crate::text;

verus! {

/// The finalizer this worker owns; its presence means "the worker must clean up
/// the micro-VM before the server may remove the object".
pub const FINALIZER: &'static str = "veloslet";

/// How talking to the server fails: the text of the client's error.
#[derive(Debug, PartialEq, Eq)]
pub struct ClientError(pub String);

/// How carrying out an action fails.
#[derive(Debug, PartialEq, Eq)]
pub enum VelosletError {
    Client(ClientError),
    Runtime(RuntimeError),
}

/// The text of an error.
pub open spec fn error_text(e: VelosletError) -> Seq<char> {
    match e {
        VelosletError::Client(c) => c.0@,
        VelosletError::Runtime(r) => "runtime error: "@ + runtime::runtime_error_text(r),
    }
}

impl VelosletError {
    /// The text of the error.
    pub fn message(&self) -> (r: String)
        ensures
            r@ == error_text(*self),
    {
        match self {
            VelosletError::Client(c) => c.0.clone(),
            VelosletError::Runtime(e) => text::cat2("runtime error: ", &e.message()),
        }
    }
}

// ---------------------------------------------------------------------------
// Observation: what the server's container documents ask for.
// ---------------------------------------------------------------------------

/// The string at `path`, or `default` where there is none.
pub open spec fn text_or(doc: JsonView, path: Seq<Seq<char>>, default: Seq<char>) -> Seq<char> {
    match json::text(json::at(doc, path)) {
        Some(s) => s,
        None => default,
    }
}

/// Whether one of the items is the string `s`.
pub open spec fn holds_text(items: Seq<JsonView>, s: Seq<char>) -> bool {
    exists|i: int| 0 <= i < items.len() && #[trigger] items[i] == JsonView::Text(s)
}

/// The container that a document describes, where it has a name and a uid.
pub open spec fn desired_of(doc: JsonView) -> Option<DesiredView> {
    match (
        json::text(json::at(doc, seq!["metadata"@, "name"@])),
        json::text(json::at(doc, seq!["metadata"@, "uid"@])),
    ) {
        (Some(name), Some(uid)) => Some(
            DesiredView {
                name,
                spec: RunSpecView {
                    uid,
                    image: text_or(doc, seq!["spec"@, "image"@], ""@),
                    command: json::texts(json::items(json::at(doc, seq!["spec"@, "command"@]))),
                    env: json::text_members(json::members(json::at(doc, seq!["spec"@, "env"@]))),
                },
                restart_policy: reconcile::restart_policy(
                    text_or(doc, seq!["spec"@, "restartPolicy"@], "Never"@),
                ),
                desired_state: reconcile::desired_state(
                    text_or(doc, seq!["spec"@, "desiredState"@], "Running"@),
                ),
                phase: text_or(doc, seq!["status"@, "phase"@], "Pending"@),
                marked_for_deletion: match json::at(
                    doc,
                    seq!["metadata"@, "deletionTimestamp"@],
                ) {
                    Some(v) => !(v is Null),
                    None => false,
                },
                has_finalizer: holds_text(
                    json::items(json::at(doc, seq!["metadata"@, "finalizers"@])),
                    FINALIZER@,
                ),
            },
        ),
        _ => None,
    }
}

fn str_or(doc: &Json, first: &str, second: &str, default: &str) -> (r: String)
    ensures
        r@ == text_or(doc@, seq![first@, second@], default@),
{
    let path: [&str; 2] = [first, second];
    assert(path.deep_view() =~= seq![first@, second@]);
    match json::str_at(doc, &path) {
        Some(s) => s.to_owned(),
        None => default.to_owned(),
    }
}

fn is_text(j: &Json, s: &str) -> (r: bool)
    ensures
        r == (j@ == JsonView::Text(s@)),
{
    match j.as_str() {
        Some(x) => text::same(x, s),
        None => false,
    }
}

fn holds(items: &Vec<Json>, s: &str) -> (r: bool)
    ensures
        r == holds_text(json::models(items@), s@),
{
    let ghost all = json::models(items@);
    for i in 0..items.len()
        invariant
            all == json::models(items@),
            forall|k: int| 0 <= k < i ==> #[trigger] all[k] != JsonView::Text(s@),
    {
        if is_text(&items[i], s) {
            assert(all[i as int] == JsonView::Text(s@));
            return true;
        }
    }
    false
}

/// The container that a server document describes; `None` without a name or a uid.
pub fn desired_from_doc(doc: &Json) -> (r: Option<DesiredContainer>)
    ensures
        match r {
            Some(d) => desired_of(doc@) == Some(d@),
            None => desired_of(doc@) is None,
        },
{
    let name_path: [&str; 2] = ["metadata", "name"];
    let uid_path: [&str; 2] = ["metadata", "uid"];
    let command_path: [&str; 2] = ["spec", "command"];
    let env_path: [&str; 2] = ["spec", "env"];
    let deletion_path: [&str; 2] = ["metadata", "deletionTimestamp"];
    let finalizers_path: [&str; 2] = ["metadata", "finalizers"];
    proof {
        assert(name_path.deep_view() =~= seq!["metadata"@, "name"@]);
        assert(uid_path.deep_view() =~= seq!["metadata"@, "uid"@]);
        assert(command_path.deep_view() =~= seq!["spec"@, "command"@]);
        assert(env_path.deep_view() =~= seq!["spec"@, "env"@]);
        assert(deletion_path.deep_view() =~= seq!["metadata"@, "deletionTimestamp"@]);
        assert(finalizers_path.deep_view() =~= seq!["metadata"@, "finalizers"@]);
    }
    let name = match json::str_at(doc, &name_path) {
        Some(s) => s.to_owned(),
        None => {
            return None;
        },
    };
    let uid = match json::str_at(doc, &uid_path) {
        Some(s) => s.to_owned(),
        None => {
            return None;
        },
    };
    let marked_for_deletion = match doc.at(&deletion_path) {
        Some(v) => !v.is_null(),
        None => false,
    };
    let has_finalizer = match doc.at(&finalizers_path) {
        Some(v) => match v.as_array() {
            Some(a) => holds(a, FINALIZER),
            None => {
                assert(!holds_text(Seq::empty(), FINALIZER@));
                false
            },
        },
        None => {
            assert(!holds_text(Seq::empty(), FINALIZER@));
            false
        },
    };
    Some(
        DesiredContainer {
            name,
            uid,
            image: str_or(doc, "spec", "image", ""),
            command: json::strings_at(doc, &command_path),
            env: json::pairs_at(doc, &env_path),
            restart_policy: RestartPolicy::parse(&str_or(doc, "spec", "restartPolicy", "Never")),
            desired_state: DesiredState::parse(&str_or(doc, "spec", "desiredState", "Running")),
            phase: str_or(doc, "status", "phase", "Pending"),
            marked_for_deletion,
            has_finalizer,
        },
    )
}

/// The containers that the documents describe, in order; a document without a name or a
/// uid describes none.
pub open spec fn all_desired(docs: Seq<JsonView>) -> Seq<DesiredView>
    decreases docs.len(),
{
    if docs.len() == 0 {
        Seq::empty()
    } else {
        match desired_of(docs.last()) {
            Some(d) => all_desired(docs.drop_last()).push(d),
            None => all_desired(docs.drop_last()),
        }
    }
}

/// What is observed of the instances the runtime lists.
pub open spec fn all_observed(instances: Seq<InstanceView>) -> Seq<ObservedView> {
    instances.map_values(|i: InstanceView| ObservedView { uid: i.uid, state: i.state })
}

/// The containers assigned to this worker.
pub fn desired_from_docs(docs: &Vec<Json>) -> (r: Vec<DesiredContainer>)
    ensures
        r.deep_view() == all_desired(json::models(docs@)),
{
    let mut out: Vec<DesiredContainer> = Vec::new();
    let ghost all = json::models(docs@);
    for i in 0..docs.len()
        invariant
            all == json::models(docs@),
            out.deep_view() == all_desired(all.take(i as int)),
    {
        assert(all.take(i + 1).drop_last() =~= all.take(i as int));
        let ghost before = out.deep_view();
        if let Some(d) = desired_from_doc(&docs[i]) {
            out.push(d);
            assert(out.deep_view() =~= before.push(d@));
        }
    }
    assert(all.take(all.len() as int) =~= all);
    out
}

/// What is observed of the instances the runtime lists.
pub fn observed_from(instances: &Vec<Instance>) -> (r: Vec<ObservedInstance>)
    ensures
        r.deep_view() == all_observed(instances.deep_view()),
{
    let mut out: Vec<ObservedInstance> = Vec::new();
    let ghost all = all_observed(instances.deep_view());
    for i in 0..instances.len()
        invariant
            all == all_observed(instances.deep_view()),
            out.deep_view() == all.take(i as int),
    {
        let ghost before = out.deep_view();
        let o = ObservedInstance { uid: instances[i].uid.clone(), state: instances[i].state };
        out.push(o);
        assert(all[i as int] == o@);
        assert(out.deep_view() =~= before.push(o@));
        assert(all.take(i + 1) =~= all.take(i as int).push(o@));
    }
    assert(all.take(all.len() as int) =~= all);
    out
}

/// The actions of one reconcile pass over the assigned documents and the instances the
/// runtime lists.
pub fn plan_pass(assigned: &Vec<Json>, instances: &Vec<Instance>) -> (r: Vec<Action>)
    ensures
        r.deep_view() == reconcile::reconciled(
            all_desired(json::models(assigned@)),
            all_observed(instances.deep_view()),
        ),
{
    let desired = desired_from_docs(assigned);
    let observed = observed_from(instances);
    let want = desired.as_slice();
    let have = observed.as_slice();
    assert(want.deep_view() =~= desired.deep_view());
    assert(have.deep_view() =~= observed.deep_view());
    reconcile::reconcile(want, have)
}

// ---------------------------------------------------------------------------
// Status documents
// ---------------------------------------------------------------------------

/// The status of a container whose instance is up.
pub open spec fn running(node: Seq<char>, instance_id: Seq<char>, now: Seq<char>) -> JsonView {
    JsonView::Object(
        seq![
            ("phase"@, JsonView::Text("Running"@)),
            ("workerName"@, JsonView::Text(node)),
            ("containerID"@, JsonView::Text(instance_id)),
            ("startedAt"@, JsonView::Text(now)),
        ],
    )
}

/// The status of a container that is asleep.
pub open spec fn hibernated(node: Seq<char>, now: Seq<char>) -> JsonView {
    JsonView::Object(
        seq![
            ("phase"@, JsonView::Text("Hibernated"@)),
            ("workerName"@, JsonView::Text(node)),
            ("hibernatedAt"@, JsonView::Text(now)),
        ],
    )
}

/// An integer as a JSON number.
pub open spec fn integer(n: i32) -> JsonView {
    if n >= 0 {
        JsonView::Number(NumberView::PosInt(n as u64))
    } else {
        JsonView::Number(NumberView::NegInt(n as i64))
    }
}

/// The status of a container that ran to completion.
pub open spec fn finished(
    node: Seq<char>,
    phase: Seq<char>,
    exit_code: i32,
    now: Seq<char>,
) -> JsonView {
    JsonView::Object(
        seq![
            ("phase"@, JsonView::Text(phase)),
            ("workerName"@, JsonView::Text(node)),
            ("exitCode"@, integer(exit_code)),
            ("finishedAt"@, JsonView::Text(now)),
        ],
    )
}

/// A member of a status: a key and a string.
fn text_member(key: &str, value: &str) -> (r: (String, Json))
    ensures
        r.0@ == key@,
        r.1@ == JsonView::Text(value@),
{
    (key.to_owned(), Json::Text(value.to_owned()))
}

/// The status of a container whose instance `instance_id` is up since `now`.
pub fn running_status(node: &str, instance_id: &str, now: &str) -> (r: Json)
    ensures
        r@ == running(node@, instance_id@, now@),
{
    let r = Json::Object(
        vec![
            text_member("phase", "Running"),
            text_member("workerName", node),
            text_member("containerID", instance_id),
            text_member("startedAt", now),
        ],
    );
    assert(r@->Object_0 =~= running(node@, instance_id@, now@)->Object_0);
    r
}

/// The status of a container that is asleep. `containerID` is deliberately
/// dropped: the instance exists but nothing is running in it, and the status
/// subresource replaces the whole object, so anything not restated is gone.
pub fn hibernated_status(node: &str, now: &str) -> (r: Json)
    ensures
        r@ == hibernated(node@, now@),
{
    let r = Json::Object(
        vec![
            text_member("phase", "Hibernated"),
            text_member("workerName", node),
            text_member("hibernatedAt", now),
        ],
    );
    assert(r@->Object_0 =~= hibernated(node@, now@)->Object_0);
    r
}

/// The status of a container that ran to completion.
pub fn terminal_status(node: &str, phase: &str, exit_code: i32, now: &str) -> (r: Json)
    ensures
        r@ == finished(node@, phase@, exit_code, now@),
{
    let code = if exit_code >= 0 {
        Number::PosInt(exit_code as u64)
    } else {
        Number::NegInt(exit_code as i64)
    };
    let number = Json::Number(code);
    assert(number@ == integer(exit_code));
    let r = Json::Object(
        vec![
            text_member("phase", phase),
            text_member("workerName", node),
            ("exitCode".to_owned(), number),
            text_member("finishedAt", now),
        ],
    );
    assert(r@->Object_0 =~= finished(node@, phase@, exit_code, now@)->Object_0);
    r
}

/// The current status with a failed action recorded on it.
pub open spec fn failed(
    current: JsonView,
    node: Seq<char>,
    reason: Seq<char>,
    message: Seq<char>,
) -> JsonView {
    let m0 = json::members(Some(current));
    let m1 = json::with_member(m0, "workerName"@, JsonView::Text(node));
    let m2 = json::with_member(m1, "reason"@, JsonView::Text(reason));
    JsonView::Object(json::with_member(m2, "message"@, JsonView::Text(message)))
}

/// A container's current status with a failed action recorded on it.
///
/// The phase is deliberately left alone: the container is still bound to this worker
/// and still not running, and the worker will try again on the next tick. The status
/// subresource replaces the whole object, so `current` is restated; anything dropped
/// here would be erased.
pub fn failed_status(current: &Json, node: &str, reason: &str, message: &str) -> (r: Json)
    ensures
        r@ == failed(current@, node@, reason@, message@),
{
    let empty: Vec<(String, Json)> = Vec::new();
    let base = match current.as_object() {
        Some(m) => m,
        None => &empty,
    };
    assert(json::member_models(base@) =~= json::members(Some(current@)));
    let with_worker = json::set_member(base, "workerName", Json::Text(node.to_owned()));
    let with_reason = json::set_member(&with_worker, "reason", Json::Text(reason.to_owned()));
    let with_message = json::set_member(&with_reason, "message", Json::Text(message.to_owned()));
    let r = Json::Object(with_message);
    assert(r@->Object_0 =~= json::member_models(with_message@));
    r
}

/// Whether a status does not already record exactly this failure.
pub open spec fn is_new_failure(current: JsonView, reason: Seq<char>, message: Seq<char>) -> bool {
    json::text(json::get(current, "reason"@)) != Some(reason) || json::text(
        json::get(current, "message"@),
    ) != Some(message)
}

fn member_is(doc: &Json, key: &str, s: &str) -> (r: bool)
    ensures
        r == (json::text(json::get(doc@, key@)) == Some(s@)),
{
    match doc.get(key) {
        Some(j) => is_text(j, s),
        None => false,
    }
}

/// Whether `current` does not already record exactly this failure.
///
/// The worker retries a failing action on every reconcile tick, and every status
/// write is a store write plus a watch event: an unchanged failure is not reported
/// again.
pub fn failure_is_new(current: &Json, reason: &str, message: &str) -> (r: bool)
    ensures
        r == is_new_failure(current@, reason@, message@),
{
    !member_is(current, "reason", reason) || !member_is(current, "message", message)
}

// ---------------------------------------------------------------------------
// The finalizer
// ---------------------------------------------------------------------------

/// The items but those that are the string `s`, in order.
pub open spec fn without_text(items: Seq<JsonView>, s: Seq<char>) -> Seq<JsonView>
    decreases items.len(),
{
    if items.len() == 0 {
        Seq::empty()
    } else if items.last() == JsonView::Text(s) {
        without_text(items.drop_last(), s)
    } else {
        without_text(items.drop_last(), s).push(items.last())
    }
}

/// The document with this worker's finalizer taken out of `metadata.finalizers`, and
/// nothing else changed. One without a `metadata` object stays as it is.
pub open spec fn cleared(doc: JsonView) -> JsonView {
    match json::get(doc, "metadata"@) {
        Some(JsonView::Object(meta)) => JsonView::Object(
            json::with_member(
                json::members(Some(doc)),
                "metadata"@,
                JsonView::Object(
                    json::with_member(
                        meta,
                        "finalizers"@,
                        JsonView::Array(
                            without_text(
                                json::items(json::get(JsonView::Object(meta), "finalizers"@)),
                                FINALIZER@,
                            ),
                        ),
                    ),
                ),
            ),
        ),
        _ => doc,
    }
}

fn others(items: &Vec<Json>, s: &str) -> (r: Vec<Json>)
    ensures
        json::models(r@) == without_text(json::models(items@), s@),
{
    let mut out: Vec<Json> = Vec::new();
    let ghost all = json::models(items@);
    assert(json::models(out@) =~= without_text(all.take(0), s@));
    for i in 0..items.len()
        invariant
            all == json::models(items@),
            json::models(out@) == without_text(all.take(i as int), s@),
    {
        assert(all.take(i + 1).drop_last() =~= all.take(i as int));
        assert(all.take(i + 1).last() == items@[i as int]@);
        let ghost before = json::models(out@);
        if !is_text(&items[i], s) {
            out.push(items[i].clone());
            assert(json::models(out@) =~= before.push(all[i as int]));
        }
    }
    assert(all.take(all.len() as int) =~= all);
    out
}

/// The document with this worker's finalizer cleared.
pub fn without_finalizer(doc: &Json) -> (r: Json)
    ensures
        r@ == cleared(doc@),
{
    if let Some(metadata) = doc.get("metadata") {
        if let Some(meta) = metadata.as_object() {
            if let Some(top) = doc.as_object() {
                assert(metadata@ == JsonView::Object(json::member_models(meta@)));
                let remaining = match metadata.get("finalizers") {
                    Some(f) => match f.as_array() {
                        Some(a) => others(a, FINALIZER),
                        None => Vec::new(),
                    },
                    None => Vec::new(),
                };
                assert(json::models(remaining@) =~= without_text(
                    json::items(json::get(metadata@, "finalizers"@)),
                    FINALIZER@,
                ));
                let list = Json::Array(remaining);
                assert(list@->Array_0 =~= json::models(remaining@));
                let inner = json::set_member(meta, "finalizers", list);
                let changed = Json::Object(inner);
                assert(changed@->Object_0 =~= json::member_models(inner@));
                let outer = json::set_member(top, "metadata", changed);
                let r = Json::Object(outer);
                assert(r@->Object_0 =~= json::member_models(outer@));
                return r;
            }
        }
    }
    doc.clone()
}

// ---------------------------------------------------------------------------
// Actuation: the calls that carry out an action.
// ---------------------------------------------------------------------------

/// A call against the runtime or the server.
#[derive(Debug, PartialEq, Eq)]
pub enum Command {
    /// Launch an instance.
    Run { spec: RunSpec },
    /// Boot a stopped instance back up.
    Start { uid: String },
    /// Stop an instance.
    Stop { uid: String },
    /// Remove an instance.
    Remove { uid: String },
    /// Store the status of a container.
    PutStatus { name: String, status: Json },
    /// Read a container document.
    GetContainer { name: String },
    /// Store a container document.
    ReplaceContainer { name: String, doc: Json },
}

/// What a [`Command`] stands for.
#[verifier::ext_equal]
pub enum CommandView {
    Run { spec: RunSpecView },
    Start { uid: Seq<char> },
    Stop { uid: Seq<char> },
    Remove { uid: Seq<char> },
    PutStatus { name: Seq<char>, status: JsonView },
    GetContainer { name: Seq<char> },
    ReplaceContainer { name: Seq<char>, doc: JsonView },
}

impl View for Command {
    type V = CommandView;

    open spec fn view(&self) -> CommandView {
        match self {
            Command::Run { spec } => CommandView::Run { spec: spec@ },
            Command::Start { uid } => CommandView::Start { uid: uid@ },
            Command::Stop { uid } => CommandView::Stop { uid: uid@ },
            Command::Remove { uid } => CommandView::Remove { uid: uid@ },
            Command::PutStatus { name, status } => CommandView::PutStatus {
                name: name@,
                status: status@,
            },
            Command::GetContainer { name } => CommandView::GetContainer { name: name@ },
            Command::ReplaceContainer { name, doc } => CommandView::ReplaceContainer {
                name: name@,
                doc: doc@,
            },
        }
    }
}

/// What a call that succeeded came back with.
#[derive(Debug, PartialEq, Eq)]
pub enum Reply {
    Done,
    Launched(InstanceId),
    Container(Option<Json>),
}

/// What a [`Reply`] stands for.
#[verifier::ext_equal]
pub enum ReplyView {
    Done,
    Launched(Seq<char>),
    Container(Option<JsonView>),
}

impl View for Reply {
    type V = ReplyView;

    open spec fn view(&self) -> ReplyView {
        match self {
            Reply::Done => ReplyView::Done,
            Reply::Launched(id) => ReplyView::Launched(id.0@),
            Reply::Container(Some(doc)) => ReplyView::Container(Some(doc@)),
            Reply::Container(None) => ReplyView::Container(None),
        }
    }
}

impl DeepView for Reply {
    type V = ReplyView;

    open spec fn deep_view(&self) -> ReplyView {
        self@
    }
}

/// The report that a launched instance is up.
pub open spec fn report_launch(
    name: Seq<char>,
    node: Seq<char>,
    now: Seq<char>,
    reply: ReplyView,
) -> Option<CommandView> {
    match reply {
        ReplyView::Launched(id) => Some(
            CommandView::PutStatus { name, status: running(node, id, now) },
        ),
        _ => None,
    }
}

/// The calls that clear the finalizer of a container: read it, and store it without. A
/// container that is gone has nothing to clear.
pub open spec fn clearing(name: Seq<char>, replies: Seq<ReplyView>) -> Option<CommandView> {
    if replies.len() == 0 {
        Some(CommandView::GetContainer { name })
    } else if replies.len() == 1 {
        match replies[0] {
            ReplyView::Container(Some(doc)) => Some(
                CommandView::ReplaceContainer { name, doc: cleared(doc) },
            ),
            _ => None,
        }
    } else {
        None
    }
}

/// The call that comes next in carrying out `a`, once the calls before it succeeded with
/// `replies`. `None` where the action is carried out.
pub open spec fn next(
    a: ActionView,
    node: Seq<char>,
    now: Seq<char>,
    replies: Seq<ReplyView>,
) -> Option<CommandView> {
    let n = replies.len();
    match a {
        ActionView::Start { name, spec } => if n == 0 {
            Some(CommandView::Run { spec })
        } else if n == 1 {
            report_launch(name, node, now, replies[0])
        } else {
            None
        },
        ActionView::Restart { name, uid, spec } => if n == 0 {
            Some(CommandView::Remove { uid })
        } else if n == 1 {
            Some(CommandView::Run { spec })
        } else if n == 2 {
            report_launch(name, node, now, replies[1])
        } else {
            None
        },
        ActionView::ReportRunning { name } => if n == 0 {
            Some(CommandView::PutStatus { name, status: running(node, ""@, now) })
        } else {
            None
        },
        ActionView::Hibernate { name, uid } => if n == 0 {
            Some(CommandView::Stop { uid })
        } else if n == 1 {
            Some(CommandView::PutStatus { name, status: hibernated(node, now) })
        } else {
            None
        },
        ActionView::Resume { name, uid } => if n == 0 {
            Some(CommandView::Start { uid })
        } else if n == 1 {
            report_launch(name, node, now, replies[0])
        } else {
            None
        },
        ActionView::ReportHibernated { name } => if n == 0 {
            Some(CommandView::PutStatus { name, status: hibernated(node, now) })
        } else {
            None
        },
        ActionView::ReportTerminal { name, phase, exit_code } => if n == 0 {
            Some(CommandView::PutStatus { name, status: finished(node, phase, exit_code, now) })
        } else {
            None
        },
        ActionView::Cleanup { name, uid, clear_finalizer } => if n == 0 {
            Some(CommandView::Stop { uid })
        } else if n == 1 {
            Some(CommandView::Remove { uid })
        } else if clear_finalizer {
            clearing(name, replies.skip(2))
        } else {
            None
        },
        ActionView::ClearFinalizer { name } => clearing(name, replies),
        ActionView::Reap { uid } => if n == 0 {
            Some(CommandView::Stop { uid })
        } else if n == 1 {
            Some(CommandView::Remove { uid })
        } else {
            None
        },
    }
}

/// Whether two optional commands are the same.
pub open spec fn is_command(r: Option<Command>, want: Option<CommandView>) -> bool {
    match r {
        Some(c) => want == Some(c@),
        None => want is None,
    }
}

fn launch_report(name: &str, node: &str, now: &str, reply: &Reply) -> (r: Option<Command>)
    ensures
        is_command(r, report_launch(name@, node@, now@, reply@)),
{
    match reply {
        Reply::Launched(id) => Some(
            Command::PutStatus {
                name: name.to_owned(),
                status: running_status(node, &id.0, now),
            },
        ),
        _ => None,
    }
}

fn clear_finalizer(name: &str, replies: &Vec<Reply>, from: usize) -> (r: Option<Command>)
    requires
        from <= replies@.len(),
    ensures
        is_command(r, clearing(name@, replies.deep_view().skip(from as int))),
{
    if replies.len() == from {
        Some(Command::GetContainer { name: name.to_owned() })
    } else if replies.len() - from == 1 {
        match &replies[from] {
            Reply::Container(Some(doc)) => Some(
                Command::ReplaceContainer { name: name.to_owned(), doc: without_finalizer(doc) },
            ),
            _ => None,
        }
    } else {
        None
    }
}

/// The call that comes next in carrying out `action`. `replies` are those of the calls
/// before it, all of which succeeded; a call that fails ends the action. `None` where the
/// action is carried out.
///
/// A `Hibernate` stops its instance and never removes it: the instance and its disk must
/// survive so that `Resume` can boot the same micro-VM back up.
pub fn next_command(action: &Action, node: &str, now: &str, replies: &Vec<Reply>) -> (r: Option<
    Command,
>)
    ensures
        is_command(r, next(action@, node@, now@, replies.deep_view())),
{
    let n: usize = replies.len();
    match action {
        Action::Start { name, spec } => if n == 0 {
            Some(Command::Run { spec: spec.clone() })
        } else if n == 1 {
            launch_report(name, node, now, &replies[0])
        } else {
            None
        },
        Action::Restart { name, uid, spec } => if n == 0 {
            Some(Command::Remove { uid: uid.clone() })
        } else if n == 1 {
            Some(Command::Run { spec: spec.clone() })
        } else if n == 2 {
            launch_report(name, node, now, &replies[1])
        } else {
            None
        },
        Action::ReportRunning { name } => if n == 0 {
            Some(
                Command::PutStatus { name: name.clone(), status: running_status(node, "", now) },
            )
        } else {
            None
        },
        Action::Hibernate { name, uid } => if n == 0 {
            Some(Command::Stop { uid: uid.clone() })
        } else if n == 1 {
            Some(Command::PutStatus { name: name.clone(), status: hibernated_status(node, now) })
        } else {
            None
        },
        Action::Resume { name, uid } => if n == 0 {
            Some(Command::Start { uid: uid.clone() })
        } else if n == 1 {
            launch_report(name, node, now, &replies[0])
        } else {
            None
        },
        Action::ReportHibernated { name } => if n == 0 {
            Some(Command::PutStatus { name: name.clone(), status: hibernated_status(node, now) })
        } else {
            None
        },
        Action::ReportTerminal { name, phase, exit_code } => if n == 0 {
            Some(
                Command::PutStatus {
                    name: name.clone(),
                    status: terminal_status(node, phase, *exit_code, now),
                },
            )
        } else {
            None
        },
        Action::Cleanup { name, uid, clear_finalizer: clear } => if n == 0 {
            Some(Command::Stop { uid: uid.clone() })
        } else if n == 1 {
            Some(Command::Remove { uid: uid.clone() })
        } else if *clear {
            clear_finalizer(name, replies, 2)
        } else {
            None
        },
        Action::ClearFinalizer { name } => {
            assert(replies.deep_view().skip(0) =~= replies.deep_view());
            clear_finalizer(name, replies, 0)
        },
        Action::Reap { uid } => if n == 0 {
            Some(Command::Stop { uid: uid.clone() })
        } else if n == 1 {
            Some(Command::Remove { uid: uid.clone() })
        } else {
            None
        },
    }
}

// ---------------------------------------------------------------------------
// Failures
// ---------------------------------------------------------------------------

/// The status that the first document with that name holds; an empty one where there is
/// none.
pub open spec fn status_of(docs: Seq<JsonView>, name: Seq<char>) -> JsonView
    decreases docs.len(),
{
    if docs.len() == 0 {
        JsonView::Object(Seq::empty())
    } else if json::text(json::at(docs[0], seq!["metadata"@, "name"@])) == Some(name) {
        match json::get(docs[0], "status"@) {
            Some(s) => s,
            None => JsonView::Object(Seq::empty()),
        }
    } else {
        status_of(docs.skip(1), name)
    }
}

/// What to publish when `a` failed with `message`: the container and its new status. A
/// failure that is not the container's to carry, or that is recorded already, is not
/// published.
pub open spec fn published(
    docs: Seq<JsonView>,
    node: Seq<char>,
    a: ActionView,
    message: Seq<char>,
) -> Option<(Seq<char>, JsonView)> {
    match (reconcile::target(a), reconcile::reason_of_failure(a)) {
        (Some(name), Some(reason)) => {
            let current = status_of(docs, name);
            if is_new_failure(current, reason, message) {
                Some((name, failed(current, node, reason, message)))
            } else {
                None
            }
        },
        _ => None,
    }
}

/// What to log when `a` failed with `message`.
pub open spec fn logged(a: ActionView, message: Seq<char>) -> Seq<char> {
    match reconcile::target(a) {
        Some(name) => "container "@ + name + ": "@ + message,
        None => "reaping an orphaned instance failed: "@ + message,
    }
}

fn current_status(assigned: &Vec<Json>, name: &str) -> (r: Json)
    ensures
        r@ == status_of(json::models(assigned@), name@),
{
    let path: [&str; 2] = ["metadata", "name"];
    assert(path.deep_view() =~= seq!["metadata"@, "name"@]);
    let ghost all = json::models(assigned@);
    let mut i: usize = 0;
    assert(all.skip(0) =~= all);
    let empty: Vec<(String, Json)> = Vec::new();
    let nothing = Json::Object(empty);
    assert(nothing@->Object_0 =~= Seq::empty());
    while i < assigned.len()
        invariant
            i <= assigned@.len(),
            path.deep_view() == seq!["metadata"@, "name"@],
            all == json::models(assigned@),
            nothing@ == JsonView::Object(Seq::empty()),
            status_of(all, name@) == status_of(all.skip(i as int), name@),
        decreases assigned@.len() - i,
    {
        assert(all.skip(i as int)[0] == assigned@[i as int]@);
        assert(all.skip(i as int).skip(1) =~= all.skip(i + 1));
        if let Some(s) = json::str_at(&assigned[i], &path) {
            if text::same(s, name) {
                return match assigned[i].get("status") {
                    Some(j) => j.clone(),
                    None => nothing,
                };
            }
        }
        i += 1;
    }
    nothing
}

/// The status to publish for an action that failed with `message`, and the container it
/// goes to; `None` where there is nothing to publish.
pub fn failure_report(assigned: &Vec<Json>, node: &str, action: &Action, message: &str) -> (r:
    Option<(String, Json)>)
    ensures
        match r {
            Some(p) => published(json::models(assigned@), node@, action@, message@) == Some(
                (p.0@, p.1@),
            ),
            None => published(json::models(assigned@), node@, action@, message@) is None,
        },
{
    let name = match action.container() {
        Some(name) => name,
        None => {
            return None;
        },
    };
    let reason = match action.failure_reason() {
        Some(reason) => reason,
        None => {
            return None;
        },
    };
    let current = current_status(assigned, name);
    if failure_is_new(&current, reason, message) {
        Some((name.to_owned(), failed_status(&current, node, reason, message)))
    } else {
        None
    }
}

/// The line to log for an action that failed with `message`.
pub fn failure_log(action: &Action, message: &str) -> (r: String)
    ensures
        r@ == logged(action@, message@),
{
    match action.container() {
        Some(name) => text::cat4("container ", name, ": ", message),
        None => text::cat2("reaping an orphaned instance failed: ", message),
    }
}

// ---------------------------------------------------------------------------
// One reconcile pass
// ---------------------------------------------------------------------------

/// A reconcile pass: actions to carry out one after the other. An action that fails is
/// left, and the pass goes on with the next one: one container that cannot start must not
/// cost every other container on this worker its pass.
#[derive(Debug)]
pub struct Pass {
    actions: Vec<Action>,
    at: usize,
    replies: Vec<Reply>,
    applied: usize,
}

/// What a [`Pass`] stands for: the actions, how many are behind it, the replies to the
/// calls of the current one, and how many were carried out.
#[verifier::ext_equal]
pub struct PassView {
    pub actions: Seq<ActionView>,
    pub at: nat,
    pub replies: Seq<ReplyView>,
    pub applied: nat,
}

impl View for Pass {
    type V = PassView;

    closed spec fn view(&self) -> PassView {
        PassView {
            actions: self.actions.deep_view(),
            at: self.at as nat,
            replies: self.replies.deep_view(),
            applied: self.applied as nat,
        }
    }
}

/// Whether a pass has an action that it is at.
pub open spec fn under_way(p: PassView) -> bool {
    p.at < p.actions.len()
}

/// The pass with the current action behind it, carried out or not.
pub open spec fn stepped(p: PassView, carried_out: bool) -> PassView {
    PassView {
        at: p.at + 1,
        replies: Seq::empty(),
        applied: if carried_out {
            p.applied + 1
        } else {
            p.applied
        },
        ..p
    }
}

/// The pass with its current action behind it, if that has no call left.
pub open spec fn advanced(p: PassView, node: Seq<char>, now: Seq<char>) -> PassView {
    if under_way(p) && next(p.actions[p.at as int], node, now, p.replies) is None {
        stepped(p, true)
    } else {
        p
    }
}

/// The call to make next in a pass; `None` where it is over.
pub open spec fn pending(p: PassView, node: Seq<char>, now: Seq<char>) -> Option<CommandView> {
    if under_way(p) {
        next(p.actions[p.at as int], node, now, p.replies)
    } else {
        None
    }
}

/// Every action has a first call.
proof fn lemma_first_call(a: ActionView, node: Seq<char>, now: Seq<char>)
    ensures
        next(a, node, now, Seq::empty()) is Some,
{
}

/// What to do about an action that failed.
#[derive(Debug, PartialEq, Eq)]
pub struct Failure {
    /// The line to log.
    pub log: String,
    /// The container whose status is to be stored, and the status.
    pub publish: Option<(String, Json)>,
}

impl Pass {
    #[verifier::type_invariant]
    spec fn inv(self) -> bool {
        self.applied <= self.at <= self.actions@.len()
    }

    /// A pass over the actions, none of them begun.
    pub fn begin(actions: Vec<Action>) -> (r: Pass)
        ensures
            r@ == (PassView {
                actions: actions.deep_view(),
                at: 0,
                replies: Seq::empty(),
                applied: 0,
            }),
    {
        let replies: Vec<Reply> = Vec::new();
        assert(replies.deep_view() =~= Seq::empty());
        Pass { actions, at: 0, replies, applied: 0 }
    }

    /// How many actions were carried out.
    pub fn applied(&self) -> (r: usize)
        ensures
            r == self@.applied,
    {
        self.applied
    }

    /// The call to make next; `None` where the pass is over. An action whose last call
    /// succeeded is carried out, and the next one begins.
    pub fn next_call(&mut self, node: &str, now: &str) -> (r: Option<Command>)
        ensures
            final(self)@ == advanced(old(self)@, node@, now@),
            is_command(r, pending(final(self)@, node@, now@)),
            r is None <==> !under_way(final(self)@),
    {
        proof {
            use_type_invariant(&*self);
        }
        if self.at == self.actions.len() {
            return None;
        }
        let c = next_command(&self.actions[self.at], node, now, &self.replies);
        if c.is_some() {
            return c;
        }
        let replies: Vec<Reply> = Vec::new();
        assert(replies.deep_view() =~= Seq::empty());
        let applied: usize = self.applied + 1;
        let at: usize = self.at + 1;
        self.at = at;
        self.applied = applied;
        self.replies = replies;
        if self.at == self.actions.len() {
            return None;
        }
        proof {
            lemma_first_call(self@.actions[self@.at as int], node@, now@);
        }
        next_command(&self.actions[self.at], node, now, &self.replies)
    }

    /// Records that the call succeeded.
    pub fn succeeded(&mut self, reply: Reply)
        ensures
            final(self)@ == (PassView { replies: old(self)@.replies.push(reply@), ..old(self)@ }),
    {
        proof {
            use_type_invariant(&*self);
        }
        let mut replies: Vec<Reply> = Vec::new();
        std::mem::swap(&mut replies, &mut self.replies);
        let ghost before = replies.deep_view();
        replies.push(reply);
        assert(replies.deep_view() =~= before.push(reply@));
        self.replies = replies;
    }

    /// Records that the call failed with `message`: the action is left, what to log and
    /// publish of it is returned, and the next one begins.
    pub fn failed(&mut self, assigned: &Vec<Json>, node: &str, message: &str) -> (r: Option<
        Failure,
    >)
        ensures
            under_way(old(self)@) ==> final(self)@ == stepped(old(self)@, false),
            !under_way(old(self)@) ==> final(self)@ == old(self)@ && r is None,
            under_way(old(self)@) ==> {
                let a = old(self)@.actions[old(self)@.at as int];
                &&& r is Some
                &&& r->0.log@ == logged(a, message@)
                &&& match r->0.publish {
                    Some(p) => published(json::models(assigned@), node@, a, message@) == Some(
                        (p.0@, p.1@),
                    ),
                    None => published(json::models(assigned@), node@, a, message@) is None,
                }
            },
    {
        proof {
            use_type_invariant(&*self);
        }
        if self.at == self.actions.len() {
            return None;
        }
        let log = failure_log(&self.actions[self.at], message);
        let publish = failure_report(assigned, node, &self.actions[self.at], message);
        let replies: Vec<Reply> = Vec::new();
        assert(replies.deep_view() =~= Seq::empty());
        let at: usize = self.at + 1;
        self.at = at;
        self.replies = replies;
        Some(Failure { log, publish })
    }
}

// ---------------------------------------------------------------------------
// Services
// ---------------------------------------------------------------------------

/// The port that a member gives, where it fits a TCP port.
pub open spec fn port_of(doc: JsonView, key: Seq<char>) -> Option<u16> {
    match json::as_u64(json::get(doc, key)) {
        Some(n) => if n <= 0xffff {
            Some(n as u16)
        } else {
            None
        },
        None => None,
    }
}

/// The ports of the entries that give both, in order.
pub open spec fn ports_of(entries: Seq<JsonView>) -> Seq<ServicePortView>
    decreases entries.len(),
{
    if entries.len() == 0 {
        Seq::empty()
    } else {
        let before = ports_of(entries.drop_last());
        match (port_of(entries.last(), "nodePort"@), port_of(entries.last(), "targetPort"@)) {
            (Some(node_port), Some(target_port)) => before.push(
                ServicePortView { node_port, target_port },
            ),
            _ => before,
        }
    }
}

/// The Service that a document describes, where it has a name.
pub open spec fn service_of(doc: JsonView) -> Option<ServiceModel> {
    match json::text(json::at(doc, seq!["metadata"@, "name"@])) {
        Some(name) => Some(
            ServiceModel {
                name,
                selector: json::text_members(
                    json::members(json::at(doc, seq!["spec"@, "selector"@])),
                ),
                ports: ports_of(json::items(json::at(doc, seq!["spec"@, "ports"@]))),
            },
        ),
        None => None,
    }
}

/// The Services that the documents describe, in order.
pub open spec fn all_services(docs: Seq<JsonView>) -> Seq<ServiceModel>
    decreases docs.len(),
{
    if docs.len() == 0 {
        Seq::empty()
    } else {
        match service_of(docs.last()) {
            Some(s) => all_services(docs.drop_last()).push(s),
            None => all_services(docs.drop_last()),
        }
    }
}

/// Read a port number that has to fit a TCP port. Anything outside the range is
/// `None` rather than truncated: a wrapped port would bind or forward to the
/// wrong place, which is worse than not serving the port at all.
fn port_at(doc: &Json, key: &str) -> (r: Option<u16>)
    ensures
        r == port_of(doc@, key@),
{
    match doc.get(key) {
        Some(j) => match j.as_u64() {
            Some(n) => if n <= 0xffff {
                Some(n as u16)
            } else {
                None
            },
            None => None,
        },
        None => None,
    }
}

/// The Service that a server document describes; `None` without a name.
pub fn service_from_doc(doc: &Json) -> (r: Option<ServiceView>)
    ensures
        match r {
            Some(s) => service_of(doc@) == Some(s@),
            None => service_of(doc@) is None,
        },
{
    let name_path: [&str; 2] = ["metadata", "name"];
    let selector_path: [&str; 2] = ["spec", "selector"];
    let ports_path: [&str; 2] = ["spec", "ports"];
    proof {
        assert(name_path.deep_view() =~= seq!["metadata"@, "name"@]);
        assert(selector_path.deep_view() =~= seq!["spec"@, "selector"@]);
        assert(ports_path.deep_view() =~= seq!["spec"@, "ports"@]);
    }
    let name = match json::str_at(doc, &name_path) {
        Some(s) => s.to_owned(),
        None => {
            return None;
        },
    };
    let selector = json::pairs_at(doc, &selector_path);
    let mut ports: Vec<ServicePortView> = Vec::new();
    if let Some(j) = doc.at(&ports_path) {
        if let Some(entries) = j.as_array() {
            let ghost all = json::models(entries@);
            for i in 0..entries.len()
                invariant
                    all == json::models(entries@),
                    ports@ == ports_of(all.take(i as int)),
            {
                assert(all.take(i + 1).drop_last() =~= all.take(i as int));
                assert(all.take(i + 1).last() == entries@[i as int]@);
                match (port_at(&entries[i], "nodePort"), port_at(&entries[i], "targetPort")) {
                    (Some(node_port), Some(target_port)) => {
                        ports.push(ServicePortView { node_port, target_port });
                    },
                    _ => {},
                }
            }
            assert(all.take(all.len() as int) =~= all);
        }
    }
    Some(ServiceView { name, selector, ports })
}

/// The address the runtime reports for an instance, if it reports one.
#[derive(Debug, PartialEq, Eq)]
pub struct InstanceAddress {
    pub uid: String,
    pub ip: Option<String>,
}

/// What an [`InstanceAddress`] stands for.
#[verifier::ext_equal]
pub struct AddressView {
    pub uid: Seq<char>,
    pub ip: Option<Seq<char>>,
}

impl View for InstanceAddress {
    type V = AddressView;

    open spec fn view(&self) -> AddressView {
        AddressView { uid: self.uid@, ip: self.ip.deep_view() }
    }
}

impl DeepView for InstanceAddress {
    type V = AddressView;

    open spec fn deep_view(&self) -> AddressView {
        self@
    }
}

/// The address of the first instance with that uid.
pub open spec fn address_of(instances: Seq<AddressView>, uid: Seq<char>) -> Option<Seq<char>>
    decreases instances.len(),
{
    if instances.len() == 0 {
        None
    } else if instances[0].uid == uid {
        instances[0].ip
    } else {
        address_of(instances.skip(1), uid)
    }
}

/// The local container that a document describes, where it has a uid.
pub open spec fn local_of(doc: JsonView, instances: Seq<AddressView>) -> Option<LocalModel> {
    match json::text(json::at(doc, seq!["metadata"@, "uid"@])) {
        Some(uid) => Some(
            LocalModel {
                labels: json::text_members(
                    json::members(json::at(doc, seq!["metadata"@, "labels"@])),
                ),
                ip: address_of(instances, uid),
            },
        ),
        None => None,
    }
}

/// The local containers that the documents describe, in order.
pub open spec fn all_locals(docs: Seq<JsonView>, instances: Seq<AddressView>) -> Seq<LocalModel>
    decreases docs.len(),
{
    if docs.len() == 0 {
        Seq::empty()
    } else {
        match local_of(docs.last(), instances) {
            Some(l) => all_locals(docs.drop_last(), instances).push(l),
            None => all_locals(docs.drop_last(), instances),
        }
    }
}

fn find_address(instances: &Vec<InstanceAddress>, uid: &str) -> (r: Option<String>)
    ensures
        r.deep_view() == address_of(instances.deep_view(), uid@),
{
    let ghost all = instances.deep_view();
    let mut i: usize = 0;
    assert(all.skip(0) =~= all);
    while i < instances.len()
        invariant
            i <= instances@.len(),
            all == instances.deep_view(),
            address_of(all, uid@) == address_of(all.skip(i as int), uid@),
        decreases instances@.len() - i,
    {
        assert(all.skip(i as int)[0] == instances@[i as int]@);
        assert(all.skip(i as int).skip(1) =~= all.skip(i + 1));
        if text::same(&instances[i].uid, uid) {
            return match &instances[i].ip {
                Some(ip) => Some(ip.clone()),
                None => None,
            };
        }
        i += 1;
    }
    None
}

/// Join the containers the server bound here with what the runtime reports, so
/// a Service selector (which speaks labels) can reach an instance address
/// (which only the runtime knows). The join key is the uid, as everywhere else.
pub fn local_containers(assigned: &Vec<Json>, instances: &Vec<InstanceAddress>) -> (r: Vec<
    LocalContainer,
>)
    ensures
        r.deep_view() == all_locals(json::models(assigned@), instances.deep_view()),
{
    let uid_path: [&str; 2] = ["metadata", "uid"];
    let labels_path: [&str; 2] = ["metadata", "labels"];
    proof {
        assert(uid_path.deep_view() =~= seq!["metadata"@, "uid"@]);
        assert(labels_path.deep_view() =~= seq!["metadata"@, "labels"@]);
    }
    let mut out: Vec<LocalContainer> = Vec::new();
    let ghost all = json::models(assigned@);
    for i in 0..assigned.len()
        invariant
            uid_path.deep_view() == seq!["metadata"@, "uid"@],
            labels_path.deep_view() == seq!["metadata"@, "labels"@],
            all == json::models(assigned@),
            out.deep_view() == all_locals(all.take(i as int), instances.deep_view()),
    {
        assert(all.take(i + 1).drop_last() =~= all.take(i as int));
        assert(all.take(i + 1).last() == assigned@[i as int]@);
        let ghost before = out.deep_view();
        if let Some(uid) = json::str_at(&assigned[i], &uid_path) {
            let l = LocalContainer {
                labels: json::pairs_at(&assigned[i], &labels_path),
                ip: find_address(instances, uid),
            };
            out.push(l);
            assert(out.deep_view() =~= before.push(l@));
        }
    }
    assert(all.take(all.len() as int) =~= all);
    out
}

/// The listeners this worker should be running, given the documents of the cluster's
/// Services, those of the containers bound here, and what the runtime reports.
pub fn plan_services(
    services: &Vec<Json>,
    assigned: &Vec<Json>,
    instances: &Vec<InstanceAddress>,
) -> (r: Vec<ProxyBinding>)
    ensures
        r.deep_view() == proxy::plan(
            all_services(json::models(services@)),
            all_locals(json::models(assigned@), instances.deep_view()),
        ),
{
    let mut views: Vec<ServiceView> = Vec::new();
    let ghost all = json::models(services@);
    for i in 0..services.len()
        invariant
            all == json::models(services@),
            views.deep_view() == all_services(all.take(i as int)),
    {
        assert(all.take(i + 1).drop_last() =~= all.take(i as int));
        assert(all.take(i + 1).last() == services@[i as int]@);
        let ghost before = views.deep_view();
        if let Some(s) = service_from_doc(&services[i]) {
            views.push(s);
            assert(views.deep_view() =~= before.push(s@));
        }
    }
    assert(all.take(all.len() as int) =~= all);
    let locals = local_containers(assigned, instances);
    let svcs = views.as_slice();
    let here = locals.as_slice();
    assert(svcs.deep_view() =~= views.deep_view());
    assert(here.deep_view() =~= locals.deep_view());
    proxy::plan_bindings(svcs, here)
}

// ---------------------------------------------------------------------------
// What holds of every pass
// ---------------------------------------------------------------------------

/// A path of two names is two lookups.
proof fn lemma_at_two(doc: JsonView, first: Seq<char>, second: Seq<char>)
    ensures
        json::at(doc, seq![first, second]) == match json::get(doc, first) {
            Some(j) => json::get(j, second),
            None => None,
        },
{
    let path = seq![first, second];
    assert(path.skip(1) =~= seq![second]);
    assert(seq![second].skip(1) =~= Seq::<Seq<char>>::empty());
    reveal_with_fuel(json::at, 3);
}

/// A failure is published once: the status that records it does not call for publishing
/// it again. The phase, and whatever else was in the status, stays as it was.
pub proof fn law_failure_is_published_once(
    current: JsonView,
    node: Seq<char>,
    reason: Seq<char>,
    message: Seq<char>,
    key: Seq<char>,
)
    ensures
        !is_new_failure(failed(current, node, reason, message), reason, message),
        key != "workerName"@ && key != "reason"@ && key != "message"@ ==> json::get(
            failed(current, node, reason, message),
            key,
        ) == json::get(current, key),
        json::get(failed(current, node, reason, message), "phase"@) == json::get(
            current,
            "phase"@,
        ),
{
    reveal_strlit("workerName");
    reveal_strlit("reason");
    reveal_strlit("message");
    reveal_strlit("phase");
    assert("workerName"@.len() == 10 && "reason"@.len() == 6 && "message"@.len() == 7
        && "phase"@.len() == 5);
    let m0 = json::members(Some(current));
    let m1 = json::with_member(m0, "workerName"@, JsonView::Text(node));
    let m2 = json::with_member(m1, "reason"@, JsonView::Text(reason));
    json::lemma_with_member(m2, "message"@, JsonView::Text(message), "reason"@);
    json::lemma_with_member(m1, "reason"@, JsonView::Text(reason), "message"@);
    assert forall|k: Seq<char>|
        k != "workerName"@ && k != "reason"@ && k != "message"@ implies #[trigger] json::get(
        failed(current, node, reason, message),
        k,
    ) == json::get(current, k) by {
        json::lemma_with_member(m0, "workerName"@, JsonView::Text(node), k);
        json::lemma_with_member(m1, "reason"@, JsonView::Text(reason), k);
        json::lemma_with_member(m2, "message"@, JsonView::Text(message), k);
    }
}

proof fn lemma_without_text(items: Seq<JsonView>, s: Seq<char>)
    ensures
        !holds_text(without_text(items, s), s),
        forall|j: JsonView| #[trigger]
            without_text(items, s).contains(j) <==> items.contains(j) && j != JsonView::Text(s),
    decreases items.len(),
{
    let out = without_text(items, s);
    if items.len() > 0 {
        let init = items.drop_last();
        let before = without_text(init, s);
        lemma_without_text(init, s);
        assert forall|j: JsonView| #[trigger] out.contains(j) <==> items.contains(j) && j
            != JsonView::Text(s) by {
            assert(items[items.len() - 1] == items.last());
            if items.contains(j) && j != items.last() {
                let k = choose|k: int| 0 <= k < items.len() && items[k] == j;
                assert(init[k] == j);
            }
            if init.contains(j) {
                let k = choose|k: int| 0 <= k < init.len() && init[k] == j;
                assert(items[k] == j);
            }
            if items.last() != JsonView::Text(s) {
                assert(out[before.len() as int] == items.last());
                if before.contains(j) {
                    let k = choose|k: int| 0 <= k < before.len() && before[k] == j;
                    assert(out[k] == j);
                }
                if out.contains(j) && j != items.last() {
                    let k = choose|k: int| 0 <= k < out.len() && out[k] == j;
                    assert(before[k] == j);
                }
            }
        }
    }
    assert(!holds_text(out, s)) by {
        if holds_text(out, s) {
            let k = choose|k: int| 0 <= k < out.len() && #[trigger] out[k] == JsonView::Text(s);
            assert(out.contains(out[k]));
        }
    }
}

/// Clearing the finalizer takes out this worker's and no other, leaves every other member
/// of the document and of its metadata alone, and doing it twice is doing it once.
pub proof fn law_clearing_takes_only_ours(doc: JsonView, key: Seq<char>)
    requires
        json::get(doc, "metadata"@) matches Some(JsonView::Object(_)),
    ensures
        ({
            let before = json::items(json::at(doc, seq!["metadata"@, "finalizers"@]));
            let after = json::items(json::at(cleared(doc), seq!["metadata"@, "finalizers"@]));
            &&& after == without_text(before, FINALIZER@)
            &&& !holds_text(after, FINALIZER@)
            &&& forall|j: JsonView|
                j != JsonView::Text(FINALIZER@) ==> (#[trigger] after.contains(j)
                    <==> before.contains(j))
        }),
        key != "metadata"@ ==> json::get(cleared(doc), key) == json::get(doc, key),
        key != "finalizers"@ ==> json::at(cleared(doc), seq!["metadata"@, key]) == json::at(
            doc,
            seq!["metadata"@, key],
        ),
        cleared(cleared(doc)) == cleared(doc),
{
    let top = json::members(Some(doc));
    let metadata = json::get(doc, "metadata"@)->0;
    let meta = metadata->Object_0;
    let before = json::items(json::get(metadata, "finalizers"@));
    let rest = JsonView::Array(without_text(before, FINALIZER@));
    let inner = JsonView::Object(json::with_member(meta, "finalizers"@, rest));
    lemma_at_two(doc, "metadata"@, "finalizers"@);
    lemma_at_two(cleared(doc), "metadata"@, "finalizers"@);
    lemma_at_two(doc, "metadata"@, key);
    lemma_at_two(cleared(doc), "metadata"@, key);
    json::lemma_with_member(top, "metadata"@, inner, key);
    json::lemma_with_member(meta, "finalizers"@, rest, key);
    lemma_without_text(before, FINALIZER@);
    assert(json::get(cleared(doc), "metadata"@) == Some(inner));
    assert(json::get(inner, "finalizers"@) == Some(rest));
    lemma_without_text_again(before, FINALIZER@);
    lemma_set_again(meta, "finalizers"@, rest);
    lemma_set_again(top, "metadata"@, inner);
}

proof fn lemma_without_text_again(items: Seq<JsonView>, s: Seq<char>)
    ensures
        without_text(without_text(items, s), s) == without_text(items, s),
    decreases items.len(),
{
    if items.len() > 0 {
        lemma_without_text_again(items.drop_last(), s);
        if items.last() != JsonView::Text(s) {
            let before = without_text(items.drop_last(), s);
            assert(before.push(items.last()).drop_last() =~= before);
        }
    }
}

/// Setting a member to what it was just set to changes nothing.
proof fn lemma_set_again(members: Seq<(Seq<char>, JsonView)>, key: Seq<char>, value: JsonView)
    ensures
        json::with_member(json::with_member(members, key, value), key, value) == json::with_member(
            members,
            key,
            value,
        ),
{
    let once = json::with_member(members, key, value);
    json::lemma_position(members, key);
    json::lemma_position(once, key);
    let i: int = match json::position(members, key) {
        Some(i) => i,
        None => members.len() as int,
    };
    assert(once[i] == (key, value));
    json::lemma_position_is(once, key, i);
    assert(once.update(i, (key, value)) =~= once);
}

/// A container whose finalizer was cleared reads back as the same container without it.
pub proof fn law_cleared_container_reads_back(doc: JsonView)
    requires
        desired_of(doc) is Some,
    ensures
        desired_of(cleared(doc)) == Some(
            (DesiredView { has_finalizer: false, ..desired_of(doc)->0 }),
        ),
{
    lemma_keys();
    lemma_at_two(doc, "metadata"@, "name"@);
    match json::get(doc, "metadata"@) {
        Some(JsonView::Object(_)) => {},
        _ => {
            assert(false);
        },
    }
    law_clearing_takes_only_ours(doc, "name"@);
    law_clearing_takes_only_ours(doc, "uid"@);
    law_clearing_takes_only_ours(doc, "deletionTimestamp"@);
    law_clearing_takes_only_ours(doc, "spec"@);
    law_clearing_takes_only_ours(doc, "status"@);
    lemma_spec_and_status(doc, cleared(doc));
}

/// What a document says outside its metadata is read from its `spec` and `status` alone.
proof fn lemma_spec_and_status(doc: JsonView, other: JsonView)
    ensures
        json::get(doc, "spec"@) == json::get(other, "spec"@) ==> {
            &&& json::at(doc, seq!["spec"@, "image"@]) == json::at(other, seq!["spec"@, "image"@])
            &&& json::at(doc, seq!["spec"@, "command"@]) == json::at(
                other,
                seq!["spec"@, "command"@],
            )
            &&& json::at(doc, seq!["spec"@, "env"@]) == json::at(other, seq!["spec"@, "env"@])
            &&& json::at(doc, seq!["spec"@, "restartPolicy"@]) == json::at(
                other,
                seq!["spec"@, "restartPolicy"@],
            )
            &&& json::at(doc, seq!["spec"@, "desiredState"@]) == json::at(
                other,
                seq!["spec"@, "desiredState"@],
            )
        },
        json::get(doc, "status"@) == json::get(other, "status"@) ==> json::at(
            doc,
            seq!["status"@, "phase"@],
        ) == json::at(other, seq!["status"@, "phase"@]),
        json::get(doc, "metadata"@) == json::get(other, "metadata"@) ==> {
            &&& json::at(doc, seq!["metadata"@, "name"@]) == json::at(
                other,
                seq!["metadata"@, "name"@],
            )
            &&& json::at(doc, seq!["metadata"@, "uid"@]) == json::at(
                other,
                seq!["metadata"@, "uid"@],
            )
            &&& json::at(doc, seq!["metadata"@, "deletionTimestamp"@]) == json::at(
                other,
                seq!["metadata"@, "deletionTimestamp"@],
            )
            &&& json::at(doc, seq!["metadata"@, "finalizers"@]) == json::at(
                other,
                seq!["metadata"@, "finalizers"@],
            )
        },
{
    lemma_at_two(doc, "spec"@, "image"@);
    lemma_at_two(other, "spec"@, "image"@);
    lemma_at_two(doc, "spec"@, "command"@);
    lemma_at_two(other, "spec"@, "command"@);
    lemma_at_two(doc, "spec"@, "env"@);
    lemma_at_two(other, "spec"@, "env"@);
    lemma_at_two(doc, "spec"@, "restartPolicy"@);
    lemma_at_two(other, "spec"@, "restartPolicy"@);
    lemma_at_two(doc, "spec"@, "desiredState"@);
    lemma_at_two(other, "spec"@, "desiredState"@);
    lemma_at_two(doc, "status"@, "phase"@);
    lemma_at_two(other, "status"@, "phase"@);
    lemma_at_two(doc, "metadata"@, "name"@);
    lemma_at_two(other, "metadata"@, "name"@);
    lemma_at_two(doc, "metadata"@, "uid"@);
    lemma_at_two(other, "metadata"@, "uid"@);
    lemma_at_two(doc, "metadata"@, "deletionTimestamp"@);
    lemma_at_two(other, "metadata"@, "deletionTimestamp"@);
    lemma_at_two(doc, "metadata"@, "finalizers"@);
    lemma_at_two(other, "metadata"@, "finalizers"@);
}

/// The names of the parts of a document are different names.
proof fn lemma_keys()
    ensures
        "metadata"@ != "spec"@,
        "metadata"@ != "status"@,
        "spec"@ != "status"@,
        "finalizers"@ != "name"@,
        "finalizers"@ != "uid"@,
        "finalizers"@ != "deletionTimestamp"@,
{
    reveal_strlit("metadata");
    reveal_strlit("spec");
    reveal_strlit("status");
    reveal_strlit("finalizers");
    reveal_strlit("name");
    reveal_strlit("uid");
    reveal_strlit("deletionTimestamp");
    assert("metadata"@.len() == 8 && "spec"@.len() == 4 && "status"@.len() == 6);
    assert("finalizers"@.len() == 10 && "name"@.len() == 4 && "uid"@.len() == 3
        && "deletionTimestamp"@.len() == 17);
}

/// A status that was stored reads back: the container is the same but for its phase, which
/// is the one that the status gives.
pub proof fn law_stored_status_reads_back(doc: JsonView, status: JsonView)
    requires
        desired_of(doc) is Some,
    ensures
        desired_of(with_status(doc, status)) == Some(
            (DesiredView {
                phase: match json::text(json::get(status, "phase"@)) {
                    Some(p) => p,
                    None => "Pending"@,
                },
                ..desired_of(doc)->0
            }),
        ),
{
    lemma_keys();
    lemma_at_two(doc, "metadata"@, "name"@);
    let stored = with_status(doc, status);
    json::lemma_with_member(json::members(Some(doc)), "status"@, status, "metadata"@);
    json::lemma_with_member(json::members(Some(doc)), "status"@, status, "spec"@);
    assert(json::get(JsonView::Object(json::members(Some(doc))), "metadata"@) == json::get(
        doc,
        "metadata"@,
    ));
    lemma_spec_and_status(doc, stored);
    lemma_at_two(stored, "status"@, "phase"@);
}

/// Each status names the phase it is for.
pub proof fn law_statuses_give_their_phase(
    node: Seq<char>,
    id: Seq<char>,
    phase: Seq<char>,
    exit_code: i32,
    now: Seq<char>,
)
    ensures
        json::get(running(node, id, now), "phase"@) == Some(JsonView::Text("Running"@)),
        json::get(hibernated(node, now), "phase"@) == Some(JsonView::Text("Hibernated"@)),
        json::get(finished(node, phase, exit_code, now), "phase"@) == Some(JsonView::Text(phase)),
{
    reveal_strlit("phase");
    reveal_strlit("workerName");
    reveal_strlit("containerID");
    reveal_strlit("startedAt");
    reveal_strlit("hibernatedAt");
    reveal_strlit("exitCode");
    reveal_strlit("finishedAt");
    assert("phase"@.len() == 5 && "workerName"@.len() == 10 && "containerID"@.len() == 11
        && "startedAt"@.len() == 9 && "hibernatedAt"@.len() == 12 && "exitCode"@.len() == 8
        && "finishedAt"@.len() == 10);
    let up = running(node, id, now)->Object_0;
    let asleep = hibernated(node, now)->Object_0;
    let done = finished(node, phase, exit_code, now)->Object_0;
    json::lemma_position_is(up, "phase"@, 0);
    json::lemma_position_is(asleep, "phase"@, 0);
    json::lemma_position_is(done, "phase"@, 0);
}

/// An action that launches an instance reports it only once the runtime gave its id, and
/// reports exactly that id.
pub proof fn law_launch_comes_before_its_report(
    a: ActionView,
    node: Seq<char>,
    now: Seq<char>,
    replies: Seq<ReplyView>,
)
    requires
        reconcile::launches(a),
    ensures
        next(a, node, now, replies) matches Some(CommandView::PutStatus { name, status }) ==> {
            &&& reconcile::target(a) == Some(name)
            &&& replies.len() > 0
            &&& replies.last() matches ReplyView::Launched(id) && status == running(node, id, now)
        },
{
}

/// Hibernating stops the instance and never removes it, so that its disk survives.
pub proof fn law_hibernating_keeps_the_instance(
    name: Seq<char>,
    uid: Seq<char>,
    node: Seq<char>,
    now: Seq<char>,
    replies: Seq<ReplyView>,
)
    ensures
        ({
            let c = next(ActionView::Hibernate { name, uid }, node, now, replies);
            &&& replies.len() == 0 ==> c == Some(CommandView::Stop { uid })
            &&& !(c matches Some(CommandView::Remove { .. }))
        }),
{
}

/// Tearing down stops the instance, then removes it, and lets go of the object only after
/// both: the finalizer is touched in a cleanup that asks for it, and never before.
pub proof fn law_teardown_comes_before_letting_go(
    name: Seq<char>,
    uid: Seq<char>,
    clear_finalizer: bool,
    node: Seq<char>,
    now: Seq<char>,
    replies: Seq<ReplyView>,
)
    ensures
        ({
            let c = next(
                ActionView::Cleanup { name, uid, clear_finalizer },
                node,
                now,
                replies,
            );
            &&& replies.len() == 0 ==> c == Some(CommandView::Stop { uid })
            &&& replies.len() == 1 ==> c == Some(CommandView::Remove { uid })
            &&& c matches Some(CommandView::GetContainer { .. }) ==> clear_finalizer
                && replies.len() == 2
            &&& c matches Some(CommandView::ReplaceContainer { .. }) ==> clear_finalizer
                && replies.len() == 3
        }),
{
}

/// Every action is carried out after at most four calls.
pub proof fn law_actions_end(
    a: ActionView,
    node: Seq<char>,
    now: Seq<char>,
    replies: Seq<ReplyView>,
)
    requires
        replies.len() >= 4,
    ensures
        next(a, node, now, replies) is None,
{
}

/// Only actions that drive the runtime toward the desired state publish a failure, and to
/// the container that they are for.
pub proof fn law_failures_go_to_their_container(
    docs: Seq<JsonView>,
    node: Seq<char>,
    a: ActionView,
    message: Seq<char>,
)
    ensures
        published(docs, node, a, message) matches Some(p) ==> {
            &&& reconcile::target(a) == Some(p.0)
            &&& reconcile::launches(a) || a is Hibernate
        },
{
}

/// A pass reaches every action, whatever fails on the way: each call that is made either
/// goes on with its action or leaves it for the next, the pass is over exactly where all
/// actions are behind it, and those carried out and those left add up.
pub proof fn law_failures_are_isolated(p: PassView, node: Seq<char>, now: Seq<char>)
    requires
        under_way(p),
        p.applied <= p.at,
    ensures
        stepped(p, true).at == p.at + 1,
        stepped(p, false).at == p.at + 1,
        stepped(p, true).applied == p.applied + 1,
        stepped(p, false).applied == p.applied,
        stepped(p, false).actions == p.actions,
        under_way(stepped(p, false)) ==> pending(stepped(p, false), node, now) == next(
            p.actions[p.at as int + 1],
            node,
            now,
            Seq::empty(),
        ) && pending(stepped(p, false), node, now) is Some,
        !under_way(advanced(p, node, now)) ==> p.at + 1 == p.actions.len(),
        advanced(p, node, now).applied <= advanced(p, node, now).at,
{
    if under_way(stepped(p, false)) {
        lemma_first_call(p.actions[p.at as int + 1], node, now);
    }
}

/// The pass once the actions behind its current one were carried out or left, as
/// `outcomes` says.
pub open spec fn all_stepped(p: PassView, outcomes: Seq<bool>) -> PassView
    decreases outcomes.len(),
{
    if outcomes.len() == 0 {
        p
    } else {
        stepped(all_stepped(p, outcomes.drop_last()), outcomes.last())
    }
}

/// How many outcomes are successes.
pub open spec fn successes(outcomes: Seq<bool>) -> nat
    decreases outcomes.len(),
{
    if outcomes.len() == 0 {
        0
    } else {
        successes(outcomes.drop_last()) + if outcomes.last() {
            1nat
        } else {
            0nat
        }
    }
}

/// A pass with an outcome for every action is over, and counts exactly those that were
/// carried out.
pub proof fn law_pass_counts_what_was_carried_out(p: PassView, outcomes: Seq<bool>)
    requires
        p.at + outcomes.len() <= p.actions.len(),
    ensures
        all_stepped(p, outcomes).actions == p.actions,
        all_stepped(p, outcomes).at == p.at + outcomes.len(),
        all_stepped(p, outcomes).applied == p.applied + successes(outcomes),
        p.at + outcomes.len() == p.actions.len() ==> !under_way(all_stepped(p, outcomes)),
    decreases outcomes.len(),
{
    if outcomes.len() > 0 {
        law_pass_counts_what_was_carried_out(p, outcomes.drop_last());
    }
}

/// Storing the published status in the container's document settles the failure: the same
/// failure of the same action is then not published again.
pub proof fn law_published_failure_is_not_repeated(
    docs: Seq<JsonView>,
    i: int,
    node: Seq<char>,
    a: ActionView,
    message: Seq<char>,
)
    requires
        published(docs, node, a, message) is Some,
        is_first_named(docs, i, (published(docs, node, a, message)->0).0),
    ensures
        published(
            docs.update(i, with_status(docs[i], (published(docs, node, a, message)->0).1)),
            node,
            a,
            message,
        ) is None,
{
    let (name, status) = published(docs, node, a, message)->0;
    let reason = reconcile::reason_of_failure(a)->0;
    let stored = with_status(docs[i], status);
    lemma_keys();
    lemma_status_of(docs, i, name);
    json::lemma_with_member(json::members(Some(docs[i])), "status"@, status, "metadata"@);
    lemma_at_two(docs[i], "metadata"@, "name"@);
    assert(json::get(JsonView::Object(json::members(Some(docs[i]))), "metadata"@) == json::get(
        docs[i],
        "metadata"@,
    ));
    lemma_spec_and_status(docs[i], stored);
    let after = docs.update(i, stored);
    assert forall|k: int| 0 <= k < i implies json::text(
        json::at(#[trigger] after[k], seq!["metadata"@, "name"@]),
    ) != Some(name) by {
        assert(after[k] == docs[k]);
    }
    lemma_status_of(after, i, name);
    law_failure_is_published_once(status_of(docs, name), node, reason, message, "phase"@);
}

/// Whether document `i` is the first one of that name.
pub open spec fn is_first_named(docs: Seq<JsonView>, i: int, name: Seq<char>) -> bool {
    &&& 0 <= i < docs.len()
    &&& json::text(json::at(docs[i], seq!["metadata"@, "name"@])) == Some(name)
    &&& forall|k: int|
        0 <= k < i ==> json::text(json::at(#[trigger] docs[k], seq!["metadata"@, "name"@])) != Some(
            name,
        )
}

proof fn lemma_status_of(docs: Seq<JsonView>, i: int, name: Seq<char>)
    requires
        is_first_named(docs, i, name),
    ensures
        status_of(docs, name) == match json::get(docs[i], "status"@) {
            Some(s) => s,
            None => JsonView::Object(Seq::empty()),
        },
    decreases i,
{
    if i > 0 {
        let rest = docs.skip(1);
        assert(rest[i - 1] == docs[i]);
        assert forall|k: int| 0 <= k < i - 1 implies json::text(
            json::at(#[trigger] rest[k], seq!["metadata"@, "name"@]),
        ) != Some(name) by {
            assert(rest[k] == docs[k + 1]);
        }
        assert(json::text(json::at(docs[0], seq!["metadata"@, "name"@])) != Some(name));
        lemma_status_of(rest, i - 1, name);
    }
}

// ---------------------------------------------------------------------------
// What a pass converges to
// ---------------------------------------------------------------------------

/// The document with its status replaced.
pub open spec fn with_status(doc: JsonView, status: JsonView) -> JsonView {
    JsonView::Object(json::with_member(json::members(Some(doc)), "status"@, status))
}

/// A container's document and the state of its instance once the server and the runtime
/// did what a call asks. A call that is for another container or instance, or that launches
/// something else than the document asks for, changes neither.
pub open spec fn performed(
    c: CommandView,
    doc: JsonView,
    obs: Option<InstanceState>,
) -> (JsonView, Option<InstanceState>) {
    let d = desired_of(doc)->0;
    match c {
        CommandView::Run { spec } => (
            doc,
            if spec == d.spec {
                Some(InstanceState::Running)
            } else {
                obs
            },
        ),
        CommandView::Start { uid } => (
            doc,
            if uid == d.spec.uid && obs is Some {
                Some(InstanceState::Running)
            } else {
                obs
            },
        ),
        CommandView::Stop { uid } => (
            doc,
            if uid == d.spec.uid && obs is Some {
                Some(InstanceState::Exited { exit_code: 0 })
            } else {
                obs
            },
        ),
        CommandView::Remove { uid } => (
            doc,
            if uid == d.spec.uid {
                None
            } else {
                obs
            },
        ),
        CommandView::PutStatus { name, status } => (
            if name == d.name {
                with_status(doc, status)
            } else {
                doc
            },
            obs,
        ),
        CommandView::GetContainer { .. } => (doc, obs),
        CommandView::ReplaceContainer { name, doc: new } => (
            if name == d.name {
                new
            } else {
                doc
            },
            obs,
        ),
    }
}

/// What a call that succeeds comes back with, where a launched instance gets the id `id`.
pub open spec fn answer(c: CommandView, doc: JsonView, id: Seq<char>) -> ReplyView {
    match c {
        CommandView::Run { .. } => ReplyView::Launched(id),
        CommandView::Start { .. } => ReplyView::Launched(id),
        CommandView::GetContainer { name } => ReplyView::Container(
            if name == (desired_of(doc)->0).name {
                Some(doc)
            } else {
                None
            },
        ),
        _ => ReplyView::Done,
    }
}

/// The document and the instance once the next `calls` calls of an action were made, or
/// those that are left of it, and all of them succeeded.
pub open spec fn played(
    a: ActionView,
    node: Seq<char>,
    now: Seq<char>,
    id: Seq<char>,
    replies: Seq<ReplyView>,
    doc: JsonView,
    obs: Option<InstanceState>,
    calls: nat,
) -> (JsonView, Option<InstanceState>)
    decreases calls,
{
    if calls == 0 {
        (doc, obs)
    } else {
        match next(a, node, now, replies) {
            None => (doc, obs),
            Some(c) => {
                let after = performed(c, doc, obs);
                played(
                    a,
                    node,
                    now,
                    id,
                    replies.push(answer(c, doc, id)),
                    after.0,
                    after.1,
                    (calls - 1) as nat,
                )
            },
        }
    }
}

/// The calls of an action bring about what the action is for: the container's document and
/// its instance are then as [`reconcile::carried_out`] says, and the next pass has nothing
/// to do about them.
pub proof fn law_calls_settle_their_container(
    doc: JsonView,
    obs: Option<InstanceState>,
    node: Seq<char>,
    now: Seq<char>,
    id: Seq<char>,
    a: ActionView,
)
    requires
        desired_of(doc) is Some,
        reconcile::action_for(desired_of(doc)->0, obs) == Some(a),
    ensures
        ({
            let (doc2, obs2) = played(a, node, now, id, Seq::empty(), doc, obs, 4);
            &&& desired_of(doc2) is Some
            &&& (desired_of(doc2)->0, obs2) == reconcile::carried_out(desired_of(doc)->0, obs, a)
            &&& reconcile::action_for(desired_of(doc2)->0, obs2) is None
        }),
{
    let d = desired_of(doc)->0;
    let none = Seq::<ReplyView>::empty();
    reveal_with_fuel(played, 5);
    reconcile::law_one_action_settles(d, obs);
    law_stored_status_reads_back(doc, running(node, id, now));
    law_stored_status_reads_back(doc, running(node, ""@, now));
    law_stored_status_reads_back(doc, hibernated(node, now));
    law_cleared_container_reads_back(doc);
    law_statuses_give_their_phase(node, id, ""@, 0, now);
    law_statuses_give_their_phase(node, ""@, ""@, 0, now);
    match a {
        ActionView::ReportTerminal { phase, exit_code, .. } => {
            law_stored_status_reads_back(doc, finished(node, phase, exit_code, now));
            law_statuses_give_their_phase(node, id, phase, exit_code, now);
        },
        ActionView::Cleanup { .. } => {
            let two = none.push(ReplyView::Done).push(ReplyView::Done);
            let three = two.push(ReplyView::Container(Some(doc)));
            assert(two.skip(2) =~= none);
            assert(three.skip(2) =~= seq![ReplyView::Container(Some(doc))]);
        },
        _ => {},
    }
}

/// The containers described by the documents are those of the documents that describe one.
proof fn lemma_all_desired(docs: Seq<JsonView>)
    ensures
        forall|k: int|
            0 <= k < all_desired(docs).len() ==> exists|i: int|
                0 <= i < docs.len() && desired_of(#[trigger] docs[i]) == Some(
                    #[trigger] all_desired(docs)[k],
                ),
        forall|i: int|
            0 <= i < docs.len() && desired_of(#[trigger] docs[i]) is Some ==> all_desired(
                docs,
            ).contains(desired_of(docs[i])->0),
    decreases docs.len(),
{
    if docs.len() > 0 {
        let init = docs.drop_last();
        let before = all_desired(init);
        let all = all_desired(docs);
        lemma_all_desired(init);
        assert forall|k: int| 0 <= k < all.len() implies exists|i: int|
            0 <= i < docs.len() && desired_of(#[trigger] docs[i]) == Some(#[trigger] all[k]) by {
            if k < before.len() {
                assert(all[k] == before[k]);
                let i = choose|i: int|
                    0 <= i < init.len() && desired_of(#[trigger] init[i]) == Some(before[k]);
                assert(docs[i] == init[i]);
            } else {
                assert(docs[docs.len() - 1] == docs.last());
            }
        }
        assert forall|i: int|
            0 <= i < docs.len() && desired_of(#[trigger] docs[i]) is Some implies all.contains(
            desired_of(docs[i])->0,
        ) by {
            if i < init.len() {
                assert(init[i] == docs[i]);
                let k = choose|k: int|
                    0 <= k < before.len() && before[k] == desired_of(docs[i])->0;
                assert(all[k] == before[k]);
            } else {
                assert(all[all.len() - 1] == desired_of(docs[i])->0);
            }
        }
    }
}

/// Whether document `i` and its instance are as a pass in which every call succeeds leaves
/// them: settled by the action that their state called for, or as they were.
pub open spec fn left_by_pass(
    before: JsonView,
    had: Seq<ObservedView>,
    after: JsonView,
    has: Seq<ObservedView>,
    node: Seq<char>,
    now: Seq<char>,
    id: Seq<char>,
) -> bool {
    match desired_of(before) {
        None => after == before,
        Some(d) => {
            let obs = reconcile::state_of(had, d.spec.uid);
            (after, reconcile::state_of(has, d.spec.uid)) == match reconcile::action_for(d, obs) {
                None => (before, obs),
                Some(a) => played(a, node, now, id, Seq::empty(), before, obs, 4),
            }
        },
    }
}

/// A second pass is idle: once every call of a pass succeeded, and the instances left are
/// those of assigned containers (the others were reaped), there is nothing more to do.
pub proof fn law_second_pass_is_idle(
    docs: Seq<JsonView>,
    had: Seq<ObservedView>,
    after: Seq<JsonView>,
    has: Seq<ObservedView>,
    node: Seq<char>,
    now: Seq<char>,
    ids: Seq<Seq<char>>,
)
    requires
        after.len() == docs.len(),
        forall|i: int|
            0 <= i < docs.len() ==> left_by_pass(
                #[trigger] docs[i],
                had,
                after[i],
                has,
                node,
                now,
                ids[i],
            ),
        forall|i: int|
            0 <= i < has.len() ==> reconcile::assigned(
                all_desired(docs),
                (#[trigger] has[i]).uid,
            ),
    ensures
        reconcile::reconciled(all_desired(after), has).len() == 0,
{
    let want = all_desired(after);
    lemma_all_desired(docs);
    lemma_all_desired(after);
    assert forall|i: int| 0 <= i < docs.len() implies match desired_of(#[trigger] docs[i]) {
        None => desired_of(after[i]) is None,
        Some(d) => {
            &&& desired_of(after[i]) is Some
            &&& (desired_of(after[i])->0).spec == d.spec
            &&& reconcile::action_for(
                desired_of(after[i])->0,
                reconcile::state_of(has, d.spec.uid),
            ) is None
        },
    } by {
        if let Some(d) = desired_of(docs[i]) {
            let obs = reconcile::state_of(had, d.spec.uid);
            if let Some(a) = reconcile::action_for(d, obs) {
                law_calls_settle_their_container(docs[i], obs, node, now, ids[i], a);
            }
        }
    }
    assert forall|k: int| 0 <= k < want.len() implies reconcile::action_for(
        #[trigger] want[k],
        reconcile::state_of(has, want[k].spec.uid),
    ) is None by {
        let i = choose|i: int|
            0 <= i < after.len() && desired_of(#[trigger] after[i]) == Some(want[k]);
        assert(left_by_pass(docs[i], had, after[i], has, node, now, ids[i]));
    }
    assert forall|i: int| 0 <= i < has.len() implies reconcile::assigned(
        want,
        (#[trigger] has[i]).uid,
    ) by {
        let first = all_desired(docs);
        let k = choose|k: int| 0 <= k < first.len() && (#[trigger] first[k]).spec.uid == has[i].uid;
        let j = choose|j: int|
            0 <= j < docs.len() && desired_of(#[trigger] docs[j]) == Some(first[k]);
        assert(desired_of(after[j]) is Some);
        assert(want.contains(desired_of(after[j])->0));
        let m = choose|m: int| 0 <= m < want.len() && want[m] == desired_of(after[j])->0;
        assert(want[m].spec.uid == has[i].uid);
    }
    reconcile::law_settled_worker_is_idle(want, has);
}

// ---------------------------------------------------------------------------
// What documents, statuses and calls hold
// ---------------------------------------------------------------------------

/// The member `b` of the member `a` of a document.
pub open spec fn nested(doc: JsonView, a: Seq<char>, b: Seq<char>) -> Option<JsonView> {
    match json::get(doc, a) {
        Some(j) => json::get(j, b),
        None => None,
    }
}

/// A container is read from its document member by member: a document without a name or a
/// uid describes none, and what is missing or of another kind has its default.
pub proof fn law_containers_read_from_their_document(doc: JsonView)
    ensures
        desired_of(doc) is Some <==> (nested(doc, "metadata"@, "name"@) matches Some(
            JsonView::Text(_),
        )) && (nested(doc, "metadata"@, "uid"@) matches Some(JsonView::Text(_))),
        desired_of(doc) matches Some(d) ==> {
            let policy = nested(doc, "spec"@, "restartPolicy"@);
            let state = nested(doc, "spec"@, "desiredState"@);
            &&& nested(doc, "metadata"@, "name"@) == Some(JsonView::Text(d.name))
            &&& nested(doc, "metadata"@, "uid"@) == Some(JsonView::Text(d.spec.uid))
            &&& match nested(doc, "spec"@, "image"@) {
                Some(JsonView::Text(s)) => d.spec.image == s,
                _ => d.spec.image.len() == 0,
            }
            &&& match nested(doc, "spec"@, "command"@) {
                Some(JsonView::Array(words)) => d.spec.command == json::texts(words),
                _ => d.spec.command.len() == 0,
            }
            &&& match nested(doc, "spec"@, "env"@) {
                Some(JsonView::Object(vars)) => d.spec.env == json::text_members(vars),
                _ => d.spec.env.len() == 0,
            }
            &&& d.restart_policy is Always <==> policy == Some(JsonView::Text("Always"@))
            &&& d.restart_policy is OnFailure <==> policy == Some(JsonView::Text("OnFailure"@))
            &&& d.desired_state is Hibernated <==> state == Some(JsonView::Text("Hibernated"@))
            &&& match nested(doc, "status"@, "phase"@) {
                Some(JsonView::Text(s)) => d.phase == s,
                _ => d.phase == "Pending"@,
            }
            &&& d.marked_for_deletion <==> match nested(
                doc,
                "metadata"@,
                "deletionTimestamp"@,
            ) {
                Some(v) => !(v is Null),
                None => false,
            }
            &&& d.has_finalizer <==> match nested(doc, "metadata"@, "finalizers"@) {
                Some(JsonView::Array(all)) => all.contains(JsonView::Text("veloslet"@)),
                _ => false,
            }
        },
{
    lemma_at_two(doc, "metadata"@, "name"@);
    lemma_at_two(doc, "metadata"@, "uid"@);
    lemma_at_two(doc, "spec"@, "image"@);
    lemma_at_two(doc, "spec"@, "command"@);
    lemma_at_two(doc, "spec"@, "env"@);
    lemma_at_two(doc, "spec"@, "restartPolicy"@);
    lemma_at_two(doc, "spec"@, "desiredState"@);
    lemma_at_two(doc, "status"@, "phase"@);
    lemma_at_two(doc, "metadata"@, "deletionTimestamp"@);
    lemma_at_two(doc, "metadata"@, "finalizers"@);
    reveal_strlit("");
    reveal_strlit("Never");
    reveal_strlit("Running");
    reveal_strlit("Always");
    reveal_strlit("OnFailure");
    reveal_strlit("Hibernated");
    assert("Never"@.len() == 5 && "Always"@.len() == 6 && "OnFailure"@.len() == 9
        && "Running"@.len() == 7 && "Hibernated"@.len() == 10);
    let all = json::items(nested(doc, "metadata"@, "finalizers"@));
    assert(holds_text(all, FINALIZER@) == all.contains(JsonView::Text("veloslet"@))) by {
        if holds_text(all, FINALIZER@) {
            let i = choose|i: int|
                0 <= i < all.len() && #[trigger] all[i] == JsonView::Text(FINALIZER@);
            assert(all[i] == JsonView::Text("veloslet"@));
        }
        if all.contains(JsonView::Text("veloslet"@)) {
            let i = choose|i: int| 0 <= i < all.len() && all[i] == JsonView::Text("veloslet"@);
            assert(all[i] == JsonView::Text(FINALIZER@));
        }
    }
    assert(json::texts(Seq::empty()).len() == 0);
    assert(json::text_members(Seq::empty()).len() == 0);
}

/// Documents are read one after the other: what two lists in a row describe is what the first
/// describes, then what the second does, and a single document describes what it describes,
/// or nothing. The same holds of Services and of local containers.
pub proof fn law_documents_are_read_in_order(
    a: Seq<JsonView>,
    b: Seq<JsonView>,
    doc: JsonView,
    instances: Seq<AddressView>,
)
    ensures
        all_desired(a + b) == all_desired(a) + all_desired(b),
        all_services(a + b) == all_services(a) + all_services(b),
        all_locals(a + b, instances) == all_locals(a, instances) + all_locals(b, instances),
        all_desired(seq![doc]) == (match desired_of(doc) {
            Some(d) => seq![d],
            None => Seq::empty(),
        }),
        all_services(seq![doc]) == (match service_of(doc) {
            Some(s) => seq![s],
            None => Seq::empty(),
        }),
        all_locals(seq![doc], instances) == (match local_of(doc, instances) {
            Some(l) => seq![l],
            None => Seq::empty(),
        }),
    decreases b.len(),
{
    reveal_with_fuel(all_desired, 2);
    reveal_with_fuel(all_services, 2);
    reveal_with_fuel(all_locals, 2);
    assert(seq![doc].drop_last() =~= Seq::<JsonView>::empty());
    assert(all_desired(seq![doc]) =~= (match desired_of(doc) {
        Some(d) => seq![d],
        None => Seq::empty(),
    }));
    assert(all_services(seq![doc]) =~= (match service_of(doc) {
        Some(s) => seq![s],
        None => Seq::empty(),
    }));
    assert(all_locals(seq![doc], instances) =~= (match local_of(doc, instances) {
        Some(l) => seq![l],
        None => Seq::empty(),
    }));
    if b.len() == 0 {
        assert(a + b =~= a);
    } else {
        law_documents_are_read_in_order(a, b.drop_last(), doc, instances);
        assert((a + b).drop_last() =~= a + b.drop_last());
        assert((a + b).last() == b.last());
    }
    assert(all_desired(a + b) =~= all_desired(a) + all_desired(b));
    assert(all_services(a + b) =~= all_services(a) + all_services(b));
    assert(all_locals(a + b, instances) =~= all_locals(a, instances) + all_locals(b, instances));
}

/// Every instance that the runtime lists is observed, in its place, with its uid and state.
pub proof fn law_every_instance_is_observed(instances: Seq<InstanceView>, i: int)
    requires
        0 <= i < instances.len(),
    ensures
        all_observed(instances).len() == instances.len(),
        all_observed(instances)[i].uid == instances[i].uid,
        all_observed(instances)[i].state == instances[i].state,
{
}

/// A status gives back what it reports: phase, worker, container id, exit code and time, each
/// under its name. That of a sleeping container names no container id.
pub proof fn law_statuses_give_back_what_they_report(
    node: Seq<char>,
    id: Seq<char>,
    phase: Seq<char>,
    exit_code: i32,
    now: Seq<char>,
)
    ensures
        json::get(running(node, id, now), "phase"@) == Some(JsonView::Text("Running"@)),
        json::get(running(node, id, now), "workerName"@) == Some(JsonView::Text(node)),
        json::get(running(node, id, now), "containerID"@) == Some(JsonView::Text(id)),
        json::get(running(node, id, now), "startedAt"@) == Some(JsonView::Text(now)),
        json::get(hibernated(node, now), "phase"@) == Some(JsonView::Text("Hibernated"@)),
        json::get(hibernated(node, now), "workerName"@) == Some(JsonView::Text(node)),
        json::get(hibernated(node, now), "hibernatedAt"@) == Some(JsonView::Text(now)),
        json::get(hibernated(node, now), "containerID"@) is None,
        json::get(finished(node, phase, exit_code, now), "phase"@) == Some(JsonView::Text(phase)),
        json::get(finished(node, phase, exit_code, now), "workerName"@) == Some(
            JsonView::Text(node),
        ),
        json::as_i64(json::get(finished(node, phase, exit_code, now), "exitCode"@)) == Some(
            exit_code as i64,
        ),
        json::get(finished(node, phase, exit_code, now), "finishedAt"@) == Some(
            JsonView::Text(now),
        ),
{
    reveal_strlit("phase");
    reveal_strlit("workerName");
    reveal_strlit("containerID");
    reveal_strlit("startedAt");
    reveal_strlit("hibernatedAt");
    reveal_strlit("exitCode");
    reveal_strlit("finishedAt");
    assert("phase"@.len() == 5 && "workerName"@.len() == 10 && "containerID"@.len() == 11
        && "startedAt"@.len() == 9 && "hibernatedAt"@.len() == 12 && "exitCode"@.len() == 8
        && "finishedAt"@.len() == 10);
    assert("workerName"@[0] == 'w' && "finishedAt"@[0] == 'f');
    let up = running(node, id, now)->Object_0;
    let asleep = hibernated(node, now)->Object_0;
    let done = finished(node, phase, exit_code, now)->Object_0;
    json::lemma_position_is(up, "phase"@, 0);
    json::lemma_position_is(up, "workerName"@, 1);
    json::lemma_position_is(up, "containerID"@, 2);
    json::lemma_position_is(up, "startedAt"@, 3);
    json::lemma_position_is(asleep, "phase"@, 0);
    json::lemma_position_is(asleep, "workerName"@, 1);
    json::lemma_position_is(asleep, "hibernatedAt"@, 2);
    json::lemma_position(asleep, "containerID"@);
    json::lemma_position_is(done, "phase"@, 0);
    json::lemma_position_is(done, "workerName"@, 1);
    json::lemma_position_is(done, "exitCode"@, 2);
    json::lemma_position_is(done, "finishedAt"@, 3);
}

/// A recorded failure gives back the worker, the reason and the message.
pub proof fn law_failures_give_back_what_they_record(
    current: JsonView,
    node: Seq<char>,
    reason: Seq<char>,
    message: Seq<char>,
)
    ensures
        json::get(failed(current, node, reason, message), "workerName"@) == Some(
            JsonView::Text(node),
        ),
        json::get(failed(current, node, reason, message), "reason"@) == Some(
            JsonView::Text(reason),
        ),
        json::get(failed(current, node, reason, message), "message"@) == Some(
            JsonView::Text(message),
        ),
        is_new_failure(current, reason, message) <==> !(json::get(current, "reason"@) == Some(
            JsonView::Text(reason),
        ) && json::get(current, "message"@) == Some(JsonView::Text(message))),
{
    reveal_strlit("workerName");
    reveal_strlit("reason");
    reveal_strlit("message");
    assert("workerName"@.len() == 10 && "reason"@.len() == 6 && "message"@.len() == 7);
    let m0 = json::members(Some(current));
    let m1 = json::with_member(m0, "workerName"@, JsonView::Text(node));
    let m2 = json::with_member(m1, "reason"@, JsonView::Text(reason));
    json::lemma_with_member(m0, "workerName"@, JsonView::Text(node), "workerName"@);
    json::lemma_with_member(m1, "reason"@, JsonView::Text(reason), "workerName"@);
    json::lemma_with_member(m2, "message"@, JsonView::Text(message), "workerName"@);
    json::lemma_with_member(m2, "message"@, JsonView::Text(message), "reason"@);
}

/// A failure is published exactly where its action drives the runtime and the container's
/// status does not record it yet: to that container, with the reason of the action.
pub proof fn law_new_failures_are_published(
    docs: Seq<JsonView>,
    i: int,
    node: Seq<char>,
    a: ActionView,
    message: Seq<char>,
    name: Seq<char>,
)
    requires
        reconcile::target(a) == Some(name),
        is_first_named(docs, i, name),
    ensures
        ({
            let reason = reconcile::reason_of_failure(a);
            let current = json::get(docs[i], "status"@);
            let known = current is Some && json::get(current->0, "reason"@) == Some(
                JsonView::Text(reason->0),
            ) && json::get(current->0, "message"@) == Some(JsonView::Text(message));
            &&& published(docs, node, a, message) is Some <==> reason is Some && !known
            &&& published(docs, node, a, message) matches Some(p) ==> {
                &&& p.0 == name
                &&& json::get(p.1, "reason"@) == Some(JsonView::Text(reason->0))
                &&& json::get(p.1, "message"@) == Some(JsonView::Text(message))
                &&& json::get(p.1, "workerName"@) == Some(JsonView::Text(node))
                &&& current is Some ==> json::get(p.1, "phase"@) == json::get(
                    current->0,
                    "phase"@,
                )
            }
        }),
{
    lemma_status_of(docs, i, name);
    let current = status_of(docs, name);
    if let Some(reason) = reconcile::reason_of_failure(a) {
        law_failures_give_back_what_they_record(current, node, reason, message);
        law_failure_is_published_once(current, node, reason, message, "phase"@);
        json::lemma_position(Seq::empty(), "reason"@);
    }
}

/// Without a document of that name there is no status to go by.
pub proof fn law_unknown_containers_have_no_status(docs: Seq<JsonView>, name: Seq<char>)
    requires
        forall|k: int|
            0 <= k < docs.len() ==> nested(#[trigger] docs[k], "metadata"@, "name"@) != Some(
                JsonView::Text(name),
            ),
    ensures
        status_of(docs, name) == JsonView::Object(Seq::empty()),
    decreases docs.len(),
{
    if docs.len() > 0 {
        lemma_at_two(docs[0], "metadata"@, "name"@);
        let rest = docs.skip(1);
        assert forall|k: int| 0 <= k < rest.len() implies nested(
            #[trigger] rest[k],
            "metadata"@,
            "name"@,
        ) != Some(JsonView::Text(name)) by {
            assert(rest[k] == docs[k + 1]);
        }
        assert(nested(docs[0], "metadata"@, "name"@) != Some(JsonView::Text(name)));
        law_unknown_containers_have_no_status(rest, name);
    }
}

/// What is logged of a failure names the container, where there is one, and holds the
/// message.
pub proof fn law_logs_name_the_container(a: ActionView, message: Seq<char>)
    ensures
        text::ends_with(logged(a, message), message),
        reconcile::target(a) matches Some(name) ==> text::contains(logged(a, message), name),
{
    match reconcile::target(a) {
        Some(name) => {
            text::law_parts_of_a_string("container "@ + name + ": "@, message, Seq::empty());
            text::law_parts_of_a_string("container "@, name, ": "@ + message);
            assert("container "@ + name + (": "@ + message) =~= logged(a, message));
        },
        None => {
            text::law_parts_of_a_string(
                "reaping an orphaned instance failed: "@,
                message,
                Seq::empty(),
            );
        },
    }
}

/// Clearing keeps the other finalizers in order, each as often as it was there.
pub proof fn law_other_finalizers_keep_their_order(
    a: Seq<JsonView>,
    b: Seq<JsonView>,
    one: JsonView,
    s: Seq<char>,
)
    ensures
        without_text(a + b, s) == without_text(a, s) + without_text(b, s),
        without_text(seq![one], s) == (if one == JsonView::Text(s) {
            Seq::empty()
        } else {
            seq![one]
        }),
    decreases b.len(),
{
    reveal_with_fuel(without_text, 2);
    assert(seq![one].drop_last() =~= Seq::<JsonView>::empty());
    assert(without_text(seq![one], s) =~= (if one == JsonView::Text(s) {
        Seq::empty()
    } else {
        seq![one]
    }));
    if b.len() == 0 {
        assert(a + b =~= a);
    } else {
        law_other_finalizers_keep_their_order(a, b.drop_last(), one, s);
        assert((a + b).drop_last() =~= a + b.drop_last());
        assert((a + b).last() == b.last());
    }
    assert(without_text(a + b, s) =~= without_text(a, s) + without_text(b, s));
}

/// Every call of an action is for the action's own container: it launches the action's spec,
/// drives the action's instance, and reads and writes the action's container.
pub proof fn law_calls_are_for_their_own(
    a: ActionView,
    node: Seq<char>,
    now: Seq<char>,
    replies: Seq<ReplyView>,
)
    ensures
        next(a, node, now, replies) matches Some(c) ==> {
            let uid = match a {
                ActionView::Restart { uid, .. } => Some(uid),
                ActionView::Hibernate { uid, .. } => Some(uid),
                ActionView::Resume { uid, .. } => Some(uid),
                ActionView::Cleanup { uid, .. } => Some(uid),
                ActionView::Reap { uid } => Some(uid),
                _ => None,
            };
            let spec = match a {
                ActionView::Start { spec, .. } => Some(spec),
                ActionView::Restart { spec, .. } => Some(spec),
                _ => None,
            };
            match c {
                CommandView::Run { spec: s } => spec == Some(s),
                CommandView::Start { uid: u } => a is Resume && uid == Some(u),
                CommandView::Stop { uid: u } => uid == Some(u),
                CommandView::Remove { uid: u } => uid == Some(u) && (a is Restart || a is Cleanup
                    || a is Reap),
                CommandView::PutStatus { name, .. } => reconcile::target(a) == Some(name),
                CommandView::GetContainer { name } => reconcile::target(a) == Some(name),
                CommandView::ReplaceContainer { name, .. } => reconcile::target(a) == Some(name),
            }
        },
{
}

/// What an action stores says what happened, and by whom: the phase it brought about, this
/// worker, and the id that the runtime gave or the exit code that it reported.
pub proof fn law_reports_say_what_happened(
    a: ActionView,
    node: Seq<char>,
    now: Seq<char>,
    replies: Seq<ReplyView>,
)
    ensures
        next(a, node, now, replies) matches Some(CommandView::PutStatus { status, .. }) ==> {
            &&& json::get(status, "workerName"@) == Some(JsonView::Text(node))
            &&& (a is Start || a is Restart || a is Resume) || a is ReportRunning ==> json::get(status, "phase"@)
                == Some(JsonView::Text("Running"@)) && json::get(status, "startedAt"@) == Some(
                JsonView::Text(now),
            )
            &&& (a is Start || a is Restart || a is Resume) ==> (replies.last() matches ReplyView::Launched(id)
                && json::get(status, "containerID"@) == Some(JsonView::Text(id)))
            &&& a is Hibernate || a is ReportHibernated ==> json::get(status, "phase"@) == Some(
                JsonView::Text("Hibernated"@),
            )
            &&& a matches ActionView::ReportTerminal { phase, exit_code, .. } ==> json::get(
                status,
                "phase"@,
            ) == Some(JsonView::Text(phase)) && json::as_i64(json::get(status, "exitCode"@))
                == Some(exit_code as i64)
        },
        next(a, node, now, Seq::empty()) is Some,
{
    lemma_first_call(a, node, now);
    match next(a, node, now, replies) {
        Some(CommandView::PutStatus { .. }) => {
            law_statuses_give_back_what_they_report(node, ""@, ""@, 0, now);
            if replies.len() > 0 {
                if let ReplyView::Launched(id) = replies.last() {
                    law_statuses_give_back_what_they_report(node, id, ""@, 0, now);
                }
            }
            if let ActionView::ReportTerminal { phase, exit_code, .. } = a {
                law_statuses_give_back_what_they_report(node, ""@, phase, exit_code, now);
            }
        },
        _ => {},
    }
}

/// An orphan is stopped, then removed, and that is all.
pub proof fn law_orphans_are_stopped_then_removed(
    uid: Seq<char>,
    node: Seq<char>,
    now: Seq<char>,
    replies: Seq<ReplyView>,
)
    ensures
        next(ActionView::Reap { uid }, node, now, replies) == (if replies.len() == 0 {
            Some(CommandView::Stop { uid })
        } else if replies.len() == 1 {
            Some(CommandView::Remove { uid })
        } else {
            None
        }),
{
}

/// A port is read exactly where the document gives it as a whole number that a TCP port can
/// have, and as that number.
pub proof fn law_ports_are_read_whole(
    doc: JsonView,
    key: Seq<char>,
    p: u16,
    a: Seq<JsonView>,
    b: Seq<JsonView>,
)
    ensures
        port_of(doc, key) == Some(p) <==> json::get(doc, key) == Some(
            JsonView::Number(NumberView::PosInt(p as u64)),
        ),
        ports_of(a + b) == ports_of(a) + ports_of(b),
        ports_of(seq![doc]) == (match (port_of(doc, "nodePort"@), port_of(doc, "targetPort"@)) {
            (Some(node_port), Some(target_port)) => seq![
                ServicePortView { node_port, target_port },
            ],
            _ => Seq::empty(),
        }),
    decreases b.len(),
{
    reveal_with_fuel(ports_of, 2);
    assert(seq![doc].drop_last() =~= Seq::<JsonView>::empty());
    assert(ports_of(seq![doc]) =~= (match (
        port_of(doc, "nodePort"@),
        port_of(doc, "targetPort"@),
    ) {
        (Some(node_port), Some(target_port)) => seq![ServicePortView { node_port, target_port }],
        _ => Seq::empty(),
    }));
    if b.len() == 0 {
        assert(a + b =~= a);
    } else {
        law_ports_are_read_whole(doc, key, p, a, b.drop_last());
        assert((a + b).drop_last() =~= a + b.drop_last());
        assert((a + b).last() == b.last());
    }
    assert(ports_of(a + b) =~= ports_of(a) + ports_of(b));
}

/// A Service is read from its document member by member, and so is a local container, whose
/// address is that of the instance with its uid.
pub proof fn law_services_read_from_their_document(doc: JsonView, instances: Seq<AddressView>)
    ensures
        service_of(doc) is Some <==> (nested(doc, "metadata"@, "name"@) matches Some(
            JsonView::Text(_),
        )),
        service_of(doc) matches Some(s) ==> {
            &&& nested(doc, "metadata"@, "name"@) == Some(JsonView::Text(s.name))
            &&& match nested(doc, "spec"@, "selector"@) {
                Some(JsonView::Object(entries)) => s.selector == json::text_members(entries),
                _ => s.selector.len() == 0,
            }
            &&& match nested(doc, "spec"@, "ports"@) {
                Some(JsonView::Array(entries)) => s.ports == ports_of(entries),
                _ => s.ports.len() == 0,
            }
        },
        local_of(doc, instances) is Some <==> (nested(doc, "metadata"@, "uid"@) matches Some(
            JsonView::Text(_),
        )),
        local_of(doc, instances) matches Some(l) ==> {
            &&& match nested(doc, "metadata"@, "labels"@) {
                Some(JsonView::Object(entries)) => l.labels == json::text_members(entries),
                _ => l.labels.len() == 0,
            }
            &&& nested(doc, "metadata"@, "uid"@) matches Some(JsonView::Text(uid)) && l.ip
                == address_of(instances, uid)
        },
{
    lemma_at_two(doc, "metadata"@, "name"@);
    lemma_at_two(doc, "metadata"@, "uid"@);
    lemma_at_two(doc, "metadata"@, "labels"@);
    lemma_at_two(doc, "spec"@, "selector"@);
    lemma_at_two(doc, "spec"@, "ports"@);
    assert(json::text_members(Seq::empty()).len() == 0);
    assert(ports_of(Seq::empty()).len() == 0);
}

/// A container's address is that of the first instance with its uid; there is none where no
/// instance has it, or where that one reports none.
pub proof fn law_address_is_of_the_first_instance(
    instances: Seq<AddressView>,
    uid: Seq<char>,
    i: int,
)
    ensures
        0 <= i < instances.len() && instances[i].uid == uid && (forall|k: int|
            0 <= k < i ==> (#[trigger] instances[k]).uid != uid) ==> address_of(instances, uid)
            == instances[i].ip,
        (forall|k: int| 0 <= k < instances.len() ==> (#[trigger] instances[k]).uid != uid)
            ==> address_of(instances, uid) is None,
    decreases instances.len(),
{
    if instances.len() > 0 && instances[0].uid != uid {
        let rest = instances.skip(1);
        law_address_is_of_the_first_instance(rest, uid, i - 1);
        if 0 < i < instances.len() && instances[i].uid == uid && (forall|k: int|
            0 <= k < i ==> (#[trigger] instances[k]).uid != uid) {
            assert(rest[i - 1] == instances[i]);
            assert forall|k: int| 0 <= k < i - 1 implies (#[trigger] rest[k]).uid != uid by {
                assert(rest[k] == instances[k + 1]);
            }
        }
        if forall|k: int| 0 <= k < instances.len() ==> (#[trigger] instances[k]).uid != uid {
            assert forall|k: int| 0 <= k < rest.len() implies (#[trigger] rest[k]).uid != uid by {
                assert(rest[k] == instances[k + 1]);
            }
        }
    }
    if 0 < i < instances.len() {
        assert(instances[0].uid == uid || instances[0].uid != uid);
    }
}

/// A call that is made is the call that comes next, and none is made where none does.
pub proof fn law_the_next_call_is_made(r: Option<Command>, want: Option<CommandView>)
    ensures
        is_command(r, want) <==> (r is None && want is None) || (r is Some && want is Some
            && r->0@ == want->0),
{
}

/// The text of an error keeps the text of its cause at its end.
pub proof fn law_errors_keep_their_cause(e: VelosletError)
    ensures
        e matches VelosletError::Client(c) ==> error_text(e) == c.0@,
        e matches VelosletError::Runtime(r) ==> text::ends_with(
            error_text(e),
            runtime::runtime_error_text(r),
        ),
{
    if let VelosletError::Runtime(r) = e {
        text::law_parts_of_a_string(
            "runtime error: "@,
            runtime::runtime_error_text(r),
            Seq::empty(),
        );
    }
}

/// A call stands for its fields.
pub proof fn law_calls_stand_for_their_fields(c: Command)
    ensures
        match c {
            Command::Run { spec } => c@ is Run && c@->spec == spec@,
            Command::Start { uid } => c@ is Start && c@->Start_uid == uid@,
            Command::Stop { uid } => c@ is Stop && c@->Stop_uid == uid@,
            Command::Remove { uid } => c@ is Remove && c@->Remove_uid == uid@,
            Command::PutStatus { name, status } => c@ is PutStatus && c@->PutStatus_name == name@
                && c@->status == status@,
            Command::GetContainer { name } => c@ is GetContainer && c@->GetContainer_name == name@,
            Command::ReplaceContainer { name, doc } => c@ is ReplaceContainer
                && c@->ReplaceContainer_name == name@ && c@->doc == doc@,
        },
{
}

} // verus!
