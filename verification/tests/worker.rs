use velos::json::{parse, Json, Number};
use velos::proxy::{NodeProxy, Route};
use velos::reconcile::{Action, DesiredState, RestartPolicy};
use velos::runtime::{
    ContainerRuntime, FakeRuntime, Instance, InstanceId, InstanceState, RunSpec, RuntimeError,
};
use velos::worker::{
    desired_from_doc, desired_from_docs, failed_status, failure_is_new, failure_log,
    failure_report, hibernated_status, local_containers, next_command, observed_from, plan_pass,
    plan_services, running_status, service_from_doc, terminal_status, without_finalizer,
    ClientError, Command, InstanceAddress, Pass, Reply, VelosletError, FINALIZER,
};

const NOW: &str = "2026-01-02T03:04:05+00:00";

fn json(text: &str) -> Json {
    parse(text).unwrap()
}

fn str_in<'a>(doc: &'a Json, path: &[&str]) -> Option<&'a str> {
    doc.at(path).and_then(|j| j.as_str())
}

fn container(name: &str) -> Json {
    json(&format!(
        r#"{{"metadata": {{"name": "{name}", "uid": "uid-{name}", "finalizers": ["other", "veloslet"]}},
            "spec": {{"image": "alpine"}}}}"#
    ))
}

fn spec(uid: &str) -> RunSpec {
    RunSpec {
        uid: uid.to_string(),
        image: "alpine".to_string(),
        command: vec![],
        env: vec![],
    }
}

/// The calls of an action, each answered by `answer`.
fn calls(action: &Action, answer: impl Fn(&Command) -> Reply) -> Vec<Command> {
    let mut replies = Vec::new();
    let mut made = Vec::new();
    while let Some(c) = next_command(action, "w1", NOW, &replies) {
        replies.push(answer(&c));
        made.push(c);
    }
    made
}

fn obliging(c: &Command) -> Reply {
    match c {
        Command::Run { spec } => Reply::Launched(InstanceId(format!("id-{}", spec.uid))),
        Command::Start { uid } => Reply::Launched(InstanceId(format!("id-{uid}"))),
        Command::GetContainer { name } => Reply::Container(Some(container(name))),
        _ => Reply::Done,
    }
}

/// A server that stores documents, and an in-memory runtime.
struct World {
    docs: Vec<Json>,
    runtime: FakeRuntime,
    /// Uids whose launch fails.
    broken: Vec<String>,
    writes: usize,
}

impl World {
    fn index(&self, name: &str) -> usize {
        self.docs
            .iter()
            .position(|d| str_in(d, &["metadata", "name"]) == Some(name))
            .unwrap()
    }

    fn store_status(&mut self, name: &str, status: Json) {
        let i = self.index(name);
        let members = velos::json::set_member(self.docs[i].as_object().unwrap(), "status", status);
        self.docs[i] = Json::Object(members);
        self.writes += 1;
    }

    fn perform(&mut self, c: Command) -> Result<Reply, VelosletError> {
        match c {
            Command::Run { spec } => {
                if self.broken.contains(&spec.uid) {
                    return Err(VelosletError::Runtime(RuntimeError::Command(
                        "no such image".to_string(),
                    )));
                }
                self.runtime.run(&spec).map(Reply::Launched)
            }
            Command::Start { uid } => self.runtime.start(&uid).map(Reply::Launched),
            Command::Stop { uid } => self.runtime.stop(&uid).map(|()| Reply::Done),
            Command::Remove { uid } => self.runtime.remove(&uid).map(|()| Reply::Done),
            Command::PutStatus { name, status } => {
                self.store_status(&name, status);
                return Ok(Reply::Done);
            }
            Command::GetContainer { name } => {
                let i = self.index(&name);
                return Ok(Reply::Container(Some(self.docs[i].clone())));
            }
            Command::ReplaceContainer { name, doc } => {
                let i = self.index(&name);
                self.docs[i] = doc;
                return Ok(Reply::Done);
            }
        }
        .map_err(VelosletError::Runtime)
    }

    /// One reconcile pass: how many actions were carried out, and what was logged.
    fn pass(&mut self) -> (usize, Vec<String>) {
        let assigned = self.docs.clone();
        let mut log = Vec::new();
        let mut pass = Pass::begin(plan_pass(&assigned, &self.runtime.list().unwrap()));
        while let Some(c) = pass.next_call("w1", NOW) {
            match self.perform(c) {
                Ok(reply) => pass.succeeded(reply),
                Err(e) => {
                    let failure = pass.failed(&assigned, "w1", &e.message()).unwrap();
                    log.push(failure.log);
                    if let Some((name, status)) = failure.publish {
                        self.store_status(&name, status);
                    }
                }
            }
        }
        (pass.applied(), log)
    }

    fn phase(&self, name: &str) -> Option<&str> {
        str_in(&self.docs[self.index(name)], &["status", "phase"])
    }
}

fn world(docs: Vec<Json>) -> World {
    World {
        docs,
        runtime: FakeRuntime::new(),
        broken: vec![],
        writes: 0,
    }
}

#[test]
fn a_container_is_read_out_of_its_document() {
    let doc = json(
        r#"{"metadata": {"name": "c1", "uid": "u1", "deletionTimestamp": "now",
                "finalizers": ["a", "veloslet"]},
            "spec": {"image": "alpine", "command": ["sh", 3, "-c"],
                "env": {"A": "1", "B": 2, "C": "3"},
                "restartPolicy": "Always", "desiredState": "Hibernated"},
            "status": {"phase": "Running"}}"#,
    );
    let d = desired_from_doc(&doc).unwrap();
    assert_eq!(d.name, "c1");
    assert_eq!(d.uid, "u1");
    assert_eq!(d.image, "alpine");
    assert_eq!(d.command, vec!["sh".to_string(), "-c".to_string()]);
    assert_eq!(
        d.env,
        vec![
            ("A".to_string(), "1".to_string()),
            ("C".to_string(), "3".to_string())
        ]
    );
    assert_eq!(d.restart_policy, RestartPolicy::Always);
    assert_eq!(d.desired_state, DesiredState::Hibernated);
    assert_eq!(d.phase, "Running");
    assert!(d.marked_for_deletion);
    assert!(d.has_finalizer);
}

#[test]
fn a_bare_document_gets_the_defaults() {
    let d = desired_from_doc(&json(r#"{"metadata": {"name": "c1", "uid": "u1"}}"#)).unwrap();
    assert_eq!(d.image, "");
    assert!(d.command.is_empty());
    assert!(d.env.is_empty());
    assert_eq!(d.restart_policy, RestartPolicy::Never);
    assert_eq!(d.desired_state, DesiredState::Running);
    assert_eq!(d.phase, "Pending");
    assert!(!d.marked_for_deletion);
    assert!(!d.has_finalizer);
    let asleep = json(
        r#"{"metadata": {"name": "c", "uid": "u", "deletionTimestamp": null, "finalizers": "veloslet"}}"#,
    );
    let d = desired_from_doc(&asleep).unwrap();
    assert!(!d.marked_for_deletion);
    assert!(!d.has_finalizer);
}

#[test]
fn a_document_without_a_name_or_a_uid_describes_no_container() {
    assert!(desired_from_doc(&json(r#"{"metadata": {"name": "c1"}}"#)).is_none());
    assert!(desired_from_doc(&json(r#"{"metadata": {"uid": "u1"}}"#)).is_none());
    assert!(desired_from_doc(&json(r#"{"metadata": {"name": 1, "uid": "u1"}}"#)).is_none());
    assert!(desired_from_doc(&json("[]")).is_none());
    let docs = vec![json("{}"), container("c1"), Json::Null, container("c2")];
    let names: Vec<String> = desired_from_docs(&docs).into_iter().map(|d| d.name).collect();
    assert_eq!(names, vec!["c1".to_string(), "c2".to_string()]);
}

#[test]
fn observations_keep_uid_and_state() {
    let seen = observed_from(&vec![Instance {
        uid: "u1".to_string(),
        id: InstanceId("velos-u1".to_string()),
        state: InstanceState::Exited { exit_code: 3 },
    }]);
    assert_eq!(seen.len(), 1);
    assert_eq!(seen[0].uid, "u1");
    assert_eq!(seen[0].state, InstanceState::Exited { exit_code: 3 });
}

#[test]
fn statuses_say_what_they_are_for() {
    assert_eq!(
        running_status("w1", "velos-u1", NOW),
        Json::Object(vec![
            ("phase".to_string(), Json::Text("Running".to_string())),
            ("workerName".to_string(), Json::Text("w1".to_string())),
            ("containerID".to_string(), Json::Text("velos-u1".to_string())),
            ("startedAt".to_string(), Json::Text(NOW.to_string())),
        ])
    );
    let asleep = hibernated_status("w1", NOW);
    assert_eq!(str_in(&asleep, &["phase"]), Some("Hibernated"));
    assert_eq!(str_in(&asleep, &["hibernatedAt"]), Some(NOW));
    assert!(asleep.get("containerID").is_none());
    let done = terminal_status("w1", "Failed", -9, NOW);
    assert_eq!(str_in(&done, &["phase"]), Some("Failed"));
    assert_eq!(done.get("exitCode"), Some(&Json::Number(Number::NegInt(-9))));
    assert_eq!(
        terminal_status("w1", "Succeeded", 0, NOW).get("exitCode"),
        Some(&Json::Number(Number::PosInt(0)))
    );
    assert_eq!(str_in(&done, &["finishedAt"]), Some(NOW));
}

#[test]
fn a_failure_keeps_the_rest_of_the_status() {
    let current = json(r#"{"phase": "Scheduled", "reason": "StartFailed", "message": "old", "n": 1}"#);
    assert!(failure_is_new(&current, "StartFailed", "new"));
    assert!(failure_is_new(&current, "ResumeFailed", "old"));
    assert!(!failure_is_new(&current, "StartFailed", "old"));
    let failed = failed_status(&current, "w1", "StartFailed", "new");
    assert_eq!(str_in(&failed, &["phase"]), Some("Scheduled"));
    assert_eq!(str_in(&failed, &["workerName"]), Some("w1"));
    assert_eq!(str_in(&failed, &["reason"]), Some("StartFailed"));
    assert_eq!(str_in(&failed, &["message"]), Some("new"));
    assert_eq!(failed.get("n"), Some(&Json::Number(Number::PosInt(1))));
    // The failure that a status records is not new any more.
    assert!(!failure_is_new(&failed, "StartFailed", "new"));
    // A status that is no object is replaced by one.
    let fresh = failed_status(&Json::Null, "w1", "StartFailed", "m");
    assert_eq!(fresh.as_object().unwrap().len(), 3);
}

#[test]
fn clearing_takes_only_this_workers_finalizer() {
    assert_eq!(FINALIZER, "veloslet");
    let doc = container("c1");
    let cleared = without_finalizer(&doc);
    assert_eq!(
        cleared.at(&["metadata", "finalizers"]),
        Some(&Json::Array(vec![Json::Text("other".to_string())]))
    );
    assert_eq!(str_in(&cleared, &["metadata", "uid"]), Some("uid-c1"));
    assert_eq!(cleared.get("spec"), doc.get("spec"));
    assert_eq!(without_finalizer(&cleared), cleared);
    assert!(!desired_from_doc(&cleared).unwrap().has_finalizer);
    // Without a list there is an empty one afterwards; without metadata nothing changes.
    let bare = without_finalizer(&json(r#"{"metadata": {"name": "c"}}"#));
    assert_eq!(
        bare.at(&["metadata", "finalizers"]),
        Some(&Json::Array(vec![]))
    );
    assert_eq!(without_finalizer(&json(r#"{"a": 1}"#)), json(r#"{"a": 1}"#));
    assert_eq!(without_finalizer(&Json::Null), Json::Null);
}

#[test]
fn starting_runs_then_reports_the_id() {
    let start = Action::Start {
        name: "c1".to_string(),
        spec: spec("u1"),
    };
    assert_eq!(
        calls(&start, obliging),
        vec![
            Command::Run { spec: spec("u1") },
            Command::PutStatus {
                name: "c1".to_string(),
                status: running_status("w1", "id-u1", NOW),
            },
        ]
    );
}

#[test]
fn restarting_removes_first() {
    let restart = Action::Restart {
        name: "c1".to_string(),
        uid: "u1".to_string(),
        spec: spec("u1"),
    };
    let made = calls(&restart, obliging);
    assert_eq!(made.len(), 3);
    assert_eq!(
        made[0],
        Command::Remove {
            uid: "u1".to_string()
        }
    );
    assert_eq!(made[1], Command::Run { spec: spec("u1") });
    assert!(matches!(&made[2], Command::PutStatus { name, .. } if name == "c1"));
}

#[test]
fn hibernating_stops_and_resuming_starts() {
    let hibernate = Action::Hibernate {
        name: "c1".to_string(),
        uid: "u1".to_string(),
    };
    assert_eq!(
        calls(&hibernate, obliging),
        vec![
            Command::Stop {
                uid: "u1".to_string()
            },
            Command::PutStatus {
                name: "c1".to_string(),
                status: hibernated_status("w1", NOW),
            },
        ]
    );
    let resume = Action::Resume {
        name: "c1".to_string(),
        uid: "u1".to_string(),
    };
    assert_eq!(
        calls(&resume, obliging),
        vec![
            Command::Start {
                uid: "u1".to_string()
            },
            Command::PutStatus {
                name: "c1".to_string(),
                status: running_status("w1", "id-u1", NOW),
            },
        ]
    );
}

#[test]
fn reports_only_store_a_status() {
    let name = "c1".to_string();
    assert_eq!(
        calls(&Action::ReportRunning { name: name.clone() }, obliging),
        vec![Command::PutStatus {
            name: name.clone(),
            status: running_status("w1", "", NOW),
        }]
    );
    assert_eq!(
        calls(&Action::ReportHibernated { name: name.clone() }, obliging),
        vec![Command::PutStatus {
            name: name.clone(),
            status: hibernated_status("w1", NOW),
        }]
    );
    let terminal = Action::ReportTerminal {
        name: name.clone(),
        phase: "Failed".to_string(),
        exit_code: 2,
    };
    assert_eq!(
        calls(&terminal, obliging),
        vec![Command::PutStatus {
            name,
            status: terminal_status("w1", "Failed", 2, NOW),
        }]
    );
}

#[test]
fn cleanup_lets_go_only_after_teardown() {
    let cleanup = |clear| Action::Cleanup {
        name: "c1".to_string(),
        uid: "u1".to_string(),
        clear_finalizer: clear,
    };
    let stop = Command::Stop {
        uid: "u1".to_string(),
    };
    let remove = Command::Remove {
        uid: "u1".to_string(),
    };
    let get = Command::GetContainer {
        name: "c1".to_string(),
    };
    let replace = Command::ReplaceContainer {
        name: "c1".to_string(),
        doc: without_finalizer(&container("c1")),
    };
    assert_eq!(
        calls(&cleanup(true), obliging),
        vec![stop, remove, get, replace]
    );
    assert_eq!(calls(&cleanup(false), obliging).len(), 2);
    let reap = Action::Reap {
        uid: "u1".to_string(),
    };
    assert_eq!(calls(&reap, obliging).len(), 2);
    // A container that is gone has nothing to clear.
    let clear = Action::ClearFinalizer {
        name: "c1".to_string(),
    };
    assert_eq!(calls(&clear, obliging).len(), 2);
    assert_eq!(calls(&clear, |_| Reply::Container(None)).len(), 1);
}

#[test]
fn failures_are_logged_against_their_container() {
    let start = Action::Start {
        name: "c1".to_string(),
        spec: spec("u1"),
    };
    let reap = Action::Reap {
        uid: "u9".to_string(),
    };
    assert_eq!(failure_log(&start, "boom"), "container c1: boom");
    assert_eq!(
        failure_log(&reap, "boom"),
        "reaping an orphaned instance failed: boom"
    );
    let docs = vec![container("c0"), container("c1")];
    let (name, status) = failure_report(&docs, "w1", &start, "boom").unwrap();
    assert_eq!(name, "c1");
    assert_eq!(str_in(&status, &["reason"]), Some("StartFailed"));
    assert!(failure_report(&docs, "w1", &reap, "boom").is_none());
    let report = Action::ReportRunning {
        name: "c1".to_string(),
    };
    assert!(failure_report(&docs, "w1", &report, "boom").is_none());
    // Once stored, the same failure is not published again.
    let members = velos::json::set_member(docs[1].as_object().unwrap(), "status", status);
    let stored = vec![docs[0].clone(), Json::Object(members)];
    assert!(failure_report(&stored, "w1", &start, "boom").is_none());
    assert!(failure_report(&stored, "w1", &start, "other").is_some());
}

#[test]
fn errors_name_their_origin() {
    let client = VelosletError::Client(ClientError("connection refused".to_string()));
    assert_eq!(client.message(), "connection refused");
    let runtime = VelosletError::Runtime(RuntimeError::Command("no such image".to_string()));
    assert_eq!(
        runtime.message(),
        "runtime error: runtime command failed: no such image"
    );
}

#[test]
fn a_container_goes_through_its_life() {
    let mut w = world(vec![container("c1")]);
    assert_eq!(w.pass(), (1, vec![]));
    assert_eq!(w.phase("c1"), Some("Running"));
    // A second pass is a no-op.
    assert_eq!(w.pass(), (0, vec![]));
    w.runtime.set_exited("uid-c1", 0).unwrap();
    assert_eq!(w.pass(), (1, vec![]));
    assert_eq!(w.phase("c1"), Some("Succeeded"));
    assert_eq!(w.pass(), (0, vec![]));
    // Deleted: torn down, then let go.
    w.docs[0] = json(
        r#"{"metadata": {"name": "c1", "uid": "uid-c1", "deletionTimestamp": "now",
            "finalizers": ["veloslet"]}, "status": {"phase": "Succeeded"}}"#,
    );
    assert_eq!(w.pass(), (1, vec![]));
    assert!(w.runtime.list().unwrap().is_empty());
    assert!(!desired_from_doc(&w.docs[0]).unwrap().has_finalizer);
    assert_eq!(w.pass(), (0, vec![]));
}

#[test]
fn a_hibernated_container_wakes_up_as_the_same_instance() {
    let mut w = world(vec![container("c1")]);
    w.pass();
    let id = w.runtime.list().unwrap()[0].id.clone();
    let asleep = json(
        r#"{"metadata": {"name": "c1", "uid": "uid-c1"},
            "spec": {"desiredState": "Hibernated", "restartPolicy": "Always"},
            "status": {"phase": "Running"}}"#,
    );
    w.docs[0] = asleep;
    assert_eq!(w.pass(), (1, vec![]));
    assert_eq!(w.phase("c1"), Some("Hibernated"));
    assert_eq!(w.pass(), (0, vec![]));
    assert_eq!(w.runtime.list().unwrap().len(), 1);
    w.docs[0] = json(
        r#"{"metadata": {"name": "c1", "uid": "uid-c1"},
            "spec": {"restartPolicy": "Always"}, "status": {"phase": "Hibernated"}}"#,
    );
    assert_eq!(w.pass(), (1, vec![]));
    assert_eq!(w.phase("c1"), Some("Running"));
    assert_eq!(w.runtime.list().unwrap()[0].id, id);
}

#[test]
fn one_broken_container_does_not_cost_the_others_their_pass() {
    let mut w = world(vec![container("c1"), container("bad"), container("c2")]);
    w.broken.push("uid-bad".to_string());
    let line = "container bad: runtime error: runtime command failed: no such image".to_string();
    assert_eq!(w.pass(), (2, vec![line.clone()]));
    assert_eq!(w.phase("c1"), Some("Running"));
    assert_eq!(w.phase("c2"), Some("Running"));
    let bad = &w.docs[1];
    assert_eq!(str_in(bad, &["status", "reason"]), Some("StartFailed"));
    assert_eq!(str_in(bad, &["status", "phase"]), None);
    // The next pass tries again and logs again, but writes nothing.
    let writes = w.writes;
    assert_eq!(w.pass(), (0, vec![line]));
    assert_eq!(w.writes, writes);
}

#[test]
fn an_orphan_is_reaped_in_a_pass() {
    let mut w = world(vec![]);
    w.runtime.run(&spec("lost")).unwrap();
    assert_eq!(w.pass(), (1, vec![]));
    assert!(w.runtime.list().unwrap().is_empty());
}

#[test]
fn a_pass_that_is_over_has_nothing_to_fail() {
    let mut pass = Pass::begin(vec![]);
    assert!(pass.next_call("w1", NOW).is_none());
    assert!(pass.failed(&vec![], "w1", "boom").is_none());
    assert_eq!(pass.applied(), 0);
}

#[test]
fn a_service_is_read_out_of_its_document() {
    let doc = json(
        r#"{"metadata": {"name": "web"}, "spec": {"selector": {"app": "web", "n": 1},
            "ports": [{"nodePort": 30080, "targetPort": 80},
                      {"nodePort": 65536, "targetPort": 80},
                      {"nodePort": 30081}, {"nodePort": -1, "targetPort": 1},
                      {"nodePort": 65535, "targetPort": 0}]}}"#,
    );
    let svc = service_from_doc(&doc).unwrap();
    assert_eq!(svc.name, "web");
    assert_eq!(svc.selector, vec![("app".to_string(), "web".to_string())]);
    let ports: Vec<(u16, u16)> = svc
        .ports
        .iter()
        .map(|p| (p.node_port, p.target_port))
        .collect();
    assert_eq!(ports, vec![(30080, 80), (65535, 0)]);
    assert!(service_from_doc(&json("{}")).is_none());
}

#[test]
fn services_reach_local_containers_by_uid() {
    let assigned = vec![
        json(r#"{"metadata": {"name": "a", "uid": "u1", "labels": {"app": "web"}}}"#),
        json(r#"{"metadata": {"name": "b", "uid": "u2", "labels": {"app": "web"}}}"#),
        json(r#"{"metadata": {"name": "c"}}"#),
    ];
    let addresses = vec![
        InstanceAddress {
            uid: "u2".to_string(),
            ip: Some("10.0.0.2".to_string()),
        },
        InstanceAddress {
            uid: "u1".to_string(),
            ip: None,
        },
    ];
    let locals = local_containers(&assigned, &addresses);
    assert_eq!(locals.len(), 2);
    assert_eq!(locals[0].ip, None);
    assert_eq!(locals[1].ip, Some("10.0.0.2".to_string()));
    let services = vec![json(
        r#"{"metadata": {"name": "web"}, "spec": {"selector": {"app": "web"},
            "ports": [{"nodePort": 30080, "targetPort": 80}]}}"#,
    )];
    let plan = plan_services(&services, &assigned, &addresses);
    assert_eq!(plan.len(), 1);
    assert_eq!(plan[0].node_port, 30080);
    assert_eq!(plan[0].service, "web");
    assert_eq!(plan[0].backends, vec!["10.0.0.2:80".to_string()]);
    let mut table = NodeProxy::new();
    assert!(table.retire(&plan).is_empty());
    assert_eq!(table.route(&plan[0]), Route::Bind);
}
