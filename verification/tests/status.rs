use velos::daemon::WorkerConfig;
use velos::json::Json;
use velos::memory::Memory;
use velos::host::HostResources;
use velos::report::{read_body, CallResult, FileRead, HttpReply};
use velos::status::{
    check_agent, check_capacity, check_config, check_identity, check_joined, check_reachable,
    check_runtime, classify_transport, diagnose, observe_agent, observe_capacity, observe_config,
    judge_runtime, observe_identity, observe_reachability, observe_runtime, parse_identity, AgentState,
    CapacityState, Check, ConfigState, Diagnosis, IdentityState, Observations, Probe,
    Reachability, Report, RuntimeState, Status,
};

fn json(text: &str) -> Json {
    velos::json::parse(text).unwrap()
}

fn cfg() -> WorkerConfig {
    WorkerConfig {
        server: "http://h:8088".to_string(),
        node: "node-a".to_string(),
        token: None,
        credential: Some("node-a.secret".to_string()),
        cpu: 4,
        memory: Memory::from_bytes(8 * 1024 * 1024 * 1024),
        reconcile_secs: 5,
        heartbeat_secs: 10,
        lease_secs: 40,
    }
}

#[test]
fn a_missing_config_says_to_run_setup() {
    let check = check_config(&ConfigState::Missing("/tmp/x.json".into()));
    assert_eq!(check.status, Status::Fail);
    assert!(check.hint.unwrap().contains("veloslet setup"));
}

#[test]
fn a_group_readable_config_is_a_warning_not_a_failure() {
    // It still works — it is just leaking the credential, so the worker is
    // usable and the report should not claim otherwise.
    let check = check_config(&ConfigState::Present {
        path: "/tmp/x.json".into(),
        mode: Some(0o100644),
        config: Box::new(cfg()),
    });
    assert_eq!(check.status, Status::Warn);
    assert!(check.detail.contains("644"), "{}", check.detail);
    assert_eq!(
        check_config(&ConfigState::Present {
            path: "/tmp/x.json".into(),
            mode: Some(0o100600),
            config: Box::new(cfg()),
        })
        .status,
        Status::Pass
    );
}

#[test]
fn an_unjoined_worker_fails_the_joined_check() {
    let mut unjoined = cfg();
    unjoined.credential = None;
    assert_eq!(check_joined(&unjoined).status, Status::Fail);
    assert_eq!(check_joined(&cfg()).status, Status::Pass);
}

#[test]
fn https_without_tls_is_told_apart_from_a_server_that_is_down() {
    assert_eq!(
        classify_transport("https://velos.example", "scheme is not http".to_string()),
        Reachability::NoTlsSupport
    );
    // The same cause on an http URL is not a TLS problem.
    assert_eq!(
        classify_transport("http://velos.example", "scheme is not http".to_string()),
        Reachability::Unreachable("scheme is not http".to_string())
    );
    assert_eq!(
        classify_transport("https://velos.example", "connection refused".to_string()),
        Reachability::Unreachable("connection refused".to_string())
    );
}

#[test]
fn a_credential_for_another_node_is_reported_as_such() {
    // The failure mode of hand-editing `node` after joining. Without this
    // arm it would read as a plain 401 with no clue why.
    let check = check_identity("node-a", &IdentityState::Worker("node-b".to_string()));
    assert_eq!(check.status, Status::Fail);
    assert!(check.detail.contains("node-b"), "{}", check.detail);
    assert!(check.detail.contains("node-a"), "{}", check.detail);
}

#[test]
fn a_matching_identity_passes() {
    assert_eq!(
        check_identity("node-a", &IdentityState::Worker("node-a".to_string())).status,
        Status::Pass
    );
}

#[test]
fn a_revoked_credential_says_the_worker_was_deleted() {
    let check = check_identity("node-a", &IdentityState::Rejected(401));
    assert_eq!(check.status, Status::Fail);
    assert!(check.hint.unwrap().contains("veloslet setup"));
}

#[test]
fn identity_parses_both_shapes() {
    assert_eq!(
        parse_identity(&json(r#"{ "identity": "admin" }"#)),
        Some(IdentityState::Admin)
    );
    assert_eq!(
        parse_identity(&json(r#"{ "identity": { "worker": "w1" } }"#)),
        Some(IdentityState::Worker("w1".to_string()))
    );
    assert_eq!(parse_identity(&json(r#"{ "nope": 1 }"#)), None);
}

#[test]
fn capacity_that_exceeds_the_host_fails_with_the_reason() {
    let check = check_capacity(&CapacityState::Exceeds(
        "requested 99 cores but machine has 10".to_string(),
    ));
    assert_eq!(check.status, Status::Fail);
    assert!(check.detail.contains("99"), "{}", check.detail);
}

#[test]
fn a_stale_launch_agent_label_is_surfaced() {
    // The real case: an agent installed before the bundle id was renamed is
    // running, but `stop`/`uninstall` target the new label and miss it, so
    // "not loaded" would be actively misleading.
    let check = check_agent(&AgentState::StaleLabel(
        "io.github.zhxiaogg.velos-worker".to_string(),
    ));
    assert_eq!(check.status, Status::Warn);
    assert!(check.detail.contains("zhxiaogg"), "{}", check.detail);
    assert!(check.hint.unwrap().contains("launchctl unload"));
}

#[test]
fn two_loaded_agents_are_a_failure_not_a_pass() {
    // Seen for real: `run -d` loaded the current label while a pre-rename
    // agent was still loaded, so two workers shared one config and one node
    // name and reaped each other's containers. Reporting a plain pass here
    // hid an actively broken machine.
    let check = check_agent(&AgentState::Duplicate(
        "io.github.zhxiaogg.velos-worker".to_string(),
    ));
    assert_eq!(check.status, Status::Fail);
    assert!(check.detail.contains("two workers"), "{}", check.detail);
    assert!(check.detail.contains("zhxiaogg"), "{}", check.detail);
    assert!(check.hint.unwrap().contains("launchctl unload"));
}

#[test]
fn the_report_counts_failures_and_warnings_separately() {
    let report = Report {
        checks: vec![
            Check::pass("a", "ok"),
            Check::warn("b", "meh", "do x"),
            Check::fail("c", "broken", "do y"),
        ],
    };
    assert!(report.has_failures());
    let text = report.render();
    assert!(text.contains("1 failed, 1 warning"), "{text}");

    let clean = Report {
        checks: vec![Check::pass("a", "ok")],
    };
    assert!(!clean.has_failures());
    assert!(clean.render().contains("all checks passed"));

    // Warnings alone must not read as a broken setup.
    let warned = Report {
        checks: vec![Check::warn("b", "meh", "do x")],
    };
    assert!(!warned.has_failures());
    assert!(warned.render().contains("nothing broken"));
}

#[test]
fn a_missing_config_still_reports_runtime_and_agent() {
    // The two checks that do not need a config are the ones a fresh machine
    // most wants: is there a container runtime, and is anything running.
    let mut seen = Observations {
        exe: None,
        config: None,
        reach: None,
        identity: None,
        capacity: None,
        runtime: None,
        agent: None,
    };
    let mut probes = Vec::new();
    let report = loop {
        match diagnose("0.1.0", &seen) {
            Diagnosis::Probe(p) => {
                probes.push(p);
                match p {
                    Probe::Config => {
                        seen.config =
                            Some(ConfigState::Missing("/tmp/veloslet-doctor-absent.json".into()))
                    }
                    Probe::Runtime => {
                        seen.runtime = Some(observe_runtime(
                            CallResult::NotFound,
                            CallResult::NotFound,
                        ))
                    }
                    Probe::Agent => seen.agent = Some(observe_agent(false, None)),
                    other => panic!("probed {other:?} without a config"),
                }
            }
            Diagnosis::Done(report) => break report,
        }
    };
    assert_eq!(probes, vec![Probe::Config, Probe::Runtime, Probe::Agent]);
    let names: Vec<&str> = report.checks.iter().map(|c| c.name).collect();
    assert!(names.contains(&"runtime"), "{names:?}");
    assert!(names.contains(&"background"), "{names:?}");
    assert!(report.has_failures());
    // Nothing that needs the config may be reported as passing.
    for c in &report.checks {
        if ["joined", "server", "reachable", "identity", "capacity"].contains(&c.name) {
            assert_eq!(c.status, Status::Skip, "{}", c.name);
        }
    }
}

const GB: u64 = 1024 * 1024 * 1024;

fn exited(success: bool, stdout: &str, stderr: &str) -> CallResult {
    CallResult::Exited {
        success,
        status: "exit status".to_string(),
        stdout: stdout.to_string(),
        stderr: stderr.to_string(),
    }
}

fn ok(body: &str) -> HttpReply {
    HttpReply::Answered {
        success: true,
        code: 200,
        status: "200 OK".to_string(),
        body: read_body(body.as_bytes()),
    }
}

#[test]
fn a_healthy_worker_in_a_terminal_reads_like_this() {
    let config = WorkerConfig {
        server: "http://127.0.0.1:8080".to_string(),
        node: "macmini-2".to_string(),
        cpu: 8,
        memory: Memory::from_bytes(16 * GB),
        ..cfg()
    };
    let host = HostResources {
        cpu: 10,
        memory_bytes: 32 * GB,
    };
    let mut seen = Observations {
        exe: Some("/Users/you/.local/bin/veloslet".to_string()),
        config: None,
        reach: None,
        identity: None,
        capacity: None,
        runtime: None,
        agent: None,
    };
    let report = loop {
        let probe = match diagnose("0.3.0", &seen) {
            Diagnosis::Done(report) => break report,
            Diagnosis::Probe(probe) => probe,
        };
        match probe {
            Probe::Config => {
                seen.config = Some(observe_config(
                    "/Users/you/.velos/veloslet.json".to_string(),
                    FileRead::Parsed {
                        value: config.clone(),
                        mode: Some(0o100600),
                    },
                ))
            }
            Probe::Reachability => {
                seen.reach = Some(observe_reachability(&config.server, ok("\"ok\"")))
            }
            Probe::Identity => {
                seen.identity = Some(observe_identity(ok(
                    r#"{"identity": {"worker": "macmini-2"}}"#,
                )))
            }
            Probe::Capacity => seen.capacity = Some(observe_capacity(&config, Ok(host))),
            Probe::Runtime => {
                seen.runtime = Some(observe_runtime(
                    exited(true, "container CLI version 1.0.0\n", ""),
                    exited(true, "[]", ""),
                ))
            }
            Probe::Agent => seen.agent = Some(observe_agent(true, Some("- 0 com.apple.x\n"))),
        }
    };
    assert_eq!(
        report.render(),
        "  ✔ veloslet     v0.3.0 (/Users/you/.local/bin/veloslet)
  ✔ config file  /Users/you/.velos/veloslet.json
  ✔ joined       holds a credential for macmini-2
  ✔ server       http://127.0.0.1:8080
  ✔ reachable    http://127.0.0.1:8080 answered /healthz
  ✔ identity     the server knows this worker as macmini-2
  ✔ capacity     advertising 8 cpu, 16G of 10 cpu, 32G
  ✔ runtime      container CLI version 1.0.0
  ! background   no LaunchAgent loaded — this worker only runs while `veloslet run` is in a terminal
                   → run `veloslet run -d` to keep it running across logins and crashes

1 warning, nothing broken
"
    );
}

#[test]
fn a_runtime_whose_services_are_down_fails() {
    let down = observe_runtime(
        exited(true, "container CLI version 1.0.0\n", ""),
        exited(false, "", "  XPC connection error\n"),
    );
    assert_eq!(down, RuntimeState::Broken("XPC connection error".to_string()));
    let check = check_runtime(&down);
    assert_eq!(check.status, Status::Fail);
    assert!(Report {
        checks: vec![check.clone()],
    }
    .has_failures());
    assert_eq!(
        check.detail,
        "`container` is present but did not answer: XPC connection error"
    );
    let long = "x".repeat(200);
    assert_eq!(
        observe_runtime(exited(false, "", &long), exited(true, "", "")),
        RuntimeState::Broken("x".repeat(120))
    );
    assert_eq!(
        observe_runtime(CallResult::Failed("denied".to_string()), CallResult::NotFound),
        RuntimeState::Broken("denied".to_string())
    );
    assert_eq!(
        check_runtime(&RuntimeState::Absent).detail,
        "no `container` CLI on PATH — this machine cannot run containers"
    );
}

#[test]
fn launchd_is_asked_for_any_velos_worker() {
    let current = "123\t0\tio.github.blossomstack.velos-worker";
    let stale = "77\t0\tcom.velos.velos-worker";
    let seen = |listing: &str| observe_agent(true, Some(listing));
    assert_eq!(seen(current), AgentState::Loaded);
    assert_eq!(
        seen(&format!("PID\tStatus\tLabel\n{stale}\r\n")),
        AgentState::StaleLabel("com.velos.velos-worker".to_string())
    );
    assert_eq!(
        seen(&format!("{current}\n{stale}\n")),
        AgentState::Duplicate("com.velos.velos-worker".to_string())
    );
    assert_eq!(seen("1 0 other\nvelos-worker\n"), AgentState::NotLoaded);
    assert_eq!(observe_agent(true, None), AgentState::NotLoaded);
    assert_eq!(observe_agent(false, Some(current)), AgentState::NotApplicable);
}

#[test]
fn a_machine_that_cannot_be_measured_only_warns() {
    let unknown = observe_capacity(&cfg(), Err("no sysctl".to_string()));
    let check = check_capacity(&unknown);
    assert_eq!(check.status, Status::Warn);
    assert_eq!(check.detail, "could not measure this machine: no sysctl");
    let small = HostResources {
        cpu: 2,
        memory_bytes: GB,
    };
    assert_eq!(
        observe_capacity(&cfg(), Ok(small)),
        CapacityState::Exceeds("requested 4 cores but machine has 2".to_string())
    );
}

#[test]
fn replies_about_the_worker_are_read_for_what_they_say() {
    assert_eq!(
        observe_identity(HttpReply::Failed("refused".to_string())),
        IdentityState::Unexpected("refused".to_string())
    );
    assert_eq!(
        observe_identity(ok("[ ]")),
        IdentityState::Unexpected("unrecognized body: []".to_string())
    );
    let refused = observe_reachability("http://h", HttpReply::Failed("refused".to_string()));
    assert_eq!(
        check_reachable("http://h", &refused).detail,
        "http://h: refused"
    );
    assert_eq!(
        observe_config("/c".to_string(), FileRead::Unusable("bad".to_string())),
        ConfigState::Unusable {
            path: "/c".to_string(),
            error: "bad".to_string(),
        }
    );
}

#[test]
fn an_unjoined_worker_is_not_asked_who_it_is() {
    let seen = Observations {
        exe: None,
        config: Some(observe_config(
            "/c".to_string(),
            FileRead::Parsed {
                value: WorkerConfig {
                    credential: None,
                    ..cfg()
                },
                mode: None,
            },
        )),
        reach: Some(Reachability::Reachable),
        identity: None,
        capacity: Some(CapacityState::Unknown("x".to_string())),
        runtime: Some(RuntimeState::Absent),
        agent: Some(AgentState::Loaded),
    };
    let Diagnosis::Done(report) = diagnose("1", &seen) else {
        panic!("a probe is left");
    };
    assert_eq!(report.checks[5].detail, "this worker has not joined yet");
    assert_eq!(report.checks[5].status, Status::Skip);
    for check in &report.checks {
        let problem = matches!(check.status, Status::Warn | Status::Fail);
        assert_eq!(check.hint.is_some(), problem, "{}", check.name);
    }
}

#[test]
fn a_listing_that_is_none_is_no_answer() {
    let version = || exited(true, "container CLI version 1.0.0\n", "");
    // It exits well, but the worker could not read it before a heartbeat either.
    let state = observe_runtime(version(), exited(true, "not a listing\n", ""));
    assert!(matches!(
        &state,
        RuntimeState::Broken(why) if why.starts_with("runtime command failed: expected")
    ));
    assert_eq!(check_runtime(&state).status, Status::Fail);
    let fine = RuntimeState::Available("container CLI version 1.0.0".to_string());
    for listing in ["[]\n", " \n", "{}"] {
        assert_eq!(observe_runtime(version(), exited(true, listing, "")), fine);
    }
    assert_eq!(
        observe_runtime(version(), CallResult::NotFound),
        RuntimeState::Broken("not found".to_string())
    );
    assert_eq!(judge_runtime(version(), Ok(())), fine);
    assert_eq!(
        judge_runtime(version(), Err("why".to_string())),
        RuntimeState::Broken("why".to_string())
    );
    assert_eq!(
        judge_runtime(CallResult::NotFound, Ok(())),
        RuntimeState::Absent
    );
}
