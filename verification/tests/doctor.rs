use velos::doctor::{
    check_api, check_config, check_credential, check_identity, check_initialized, check_reachable,
    check_runtime, check_server, classify_transport, count_workers, diagnose, observe_api,
    observe_config, observe_identity, observe_init, observe_reachability, observe_runtime,
    parse_identity, plural, resolve_server, resolve_token, url, ApiAccess, Check, ConfigState,
    Diagnosis, Environment, IdentityState, InitState, Observations, Probe, Reachability, Report,
    RuntimeState, Source, Status,
};
use velos::json::Json;
use velos::report::{read_body, CallResult, FileRead, HttpReply};

fn json(text: &str) -> Json {
    velos::json::parse(text).unwrap()
}

fn find<'a>(report: &'a Report, name: &str) -> &'a Check {
    report.checks.iter().find(|c| c.name == name).unwrap()
}

#[test]
fn a_world_readable_config_warns_with_a_chmod_hint() {
    let check = check_config(&ConfigState::Present {
        path: "/home/u/.velos/config".to_string(),
        mode: Some(0o644),
    });
    assert_eq!(check.status, Status::Warn);
    assert!(check.detail.contains("0644"), "{}", check.detail);
    assert_eq!(
        check.hint.as_deref(),
        Some("chmod 600 /home/u/.velos/config")
    );
}

#[test]
fn a_private_config_passes() {
    let check = check_config(&ConfigState::Present {
        path: "/home/u/.velos/config".to_string(),
        mode: Some(0o600),
    });
    assert_eq!(check.status, Status::Pass);
    assert!(check.hint.is_none());
}

#[test]
fn a_missing_config_warns_but_an_unusable_one_fails() {
    let missing = check_config(&ConfigState::Missing("/home/u/.velos/config".to_string()));
    assert_eq!(missing.status, Status::Warn);
    let unusable = check_config(&ConfigState::Unusable {
        path: "/home/u/.velos/config".to_string(),
        error: "expected value at line 1".to_string(),
    });
    assert_eq!(unusable.status, Status::Fail);
}

#[test]
fn a_missing_credential_fails_and_points_at_login() {
    let check = check_credential(None);
    assert_eq!(check.status, Status::Fail);
    assert!(check.hint.unwrap().contains("velosctl login"));
    assert_eq!(check_credential(Some(Source::Config)).status, Status::Pass);
}

#[test]
fn an_uninitialized_server_fails_but_a_worker_token_only_warns() {
    let uninitialized = check_initialized("http://h:8080", &InitState::Uninitialized);
    assert_eq!(uninitialized.status, Status::Fail);
    assert!(
        uninitialized
            .hint
            .unwrap_or_default()
            .contains("http://h:8080"),
        "the hint should name the server to open"
    );
    assert_eq!(
        check_initialized("http://h:8080", &InitState::Initialized).status,
        Status::Pass
    );
    assert_eq!(check_identity(&IdentityState::Admin).status, Status::Pass);
    assert_eq!(
        check_identity(&IdentityState::Worker("w1".into())).status,
        Status::Warn
    );
    assert_eq!(
        check_identity(&IdentityState::Rejected(401)).status,
        Status::Fail
    );
}

#[test]
fn no_ready_workers_warns_rather_than_fails() {
    let empty = check_api(&ApiAccess::Workers { total: 0, ready: 0 });
    assert_eq!(empty.status, Status::Warn);
    assert_eq!(empty.detail, "no workers registered");

    let none_ready = check_api(&ApiAccess::Workers { total: 2, ready: 0 });
    assert_eq!(none_ready.status, Status::Warn);
    assert_eq!(none_ready.detail, "none of 2 workers Ready");

    let some_ready = check_api(&ApiAccess::Workers { total: 2, ready: 1 });
    assert_eq!(some_ready.status, Status::Pass);
    assert_eq!(some_ready.detail, "1 of 2 workers Ready");

    assert_eq!(check_api(&ApiAccess::Denied(403)).status, Status::Fail);
}

#[test]
fn a_missing_container_runtime_is_only_a_warning() {
    // The control plane and CLI run fine without it; only workers need it.
    assert_eq!(check_runtime(&RuntimeState::Absent).status, Status::Warn);
    assert_eq!(
        check_runtime(&RuntimeState::Available("container CLI 1.0".into())).status,
        Status::Pass
    );
}

#[test]
fn ready_is_counted_from_the_ready_condition_only() {
    let body = json(r#"{ "items": [
        { "metadata": { "name": "a" },
          "status": { "conditions": [{ "conditionType": "Ready", "status": true }] } },
        { "metadata": { "name": "b" },
          "status": { "conditions": [{ "conditionType": "Ready", "status": false }] } },
        { "metadata": { "name": "c" }, "status": { "conditions": [] } }
    ]}"#);
    assert_eq!(count_workers(&body), Some((3, 1)));
    assert_eq!(count_workers(&json(r#"{ "items": [] }"#)), Some((0, 0)));
    assert_eq!(count_workers(&json(r#"{ "oops": 1 }"#)), None);
}

#[test]
fn identity_parses_both_admin_and_worker_shapes() {
    assert_eq!(
        parse_identity(&json(r#"{ "identity": "admin" }"#)),
        Some(IdentityState::Admin)
    );
    assert_eq!(
        parse_identity(&json(r#"{ "identity": { "worker": "node-1" } }"#)),
        Some(IdentityState::Worker("node-1".to_string()))
    );
    assert_eq!(parse_identity(&json(r#"{ "identity": 7 }"#)), None);
}

#[test]
fn an_https_url_without_a_tls_backend_is_named_as_such() {
    assert_eq!(
        classify_transport(
            "https://velos.example",
            "invalid URL, scheme is not http".into()
        ),
        Reachability::NoTlsSupport
    );
    // A real connect failure, and any http URL, stay ordinary.
    assert_eq!(
        classify_transport("https://velos.example", "Connection refused".into()),
        Reachability::Unreachable("Connection refused".to_string())
    );
    assert_eq!(
        classify_transport("http://velos.example", "Connection refused".into()),
        Reachability::Unreachable("Connection refused".to_string())
    );
    let check = check_reachable("https://velos.example", &Reachability::NoTlsSupport);
    assert_eq!(check.status, Status::Fail);
    assert!(check.detail.contains("TLS"), "{}", check.detail);
}

#[test]
fn urls_survive_a_trailing_slash() {
    assert_eq!(
        url("http://h:8080/", "/healthz"),
        "http://h:8080/healthz".to_string()
    );
}

#[test]
fn an_unreachable_server_skips_the_checks_that_need_it() {
    let env = Environment {
        server: "http://127.0.0.1:1",
        server_source: Source::Flag,
        token: Some(("tok", Source::Flag)),
    };
    let refused = HttpReply::Failed("Connection refused".to_string());
    let mut seen = Observations {
        exe: Some("/usr/local/bin/velosctl".to_string()),
        config: ConfigState::NoHome,
        client_error: None,
        reach: None,
        init: None,
        identity: None,
        api: None,
        runtime: None,
    };
    assert!(matches!(
        diagnose(&env, "0.1.0", &seen),
        Diagnosis::Probe(Probe::Reachability)
    ));
    seen.reach = Some(observe_reachability(env.server, refused));
    // A server that does not answer is not asked anything else.
    assert!(matches!(
        diagnose(&env, "0.1.0", &seen),
        Diagnosis::Probe(Probe::Runtime)
    ));
    seen.runtime = Some(observe_runtime(CallResult::NotFound));
    let Diagnosis::Done(report) = diagnose(&env, "0.1.0", &seen) else {
        panic!("a probe is left");
    };

    assert_eq!(find(&report, "reachable").status, Status::Fail);
    for skipped in ["initialized", "identity", "api access"] {
        assert_eq!(
            find(&report, skipped).status,
            Status::Skip,
            "{skipped} should be skipped when the server is unreachable"
        );
    }
    assert!(report.has_failures());
    // Every check must be rendered, skips included — a silently dropped
    // check reads as a clean bill of health.
    let rendered = report.render();
    for check in &report.checks {
        assert!(rendered.contains(check.name), "{} missing", check.name);
    }
}

#[test]
fn only_failures_make_the_report_fail() {
    let warn_only = Report {
        checks: vec![
            Check::pass("a", "fine"),
            Check::warn("b", "meh", "do something"),
            Check::skip("c", "not checked"),
        ],
    };
    assert!(!warn_only.has_failures());
    assert!(warn_only.render().contains("nothing broken"));

    let broken = Report {
        checks: vec![Check::fail("a", "bad", "fix it")],
    };
    assert!(broken.has_failures());
    assert!(broken.render().contains("fix it"));
}

fn answered(code: u16, status: &str, body: &str) -> HttpReply {
    HttpReply::Answered {
        success: (200..300).contains(&code),
        code,
        status: status.to_string(),
        body: read_body(body.as_bytes()),
    }
}

fn unasked() -> Observations {
    Observations {
        exe: Some("/Users/you/.local/bin/velosctl".to_string()),
        config: ConfigState::Missing("/Users/you/.velos/config".into()),
        client_error: None,
        reach: None,
        init: None,
        identity: None,
        api: None,
        runtime: None,
    }
}

#[test]
fn settings_come_from_the_first_layer_that_has_them() {
    assert_eq!(
        resolve_server(Some("f"), Some("e"), Some("c")),
        ("f", Source::Flag)
    );
    assert_eq!(
        resolve_server(None, Some("e"), Some("c")),
        ("e", Source::Env)
    );
    assert_eq!(
        resolve_server(None, None, Some("c")),
        ("c", Source::Config)
    );
    assert_eq!(
        resolve_server(None, None, None),
        ("http://127.0.0.1:8080", Source::Default)
    );
    assert_eq!(
        resolve_token(None, Some("e"), Some("c")),
        Some(("e", Source::Env))
    );
    assert_eq!(
        resolve_token(None, None, Some("c")),
        Some(("c", Source::Config))
    );
    assert_eq!(resolve_token(None, None, None), None);
    assert_eq!(
        check_server("http://h", Source::Default).detail,
        "http://h (from built-in default)"
    );
}

#[test]
fn a_server_that_is_not_set_up_reads_like_this() {
    let server = "http://127.0.0.1:8080";
    let env = Environment {
        server,
        server_source: Source::Default,
        token: None,
    };
    let mut seen = unasked();
    let report = loop {
        match diagnose(&env, "0.1.3", &seen) {
            Diagnosis::Done(report) => break report,
            Diagnosis::Probe(Probe::Reachability) => {
                seen.reach = Some(observe_reachability(server, answered(200, "200 OK", "ok")))
            }
            Diagnosis::Probe(Probe::Init) => {
                seen.init = Some(observe_init(answered(
                    200,
                    "200 OK",
                    r#"{"initialized": false}"#,
                )))
            }
            Diagnosis::Probe(Probe::Runtime) => {
                seen.runtime = Some(observe_runtime(CallResult::Exited {
                    success: true,
                    status: "exit status: 0".to_string(),
                    stdout: "container CLI version 1.0.0\n".to_string(),
                    stderr: String::new(),
                }))
            }
            Diagnosis::Probe(other) => panic!("{other:?} without a credential"),
        }
    };
    assert_eq!(
        report.render(),
        "  ✔ velosctl     v0.1.3 (/Users/you/.local/bin/velosctl)
  ! config file  /Users/you/.velos/config not written yet
                   → run `velosctl login --token <token> --server <url>` to save one
  ✔ server url   http://127.0.0.1:8080 (from built-in default)
  ✗ credential   none — every API call will be rejected
                   → run `velosctl login --token <token> --server <url>`
  ✔ reachable    http://127.0.0.1:8080 answered /healthz
  ✗ initialized  no admin account — the server rejects everything until first-run setup
                   → open http://127.0.0.1:8080 and create the admin account
  - identity     no credential to check
  - api access   no credential to check
  ✔ runtime      container CLI version 1.0.0

2 failed, 1 warning — see the hints above
"
    );
    // Every check that warns or fails says how to fix it, and no other does.
    for check in &report.checks {
        let problem = matches!(check.status, Status::Warn | Status::Fail);
        assert_eq!(check.hint.is_some(), problem, "{}", check.name);
    }
}

#[test]
fn a_rejected_credential_is_not_presented_again() {
    let env = Environment {
        server: "http://h",
        server_source: Source::Env,
        token: Some(("tok", Source::Config)),
    };
    let mut seen = unasked();
    seen.reach = Some(Reachability::Reachable);
    seen.init = Some(InitState::Initialized);
    assert!(matches!(
        diagnose(&env, "1", &seen),
        Diagnosis::Probe(Probe::Identity)
    ));
    seen.identity = Some(observe_identity(answered(401, "401 Unauthorized", "{}")));
    assert_eq!(seen.identity, Some(IdentityState::Rejected(401)));
    assert!(matches!(
        diagnose(&env, "1", &seen),
        Diagnosis::Probe(Probe::Runtime)
    ));
    seen.runtime = Some(RuntimeState::Absent);
    let Diagnosis::Done(report) = diagnose(&env, "1", &seen) else {
        panic!("a probe is left");
    };
    assert_eq!(
        find(&report, "api access").detail,
        "the credential was rejected"
    );
    // One that is accepted is.
    seen.identity = Some(IdentityState::Admin);
    assert!(matches!(
        diagnose(&env, "1", &seen),
        Diagnosis::Probe(Probe::Api)
    ));
}

#[test]
fn without_a_client_nothing_is_asked() {
    let env = Environment {
        server: "http://h",
        server_source: Source::Env,
        token: None,
    };
    let mut seen = unasked();
    seen.client_error = Some("no TLS".to_string());
    let Diagnosis::Done(report) = diagnose(&env, "1", &seen) else {
        panic!("a probe is left");
    };
    assert_eq!(report.checks.len(), 5);
    assert_eq!(
        report.checks[4].detail,
        "could not build an HTTP client: no TLS"
    );
}

#[test]
fn answers_are_read_for_what_they_say() {
    let failed = || HttpReply::Failed("refused".to_string());
    assert_eq!(
        observe_reachability("http://h", answered(503, "503 Service Unavailable", "")),
        Reachability::Unreachable("HTTP 503 Service Unavailable".to_string())
    );
    assert_eq!(
        observe_init(failed()),
        InitState::Unexpected("refused".to_string())
    );
    assert_eq!(
        observe_init(answered(404, "404 Not Found", "{}")),
        InitState::Unexpected("HTTP 404 Not Found".to_string())
    );
    assert_eq!(
        observe_init(answered(200, "200 OK", r#"{"initialized": true}"#)),
        InitState::Initialized
    );
    assert_eq!(
        observe_init(answered(200, "200 OK", "{}")),
        InitState::Unexpected("no `initialized` field".to_string())
    );
    assert!(matches!(
        observe_init(answered(200, "200 OK", "<html>")),
        InitState::Unexpected(why) if why.contains("line 1")
    ));
    assert_eq!(
        observe_identity(answered(200, "200 OK", r#"{ "identity" : 1 }"#)),
        IdentityState::Unexpected("unrecognized body: {\"identity\":1}".to_string())
    );
    assert_eq!(
        observe_identity(failed()),
        IdentityState::Unexpected("refused".to_string())
    );
    assert_eq!(
        observe_identity(answered(200, "200 OK", r#"{"identity": {"worker": "w1"}}"#)),
        IdentityState::Worker("w1".to_string())
    );
    assert_eq!(
        observe_api(answered(403, "403 Forbidden", "")),
        ApiAccess::Denied(403)
    );
    assert_eq!(
        observe_api(answered(200, "200 OK", "[]")),
        ApiAccess::Unexpected("unrecognized body: []".to_string())
    );
    assert_eq!(
        observe_api(answered(200, "200 OK", r#"{"items": [{}]}"#)),
        ApiAccess::Workers { total: 1, ready: 0 }
    );
    assert_eq!(
        observe_api(failed()),
        ApiAccess::Unexpected("refused".to_string())
    );
}

#[test]
fn the_config_file_is_observed() {
    let path = || Some("/c".to_string());
    assert_eq!(
        observe_config(None, FileRead::NotFound),
        ConfigState::NoHome
    );
    assert_eq!(
        observe_config(path(), FileRead::NotFound),
        ConfigState::Missing("/c".into())
    );
    assert_eq!(
        observe_config(path(), FileRead::Unusable("bad".to_string())),
        ConfigState::Unusable {
            path: "/c".into(),
            error: "bad".to_string(),
        }
    );
    let present = observe_config(
        path(),
        FileRead::Parsed {
            value: (),
            mode: Some(0o600),
        },
    );
    assert_eq!(check_config(&present).detail, "/c (mode 0600)");
}

#[test]
fn a_runtime_that_fails_is_described() {
    let broken = observe_runtime(CallResult::Exited {
        success: false,
        status: "exit status: 1".to_string(),
        stdout: String::new(),
        stderr: "boom".to_string(),
    });
    assert_eq!(
        check_runtime(&broken).detail,
        "`container` failed: exited with exit status: 1"
    );
    assert_eq!(
        observe_runtime(CallResult::Failed("denied".to_string())),
        RuntimeState::Broken("denied".to_string())
    );
}

#[test]
fn counts_take_a_plural() {
    assert_eq!(plural(0, "worker"), "0 workers");
    assert_eq!(plural(1, "worker"), "1 worker");
    assert_eq!(plural(2, "worker"), "2 workers");
}
