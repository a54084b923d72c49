use velos::runtime::{
    build_run_args, call_outcome, instance_name, parse_list, AppleContainer, ContainerRuntime,
    FakeRuntime, InstanceId, InstanceState, RunSpec, RuntimeError,
};

fn spec(uid: &str) -> RunSpec {
    RunSpec {
        uid: uid.to_string(),
        image: "alpine".to_string(),
        command: vec![],
        env: vec![],
    }
}

#[test]
fn fake_runtime_run_list_exit_remove() {
    let mut rt = FakeRuntime::new();
    rt.run(&spec("u1")).unwrap();
    let list = rt.list().unwrap();
    assert_eq!(list.len(), 1);
    assert_eq!(list[0].state, InstanceState::Running);

    rt.set_exited("u1", 3).unwrap();
    let list = rt.list().unwrap();
    assert_eq!(list[0].state, InstanceState::Exited { exit_code: 3 });

    rt.remove("u1").unwrap();
    assert!(rt.list().unwrap().is_empty());
}

#[test]
fn run_args_without_command_use_image_entrypoint() {
    // No command → don't override; let the image's own ENTRYPOINT/CMD run.
    let got = build_run_args("velos-u1", &spec("u1"));
    assert_eq!(got, vec!["run", "--detach", "--name", "velos-u1", "alpine"]);
}

#[test]
fn run_args_with_command_override_entrypoint() {
    // k8s `command` semantics: command[0] becomes the entrypoint override,
    // command[1..] are the args after the image. This makes velos schedule
    // an image regardless of whether it carries an ENTRYPOINT.
    let mut s = spec("u1");
    s.command = vec![
        "/bin/sh".to_string(),
        "-c".to_string(),
        "echo HI".to_string(),
    ];
    let got = build_run_args("velos-u1", &s);
    assert_eq!(
        got,
        vec![
            "run",
            "--detach",
            "--name",
            "velos-u1",
            "--entrypoint",
            "/bin/sh",
            "alpine",
            "-c",
            "echo HI"
        ]
    );
}

#[test]
fn run_args_single_element_command_overrides_entrypoint_with_no_trailing_args() {
    let mut s = spec("u1");
    s.command = vec!["sleep-forever".to_string()];
    let got = build_run_args("velos-u1", &s);
    assert_eq!(
        got,
        vec![
            "run",
            "--detach",
            "--name",
            "velos-u1",
            "--entrypoint",
            "sleep-forever",
            "alpine"
        ]
    );
}

#[test]
fn run_args_place_env_before_entrypoint_and_image() {
    let mut s = spec("u1");
    s.env = vec![("K".to_string(), "V".to_string())];
    s.command = vec!["cmd".to_string()];
    let got = build_run_args("velos-u1", &s);
    assert_eq!(
        got,
        vec![
            "run",
            "--detach",
            "--name",
            "velos-u1",
            "--env",
            "K=V",
            "--entrypoint",
            "cmd",
            "alpine"
        ]
    );
}

#[test]
fn parse_list_filters_to_velos_instances_by_name_prefix() {
    // Mixed schema shapes: `name` vs `names[]`, `status` vs `state`.
    let raw = r#"[
        {"name":"velos-u1","status":"running"},
        {"names":["velos-u2"],"state":"stopped","exitCode":2},
        {"name":"someone-elses","status":"running"}
    ]"#;
    let mut got = parse_list(raw).unwrap();
    got.sort_by(|a, b| a.uid.cmp(&b.uid));
    assert_eq!(got.len(), 2);
    assert_eq!(got[0].uid, "u1");
    assert_eq!(got[0].state, InstanceState::Running);
    assert_eq!(got[1].uid, "u2");
    assert_eq!(got[1].state, InstanceState::Exited { exit_code: 2 });
}

#[test]
fn parse_list_reads_running_state_from_real_apple_container_shape() {
    // Actual `container list --all --format json` output (Apple `container`
    // CLI 1.0.0) nests the state under `status.state` rather than exposing a
    // flat `status`/`state` string — see issue where running containers were
    // reported as Succeeded.
    let raw = r#"[
        {"id":"velos-u1","status":{"state":"running","startedDate":"2026-07-18T17:45:28Z"}}
    ]"#;
    let got = parse_list(raw).unwrap();
    assert_eq!(got.len(), 1);
    assert_eq!(got[0].uid, "u1");
    assert_eq!(got[0].state, InstanceState::Running);
}

#[test]
fn parse_list_reads_stopped_state_from_real_apple_container_shape() {
    let raw = r#"[
        {"id":"velos-u1","status":{"state":"stopped","startedDate":"2026-07-18T17:45:28Z"}}
    ]"#;
    let got = parse_list(raw).unwrap();
    assert_eq!(got.len(), 1);
    assert_eq!(got[0].uid, "u1");
    assert_eq!(got[0].state, InstanceState::Exited { exit_code: 0 });
}

#[test]
fn runtime_errors_say_what_failed() {
    assert_eq!(
        RuntimeError::Command("boom".to_string()).message(),
        "runtime command failed: boom"
    );
    assert_eq!(
        RuntimeError::Io("no such file".to_string()).message(),
        "io error: no such file"
    );
    assert_eq!(RuntimeError::Lock.message(), "lock poisoned");
}

#[test]
fn calls_of_the_container_cli_are_spelled_out() {
    let cli = AppleContainer::new();
    assert_eq!(cli.binary(), "container");
    assert_eq!(AppleContainer::default().binary(), "container");
    assert_eq!(
        AppleContainer::with_binary("/opt/container").binary(),
        "/opt/container"
    );
    let (id, args) = cli.run_call(&spec("u1"));
    assert_eq!(id, InstanceId("velos-u1".to_string()));
    assert_eq!(args.join(" "), "run --detach --name velos-u1 alpine");
    assert_eq!(cli.stop_args("u1").join(" "), "stop velos-u1");
    assert_eq!(cli.start_args("u1").join(" "), "start velos-u1");
    assert_eq!(cli.remove_args("u1").join(" "), "delete --force velos-u1");
    assert_eq!(cli.list_args().join(" "), "list --all --format json");
    assert_eq!(cli.version_args().join(" "), "--version");
    assert_eq!(cli.restart_args().join(" "), "system start");
}

#[test]
fn the_outcome_of_a_call_is_trimmed() {
    assert_eq!(
        call_outcome(true, " v1 \n", "ignored").unwrap(),
        "v1".to_string()
    );
    assert_eq!(
        call_outcome(false, "ignored", "\tno such container\u{a0}\n"),
        Err(RuntimeError::Command("no such container".to_string()))
    );
}

#[test]
fn a_listing_that_is_no_json_is_a_command_error() {
    assert!(parse_list("").unwrap().is_empty());
    assert!(parse_list("{}").unwrap().is_empty());
    assert!(matches!(
        parse_list("not json"),
        Err(RuntimeError::Command(m)) if m.contains("line 1")
    ));
}

#[test]
fn listings_of_other_shapes_are_understood() {
    let list = parse_list(
        r#"[{"names": ["velos-a"], "state": "Running"},
            {"id": "velos-b", "status": "stopped", "exitCode": 3},
            {"name": "velos-c", "exit_code": -1},
            {"name": 7, "id": "velos-d", "status": {"state": "running"}},
            {"name": "web"}, {"names": []}, 5]"#,
    )
    .unwrap();
    let got: Vec<(&str, InstanceState)> = list.iter().map(|i| (i.uid.as_str(), i.state)).collect();
    assert_eq!(
        got,
        vec![
            ("a", InstanceState::Running),
            ("b", InstanceState::Exited { exit_code: 3 }),
            ("c", InstanceState::Exited { exit_code: -1 }),
            ("d", InstanceState::Running),
        ]
    );
    assert_eq!(list[1].id, InstanceId("velos-b".to_string()));
}

#[test]
fn a_name_leads_back_to_its_uid() {
    for uid in ["u1", "", "velos-u1"] {
        let raw = format!(r#"[{{"name": "{}"}}]"#, instance_name(uid));
        assert_eq!(parse_list(&raw).unwrap()[0].uid, uid);
    }
}

#[test]
fn the_fake_runtime_stops_starts_and_forgets() {
    let mut rt = FakeRuntime::default();
    assert_eq!(rt.version().unwrap(), "fake-runtime/1.0");
    let id = rt.run(&spec("u1")).unwrap();
    assert_eq!(id, InstanceId("fake-u1".to_string()));
    rt.run(&spec("u2")).unwrap();
    // Running again replaces the instance.
    rt.set_exited("u1", 7).unwrap();
    rt.run(&spec("u1")).unwrap();
    assert_eq!(rt.list().unwrap().len(), 2);
    // Stopping keeps it, and stopping twice changes nothing.
    rt.stop("u1").unwrap();
    rt.stop("u1").unwrap();
    let state = |rt: &FakeRuntime, uid: &str| {
        rt.list()
            .unwrap()
            .into_iter()
            .find(|i| i.uid == uid)
            .map(|i| i.state)
    };
    assert_eq!(
        state(&rt, "u1"),
        Some(InstanceState::Exited { exit_code: 0 })
    );
    assert_eq!(state(&rt, "u2"), Some(InstanceState::Running));
    assert_eq!(rt.start("u1").unwrap(), id);
    assert_eq!(state(&rt, "u1"), Some(InstanceState::Running));
    rt.remove("u1").unwrap();
    rt.remove("u1").unwrap();
    rt.stop("u1").unwrap();
    assert_eq!(state(&rt, "u1"), None);
    assert_eq!(
        rt.start("u1"),
        Err(RuntimeError::Command("no instance for u1".to_string()))
    );
}
