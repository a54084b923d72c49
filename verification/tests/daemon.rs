use velos::daemon::{
    credential_from_response, joined_line, path_below, prepare_daemon, render_info_plist,
    render_launch_agent, require_joined, require_macos, start_steps, stop_steps, uninstall_steps,
    xml_escape, Bearer, JoinError, Paths, Step, WorkerConfig,
};
use velos::host::HostResources;
use velos::json::Json;
use velos::memory::Memory;

fn json(text: &str) -> Json {
    velos::json::parse(text).unwrap()
}

/// A config as `veloslet install` writes it: a join token, no credential yet.
fn unjoined() -> WorkerConfig {
    WorkerConfig {
        server: "http://192.168.68.60:8088".to_string(),
        node: "node-a".to_string(),
        token: Some("id.secret".to_string()),
        credential: None,
        cpu: 4,
        memory: Memory::from_bytes(8 * 1024 * 1024 * 1024),
        reconcile_secs: 5,
        heartbeat_secs: 10,
        lease_secs: 40,
    }
}

#[test]
fn bearer_prefers_the_credential_over_a_leftover_join_token() {
    let cfg = WorkerConfig {
        credential: Some("node-a.secret".to_string()),
        ..unjoined()
    };
    // Even with a join token still on disk (e.g. the rewrite failed), a
    // joined worker presents its credential — never the token again.
    assert!(cfg.bearer().unwrap() == Bearer::Credential("node-a.secret".to_string()));
}

#[test]
fn bearer_uses_the_join_token_until_the_worker_has_joined() {
    assert!(unjoined().bearer().unwrap() == Bearer::Join("id.secret".to_string()));
}

#[test]
fn bearer_fails_closed_with_neither_secret() {
    let cfg = WorkerConfig {
        token: None,
        ..unjoined()
    };
    assert!(cfg.bearer() == Err(JoinError::NoSecret));
}

#[test]
fn adopt_stores_the_credential_and_erases_the_join_token() {
    let cfg = unjoined();
    let updated = cfg
        .adopt(
            &Bearer::Join("id.secret".to_string()),
            &json(r#"{ "workerName": "node-a", "token": "node-a.secret" }"#),
        )
        .unwrap()
        .expect("a join must be written back");
    assert_eq!(updated.token, None);
    assert_eq!(updated.credential, Some("node-a.secret".to_string()));
    // Everything else is untouched.
    assert_eq!(updated.server, cfg.server);
    assert_eq!(updated.node, cfg.node);
    assert_eq!(updated.lease_secs, cfg.lease_secs);
    assert!(updated.bearer().unwrap() == Bearer::Credential("node-a.secret".to_string()));
}

#[test]
fn adopt_writes_nothing_back_when_re_registering_with_a_credential() {
    let cfg = WorkerConfig {
        token: None,
        credential: Some("node-a.secret".to_string()),
        ..unjoined()
    };
    // A restart re-registers to refresh what it advertises; the server
    // issues no new credential, so there is nothing to persist.
    let updated = cfg
        .adopt(
            &Bearer::Credential("node-a.secret".to_string()),
            &json(r#"{ "workerName": "node-a" }"#),
        )
        .unwrap();
    assert_eq!(updated, None);
}

#[test]
fn adopt_fails_closed_when_a_join_returns_no_credential() {
    let cfg = unjoined();
    let join = Bearer::Join("id.secret".to_string());
    assert_eq!(
        cfg.adopt(&join, &json(r#"{ "workerName": "node-a" }"#)),
        Err(JoinError::NoCredentialIssued)
    );
    assert_eq!(
        cfg.adopt(&join, &json(r#"{ "token": "" }"#)),
        Err(JoinError::NoCredentialIssued)
    );
}

#[test]
fn bearer_never_leaks_through_debug() {
    assert_eq!(Bearer::Join("id.secret".into()).redacted(), "Join(***)");
    assert_eq!(
        Bearer::Credential("node-a.secret".into()).redacted(),
        "Credential(***)"
    );
}

#[test]
fn launch_agent_carries_associated_bundle_id_and_args() {
    let args = vec![
        "/Applications/Velos.app/Contents/MacOS/veloslet".to_string(),
        "run".to_string(),
        "--config".to_string(),
        "/home/u/.velos/veloslet.json".to_string(),
    ];
    let plist = render_launch_agent(&args, "/usr/local/bin:/usr/bin:/bin", "/o.log", "/e.log");
    assert!(plist.contains("<key>AssociatedBundleIdentifiers</key>"));
    assert!(plist.contains("<string>io.github.blossomstack.velos-worker</string>"));
    assert!(plist.contains("<string>run</string>"));
    assert!(plist.contains("<string>/home/u/.velos/veloslet.json</string>"));
}

#[test]
fn info_plist_declares_identity_and_local_network_usage() {
    let info = render_info_plist("0.1.1");
    assert!(info.contains(
        "<key>CFBundleIdentifier</key><string>io.github.blossomstack.velos-worker</string>"
    ));
    assert!(info.contains("<key>NSLocalNetworkUsageDescription</key>"));
}

#[test]
fn xml_escape_neutralizes_markup() {
    assert_eq!(xml_escape("a&b<c>"), "a&amp;b&lt;c&gt;");
}

#[test]
fn join_errors_say_what_to_do() {
    assert_eq!(
        JoinError::NoSecret.message(),
        "worker config holds neither a credential nor a join token; mint one with `velosctl token create` and re-run `veloslet install --token <token>`"
    );
    assert_eq!(
        JoinError::NoCredentialIssued.message(),
        "the server accepted the join token but returned no worker credential"
    );
}

#[test]
fn a_credential_is_read_out_of_the_response() {
    assert_eq!(
        credential_from_response(&json(r#"{"token": "node-a.s"}"#)),
        Ok("node-a.s".to_string())
    );
    for bad in ["{}", r#"{"token": ""}"#, r#"{"token": 1}"#, "null"] {
        assert_eq!(
            credential_from_response(&json(bad)),
            Err(JoinError::NoCredentialIssued),
            "{bad}"
        );
    }
}

#[test]
fn a_join_is_one_shot() {
    let joined = unjoined().with_credential("node-a.s".to_string());
    assert!(joined.is_connected());
    assert!(!unjoined().is_connected());
    assert_eq!(joined.token, None);
    assert!(joined.bearer() == Ok(Bearer::Credential("node-a.s".to_string())));
    assert_eq!(joined.bearer().ok().unwrap().expose(), "node-a.s");
}

#[test]
fn plists_are_rendered_to_the_letter() {
    let info = render_info_plist("1.0 <beta>");
    assert!(info.starts_with("<?xml version=\"1.0\" encoding=\"UTF-8\"?>\n<!DOCTYPE plist"));
    assert!(info.contains("<key>CFBundleVersion</key><string>1.0 &lt;beta&gt;</string>\n"));
    assert!(info.contains("<key>CFBundleDisplayName</key><string>Veloslet Worker</string>\n"));
    assert!(info.ends_with("</dict>\n</plist>\n"));
    let agent = render_launch_agent(
        &["/a&b".to_string(), "run".to_string()],
        "/bin",
        "/tmp/out",
        "/tmp/err",
    );
    assert!(agent.contains(
        "    <array>\n        <string>/a&amp;b</string>\n        <string>run</string>\n    </array>\n"
    ));
    assert!(agent.contains("<key>StandardErrorPath</key>\n    <string>/tmp/err</string>\n"));
}

#[test]
fn paths_lie_below_home() {
    let paths = Paths::resolve("/Users/me", "/Users/me/.velos/veloslet.json");
    assert_eq!(paths.bundle_dir, "/Users/me/Applications/Velos.app");
    assert_eq!(
        paths.bundle_bin,
        "/Users/me/Applications/Velos.app/Contents/MacOS/veloslet"
    );
    assert_eq!(
        paths.info_plist,
        "/Users/me/Applications/Velos.app/Contents/Info.plist"
    );
    assert_eq!(paths.codesign_dir, "/Users/me/.velos/codesign");
    assert_eq!(
        paths.agent_plist,
        "/Users/me/Library/LaunchAgents/io.github.blossomstack.velos-worker.plist"
    );
    assert_eq!(paths.stdout_log, "/Users/me/Library/Logs/veloslet.out.log");
    assert_eq!(paths.stderr_log, "/Users/me/Library/Logs/veloslet.err.log");
    assert_eq!(path_below("/", "a"), "/a");
    assert_eq!(path_below("", "a"), "a");
}

#[test]
fn installing_signs_and_verifies_before_it_loads() {
    let paths = Paths::resolve("/h", "/h/c.json");
    let steps = start_steps(&paths, "/bin/veloslet", "1.0");
    assert_eq!(steps.len(), 8);
    assert_eq!(
        steps[0],
        Step::Copy {
            from: "/bin/veloslet".to_string(),
            to: paths.bundle_bin.clone(),
            mode: 0o755,
        }
    );
    assert_eq!(
        steps[1],
        Step::Write {
            path: paths.info_plist.clone(),
            contents: render_info_plist("1.0"),
            mode: 0o644,
        }
    );
    assert_eq!(
        steps[2],
        Step::Sign {
            bundle: paths.bundle_dir.clone(),
            identity_dir: paths.codesign_dir.clone(),
        }
    );
    assert_eq!(
        steps[3],
        Step::Verify {
            bundle: paths.bundle_dir.clone(),
        }
    );
    let Step::Write { path, contents, .. } = &steps[4] else {
        panic!("no agent is written");
    };
    assert_eq!(*path, paths.agent_plist);
    assert!(contents.contains(
        "<string>run</string>\n        <string>--config</string>\n        <string>/h/c.json</string>"
    ));
    let agent = paths.agent_plist.clone();
    assert_eq!(
        steps[5],
        Step::Unload {
            agent: agent.clone(),
        }
    );
    assert_eq!(steps[6], Step::Load { agent });
    assert_eq!(steps[7], Step::ShowPrivacySettings);
    let optional: Vec<bool> = steps.iter().map(|s| s.is_best_effort()).collect();
    assert_eq!(
        optional,
        vec![false, false, false, false, false, true, false, true]
    );
}

#[test]
fn stopping_keeps_what_uninstalling_removes() {
    let paths = Paths::resolve("/h", "/h/c.json");
    let stop = stop_steps(&paths);
    let uninstall = uninstall_steps(&paths);
    assert_eq!(stop.len(), 2);
    assert_eq!(uninstall[..2], stop[..]);
    assert_eq!(
        uninstall[2..],
        [
            Step::RemoveDir {
                path: paths.bundle_dir.clone(),
            },
            Step::RemoveFile {
                path: paths.config_file.clone(),
            },
        ]
    );
    // The signing identity survives.
    assert!(!uninstall.contains(&Step::RemoveDir {
        path: paths.codesign_dir.clone(),
    }));
}

#[test]
fn the_background_worker_needs_macos_and_a_join() {
    assert_eq!(require_macos(true, "stop"), Ok(()));
    assert_eq!(
        require_macos(false, "run -d"),
        Err("`veloslet run -d` manages a macOS launchd LaunchAgent and does nothing on this platform — run the worker with `veloslet run` under your own service manager (systemd, supervisord, …) instead".to_string())
    );
    assert_eq!(
        require_joined(&unjoined(), "/c.json"),
        Err(
            "the config at /c.json has no credential — run `veloslet setup` first".to_string()
        )
    );
    let joined = unjoined().with_credential("s".to_string());
    assert_eq!(require_joined(&joined, "/c.json"), Ok(()));
}

#[test]
fn a_join_is_announced() {
    let cfg = unjoined();
    assert_eq!(
        joined_line(&None, &cfg),
        "joined http://192.168.68.60:8088 as node-a"
    );
    assert_eq!(
        joined_line(&Some("node-a".to_string()), &cfg),
        "re-joined http://192.168.68.60:8088 as node-a"
    );
    assert_eq!(
        joined_line(&Some("old".to_string()), &cfg),
        "joined http://192.168.68.60:8088 as node-a (was old)"
    );
}

#[test]
fn a_daemon_is_refused_for_the_first_reason() {
    let paths = Paths::resolve("/h", "/h/c.json");
    let host = HostResources {
        cpu: 8,
        memory_bytes: 16 * 1024 * 1024 * 1024,
    };
    let joined = unjoined().with_credential("s".to_string());
    let greedy = WorkerConfig {
        cpu: 9,
        ..joined.clone()
    };
    let unknown = || Err("no sysctl".to_string());
    let decide = |on_macos, cfg: &WorkerConfig, host| {
        prepare_daemon(
            on_macos,
            cfg,
            host,
            &paths,
            Ok("/bin/veloslet".to_string()),
            "1.0",
        )
    };
    let lost = |cfg: &WorkerConfig| {
        let exe = Err("no binary".to_string());
        prepare_daemon(true, cfg, Ok(host), &paths, exe, "1.0")
    };
    assert_eq!(
        decide(true, &joined, Ok(host)),
        Ok(start_steps(&paths, "/bin/veloslet", "1.0"))
    );
    assert_eq!(
        decide(false, &unjoined(), unknown()),
        Err(require_macos(false, "run -d").unwrap_err())
    );
    assert_eq!(
        decide(true, &unjoined(), unknown()),
        Err(require_joined(&unjoined(), "/h/c.json").unwrap_err())
    );
    assert_eq!(
        decide(true, &greedy, unknown()),
        Err("no sysctl".to_string())
    );
    let too_many = Err("requested 9 cores but machine has 8".to_string());
    assert_eq!(decide(true, &greedy, Ok(host)), too_many);
    assert_eq!(lost(&greedy), too_many);
    assert_eq!(lost(&joined), Err("no binary".to_string()));
}
