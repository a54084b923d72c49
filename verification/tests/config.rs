use velos::config::{
    default_path, missing_config, prepare_setup, redacted, resolve_setup, set_fields, startup,
    Edits, Field, SetError, SetupError, StartError,
};
use velos::daemon::{Bearer, JoinError, WorkerConfig};
use velos::host::{CapacityError, HostResources};
use velos::memory::Memory;

fn base() -> WorkerConfig {
    WorkerConfig {
        server: "http://h:8088".to_string(),
        node: "node-a".to_string(),
        token: None,
        credential: None,
        cpu: 4,
        memory: Memory::from_bytes(8 * 1024 * 1024 * 1024),
        reconcile_secs: 5,
        heartbeat_secs: 10,
        lease_secs: 40,
    }
}

#[test]
fn every_field_reads_back_what_was_set() {
    // Walks every field, so one without a `read` arm or without an edit shows up here.
    let edits = Edits {
        server: Some("http://other:9000".to_string()),
        node: Some("node-b".to_string()),
        cpu: Some(12),
        memory: Some(Memory::from_bytes(16 * 1024 * 1024 * 1024)),
        reconcile_secs: Some(7),
        heartbeat_secs: Some(14),
        lease_secs: Some(60),
    };
    let updated = edits.clone().apply(&base()).unwrap();
    let expected = [
        (Field::Server, "http://other:9000"),
        (Field::Node, "node-b"),
        (Field::Cpu, "12"),
        (Field::Memory, "16G"),
        (Field::ReconcileSecs, "7"),
        (Field::HeartbeatSecs, "14"),
        (Field::LeaseSecs, "60"),
    ];
    for (field, want) in expected {
        assert_eq!(field.read(&updated), want, "{field:?}");
    }
    assert_eq!(edits.touched().len(), expected.len());
}

#[test]
fn an_empty_edit_is_recognised_as_empty() {
    assert!(Edits::default().is_empty());
    assert!(Edits::default().touched().is_empty());
    assert!(
        !Edits {
            cpu: Some(2),
            ..Default::default()
        }
        .is_empty()
    );
}

#[test]
fn setting_one_field_leaves_the_rest_alone() {
    let cfg = base();
    let updated = Edits {
        cpu: Some(2),
        ..Default::default()
    }
    .apply(&cfg)
    .unwrap();
    assert_eq!(updated.cpu, 2);
    assert_eq!(updated.server, cfg.server);
    assert_eq!(updated.node, cfg.node);
    assert_eq!(updated.memory, cfg.memory);
    assert_eq!(updated.lease_secs, cfg.lease_secs);
}

#[test]
fn renaming_a_joined_worker_is_refused() {
    let joined = base().with_credential("node-a.secret".to_string());
    let err = Edits {
        node: Some("node-b".to_string()),
        ..Default::default()
    }
    .apply(&joined)
    .unwrap_err()
    .message();
    assert!(err.contains("node-a"), "{err}");
    assert!(err.contains("veloslet setup"), "{err}");
}

#[test]
fn renaming_an_unjoined_worker_is_allowed() {
    let updated = Edits {
        node: Some("node-b".to_string()),
        ..Default::default()
    }
    .apply(&base())
    .unwrap();
    assert_eq!(updated.node, "node-b");
}

#[test]
fn setting_the_same_name_on_a_joined_worker_is_not_a_rename() {
    let joined = base().with_credential("node-a.secret".to_string());
    let updated = Edits {
        node: Some("node-a".to_string()),
        cpu: Some(6),
        ..Default::default()
    }
    .apply(&joined)
    .unwrap();
    assert_eq!(updated.cpu, 6);
    assert_eq!(updated.credential, joined.credential);
}


const HOST: HostResources = HostResources {
    cpu: 8,
    memory_bytes: 16 * 1024 * 1024 * 1024,
};

fn joined() -> WorkerConfig {
    WorkerConfig {
        credential: Some("node-a.secret".to_string()),
        ..base()
    }
}

fn all_four() -> Edits {
    Edits {
        server: Some("http://s:1".to_string()),
        node: Some("n".to_string()),
        cpu: Some(2),
        memory: Some(Memory::from_bytes(1024)),
        ..Edits::default()
    }
}

#[test]
fn the_config_lies_below_home() {
    assert_eq!(default_path("/Users/me"), "/Users/me/.velos/veloslet.json");
    assert_eq!(
        missing_config("/c.json"),
        "no worker config at /c.json — run `veloslet setup --server <url> --node <name> --token <token> --cpu <n> --memory <size>` first"
    );
}

#[test]
fn a_refused_rename_names_both_workers() {
    let edits = Edits {
        node: Some("b\"x".to_string()),
        ..Edits::default()
    };
    let e = edits.apply(&joined()).unwrap_err();
    assert_eq!(
        e.message(),
        "this worker joined as \"node-a\", and its credential is bound to that name — renaming it here would leave it unable to authenticate. Run `veloslet setup --node b\"x --token <new token> ...` to join again as \"b\\\"x\""
    );
}

#[test]
fn edits_are_refused_for_a_reason() {
    let edit = |cpu| Edits {
        cpu,
        ..Edits::default()
    };
    assert_eq!(
        set_fields(Edits::default(), &base(), Ok(HOST)),
        Err(SetError::Nothing)
    );
    assert_eq!(
        SetError::Nothing.message(),
        "nothing to set — pass at least one field, e.g. `--cpu 8` (see --help)"
    );
    assert_eq!(set_fields(edit(Some(8)), &base(), Ok(HOST)).unwrap().cpu, 8);
    let e = set_fields(edit(Some(9)), &base(), Ok(HOST)).unwrap_err();
    assert_eq!(e.message(), "requested 9 cores but machine has 8");
    let rename = Edits {
        node: Some("other".to_string()),
        ..Edits::default()
    };
    assert!(matches!(
        set_fields(rename, &joined(), Ok(HOST)),
        Err(SetError::Rename(e)) if e.joined == "node-a" && e.wanted == "other"
    ));
}

#[test]
fn a_first_setup_reports_all_that_is_missing() {
    let e = resolve_setup(Edits::default(), None).unwrap_err();
    assert_eq!(
        e.message(),
        "there is no worker config yet, so these are required: --server, --node, --cpu, --memory"
    );
    let some = Edits {
        node: None,
        memory: None,
        ..all_four()
    };
    assert_eq!(
        resolve_setup(some, None).unwrap_err().names,
        vec!["--node", "--memory"]
    );
    let cfg = resolve_setup(all_four(), None).unwrap();
    assert_eq!(
        (cfg.reconcile_secs, cfg.heartbeat_secs, cfg.lease_secs),
        (5, 10, 40)
    );
    assert!(!cfg.is_connected());
}

#[test]
fn setting_up_again_falls_back_to_the_config() {
    let cfg = resolve_setup(Edits::default(), Some(joined())).unwrap();
    assert_eq!(cfg, base());
    let renamed = Edits {
        node: Some("node-b".to_string()),
        lease_secs: Some(7),
        ..Edits::default()
    };
    let cfg = resolve_setup(renamed, Some(joined())).unwrap();
    assert_eq!(cfg.node, "node-b");
    assert_eq!(cfg.lease_secs, 7);
    assert_eq!(cfg.server, base().server);
    assert_eq!(cfg.credential, None);
}

#[test]
fn impossible_capacity_is_refused_before_joining() {
    let greedy = Edits {
        memory: Some(Memory::from_bytes(32 * 1024 * 1024 * 1024)),
        ..all_four()
    };
    let e = prepare_setup(greedy, None, Ok(HOST)).unwrap_err();
    assert_eq!(e.message(), "requested 32G memory but machine has 16G");
    assert!(matches!(
        prepare_setup(Edits::default(), None, Ok(HOST)),
        Err(SetupError::Missing(m)) if m.names.len() == 4
    ));
    assert!(prepare_setup(all_four(), None, Ok(HOST)).is_ok());
}

#[test]
fn a_worker_starts_with_its_secret_or_not_at_all() {
    assert!(startup(&joined(), HOST) == Ok(Bearer::Credential("node-a.secret".to_string())));
    assert!(startup(&base(), HOST) == Err(StartError::Join(JoinError::NoSecret)));
    let idle = WorkerConfig { cpu: 0, ..joined() };
    let refused = startup(&idle, HOST).err().unwrap();
    assert_eq!(refused, StartError::Capacity(CapacityError::NoCpu));
    assert_eq!(refused.message(), "cpu must be at least 1");
    assert_eq!(
        StartError::Join(JoinError::NoSecret).message(),
        JoinError::NoSecret.message()
    );
}

#[test]
fn showing_masks_the_credential() {
    let shown = redacted(&joined());
    assert_eq!(shown.credential, Some("<set — hidden>".to_string()));
    assert_eq!(
        WorkerConfig {
            credential: joined().credential,
            ..shown
        },
        joined()
    );
    assert_eq!(redacted(&base()), base());
}

#[test]
fn editing_twice_is_editing_once() {
    let once = all_four().apply(&base()).unwrap();
    assert_eq!(all_four().apply(&once).unwrap(), once);
    assert_eq!(Edits::default().apply(&joined()).unwrap(), joined());
}

#[test]
fn a_host_that_cannot_be_measured_counts_last() {
    let unknown = || Err("no sysctl".to_string());
    assert_eq!(
        set_fields(Edits::default(), &base(), unknown()),
        Err(SetError::Nothing)
    );
    let rename = Edits {
        node: Some("other".to_string()),
        ..Edits::default()
    };
    assert!(matches!(
        set_fields(rename, &joined(), unknown()),
        Err(SetError::Rename(_))
    ));
    let e = set_fields(all_four(), &base(), unknown()).unwrap_err();
    assert_eq!(e, SetError::Host("no sysctl".to_string()));
    assert_eq!(e.message(), "no sysctl");
    assert!(matches!(
        prepare_setup(Edits::default(), None, unknown()),
        Err(SetupError::Missing(_))
    ));
    let e = prepare_setup(all_four(), None, unknown()).unwrap_err();
    assert_eq!(e.message(), "no sysctl");
}
