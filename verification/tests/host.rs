use velos::daemon::WorkerConfig;
use velos::host::{
    detect_host, detect_system_info, registration, server_host_port, validate_capacity,
    CapacityError, HostResources, SystemInfo,
};
use velos::json::parse;
use velos::memory::Memory;

const GB: u64 = 1024 * 1024 * 1024;

fn host() -> HostResources {
    HostResources {
        cpu: 8,
        memory_bytes: 16 * GB,
    }
}

#[test]
fn accepts_capacity_within_host() {
    assert!(validate_capacity(8, Memory::from_bytes(16 * GB), host()).is_ok());
    assert!(validate_capacity(1, Memory::from_bytes(GB), host()).is_ok());
}

#[test]
fn rejects_too_many_cores() {
    assert!(validate_capacity(9, Memory::from_bytes(GB), host()).is_err());
}

#[test]
fn rejects_too_much_memory() {
    assert!(validate_capacity(1, Memory::from_bytes(32 * GB), host()).is_err());
}

#[test]
fn rejects_zero() {
    assert!(validate_capacity(0, Memory::from_bytes(GB), host()).is_err());
    assert!(validate_capacity(1, Memory::from_bytes(0), host()).is_err());
}

#[test]
fn server_url_splits_into_host_and_port() {
    assert_eq!(
        server_host_port("http://192.168.68.60:8088"),
        Some("192.168.68.60:8088".to_string())
    );
    assert_eq!(
        server_host_port("http://velos.lan/api"),
        Some("velos.lan:80".to_string())
    );
    assert_eq!(
        server_host_port("https://velos.example.com"),
        Some("velos.example.com:443".to_string())
    );
    assert_eq!(server_host_port("velos.lan:8088"), None, "scheme required");
}


#[test]
fn capacity_errors_say_what_is_wrong() {
    let problem = |cpu: u32, bytes: u64| {
        validate_capacity(cpu, Memory::from_bytes(bytes), host())
            .unwrap_err()
            .message()
    };
    assert_eq!(problem(0, 0), "cpu must be at least 1");
    assert_eq!(problem(9, 0), "requested 9 cores but machine has 8");
    assert_eq!(problem(8, 0), "memory must be greater than 0");
    assert_eq!(
        problem(8, 17 * GB),
        "requested 17G memory but machine has 16G"
    );
    assert_eq!(
        validate_capacity(8, Memory::from_bytes(16 * GB), host()),
        Ok(())
    );
    assert_eq!(
        validate_capacity(9, Memory::from_bytes(1), host()),
        Err(CapacityError::TooManyCores {
            cores: 9,
            host_cores: 8,
        })
    );
}

#[test]
fn what_sysctl_prints_is_read() {
    assert_eq!(
        detect_host("8\n", " 17179869184 \n"),
        Ok(HostResources {
            cpu: 8,
            memory_bytes: 16 * GB,
        })
    );
    assert_eq!(detect_host("4294967296", "1").unwrap().cpu, u32::MAX);
    let e = detect_host("eight\n", "1").unwrap_err();
    assert_eq!(e.message(), "parsing sysctl hw.logicalcpu output \"eight\"");
    let e = detect_host("8", "a\"b").unwrap_err();
    assert_eq!(e.message(), "parsing sysctl hw.memsize output \"a\\\"b\"");
}

#[test]
fn system_info_falls_back_to_placeholders() {
    let text = |s: &str| Some(s.to_string());
    assert_eq!(
        detect_system_info("0.1.0", &text("15.1\n"), &text("arm64\n"), &text("mac\n")),
        SystemInfo {
            agent_version: "0.1.0".to_string(),
            os: "macOS 15.1".to_string(),
            arch: "arm64".to_string(),
            hostname: "mac".to_string(),
        }
    );
    let unknown = detect_system_info("0.1.0", &None, &None, &None);
    assert_eq!(unknown.os, "macOS");
    assert_eq!(unknown.arch, "unknown");
    assert_eq!(unknown.hostname, "unknown");
}

#[test]
fn a_registration_says_who_and_where() {
    let cfg = WorkerConfig {
        server: "http://h:1".to_string(),
        node: "w1".to_string(),
        token: None,
        credential: None,
        cpu: 4,
        memory: Memory::from_bytes(8 * GB),
        reconcile_secs: 5,
        heartbeat_secs: 10,
        lease_secs: 40,
    };
    let sys = detect_system_info("0.1.0", &None, &None, &None);
    let body = registration(&cfg, "1.0.0", &sys, &Some("10.0.0.5".to_string()));
    let want = parse(
        r#"{"name": "w1", "capacity": {"cpu": 4, "memoryBytes": 8589934592},
            "addresses": ["10.0.0.5"], "containerRuntimeVersion": "1.0.0",
            "nodeInfo": {"agentVersion": "0.1.0", "os": "macOS", "arch": "unknown", "hostname": "unknown"}}"#,
    )
    .unwrap();
    for key in ["name", "capacity", "addresses", "containerRuntimeVersion"] {
        assert_eq!(body.get(key), want.get(key), "{key}");
    }
    for key in ["agentVersion", "os", "arch", "hostname"] {
        assert_eq!(body.at(&["nodeInfo", key]), want.at(&["nodeInfo", key]));
    }
    assert_eq!(body.as_object().unwrap().len(), 5);
    let nowhere = registration(&cfg, "unknown", &sys, &None);
    assert!(nowhere.get("addresses").unwrap().as_array().unwrap().is_empty());
}
