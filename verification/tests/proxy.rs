use velos::proxy::{
    next_backend, plan_bindings, LocalContainer, NodeProxy, ProxyBinding, Route, ServicePortView,
    ServiceView,
};

fn svc(name: &str, selector: &[(&str, &str)], ports: &[(u16, u16)]) -> ServiceView {
    ServiceView {
        name: name.to_string(),
        selector: selector
            .iter()
            .map(|(k, v)| (k.to_string(), v.to_string()))
            .collect(),
        ports: ports
            .iter()
            .map(|(n, t)| ServicePortView {
                node_port: *n,
                target_port: *t,
            })
            .collect(),
    }
}

fn local(labels: &[(&str, &str)], ip: Option<&str>) -> LocalContainer {
    LocalContainer {
        labels: labels
            .iter()
            .map(|(k, v)| (k.to_string(), v.to_string()))
            .collect(),
        ip: ip.map(str::to_string),
    }
}

#[test]
fn a_selected_running_container_becomes_a_backend() {
    let got = plan_bindings(
        &[svc("web", &[("app", "web")], &[(31000, 8080)])],
        &[local(&[("app", "web")], Some("192.168.64.5"))],
    );
    assert_eq!(
        got,
        vec![ProxyBinding {
            node_port: 31000,
            service: "web".to_string(),
            backends: vec!["192.168.64.5:8080".to_string()],
        }]
    );
}

#[test]
fn replicas_on_one_worker_all_become_backends() {
    let got = plan_bindings(
        &[svc("web", &[("app", "web")], &[(31000, 8080)])],
        &[
            local(&[("app", "web")], Some("192.168.64.5")),
            local(&[("app", "web")], Some("192.168.64.6")),
        ],
    );
    assert_eq!(
        got[0].backends,
        vec!["192.168.64.5:8080", "192.168.64.6:8080"]
    );
}

#[test]
fn a_container_without_an_address_is_not_a_backend() {
    // A hibernated or not-yet-started instance has no address. Binding the
    // port anyway would accept traffic with nowhere to send it, which reads
    // to a load balancer as a healthy backend returning errors.
    let got = plan_bindings(
        &[svc("web", &[("app", "web")], &[(31000, 8080)])],
        &[local(&[("app", "web")], None)],
    );
    assert!(got.is_empty());
}

#[test]
fn labels_must_match_every_selector_entry() {
    let got = plan_bindings(
        &[svc(
            "web",
            &[("app", "web"), ("tier", "front")],
            &[(31000, 8080)],
        )],
        &[
            local(&[("app", "web")], Some("192.168.64.5")),
            local(&[("app", "web"), ("tier", "front")], Some("192.168.64.6")),
        ],
    );
    assert_eq!(got[0].backends, vec!["192.168.64.6:8080"]);
}

#[test]
fn an_empty_selector_selects_nothing() {
    // Admission rejects an empty selector, so this can only arrive from a
    // document written before that rule or by another writer. Matching
    // everything would publish unrelated containers under this name.
    let got = plan_bindings(
        &[svc("web", &[], &[(31000, 8080)])],
        &[local(&[("app", "web")], Some("192.168.64.5"))],
    );
    assert!(got.is_empty());
}

#[test]
fn sync_binds_stops_and_rebuilds_on_reassignment() {
    let binding = |service: &str| ProxyBinding {
        node_port: 31111,
        service: service.to_string(),
        backends: vec!["127.0.0.1:9".to_string()],
    };
    // A sync on a machine where every port can be bound; returns the stopped ports.
    let sync = |proxy: &mut NodeProxy, desired: Vec<ProxyBinding>| -> Vec<u16> {
        let stopped = proxy.retire(&desired).iter().map(|b| b.node_port).collect();
        for b in &desired {
            if proxy.route(b) == Route::Bind {
                proxy.opened(b);
            }
        }
        stopped
    };
    let mut proxy = NodeProxy::new();
    assert!(sync(&mut proxy, vec![binding("web")]).is_empty());
    assert_eq!(proxy.bound_ports(), vec![31111]);

    // Same port, different owner → the old listener must go, or the new
    // Service silently inherits the previous one's routes.
    assert_eq!(sync(&mut proxy, vec![binding("api")]), vec![31111]);
    assert_eq!(proxy.bound_ports(), vec![31111]);
    let held = proxy.retire(&[]);
    assert_eq!(held.len(), 1);
    assert_eq!(held[0].service, "api");

    assert!(sync(&mut proxy, Vec::new()).is_empty());
    assert!(proxy.bound_ports().is_empty());
}

fn one(port: u16, service: &str, backends: &[&str]) -> ProxyBinding {
    ProxyBinding {
        node_port: port,
        service: service.to_string(),
        backends: backends.iter().map(|b| b.to_string()).collect(),
    }
}

#[test]
fn backends_are_ordered_and_each_counts_once() {
    let got = plan_bindings(
        &[svc("web", &[("app", "web")], &[(31000, 80)])],
        &[
            local(&[("app", "web")], Some("10.0.0.9")),
            local(&[("app", "web")], Some("10.0.0.10")),
            local(&[("app", "web")], Some("10.0.0.9")),
        ],
    );
    assert_eq!(
        got,
        vec![one(31000, "web", &["10.0.0.10:80", "10.0.0.9:80"])]
    );
}

#[test]
fn the_plan_is_ordered_by_port() {
    let got = plan_bindings(
        &[
            svc("b", &[("app", "web")], &[(31002, 80), (31000, 81)]),
            svc("a", &[("app", "web")], &[(31001, 82)]),
        ],
        &[local(&[("app", "web")], Some("10.0.0.1"))],
    );
    let ports: Vec<u16> = got.iter().map(|b| b.node_port).collect();
    assert_eq!(ports, vec![31000, 31001, 31002]);
    assert_eq!(got[0].backends, vec!["10.0.0.1:81".to_string()]);
}

#[test]
fn new_backends_are_no_rebind() {
    let mut proxy = NodeProxy::default();
    let first = one(31000, "web", &["10.0.0.1:80"]);
    assert_eq!(proxy.route(&first), Route::Bind);
    // A port that could not be bound is tried again.
    assert_eq!(proxy.route(&first), Route::Bind);
    proxy.opened(&first);
    let moved = one(31000, "web", &["10.0.0.2:80"]);
    assert!(proxy.retire(&[one(31000, "web", &["10.0.0.2:80"])]).is_empty());
    assert_eq!(proxy.route(&moved), Route::Update);
    assert_eq!(proxy.retire(&[]), vec![moved]);
    assert!(proxy.bound_ports().is_empty());
}

#[test]
fn ports_are_listed_in_order() {
    let mut proxy = NodeProxy::new();
    for port in [31005, 31001, 31003] {
        proxy.opened(&one(port, "s", &["10.0.0.1:80"]));
    }
    assert_eq!(proxy.bound_ports(), vec![31001, 31003, 31005]);
    let stopped = proxy.retire(&[one(31003, "s", &[])]);
    assert_eq!(stopped.len(), 2);
    assert_eq!(proxy.bound_ports(), vec![31003]);
}

#[test]
fn backends_take_turns() {
    let backends = vec!["a".to_string(), "b".to_string(), "c".to_string()];
    let picked: Vec<&str> = (0..5)
        .map(|turn| next_backend(&backends, turn).unwrap().as_str())
        .collect();
    assert_eq!(picked, vec!["a", "b", "c", "a", "b"]);
    assert_eq!(
        next_backend(&backends, usize::MAX),
        Some(&backends[usize::MAX % 3])
    );
    assert_eq!(next_backend(&vec![], 0), None);
}

#[test]
fn a_plan_is_of_the_containers_with_an_address() {
    let services = [svc("web", &[("app", "web")], &[(31000, 80)])];
    let a = || local(&[("app", "web")], Some("10.0.0.1"));
    let b = || local(&[("app", "web")], Some("10.0.0.2"));
    let nowhere = || local(&[("app", "web")], None);
    let want = plan_bindings(&services, &[a(), b()]);
    assert_eq!(plan_bindings(&services, &[b(), a()]), want);
    assert_eq!(
        plan_bindings(&services, &[b(), nowhere(), a(), b(), nowhere()]),
        want
    );
}

#[test]
fn a_port_that_cannot_be_bound_takes_no_other_down() {
    let mut proxy = NodeProxy::new();
    let desired = [one(31000, "a", &["x:1"]), one(31001, "b", &["y:1"])];
    for round in 0..2 {
        assert!(proxy.retire(&desired).is_empty());
        for b in &desired {
            // 31000 is taken by another program.
            if proxy.route(b) == Route::Bind && b.node_port != 31000 {
                proxy.opened(b);
            }
        }
        assert_eq!(proxy.bound_ports(), vec![31001], "round {round}");
    }
}
