use velos::labels::Labels;
use velos::scheduler::{
    evaluate, requirement_matches, schedule, unschedulable_reason, NodeSelectorOperator,
    NodeSelectorRequirement, NodeSelectorTerm, Placement, PlacementRequest,
    PreferredSchedulingTerm, RejectReason, ResourceRequest, Taint, TaintEffect, Toleration,
    TolerationOperator, WorkerName, WorkerView,
};

const GB: u64 = 1024 * 1024 * 1024;

fn wv(
    name: &str,
    ready: bool,
    unsched: bool,
    cpu: u32,
    mem: u64,
    used_cpu: u32,
    used_mem: u64,
) -> WorkerView {
    WorkerView {
        name: WorkerName(name.into()),
        ready,
        unschedulable: unsched,
        allocatable: ResourceRequest {
            cpu,
            memory_bytes: mem,
        },
        allocated: ResourceRequest {
            cpu: used_cpu,
            memory_bytes: used_mem,
        },
        labels: Labels::new(),
        taints: Vec::new(),
    }
}

fn wv_labeled(name: &str, labels: &[(&str, &str)]) -> WorkerView {
    let mut w = wv(name, true, false, 8, 16 * GB, 0, 0);
    w.labels = Labels::from_pairs(
        labels
            .iter()
            .map(|(k, v)| (k.to_string(), v.to_string()))
            .collect(),
    );
    w
}

fn wv_tainted(name: &str, taints: Vec<Taint>) -> WorkerView {
    let mut w = wv(name, true, false, 8, 16 * GB, 0, 0);
    w.taints = taints;
    w
}

fn term(key: &str, op: NodeSelectorOperator, vals: &[&str]) -> NodeSelectorTerm {
    NodeSelectorTerm {
        match_expressions: vec![NodeSelectorRequirement {
            key: key.into(),
            operator: op,
            values: vals.iter().map(|s| s.to_string()).collect(),
        }],
    }
}

fn pref(weight: i32, t: NodeSelectorTerm) -> PreferredSchedulingTerm {
    PreferredSchedulingTerm {
        weight,
        preference: t,
    }
}

fn req(cpu: u32, mem: u64) -> PlacementRequest {
    PlacementRequest {
        resources: ResourceRequest {
            cpu,
            memory_bytes: mem,
        },
        node_name: None,
        node_selector: Vec::new(),
        required: Vec::new(),
        preferred: Vec::new(),
        tolerations: Vec::new(),
    }
}

#[test]
fn picks_first_fitting_ready_worker() {
    let workers = vec![
        wv("w1", true, false, 1, 8 * GB, 0, 0),
        wv("w2", true, false, 4, 8 * GB, 0, 0),
    ];
    assert_eq!(
        schedule(&req(2, 2 * GB), &workers),
        Placement::Scheduled(WorkerName("w2".into()))
    );
}

#[test]
fn skips_not_ready_and_unschedulable() {
    let workers = vec![
        wv("w1", false, false, 8, 16 * GB, 0, 0),
        wv("w2", true, true, 8, 16 * GB, 0, 0),
        wv("w3", true, false, 8, 16 * GB, 0, 0),
    ];
    assert_eq!(
        schedule(&req(1, GB), &workers),
        Placement::Scheduled(WorkerName("w3".into()))
    );
}

#[test]
fn none_when_nothing_fits() {
    let workers = vec![wv("w1", true, false, 8, 16 * GB, 0, 0)];
    assert!(matches!(
        schedule(&req(64, 256 * GB), &workers),
        Placement::Unschedulable { .. }
    ));
}

#[test]
fn honors_node_name_pin() {
    let workers = vec![
        wv("w1", true, false, 8, 16 * GB, 0, 0),
        wv("w2", true, false, 8, 16 * GB, 0, 0),
    ];
    let mut r = req(1, GB);
    r.node_name = Some(WorkerName("w2".into()));
    assert_eq!(
        schedule(&r, &workers),
        Placement::Scheduled(WorkerName("w2".into()))
    );
}

#[test]
fn pin_to_full_worker_is_unschedulable_not_forced() {
    // w2 has no free cpu (1 core, 1 used); the pin must not force placement.
    let workers = vec![
        wv("w1", true, false, 8, 16 * GB, 0, 0),
        wv("w2", true, false, 1, GB, 1, GB),
    ];
    let mut r = req(1, GB);
    r.node_name = Some(WorkerName("w2".into()));
    assert!(matches!(
        schedule(&r, &workers),
        Placement::Unschedulable { .. }
    ));
}

#[test]
fn node_selector_excludes_non_matching() {
    let workers = vec![
        wv_labeled("w1", &[("gpu", "false")]),
        wv_labeled("w2", &[("gpu", "true")]),
    ];
    let mut r = req(1, GB);
    r.node_selector = vec![("gpu".into(), "true".into())];
    assert_eq!(
        schedule(&r, &workers),
        Placement::Scheduled(WorkerName("w2".into()))
    );
}

#[test]
fn required_affinity_operators() {
    let w = wv_labeled("w", &[("zone", "us"), ("cores", "8")]);
    let cases: &[(NodeSelectorTerm, bool)] = &[
        (term("zone", NodeSelectorOperator::In, &["us", "eu"]), true),
        (term("zone", NodeSelectorOperator::In, &["eu"]), false),
        (term("zone", NodeSelectorOperator::NotIn, &["eu"]), true),
        (term("zone", NodeSelectorOperator::NotIn, &["us"]), false),
        (term("gpu", NodeSelectorOperator::NotIn, &["true"]), true), // absent key: NotIn matches
        (term("zone", NodeSelectorOperator::Exists, &[]), true),
        (term("gpu", NodeSelectorOperator::Exists, &[]), false),
        (term("gpu", NodeSelectorOperator::DoesNotExist, &[]), true),
        (term("zone", NodeSelectorOperator::DoesNotExist, &[]), false),
        (term("cores", NodeSelectorOperator::Gt, &["4"]), true),
        (term("cores", NodeSelectorOperator::Gt, &["8"]), false),
        (term("cores", NodeSelectorOperator::Lt, &["16"]), true),
        (term("zone", NodeSelectorOperator::Gt, &["4"]), false), // non-integer label: no match
    ];
    for (t, want) in cases {
        let mut r = req(1, GB);
        r.required = vec![t.clone()];
        let got = matches!(
            schedule(&r, std::slice::from_ref(&w)),
            Placement::Scheduled(_)
        );
        assert_eq!(got, *want, "term {t:?}");
    }
}

#[test]
fn required_terms_are_ored_expressions_anded() {
    let w = wv_labeled("w", &[("a", "1"), ("b", "2")]);
    // Two terms OR'd: second matches -> scheduled.
    let mut r = req(1, GB);
    r.required = vec![
        term("a", NodeSelectorOperator::In, &["9"]),
        term("b", NodeSelectorOperator::In, &["2"]),
    ];
    assert!(matches!(
        schedule(&r, std::slice::from_ref(&w)),
        Placement::Scheduled(_)
    ));
    // One term, two expressions AND'd: one fails -> unschedulable.
    r.required = vec![NodeSelectorTerm {
        match_expressions: vec![
            NodeSelectorRequirement {
                key: "a".into(),
                operator: NodeSelectorOperator::In,
                values: vec!["1".into()],
            },
            NodeSelectorRequirement {
                key: "b".into(),
                operator: NodeSelectorOperator::In,
                values: vec!["9".into()],
            },
        ],
    }];
    assert!(matches!(
        schedule(&r, std::slice::from_ref(&w)),
        Placement::Unschedulable { .. }
    ));
}

#[test]
fn no_schedule_taint_blocks_unless_tolerated() {
    let taint = Taint {
        key: "gpu".into(),
        value: "true".into(),
        effect: TaintEffect::NoSchedule,
    };
    let w = wv_tainted("w", vec![taint.clone()]);

    // No toleration -> blocked.
    assert!(matches!(
        schedule(&req(1, GB), std::slice::from_ref(&w)),
        Placement::Unschedulable { .. }
    ));

    // Equal match -> ok.
    let mut r = req(1, GB);
    r.tolerations = vec![Toleration {
        key: "gpu".into(),
        operator: TolerationOperator::Equal,
        value: "true".into(),
        effect: Some(TaintEffect::NoSchedule),
    }];
    assert!(matches!(
        schedule(&r, std::slice::from_ref(&w)),
        Placement::Scheduled(_)
    ));

    // Equal wrong value -> blocked.
    let mut r = req(1, GB);
    r.tolerations = vec![Toleration {
        key: "gpu".into(),
        operator: TolerationOperator::Equal,
        value: "false".into(),
        effect: None,
    }];
    assert!(matches!(
        schedule(&r, std::slice::from_ref(&w)),
        Placement::Unschedulable { .. }
    ));

    // Exists by key -> ok.
    let mut r = req(1, GB);
    r.tolerations = vec![Toleration {
        key: "gpu".into(),
        operator: TolerationOperator::Exists,
        value: String::new(),
        effect: None,
    }];
    assert!(matches!(
        schedule(&r, std::slice::from_ref(&w)),
        Placement::Scheduled(_)
    ));

    // Empty-key Exists tolerates everything -> ok.
    let mut r = req(1, GB);
    r.tolerations = vec![Toleration {
        key: String::new(),
        operator: TolerationOperator::Exists,
        value: String::new(),
        effect: None,
    }];
    assert!(matches!(
        schedule(&r, std::slice::from_ref(&w)),
        Placement::Scheduled(_)
    ));
}

#[test]
fn preferred_affinity_picks_higher_score() {
    let w1 = wv_labeled("w1", &[("fast", "false")]);
    let w2 = wv_labeled("w2", &[("fast", "true")]);
    let mut r = req(1, GB);
    r.preferred = vec![pref(50, term("fast", NodeSelectorOperator::In, &["true"]))];
    // w1 is first in order but w2 scores higher -> w2 wins.
    assert_eq!(
        schedule(&r, &[w1, w2]),
        Placement::Scheduled(WorkerName("w2".into()))
    );
}

#[test]
fn zero_preference_keeps_first_fit_order() {
    let w1 = wv_labeled("w1", &[("fast", "true")]);
    let w2 = wv_labeled("w2", &[("fast", "true")]);
    // No preferred terms -> both score 0 -> first in order wins.
    assert_eq!(
        schedule(&req(1, GB), &[w1, w2]),
        Placement::Scheduled(WorkerName("w1".into()))
    );
}

#[test]
fn prefer_no_schedule_penalizes_but_allows() {
    let clean = wv("w1", true, false, 8, 16 * GB, 0, 0);
    let tainted = wv_tainted(
        "w2",
        vec![Taint {
            key: "spot".into(),
            value: String::new(),
            effect: TaintEffect::PreferNoSchedule,
        }],
    );
    // Put tainted first; the penalty should still make the clean worker win.
    assert_eq!(
        schedule(&req(1, GB), &[tainted, clean]),
        Placement::Scheduled(WorkerName("w1".into()))
    );
}

#[test]
fn unschedulable_reason_tallies_causes() {
    let workers = vec![
        wv("w1", false, false, 8, 16 * GB, 0, 0), // NotReady
        wv_labeled("w2", &[("gpu", "false")]),    // LabelMismatch
        wv("w3", true, false, 1, GB, 0, 0),       // InsufficientCpu
    ];
    let mut r = req(2, GB);
    r.node_selector = vec![("gpu".into(), "true".into())];
    let Placement::Unschedulable { reason } = schedule(&r, &workers) else {
        panic!("expected unschedulable");
    };
    assert!(reason.starts_with("0/3 workers available:"), "{reason}");
    assert!(reason.contains("NotReady"), "{reason}");
    assert!(reason.contains("didn't match nodeSelector"), "{reason}");
    assert!(reason.contains("insufficient cpu"), "{reason}");
}

#[test]
fn no_workers_registered_reason() {
    let Placement::Unschedulable { reason } = schedule(&req(1, GB), &[]) else {
        panic!("expected unschedulable");
    };
    assert_eq!(reason, "no workers registered");
}

#[test]
fn the_first_of_two_equal_workers_wins() {
    let ws = [
        wv_labeled("a", &[("zone", "eu")]),
        wv_labeled("b", &[("zone", "us")]),
        wv_labeled("c", &[("zone", "us")]),
    ];
    let mut r = req(1, 1);
    r.preferred = vec![pref(10, term("zone", NodeSelectorOperator::In, &["us"]))];
    assert_eq!(
        schedule(&r, &ws),
        Placement::Scheduled(WorkerName("b".to_string()))
    );
    // A negative weight repels, but excludes nothing.
    r.preferred = vec![pref(-10, term("zone", NodeSelectorOperator::In, &["us"]))];
    assert_eq!(
        schedule(&r, &ws),
        Placement::Scheduled(WorkerName("a".to_string()))
    );
    assert_eq!(
        schedule(&r, &ws[1..]),
        Placement::Scheduled(WorkerName("b".to_string()))
    );
}

#[test]
fn a_blanket_toleration_covers_every_taint() {
    let taint = |effect| Taint {
        key: "gpu".to_string(),
        value: "true".to_string(),
        effect,
    };
    let ws = [
        wv_tainted(
            "a",
            vec![
                taint(TaintEffect::NoSchedule),
                taint(TaintEffect::PreferNoSchedule),
            ],
        ),
        wv_labeled("b", &[]),
    ];
    let mut r = req(1, 1);
    r.tolerations = vec![Toleration {
        key: String::new(),
        operator: TolerationOperator::Exists,
        value: String::new(),
        effect: None,
    }];
    assert_eq!(
        schedule(&r, &ws),
        Placement::Scheduled(WorkerName("a".to_string()))
    );
    // Limited to one effect, it leaves the other taint's penalty.
    r.tolerations[0].effect = Some(TaintEffect::NoSchedule);
    assert_eq!(
        schedule(&r, &ws),
        Placement::Scheduled(WorkerName("b".to_string()))
    );
}

#[test]
fn every_rejection_is_counted_in_order_of_appearance() {
    let mut cordoned = wv_labeled("a", &[]);
    cordoned.unschedulable = true;
    let mut down = wv_labeled("b", &[]);
    down.ready = false;
    let mut also_down = wv_labeled("c", &[]);
    also_down.ready = false;
    // Overcommitted: nothing is free, rather than an underflow.
    let mut full = wv_labeled("d", &[]);
    full.allocated.cpu = full.allocatable.cpu + 1;
    let got = schedule(&req(1, 1), &[cordoned, down, full, also_down]);
    assert_eq!(
        got,
        Placement::Unschedulable {
            reason: "0/4 workers available: 1 cordoned, 2 NotReady, 1 insufficient cpu".to_string(),
        }
    );
}

#[test]
fn the_later_label_of_a_key_counts() {
    let mut labels = Labels::default();
    labels.insert("zone".to_string(), "eu".to_string());
    labels.insert("zone".to_string(), "us".to_string());
    assert_eq!(labels.get("zone"), Some(&"us".to_string()));
    assert_eq!(labels.get("other"), None);
    let same = Labels::from_pairs(vec![("k".to_string(), "v".to_string())]);
    assert_eq!(same.clone().get("k"), Some(&"v".to_string()));
}

#[test]
fn weights_are_summed_without_overflow() {
    let any = || NodeSelectorTerm {
        match_expressions: vec![],
    };
    let us = || term("zone", NodeSelectorOperator::In, &["us"]);
    let ws = [
        wv_labeled("w", &[]),
        wv_labeled("v", &[("zone", "us")]),
    ];
    let mut r = req(1, 1);
    r.preferred = vec![pref(i32::MAX, any()), pref(1, any())];
    assert_eq!(
        schedule(&r, &ws[..1]),
        Placement::Scheduled(WorkerName("w".to_string()))
    );
    // Beyond 32 bits the higher score still wins.
    r.preferred = vec![
        pref(i32::MAX, any()),
        pref(i32::MAX, us()),
        pref(i32::MAX, us()),
    ];
    assert_eq!(
        schedule(&r, &ws),
        Placement::Scheduled(WorkerName("v".to_string()))
    );
    r.preferred = vec![pref(i32::MIN, any()), pref(i32::MIN, us())];
    assert_eq!(
        schedule(&r, &ws),
        Placement::Scheduled(WorkerName("w".to_string()))
    );
}

#[test]
fn opposite_operators_never_agree() {
    let admits = |labels: &[(&str, &str)], op, vals: &[&str]| {
        let mut r = req(1, 1);
        r.required = vec![term("zone", op, vals)];
        matches!(
            schedule(&r, &[wv_labeled("w", labels)]),
            Placement::Scheduled(_)
        )
    };
    let cases: [&[(&str, &str)]; 3] = [&[], &[("zone", "us")], &[("zone", "eu")]];
    for labels in cases {
        for vals in [&["us"][..], &[][..]] {
            assert_ne!(
                admits(labels, NodeSelectorOperator::In, vals),
                admits(labels, NodeSelectorOperator::NotIn, vals)
            );
            assert_ne!(
                admits(labels, NodeSelectorOperator::Exists, vals),
                admits(labels, NodeSelectorOperator::DoesNotExist, vals)
            );
        }
    }
}

#[test]
fn a_requirement_and_its_opposite_split_all_labels() {
    let requirement = |operator, values: &[&str]| NodeSelectorRequirement {
        key: "zone".to_string(),
        operator,
        values: values.iter().map(|v| v.to_string()).collect(),
    };
    let pairs = [
        (NodeSelectorOperator::In, NodeSelectorOperator::NotIn),
        (
            NodeSelectorOperator::Exists,
            NodeSelectorOperator::DoesNotExist,
        ),
    ];
    for zone in [None, Some("us"), Some("eu")] {
        let mut labels = Labels::new();
        if let Some(zone) = zone {
            labels.insert("zone".to_string(), zone.to_string());
        }
        for (op, opposite) in pairs {
            assert_ne!(
                requirement_matches(&requirement(op, &["us"]), &labels),
                requirement_matches(&requirement(opposite, &["us"]), &labels)
            );
        }
    }
}

#[test]
fn one_worker_is_judged_for_itself() {
    let w = wv_labeled("w", &[("zone", "us")]);
    let mut r = req(1, 1);
    r.preferred = vec![pref(7, term("zone", NodeSelectorOperator::Exists, &[]))];
    assert_eq!(evaluate(&r, &w), Ok(7));
    r.node_selector = vec![("zone".to_string(), "eu".to_string())];
    assert_eq!(evaluate(&r, &w), Err(RejectReason::LabelMismatch));
    assert_eq!(
        unschedulable_reason(2, &vec![RejectReason::Cordoned, RejectReason::Cordoned]),
        "0/2 workers available: 2 cordoned"
    );
}
