use velos::reconcile::{
    reconcile, Action, DesiredContainer, DesiredState, ObservedInstance, RestartPolicy,
};
use velos::runtime::InstanceState;

fn desired(name: &str, phase: &str, policy: RestartPolicy) -> DesiredContainer {
    DesiredContainer {
        name: name.to_string(),
        uid: format!("uid-{name}"),
        image: "img".to_string(),
        command: vec![],
        env: vec![],
        restart_policy: policy,
        desired_state: DesiredState::Running,
        phase: phase.to_string(),
        marked_for_deletion: false,
        has_finalizer: true,
    }
}

fn observed(name: &str, state: InstanceState) -> ObservedInstance {
    ObservedInstance {
        uid: format!("uid-{name}"),
        state,
    }
}

#[test]
fn starts_pending_container_with_no_instance() {
    let d = vec![desired("c1", "Scheduled", RestartPolicy::Never)];
    let actions = reconcile(&d, &[]);
    assert_eq!(actions.len(), 1);
    assert!(matches!(&actions[0], Action::Start { name, .. } if name == "c1"));
}

#[test]
fn reports_running_when_status_is_stale() {
    let d = vec![desired("c1", "Scheduled", RestartPolicy::Never)];
    let o = vec![observed("c1", InstanceState::Running)];
    assert_eq!(
        reconcile(&d, &o),
        vec![Action::ReportRunning {
            name: "c1".to_string()
        }]
    );
}

#[test]
fn no_action_when_running_and_reported() {
    let d = vec![desired("c1", "Running", RestartPolicy::Never)];
    let o = vec![observed("c1", InstanceState::Running)];
    assert!(reconcile(&d, &o).is_empty());
}

#[test]
fn reports_succeeded_on_clean_exit_with_never_policy() {
    let d = vec![desired("c1", "Running", RestartPolicy::Never)];
    let o = vec![observed("c1", InstanceState::Exited { exit_code: 0 })];
    assert_eq!(
        reconcile(&d, &o),
        vec![Action::ReportTerminal {
            name: "c1".to_string(),
            phase: "Succeeded".to_string(),
            exit_code: 0,
        }]
    );
}

#[test]
fn restarts_on_failure_policy_when_exit_nonzero() {
    let d = vec![desired("c1", "Running", RestartPolicy::OnFailure)];
    let o = vec![observed("c1", InstanceState::Exited { exit_code: 1 })];
    assert!(matches!(&reconcile(&d, &o)[0], Action::Restart { name, .. } if name == "c1"));
}

#[test]
fn always_policy_restarts_even_on_clean_exit() {
    let d = vec![desired("c1", "Running", RestartPolicy::Always)];
    let o = vec![observed("c1", InstanceState::Exited { exit_code: 0 })];
    assert!(matches!(&reconcile(&d, &o)[0], Action::Restart { .. }));
}

#[test]
fn terminal_container_without_instance_is_left_alone() {
    let d = vec![desired("c1", "Succeeded", RestartPolicy::Never)];
    assert!(reconcile(&d, &[]).is_empty());
}

#[test]
fn deletion_with_instance_cleans_up_and_clears_finalizer() {
    let mut d = desired("c1", "Running", RestartPolicy::Never);
    d.marked_for_deletion = true;
    let o = vec![observed("c1", InstanceState::Running)];
    assert_eq!(
        reconcile(&[d], &o),
        vec![Action::Cleanup {
            name: "c1".to_string(),
            uid: "uid-c1".to_string(),
            clear_finalizer: true,
        }]
    );
}

#[test]
fn deletion_without_instance_just_clears_finalizer() {
    let mut d = desired("c1", "Running", RestartPolicy::Never);
    d.marked_for_deletion = true;
    assert_eq!(
        reconcile(&[d], &[]),
        vec![Action::ClearFinalizer {
            name: "c1".to_string()
        }]
    );
}

fn hibernating(name: &str, phase: &str, policy: RestartPolicy) -> DesiredContainer {
    let mut d = desired(name, phase, policy);
    d.desired_state = DesiredState::Hibernated;
    d
}

#[test]
fn hibernating_a_running_container_stops_its_instance() {
    let d = vec![hibernating("c1", "Running", RestartPolicy::Never)];
    let o = vec![observed("c1", InstanceState::Running)];
    assert_eq!(
        reconcile(&d, &o),
        vec![Action::Hibernate {
            name: "c1".to_string(),
            uid: "uid-c1".to_string(),
        }]
    );
}

#[test]
fn stopped_instance_of_a_hibernating_container_is_reported_hibernated() {
    let d = vec![hibernating("c1", "Running", RestartPolicy::Never)];
    let o = vec![observed("c1", InstanceState::Exited { exit_code: 0 })];
    assert_eq!(
        reconcile(&d, &o),
        vec![Action::ReportHibernated {
            name: "c1".to_string()
        }]
    );
}

#[test]
fn hibernated_container_is_settled_and_needs_no_further_action() {
    let d = vec![hibernating("c1", "Hibernated", RestartPolicy::Always)];
    let o = vec![observed("c1", InstanceState::Exited { exit_code: 0 })];
    assert!(reconcile(&d, &o).is_empty());
}

#[test]
fn restart_policy_never_reopens_a_hibernated_instance() {
    // The regression this guards: `Always` sees an exited instance and would
    // restart it, undoing the hibernation on the very next tick.
    let d = vec![hibernating("c1", "Running", RestartPolicy::Always)];
    let o = vec![observed("c1", InstanceState::Exited { exit_code: 0 })];
    let actions = reconcile(&d, &o);
    assert!(
        !actions
            .iter()
            .any(|a| matches!(a, Action::Restart { .. } | Action::Start { .. })),
        "hibernation must outrank the restart policy, got: {actions:?}"
    );
}

#[test]
fn hibernating_a_container_created_asleep_only_records_the_phase() {
    // Never launched: nothing to stop, so the worker just states the fact.
    let d = vec![hibernating("c1", "Scheduled", RestartPolicy::Never)];
    assert_eq!(
        reconcile(&d, &[]),
        vec![Action::ReportHibernated {
            name: "c1".to_string()
        }]
    );
}

#[test]
fn a_finished_container_is_not_dragged_out_of_its_terminal_phase() {
    let d = vec![hibernating("c1", "Succeeded", RestartPolicy::Never)];
    let o = vec![observed("c1", InstanceState::Exited { exit_code: 0 })];
    assert!(reconcile(&d, &o).is_empty());
}

#[test]
fn waking_a_hibernated_container_resumes_its_instance() {
    // `Never` policy: without the Hibernated branch this exited instance
    // would be reported Succeeded instead of woken.
    let d = vec![desired("c1", "Hibernated", RestartPolicy::Never)];
    let o = vec![observed("c1", InstanceState::Exited { exit_code: 0 })];
    assert_eq!(
        reconcile(&d, &o),
        vec![Action::Resume {
            name: "c1".to_string(),
            uid: "uid-c1".to_string(),
        }]
    );
}

#[test]
fn waking_a_hibernated_container_whose_instance_is_gone_starts_a_fresh_one() {
    let d = vec![desired("c1", "Hibernated", RestartPolicy::Never)];
    assert_eq!(
        reconcile(&d, &[]),
        vec![Action::Start {
            name: "c1".to_string(),
            spec: d[0].run_spec(),
        }]
    );
}

#[test]
fn deletion_outranks_hibernation() {
    let mut d = hibernating("c1", "Hibernated", RestartPolicy::Never);
    d.marked_for_deletion = true;
    let o = vec![observed("c1", InstanceState::Exited { exit_code: 0 })];
    assert_eq!(
        reconcile(&[d], &o),
        vec![Action::Cleanup {
            name: "c1".to_string(),
            uid: "uid-c1".to_string(),
            clear_finalizer: true,
        }]
    );
}

#[test]
fn unknown_desired_state_falls_back_to_running() {
    assert_eq!(DesiredState::parse("Hibernated"), DesiredState::Hibernated);
    assert_eq!(DesiredState::parse("Running"), DesiredState::Running);
    assert_eq!(DesiredState::parse("hibernated"), DesiredState::Running);
    assert_eq!(DesiredState::parse(""), DesiredState::Running);
}

#[test]
fn orphan_instance_is_reaped() {
    let o = vec![observed("ghost", InstanceState::Running)];
    assert_eq!(
        reconcile(&[], &o),
        vec![Action::Reap {
            uid: "uid-ghost".to_string()
        }]
    );
}

#[test]
fn actions_name_their_container_and_their_failure() {
    let d = vec![desired("c1", "Scheduled", RestartPolicy::Never)];
    let actions = reconcile(&d, &[observed("lost", InstanceState::Running)]);
    assert_eq!(actions.len(), 2);
    assert_eq!(actions[0].container(), Some("c1"));
    assert_eq!(actions[0].failure_reason(), Some("StartFailed"));
    assert_eq!(actions[1].container(), None);
    assert_eq!(actions[1].failure_reason(), None);
    let name = "c".to_string();
    let uid = "u".to_string();
    let reason = |a: Action| a.failure_reason();
    assert_eq!(
        reason(Action::Restart {
            name: name.clone(),
            uid: uid.clone(),
            spec: d[0].run_spec(),
        }),
        Some("RestartFailed")
    );
    assert_eq!(
        reason(Action::Resume {
            name: name.clone(),
            uid: uid.clone(),
        }),
        Some("ResumeFailed")
    );
    assert_eq!(
        reason(Action::Hibernate {
            name: name.clone(),
            uid,
        }),
        Some("HibernateFailed")
    );
    assert_eq!(reason(Action::ReportRunning { name }), None);
}

#[test]
fn a_container_that_failed_and_is_reported_is_settled() {
    let d = vec![desired("c1", "Failed", RestartPolicy::Never)];
    let o = vec![observed("c1", InstanceState::Exited { exit_code: 2 })];
    assert!(reconcile(&d, &o).is_empty());
    // On another exit code the phase is reported anew.
    let o = vec![observed("c1", InstanceState::Exited { exit_code: 0 })];
    assert_eq!(
        reconcile(&d, &o),
        vec![Action::ReportTerminal {
            name: "c1".to_string(),
            phase: "Succeeded".to_string(),
            exit_code: 0,
        }]
    );
}

#[test]
fn a_deleted_container_without_a_finalizer_is_let_go() {
    let mut d = desired("c1", "Running", RestartPolicy::Always);
    d.marked_for_deletion = true;
    d.has_finalizer = false;
    assert!(reconcile(&[d], &[]).is_empty());
}

#[test]
fn wire_strings_fail_closed() {
    assert_eq!(RestartPolicy::parse("Always"), RestartPolicy::Always);
    assert_eq!(RestartPolicy::parse("OnFailure"), RestartPolicy::OnFailure);
    assert_eq!(RestartPolicy::parse("always"), RestartPolicy::Never);
    assert_eq!(DesiredState::parse("Hibernated"), DesiredState::Hibernated);
}

#[test]
fn the_restart_policy_is_no_matter_for_a_hibernating_container() {
    let states = [
        None,
        Some(InstanceState::Running),
        Some(InstanceState::Exited { exit_code: 1 }),
    ];
    for phase in ["Running", "Hibernated", "Failed"] {
        for state in states {
            let o: Vec<ObservedInstance> = state.map(|s| observed("c1", s)).into_iter().collect();
            let never = reconcile(&[hibernating("c1", phase, RestartPolicy::Never)], &o);
            let always = reconcile(&[hibernating("c1", phase, RestartPolicy::Always)], &o);
            assert_eq!(never, always, "{phase}");
        }
    }
}
