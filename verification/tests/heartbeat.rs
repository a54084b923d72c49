use velos::heartbeat::{next_heartbeat_call, BeatCall};

/// The calls of a heartbeat whose calls end as `outcome` says.
fn beat(outcome: impl Fn(usize, BeatCall) -> bool) -> Vec<BeatCall> {
    let mut outcomes = Vec::new();
    let mut made = Vec::new();
    while let Some(call) = next_heartbeat_call(&outcomes) {
        outcomes.push(outcome(made.len(), call));
        made.push(call);
    }
    made
}

#[test]
fn a_working_runtime_renews_the_lease() {
    assert_eq!(
        beat(|_, _| true),
        vec![BeatCall::ListInstances, BeatCall::RenewLease]
    );
}

#[test]
fn a_runtime_that_comes_back_renews_the_lease() {
    assert_eq!(
        beat(|n, _| n > 0),
        vec![
            BeatCall::ListInstances,
            BeatCall::RestartServices,
            BeatCall::ListInstances,
            BeatCall::RenewLease,
        ]
    );
    // Whether the restart reports success or not, the runtime is asked again.
    assert_eq!(beat(|n, _| n > 1).last(), Some(&BeatCall::RenewLease));
}

#[test]
fn a_runtime_that_stays_down_lets_the_lease_go() {
    assert_eq!(
        beat(|_, call| call == BeatCall::RestartServices),
        vec![
            BeatCall::ListInstances,
            BeatCall::RestartServices,
            BeatCall::ListInstances,
        ]
    );
}

#[test]
fn a_lease_that_cannot_be_renewed_is_left_for_the_next_beat() {
    assert_eq!(beat(|_, call| call != BeatCall::RenewLease).len(), 2);
}
