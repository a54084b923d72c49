//! The heartbeat: a lease is a claim that the machine can run containers.
//!
//! The `container` CLI being installed is not the same question: the runtime's services
//! can be down while the CLI keeps answering `--version`. So before it renews its lease the
//! worker asks the runtime to list its instances. Where that fails, it restarts the
//! runtime's services and asks again; where the runtime still does not answer, the lease is
//! not renewed, the worker goes `NotReady`, and nothing new is placed on it.
use vstd::prelude::*;

verus! {

/// A call of a heartbeat.
#[derive(Debug, Clone, Copy, PartialEq, Eq, Structural)]
pub enum BeatCall {
    /// Ask the runtime to list its instances.
    ListInstances,
    /// Restart the runtime's services.
    RestartServices,
    /// Renew the lease.
    RenewLease,
}

/// The call that comes next in a heartbeat, once the calls before it ended with `outcomes`
/// (`true`: it succeeded). `None` where the heartbeat is over.
pub open spec fn next_beat(outcomes: Seq<bool>) -> Option<BeatCall> {
    let n = outcomes.len();
    if n == 0 {
        Some(BeatCall::ListInstances)
    } else if outcomes[0] {
        if n == 1 {
            Some(BeatCall::RenewLease)
        } else {
            None
        }
    } else if n == 1 {
        Some(BeatCall::RestartServices)
    } else if n == 2 {
        Some(BeatCall::ListInstances)
    } else if n == 3 && outcomes[2] {
        Some(BeatCall::RenewLease)
    } else {
        None
    }
}

/// The call that comes next in a heartbeat. `outcomes` says of each call before it whether
/// it succeeded; `None` where the heartbeat is over.
pub fn next_heartbeat_call(outcomes: &[bool]) -> (r: Option<BeatCall>)
    ensures
        r == next_beat(outcomes@),
{
    let n: usize = outcomes.len();
    if n == 0 {
        Some(BeatCall::ListInstances)
    } else if outcomes[0] {
        if n == 1 {
            Some(BeatCall::RenewLease)
        } else {
            None
        }
    } else if n == 1 {
        Some(BeatCall::RestartServices)
    } else if n == 2 {
        Some(BeatCall::ListInstances)
    } else if n == 3 && outcomes[2] {
        Some(BeatCall::RenewLease)
    } else {
        None
    }
}

/// Whether the last of the calls was to list the instances.
pub open spec fn just_listed(outcomes: Seq<bool>) -> bool {
    outcomes.len() > 0 && next_beat(outcomes.drop_last()) == Some(BeatCall::ListInstances)
}

/// The lease is renewed exactly where the runtime has just listed its instances.
pub proof fn law_lease_claims_a_working_runtime(outcomes: Seq<bool>)
    ensures
        next_beat(outcomes) == Some(BeatCall::RenewLease) <==> just_listed(outcomes)
            && outcomes.last(),
{
}

/// A runtime that does not answer has its services restarted once and is asked once more,
/// whatever came of the restart; where it still does not answer, the heartbeat is over and
/// the lease was not renewed.
pub proof fn law_broken_runtime_gets_one_restart(restarted: bool)
    ensures
        next_beat(seq![false]) == Some(BeatCall::RestartServices),
        next_beat(seq![false, restarted]) == Some(BeatCall::ListInstances),
        next_beat(seq![false, restarted, true]) == Some(BeatCall::RenewLease),
        next_beat(seq![false, restarted, false]) is None,
{
}

/// A heartbeat is over after at most four calls.
pub proof fn law_heartbeat_ends(outcomes: Seq<bool>)
    requires
        outcomes.len() >= 4,
    ensures
        next_beat(outcomes) is None,
{
}

/// A heartbeat starts by asking the runtime, and renews the lease of one that answers at once:
/// nothing is restarted, and nothing follows the renewal.
pub proof fn law_working_runtime_is_renewed_at_once(renewed: bool)
    ensures
        next_beat(Seq::empty()) == Some(BeatCall::ListInstances),
        next_beat(seq![true]) == Some(BeatCall::RenewLease),
        next_beat(seq![true, renewed]) is None,
{
}

} // verus!
