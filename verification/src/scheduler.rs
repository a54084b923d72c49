//! The scheduler: a pure decision that binds an unscheduled container to a worker.
//!
//! **Filter** (hard predicates a worker must satisfy), **score** (soft preferences),
//! **pick** (highest score, ties broken by input order). With no placement fields set
//! and no worker taints the result equals a plain first-fit over the input order.
use vstd::prelude::*;

use crate::labels::Labels;
use crate::text;

verus! {

/// A worker's name.
#[derive(Debug, PartialEq, Eq, Hash)]
pub struct WorkerName(pub String);

impl Clone for WorkerName {
    fn clone(&self) -> (r: WorkerName)
        ensures
            r == *self,
    {
        WorkerName(self.0.clone())
    }
}

/// A resource ask (or usage). cpu is a whole-core count; memory in bytes.
#[derive(Debug, Clone, Copy, PartialEq, Eq, Structural)]
pub struct ResourceRequest {
    pub cpu: u32,
    pub memory_bytes: u64,
}

/// Match operator for a node-affinity requirement.
#[derive(Debug, Clone, Copy, PartialEq, Eq, Structural)]
pub enum NodeSelectorOperator {
    In,
    NotIn,
    Exists,
    DoesNotExist,
    Gt,
    Lt,
}

/// A single label requirement (`key <op> values`).
#[derive(Debug, Clone, PartialEq, Eq)]
pub struct NodeSelectorRequirement {
    pub key: String,
    pub operator: NodeSelectorOperator,
    pub values: Vec<String>,
}

/// A conjunction of requirements (all must match).
#[derive(Debug, Clone, PartialEq, Eq)]
pub struct NodeSelectorTerm {
    pub match_expressions: Vec<NodeSelectorRequirement>,
}

/// A weighted soft preference used during scoring.
#[derive(Debug, Clone, PartialEq, Eq)]
pub struct PreferredSchedulingTerm {
    pub weight: i32,
    pub preference: NodeSelectorTerm,
}

/// The effect a taint has on scheduling.
#[derive(Debug, Clone, Copy, PartialEq, Eq, Structural)]
pub enum TaintEffect {
    NoSchedule,
    PreferNoSchedule,
}

/// A worker taint that repels containers unless tolerated.
#[derive(Debug, Clone, PartialEq, Eq)]
pub struct Taint {
    pub key: String,
    pub value: String,
    pub effect: TaintEffect,
}

/// How a toleration matches a taint.
#[derive(Debug, Clone, Copy, PartialEq, Eq, Structural)]
pub enum TolerationOperator {
    Equal,
    Exists,
}

/// A container's tolerance for a taint.
#[derive(Debug, Clone, PartialEq, Eq)]
pub struct Toleration {
    pub key: String,
    pub operator: TolerationOperator,
    pub value: String,
    pub effect: Option<TaintEffect>,
}

/// Everything the scheduler needs to place one container.
#[derive(Debug, Clone, PartialEq, Eq)]
pub struct PlacementRequest {
    pub resources: ResourceRequest,
    pub node_name: Option<WorkerName>,
    pub node_selector: Vec<(String, String)>,
    pub required: Vec<NodeSelectorTerm>,
    pub preferred: Vec<PreferredSchedulingTerm>,
    pub tolerations: Vec<Toleration>,
}

/// The scheduler's view of one candidate worker: enough to decide fit, nothing
/// about wire or storage shapes.
#[derive(Debug, Clone)]
pub struct WorkerView {
    pub name: WorkerName,
    pub ready: bool,
    pub unschedulable: bool,
    /// Total schedulable resources on the node.
    pub allocatable: ResourceRequest,
    /// Resources already committed to containers bound here.
    pub allocated: ResourceRequest,
    pub labels: Labels,
    pub taints: Vec<Taint>,
}

/// Why a worker was filtered out; tallied into the unschedulable reason.
#[derive(Debug, Clone, Copy, PartialEq, Eq, Structural)]
pub enum RejectReason {
    NotReady,
    Cordoned,
    InsufficientCpu,
    InsufficientMemory,
    NodeNameMismatch,
    LabelMismatch,
    AffinityMismatch,
    UntoleratedTaint,
}

/// The decision for one container: bound to a worker, or left pending with why.
#[derive(Debug, Clone, PartialEq, Eq)]
pub enum Placement {
    Scheduled(WorkerName),
    Unschedulable { reason: String },
}

// ---------------------------------------------------------------------------
// Filter
// ---------------------------------------------------------------------------

/// What is left of `total` after `used`; nothing where more is used than there is.
pub open spec fn free(total: int, used: int) -> int {
    if used <= total {
        total - used
    } else {
        0
    }
}

/// Why readiness, cordon or resources keep `w` from taking the container, if they do.
pub open spec fn base_rejection(req: PlacementRequest, w: WorkerView) -> Option<RejectReason> {
    if !w.ready {
        Some(RejectReason::NotReady)
    } else if w.unschedulable {
        Some(RejectReason::Cordoned)
    } else if free(w.allocatable.cpu as int, w.allocated.cpu as int) < req.resources.cpu {
        Some(RejectReason::InsufficientCpu)
    } else if free(w.allocatable.memory_bytes as int, w.allocated.memory_bytes as int)
        < req.resources.memory_bytes {
        Some(RejectReason::InsufficientMemory)
    } else {
        None
    }
}

/// Whether a `node_name` pin, if there is one, names this worker.
pub open spec fn pin_allows(req: PlacementRequest, w: WorkerView) -> bool {
    req.node_name matches Some(n) ==> n.0@ == w.name.0@
}

/// Whether every selector entry is a label.
pub open spec fn selector_holds(
    sel: Seq<(String, String)>,
    labels: Map<Seq<char>, Seq<char>>,
) -> bool {
    forall|i: int|
        0 <= i < sel.len() ==> labels.contains_key((#[trigger] sel[i]).0@) && labels[sel[i].0@]
            == sel[i].1@
}

/// The integer that a string denotes, where it fits in 64 bits.
pub open spec fn as_integer(s: Seq<char>) -> Option<int> {
    match text::integer_value(s) {
        Some(n) => if i64::MIN <= n <= i64::MAX {
            Some(n)
        } else {
            None
        },
        None => None,
    }
}

/// The integers on either side of a `Gt` or `Lt`: the label's and the first value's.
pub open spec fn compared(r: NodeSelectorRequirement, labels: Map<Seq<char>, Seq<char>>) -> Option<
    (int, int),
> {
    if labels.contains_key(r.key@) && r.values@.len() > 0 {
        match (as_integer(labels[r.key@]), as_integer(r.values@[0]@)) {
            (Some(a), Some(b)) => Some((a, b)),
            _ => None,
        }
    } else {
        None
    }
}

/// Whether `s` is among `values`.
pub open spec fn listed(values: Seq<String>, s: Seq<char>) -> bool {
    exists|i: int| 0 <= i < values.len() && (#[trigger] values[i])@ == s
}

/// Whether the labels meet a requirement.
pub open spec fn requirement_holds(
    r: NodeSelectorRequirement,
    labels: Map<Seq<char>, Seq<char>>,
) -> bool {
    match r.operator {
        NodeSelectorOperator::In => labels.contains_key(r.key@) && listed(
            r.values@,
            labels[r.key@],
        ),
        NodeSelectorOperator::NotIn => !(labels.contains_key(r.key@) && listed(
            r.values@,
            labels[r.key@],
        )),
        NodeSelectorOperator::Exists => labels.contains_key(r.key@),
        NodeSelectorOperator::DoesNotExist => !labels.contains_key(r.key@),
        NodeSelectorOperator::Gt => compared(r, labels) matches Some(p) && p.0 > p.1,
        NodeSelectorOperator::Lt => compared(r, labels) matches Some(p) && p.0 < p.1,
    }
}

/// Whether the labels meet all requirements of a term.
pub open spec fn term_holds(t: NodeSelectorTerm, labels: Map<Seq<char>, Seq<char>>) -> bool {
    forall|i: int|
        0 <= i < t.match_expressions@.len() ==> requirement_holds(
            #[trigger] t.match_expressions@[i],
            labels,
        )
}

/// Whether the labels meet one of the terms, where there are any.
pub open spec fn required_holds(
    terms: Seq<NodeSelectorTerm>,
    labels: Map<Seq<char>, Seq<char>>,
) -> bool {
    terms.len() == 0 || exists|i: int|
        0 <= i < terms.len() && term_holds(#[trigger] terms[i], labels)
}

/// Whether a toleration covers a taint: its effect, if it names one, is the taint's, and
/// its key (any key, for an `Exists` with an empty one) and value match.
pub open spec fn covers(tol: Toleration, taint: Taint) -> bool {
    &&& tol.effect matches Some(e) ==> e == taint.effect
    &&& match tol.operator {
        TolerationOperator::Exists => tol.key@.len() == 0 || tol.key@ == taint.key@,
        TolerationOperator::Equal => tol.key@ == taint.key@ && tol.value@ == taint.value@,
    }
}

/// Whether one of the tolerations covers a taint.
pub open spec fn tolerated(tols: Seq<Toleration>, taint: Taint) -> bool {
    exists|i: int| 0 <= i < tols.len() && covers(#[trigger] tols[i], taint)
}

/// Whether every `NoSchedule` taint of the worker is tolerated.
pub open spec fn taints_allow(req: PlacementRequest, w: WorkerView) -> bool {
    forall|i: int|
        0 <= i < w.taints@.len() && (#[trigger] w.taints@[i]).effect == TaintEffect::NoSchedule
            ==> tolerated(req.tolerations@, w.taints@[i])
}

/// Why the worker cannot take the container: the first filter that it fails.
pub open spec fn rejection(req: PlacementRequest, w: WorkerView) -> Option<RejectReason> {
    if base_rejection(req, w) is Some {
        base_rejection(req, w)
    } else if !pin_allows(req, w) {
        Some(RejectReason::NodeNameMismatch)
    } else if !selector_holds(req.node_selector@, w.labels@) {
        Some(RejectReason::LabelMismatch)
    } else if !required_holds(req.required@, w.labels@) {
        Some(RejectReason::AffinityMismatch)
    } else if !taints_allow(req, w) {
        Some(RejectReason::UntoleratedTaint)
    } else {
        None
    }
}

/// Whether the worker can take the container.
pub open spec fn admits(req: PlacementRequest, w: WorkerView) -> bool {
    rejection(req, w) is None
}

impl WorkerView {
    /// Free cpu cores after accounting for already-allocated containers.
    fn free_cpu(&self) -> (r: u32)
        ensures
            r == free(self.allocatable.cpu as int, self.allocated.cpu as int),
    {
        self.allocatable.cpu.saturating_sub(self.allocated.cpu)
    }

    /// Free memory bytes after accounting for already-allocated containers.
    fn free_memory(&self) -> (r: u64)
        ensures
            r == free(self.allocatable.memory_bytes as int, self.allocated.memory_bytes as int),
    {
        self.allocatable.memory_bytes.saturating_sub(self.allocated.memory_bytes)
    }
}

/// Base admittance: readiness, cordon, and resource fit.
pub fn admits_base(req: &PlacementRequest, w: &WorkerView) -> (r: Result<(), RejectReason>)
    ensures
        match r {
            Ok(_) => base_rejection(*req, *w) is None,
            Err(e) => base_rejection(*req, *w) == Some(e),
        },
{
    if !w.ready {
        return Err(RejectReason::NotReady);
    }
    if w.unschedulable {
        return Err(RejectReason::Cordoned);
    }
    if w.free_cpu() < req.resources.cpu {
        return Err(RejectReason::InsufficientCpu);
    }
    if w.free_memory() < req.resources.memory_bytes {
        return Err(RejectReason::InsufficientMemory);
    }
    Ok(())
}

/// Hard filter: a `node_name` pin must equal this worker.
pub fn matches_node_name(req: &PlacementRequest, w: &WorkerView) -> (r: bool)
    ensures
        r == pin_allows(*req, *w),
{
    match &req.node_name {
        Some(n) => n.0 == w.name.0,
        None => true,
    }
}

/// Whether every `node_selector` label matches a worker's labels.
pub fn node_selector_matches(sel: &Vec<(String, String)>, labels: &Labels) -> (r: bool)
    ensures
        r == selector_holds(sel@, labels@),
{
    for i in 0..sel.len()
        invariant
            forall|k: int|
                0 <= k < i ==> labels@.contains_key((#[trigger] sel@[k]).0@)
                    && labels@[sel@[k].0@] == sel@[k].1@,
    {
        let ok = match labels.get(&sel[i].0) {
            Some(x) => *x == sel[i].1,
            None => false,
        };
        if !ok {
            assert(!(labels@.contains_key(sel@[i as int].0@) && labels@[sel@[i as int].0@]
                == sel@[i as int].1@));
            return false;
        }
    }
    true
}

fn contains(values: &Vec<String>, s: &str) -> (r: bool)
    ensures
        r == listed(values@, s@),
{
    for i in 0..values.len()
        invariant
            forall|k: int| 0 <= k < i ==> (#[trigger] values@[k])@ != s@,
    {
        if text::same(&values[i], s) {
            return true;
        }
    }
    false
}

/// The integers that a `Gt` or `Lt` compares; `None` where either is missing or is not one.
fn integers(r: &NodeSelectorRequirement, labels: &Labels) -> (p: Option<(i64, i64)>)
    ensures
        match p {
            Some(p) => compared(*r, labels@) == Some((p.0 as int, p.1 as int)),
            None => compared(*r, labels@) is None,
        },
{
    match labels.get(&r.key) {
        Some(label) => if r.values.len() > 0 {
            match (text::parse_integer(label), text::parse_integer(&r.values[0])) {
                (Some(a), Some(b)) => Some((a, b)),
                _ => None,
            }
        } else {
            None
        },
        None => None,
    }
}

/// Whether a worker's labels meet a requirement.
pub fn requirement_matches(r: &NodeSelectorRequirement, labels: &Labels) -> (b: bool)
    ensures
        b == requirement_holds(*r, labels@),
{
    match r.operator {
        NodeSelectorOperator::In => match labels.get(&r.key) {
            Some(v) => contains(&r.values, v),
            None => false,
        },
        NodeSelectorOperator::NotIn => match labels.get(&r.key) {
            Some(v) => !contains(&r.values, v),
            None => true,
        },
        NodeSelectorOperator::Exists => labels.get(&r.key).is_some(),
        NodeSelectorOperator::DoesNotExist => labels.get(&r.key).is_none(),
        NodeSelectorOperator::Gt => match integers(r, labels) {
            Some(p) => p.0 > p.1,
            None => false,
        },
        NodeSelectorOperator::Lt => match integers(r, labels) {
            Some(p) => p.0 < p.1,
            None => false,
        },
    }
}

/// Whether a worker's labels meet every requirement of a term.
pub fn term_matches(term: &NodeSelectorTerm, labels: &Labels) -> (r: bool)
    ensures
        r == term_holds(*term, labels@),
{
    for i in 0..term.match_expressions.len()
        invariant
            forall|k: int|
                0 <= k < i ==> requirement_holds(
                    #[trigger] term.match_expressions@[k],
                    labels@,
                ),
    {
        if !requirement_matches(&term.match_expressions[i], labels) {
            assert(!requirement_holds(term.match_expressions@[i as int], labels@));
            return false;
        }
    }
    true
}

/// Hard filter: if there are required terms, at least one must match.
pub fn required_matches(terms: &Vec<NodeSelectorTerm>, labels: &Labels) -> (r: bool)
    ensures
        r == required_holds(terms@, labels@),
{
    if terms.len() == 0 {
        return true;
    }
    for i in 0..terms.len()
        invariant
            forall|k: int| 0 <= k < i ==> !term_holds(#[trigger] terms@[k], labels@),
    {
        if term_matches(&terms[i], labels) {
            return true;
        }
    }
    false
}

/// Whether a toleration covers a taint.
pub fn tolerates(tol: &Toleration, taint: &Taint) -> (r: bool)
    ensures
        r == covers(*tol, *taint),
{
    if let Some(eff) = tol.effect {
        if eff != taint.effect {
            return false;
        }
    }
    match tol.operator {
        TolerationOperator::Exists => tol.key.as_str().is_empty() || tol.key == taint.key,
        TolerationOperator::Equal => tol.key == taint.key && tol.value == taint.value,
    }
}

fn any_tolerates(tols: &Vec<Toleration>, taint: &Taint) -> (r: bool)
    ensures
        r == tolerated(tols@, *taint),
{
    for i in 0..tols.len()
        invariant
            forall|k: int| 0 <= k < i ==> !covers(#[trigger] tols@[k], *taint),
    {
        if tolerates(&tols[i], taint) {
            return true;
        }
    }
    false
}

/// Hard filter: every `NoSchedule` taint on the worker must be tolerated.
pub fn tolerates_taints(req: &PlacementRequest, w: &WorkerView) -> (r: bool)
    ensures
        r == taints_allow(*req, *w),
{
    for i in 0..w.taints.len()
        invariant
            forall|k: int|
                0 <= k < i && (#[trigger] w.taints@[k]).effect == TaintEffect::NoSchedule
                    ==> tolerated(req.tolerations@, w.taints@[k]),
    {
        if w.taints[i].effect == TaintEffect::NoSchedule && !any_tolerates(
            &req.tolerations,
            &w.taints[i],
        ) {
            assert(w.taints@[i as int].effect == TaintEffect::NoSchedule);
            return false;
        }
    }
    true
}

// ---------------------------------------------------------------------------
// Score
// ---------------------------------------------------------------------------

/// Each untolerated `PreferNoSchedule` taint subtracts this from a worker's score.
pub const PREFER_NO_SCHEDULE_PENALTY: i32 = 100;

/// The weights of the preferences that the labels meet, summed.
pub open spec fn preference_sum(
    preferred: Seq<PreferredSchedulingTerm>,
    labels: Map<Seq<char>, Seq<char>>,
) -> int
    decreases preferred.len(),
{
    if preferred.len() == 0 {
        0
    } else {
        preference_sum(preferred.drop_last(), labels) + if term_holds(
            preferred.last().preference,
            labels,
        ) {
            preferred.last().weight as int
        } else {
            0
        }
    }
}

/// How many `PreferNoSchedule` taints no toleration covers.
pub open spec fn unwelcome(taints: Seq<Taint>, tols: Seq<Toleration>) -> nat
    decreases taints.len(),
{
    if taints.len() == 0 {
        0
    } else {
        unwelcome(taints.drop_last(), tols) + if taints.last().effect
            == TaintEffect::PreferNoSchedule && !tolerated(tols, taints.last()) {
            1nat
        } else {
            0nat
        }
    }
}

/// The soft score of a worker: matched weights, minus the penalty for each unwelcome taint.
pub open spec fn score_of(req: PlacementRequest, w: WorkerView) -> int {
    preference_sum(req.preferred@, w.labels@) - PREFER_NO_SCHEDULE_PENALTY * unwelcome(
        w.taints@,
        req.tolerations@,
    )
}

/// No sum of preferences is larger than its terms allow.
proof fn lemma_preference_sum(
    preferred: Seq<PreferredSchedulingTerm>,
    labels: Map<Seq<char>, Seq<char>>,
)
    ensures
        -0x8000_0000 * preferred.len() <= preference_sum(preferred, labels) <= 0x8000_0000
            * preferred.len(),
    decreases preferred.len(),
{
    if preferred.len() > 0 {
        lemma_preference_sum(preferred.drop_last(), labels);
    }
}

/// No more taints are unwelcome than there are.
proof fn lemma_unwelcome(taints: Seq<Taint>, tols: Seq<Toleration>)
    ensures
        unwelcome(taints, tols) <= taints.len(),
    decreases taints.len(),
{
    if taints.len() > 0 {
        lemma_unwelcome(taints.drop_last(), tols);
    }
}

/// Soft score for an admitted worker. Weights are 32 bits wide, and no list is long enough
/// for their sum to leave 128.
pub fn score(req: &PlacementRequest, w: &WorkerView) -> (r: i128)
    ensures
        r == score_of(*req, *w),
{
    let mut s: i128 = 0;
    let ghost prefs = req.preferred@;
    for i in 0..req.preferred.len()
        invariant
            prefs == req.preferred@,
            prefs.len() <= usize::MAX,
            s == preference_sum(prefs.take(i as int), w.labels@),
    {
        proof {
            assert(prefs.take(i + 1).drop_last() =~= prefs.take(i as int));
            lemma_preference_sum(prefs.take(i as int), w.labels@);
        }
        if term_matches(&req.preferred[i].preference, &w.labels) {
            s += req.preferred[i].weight as i128;
        }
    }
    assert(prefs.take(prefs.len() as int) =~= prefs);
    let ghost taints = w.taints@;
    for i in 0..w.taints.len()
        invariant
            prefs == req.preferred@,
            prefs.len() <= usize::MAX,
            taints == w.taints@,
            taints.len() <= usize::MAX,
            s == preference_sum(prefs, w.labels@) - PREFER_NO_SCHEDULE_PENALTY * unwelcome(
                taints.take(i as int),
                req.tolerations@,
            ),
    {
        proof {
            assert(taints.take(i + 1).drop_last() =~= taints.take(i as int));
            lemma_preference_sum(prefs, w.labels@);
            lemma_unwelcome(taints.take(i as int), req.tolerations@);
        }
        if w.taints[i].effect == TaintEffect::PreferNoSchedule && !any_tolerates(
            &req.tolerations,
            &w.taints[i],
        ) {
            s -= PREFER_NO_SCHEDULE_PENALTY as i128;
        }
    }
    assert(taints.take(taints.len() as int) =~= taints);
    s
}

/// Total decision for one worker: its score if it admits `req`, else why not.
pub fn evaluate(req: &PlacementRequest, w: &WorkerView) -> (r: Result<i128, RejectReason>)
    ensures
        match r {
            Ok(s) => admits(*req, *w) && s == score_of(*req, *w),
            Err(e) => rejection(*req, *w) == Some(e),
        },
{
    match admits_base(req, w) {
        Ok(_) => {},
        Err(e) => {
            return Err(e);
        },
    }
    if !matches_node_name(req, w) {
        return Err(RejectReason::NodeNameMismatch);
    }
    if !node_selector_matches(&req.node_selector, &w.labels) {
        return Err(RejectReason::LabelMismatch);
    }
    if !required_matches(&req.required, &w.labels) {
        return Err(RejectReason::AffinityMismatch);
    }
    if !tolerates_taints(req, w) {
        return Err(RejectReason::UntoleratedTaint);
    }
    Ok(score(req, w))
}

// ---------------------------------------------------------------------------
// Why nothing fits
// ---------------------------------------------------------------------------

/// The words for a rejection.
pub open spec fn description(r: RejectReason) -> Seq<char> {
    match r {
        RejectReason::NotReady => "NotReady"@,
        RejectReason::Cordoned => "cordoned"@,
        RejectReason::InsufficientCpu => "insufficient cpu"@,
        RejectReason::InsufficientMemory => "insufficient memory"@,
        RejectReason::NodeNameMismatch => "didn't match nodeName"@,
        RejectReason::LabelMismatch => "didn't match nodeSelector"@,
        RejectReason::AffinityMismatch => "didn't match node affinity"@,
        RejectReason::UntoleratedTaint => "had an untolerated taint"@,
    }
}

impl RejectReason {
    fn describe(&self) -> (r: &'static str)
        ensures
            r@ == description(*self),
    {
        match self {
            RejectReason::NotReady => "NotReady",
            RejectReason::Cordoned => "cordoned",
            RejectReason::InsufficientCpu => "insufficient cpu",
            RejectReason::InsufficientMemory => "insufficient memory",
            RejectReason::NodeNameMismatch => "didn't match nodeName",
            RejectReason::LabelMismatch => "didn't match nodeSelector",
            RejectReason::AffinityMismatch => "didn't match node affinity",
            RejectReason::UntoleratedTaint => "had an untolerated taint",
        }
    }
}

/// The rejections of the workers that were turned away, in order.
pub open spec fn rejections(req: PlacementRequest, workers: Seq<WorkerView>) -> Seq<RejectReason>
    decreases workers.len(),
{
    if workers.len() == 0 {
        Seq::empty()
    } else {
        match rejection(req, workers.last()) {
            Some(r) => rejections(req, workers.drop_last()).push(r),
            None => rejections(req, workers.drop_last()),
        }
    }
}

/// How often `r` occurs.
pub open spec fn occurrences(reasons: Seq<RejectReason>, r: RejectReason) -> nat
    decreases reasons.len(),
{
    if reasons.len() == 0 {
        0
    } else {
        occurrences(reasons.drop_last(), r) + if reasons.last() == r {
            1nat
        } else {
            0nat
        }
    }
}

/// The different reasons, in the order in which they first occur.
pub open spec fn kinds(reasons: Seq<RejectReason>) -> Seq<RejectReason>
    decreases reasons.len(),
{
    if reasons.len() == 0 {
        Seq::empty()
    } else {
        let before = kinds(reasons.drop_last());
        if before.contains(reasons.last()) {
            before
        } else {
            before.push(reasons.last())
        }
    }
}

/// `"<count> <description>"` for each kind of reason.
pub open spec fn tallies(reasons: Seq<RejectReason>) -> Seq<Seq<char>> {
    kinds(reasons).map_values(
        |r: RejectReason| text::decimal(occurrences(reasons, r)) + " "@ + description(r),
    )
}

/// The text that says why no worker takes the container.
pub open spec fn why_unschedulable(total: nat, reasons: Seq<RejectReason>) -> Seq<char> {
    if total == 0 {
        "no workers registered"@
    } else {
        "0/"@ + text::decimal(total) + " workers available: "@ + text::joined(
            tallies(reasons),
            ", "@,
        )
    }
}

/// A reason occurs no more often than there are reasons, and a kind occurs at least once.
proof fn lemma_occurrences(reasons: Seq<RejectReason>, r: RejectReason)
    ensures
        occurrences(reasons, r) <= reasons.len(),
        kinds(reasons).contains(r) <==> occurrences(reasons, r) > 0,
    decreases reasons.len(),
{
    if reasons.len() > 0 {
        let before = kinds(reasons.drop_last());
        lemma_occurrences(reasons.drop_last(), r);
        if !before.contains(reasons.last()) {
            let all = before.push(reasons.last());
            assert(all[before.len() as int] == reasons.last());
            if before.contains(r) {
                let k = choose|k: int| 0 <= k < before.len() && before[k] == r;
                assert(all[k] == r);
            }
        }
    }
}

/// The kinds are all different.
proof fn lemma_kinds_distinct(reasons: Seq<RejectReason>)
    ensures
        kinds(reasons).no_duplicates(),
    decreases reasons.len(),
{
    if reasons.len() > 0 {
        lemma_kinds_distinct(reasons.drop_last());
    }
}

/// The counts so far: each kind with how often it occurs.
spec fn counted(counts: Seq<(RejectReason, usize)>, reasons: Seq<RejectReason>) -> bool {
    &&& counts.len() == kinds(reasons).len()
    &&& forall|k: int|
        0 <= k < counts.len() ==> (#[trigger] counts[k]).0 == kinds(reasons)[k] && counts[k].1
            == occurrences(reasons, counts[k].0)
}

fn tally(reasons: &Vec<RejectReason>) -> (counts: Vec<(RejectReason, usize)>)
    ensures
        counted(counts@, reasons@),
{
    let mut counts: Vec<(RejectReason, usize)> = Vec::new();
    let ghost all = reasons@;
    for i in 0..reasons.len()
        invariant
            all == reasons@,
            counted(counts@, all.take(i as int)),
    {
        let r = reasons[i];
        let ghost seen = all.take(i as int);
        let ghost now = all.take(i + 1);
        proof {
            assert(now.drop_last() =~= seen);
            assert(now.last() == r);
            lemma_kinds_distinct(seen);
            lemma_occurrences(seen, r);
        }
        let mut j: usize = 0;
        while j < counts.len() && counts[j].0 != r
            invariant
                j <= counts@.len(),
                forall|k: int| 0 <= k < j ==> (#[trigger] counts@[k]).0 != r,
            decreases counts@.len() - j,
        {
            j += 1;
        }
        let ghost before = counts@;
        if j < counts.len() {
            assert(kinds(seen)[j as int] == r);
            assert(kinds(seen).contains(r));
            let c: usize = counts[j].1;
            counts.set(j, (r, c + 1));
            assert forall|k: int| 0 <= k < counts@.len() implies (#[trigger] counts@[k]).0 == kinds(
                now,
            )[k] && counts@[k].1 == occurrences(now, counts@[k].0) by {
                assert(before[k].0 == kinds(seen)[k]);
                if k != j {
                    assert(kinds(seen)[k] != kinds(seen)[j as int]);
                }
            }
        } else {
            assert(!kinds(seen).contains(r)) by {
                if kinds(seen).contains(r) {
                    let k = choose|k: int| 0 <= k < kinds(seen).len() && kinds(seen)[k] == r;
                    assert(counts@[k].0 == r);
                }
            }
            counts.push((r, 1));
            assert forall|k: int| 0 <= k < counts@.len() implies (#[trigger] counts@[k]).0 == kinds(
                now,
            )[k] && counts@[k].1 == occurrences(now, counts@[k].0) by {
                if k < before.len() {
                    assert(before[k].0 == kinds(seen)[k]);
                    assert(before[k].0 != r);
                }
            }
        }
    }
    assert(all.take(all.len() as int) =~= all);
    counts
}

/// The text that says why none of `total` workers takes the container.
pub fn unschedulable_reason(total: usize, reasons: &Vec<RejectReason>) -> (r: String)
    ensures
        r@ == why_unschedulable(total as nat, reasons@),
{
    if total == 0 {
        return "no workers registered".to_owned();
    }
    let counts = tally(reasons);
    let mut parts: Vec<String> = Vec::new();
    let ghost want = tallies(reasons@);
    for i in 0..counts.len()
        invariant
            counted(counts@, reasons@),
            want == tallies(reasons@),
            parts.deep_view() == want.take(i as int),
    {
        let ghost before = parts.deep_view();
        let part = text::cat3(
            &text::decimal_text(counts[i].1 as u64),
            " ",
            counts[i].0.describe(),
        );
        assert(counts@[i as int].0 == kinds(reasons@)[i as int]);
        assert(part@ == want[i as int]);
        parts.push(part);
        assert(parts.deep_view() =~= before.push(part@));
        assert(want.take(i + 1) =~= want.take(i as int).push(want[i as int]));
    }
    assert(want.take(want.len() as int) =~= want);
    text::cat4(
        "0/",
        &text::decimal_text(total as u64),
        " workers available: ",
        &text::join(&parts, ", "),
    )
}

// ---------------------------------------------------------------------------
// Pick
// ---------------------------------------------------------------------------

/// Whether worker `i` is the one to take the container: it admits it, none that admits it
/// scores higher, and none before it scores as high.
pub open spec fn is_best(req: PlacementRequest, workers: Seq<WorkerView>, i: int) -> bool {
    &&& 0 <= i < workers.len()
    &&& admits(req, workers[i])
    &&& forall|j: int|
        0 <= j < workers.len() && admits(req, #[trigger] workers[j]) ==> {
            &&& score_of(req, workers[j]) <= score_of(req, workers[i])
            &&& j < i ==> score_of(req, workers[j]) < score_of(req, workers[i])
        }
}

/// Whether no worker can take the container.
pub open spec fn none_admits(req: PlacementRequest, workers: Seq<WorkerView>) -> bool {
    forall|j: int| 0 <= j < workers.len() ==> !admits(req, #[trigger] workers[j])
}

/// Filter, score, pick. Highest score wins; ties break by input order.
pub fn schedule(req: &PlacementRequest, workers: &[WorkerView]) -> (r: Placement)
    ensures
        match r {
            Placement::Scheduled(name) => exists|i: int| #[trigger]
                is_best(*req, workers@, i) && name == workers@[i].name,
            Placement::Unschedulable { reason } => none_admits(*req, workers@) && reason@
                == why_unschedulable(workers@.len(), rejections(*req, workers@)),
        },
{
    let mut best: Option<(usize, i128)> = None;
    let mut reasons: Vec<RejectReason> = Vec::new();
    for i in 0..workers.len()
        invariant
            reasons@ == rejections(*req, workers@.take(i as int)),
            match best {
                Some(b) => is_best(*req, workers@.take(i as int), b.0 as int) && b.1 == score_of(
                    *req,
                    workers@[b.0 as int],
                ),
                None => none_admits(*req, workers@.take(i as int)),
            },
    {
        let ghost seen = workers@.take(i as int);
        let ghost now = workers@.take(i + 1);
        proof {
            assert(now.drop_last() =~= seen);
            assert(now.last() == workers@[i as int]);
            assert forall|j: int| 0 <= j < i implies now[j] == #[trigger] seen[j] by {}
        }
        match evaluate(req, &workers[i]) {
            Ok(score) => {
                let better = match &best {
                    Some(b) => score > b.1,
                    None => true,
                };
                if better {
                    best = Some((i, score));
                    assert(is_best(*req, now, i as int)) by {
                        assert forall|j: int| 0 <= j < now.len() && admits(
                            *req,
                            #[trigger] now[j],
                        ) implies score_of(*req, now[j]) <= score_of(*req, now[i as int]) && (j < i
                            ==> score_of(*req, now[j]) < score_of(*req, now[i as int])) by {
                            if j < i {
                                assert(seen[j] == now[j]);
                            }
                        }
                    }
                } else {
                    assert(is_best(*req, now, (best->0).0 as int)) by {
                        let b = (best->0).0 as int;
                        assert(now[b] == seen[b]);
                        assert forall|j: int| 0 <= j < now.len() && admits(
                            *req,
                            #[trigger] now[j],
                        ) implies score_of(*req, now[j]) <= score_of(*req, now[b]) && (j < b
                            ==> score_of(*req, now[j]) < score_of(*req, now[b])) by {
                            if j < i {
                                assert(seen[j] == now[j]);
                            }
                        }
                    }
                }
            },
            Err(e) => {
                reasons.push(e);
                proof {
                    match best {
                        Some(b) => {
                            let b = b.0 as int;
                            assert(now[b] == seen[b]);
                            assert forall|j: int| 0 <= j < now.len() && admits(
                                *req,
                                #[trigger] now[j],
                            ) implies score_of(*req, now[j]) <= score_of(*req, now[b]) && (j < b
                                ==> score_of(*req, now[j]) < score_of(*req, now[b])) by {
                                if j < i {
                                    assert(seen[j] == now[j]);
                                }
                            }
                            assert(is_best(*req, now, b));
                        },
                        None => {
                            assert forall|j: int| 0 <= j < now.len() implies !admits(
                                *req,
                                #[trigger] now[j],
                            ) by {
                                if j < i {
                                    assert(seen[j] == now[j]);
                                }
                            }
                        },
                    }
                }
            },
        }
    }
    assert(workers@.take(workers@.len() as int) =~= workers@);
    match best {
        Some(b) => Placement::Scheduled(workers[b.0].name.clone()),
        None => Placement::Unschedulable { reason: unschedulable_reason(workers.len(), &reasons) },
    }
}

// ---------------------------------------------------------------------------
// What holds of every placement
// ---------------------------------------------------------------------------

/// At most one worker is the one to take the container.
pub proof fn law_choice_is_unique(
    req: PlacementRequest,
    workers: Seq<WorkerView>,
    i: int,
    j: int,
)
    requires
        is_best(req, workers, i),
        is_best(req, workers, j),
    ensures
        i == j,
{
    if i < j {
        assert(admits(req, workers[i]));
    } else if j < i {
        assert(admits(req, workers[j]));
    }
}

/// Whether a request sets nothing but resources.
pub open spec fn is_plain(req: PlacementRequest) -> bool {
    &&& req.node_name is None
    &&& req.node_selector@.len() == 0
    &&& req.required@.len() == 0
    &&& req.preferred@.len() == 0
    &&& req.tolerations@.len() == 0
}

/// With no placement fields set and no worker taints, the choice is the first worker, in
/// input order, that is ready, not cordoned and has room.
pub proof fn law_plain_is_first_fit(req: PlacementRequest, workers: Seq<WorkerView>, i: int)
    requires
        is_plain(req),
        forall|j: int| 0 <= j < workers.len() ==> (#[trigger] workers[j]).taints@.len() == 0,
    ensures
        is_best(req, workers, i) <==> {
            &&& 0 <= i < workers.len()
            &&& base_rejection(req, workers[i]) is None
            &&& forall|j: int|
                0 <= j < i ==> base_rejection(req, #[trigger] workers[j]) is Some
        },
{
    assert forall|j: int| 0 <= j < workers.len() implies admits(req, #[trigger] workers[j]) == (
    base_rejection(req, workers[j]) is None) && score_of(req, workers[j]) == 0 by {}
    if is_best(req, workers, i) {
        assert forall|j: int| 0 <= j < i implies base_rejection(req, #[trigger] workers[j]) is Some by {
            if base_rejection(req, workers[j]) is None {
                assert(admits(req, workers[j]));
            }
        }
    }
}

/// A pinned container is only ever placed on the worker it names.
pub proof fn law_pin_is_respected(
    req: PlacementRequest,
    workers: Seq<WorkerView>,
    i: int,
    name: WorkerName,
)
    requires
        req.node_name == Some(name),
        is_best(req, workers, i),
    ensures
        workers[i].name.0@ == name.0@,
{
}

/// The chosen worker is ready, not cordoned, and has the resources free; what was
/// committed before and what is asked now stay within what it has.
pub proof fn law_chosen_worker_has_room(
    req: PlacementRequest,
    workers: Seq<WorkerView>,
    i: int,
)
    requires
        is_best(req, workers, i),
    ensures
        workers[i].ready,
        !workers[i].unschedulable,
        req.resources.cpu > 0 ==> workers[i].allocated.cpu + req.resources.cpu
            <= workers[i].allocatable.cpu,
        req.resources.memory_bytes > 0 ==> workers[i].allocated.memory_bytes
            + req.resources.memory_bytes <= workers[i].allocatable.memory_bytes,
{
}

/// An `Exists` toleration with no key and no effect covers every taint.
pub proof fn law_blanket_toleration(tol: Toleration, taint: Taint)
    requires
        tol.operator == TolerationOperator::Exists,
        tol.key@.len() == 0,
        tol.effect is None,
    ensures
        covers(tol, taint),
{
}

/// Preferences are soft: they change no worker's admittance.
pub proof fn law_preferences_never_exclude(
    req: PlacementRequest,
    other: PlacementRequest,
    w: WorkerView,
)
    requires
        other == (PlacementRequest { preferred: other.preferred, ..req }),
    ensures
        rejection(req, w) == rejection(other, w),
{
}

/// `In` and `NotIn` say opposite things of the same key and values, and so do `Exists` and
/// `DoesNotExist`: of two such requirements a worker's labels always meet exactly one.
pub proof fn law_opposite_operators(
    r1: NodeSelectorRequirement,
    r2: NodeSelectorRequirement,
    labels: Map<Seq<char>, Seq<char>>,
)
    requires
        r1.key@ == r2.key@,
        r1.values.deep_view() == r2.values.deep_view(),
        (r1.operator is In && r2.operator is NotIn) || (r1.operator is Exists
            && r2.operator is DoesNotExist),
    ensures
        requirement_holds(r1, labels) == !requirement_holds(r2, labels),
{
    let v1 = r1.values.deep_view();
    let v2 = r2.values.deep_view();
    assert(v1.len() == r1.values@.len() && v2.len() == r2.values@.len());
    assert forall|i: int| 0 <= i < v1.len() implies (#[trigger] r1.values@[i])@ == r2.values@[i]@ by {
        assert(v1[i] == r1.values@[i]@ && v2[i] == r2.values@[i]@);
    }
    assert forall|s: Seq<char>| listed(r1.values@, s) == listed(r2.values@, s) by {
        if listed(r1.values@, s) {
            let i = choose|i: int| 0 <= i < r1.values@.len() && (#[trigger] r1.values@[i])@ == s;
            assert(r2.values@[i]@ == s);
        }
        if listed(r2.values@, s) {
            let i = choose|i: int| 0 <= i < r2.values@.len() && (#[trigger] r2.values@[i])@ == s;
            assert(v1[i] == v2[i] && v1[i] == r1.values@[i]@);
        }
    }
}

/// How often the given kinds occur, taken together.
pub open spec fn tally_sum(reasons: Seq<RejectReason>, ks: Seq<RejectReason>) -> nat
    decreases ks.len(),
{
    if ks.len() == 0 {
        0
    } else {
        tally_sum(reasons, ks.drop_last()) + occurrences(reasons, ks.last())
    }
}

proof fn lemma_tally_sum_push(reasons: Seq<RejectReason>, r: RejectReason, ks: Seq<RejectReason>)
    requires
        ks.no_duplicates(),
    ensures
        tally_sum(reasons.push(r), ks) == tally_sum(reasons, ks) + if ks.contains(r) {
            1nat
        } else {
            0nat
        },
    decreases ks.len(),
{
    if ks.len() > 0 {
        let init = ks.drop_last();
        lemma_tally_sum_push(reasons, r, init);
        assert(reasons.push(r).drop_last() =~= reasons);
        assert(ks =~= init.push(ks.last()));
        if ks.last() == r {
            assert(!init.contains(r)) by {
                if init.contains(r) {
                    let k = choose|k: int| 0 <= k < init.len() && init[k] == r;
                    assert(ks[k] == ks[ks.len() - 1]);
                }
            }
            assert(ks[ks.len() - 1] == r);
        } else if init.contains(r) {
            let k = choose|k: int| 0 <= k < init.len() && init[k] == r;
            assert(ks[k] == r);
        } else if ks.contains(r) {
            let k = choose|k: int| 0 <= k < ks.len() && ks[k] == r;
            assert(init[k] == r);
        }
    }
}

/// The tallies account for every rejection: their counts add up to how many there are.
pub proof fn law_tally_is_complete(reasons: Seq<RejectReason>)
    ensures
        tally_sum(reasons, kinds(reasons)) == reasons.len(),
    decreases reasons.len(),
{
    if reasons.len() > 0 {
        let init = reasons.drop_last();
        let r = reasons.last();
        law_tally_is_complete(init);
        lemma_kinds_distinct(init);
        lemma_occurrences(init, r);
        assert(reasons =~= init.push(r));
        lemma_tally_sum_push(init, r, kinds(init));
        if !kinds(init).contains(r) {
            assert(kinds(reasons).drop_last() =~= kinds(init));
        }
    }
}

/// Where no worker takes the container, every worker has its rejection.
pub proof fn law_every_rejection_is_counted(req: PlacementRequest, workers: Seq<WorkerView>)
    requires
        none_admits(req, workers),
    ensures
        rejections(req, workers).len() == workers.len(),
        tally_sum(rejections(req, workers), kinds(rejections(req, workers))) == workers.len(),
    decreases workers.len(),
{
    law_tally_is_complete(rejections(req, workers));
    if workers.len() > 0 {
        let init = workers.drop_last();
        assert forall|j: int| 0 <= j < init.len() implies !admits(req, #[trigger] init[j]) by {
            assert(init[j] == workers[j]);
        }
        law_every_rejection_is_counted(req, init);
        assert(workers.last() == workers[workers.len() - 1]);
    }
}

/// Whether there is no expression of a term that the labels do not meet.
pub open spec fn no_expression_fails(
    t: NodeSelectorTerm,
    labels: Map<Seq<char>, Seq<char>>,
) -> bool {
    !exists|k: int|
        0 <= k < t.match_expressions@.len() && !requirement_holds(
            #[trigger] t.match_expressions@[k],
            labels,
        )
}

/// Whether the worker meets every demand of the request, one by one.
pub open spec fn meets_every_demand(req: PlacementRequest, w: WorkerView) -> bool {
    &&& w.ready
    &&& !w.unschedulable
    &&& req.resources.cpu == 0 || w.allocated.cpu + req.resources.cpu <= w.allocatable.cpu
    &&& req.resources.memory_bytes == 0 || w.allocated.memory_bytes + req.resources.memory_bytes
        <= w.allocatable.memory_bytes
    &&& req.node_name is None || (req.node_name->0).0@ == w.name.0@
    &&& forall|k: int|
        0 <= k < req.node_selector@.len() ==> w.labels@.contains_pair(
            (#[trigger] req.node_selector@[k]).0@,
            req.node_selector@[k].1@,
        )
    &&& req.required@.len() == 0 || exists|t: int|
        0 <= t < req.required@.len() && no_expression_fails(
            #[trigger] req.required@[t],
            w.labels@,
        )
    &&& forall|k: int|
        0 <= k < w.taints@.len() && (#[trigger] w.taints@[k]).effect is NoSchedule ==> exists|t: int|
            0 <= t < req.tolerations@.len() && covers(
                #[trigger] req.tolerations@[t],
                w.taints@[k],
            )
}

/// A worker is admitted exactly where it meets every demand: it is ready and not cordoned,
/// what it has left covers the ask, it is the one pinned to, it carries every selector entry
/// as a label, it meets all expressions of one required term where there are any, and every
/// `NoSchedule` taint of it is tolerated.
pub proof fn law_admission_is_exact(req: PlacementRequest, w: WorkerView)
    ensures
        admits(req, w) <==> meets_every_demand(req, w),
{
    if selector_holds(req.node_selector@, w.labels@) {
        assert forall|k: int| 0 <= k < req.node_selector@.len() implies w.labels@.contains_pair(
            (#[trigger] req.node_selector@[k]).0@,
            req.node_selector@[k].1@,
        ) by {}
    }
    if meets_every_demand(req, w) {
        assert forall|k: int| 0 <= k < req.node_selector@.len() implies w.labels@.contains_key(
            (#[trigger] req.node_selector@[k]).0@,
        ) && w.labels@[req.node_selector@[k].0@] == req.node_selector@[k].1@ by {
            assert(w.labels@.contains_pair(
                req.node_selector@[k].0@,
                req.node_selector@[k].1@,
            ));
        }
        if req.required@.len() > 0 {
            let t = choose|t: int|
                0 <= t < req.required@.len() && no_expression_fails(
                    #[trigger] req.required@[t],
                    w.labels@,
                );
            assert(term_holds(req.required@[t], w.labels@));
        }
        assert(taints_allow(req, w));
    }
    if required_holds(req.required@, w.labels@) && req.required@.len() > 0 {
        let t = choose|t: int|
            0 <= t < req.required@.len() && term_holds(#[trigger] req.required@[t], w.labels@);
        assert(no_expression_fails(req.required@[t], w.labels@));
    }
    if taints_allow(req, w) {
        assert forall|k: int|
            0 <= k < w.taints@.len() && (#[trigger] w.taints@[k]).effect is NoSchedule implies exists|
            t: int,
        |
            0 <= t < req.tolerations@.len() && covers(
                #[trigger] req.tolerations@[t],
                w.taints@[k],
            ) by {
            assert(tolerated(req.tolerations@, w.taints@[k]));
        }
    }
}

/// The chosen worker carries every entry of the node selector as a label.
pub proof fn law_selector_is_met_in_full(
    req: PlacementRequest,
    workers: Seq<WorkerView>,
    i: int,
    k: int,
)
    requires
        is_best(req, workers, i),
        0 <= k < req.node_selector@.len(),
    ensures
        workers[i].labels@.contains_pair(req.node_selector@[k].0@, req.node_selector@[k].1@),
{
    law_admission_is_exact(req, workers[i]);
}

/// One more selector entry only ever narrows: a worker admitted with it is admitted without
/// it, and one admitted without it stays admitted exactly where it carries the entry.
pub proof fn law_selector_entries_narrow(
    req: PlacementRequest,
    more: PlacementRequest,
    entry: (String, String),
    w: WorkerView,
)
    requires
        more.node_selector@ == req.node_selector@.push(entry),
        more == (PlacementRequest { node_selector: more.node_selector, ..req }),
    ensures
        admits(more, w) <==> admits(req, w) && w.labels@.contains_pair(entry.0@, entry.1@),
{
    law_admission_is_exact(req, w);
    law_admission_is_exact(more, w);
    let n = req.node_selector@.len() as int;
    assert(more.node_selector@[n] == entry);
    assert forall|k: int| 0 <= k < n implies more.node_selector@[k] == req.node_selector@[k] by {}
    if meets_every_demand(more, w) {
        assert forall|k: int| 0 <= k < n implies w.labels@.contains_pair(
            (#[trigger] req.node_selector@[k]).0@,
            req.node_selector@[k].1@,
        ) by {
            assert(more.node_selector@[k] == req.node_selector@[k]);
        }
        assert(w.labels@.contains_pair(more.node_selector@[n].0@, more.node_selector@[n].1@));
    }
}

/// A worker is turned away for the first thing that is wrong with it, in one order, and the
/// reason says truly what that is.
pub proof fn law_rejection_names_the_first_cause(req: PlacementRequest, w: WorkerView)
    ensures
        ({
            let cpu = req.resources.cpu > 0 && w.allocated.cpu + req.resources.cpu
                > w.allocatable.cpu;
            let memory = req.resources.memory_bytes > 0 && w.allocated.memory_bytes
                + req.resources.memory_bytes > w.allocatable.memory_bytes;
            let usable = w.ready && !w.unschedulable;
            let room = usable && !cpu && !memory;
            let pinned_here = req.node_name is None || (req.node_name->0).0@ == w.name.0@;
            let labelled = forall|k: int|
                0 <= k < req.node_selector@.len() ==> w.labels@.contains_pair(
                    (#[trigger] req.node_selector@[k]).0@,
                    req.node_selector@[k].1@,
                );
            match rejection(req, w) {
                Some(RejectReason::NotReady) => !w.ready,
                Some(RejectReason::Cordoned) => w.ready && w.unschedulable,
                Some(RejectReason::InsufficientCpu) => usable && cpu,
                Some(RejectReason::InsufficientMemory) => usable && !cpu && memory,
                Some(RejectReason::NodeNameMismatch) => room && !pinned_here,
                Some(RejectReason::LabelMismatch) => room && pinned_here && !labelled,
                Some(RejectReason::AffinityMismatch) => room && pinned_here && labelled
                    && req.required@.len() > 0 && !exists|t: int|
                    0 <= t < req.required@.len() && no_expression_fails(
                        #[trigger] req.required@[t],
                        w.labels@,
                    ),
                Some(RejectReason::UntoleratedTaint) => room && pinned_here && labelled && exists|
                    k: int,
                |
                    0 <= k < w.taints@.len() && (#[trigger] w.taints@[k]).effect is NoSchedule,
                None => room && pinned_here && labelled,
            }
        }),
{
    assert forall|t: int| 0 <= t < req.required@.len() implies no_expression_fails(
        #[trigger] req.required@[t],
        w.labels@,
    ) == term_holds(req.required@[t], w.labels@) by {}
    assert(selector_holds(req.node_selector@, w.labels@) == (forall|k: int|
        0 <= k < req.node_selector@.len() ==> w.labels@.contains_pair(
            (#[trigger] req.node_selector@[k]).0@,
            req.node_selector@[k].1@,
        ))) by {
        if selector_holds(req.node_selector@, w.labels@) {
            assert forall|k: int| 0 <= k < req.node_selector@.len() implies w.labels@.contains_pair(
                (#[trigger] req.node_selector@[k]).0@,
                req.node_selector@[k].1@,
            ) by {}
        } else {
            let k = choose|k: int|
                0 <= k < req.node_selector@.len() && !(w.labels@.contains_key(
                    (#[trigger] req.node_selector@[k]).0@,
                ) && w.labels@[req.node_selector@[k].0@] == req.node_selector@[k].1@);
            assert(!w.labels@.contains_pair(
                req.node_selector@[k].0@,
                req.node_selector@[k].1@,
            ));
        }
    }
}

/// A requirement asks of its key what its operator says: to be there or not, to have one of
/// the values or none, or an integer above or below the first value.
pub proof fn law_requirements_ask_what_they_say(
    r: NodeSelectorRequirement,
    labels: Map<Seq<char>, Seq<char>>,
    value: Seq<char>,
)
    ensures
        r.operator is Exists ==> requirement_holds(r, labels) == labels.dom().contains(r.key@),
        r.operator is DoesNotExist ==> requirement_holds(r, labels) == !labels.dom().contains(
            r.key@,
        ),
        labels.contains_pair(r.key@, value) && r.operator is In ==> requirement_holds(r, labels)
            == r.values.deep_view().contains(value),
        labels.contains_pair(r.key@, value) && r.operator is NotIn ==> requirement_holds(r, labels)
            == !r.values.deep_view().contains(value),
        !labels.contains_key(r.key@) ==> requirement_holds(r, labels) == (r.operator is NotIn
            || r.operator is DoesNotExist),
        (r.operator is Gt || r.operator is Lt) && r.values@.len() == 0 ==> !requirement_holds(
            r,
            labels,
        ),
{
    let v = r.values.deep_view();
    if labels.contains_pair(r.key@, value) {
        if listed(r.values@, value) {
            let i = choose|i: int| 0 <= i < r.values@.len() && (#[trigger] r.values@[i])@ == value;
            assert(v[i] == value);
        }
        if v.contains(value) {
            let i = choose|i: int| 0 <= i < v.len() && v[i] == value;
            assert(r.values@[i]@ == value);
        }
    }
}

/// `Gt` and `Lt` compare integers, signs and all, and hold of nothing else.
pub proof fn law_comparisons_are_of_integers(
    r: NodeSelectorRequirement,
    labels: Map<Seq<char>, Seq<char>>,
    a: i64,
    b: i64,
)
    requires
        r.values@.len() > 0,
        labels.contains_key(r.key@),
    ensures
        text::integer_value(labels[r.key@]) == Some(a as int) && text::integer_value(
            r.values@[0]@,
        ) == Some(b as int) ==> {
            &&& r.operator is Gt ==> requirement_holds(r, labels) == (a > b)
            &&& r.operator is Lt ==> requirement_holds(r, labels) == (a < b)
        },
        text::integer_value(labels[r.key@]) is None || text::integer_value(r.values@[0]@) is None
            ==> {
            &&& r.operator is Gt ==> !requirement_holds(r, labels)
            &&& r.operator is Lt ==> !requirement_holds(r, labels)
        },
{
}

/// A toleration covers a taint exactly where nothing it names differs from the taint: the
/// effect, unless it names none; the key, unless it is an `Exists` without one; and, unless
/// it is an `Exists`, the value.
pub proof fn law_tolerations_cover_what_they_name(tol: Toleration, taint: Taint)
    ensures
        covers(tol, taint) <==> {
            &&& tol.effect is None || tol.effect->0 == taint.effect
            &&& tol.key@ == taint.key@ || (tol.operator is Exists && tol.key@.len() == 0)
            &&& tol.operator is Exists || tol.value@ == taint.value@
        },
{
}

/// A score is what each preference and each taint contributes: a preference that the labels
/// meet adds its weight, an untolerated `PreferNoSchedule` taint takes off one hundred, and
/// nothing else counts.
pub proof fn law_scores_add_up(
    req: PlacementRequest,
    w: WorkerView,
    more: PlacementRequest,
    pref: PreferredSchedulingTerm,
    tainted: WorkerView,
    taint: Taint,
)
    requires
        more.preferred@ == req.preferred@.push(pref),
        more.tolerations == req.tolerations,
        tainted.taints@ == w.taints@.push(taint),
        tainted.labels == w.labels,
    ensures
        req.preferred@.len() == 0 && w.taints@.len() == 0 ==> score_of(req, w) == 0,
        score_of(more, w) - score_of(req, w) == (if no_expression_fails(
            pref.preference,
            w.labels@,
        ) {
            pref.weight as int
        } else {
            0
        }),
        score_of(req, w) - score_of(req, tainted) == (if taint.effect is PreferNoSchedule
            && forall|t: int|
            0 <= t < req.tolerations@.len() ==> !covers(#[trigger] req.tolerations@[t], taint) {
            100int
        } else {
            0
        }),
{
    assert(more.preferred@.drop_last() =~= req.preferred@);
    assert(tainted.taints@.drop_last() =~= w.taints@);
    let n = unwelcome(w.taints@, req.tolerations@);
    let unwanted = taint.effect is PreferNoSchedule && !tolerated(req.tolerations@, taint);
    assert(unwanted == (taint.effect is PreferNoSchedule && forall|t: int|
        0 <= t < req.tolerations@.len() ==> !covers(#[trigger] req.tolerations@[t], taint)));
    assert(term_holds(pref.preference, w.labels@) == no_expression_fails(
        pref.preference,
        w.labels@,
    ));
    assert(unwelcome(tainted.taints@, req.tolerations@) == n + if unwanted {
        1nat
    } else {
        0nat
    });
}

/// Some worker is chosen wherever one is admitted, no admitted one scores higher than it,
/// and none that stands before it scores as high.
pub proof fn law_the_best_admitted_worker_is_chosen(
    req: PlacementRequest,
    workers: Seq<WorkerView>,
)
    ensures
        (exists|j: int| 0 <= j < workers.len() && admits(req, #[trigger] workers[j])) <==> (exists|
            i: int,
        | #[trigger]
            is_best(req, workers, i)),
        forall|i: int, j: int|
            #![trigger is_best(req, workers, i), workers[j]]
            is_best(req, workers, i) && 0 <= j < workers.len() && admits(req, workers[j]) ==> {
                &&& 0 <= i < workers.len()
                &&& admits(req, workers[i])
                &&& score_of(req, workers[j]) <= score_of(req, workers[i])
                &&& score_of(req, workers[j]) == score_of(req, workers[i]) ==> i <= j
            },
        none_admits(req, workers) <==> !exists|i: int| #[trigger] is_best(req, workers, i),
    decreases workers.len(),
{
    if workers.len() > 0 {
        let init = workers.drop_last();
        let n = workers.len() - 1;
        law_the_best_admitted_worker_is_chosen(req, init);
        if exists|j: int| 0 <= j < workers.len() && admits(req, #[trigger] workers[j]) {
            if exists|i: int| #[trigger] is_best(req, init, i) {
                let i = choose|i: int| #[trigger] is_best(req, init, i);
                assert(init[i] == workers[i]);
                if admits(req, workers[n]) && score_of(req, workers[n]) > score_of(
                    req,
                    workers[i],
                ) {
                    assert forall|j: int|
                        0 <= j < workers.len() && admits(req, #[trigger] workers[j]) implies
                        score_of(req, workers[j]) <= score_of(req, workers[n]) && (j < n
                        ==> score_of(req, workers[j]) < score_of(req, workers[n])) by {
                        if j < n {
                            assert(init[j] == workers[j]);
                        }
                    }
                    assert(is_best(req, workers, n));
                } else {
                    assert forall|j: int|
                        0 <= j < workers.len() && admits(req, #[trigger] workers[j]) implies
                        score_of(req, workers[j]) <= score_of(req, workers[i]) && (j < i
                        ==> score_of(req, workers[j]) < score_of(req, workers[i])) by {
                        if j < n {
                            assert(init[j] == workers[j]);
                        }
                    }
                    assert(is_best(req, workers, i));
                }
            } else {
                assert forall|j: int|
                    0 <= j < workers.len() && admits(req, #[trigger] workers[j]) implies j == n by {
                    if j < n {
                        assert(init[j] == workers[j]);
                    }
                }
                assert(is_best(req, workers, n));
            }
        }
    }
    assert forall|i: int, j: int|
        #![trigger is_best(req, workers, i), workers[j]]
        is_best(req, workers, i) && 0 <= j < workers.len() && admits(req, workers[j]) implies {
        &&& 0 <= i < workers.len()
        &&& admits(req, workers[i])
        &&& score_of(req, workers[j]) <= score_of(req, workers[i])
        &&& score_of(req, workers[j]) == score_of(req, workers[i]) ==> i <= j
    } by {}
}

/// The rejections of two lists of workers in a row are those of the first, then those of the
/// second; a single worker gives its own, if it is turned away.
pub proof fn law_rejections_follow_the_workers(
    req: PlacementRequest,
    a: Seq<WorkerView>,
    b: Seq<WorkerView>,
    w: WorkerView,
)
    ensures
        rejections(req, a + b) == rejections(req, a) + rejections(req, b),
        rejections(req, seq![w]) == (match rejection(req, w) {
            Some(r) => seq![r],
            None => Seq::empty(),
        }),
    decreases b.len(),
{
    reveal_with_fuel(rejections, 2);
    assert(seq![w].drop_last() =~= Seq::<WorkerView>::empty());
    assert(rejections(req, seq![w]) =~= (match rejection(req, w) {
        Some(r) => seq![r],
        None => Seq::empty(),
    }));
    if b.len() == 0 {
        assert(a + b =~= a);
    } else {
        law_rejections_follow_the_workers(req, a, b.drop_last(), w);
        assert((a + b).drop_last() =~= a + b.drop_last());
        assert((a + b).last() == b.last());
    }
    assert(rejections(req, a + b) =~= rejections(req, a) + rejections(req, b));
}

/// A tally counts how often its reason occurs, every reason that occurs has one, none has
/// two, and they stand in the order of first occurrence: what comes later never moves what
/// came before.
pub proof fn law_tallies_count_each_reason(
    reasons: Seq<RejectReason>,
    r: RejectReason,
    later: Seq<RejectReason>,
)
    ensures
        occurrences(reasons, r) == reasons.filter(|x: RejectReason| x == r).len(),
        kinds(reasons).contains(r) <==> reasons.contains(r),
        kinds(reasons).no_duplicates(),
        kinds(reasons).is_prefix_of(kinds(reasons + later)),
        reasons.len() > 0 ==> kinds(reasons).len() > 0 && kinds(reasons)[0] == reasons[0],
        tallies(reasons).len() == kinds(reasons).len(),
    decreases reasons.len() + later.len(),
{
    let is_r = |x: RejectReason| x == r;
    lemma_kinds_distinct(reasons);
    if reasons.len() > 0 {
        let init = reasons.drop_last();
        law_tallies_count_each_reason(init, r, Seq::empty());
        assert(reasons =~= init.push(reasons.last()));
        reveal(Seq::filter);
        lemma_occurrences(reasons, r);
        assert(reasons[reasons.len() - 1] == reasons.last());
        if init.contains(r) {
            let k = choose|k: int| 0 <= k < init.len() && init[k] == r;
            assert(reasons[k] == r);
        }
        if reasons.contains(r) && reasons.last() != r {
            let k = choose|k: int| 0 <= k < reasons.len() && reasons[k] == r;
            assert(init[k] == r);
        }
        if !kinds(init).contains(reasons.last()) {
            let before = kinds(init);
            assert(kinds(reasons) == before.push(reasons.last()));
            if before.contains(r) {
                let k = choose|k: int| 0 <= k < before.len() && before[k] == r;
                assert(kinds(reasons)[k] == r);
            }
            assert(kinds(reasons)[before.len() as int] == reasons.last());
        }
    } else {
        reveal(Seq::filter);
    }
    if later.len() > 0 {
        law_tallies_count_each_reason(reasons, r, later.drop_last());
        assert((reasons + later).drop_last() =~= reasons + later.drop_last());
        let mid = kinds(reasons + later.drop_last());
        assert(mid.is_prefix_of(kinds(reasons + later)));
        assert(kinds(reasons) =~= kinds(reasons + later).take(kinds(reasons).len() as int));
    } else {
        assert(reasons + later =~= reasons);
    }
}

/// No two reasons read alike.
pub proof fn law_reasons_read_differently(a: RejectReason, b: RejectReason)
    requires
        description(a) == description(b),
    ensures
        a == b,
{
    reveal_strlit("NotReady");
    reveal_strlit("cordoned");
    reveal_strlit("insufficient cpu");
    reveal_strlit("insufficient memory");
    reveal_strlit("didn't match nodeName");
    reveal_strlit("didn't match nodeSelector");
    reveal_strlit("didn't match node affinity");
    reveal_strlit("had an untolerated taint");
    assert("NotReady"@.len() == 8 && "cordoned"@.len() == 8 && "NotReady"@[0] == 'N'
        && "cordoned"@[0] == 'c');
    assert("insufficient cpu"@.len() == 16 && "insufficient memory"@.len() == 19);
    assert("didn't match nodeName"@.len() == 21 && "didn't match nodeSelector"@.len() == 25);
    assert("didn't match node affinity"@.len() == 26 && "had an untolerated taint"@.len() == 24);
}

/// Each tally gives the number of workers that were turned away for its reason, and that
/// reason.
pub proof fn law_tallies_say_how_many(reasons: Seq<RejectReason>, k: int, r: RejectReason)
    requires
        0 <= k < kinds(reasons).len(),
        r == kinds(reasons)[k],
    ensures
        tallies(reasons)[k] == text::decimal(
            reasons.filter(|x: RejectReason| x == r).len(),
        ) + " "@ + description(r),
{
    law_tallies_count_each_reason(reasons, r, Seq::empty());
}

/// The whole reason names how many workers there are, and after that every tally.
pub proof fn law_reason_holds_every_tally(
    total: nat,
    reasons: Seq<RejectReason>,
    k: int,
)
    requires
        total > 0,
        0 <= k < tallies(reasons).len(),
    ensures
        text::starts_with(why_unschedulable(total, reasons), "0/"@ + text::decimal(total)),
        text::contains(why_unschedulable(total, reasons), tallies(reasons)[k]),
{
    let parts = tallies(reasons);
    let sep = ", "@;
    let head = "0/"@ + text::decimal(total);
    let lead = head + " workers available: "@;
    let all = why_unschedulable(total, reasons);
    let list = text::joined(parts, sep);
    assert(all =~= head + (" workers available: "@ + list));
    text::law_parts_of_a_string(Seq::empty(), head, " workers available: "@ + list);
    let before = parts.take(k);
    let after = parts.skip(k + 1);
    let one = seq![parts[k]];
    assert(parts =~= before + one + after);
    text::law_joining_puts_one_separator_between(before, one, sep, parts[k]);
    text::law_joining_puts_one_separator_between(before + one, after, sep, parts[k]);
    let front = if k == 0 {
        Seq::<char>::empty()
    } else {
        text::joined(before, sep) + sep
    };
    let back = if k + 1 == parts.len() {
        Seq::<char>::empty()
    } else {
        sep + text::joined(after, sep)
    };
    if k == 0 {
        assert(before + one =~= one);
    }
    if k + 1 == parts.len() {
        assert(before + one + after =~= before + one);
    }
    assert(list =~= front + parts[k] + back);
    text::law_parts_of_a_string(lead + front, parts[k], back);
    assert(all =~= lead + front + parts[k] + back);
}

} // verus!
