//! The worker-side service proxy.
//!
//! A container's address lives on the worker's own container network and is reachable
//! from the worker and nowhere else, so something on the worker has to translate a
//! stable, externally reachable port into it.
//!
//! [`plan_bindings`] decides *what* should be listening from the Services and the
//! containers on this worker. [`NodeProxy`] keeps the table of the listeners that are up
//! and decides how to make them match.
//!
//! A node port only listens on workers that actually run a selected container: a worker
//! with no replica refuses the connection and drops out of rotation on its own.
use vstd::prelude::*;

use crate::text;

verus! {

/// One port a Service exposes, as the worker needs it: the port to listen on
/// and the port to forward to inside the container.
#[derive(Debug, Clone, Copy, PartialEq, Eq, Structural)]
pub struct ServicePortView {
    pub node_port: u16,
    pub target_port: u16,
}

impl View for ServicePortView {
    type V = ServicePortView;

    open spec fn view(&self) -> ServicePortView {
        *self
    }
}

/// A Service as the worker reads it off the API.
#[derive(Debug, PartialEq, Eq)]
pub struct ServiceView {
    pub name: String,
    pub selector: Vec<(String, String)>,
    pub ports: Vec<ServicePortView>,
}

/// What a [`ServiceView`] stands for.
#[verifier::ext_equal]
pub struct ServiceModel {
    pub name: Seq<char>,
    pub selector: Seq<(Seq<char>, Seq<char>)>,
    pub ports: Seq<ServicePortView>,
}

impl View for ServiceView {
    type V = ServiceModel;

    open spec fn view(&self) -> ServiceModel {
        ServiceModel {
            name: self.name@,
            selector: self.selector.deep_view(),
            ports: self.ports@,
        }
    }
}

impl DeepView for ServiceView {
    type V = ServiceModel;

    open spec fn deep_view(&self) -> ServiceModel {
        self@
    }
}

/// A container the server has bound to this worker, joined with what the
/// runtime reports about its instance.
#[derive(Debug, PartialEq, Eq)]
pub struct LocalContainer {
    pub labels: Vec<(String, String)>,
    /// The instance's address on the container network, when it is running and
    /// the runtime reports one.
    pub ip: Option<String>,
}

/// What a [`LocalContainer`] stands for.
#[verifier::ext_equal]
pub struct LocalModel {
    pub labels: Seq<(Seq<char>, Seq<char>)>,
    pub ip: Option<Seq<char>>,
}

impl View for LocalContainer {
    type V = LocalModel;

    open spec fn view(&self) -> LocalModel {
        LocalModel { labels: self.labels.deep_view(), ip: self.ip.deep_view() }
    }
}

impl DeepView for LocalContainer {
    type V = LocalModel;

    open spec fn deep_view(&self) -> LocalModel {
        self@
    }
}

/// One listener this worker should be running, and where it should send.
#[derive(Debug, PartialEq, Eq)]
pub struct ProxyBinding {
    pub node_port: u16,
    /// Which Service owns the port. A port reassigned to a different Service
    /// must be rebuilt rather than quietly repointed, so the owner is part of
    /// the binding's identity.
    pub service: String,
    /// `ip:port` of every local container answering for this port.
    pub backends: Vec<String>,
}

/// What a [`ProxyBinding`] stands for.
#[verifier::ext_equal]
pub struct BindingModel {
    pub node_port: u16,
    pub service: Seq<char>,
    pub backends: Seq<Seq<char>>,
}

impl View for ProxyBinding {
    type V = BindingModel;

    open spec fn view(&self) -> BindingModel {
        BindingModel {
            node_port: self.node_port,
            service: self.service@,
            backends: self.backends.deep_view(),
        }
    }
}

impl DeepView for ProxyBinding {
    type V = BindingModel;

    open spec fn deep_view(&self) -> BindingModel {
        self@
    }
}

impl Clone for ProxyBinding {
    fn clone(&self) -> (r: ProxyBinding)
        ensures
            r@ == self@,
    {
        ProxyBinding {
            node_port: self.node_port,
            service: self.service.clone(),
            backends: text::copy_strings(&self.backends),
        }
    }
}

// ---------------------------------------------------------------------------
// What should be listening
// ---------------------------------------------------------------------------

/// Whether labels satisfy every entry of a selector. An empty selector matches nothing.
pub open spec fn selects(
    selector: Seq<(Seq<char>, Seq<char>)>,
    labels: Seq<(Seq<char>, Seq<char>)>,
) -> bool {
    &&& selector.len() > 0
    &&& forall|i: int| 0 <= i < selector.len() ==> labels.contains(#[trigger] selector[i])
}

/// `ip:port` of the selected containers that have an address, in order.
pub open spec fn answering(
    selector: Seq<(Seq<char>, Seq<char>)>,
    port: u16,
    locals: Seq<LocalModel>,
) -> Seq<Seq<char>>
    decreases locals.len(),
{
    if locals.len() == 0 {
        Seq::empty()
    } else {
        let before = answering(selector, port, locals.drop_last());
        match locals.last().ip {
            Some(ip) => if selects(selector, locals.last().labels) {
                before.push(ip + ":"@ + text::decimal(port as nat))
            } else {
                before
            },
            None => before,
        }
    }
}

/// `x` at its place among strings in order; nothing where it is there already.
pub open spec fn placed(s: Seq<Seq<char>>, x: Seq<char>) -> Seq<Seq<char>>
    decreases s.len(),
{
    if s.len() == 0 || text::precedes(s.last(), x) {
        s.push(x)
    } else if s.last() == x {
        s
    } else {
        placed(s.drop_last(), x).push(s.last())
    }
}

/// The strings in order, each once.
pub open spec fn in_order(s: Seq<Seq<char>>) -> Seq<Seq<char>>
    decreases s.len(),
{
    if s.len() == 0 {
        Seq::empty()
    } else {
        placed(in_order(s.drop_last()), s.last())
    }
}

/// The bindings of the first `n` ports of a Service: those with a local backend.
pub open spec fn port_bindings(svc: ServiceModel, n: nat, locals: Seq<LocalModel>) -> Seq<
    BindingModel,
>
    decreases n,
{
    if n == 0 {
        Seq::empty()
    } else {
        let before = port_bindings(svc, (n - 1) as nat, locals);
        let port = svc.ports[n - 1];
        let backends = answering(svc.selector, port.target_port, locals);
        if backends.len() == 0 {
            before
        } else {
            before.push(
                BindingModel {
                    node_port: port.node_port,
                    service: svc.name,
                    backends: in_order(backends),
                },
            )
        }
    }
}

/// The bindings of all Services, Service by Service.
pub open spec fn all_bindings(services: Seq<ServiceModel>, locals: Seq<LocalModel>) -> Seq<
    BindingModel,
>
    decreases services.len(),
{
    if services.len() == 0 {
        Seq::empty()
    } else {
        all_bindings(services.drop_last(), locals) + port_bindings(
            services.last(),
            services.last().ports.len(),
            locals,
        )
    }
}

/// `b` behind the last binding whose port is not above its own.
pub open spec fn ranked(s: Seq<BindingModel>, b: BindingModel) -> Seq<BindingModel>
    decreases s.len(),
{
    if s.len() == 0 || s.last().node_port <= b.node_port {
        s.push(b)
    } else {
        ranked(s.drop_last(), b).push(s.last())
    }
}

/// The bindings by port; those of one port in the order they came.
pub open spec fn by_port(s: Seq<BindingModel>) -> Seq<BindingModel>
    decreases s.len(),
{
    if s.len() == 0 {
        Seq::empty()
    } else {
        ranked(by_port(s.drop_last()), s.last())
    }
}

/// The listeners a worker should be running.
pub open spec fn plan(services: Seq<ServiceModel>, locals: Seq<LocalModel>) -> Seq<BindingModel> {
    by_port(all_bindings(services, locals))
}

/// Whether a container's labels satisfy every entry of a selector. An empty
/// selector matches nothing: reading it as "match everything" would put every
/// container on this worker behind a name its owner never asked for.
fn selected(selector: &Vec<(String, String)>, labels: &Vec<(String, String)>) -> (r: bool)
    ensures
        r == selects(selector.deep_view(), labels.deep_view()),
{
    if selector.len() == 0 {
        return false;
    }
    let ghost want = selector.deep_view();
    let ghost have = labels.deep_view();
    for i in 0..selector.len()
        invariant
            want == selector.deep_view(),
            have == labels.deep_view(),
            forall|k: int| 0 <= k < i ==> have.contains(#[trigger] want[k]),
    {
        let mut found = false;
        for j in 0..labels.len()
            invariant
                i < selector@.len(),
                want == selector.deep_view(),
                have == labels.deep_view(),
                found ==> have.contains(want[i as int]),
                !found ==> forall|k: int| 0 <= k < j ==> #[trigger] have[k] != want[i as int],
        {
            if labels[j].0 == selector[i].0 && labels[j].1 == selector[i].1 {
                assert(have[j as int] == want[i as int]);
                found = true;
            }
        }
        if !found {
            assert(!have.contains(want[i as int]));
            return false;
        }
    }
    true
}

/// Puts `x` at its place among strings in order.
fn place(s: &mut Vec<String>, x: String)
    ensures
        final(s).deep_view() == placed(old(s).deep_view(), x@),
{
    let ghost all = s.deep_view();
    let mut i: usize = s.len();
    assert(all =~= all.take(i as int));
    assert(placed(all, x@) =~= placed(all.take(i as int), x@) + all.skip(i as int));
    while i > 0 && !text::is_before(&s[i - 1], &x)
        invariant
            i <= s@.len(),
            s.deep_view() == all,
            placed(all, x@) == placed(all.take(i as int), x@) + all.skip(i as int),
        decreases i,
    {
        let ghost head = all.take(i as int);
        assert(head.last() == s@[i - 1]@);
        if text::same(&s[i - 1], &x) {
            assert(head + all.skip(i as int) =~= all);
            return;
        }
        proof {
            assert(head.drop_last() =~= all.take(i - 1));
            assert(all.skip(i - 1) =~= seq![all[i - 1]] + all.skip(i as int));
            assert(placed(head, x@) == placed(all.take(i - 1), x@).push(all[i - 1]));
            assert(placed(all, x@) =~= placed(all.take(i - 1), x@) + all.skip(i - 1));
        }
        i -= 1;
    }
    proof {
        if i > 0 {
            assert(all.take(i as int).last() == s@[i - 1]@);
        }
    }
    assert(placed(all.take(i as int), x@) == all.take(i as int).push(x@));
    s.insert(i, x);
    assert(s.deep_view() =~= all.take(i as int).push(x@) + all.skip(i as int));
}

/// The addresses, in order and each once, that answer for a port.
fn backends_of(svc: &ServiceView, target_port: u16, locals: &[LocalContainer]) -> (r: Vec<String>)
    ensures
        r.deep_view() == in_order(answering(svc@.selector, target_port, locals.deep_view())),
{
    let mut out: Vec<String> = Vec::new();
    let ghost all = locals.deep_view();
    for i in 0..locals.len()
        invariant
            all == locals.deep_view(),
            out.deep_view() == in_order(answering(svc@.selector, target_port, all.take(i as int))),
    {
        proof {
            assert(all.take(i + 1).drop_last() =~= all.take(i as int));
            assert(all.take(i + 1).last() == locals@[i as int]@);
        }
        let ghost before = answering(svc@.selector, target_port, all.take(i as int));
        if let Some(ip) = &locals[i].ip {
            if selected(&svc.selector, &locals[i].labels) {
                let backend = text::cat3(ip, ":", &text::decimal_text(target_port as u64));
                assert(before.push(backend@).drop_last() =~= before);
                place(&mut out, backend);
            }
        }
    }
    assert(all.take(all.len() as int) =~= all);
    out
}

/// Puts `b` behind the last binding whose port is not above its own.
fn rank(s: &mut Vec<ProxyBinding>, b: ProxyBinding)
    ensures
        final(s).deep_view() == ranked(old(s).deep_view(), b@),
{
    let ghost all = s.deep_view();
    let mut i: usize = s.len();
    assert(all =~= all.take(i as int));
    assert(ranked(all, b@) =~= ranked(all.take(i as int), b@) + all.skip(i as int));
    while i > 0 && s[i - 1].node_port > b.node_port
        invariant
            i <= s@.len(),
            s.deep_view() == all,
            ranked(all, b@) == ranked(all.take(i as int), b@) + all.skip(i as int),
        decreases i,
    {
        proof {
            let head = all.take(i as int);
            assert(head.last() == s@[i - 1]@);
            assert(head.drop_last() =~= all.take(i - 1));
            assert(all.skip(i - 1) =~= seq![all[i - 1]] + all.skip(i as int));
            assert(ranked(head, b@) == ranked(all.take(i - 1), b@).push(all[i - 1]));
            assert(ranked(all, b@) =~= ranked(all.take(i - 1), b@) + all.skip(i - 1));
        }
        i -= 1;
    }
    proof {
        if i > 0 {
            assert(all.take(i as int).last() == s@[i - 1]@);
        }
    }
    assert(ranked(all.take(i as int), b@) == all.take(i as int).push(b@));
    s.insert(i, b);
    assert(s.deep_view() =~= all.take(i as int).push(b@) + all.skip(i as int));
}

/// Nothing answers exactly where the ordered addresses are none.
proof fn lemma_in_order_len(s: Seq<Seq<char>>)
    ensures
        in_order(s).len() == 0 <==> s.len() == 0,
    decreases s.len(),
{
    if s.len() > 0 {
        lemma_in_order_len(s.drop_last());
        lemma_placed_len(in_order(s.drop_last()), s.last());
    }
}

proof fn lemma_placed_len(s: Seq<Seq<char>>, x: Seq<char>)
    ensures
        placed(s, x).len() >= 1,
        placed(s, x).len() >= s.len(),
    decreases s.len(),
{
    if s.len() > 0 && !text::precedes(s.last(), x) && s.last() != x {
        lemma_placed_len(s.drop_last(), x);
    }
}

/// Ranking the bindings of a Service one by one ranks them behind those before it.
proof fn lemma_by_port_push(s: Seq<BindingModel>, b: BindingModel)
    ensures
        by_port(s.push(b)) == ranked(by_port(s), b),
{
    assert(s.push(b).drop_last() =~= s);
}

/// The listeners this worker should be running, given the cluster's Services and the
/// containers bound here.
///
/// A port with no local backend produces no binding at all: a connection refused is a
/// signal an upstream load balancer can act on; a connection accepted and dropped looks
/// like an application error.
pub fn plan_bindings(services: &[ServiceView], locals: &[LocalContainer]) -> (r: Vec<ProxyBinding>)
    ensures
        r.deep_view() == plan(services.deep_view(), locals.deep_view()),
{
    let mut out: Vec<ProxyBinding> = Vec::new();
    let ghost svcs = services.deep_view();
    let ghost here = locals.deep_view();
    for i in 0..services.len()
        invariant
            svcs == services.deep_view(),
            here == locals.deep_view(),
            out.deep_view() == by_port(all_bindings(svcs.take(i as int), here)),
    {
        let svc = &services[i];
        let ghost before = all_bindings(svcs.take(i as int), here);
        proof {
            assert(svcs.take(i + 1).drop_last() =~= svcs.take(i as int));
            assert(svcs.take(i + 1).last() == svc@);
            assert(before + port_bindings(svc@, 0, here) =~= before);
        }
        for j in 0..svc.ports.len()
            invariant
                here == locals.deep_view(),
                out.deep_view() == by_port(before + port_bindings(svc@, j as nat, here)),
        {
            let port = svc.ports[j];
            let backends = backends_of(svc, port.target_port, locals);
            proof {
                lemma_in_order_len(answering(svc@.selector, port.target_port, here));
            }
            if backends.len() > 0 {
                let b = ProxyBinding {
                    node_port: port.node_port,
                    service: svc.name.clone(),
                    backends,
                };
                proof {
                    let so_far = before + port_bindings(svc@, j as nat, here);
                    lemma_by_port_push(so_far, b@);
                    assert(so_far.push(b@) =~= before + port_bindings(svc@, (j + 1) as nat, here));
                }
                rank(&mut out, b);
            }
        }
    }
    assert(svcs.take(svcs.len() as int) =~= svcs);
    out
}

// ---------------------------------------------------------------------------
// What is listening
// ---------------------------------------------------------------------------

/// No two listeners share a port.
pub open spec fn distinct_ports(s: Seq<ProxyBinding>) -> bool {
    forall|i: int, j: int|
        0 <= i < j < s.len() ==> (#[trigger] s[i]).node_port != (#[trigger] s[j]).node_port
}

/// The listeners by port.
pub open spec fn table(s: Seq<ProxyBinding>) -> Map<u16, BindingModel>
    decreases s.len(),
{
    if s.len() == 0 {
        Map::empty()
    } else {
        table(s.drop_last()).insert(s.last().node_port, s.last()@)
    }
}

/// Every listener is found under its port, and nothing else is.
proof fn lemma_table(s: Seq<ProxyBinding>)
    requires
        distinct_ports(s),
    ensures
        keyed(table(s)),
        forall|i: int|
            0 <= i < s.len() ==> table(s).contains_key((#[trigger] s[i]).node_port) && table(
                s,
            )[s[i].node_port] == s[i]@,
        forall|p: u16| #[trigger]
            table(s).contains_key(p) ==> exists|i: int|
                0 <= i < s.len() && (#[trigger] s[i]).node_port == p,
    decreases s.len(),
{
    if s.len() > 0 {
        let init = s.drop_last();
        lemma_table(init);
        assert forall|i: int| 0 <= i < s.len() implies table(s).contains_key(
            (#[trigger] s[i]).node_port,
        ) && table(s)[s[i].node_port] == s[i]@ by {
            if i < s.len() - 1 {
                assert(init[i] == s[i]);
            }
        }
        assert forall|p: u16| #[trigger] table(s).contains_key(p) implies exists|i: int|
            0 <= i < s.len() && (#[trigger] s[i]).node_port == p by {
            if p == s.last().node_port {
                assert(s[s.len() - 1].node_port == p);
            } else {
                assert(table(init).contains_key(p));
                let i = choose|i: int| 0 <= i < init.len() && (#[trigger] init[i]).node_port == p;
                assert(s[i] == init[i]);
            }
        }
    }
}

/// A listener on a port that is not in the table keeps the ports distinct.
proof fn lemma_push_distinct(s: Seq<ProxyBinding>, b: ProxyBinding)
    requires
        distinct_ports(s),
        !table(s).contains_key(b.node_port),
    ensures
        distinct_ports(s.push(b)),
        table(s.push(b)) == table(s).insert(b.node_port, b@),
{
    lemma_table(s);
    let all = s.push(b);
    assert(all.drop_last() =~= s);
    assert forall|i: int, j: int| 0 <= i < j < all.len() implies (#[trigger] all[i]).node_port != (
    #[trigger] all[j]).node_port by {
        assert(all[i] == s[i]);
        if j < s.len() {
            assert(all[j] == s[j]);
        }
    }
}

/// The table of a prefix does not hold the port of what follows it.
proof fn lemma_fresh(s: Seq<ProxyBinding>, i: int)
    requires
        distinct_ports(s),
        0 <= i < s.len(),
    ensures
        distinct_ports(s.take(i)),
        !table(s.take(i)).contains_key(s[i].node_port),
        table(s.take(i + 1)) == table(s.take(i)).insert(s[i].node_port, s[i]@),
{
    let head = s.take(i);
    assert forall|x: int, y: int| 0 <= x < y < head.len() implies (#[trigger] head[x]).node_port != (
    #[trigger] head[y]).node_port by {
        assert(head[x] == s[x] && head[y] == s[y]);
    }
    lemma_table(head);
    if table(head).contains_key(s[i].node_port) {
        let k = choose|k: int| 0 <= k < head.len() && (#[trigger] head[k]).node_port == s[i].node_port;
        assert(head[k] == s[k]);
    }
    assert(s.take(i + 1).drop_last() =~= head);
    assert(s.take(i + 1).last() == s[i]);
}

/// Whether some binding wants this port for this owner.
pub open spec fn wanted(desired: Seq<BindingModel>, port: u16, service: Seq<char>) -> bool {
    exists|i: int|
        0 <= i < desired.len() && (#[trigger] desired[i]).node_port == port && desired[i].service
            == service
}

/// The listeners that keep their socket: those still wanted by the same owner.
pub open spec fn kept(m: Map<u16, BindingModel>, desired: Seq<BindingModel>) -> Map<
    u16,
    BindingModel,
> {
    m.restrict(Set::new(|p: u16| m.contains_key(p) && wanted(desired, p, m[p].service)))
}

/// The listeners that have to go: nobody wants the port any more, or another owner does.
pub open spec fn dropped(m: Map<u16, BindingModel>, desired: Seq<BindingModel>) -> Map<
    u16,
    BindingModel,
> {
    m.restrict(Set::new(|p: u16| m.contains_key(p) && !wanted(desired, p, m[p].service)))
}

/// The table with a listener's backends replaced, its owner and socket as they were.
pub open spec fn rerouted(m: Map<u16, BindingModel>, b: BindingModel) -> Map<u16, BindingModel> {
    m.insert(b.node_port, BindingModel { backends: b.backends, ..m[b.node_port] })
}

/// Whether every listener stands under its own port.
pub open spec fn keyed(m: Map<u16, BindingModel>) -> bool {
    forall|p: u16| #[trigger] m.contains_key(p) ==> m[p].node_port == p
}

/// What a binding calls for.
#[derive(Debug, Clone, Copy, PartialEq, Eq, Structural)]
pub enum Route {
    /// A listener holds the port: its backends were replaced, without a rebind.
    Update,
    /// No listener holds the port: it is to be bound.
    Bind,
}

/// The set of node-port listeners this worker is running.
#[derive(Debug)]
pub struct NodeProxy {
    live: Vec<ProxyBinding>,
}

impl View for NodeProxy {
    type V = Map<u16, BindingModel>;

    closed spec fn view(&self) -> Map<u16, BindingModel> {
        table(self.live@)
    }
}

fn is_wanted(desired: &[ProxyBinding], port: u16, service: &str) -> (r: bool)
    ensures
        r == wanted(desired.deep_view(), port, service@),
{
    let ghost all = desired.deep_view();
    for i in 0..desired.len()
        invariant
            all == desired.deep_view(),
            forall|k: int|
                0 <= k < i ==> !((#[trigger] all[k]).node_port == port && all[k].service
                    == service@),
    {
        if desired[i].node_port == port && text::same(&desired[i].service, service) {
            assert(all[i as int].node_port == port);
            return true;
        }
    }
    false
}

impl NodeProxy {
    #[verifier::type_invariant]
    spec fn inv(self) -> bool {
        distinct_ports(self.live@)
    }

    /// No listeners.
    pub fn new() -> (r: NodeProxy)
        ensures
            r@ == Map::<u16, BindingModel>::empty(),
            keyed(r@),
    {
        NodeProxy { live: Vec::new() }
    }

    /// Ports currently being served, in ascending order.
    pub fn bound_ports(&self) -> (r: Vec<u16>)
        ensures
            forall|i: int, j: int| 0 <= i < j < r@.len() ==> r@[i] < r@[j],
            forall|p: u16| #[trigger] r@.contains(p) <==> self@.contains_key(p),
            keyed(self@),
    {
        proof {
            use_type_invariant(self);
            lemma_table(self.live@);
        }
        let mut out: Vec<u16> = Vec::new();
        let ghost all = self.live@;
        for n in 0..self.live.len()
            invariant
                all == self.live@,
                distinct_ports(all),
                forall|i: int, j: int| 0 <= i < j < out@.len() ==> out@[i] < out@[j],
                forall|p: u16| #[trigger]
                    out@.contains(p) <==> exists|k: int|
                        0 <= k < n && (#[trigger] all[k]).node_port == p,
        {
            let port: u16 = self.live[n].node_port;
            let ghost before = out@;
            assert(!before.contains(port)) by {
                if before.contains(port) {
                    let k = choose|k: int| 0 <= k < n && (#[trigger] all[k]).node_port == port;
                    assert(all[k].node_port == all[n as int].node_port);
                }
            }
            let mut i: usize = out.len();
            while i > 0 && out[i - 1] > port
                invariant
                    i <= out@.len(),
                    out@ == before,
                    forall|i: int, j: int| 0 <= i < j < out@.len() ==> out@[i] < out@[j],
                    forall|k: int| i <= k < out@.len() ==> out@[k] > port,
                decreases i,
            {
                i -= 1;
            }
            proof {
                if i > 0 {
                    assert(before.contains(before[i - 1]));
                }
            }
            out.insert(i, port);
            assert forall|p: u16| #[trigger] out@.contains(p) <==> exists|k: int|
                0 <= k < n + 1 && (#[trigger] all[k]).node_port == p by {
                if out@.contains(p) {
                    let x = choose|x: int| 0 <= x < out@.len() && out@[x] == p;
                    if x < i {
                        assert(before[x] == p);
                        assert(before.contains(p));
                    } else if x > i {
                        assert(before[x - 1] == p);
                        assert(before.contains(p));
                    } else {
                        assert(all[n as int].node_port == p);
                    }
                }
                if exists|k: int| 0 <= k < n + 1 && (#[trigger] all[k]).node_port == p {
                    let k = choose|k: int| 0 <= k < n + 1 && (#[trigger] all[k]).node_port == p;
                    if k == n {
                        assert(out@[i as int] == p);
                    } else {
                        assert(before.contains(p));
                        let x = choose|x: int| 0 <= x < before.len() && before[x] == p;
                        if x < i {
                            assert(out@[x] == p);
                        } else {
                            assert(out@[x + 1] == p);
                        }
                    }
                }
            }
        }
        assert forall|p: u16| #[trigger] out@.contains(p) <==> self@.contains_key(p) by {
            if self@.contains_key(p) {
                let k = choose|k: int| 0 <= k < all.len() && (#[trigger] all[k]).node_port == p;
                assert(out@.contains(p));
            }
        }
        out
    }

    /// Takes out the listeners that nobody wants any more, or that another Service now
    /// owns, and returns them: their sockets are to be released.
    pub fn retire(&mut self, desired: &[ProxyBinding]) -> (r: Vec<ProxyBinding>)
        ensures
            final(self)@ == kept(old(self)@, desired.deep_view()),
            distinct_ports(r@),
            table(r@) == dropped(old(self)@, desired.deep_view()),
            keyed(old(self)@),
            keyed(final(self)@),
    {
        proof {
            use_type_invariant(&*self);
            lemma_table(self.live@);
        }
        let ghost all = self.live@;
        let ghost want = desired.deep_view();
        let mut stay: Vec<ProxyBinding> = Vec::new();
        let mut go: Vec<ProxyBinding> = Vec::new();
        proof {
            assert(table(stay@) =~= kept(table(all.take(0)), want));
            assert(table(go@) =~= dropped(table(all.take(0)), want));
        }
        for i in 0..self.live.len()
            invariant
                all == self.live@,
                *self == *old(self),
                want == desired.deep_view(),
                distinct_ports(all),
                distinct_ports(stay@),
                distinct_ports(go@),
                table(stay@) == kept(table(all.take(i as int)), want),
                table(go@) == dropped(table(all.take(i as int)), want),
        {
            let b = self.live[i].clone();
            proof {
                lemma_fresh(all, i as int);
                assert(b@ == all[i as int]@);
                assert(b.node_port == all[i as int].node_port) by {
                    assert(b@.node_port == all[i as int]@.node_port);
                }
            }
            let ghost seen = table(all.take(i as int));
            let ghost now = table(all.take(i + 1));
            if is_wanted(desired, b.node_port, &b.service) {
                proof {
                    lemma_push_distinct(stay@, b);
                    assert(kept(now, want) =~= kept(seen, want).insert(b.node_port, b@));
                    assert(dropped(now, want) =~= dropped(seen, want));
                }
                stay.push(b);
            } else {
                proof {
                    lemma_push_distinct(go@, b);
                    assert(kept(now, want) =~= kept(seen, want));
                    assert(dropped(now, want) =~= dropped(seen, want).insert(b.node_port, b@));
                }
                go.push(b);
            }
        }
        assert(all.take(all.len() as int) =~= all);
        self.live = stay;
        go
    }

    /// The listeners but that of `port`.
    fn without(&self, port: u16) -> (r: Vec<ProxyBinding>)
        ensures
            distinct_ports(r@),
            table(r@) == self@.remove(port),
    {
        proof {
            use_type_invariant(self);
        }
        let mut out: Vec<ProxyBinding> = Vec::new();
        let ghost all = self.live@;
        proof {
            assert(table(all.take(0)).remove(port) =~= Map::empty());
        }
        for i in 0..self.live.len()
            invariant
                all == self.live@,
                distinct_ports(all),
                distinct_ports(out@),
                table(out@) == table(all.take(i as int)).remove(port),
        {
            let b = self.live[i].clone();
            let ghost seen = table(all.take(i as int));
            let ghost now = table(all.take(i + 1));
            proof {
                lemma_fresh(all, i as int);
                assert(b.node_port == all[i as int].node_port) by {
                    assert(b@.node_port == all[i as int]@.node_port);
                }
            }
            if b.node_port != port {
                proof {
                    lemma_push_distinct(out@, b);
                    assert(now.remove(port) =~= seen.remove(port).insert(b.node_port, b@));
                }
                out.push(b);
            } else {
                assert(now.remove(port) =~= seen.remove(port));
            }
        }
        assert(all.take(all.len() as int) =~= all);
        out
    }

    /// Records that the port of `binding` was bound, and by whom.
    pub fn opened(&mut self, binding: &ProxyBinding)
        ensures
            final(self)@ == old(self)@.insert(binding.node_port, binding@),
            keyed(old(self)@),
            keyed(final(self)@),
    {
        proof {
            use_type_invariant(&*self);
            lemma_table(self.live@);
        }
        let mut next = self.without(binding.node_port);
        let b = binding.clone();
        proof {
            assert(b@.node_port == binding@.node_port);
            lemma_push_distinct(next@, b);
            assert(old(self)@.remove(binding.node_port).insert(binding.node_port, binding@)
                =~= old(self)@.insert(binding.node_port, binding@));
        }
        next.push(b);
        self.live = next;
    }

    /// Serves a binding from the listener that holds its port, if there is one: updating
    /// the backends is deliberately *not* a rebind, which would drop every connection in
    /// flight each time a replica moved.
    pub fn route(&mut self, binding: &ProxyBinding) -> (r: Route)
        ensures
            r == (if old(self)@.contains_key(binding.node_port) {
                Route::Update
            } else {
                Route::Bind
            }),
            final(self)@ == (if old(self)@.contains_key(binding.node_port) {
                rerouted(old(self)@, binding@)
            } else {
                old(self)@
            }),
            keyed(old(self)@),
            keyed(final(self)@),
    {
        proof {
            use_type_invariant(&*self);
            lemma_table(self.live@);
        }
        let mut i: usize = 0;
        while i < self.live.len() && self.live[i].node_port != binding.node_port
            invariant
                *self == *old(self),
                i <= self.live@.len(),
                forall|k: int|
                    0 <= k < i ==> (#[trigger] self.live@[k]).node_port != binding.node_port,
            decreases self.live@.len() - i,
        {
            i += 1;
        }
        if i < self.live.len() {
            let updated = ProxyBinding {
                node_port: binding.node_port,
                service: self.live[i].service.clone(),
                backends: text::copy_strings(&binding.backends),
            };
            self.opened(&updated);
            assert(self@ =~= rerouted(old(self)@, binding@));
            Route::Update
        } else {
            Route::Bind
        }
    }
}

impl Default for NodeProxy {
    fn default() -> (r: NodeProxy)
        ensures
            r@ == Map::<u16, BindingModel>::empty(),
    {
        NodeProxy::new()
    }
}

/// Which of `n` backends has turn `turn`.
pub open spec fn turn_of(turn: int, n: nat) -> int {
    turn % n as int
}

/// The backend for the connection that is number `turn`: the backends take turns. `None`
/// where there is none.
pub fn next_backend(backends: &Vec<String>, turn: usize) -> (r: Option<&String>)
    ensures
        match r {
            Some(b) => backends@.len() > 0 && *b == backends@[turn_of(
                turn as int,
                backends@.len(),
            )],
            None => backends@.len() == 0,
        },
{
    if backends.len() == 0 {
        None
    } else {
        Some(&backends[turn % backends.len()])
    }
}

// ---------------------------------------------------------------------------
// What holds of every plan
// ---------------------------------------------------------------------------

/// Whether the strings stand in order, each once.
pub open spec fn ascending(s: Seq<Seq<char>>) -> bool {
    forall|i: int, j: int|
        0 <= i < j < s.len() ==> text::precedes(#[trigger] s[i], #[trigger] s[j])
}

proof fn lemma_placed(s: Seq<Seq<char>>, x: Seq<char>)
    requires
        ascending(s),
    ensures
        ascending(placed(s, x)),
        forall|y: Seq<char>| #[trigger] placed(s, x).contains(y) <==> s.contains(y) || y == x,
    decreases s.len(),
{
    let out = placed(s, x);
    if s.len() == 0 || text::precedes(s.last(), x) {
        assert forall|i: int, j: int| 0 <= i < j < out.len() implies text::precedes(
            #[trigger] out[i],
            #[trigger] out[j],
        ) by {
            if j == s.len() && i < s.len() - 1 {
                text::lemma_precedes_transitive(s[i], s.last(), x);
            }
        }
        assert forall|y: Seq<char>| #[trigger] out.contains(y) <==> s.contains(y) || y == x by {
            if s.contains(y) {
                let k = choose|k: int| 0 <= k < s.len() && s[k] == y;
                assert(out[k] == y);
            }
            assert(out[s.len() as int] == x);
            if out.contains(y) && y != x {
                let k = choose|k: int| 0 <= k < out.len() && out[k] == y;
                assert(s[k] == y);
            }
        }
    } else if s.last() == x {
        assert(s[s.len() - 1] == x);
    } else {
        let init = s.drop_last();
        lemma_placed(init, x);
        let before = placed(init, x);
        text::lemma_precedes_total(s.last(), x);
        assert forall|i: int, j: int| 0 <= i < j < out.len() implies text::precedes(
            #[trigger] out[i],
            #[trigger] out[j],
        ) by {
            if j == before.len() {
                assert(before.contains(before[i]));
                if before[i] != x {
                    let k = choose|k: int| 0 <= k < init.len() && init[k] == before[i];
                    assert(text::precedes(s[k], s[s.len() - 1]));
                }
            } else {
                assert(text::precedes(before[i], before[j]));
            }
        }
        assert forall|y: Seq<char>| #[trigger] out.contains(y) <==> s.contains(y) || y == x by {
            if s.contains(y) {
                let k = choose|k: int| 0 <= k < s.len() && s[k] == y;
                if k < s.len() - 1 {
                    assert(init[k] == y);
                    assert(before.contains(y));
                    let m = choose|m: int| 0 <= m < before.len() && before[m] == y;
                    assert(out[m] == y);
                } else {
                    assert(out[before.len() as int] == y);
                }
            }
            if y == x {
                assert(before.contains(x));
                let m = choose|m: int| 0 <= m < before.len() && before[m] == x;
                assert(out[m] == x);
            }
            if out.contains(y) {
                let m = choose|m: int| 0 <= m < out.len() && out[m] == y;
                if m < before.len() {
                    assert(before.contains(y));
                    if y != x {
                        let k = choose|k: int| 0 <= k < init.len() && init[k] == y;
                        assert(s[k] == y);
                    }
                } else {
                    assert(s[s.len() - 1] == y);
                }
            }
        }
    }
}

/// Backends come in order and each once, and are exactly the addresses that answer.
pub proof fn law_backends_are_ordered(s: Seq<Seq<char>>)
    ensures
        ascending(in_order(s)),
        forall|y: Seq<char>| #[trigger] in_order(s).contains(y) <==> s.contains(y),
    decreases s.len(),
{
    if s.len() > 0 {
        let init = s.drop_last();
        law_backends_are_ordered(init);
        lemma_placed(in_order(init), s.last());
        assert forall|y: Seq<char>| #[trigger] in_order(s).contains(y) <==> s.contains(y) by {
            if s.contains(y) {
                let k = choose|k: int| 0 <= k < s.len() && s[k] == y;
                if k < s.len() - 1 {
                    assert(init[k] == y);
                }
            }
            if init.contains(y) {
                let k = choose|k: int| 0 <= k < init.len() && init[k] == y;
                assert(s[k] == y);
            }
            assert(s[s.len() - 1] == s.last());
        }
    }
}

/// Whether the bindings stand by ascending port.
pub open spec fn ascending_ports(s: Seq<BindingModel>) -> bool {
    forall|i: int, j: int|
        0 <= i < j < s.len() ==> (#[trigger] s[i]).node_port <= (#[trigger] s[j]).node_port
}

/// The bindings of one port, in order.
pub open spec fn of_port(s: Seq<BindingModel>, port: u16) -> Seq<BindingModel>
    decreases s.len(),
{
    if s.len() == 0 {
        Seq::empty()
    } else if s.last().node_port == port {
        of_port(s.drop_last(), port).push(s.last())
    } else {
        of_port(s.drop_last(), port)
    }
}

proof fn lemma_ranked(s: Seq<BindingModel>, b: BindingModel, port: u16)
    requires
        ascending_ports(s),
    ensures
        ascending_ports(ranked(s, b)),
        forall|k: int|
            0 <= k < ranked(s, b).len() ==> s.contains(#[trigger] ranked(s, b)[k]) || ranked(
                s,
                b,
            )[k] == b,
        of_port(ranked(s, b), port) == (if b.node_port == port {
            of_port(s, port).push(b)
        } else {
            of_port(s, port)
        }),
    decreases s.len(),
{
    let out = ranked(s, b);
    if s.len() == 0 || s.last().node_port <= b.node_port {
        assert(out.drop_last() =~= s);
        assert forall|i: int, j: int| 0 <= i < j < out.len() implies (#[trigger] out[i]).node_port
            <= (#[trigger] out[j]).node_port by {
            if j == s.len() && i < s.len() - 1 {
                assert(s[i].node_port <= s[s.len() - 1].node_port);
            }
        }
        assert forall|k: int| 0 <= k < out.len() implies s.contains(#[trigger] out[k]) || out[k]
            == b by {
            if k < s.len() {
                assert(s[k] == out[k]);
            }
        }
    } else {
        let init = s.drop_last();
        let before = ranked(init, b);
        lemma_ranked(init, b, port);
        assert(out.drop_last() =~= before);
        assert forall|i: int, j: int| 0 <= i < j < out.len() implies (#[trigger] out[i]).node_port
            <= (#[trigger] out[j]).node_port by {
            if j == before.len() {
                assert(init.contains(before[i]) || before[i] == b);
                if init.contains(before[i]) {
                    let k = choose|k: int| 0 <= k < init.len() && init[k] == before[i];
                    assert(s[k].node_port <= s[s.len() - 1].node_port);
                }
            } else {
                assert(before[i].node_port <= before[j].node_port);
            }
        }
        assert forall|k: int| 0 <= k < out.len() implies s.contains(#[trigger] out[k]) || out[k]
            == b by {
            if k < before.len() {
                if init.contains(before[k]) {
                    let m = choose|m: int| 0 <= m < init.len() && init[m] == before[k];
                    assert(s[m] == out[k]);
                }
            } else {
                assert(s[s.len() - 1] == out[k]);
            }
        }
        if s.last().node_port == port && b.node_port == port {
            assert(false);
        }
        lemma_of_port_above(init, b, port, s.last());
    }
}

/// A binding ranked before one of a higher port does not change what follows it.
proof fn lemma_of_port_above(
    init: Seq<BindingModel>,
    b: BindingModel,
    port: u16,
    last: BindingModel,
)
    requires
        last.node_port > b.node_port,
    ensures
        of_port(init.push(last), port) == (if last.node_port == port {
            of_port(init, port).push(last)
        } else {
            of_port(init, port)
        }),
        of_port(ranked(init, b).push(last), port) == (if last.node_port == port {
            of_port(ranked(init, b), port).push(last)
        } else {
            of_port(ranked(init, b), port)
        }),
{
    assert(init.push(last).drop_last() =~= init);
    assert(ranked(init, b).push(last).drop_last() =~= ranked(init, b));
}

/// A plan stands by ascending port; of each port it holds the bindings of the Services in
/// the order they came, none lost and none added.
pub proof fn law_plan_is_by_port(s: Seq<BindingModel>, port: u16)
    ensures
        ascending_ports(by_port(s)),
        of_port(by_port(s), port) == of_port(s, port),
    decreases s.len(),
{
    if s.len() > 0 {
        law_plan_is_by_port(s.drop_last(), port);
        lemma_ranked(by_port(s.drop_last()), s.last(), port);
    }
}

/// Every binding of a Service has a backend; where nothing answers there is no binding.
pub proof fn law_bindings_have_backends(svc: ServiceModel, n: nat, locals: Seq<LocalModel>)
    requires
        n <= svc.ports.len(),
    ensures
        forall|k: int|
            0 <= k < port_bindings(svc, n, locals).len() ==> (#[trigger] port_bindings(
                svc,
                n,
                locals,
            )[k]).backends.len() > 0 && port_bindings(svc, n, locals)[k].service == svc.name,
    decreases n,
{
    if n > 0 {
        let before = port_bindings(svc, (n - 1) as nat, locals);
        let all = port_bindings(svc, n, locals);
        law_bindings_have_backends(svc, (n - 1) as nat, locals);
        lemma_in_order_len(answering(svc.selector, svc.ports[n - 1].target_port, locals));
        assert forall|k: int| 0 <= k < all.len() implies (#[trigger] all[k]).backends.len() > 0
            && all[k].service == svc.name by {
            if k < before.len() {
                assert(before[k] == all[k]);
            }
        }
    }
}

/// Ranking by port adds no binding.
proof fn lemma_by_port_members(s: Seq<BindingModel>)
    ensures
        forall|k: int| 0 <= k < by_port(s).len() ==> s.contains(#[trigger] by_port(s)[k]),
    decreases s.len(),
{
    if s.len() > 0 {
        let init = s.drop_last();
        lemma_by_port_members(init);
        law_plan_is_by_port(init, 0);
        lemma_ranked(by_port(init), s.last(), 0);
        assert forall|k: int| 0 <= k < by_port(s).len() implies s.contains(
            #[trigger] by_port(s)[k],
        ) by {
            let b = by_port(s)[k];
            if b == s.last() {
                assert(s[s.len() - 1] == b);
            } else {
                let m = choose|m: int| 0 <= m < by_port(init).len() && by_port(init)[m] == b;
                assert(init.contains(by_port(init)[m]));
                let j = choose|j: int| 0 <= j < init.len() && init[j] == b;
                assert(s[j] == b);
            }
        }
    }
}

proof fn lemma_all_bindings_have_backends(services: Seq<ServiceModel>, locals: Seq<LocalModel>)
    ensures
        forall|k: int|
            0 <= k < all_bindings(services, locals).len() ==> (#[trigger] all_bindings(
                services,
                locals,
            )[k]).backends.len() > 0,
    decreases services.len(),
{
    if services.len() > 0 {
        let before = all_bindings(services.drop_last(), locals);
        let own = port_bindings(services.last(), services.last().ports.len(), locals);
        let all = all_bindings(services, locals);
        lemma_all_bindings_have_backends(services.drop_last(), locals);
        law_bindings_have_backends(services.last(), services.last().ports.len(), locals);
        assert forall|k: int| 0 <= k < all.len() implies (#[trigger] all[k]).backends.len() > 0 by {
            if k < before.len() {
                assert(before[k] == all[k]);
            } else {
                assert(own[k - before.len()] == all[k]);
            }
        }
    }
}

/// No port of a plan is without a backend.
pub proof fn law_no_port_is_dark(services: Seq<ServiceModel>, locals: Seq<LocalModel>)
    ensures
        forall|k: int|
            0 <= k < plan(services, locals).len() ==> (#[trigger] plan(
                services,
                locals,
            )[k]).backends.len() > 0,
{
    let all = all_bindings(services, locals);
    lemma_all_bindings_have_backends(services, locals);
    lemma_by_port_members(all);
    assert forall|k: int| 0 <= k < plan(services, locals).len() implies (#[trigger] plan(
        services,
        locals,
    )[k]).backends.len() > 0 by {
        let b = by_port(all)[k];
        assert(all.contains(b));
        let j = choose|j: int| 0 <= j < all.len() && all[j] == b;
        assert(all[j].backends.len() > 0);
    }
}

/// A Service with an empty selector selects nothing and gets no binding.
pub proof fn law_empty_selector_selects_nothing(
    svc: ServiceModel,
    n: nat,
    locals: Seq<LocalModel>,
)
    requires
        svc.selector.len() == 0,
        n <= svc.ports.len(),
    ensures
        port_bindings(svc, n, locals).len() == 0,
    decreases n,
{
    if n > 0 {
        law_empty_selector_selects_nothing(svc, (n - 1) as nat, locals);
        lemma_nothing_answers(svc.selector, svc.ports[n - 1].target_port, locals);
    }
}

proof fn lemma_nothing_answers(
    selector: Seq<(Seq<char>, Seq<char>)>,
    port: u16,
    locals: Seq<LocalModel>,
)
    requires
        selector.len() == 0,
    ensures
        answering(selector, port, locals).len() == 0,
    decreases locals.len(),
{
    if locals.len() > 0 {
        lemma_nothing_answers(selector, port, locals.drop_last());
    }
}

/// Strings in order, each once, are given by which strings they are.
proof fn lemma_ascending_unique(s: Seq<Seq<char>>, t: Seq<Seq<char>>)
    requires
        ascending(s),
        ascending(t),
        forall|y: Seq<char>| #[trigger] s.contains(y) <==> t.contains(y),
    ensures
        s == t,
    decreases s.len(),
{
    if s.len() == 0 {
        if t.len() > 0 {
            assert(t.contains(t[0]) && s.contains(t[0]));
        }
        assert(s =~= t);
    } else {
        assert(s.contains(s[s.len() - 1]));
        let k = choose|k: int| 0 <= k < t.len() && t[k] == s.last();
        assert(t.contains(t[t.len() - 1]) && s.contains(t.last()));
        let j = choose|j: int| 0 <= j < s.len() && s[j] == t.last();
        assert(s.last() == t.last()) by {
            if s.last() != t.last() {
                assert(text::precedes(t[k], t[t.len() - 1]));
                assert(text::precedes(s[j], s[s.len() - 1]));
                text::lemma_precedes_transitive(s.last(), t.last(), s.last());
                text::lemma_precedes_irreflexive(s.last());
            }
        }
        let s0 = s.drop_last();
        let t0 = t.drop_last();
        assert forall|y: Seq<char>| #[trigger] s0.contains(y) <==> t0.contains(y) by {
            text::lemma_precedes_irreflexive(y);
            if s0.contains(y) {
                let i = choose|i: int| 0 <= i < s0.len() && s0[i] == y;
                assert(s[i] == y && text::precedes(s[i], s[s.len() - 1]));
                assert(s.contains(y));
                let i2 = choose|i2: int| 0 <= i2 < t.len() && t[i2] == y;
                assert(t0[i2] == y);
            }
            if t0.contains(y) {
                let i = choose|i: int| 0 <= i < t0.len() && t0[i] == y;
                assert(t[i] == y && text::precedes(t[i], t[t.len() - 1]));
                assert(t.contains(y) && s.contains(y));
                let i2 = choose|i2: int| 0 <= i2 < s.len() && s[i2] == y;
                assert(s0[i2] == y);
            }
        }
        assert forall|a: int, b: int| 0 <= a < b < s0.len() implies text::precedes(
            #[trigger] s0[a],
            #[trigger] s0[b],
        ) by {
            assert(text::precedes(s[a], s[b]));
        }
        assert forall|a: int, b: int| 0 <= a < b < t0.len() implies text::precedes(
            #[trigger] t0[a],
            #[trigger] t0[b],
        ) by {
            assert(text::precedes(t[a], t[b]));
        }
        lemma_ascending_unique(s0, t0);
        assert(s =~= s0.push(s.last()));
        assert(t =~= t0.push(t.last()));
    }
}

/// Whether a container answers as `y`.
pub open spec fn answers_as(
    l: LocalModel,
    selector: Seq<(Seq<char>, Seq<char>)>,
    port: u16,
    y: Seq<char>,
) -> bool {
    &&& l.ip is Some
    &&& selects(selector, l.labels)
    &&& y == l.ip->0 + ":"@ + text::decimal(port as nat)
}

proof fn lemma_answering(
    selector: Seq<(Seq<char>, Seq<char>)>,
    port: u16,
    locals: Seq<LocalModel>,
    y: Seq<char>,
)
    ensures
        answering(selector, port, locals).contains(y) <==> exists|l: LocalModel| #[trigger]
            locals.contains(l) && answers_as(l, selector, port, y),
    decreases locals.len(),
{
    if locals.len() > 0 {
        let init = locals.drop_last();
        let last = locals.last();
        let before = answering(selector, port, init);
        let all = answering(selector, port, locals);
        lemma_answering(selector, port, init, y);
        assert(locals[locals.len() - 1] == last);
        if all.contains(y) {
            if answers_as(last, selector, port, y) {
                assert(locals.contains(last));
            } else {
                let k = choose|k: int| 0 <= k < all.len() && all[k] == y;
                assert(before[k] == y);
                assert(before.contains(y));
                let l = choose|l: LocalModel| #[trigger]
                    init.contains(l) && answers_as(l, selector, port, y);
                let i = choose|i: int| 0 <= i < init.len() && init[i] == l;
                assert(locals[i] == l);
                assert(locals.contains(l));
            }
        }
        if exists|l: LocalModel| #[trigger] locals.contains(l) && answers_as(l, selector, port, y) {
            let l = choose|l: LocalModel| #[trigger]
                locals.contains(l) && answers_as(l, selector, port, y);
            let i = choose|i: int| 0 <= i < locals.len() && locals[i] == l;
            if i < init.len() {
                assert(init[i] == l);
                assert(init.contains(l));
                assert(before.contains(y));
                let k = choose|k: int| 0 <= k < before.len() && before[k] == y;
                assert(all[k] == y);
            } else {
                assert(all[before.len() as int] == y);
            }
        }
    }
}

/// Whether two lists hold the same containers that have an address.
pub open spec fn same_addressed(a: Seq<LocalModel>, b: Seq<LocalModel>) -> bool {
    forall|l: LocalModel| l.ip is Some ==> (#[trigger] a.contains(l) <==> b.contains(l))
}

proof fn lemma_same_backends(
    selector: Seq<(Seq<char>, Seq<char>)>,
    port: u16,
    a: Seq<LocalModel>,
    b: Seq<LocalModel>,
)
    requires
        same_addressed(a, b),
    ensures
        in_order(answering(selector, port, a)) == in_order(answering(selector, port, b)),
        answering(selector, port, a).len() == 0 <==> answering(selector, port, b).len() == 0,
{
    let x = answering(selector, port, a);
    let z = answering(selector, port, b);
    law_backends_are_ordered(x);
    law_backends_are_ordered(z);
    assert forall|y: Seq<char>| #[trigger] in_order(x).contains(y) <==> in_order(z).contains(y) by {
        lemma_answering(selector, port, a, y);
        lemma_answering(selector, port, b, y);
        if x.contains(y) {
            let l = choose|l: LocalModel| #[trigger]
                a.contains(l) && answers_as(l, selector, port, y);
            assert(b.contains(l));
        }
        if z.contains(y) {
            let l = choose|l: LocalModel| #[trigger]
                b.contains(l) && answers_as(l, selector, port, y);
            assert(a.contains(l));
        }
    }
    lemma_ascending_unique(in_order(x), in_order(z));
    lemma_in_order_len(x);
    lemma_in_order_len(z);
}

proof fn lemma_same_port_bindings(
    svc: ServiceModel,
    n: nat,
    a: Seq<LocalModel>,
    b: Seq<LocalModel>,
)
    requires
        same_addressed(a, b),
    ensures
        port_bindings(svc, n, a) == port_bindings(svc, n, b),
    decreases n,
{
    if n > 0 {
        lemma_same_port_bindings(svc, (n - 1) as nat, a, b);
        lemma_same_backends(svc.selector, svc.ports[n - 1].target_port, a, b);
    }
}

proof fn lemma_same_bindings(
    services: Seq<ServiceModel>,
    a: Seq<LocalModel>,
    b: Seq<LocalModel>,
)
    requires
        same_addressed(a, b),
    ensures
        all_bindings(services, a) == all_bindings(services, b),
    decreases services.len(),
{
    if services.len() > 0 {
        lemma_same_bindings(services.drop_last(), a, b);
        lemma_same_port_bindings(services.last(), services.last().ports.len(), a, b);
    }
}

/// A plan depends only on which containers have an address: not on the order in which the
/// local containers are listed, nor on how often one is, nor on those without an address.
pub proof fn law_plan_is_of_the_addressed(
    services: Seq<ServiceModel>,
    a: Seq<LocalModel>,
    b: Seq<LocalModel>,
)
    requires
        same_addressed(a, b),
    ensures
        plan(services, a) == plan(services, b),
{
    lemma_same_bindings(services, a, b);
}

// ---------------------------------------------------------------------------
// What holds of every sync
// ---------------------------------------------------------------------------

/// The table once a binding was served: rerouted where a listener holds its port, else
/// opened, unless the port is one that cannot be bound.
pub open spec fn served(
    m: Map<u16, BindingModel>,
    b: BindingModel,
    blocked: Set<u16>,
) -> Map<u16, BindingModel> {
    if m.contains_key(b.node_port) {
        rerouted(m, b)
    } else if blocked.contains(b.node_port) {
        m
    } else {
        m.insert(b.node_port, b)
    }
}

/// The table once all bindings were served, in order.
pub open spec fn all_served(
    m: Map<u16, BindingModel>,
    desired: Seq<BindingModel>,
    blocked: Set<u16>,
) -> Map<u16, BindingModel>
    decreases desired.len(),
{
    if desired.len() == 0 {
        m
    } else {
        served(all_served(m, desired.drop_last(), blocked), desired.last(), blocked)
    }
}

/// The table after a whole sync: first the listeners that have to go are retired, then the
/// bindings are served.
pub open spec fn synced(
    m: Map<u16, BindingModel>,
    desired: Seq<BindingModel>,
    blocked: Set<u16>,
) -> Map<u16, BindingModel> {
    all_served(kept(m, desired), desired, blocked)
}

/// Whether no two bindings want one port.
pub open spec fn one_per_port(desired: Seq<BindingModel>) -> bool {
    forall|i: int, j: int|
        0 <= i < j < desired.len() ==> (#[trigger] desired[i]).node_port != (
        #[trigger] desired[j]).node_port
}

proof fn lemma_all_served(
    m: Map<u16, BindingModel>,
    desired: Seq<BindingModel>,
    blocked: Set<u16>,
)
    requires
        one_per_port(desired),
        forall|p: u16| #[trigger] m.contains_key(p) ==> m[p].node_port == p,
    ensures
        forall|p: u16| #[trigger]
            all_served(m, desired, blocked).contains_key(p) ==> m.contains_key(p) || exists|i: int|
                0 <= i < desired.len() && (#[trigger] desired[i]).node_port == p,
        forall|p: u16|
            m.contains_key(p) ==> #[trigger] all_served(m, desired, blocked).contains_key(p),
        forall|p: u16|
            m.contains_key(p) && (forall|i: int|
                0 <= i < desired.len() ==> (#[trigger] desired[i]).node_port != p)
                ==> #[trigger] all_served(m, desired, blocked)[p] == m[p],
        forall|i: int|
            0 <= i < desired.len() ==> {
                let b = #[trigger] desired[i];
                let after = all_served(m, desired, blocked);
                if m.contains_key(b.node_port) {
                    after.contains_key(b.node_port) && after[b.node_port] == (BindingModel {
                        service: m[b.node_port].service,
                        ..b
                    })
                } else if blocked.contains(b.node_port) {
                    !after.contains_key(b.node_port)
                } else {
                    after.contains_key(b.node_port) && after[b.node_port] == b
                }
            },
    decreases desired.len(),
{
    if desired.len() > 0 {
        let init = desired.drop_last();
        let last = desired.last();
        assert forall|i: int, j: int| 0 <= i < j < init.len() implies (#[trigger] init[i]).node_port
            != (#[trigger] init[j]).node_port by {
            assert(init[i] == desired[i] && init[j] == desired[j]);
        }
        lemma_all_served(m, init, blocked);
        let before = all_served(m, init, blocked);
        let after = all_served(m, desired, blocked);
        assert forall|i: int| 0 <= i < init.len() implies (#[trigger] init[i]).node_port
            != last.node_port by {
            assert(init[i] == desired[i]);
            assert(desired[desired.len() - 1] == last);
        }
        assert(before.contains_key(last.node_port) == m.contains_key(last.node_port)) by {
            if before.contains_key(last.node_port) && !m.contains_key(last.node_port) {
                let i = choose|i: int|
                    0 <= i < init.len() && (#[trigger] init[i]).node_port == last.node_port;
                assert(init[i].node_port != last.node_port);
            }
        }
        assert forall|p: u16| #[trigger] after.contains_key(p) implies m.contains_key(p) || exists|
            i: int,
        |
            0 <= i < desired.len() && (#[trigger] desired[i]).node_port == p by {
            if p == last.node_port {
                assert(desired[desired.len() - 1].node_port == p);
            } else if !m.contains_key(p) {
                assert(before.contains_key(p));
                let i = choose|i: int| 0 <= i < init.len() && (#[trigger] init[i]).node_port == p;
                assert(desired[i] == init[i]);
            }
        }
        assert forall|i: int| 0 <= i < desired.len() implies {
            let b = #[trigger] desired[i];
            if m.contains_key(b.node_port) {
                after.contains_key(b.node_port) && after[b.node_port] == (BindingModel {
                    service: m[b.node_port].service,
                    ..b
                })
            } else if blocked.contains(b.node_port) {
                !after.contains_key(b.node_port)
            } else {
                after.contains_key(b.node_port) && after[b.node_port] == b
            }
        } by {
            if i < desired.len() - 1 {
                assert(init[i] == desired[i]);
                assert(desired[i].node_port != desired[desired.len() - 1].node_port);
            } else if m.contains_key(last.node_port) {
                assert(before[last.node_port] == m[last.node_port]);
            }
        }
        assert forall|p: u16|
            m.contains_key(p) && (forall|i: int|
                0 <= i < desired.len() ==> (#[trigger] desired[i]).node_port != p)
            implies #[trigger] after[p] == m[p] by {
            assert(desired[desired.len() - 1].node_port != p);
            assert forall|i: int| 0 <= i < init.len() implies (#[trigger] init[i]).node_port
                != p by {
                assert(init[i] == desired[i]);
            }
            assert(before[p] == m[p]);
        }
    }
}

/// Retiring, then routing each binding in turn and opening it where it is to be bound and
/// can be, is a sync. `tables` are the listeners in between, as [`NodeProxy::retire`],
/// [`NodeProxy::route`] and [`NodeProxy::opened`] leave them: the first once the listeners
/// that have to go were retired, each further one once one more binding was served.
pub proof fn law_steps_make_a_sync(
    m: Map<u16, BindingModel>,
    desired: Seq<BindingModel>,
    blocked: Set<u16>,
    tables: Seq<Map<u16, BindingModel>>,
)
    requires
        tables.len() == desired.len() + 1,
        tables[0] == kept(m, desired),
        forall|i: int|
            0 <= i < desired.len() ==> {
                let b = #[trigger] desired[i];
                let port = b.node_port;
                &&& tables[i].contains_key(port) ==> tables[i + 1] == rerouted(tables[i], b)
                &&& !tables[i].contains_key(port) && !blocked.contains(port) ==> tables[i + 1]
                    == tables[i].insert(port, b)
                &&& !tables[i].contains_key(port) && blocked.contains(port) ==> tables[i + 1]
                    == tables[i]
            },
    ensures
        tables.last() == synced(m, desired, blocked),
{
    lemma_steps(kept(m, desired), desired, blocked, tables, desired.len() as int);
    assert(desired.take(desired.len() as int) =~= desired);
}

proof fn lemma_steps(
    m: Map<u16, BindingModel>,
    desired: Seq<BindingModel>,
    blocked: Set<u16>,
    tables: Seq<Map<u16, BindingModel>>,
    n: int,
)
    requires
        0 <= n <= desired.len(),
        tables[0] == m,
        forall|i: int|
            0 <= i < desired.len() ==> tables[i + 1] == served(
                tables[i],
                #[trigger] desired[i],
                blocked,
            ),
    ensures
        tables[n] == all_served(m, desired.take(n), blocked),
    decreases n,
{
    if n > 0 {
        lemma_steps(m, desired, blocked, tables, n - 1);
        assert(desired.take(n).drop_last() =~= desired.take(n - 1));
        assert(tables[n - 1 + 1] == served(tables[n - 1], desired[n - 1], blocked));
    }
}

/// A sync converges: afterwards a port is served exactly where a binding wants it, by that
/// binding's Service and with its backends. Only a port that cannot be bound, and that no
/// listener of the same owner held already, is left out, and it takes no other down.
pub proof fn law_sync_converges(
    m: Map<u16, BindingModel>,
    desired: Seq<BindingModel>,
    blocked: Set<u16>,
)
    requires
        one_per_port(desired),
        keyed(m),
    ensures
        keyed(synced(m, desired, blocked)),
        forall|p: u16| #[trigger]
            synced(m, desired, blocked).contains_key(p) ==> exists|i: int|
                0 <= i < desired.len() && (#[trigger] desired[i]).node_port == p,
        forall|i: int|
            0 <= i < desired.len() ==> {
                let b = #[trigger] desired[i];
                let held = m.contains_key(b.node_port) && m[b.node_port].service == b.service;
                let after = synced(m, desired, blocked);
                if held || !blocked.contains(b.node_port) {
                    after.contains_key(b.node_port) && after[b.node_port] == b
                } else {
                    !after.contains_key(b.node_port)
                }
            },
{
    let keep = kept(m, desired);
    lemma_all_served(keep, desired, blocked);
    let after = synced(m, desired, blocked);
    assert forall|p: u16| #[trigger] after.contains_key(p) implies exists|i: int|
        0 <= i < desired.len() && (#[trigger] desired[i]).node_port == p by {
        if keep.contains_key(p) {
            let i = choose|i: int|
                0 <= i < desired.len() && (#[trigger] desired[i]).node_port == p
                    && desired[i].service == m[p].service;
            assert(desired[i].node_port == p);
        }
    }
    assert forall|i: int| 0 <= i < desired.len() implies {
        let b = #[trigger] desired[i];
        let held = m.contains_key(b.node_port) && m[b.node_port].service == b.service;
        if held || !blocked.contains(b.node_port) {
            after.contains_key(b.node_port) && after[b.node_port] == b
        } else {
            !after.contains_key(b.node_port)
        }
    } by {
        let b = desired[i];
        if keep.contains_key(b.node_port) {
            let j = choose|j: int|
                0 <= j < desired.len() && (#[trigger] desired[j]).node_port == b.node_port
                    && desired[j].service == m[b.node_port].service;
            assert(i == j) by {
                if i < j {
                    assert(desired[i].node_port != desired[j].node_port);
                } else if j < i {
                    assert(desired[j].node_port != desired[i].node_port);
                }
            }
        }
    }
}

/// A listener still wanted by its owner is never torn down, and one that changes owner
/// always is.
pub proof fn law_owner_decides(m: Map<u16, BindingModel>, desired: Seq<BindingModel>, p: u16)
    requires
        m.contains_key(p),
    ensures
        kept(m, desired).contains_key(p) <==> wanted(desired, p, m[p].service),
        dropped(m, desired).contains_key(p) <==> !wanted(desired, p, m[p].service),
        kept(m, desired).contains_key(p) ==> kept(m, desired)[p] == m[p],
{
}

// ---------------------------------------------------------------------------
// What a plan is for
// ---------------------------------------------------------------------------

/// A container is selected exactly where the selector is not empty and none of its entries is
/// missing from the container's labels. Labels beyond the selector's do not matter, nor does
/// their order: one more label never takes a container out, one more selector entry never
/// brings one in.
pub proof fn law_selectors_ask_for_their_entries(
    selector: Seq<(Seq<char>, Seq<char>)>,
    labels: Seq<(Seq<char>, Seq<char>)>,
    more: (Seq<char>, Seq<char>),
)
    ensures
        selects(selector, labels) <==> selector.len() > 0 && forall|e: (Seq<char>, Seq<char>)|
            #[trigger] selector.contains(e) ==> labels.contains(e),
        selects(selector, labels) ==> selects(selector, labels.push(more)),
        selector.len() > 0 ==> (selects(selector.push(more), labels) <==> selects(selector, labels)
            && labels.contains(more)),
        selects(seq![more], labels) <==> labels.contains(more),
{
    if selects(selector, labels) {
        assert forall|e: (Seq<char>, Seq<char>)| #[trigger]
            selector.contains(e) implies labels.contains(e) by {
            let i = choose|i: int| 0 <= i < selector.len() && selector[i] == e;
            assert(labels.contains(selector[i]));
        }
        assert forall|i: int| 0 <= i < selector.len() implies labels.push(more).contains(
            #[trigger] selector[i],
        ) by {
            let k = choose|k: int| 0 <= k < labels.len() && labels[k] == selector[i];
            assert(labels.push(more)[k] == selector[i]);
        }
        if labels.contains(more) {
            assert forall|i: int| 0 <= i < selector.push(more).len() implies labels.contains(
                #[trigger] selector.push(more)[i],
            ) by {
                if i < selector.len() {
                    assert(selector.push(more)[i] == selector[i]);
                }
            }
        }
    }
    if selector.len() > 0 && forall|e: (Seq<char>, Seq<char>)| #[trigger]
        selector.contains(e) ==> labels.contains(e) {
        assert forall|i: int| 0 <= i < selector.len() implies labels.contains(
            #[trigger] selector[i],
        ) by {
            assert(selector.contains(selector[i]));
        }
    }
    if selects(selector.push(more), labels) {
        assert(labels.contains(selector.push(more)[selector.len() as int]));
        assert forall|i: int| 0 <= i < selector.len() implies labels.contains(
            #[trigger] selector[i],
        ) by {
            assert(selector.push(more)[i] == selector[i]);
        }
    }
    assert(seq![more][0] == more);
}

/// Whether a container is reached as `y` behind a selector and a target port: it has an
/// address, its labels hold every entry of a selector that is not empty, and `y` is that
/// address with that port.
pub open spec fn reached_as(
    l: LocalModel,
    selector: Seq<(Seq<char>, Seq<char>)>,
    port: u16,
    y: Seq<char>,
) -> bool {
    &&& l.ip is Some
    &&& y == l.ip->0 + ":"@ + text::decimal(port as nat)
    &&& selector.len() > 0
    &&& forall|e: (Seq<char>, Seq<char>)| #[trigger] selector.contains(e) ==> l.labels.contains(e)
}

/// Whether a binding is that of a Service's port: it listens on the node port, belongs to the
/// Service, and its backends are exactly the local containers that are reached, one at least.
pub open spec fn is_binding_of(
    b: BindingModel,
    svc: ServiceModel,
    port: ServicePortView,
    locals: Seq<LocalModel>,
) -> bool {
    &&& b.node_port == port.node_port
    &&& b.service == svc.name
    &&& b.backends.len() > 0
    &&& forall|y: Seq<char>| #[trigger]
        b.backends.contains(y) <==> exists|l: LocalModel| #[trigger]
            locals.contains(l) && reached_as(l, svc.selector, port.target_port, y)
}

/// The binding that a port with a local backend gets.
spec fn binding_for(svc: ServiceModel, p: int, locals: Seq<LocalModel>) -> BindingModel {
    BindingModel {
        node_port: svc.ports[p].node_port,
        service: svc.name,
        backends: in_order(answering(svc.selector, svc.ports[p].target_port, locals)),
    }
}

proof fn lemma_binding_for(svc: ServiceModel, p: int, locals: Seq<LocalModel>)
    requires
        0 <= p < svc.ports.len(),
    ensures
        answering(svc.selector, svc.ports[p].target_port, locals).len() > 0 ==> is_binding_of(
            binding_for(svc, p, locals),
            svc,
            svc.ports[p],
            locals,
        ),
        answering(svc.selector, svc.ports[p].target_port, locals).len() == 0 ==> forall|
            l: LocalModel,
            y: Seq<char>,
        | #[trigger]
            locals.contains(l) ==> !#[trigger] reached_as(
                l,
                svc.selector,
                svc.ports[p].target_port,
                y,
            ),
{
    let port = svc.ports[p].target_port;
    let found = answering(svc.selector, port, locals);
    law_backends_are_ordered(found);
    lemma_in_order_len(found);
    assert forall|y: Seq<char>| #[trigger] found.contains(y) <==> exists|l: LocalModel| #[trigger]
        locals.contains(l) && reached_as(l, svc.selector, port, y) by {
        lemma_answering(svc.selector, port, locals, y);
        if found.contains(y) {
            let l = choose|l: LocalModel| #[trigger]
                locals.contains(l) && answers_as(l, svc.selector, port, y);
            law_selectors_ask_for_their_entries(svc.selector, l.labels, (y, y));
            assert(reached_as(l, svc.selector, port, y));
        }
        if exists|l: LocalModel| #[trigger]
            locals.contains(l) && reached_as(l, svc.selector, port, y) {
            let l = choose|l: LocalModel| #[trigger]
                locals.contains(l) && reached_as(l, svc.selector, port, y);
            law_selectors_ask_for_their_entries(svc.selector, l.labels, (y, y));
            assert(answers_as(l, svc.selector, port, y));
        }
    }
    if found.len() == 0 {
        assert forall|l: LocalModel, y: Seq<char>| #[trigger]
            locals.contains(l) implies !#[trigger] reached_as(l, svc.selector, port, y) by {
            if reached_as(l, svc.selector, port, y) {
                assert(found.contains(y));
            }
        }
    }
}

proof fn lemma_port_bindings_members(svc: ServiceModel, n: nat, locals: Seq<LocalModel>)
    requires
        n <= svc.ports.len(),
    ensures
        forall|b: BindingModel| #[trigger]
            port_bindings(svc, n, locals).contains(b) ==> exists|p: int|
                0 <= p < n && is_binding_of(b, svc, #[trigger] svc.ports[p], locals),
        forall|p: int|
            0 <= p < n && answering(svc.selector, (#[trigger] svc.ports[p]).target_port, locals).len()
                > 0 ==> port_bindings(svc, n, locals).contains(binding_for(svc, p, locals)),
    decreases n,
{
    if n > 0 {
        let before = port_bindings(svc, (n - 1) as nat, locals);
        let all = port_bindings(svc, n, locals);
        lemma_port_bindings_members(svc, (n - 1) as nat, locals);
        lemma_binding_for(svc, n - 1, locals);
        assert forall|b: BindingModel| #[trigger] all.contains(b) implies exists|p: int|
            0 <= p < n && is_binding_of(b, svc, #[trigger] svc.ports[p], locals) by {
            let k = choose|k: int| 0 <= k < all.len() && all[k] == b;
            if k < before.len() {
                assert(before[k] == b);
                assert(before.contains(b));
            } else {
                assert(is_binding_of(b, svc, svc.ports[n - 1], locals));
            }
        }
        assert forall|p: int|
            0 <= p < n && answering(
                svc.selector,
                (#[trigger] svc.ports[p]).target_port,
                locals,
            ).len() > 0 implies all.contains(binding_for(svc, p, locals)) by {
            if p < n - 1 {
                let b = binding_for(svc, p, locals);
                let k = choose|k: int| 0 <= k < before.len() && before[k] == b;
                assert(all[k] == b);
            } else {
                assert(all[before.len() as int] == binding_for(svc, p, locals));
            }
        }
    }
}

proof fn lemma_all_bindings_members(services: Seq<ServiceModel>, locals: Seq<LocalModel>)
    ensures
        forall|b: BindingModel| #[trigger]
            all_bindings(services, locals).contains(b) ==> exists|s: int, p: int|
                0 <= s < services.len() && 0 <= p < services[s].ports.len() && is_binding_of(
                    b,
                    services[s],
                    #[trigger] services[s].ports[p],
                    locals,
                ),
        forall|s: int, p: int|
            0 <= s < services.len() && 0 <= p < services[s].ports.len() && answering(
                services[s].selector,
                (#[trigger] services[s].ports[p]).target_port,
                locals,
            ).len() > 0 ==> all_bindings(services, locals).contains(
                binding_for(services[s], p, locals),
            ),
    decreases services.len(),
{
    if services.len() > 0 {
        let init = services.drop_last();
        let last = services.last();
        let n = services.len() - 1;
        let before = all_bindings(init, locals);
        let own = port_bindings(last, last.ports.len(), locals);
        let all = all_bindings(services, locals);
        lemma_all_bindings_members(init, locals);
        lemma_port_bindings_members(last, last.ports.len(), locals);
        assert(services[n] == last);
        assert forall|b: BindingModel| #[trigger] all.contains(b) implies exists|s: int, p: int|
            0 <= s < services.len() && 0 <= p < services[s].ports.len() && is_binding_of(
                b,
                services[s],
                #[trigger] services[s].ports[p],
                locals,
            ) by {
            let k = choose|k: int| 0 <= k < all.len() && all[k] == b;
            if k < before.len() {
                assert(before[k] == b);
                assert(before.contains(b));
                let (s, p) = choose|s: int, p: int|
                    0 <= s < init.len() && 0 <= p < init[s].ports.len() && is_binding_of(
                        b,
                        init[s],
                        #[trigger] init[s].ports[p],
                        locals,
                    );
                assert(services[s] == init[s]);
                assert(is_binding_of(b, services[s], services[s].ports[p], locals));
            } else {
                assert(own[k - before.len()] == b);
                assert(own.contains(b));
                let p = choose|p: int|
                    0 <= p < last.ports.len() && is_binding_of(
                        b,
                        last,
                        #[trigger] last.ports[p],
                        locals,
                    );
                assert(is_binding_of(b, services[n], services[n].ports[p], locals));
            }
        }
        assert forall|s: int, p: int|
            0 <= s < services.len() && 0 <= p < services[s].ports.len() && answering(
                services[s].selector,
                (#[trigger] services[s].ports[p]).target_port,
                locals,
            ).len() > 0 implies all.contains(binding_for(services[s], p, locals)) by {
            let b = binding_for(services[s], p, locals);
            if s < n {
                assert(init[s] == services[s]);
                assert(init[s].ports[p] == services[s].ports[p]);
                assert(before.contains(b));
                let k = choose|k: int| 0 <= k < before.len() && before[k] == b;
                assert(all[k] == b);
            } else {
                assert(last.ports[p] == services[s].ports[p]);
                assert(own.contains(b));
                let k = choose|k: int| 0 <= k < own.len() && own[k] == b;
                assert(all[before.len() + k] == b);
            }
        }
    }
}

proof fn lemma_ranked_keeps(s: Seq<BindingModel>, b: BindingModel)
    ensures
        ranked(s, b).len() == s.len() + 1,
        ranked(s, b).contains(b),
        forall|x: BindingModel| #[trigger] s.contains(x) ==> ranked(s, b).contains(x),
    decreases s.len(),
{
    let out = ranked(s, b);
    if s.len() == 0 || s.last().node_port <= b.node_port {
        assert(out[s.len() as int] == b);
        assert forall|x: BindingModel| #[trigger] s.contains(x) implies out.contains(x) by {
            let k = choose|k: int| 0 <= k < s.len() && s[k] == x;
            assert(out[k] == x);
        }
    } else {
        let init = s.drop_last();
        let before = ranked(init, b);
        lemma_ranked_keeps(init, b);
        let at = choose|k: int| 0 <= k < before.len() && before[k] == b;
        assert(out[at] == b);
        assert forall|x: BindingModel| #[trigger] s.contains(x) implies out.contains(x) by {
            let k = choose|k: int| 0 <= k < s.len() && s[k] == x;
            if k < init.len() {
                assert(init[k] == x);
                assert(init.contains(x));
                let m = choose|m: int| 0 <= m < before.len() && before[m] == x;
                assert(out[m] == x);
            } else {
                assert(out[before.len() as int] == x);
            }
        }
    }
}

proof fn lemma_by_port_keeps(s: Seq<BindingModel>)
    ensures
        by_port(s).len() == s.len(),
        forall|x: BindingModel| #[trigger] s.contains(x) ==> by_port(s).contains(x),
    decreases s.len(),
{
    if s.len() > 0 {
        let init = s.drop_last();
        lemma_by_port_keeps(init);
        lemma_ranked_keeps(by_port(init), s.last());
        assert forall|x: BindingModel| #[trigger] s.contains(x) implies by_port(s).contains(x) by {
            let k = choose|k: int| 0 <= k < s.len() && s[k] == x;
            if k < init.len() {
                assert(init[k] == x);
                assert(init.contains(x));
                assert(by_port(init).contains(x));
            }
        }
    }
}

/// A plan listens for a Service's port exactly where a local container answers for it: every
/// binding is that of some Service's port, with exactly the containers that are selected and
/// have an address as its backends, and every port that has such a container gets one.
pub proof fn law_plan_serves_what_is_selected(
    services: Seq<ServiceModel>,
    locals: Seq<LocalModel>,
)
    ensures
        forall|b: BindingModel| #[trigger]
            plan(services, locals).contains(b) ==> exists|s: int, p: int|
                0 <= s < services.len() && 0 <= p < services[s].ports.len() && is_binding_of(
                    b,
                    services[s],
                    #[trigger] services[s].ports[p],
                    locals,
                ),
        forall|s: int, p: int, l: LocalModel, y: Seq<char>|
            #![trigger services[s].ports[p], reached_as(l, services[s].selector, services[s].ports[p].target_port, y)]
            0 <= s < services.len() && 0 <= p < services[s].ports.len() && locals.contains(l)
                && reached_as(l, services[s].selector, services[s].ports[p].target_port, y)
                ==> exists|b: BindingModel| #[trigger]
                plan(services, locals).contains(b) && is_binding_of(
                    b,
                    services[s],
                    services[s].ports[p],
                    locals,
                ),
        plan(services, locals).len() == all_bindings(services, locals).len(),
{
    let all = all_bindings(services, locals);
    lemma_all_bindings_members(services, locals);
    lemma_by_port_members(all);
    lemma_by_port_keeps(all);
    assert forall|b: BindingModel| #[trigger] plan(services, locals).contains(b) implies exists|
        s: int,
        p: int,
    |
        0 <= s < services.len() && 0 <= p < services[s].ports.len() && is_binding_of(
            b,
            services[s],
            #[trigger] services[s].ports[p],
            locals,
        ) by {
        let k = choose|k: int| 0 <= k < by_port(all).len() && by_port(all)[k] == b;
        assert(all.contains(by_port(all)[k]));
    }
    assert forall|s: int, p: int, l: LocalModel, y: Seq<char>|
        #![trigger services[s].ports[p], reached_as(l, services[s].selector, services[s].ports[p].target_port, y)]
        0 <= s < services.len() && 0 <= p < services[s].ports.len() && locals.contains(l)
            && reached_as(l, services[s].selector, services[s].ports[p].target_port, y) implies
        exists|b: BindingModel| #[trigger]
        plan(services, locals).contains(b) && is_binding_of(
            b,
            services[s],
            services[s].ports[p],
            locals,
        ) by {
        lemma_binding_for(services[s], p, locals);
        let b = binding_for(services[s], p, locals);
        assert(all.contains(b));
        assert(plan(services, locals).contains(b));
    }
}

/// The bindings of two lists of Services in a row are those of the first, then those of the
/// second, and each port adds one binding at most.
pub proof fn law_bindings_follow_the_services(
    a: Seq<ServiceModel>,
    b: Seq<ServiceModel>,
    locals: Seq<LocalModel>,
    svc: ServiceModel,
    n: nat,
)
    requires
        n < svc.ports.len(),
    ensures
        all_bindings(a + b, locals) == all_bindings(a, locals) + all_bindings(b, locals),
        all_bindings(seq![svc], locals) == port_bindings(svc, svc.ports.len(), locals),
        port_bindings(svc, 0, locals).len() == 0,
        port_bindings(svc, n, locals).is_prefix_of(port_bindings(svc, n + 1, locals)),
        port_bindings(svc, n + 1, locals).len() <= port_bindings(svc, n, locals).len() + 1,
    decreases b.len(),
{
    reveal_with_fuel(all_bindings, 2);
    assert(seq![svc].drop_last() =~= Seq::<ServiceModel>::empty());
    assert(all_bindings(seq![svc], locals) =~= port_bindings(svc, svc.ports.len(), locals));
    assert(port_bindings(svc, n, locals) =~= port_bindings(svc, n + 1, locals).take(
        port_bindings(svc, n, locals).len() as int,
    ));
    if b.len() == 0 {
        assert(a + b =~= a);
    } else {
        law_bindings_follow_the_services(a, b.drop_last(), locals, svc, n);
        assert((a + b).drop_last() =~= a + b.drop_last());
        assert((a + b).last() == b.last());
    }
    assert(all_bindings(a + b, locals) =~= all_bindings(a, locals) + all_bindings(b, locals));
}

/// Retiring parts the listeners in two: those that a binding of the same owner still wants
/// stay as they are, all others go, and none is both or neither.
pub proof fn law_retiring_parts_the_listeners(
    m: Map<u16, BindingModel>,
    desired: Seq<BindingModel>,
    p: u16,
)
    ensures
        kept(m, desired).contains_key(p) <==> m.contains_key(p) && exists|i: int|
            0 <= i < desired.len() && (#[trigger] desired[i]).node_port == p && desired[i].service
                == m[p].service,
        dropped(m, desired).contains_key(p) <==> m.contains_key(p) && !kept(
            m,
            desired,
        ).contains_key(p),
        kept(m, desired).contains_key(p) ==> kept(m, desired)[p] == m[p],
        dropped(m, desired).contains_key(p) ==> dropped(m, desired)[p] == m[p],
{
}

/// Serving a port that is held replaces the backends and nothing else, of that port and no
/// other: the socket stays, and so does its owner.
pub proof fn law_rerouting_keeps_the_socket(
    m: Map<u16, BindingModel>,
    b: BindingModel,
    other: u16,
)
    requires
        m.contains_key(b.node_port),
        keyed(m),
    ensures
        rerouted(m, b).dom() == m.dom(),
        rerouted(m, b)[b.node_port].backends == b.backends,
        rerouted(m, b)[b.node_port].service == m[b.node_port].service,
        rerouted(m, b)[b.node_port].node_port == b.node_port,
        other != b.node_port ==> rerouted(m, b)[other] == m[other],
{
    assert(rerouted(m, b).dom() =~= m.dom());
}

/// Over as many turns in a row as there are backends, every backend gets its turn, and the
/// turns start over after that.
pub proof fn law_backends_take_turns(n: nat, start: nat, i: nat)
    requires
        n > 0,
        i < n,
    ensures
        exists|t: int| start <= t < start + n && #[trigger] turn_of(t, n) == i,
        turn_of(start as int, n) < n,
        turn_of((start + n) as int, n) == turn_of(start as int, n),
{
    let r = start as int % n as int;
    vstd::arithmetic::div_mod::lemma_mod_bound(start as int, n as int);
    vstd::arithmetic::div_mod::lemma_mod_add_multiples_vanish(start as int, n as int);
    assert((start + n) as int % n as int == r) by {
        assert((n as int + start as int) % n as int == start as int % n as int);
    }
    let t = if i as int >= r {
        start as int + (i as int - r)
    } else {
        start as int + (i as int - r) + n as int
    };
    vstd::arithmetic::div_mod::lemma_fundamental_div_mod(start as int, n as int);
    let q = start as int / n as int;
    assert(turn_of(t, n) == i) by {
        if i as int >= r {
            assert(t == n as int * q + i as int);
            vstd::arithmetic::div_mod::lemma_fundamental_div_mod_converse(
                t,
                n as int,
                q,
                i as int,
            );
        } else {
            assert(t == n as int * (q + 1) + i as int) by (nonlinear_arith)
                requires
                    t == start as int + (i as int - r) + n as int,
                    start as int == n as int * q + r,
            ;
            vstd::arithmetic::div_mod::lemma_fundamental_div_mod_converse(
                t,
                n as int,
                q + 1,
                i as int,
            );
        }
    }
}

} // verus!
