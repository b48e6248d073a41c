//! The steps that a connection's handler takes, in order. A step that fails
//! ends the connection, and no later step is taken.
use vstd::prelude::*;
use crate::config::ListenerMode;
use crate::runner;

verus! {

/// Where the upstream of a connection comes from.
#[derive(Debug, Clone, Copy, PartialEq, Eq, Structural)]
pub enum Source {
    /// The pool or target of the route that was chosen for the connection.
    Route,
    /// The fixed backends of the listener.
    Listener,
    /// The host that the client asked for, once the access list allows it.
    Client,
}

/// One step of a handler.
#[derive(Debug, Clone, Copy, PartialEq, Eq, Structural)]
pub enum Step {
    /// Accept the ClientHello within so many seconds.
    AcceptHello { seconds: u64 },
    /// Close the connection if this proxy forwarded the same hello recently.
    RefuseLoopedHello,
    /// Check the server name and show it with the connection.
    TrackSni,
    /// Count the bytes of the intercepted head as uploaded.
    CountHead,
    /// Close the connection unless the access list allows the host. The record
    /// of the connection shows that it was denied, or nothing of it.
    CheckAccess { recorded: bool },
    /// Select the upstream.
    Select { source: Source },
    /// Show the upstream with the connection.
    TrackTarget,
    /// Mint a certificate for the server name.
    MintCertificate,
    /// Complete the TLS handshake within so many seconds.
    Handshake { seconds: u64 },
    /// Remember the hello that is about to be forwarded.
    RememberHello,
    /// Close the connection if the upstream is this listener.
    RefuseSelf,
    /// Connect to the upstream within so many seconds.
    Connect { seconds: u64 },
    /// Count the connection as served.
    MarkOk,
    /// Encrypt the upstream leg, within so many seconds if there is a limit.
    WrapTls { limit: Option<u64> },
    /// Send the intercepted bytes upstream.
    SendHead,
    /// Relay in both directions until one ends.
    Relay,
}

pub(crate) fn append(out: &mut Vec<Step>, step: Step, when: bool)
    ensures
        final(out)@ == old(out)@ + one(step, when),
{
    if when {
        out.push(step);
    }
    assert(out@ =~= old(out)@ + one(step, when));
}

/// A step that is taken under a condition.
pub open spec fn one(step: Step, when: bool) -> Seq<Step> {
    if when {
        seq![step]
    } else {
        seq![]
    }
}

/// How many seconds encrypting the upstream leg may take where it is limited.
pub const WRAP_SECONDS: u64 = 10;

/// What every handler does once the upstream is selected.
pub open spec fn upstream_steps(refuse_self: bool, remember: bool, wrap: bool, limit: Option<u64>, send: bool) -> Seq<Step> {
    one(Step::RememberHello, remember) + one(Step::RefuseSelf, refuse_self) + seq![
        Step::Connect { seconds: 5 },
        Step::MarkOk,
    ] + one(Step::WrapTls { limit }, wrap) + one(Step::SendHead, send) + seq![Step::Relay]
}

fn append_upstream(out: &mut Vec<Step>, refuse_self: bool, remember: bool, wrap: bool, limit: Option<u64>, send: bool)
    ensures
        final(out)@ == old(out)@ + upstream_steps(refuse_self, remember, wrap, limit, send),
{
    append(out, Step::RememberHello, remember);
    append(out, Step::RefuseSelf, refuse_self);
    out.push(Step::Connect { seconds: 5 });
    out.push(Step::MarkOk);
    append(out, Step::WrapTls { limit }, wrap);
    append(out, Step::SendHead, send);
    out.push(Step::Relay);
    assert(out@ =~= old(out)@ + upstream_steps(refuse_self, remember, wrap, limit, send));
}

/// The steps of TLS termination. A routed connection goes to its route's pool;
/// otherwise the client's host has to be allowed. The upstream is checked
/// against this listener only if it is reached over TLS.
pub open spec fn terminate_steps(routed: bool, certificate_given: bool, upstream_tls: bool) -> Seq<Step> {
    seq![Step::AcceptHello { seconds: 5 }, Step::TrackSni] + one(Step::CheckAccess { recorded: true }, !routed) + seq![
        Step::Select {
            source: if routed {
                Source::Route
            } else {
                Source::Client
            },
        },
        Step::TrackTarget,
    ] + one(Step::MintCertificate, !certificate_given) + seq![Step::Handshake { seconds: 5 }] + upstream_steps(
        upstream_tls,
        false,
        upstream_tls,
        None,
        false,
    )
}

pub fn terminate_plan(routed: bool, certificate_given: bool, upstream_tls: bool) -> (r: Vec<Step>)
    ensures
        r@ == terminate_steps(routed, certificate_given, upstream_tls),
{
    let mut out: Vec<Step> = Vec::new();
    out.push(Step::AcceptHello { seconds: 5 });
    out.push(Step::TrackSni);
    append(&mut out, Step::CheckAccess { recorded: true }, !routed);
    let source = if routed {
        Source::Route
    } else {
        Source::Client
    };
    out.push(Step::Select { source });
    out.push(Step::TrackTarget);
    append(&mut out, Step::MintCertificate, !certificate_given);
    out.push(Step::Handshake { seconds: 5 });
    append_upstream(&mut out, upstream_tls, false, upstream_tls, None, false);
    assert(out@ =~= terminate_steps(routed, certificate_given, upstream_tls));
    out
}

/// The steps of raw forwarding. The upstream is connected before any client
/// byte is read, so its address is the only guard against a loop.
pub open spec fn forward_steps(upstream_tls: bool) -> Seq<Step> {
    seq![Step::Select { source: Source::Listener }, Step::TrackTarget] + upstream_steps(
        true,
        false,
        upstream_tls,
        Some(WRAP_SECONDS),
        false,
    )
}

pub fn forward_plan(upstream_tls: bool) -> (r: Vec<Step>)
    ensures
        r@ == forward_steps(upstream_tls),
{
    let mut out: Vec<Step> = Vec::new();
    out.push(Step::Select { source: Source::Listener });
    out.push(Step::TrackTarget);
    append_upstream(&mut out, true, false, upstream_tls, Some(WRAP_SECONDS), false);
    assert(out@ =~= forward_steps(upstream_tls));
    out
}

/// The steps of TLS passthrough. The hello is remembered before the upstream
/// is connected: in a direct loop it can arrive back before the connect
/// returns.
pub open spec fn passthrough_steps(inspected: bool, routed: bool) -> Seq<Step> {
    one(Step::AcceptHello { seconds: 3 }, !inspected) + seq![
        Step::RefuseLoopedHello,
        Step::TrackSni,
        Step::CountHead,
    ] + one(Step::CheckAccess { recorded: true }, !routed) + seq![
        Step::Select {
            source: if routed {
                Source::Route
            } else {
                Source::Client
            },
        },
        Step::TrackTarget,
    ] + upstream_steps(false, true, false, None, true)
}

pub fn passthrough_plan(inspected: bool, routed: bool) -> (r: Vec<Step>)
    ensures
        r@ == passthrough_steps(inspected, routed),
{
    let mut out: Vec<Step> = Vec::new();
    append(&mut out, Step::AcceptHello { seconds: 3 }, !inspected);
    out.push(Step::RefuseLoopedHello);
    out.push(Step::TrackSni);
    out.push(Step::CountHead);
    append(&mut out, Step::CheckAccess { recorded: true }, !routed);
    let source = if routed {
        Source::Route
    } else {
        Source::Client
    };
    out.push(Step::Select { source });
    out.push(Step::TrackTarget);
    append_upstream(&mut out, false, true, false, None, true);
    assert(out@ =~= passthrough_steps(inspected, routed));
    out
}

/// The steps of plain HTTP host routing.
pub open spec fn http_steps(routed: bool, fixed_backends: bool, upstream_tls: bool) -> Seq<Step> {
    seq![Step::TrackSni, Step::CountHead] + one(Step::CheckAccess { recorded: true }, !routed) + seq![
        Step::Select {
            source: if routed {
                Source::Route
            } else if fixed_backends {
                Source::Listener
            } else {
                Source::Client
            },
        },
        Step::TrackTarget,
    ] + upstream_steps(true, false, upstream_tls, Some(WRAP_SECONDS), true)
}

pub fn http_plan(routed: bool, fixed_backends: bool, upstream_tls: bool) -> (r: Vec<Step>)
    ensures
        r@ == http_steps(routed, fixed_backends, upstream_tls),
{
    let mut out: Vec<Step> = Vec::new();
    out.push(Step::TrackSni);
    out.push(Step::CountHead);
    append(&mut out, Step::CheckAccess { recorded: true }, !routed);
    let source = if routed {
        Source::Route
    } else if fixed_backends {
        Source::Listener
    } else {
        Source::Client
    };
    out.push(Step::Select { source });
    out.push(Step::TrackTarget);
    append_upstream(&mut out, true, false, upstream_tls, Some(WRAP_SECONDS), true);
    assert(out@ =~= http_steps(routed, fixed_backends, upstream_tls));
    out
}

/// Whether `p` is the plan of some handler.
pub open spec fn is_plan(p: Seq<Step>) -> bool {
    is_tracked_plan(p) || is_worker_plan(p)
}

/// Whether `p` is the plan of a worker of a listener without routes.
pub open spec fn is_worker_plan(p: Seq<Step>) -> bool {
    exists|mode: ListenerMode, upstream_tls: bool| p == #[trigger] runner::worker_steps(mode, upstream_tls)
}

/// Whether `p` is the plan of a handler that keeps the record of its
/// connection.
pub open spec fn is_tracked_plan(p: Seq<Step>) -> bool {
    ||| exists|a: bool, b: bool, c: bool| p == #[trigger] terminate_steps(a, b, c)
    ||| exists|a: bool| p == #[trigger] forward_steps(a)
    ||| exists|a: bool, b: bool| p == #[trigger] passthrough_steps(a, b)
    ||| exists|a: bool, b: bool, c: bool| p == #[trigger] http_steps(a, b, c)
}

/// Whether the plan selects an upstream at `i`, shows it right after, connects
/// to it at `k` and counts the connection as served right after that.
pub open spec fn serves_at(p: Seq<Step>, i: int, k: int) -> bool {
    &&& 0 <= i && i + 1 < k && k + 1 < p.len()
    &&& p[i] is Select
    &&& p[i + 1] == Step::TrackTarget
    &&& p[k] == (Step::Connect { seconds: 5 })
    &&& p[k + 1] == Step::MarkOk
}

/// Whether a plan relays as its last step and nowhere else.
pub open spec fn ends_in_relay(p: Seq<Step>) -> bool {
    &&& p.len() > 0 && p.last() == Step::Relay
    &&& forall|i: int| 0 <= i < p.len() - 1 ==> #[trigger] p[i] != Step::Relay
}

/// What holds of every plan that keeps the record: it relays as its last step
/// and nowhere else, it selects an upstream and shows it before it connects,
/// and it counts the connection as served right after it connected.
pub open spec fn well_ordered(p: Seq<Step>) -> bool {
    &&& ends_in_relay(p)
    &&& exists|i: int, k: int| #[trigger] serves_at(p, i, k)
}

proof fn lemma_terminate_ordered(a: bool, b: bool, c: bool)
    ensures
        well_ordered(terminate_steps(a, b, c)),
{
    let p = terminate_steps(a, b, c);
    let i = if a { 2int } else { 3int };
    let k = p.len() - if c { 4int } else { 3int };
    assert(serves_at(p, i, k));
}

proof fn lemma_forward_ordered(a: bool)
    ensures
        well_ordered(forward_steps(a)),
{
    assert(serves_at(forward_steps(a), 0, 3));
}

proof fn lemma_passthrough_ordered(a: bool, b: bool)
    ensures
        well_ordered(passthrough_steps(a, b)),
{
    let p = passthrough_steps(a, b);
    assert(serves_at(p, p.len() - 7, p.len() - 4));
}

proof fn lemma_http_ordered(a: bool, b: bool, c: bool)
    ensures
        well_ordered(http_steps(a, b, c)),
{
    let p = http_steps(a, b, c);
    let k = p.len() - if c { 5int } else { 4int };
    assert(serves_at(p, k - 3, k));
}

/// Every plan ends in the relay.
pub proof fn plans_end_in_relay(p: Seq<Step>)
    requires
        is_plan(p),
    ensures
        ends_in_relay(p),
{
    if is_tracked_plan(p) {
        plans_are_well_ordered(p);
    }
}

/// The plan of a worker neither shows the connection's host and upstream in its
/// record nor counts it as served.
pub proof fn workers_leave_the_status_alone(p: Seq<Step>)
    requires
        is_worker_plan(p),
    ensures
        forall|i: int| 0 <= i < p.len() ==> #[trigger] p[i] != Step::MarkOk && p[i] != Step::TrackSni && p[i]
            != Step::TrackTarget,
{
}

/// Every plan that keeps the record is well ordered.
pub proof fn plans_are_well_ordered(p: Seq<Step>)
    requires
        is_tracked_plan(p),
    ensures
        well_ordered(p),
{
    if exists|a: bool, b: bool, c: bool| p == #[trigger] terminate_steps(a, b, c) {
        let (a, b, c) = choose|a: bool, b: bool, c: bool| p == #[trigger] terminate_steps(a, b, c);
        lemma_terminate_ordered(a, b, c);
    } else if exists|a: bool| p == #[trigger] forward_steps(a) {
        lemma_forward_ordered(choose|a: bool| p == #[trigger] forward_steps(a));
    } else if exists|a: bool, b: bool| p == #[trigger] passthrough_steps(a, b) {
        let (a, b) = choose|a: bool, b: bool| p == #[trigger] passthrough_steps(a, b);
        lemma_passthrough_ordered(a, b);
    } else {
        let (a, b, c) = choose|a: bool, b: bool, c: bool| p == #[trigger] http_steps(a, b, c);
        lemma_http_ordered(a, b, c);
    }
}

/// Whether a step is taken before the upstream is connected.
pub open spec fn before_connect(p: Seq<Step>, step: Step) -> bool {
    exists|i: int, k: int|
        0 <= i < k < p.len() && #[trigger] p[i] == step && #[trigger] p[k] == (Step::Connect { seconds: 5 })
}

/// Every handler that could connect to its own listener has a guard before it
/// connects: a memory of what it forwards, or a look at the address. The worker
/// that forwards raw bytes is the one without.
pub proof fn loops_are_guarded(routed: bool, given: bool, inspected: bool, fixed: bool, upstream_tls: bool)
    ensures
        before_connect(terminate_steps(routed, given, true), Step::RefuseSelf),
        before_connect(forward_steps(upstream_tls), Step::RefuseSelf),
        before_connect(http_steps(routed, fixed, upstream_tls), Step::RefuseSelf),
        before_connect(passthrough_steps(inspected, routed), Step::RememberHello),
        before_connect(passthrough_steps(inspected, routed), Step::RefuseLoopedHello),
        before_connect(runner::worker_steps(ListenerMode::Terminate, true), Step::RefuseSelf),
        before_connect(runner::worker_steps(ListenerMode::Passthrough, upstream_tls), Step::RememberHello),
        before_connect(runner::worker_steps(ListenerMode::Passthrough, upstream_tls), Step::RefuseLoopedHello),
{
    let t = terminate_steps(routed, given, true);
    assert(t[t.len() - 5] == Step::RefuseSelf && t[t.len() - 4] == (Step::Connect { seconds: 5 }));
    let f = forward_steps(upstream_tls);
    assert(f[2] == Step::RefuseSelf && f[3] == (Step::Connect { seconds: 5 }));
    let h = http_steps(routed, fixed, upstream_tls);
    let k = h.len() - if upstream_tls { 5int } else { 4int };
    assert(h[k - 1] == Step::RefuseSelf && h[k] == (Step::Connect { seconds: 5 }));
    let p = passthrough_steps(inspected, routed);
    let n = p.len() - 4;
    assert(p[n - 1] == Step::RememberHello && p[n] == (Step::Connect { seconds: 5 }));
    let l = if inspected { 0int } else { 1int };
    assert(p[l] == Step::RefuseLoopedHello);
    let w = runner::worker_steps(ListenerMode::Terminate, true);
    assert(w[5] == Step::RefuseSelf && w[6] == (Step::Connect { seconds: 5 }));
    let v = runner::worker_steps(ListenerMode::Passthrough, upstream_tls);
    assert(v[1] == Step::RefuseLoopedHello && v[4] == Step::RememberHello && v[5] == (Step::Connect { seconds: 5 }));
}

/// A connection without a route reaches the client's host only past the access
/// list.
pub proof fn unrouted_hosts_pass_the_access_list(given: bool, inspected: bool, fixed: bool, upstream_tls: bool)
    ensures
        before_connect(terminate_steps(false, given, upstream_tls), Step::CheckAccess { recorded: true }),
        before_connect(passthrough_steps(inspected, false), Step::CheckAccess { recorded: true }),
        before_connect(http_steps(false, fixed, upstream_tls), Step::CheckAccess { recorded: true }),
        before_connect(runner::worker_steps(ListenerMode::Terminate, upstream_tls), Step::CheckAccess { recorded: false }),
        before_connect(runner::worker_steps(ListenerMode::Passthrough, upstream_tls), Step::CheckAccess { recorded: false }),
{
    let t = terminate_steps(false, given, upstream_tls);
    let c = t.len() - if upstream_tls { 4int } else { 3int };
    assert(t[2] == (Step::CheckAccess { recorded: true }) && t[c] == (Step::Connect { seconds: 5 }));
    let p = passthrough_steps(inspected, false);
    let l = if inspected { 3int } else { 4int };
    assert(p[l] == (Step::CheckAccess { recorded: true }) && p[p.len() - 4] == (Step::Connect { seconds: 5 }));
    let h = http_steps(false, fixed, upstream_tls);
    let k = h.len() - if upstream_tls { 5int } else { 4int };
    assert(h[2] == (Step::CheckAccess { recorded: true }) && h[k] == (Step::Connect { seconds: 5 }));
    let w = runner::worker_steps(ListenerMode::Terminate, upstream_tls);
    let m = if upstream_tls { 6int } else { 5int };
    assert(w[1] == (Step::CheckAccess { recorded: false }) && w[m] == (Step::Connect { seconds: 5 }));
    let v = runner::worker_steps(ListenerMode::Passthrough, upstream_tls);
    assert(v[2] == (Step::CheckAccess { recorded: false }) && v[5] == (Step::Connect { seconds: 5 }));
}

/// What the order of a plan means for two of its steps.
pub open spec fn in_order(p: Seq<Step>, i: int, j: int) -> bool {
    &&& p[i] is AcceptHello ==> i == 0
    &&& p[i] is Select && (p[j] == Step::TrackTarget || p[j] == Step::RefuseSelf) ==> i < j
    &&& p[i] is Connect && p[j] == Step::MarkOk ==> i < j
    &&& p[i] is CheckAccess && p[j] is Connect ==> i < j
}

/// Whether the plan holds for all pairs of its steps.
pub open spec fn ordered(p: Seq<Step>) -> bool {
    forall|i: int, j: int| 0 <= i < p.len() && 0 <= j < p.len() ==> #[trigger] in_order(p, i, j)
}

proof fn lemma_terminate_in_order(a: bool, b: bool, c: bool)
    ensures
        ordered(terminate_steps(a, b, c)),
{
}

proof fn lemma_forward_in_order(a: bool)
    ensures
        ordered(forward_steps(a)),
{
}

proof fn lemma_passthrough_in_order(a: bool, b: bool)
    ensures
        ordered(passthrough_steps(a, b)),
{
}

proof fn lemma_worker_in_order(p: Seq<Step>)
    requires
        is_worker_plan(p),
    ensures
        ordered(p),
{
}

proof fn lemma_http_in_order(a: bool, b: bool, c: bool)
    ensures
        ordered(http_steps(a, b, c)),
{
}

/// In every plan a hello is accepted first, an upstream is selected before it
/// is shown or checked, access is checked before connecting, and a connection
/// counts as served only behind connecting.
pub proof fn steps_are_in_order(p: Seq<Step>)
    requires
        is_plan(p),
    ensures
        ordered(p),
{
    if exists|a: bool, b: bool, c: bool| p == #[trigger] terminate_steps(a, b, c) {
        let (a, b, c) = choose|a: bool, b: bool, c: bool| p == #[trigger] terminate_steps(a, b, c);
        lemma_terminate_in_order(a, b, c);
    } else if exists|a: bool| p == #[trigger] forward_steps(a) {
        lemma_forward_in_order(choose|a: bool| p == #[trigger] forward_steps(a));
    } else if exists|a: bool, b: bool| p == #[trigger] passthrough_steps(a, b) {
        let (a, b) = choose|a: bool, b: bool| p == #[trigger] passthrough_steps(a, b);
        lemma_passthrough_in_order(a, b);
    } else if is_worker_plan(p) {
        lemma_worker_in_order(p);
    } else {
        let (a, b, c) = choose|a: bool, b: bool, c: bool| p == #[trigger] http_steps(a, b, c);
        lemma_http_in_order(a, b, c);
    }
}

/// Whether a plan selects its upstreams from `source` alone, and looks at the
/// access list only if `checked`.
pub open spec fn selects_from(p: Seq<Step>, source: Source, checked: bool) -> bool {
    forall|i: int|
        0 <= i < p.len() ==> (#[trigger] p[i] is Select ==> p[i] == (Step::Select { source })) && (p[i] is CheckAccess
            ==> checked)
}

proof fn lemma_selects_from(a: Seq<Step>, b: Seq<Step>, source: Source, checked: bool)
    requires
        selects_from(a, source, checked),
        selects_from(b, source, checked),
    ensures
        selects_from(a + b, source, checked),
{
    let p = a + b;
    assert forall|i: int| 0 <= i < p.len() implies (#[trigger] p[i] is Select ==> p[i] == (Step::Select { source })) && (
    p[i] is CheckAccess ==> checked) by {
        if i < a.len() {
            assert(p[i] == a[i]);
        } else {
            assert(p[i] == b[i - a.len()]);
        }
    }
}

/// A routed connection goes to its route's pool and is not held against the
/// access list; another goes to the host that its client asks for, or to the
/// listener's own backends where HTTP has them.
pub proof fn a_plan_selects_where_the_route_says(given: bool, inspected: bool, fixed: bool, tls: bool)
    ensures
        selects_from(terminate_steps(true, given, tls), Source::Route, false),
        selects_from(terminate_steps(false, given, tls), Source::Client, true),
        selects_from(passthrough_steps(inspected, true), Source::Route, false),
        selects_from(passthrough_steps(inspected, false), Source::Client, true),
        selects_from(http_steps(true, fixed, tls), Source::Route, false),
        selects_from(http_steps(false, true, tls), Source::Listener, true),
        selects_from(http_steps(false, false, tls), Source::Client, true),
        selects_from(forward_steps(tls), Source::Listener, false),
{
    lemma_terminate_selects(true, given, tls);
    lemma_terminate_selects(false, given, tls);
    lemma_passthrough_selects(inspected, true);
    lemma_passthrough_selects(inspected, false);
    lemma_http_selects(true, fixed, tls);
    lemma_http_selects(false, true, tls);
    lemma_http_selects(false, false, tls);
    let rest = upstream_steps(true, false, tls, Some(WRAP_SECONDS), false);
    lemma_upstream_selects_nothing(true, false, tls, Some(WRAP_SECONDS), false, Source::Listener, false);
    lemma_selects_from(
        seq![Step::Select { source: Source::Listener }, Step::TrackTarget],
        rest,
        Source::Listener,
        false,
    );
}

proof fn lemma_upstream_selects_nothing(
    refuse_self: bool,
    remember: bool,
    wrap: bool,
    limit: Option<u64>,
    send: bool,
    source: Source,
    checked: bool,
)
    ensures
        selects_from(upstream_steps(refuse_self, remember, wrap, limit, send), source, checked),
{
}

proof fn lemma_terminate_selects(routed: bool, given: bool, tls: bool)
    ensures
        selects_from(
            terminate_steps(routed, given, tls),
            if routed {
                Source::Route
            } else {
                Source::Client
            },
            !routed,
        ),
{
    let source = if routed {
        Source::Route
    } else {
        Source::Client
    };
    let rest = upstream_steps(tls, false, tls, None, false);
    lemma_upstream_selects_nothing(tls, false, tls, None, false, source, !routed);
    let head = seq![Step::AcceptHello { seconds: 5 }, Step::TrackSni] + one(
        Step::CheckAccess { recorded: true },
        !routed,
    ) + seq![Step::Select { source }, Step::TrackTarget] + one(Step::MintCertificate, !given) + seq![
        Step::Handshake { seconds: 5 },
    ];
    lemma_selects_from(head, rest, source, !routed);
    assert(terminate_steps(routed, given, tls) =~= head + rest);
}

proof fn lemma_passthrough_selects(inspected: bool, routed: bool)
    ensures
        selects_from(
            passthrough_steps(inspected, routed),
            if routed {
                Source::Route
            } else {
                Source::Client
            },
            !routed,
        ),
{
    let source = if routed {
        Source::Route
    } else {
        Source::Client
    };
    let rest = upstream_steps(false, true, false, None, true);
    lemma_upstream_selects_nothing(false, true, false, None, true, source, !routed);
    let head = one(Step::AcceptHello { seconds: 3 }, !inspected) + seq![
        Step::RefuseLoopedHello,
        Step::TrackSni,
        Step::CountHead,
    ] + one(Step::CheckAccess { recorded: true }, !routed) + seq![Step::Select { source }, Step::TrackTarget];
    lemma_selects_from(head, rest, source, !routed);
    assert(passthrough_steps(inspected, routed) =~= head + rest);
}

proof fn lemma_http_selects(routed: bool, fixed: bool, tls: bool)
    ensures
        selects_from(
            http_steps(routed, fixed, tls),
            if routed {
                Source::Route
            } else if fixed {
                Source::Listener
            } else {
                Source::Client
            },
            !routed,
        ),
{
    let source = if routed {
        Source::Route
    } else if fixed {
        Source::Listener
    } else {
        Source::Client
    };
    let rest = upstream_steps(true, false, tls, Some(WRAP_SECONDS), true);
    lemma_upstream_selects_nothing(true, false, tls, Some(WRAP_SECONDS), true, source, !routed);
    let head = seq![Step::TrackSni, Step::CountHead] + one(Step::CheckAccess { recorded: true }, !routed) + seq![
        Step::Select { source },
        Step::TrackTarget,
    ];
    lemma_selects_from(head, rest, source, !routed);
    assert(http_steps(routed, fixed, tls) =~= head + rest);
}

/// An upstream is wrapped in TLS exactly if the plan is for one; a head that was
/// read is sent on exactly by the handlers that read one; a certificate is made
/// exactly if none is given.
pub proof fn a_plan_does_what_its_upstream_needs(routed: bool, given: bool, inspected: bool, fixed: bool, tls: bool)
    ensures
        terminate_steps(routed, given, tls).contains(Step::WrapTls { limit: None }) <==> tls,
        terminate_steps(routed, given, tls).contains(Step::MintCertificate) <==> !given,
        !terminate_steps(routed, given, tls).contains(Step::SendHead),
        forward_steps(tls).contains(Step::WrapTls { limit: Some(10) }) <==> tls,
        http_steps(routed, fixed, tls).contains(Step::WrapTls { limit: Some(10) }) <==> tls,
        http_steps(routed, fixed, tls).contains(Step::SendHead),
        http_steps(routed, fixed, tls).contains(Step::CountHead),
        passthrough_steps(inspected, routed).contains(Step::SendHead),
        passthrough_steps(inspected, routed).contains(Step::CountHead),
        passthrough_steps(inspected, routed).contains(Step::AcceptHello { seconds: 3 }) <==> !inspected,
{
    lemma_terminate_holds(routed, given, tls);
    lemma_http_holds(routed, fixed, tls);
    lemma_passthrough_holds(inspected, routed);
    let rest = upstream_steps(true, false, tls, Some(WRAP_SECONDS), false);
    let wrap = Step::WrapTls { limit: Some(WRAP_SECONDS) };
    lemma_upstream_holds(true, false, tls, Some(WRAP_SECONDS), false);
    lemma_either(seq![Step::Select { source: Source::Listener }, Step::TrackTarget], rest, wrap);
}

proof fn lemma_either(a: Seq<Step>, b: Seq<Step>, step: Step)
    ensures
        (a + b).contains(step) <==> a.contains(step) || b.contains(step),
{
    let p = a + b;
    if a.contains(step) {
        let k = choose|k: int| 0 <= k < a.len() && a[k] == step;
        assert(p[k] == step);
    }
    if b.contains(step) {
        let k = choose|k: int| 0 <= k < b.len() && b[k] == step;
        assert(p[a.len() + k] == step);
    }
    if p.contains(step) {
        let k = choose|k: int| 0 <= k < p.len() && p[k] == step;
        if k < a.len() {
            assert(a[k] == step);
        } else {
            assert(b[k - a.len()] == step);
        }
    }
}

proof fn lemma_upstream_holds(refuse_self: bool, remember: bool, wrap: bool, limit: Option<u64>, send: bool)
    ensures
        ({
            let p = upstream_steps(refuse_self, remember, wrap, limit, send);
            &&& p.contains(Step::WrapTls { limit }) <==> wrap
            &&& p.contains(Step::SendHead) <==> send
            &&& forall|i: int|
                0 <= i < p.len() ==> #[trigger] p[i] != Step::MintCertificate && !(p[i] is AcceptHello)
        }),
{
    let p = upstream_steps(refuse_self, remember, wrap, limit, send);
    let n = p.len() as int;
    assert(send ==> p[n - 2] == Step::SendHead);
    assert(wrap && send ==> p[n - 3] == (Step::WrapTls { limit }));
    assert(wrap && !send ==> p[n - 2] == (Step::WrapTls { limit }));
}

proof fn lemma_terminate_holds(routed: bool, given: bool, tls: bool)
    ensures
        terminate_steps(routed, given, tls).contains(Step::WrapTls { limit: None }) <==> tls,
        terminate_steps(routed, given, tls).contains(Step::MintCertificate) <==> !given,
        !terminate_steps(routed, given, tls).contains(Step::SendHead),
{
    let source = if routed {
        Source::Route
    } else {
        Source::Client
    };
    let rest = upstream_steps(tls, false, tls, None, false);
    let head = seq![Step::AcceptHello { seconds: 5 }, Step::TrackSni] + one(
        Step::CheckAccess { recorded: true },
        !routed,
    ) + seq![Step::Select { source }, Step::TrackTarget] + one(Step::MintCertificate, !given) + seq![
        Step::Handshake { seconds: 5 },
    ];
    lemma_upstream_holds(tls, false, tls, None, false);
    lemma_either(head, rest, Step::WrapTls { limit: None });
    lemma_either(head, rest, Step::MintCertificate);
    lemma_either(head, rest, Step::SendHead);
    assert(!given ==> head[head.len() - 2] == Step::MintCertificate);
    assert(terminate_steps(routed, given, tls) =~= head + rest);
}

proof fn lemma_http_holds(routed: bool, fixed: bool, tls: bool)
    ensures
        http_steps(routed, fixed, tls).contains(Step::WrapTls { limit: Some(WRAP_SECONDS) }) <==> tls,
        http_steps(routed, fixed, tls).contains(Step::SendHead),
        http_steps(routed, fixed, tls).contains(Step::CountHead),
{
    let source = if routed {
        Source::Route
    } else if fixed {
        Source::Listener
    } else {
        Source::Client
    };
    let rest = upstream_steps(true, false, tls, Some(WRAP_SECONDS), true);
    let head = seq![Step::TrackSni, Step::CountHead] + one(Step::CheckAccess { recorded: true }, !routed) + seq![
        Step::Select { source },
        Step::TrackTarget,
    ];
    lemma_upstream_holds(true, false, tls, Some(WRAP_SECONDS), true);
    lemma_either(head, rest, Step::WrapTls { limit: Some(WRAP_SECONDS) });
    lemma_either(head, rest, Step::SendHead);
    lemma_either(head, rest, Step::CountHead);
    assert(head[1] == Step::CountHead);
    assert(http_steps(routed, fixed, tls) =~= head + rest);
}

proof fn lemma_passthrough_holds(inspected: bool, routed: bool)
    ensures
        passthrough_steps(inspected, routed).contains(Step::SendHead),
        passthrough_steps(inspected, routed).contains(Step::CountHead),
        passthrough_steps(inspected, routed).contains(Step::AcceptHello { seconds: 3 }) <==> !inspected,
{
    let source = if routed {
        Source::Route
    } else {
        Source::Client
    };
    let rest = upstream_steps(false, true, false, None, true);
    let head = one(Step::AcceptHello { seconds: 3 }, !inspected) + seq![
        Step::RefuseLoopedHello,
        Step::TrackSni,
        Step::CountHead,
    ] + one(Step::CheckAccess { recorded: true }, !routed) + seq![Step::Select { source }, Step::TrackTarget];
    lemma_upstream_holds(false, true, false, None, true);
    lemma_either(head, rest, Step::SendHead);
    lemma_either(head, rest, Step::CountHead);
    lemma_either(head, rest, Step::AcceptHello { seconds: 3 });
    assert(!inspected ==> head[0] == (Step::AcceptHello { seconds: 3 }));
    assert(head[if inspected {
        2
    } else {
        3
    }] == Step::CountHead);
    assert(passthrough_steps(inspected, routed) =~= head + rest);
}

} // verus!
