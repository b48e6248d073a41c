//! TLS termination: what follows from the route of a connection.
use vstd::prelude::*;
use crate::accounting::ConnStatus;
use crate::active_tracker::ActiveConnection;
use crate::config::Listener;
use crate::dataplane::flow;
use crate::dataplane::session::Session;
use crate::relay::SocketAddr;
use crate::request_id::RequestId;

verus! {

/// What the route of a connection says of its upstream.
#[derive(Debug)]
pub struct TerminateRoute {
    pub expected_sni: String,
    pub target: Option<String>,
    pub target_port: u16,
    pub upstream_tls: bool,
}

/// Whether the upstream leg is encrypted: as the route says, else as the
/// listener does.
pub open spec fn upstream_is_tls(route: Option<TerminateRoute>, listener_upstream_tls: bool) -> bool {
    match route {
        Some(t) => t.upstream_tls,
        None => listener_upstream_tls,
    }
}

/// A terminated connection at its start. On a routed one the handshake has to
/// name the server that the route was chosen for, and the access list is not
/// asked.
pub fn run_stream(
    request_id: RequestId,
    route: &Option<TerminateRoute>,
    listener_upstream_tls: bool,
    certificate_given: bool,
    bind: Option<SocketAddr>,
) -> (r: Session)
    ensures
        r.wf(),
        r.at == 0 && !r.waiting && r.closed is None && r.host is None,
        r.request_id == request_id,
        r.bind == bind,
        r.plan@ == flow::terminate_steps(
            route is Some,
            certificate_given,
            upstream_is_tls(*route, listener_upstream_tls),
        ),
        match route {
            Some(t) => r.expected is Some && (r.expected->0)@ == t.expected_sni@,
            None => r.expected is None,
        },
        forall|record: ActiveConnection, listener: Listener|
            record.status != ConnStatus::Success ==> #[trigger] r.sound(record, listener),
{
    let upstream_tls = match route {
        Some(t) => t.upstream_tls,
        None => listener_upstream_tls,
    };
    let expected = match route {
        Some(t) => Some(t.expected_sni.clone()),
        None => None,
    };
    let plan = flow::terminate_plan(route.is_some(), certificate_given, upstream_tls);
    Session::new(plan, request_id, expected, None, Vec::new(), 0, bind)
}

/// A termination follows its route: the route says whether the upstream is
/// reached in TLS, and without one the listener does.
pub proof fn a_termination_follows_its_route(
    id: RequestId,
    route: Option<TerminateRoute>,
    listener_tls: bool,
    given: bool,
    bind: Option<SocketAddr>,
    r: Session,
)
    requires
        call_ensures(run_stream, (id, &route, listener_tls, given, bind), r),
    ensures
        ({
            let tls = if route is Some {
                (route->0).upstream_tls
            } else {
                listener_tls
            };
            &&& r.plan@.contains(flow::Step::WrapTls { limit: None }) <==> tls
            &&& r.plan@.contains(flow::Step::MintCertificate) <==> !given
            &&& flow::selects_from(
                r.plan@,
                if route is Some {
                    flow::Source::Route
                } else {
                    flow::Source::Client
                },
                route is None,
            )
        }),
        r.at == 0 && !r.waiting && r.closed is None,
{
    let tls = if route is Some {
        (route->0).upstream_tls
    } else {
        listener_tls
    };
    flow::a_plan_does_what_its_upstream_needs(route is Some, given, false, false, tls);
    flow::a_plan_selects_where_the_route_says(given, false, false, tls);
}

} // verus!
