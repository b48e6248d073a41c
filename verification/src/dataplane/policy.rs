//! The data plane's own vocabulary for per-listener relay policy.
use vstd::prelude::*;
use crate::runtime_config::{DefaultListenerConfig, TlsRouteAction, UpstreamTransport};

verus! {

/// Where a data-plane connection may go.
#[derive(Debug)]
pub struct RelayPolicy {
    /// The listener's bind pattern, used to detect self-connection loops.
    pub bind: String,
    /// Explicit backend list (`host:port,host:port`) for forward/http
    /// listeners; `None` when the listener routes dynamically by SNI/Host.
    pub target: Option<String>,
    /// Default upstream port when the route does not name one.
    pub target_port: u16,
    /// Encrypt the upstream leg without authenticating its certificate.
    pub upstream_tls: bool,
}

/// Whether an action reaches its upstream over TLS.
pub open spec fn action_is_tls(action: TlsRouteAction) -> bool {
    match action {
        TlsRouteAction::Passthrough { .. } => true,
        TlsRouteAction::Terminate { upstream, .. } => upstream == UpstreamTransport::Tls,
        _ => false,
    }
}

/// The port that an action names, or that of HTTPS.
pub open spec fn action_port(action: TlsRouteAction) -> u16 {
    match action {
        TlsRouteAction::Passthrough { target_port, .. } => target_port,
        TlsRouteAction::Terminate { target_port, .. } => target_port,
        _ => 443,
    }
}

impl RelayPolicy {
    /// Policy for one routed connection on the mandatory TLS listener.
    pub fn for_tls_route(config: &DefaultListenerConfig, action: &TlsRouteAction) -> (r: RelayPolicy)
        ensures
            r.bind@ == config.bind@,
            r.target is None,
            r.target_port == action_port(*action),
            r.upstream_tls == action_is_tls(*action),
    {
        let upstream_tls = match action {
            TlsRouteAction::Passthrough { .. } => true,
            TlsRouteAction::Terminate { upstream, .. } => *upstream == UpstreamTransport::Tls,
            TlsRouteAction::ReverseProxy { .. } => false,
            TlsRouteAction::Reject => false,
        };
        let target_port = match action.target_port() {
            Some(port) => port,
            None => 443,
        };
        RelayPolicy { bind: config.bind.clone(), target: None, target_port, upstream_tls }
    }
}

/// A route's upstream is reached on the port that the route names, else on that
/// of HTTPS, and in TLS exactly if the hello is passed on or the route says so.
pub proof fn a_routes_upstream_is_reached_as_it_says(config: DefaultListenerConfig, action: TlsRouteAction, r: RelayPolicy)
    requires
        call_ensures(RelayPolicy::for_tls_route, (&config, &action), r),
    ensures
        r.bind@ == config.bind@,
        action matches TlsRouteAction::Passthrough { target_port, .. } ==> r.target_port == target_port && r.upstream_tls,
        action matches TlsRouteAction::Terminate { target_port, upstream, .. } ==> r.target_port == target_port && (
        r.upstream_tls <==> upstream == UpstreamTransport::Tls),
        action is ReverseProxy || action is Reject ==> r.target_port == 443 && !r.upstream_tls,
{
}

} // verus!
