//! A proxied HTTP request, from its head to the relay of its body and of the
//! response. The connections are handled outside: an exchange says how far it
//! got, and takes in how that went.
use vstd::prelude::*;
use crate::accounting::ConnStatus;
use crate::active_tracker;
use crate::active_tracker::{ActiveConnection, ActiveTracker};
use crate::dataplane::http;
use crate::dataplane::http::{BackendChoice, PathOutcome, RequestRefusal};
use crate::dataplane::http::static_files;
use crate::dataplane::session;
use crate::forward::group::SelectedTarget;
use crate::hello_cache::Cache;
use crate::http_header;
use crate::http_header::HttpHead;
use crate::net::IpAddr;
use crate::relay;
use crate::relay::SocketAddr;
use crate::request_id::RequestId;
use crate::runtime_config::{HttpPathAction, HttpPathRoute, HttpRouteAction};
use crate::table::Key;
use crate::text;

verus! {

/// How long connecting to a backend may take, in seconds.
pub const CONNECT_SECONDS: u64 = 5;

/// How long the TLS handshake with a backend may take, in seconds.
pub const HANDSHAKE_SECONDS: u64 = 10;

/// A request and what its listener says about it.
pub struct Request<'a> {
    pub request_id: RequestId,
    pub head: HttpHead,
    /// The loop tokens that the request carries.
    pub tokens: Vec<String>,
    /// The host that TLS was set up for.
    pub expected_sni: Option<String>,
    pub authorization: Option<String>,
    pub head_only: bool,
    /// Whether the client asks for another protocol.
    pub upgrade: bool,
    /// The name of the host's route.
    pub key: String,
    pub route: Option<&'a HttpRouteAction>,
    /// The path route of the host that the target selects.
    pub path: Option<&'a HttpPathRoute>,
    /// Whether the listener has backends of its own.
    pub fixed_backends: bool,
    pub default_port: u16,
    pub upstream_tls: bool,
    /// The address of the listener.
    pub bind: Option<SocketAddr>,
}

/// Why a connection is closed without an answer of this proxy.
#[derive(Debug, Clone, Copy, PartialEq, Eq, Structural)]
pub enum RequestEnd {
    /// The request is not proxied.
    Refused(RequestRefusal),
    /// The upstream is this listener.
    SelfConnect,
    /// The upstream failed.
    Failed,
    /// The relay is over.
    Relayed,
}

/// How far a request got.
#[derive(Debug, Clone, Copy, PartialEq, Eq, Structural)]
pub enum RequestStage {
    /// Its head was read.
    Received,
    /// The extent of its body is determined.
    Framing,
    /// The upstream is selected.
    Selecting(BackendChoice),
    /// The upstream is connected, within so many seconds.
    Connecting { seconds: u64 },
    /// The upstream leg is encrypted, within so many seconds.
    Wrapping { seconds: u64 },
    /// The rewritten head is sent.
    Sending,
    /// The upstream decides on an upgrade.
    AwaitingHead,
    /// The body and the response are relayed; a tunnel has no bounds.
    Relaying { tunnel: bool },
    /// The files of the path route are served.
    Files,
    /// The client is answered with the page.
    Answered { status: u16 },
    Closed(RequestEnd),
}

/// How a stage went.
pub enum RequestReply {
    Done,
    /// The upstream that was selected, whether it wants TLS, and the addresses
    /// that it resolves to.
    Selected { target: SelectedTarget, tls: bool, addresses: Vec<SocketAddr> },
    /// The head of the response.
    Head(Vec<u8>),
    Failed,
}

/// A proxied request.
pub struct Exchange<'a> {
    pub request: Request<'a>,
    pub stage: RequestStage,
    /// The name of the route whose backends serve the request, and the route.
    pub key: String,
    pub backends: Option<&'a HttpRouteAction>,
    /// Whether the prefix of the path route is taken off the target.
    pub stripped: bool,
    /// Whether the credentials of the request were for this proxy, so that the
    /// upstream does not get them.
    pub authorization_consumed: bool,
    pub selected: Option<SelectedTarget>,
    pub upstream_tls: bool,
    /// The status of the response to an upgrade.
    pub status: Option<u16>,
    /// What the client is answered.
    pub page: Option<String>,
}

/// What an exchange was found to be when its head was received.
pub open spec fn routed(s: Exchange<'_>, t: Exchange<'_>) -> bool {
    let q = s.request;
    let given = http::credentials(match q.authorization { Some(a) => Some(a@), None => None });
    match (q.route, q.path) {
        (None, _) => t == (Exchange { stage: RequestStage::Framing, ..s }),
        (Some(host), None) => if host.paths@.len() > 0 && host.backends@.len() == 0 && host.target is None {
            answered(
                s,
                t,
                404,
                if q.head_only {
                    static_files::error_head(404)
                } else {
                    static_files::error_head(404) + static_files::error_body(404)
                },
            )
        } else {
            t == (Exchange { stage: RequestStage::Framing, ..s })
        },
        (Some(_), Some(p)) => if !http::permitted(p.basic_auth, given) {
            answered(s, t, 401, http::challenge_text())
        } else {
            match p.action {
                HttpPathAction::StaticFiles { .. } => t == (Exchange {
                    stage: RequestStage::Files,
                    authorization_consumed: p.basic_auth.enabled,
                    ..s
                }),
                HttpPathAction::ReverseProxy { action } => {
                    &&& t == (Exchange {
                        stage: RequestStage::Framing,
                        key: t.key,
                        backends: t.backends,
                        stripped: p.strip_prefix,
                        authorization_consumed: p.basic_auth.enabled,
                        ..s
                    })
                    &&& t.key@ == q.key@ + ":"@ + p.prefix@
                    &&& t.backends is Some
                    &&& *(t.backends->0) == action
                },
            }
        },
    }
}

/// Whether an exchange ended with an answer of this proxy.
pub open spec fn answered(s: Exchange<'_>, t: Exchange<'_>, status: u16, page: Seq<char>) -> bool {
    &&& t == (Exchange { stage: RequestStage::Answered { status }, page: t.page, ..s })
    &&& t.page is Some
    &&& (t.page->0)@ == page
}

/// Whether an exchange ended with an error page.
pub open spec fn answered_error(s: Exchange<'_>, t: Exchange<'_>, status: u16) -> bool {
    answered(s, t, status, static_files::error_head(status) + static_files::error_body(status))
}

/// An exchange that is over.
pub open spec fn ended(s: Exchange<'_>, end: RequestEnd) -> Exchange<'_> {
    Exchange { stage: RequestStage::Closed(end), ..s }
}

/// Where the upstream of a request comes from.
pub open spec fn choice_of(s: Exchange<'_>) -> BackendChoice {
    http::choice(s.backends is Some, s.request.fixed_backends, s.request.head.port, s.request.default_port)
}

/// Whether the upstream leg is encrypted.
pub open spec fn wants_tls(choice: BackendChoice, tls: bool, listener_tls: bool) -> bool {
    match choice {
        BackendChoice::Route => tls,
        BackendChoice::Listener => listener_tls,
        BackendChoice::Host { .. } => false,
    }
}

/// Whether an exchange `s` became `t` by how its stage went. `refused` is why
/// the head is not proxied, if it is not.
pub open spec fn stage_ended(s: Exchange<'_>, refused: Option<RequestRefusal>, reply: RequestReply, t: Exchange<'_>) -> bool {
    match (s.stage, reply) {
        (RequestStage::Received, _) => match refused {
            Some(e) => t == ended(s, RequestEnd::Refused(e)),
            None => routed(s, t),
        },
        (RequestStage::Framing, RequestReply::Done) => t == (Exchange { stage: RequestStage::Selecting(choice_of(s)), ..s }),
        (RequestStage::Framing, _) => answered_error(s, t, 400),
        (RequestStage::Selecting(choice), RequestReply::Selected { target, tls, addresses }) => t == (Exchange {
            stage: if session::points_back(s.request.bind, addresses@) {
                RequestStage::Closed(RequestEnd::SelfConnect)
            } else {
                RequestStage::Connecting { seconds: CONNECT_SECONDS }
            },
            selected: Some(target),
            upstream_tls: wants_tls(choice, tls, s.request.upstream_tls),
            ..s
        }),
        (RequestStage::Selecting(_), _) => answered_error(s, t, 502),
        (RequestStage::Connecting { .. }, RequestReply::Done) => t == (Exchange {
            stage: if s.upstream_tls {
                RequestStage::Wrapping { seconds: HANDSHAKE_SECONDS }
            } else {
                RequestStage::Sending
            },
            ..s
        }),
        (RequestStage::Connecting { .. }, _) => answered_error(s, t, 502),
        (RequestStage::Wrapping { .. }, RequestReply::Done) => t == (Exchange { stage: RequestStage::Sending, ..s }),
        (RequestStage::Sending, RequestReply::Done) => t == (Exchange {
            stage: if s.request.upgrade {
                RequestStage::AwaitingHead
            } else {
                RequestStage::Relaying { tunnel: false }
            },
            ..s
        }),
        (RequestStage::AwaitingHead, RequestReply::Head(head)) => {
            &&& t == (Exchange {
                stage: RequestStage::Relaying { tunnel: t.status == Some(101u16) },
                status: t.status,
                ..s
            })
            &&& match t.status {
                Some(status) => http::status_of(head@) == Some(status as nat),
                None => http::status_of(head@) is None,
            }
        },
        (RequestStage::AwaitingHead, _) => answered_error(s, t, 502),
        (RequestStage::Relaying { .. }, _) => t == ended(s, RequestEnd::Relayed),
        (RequestStage::Files, _) => t == s,
        (RequestStage::Answered { .. }, _) => t == s,
        (RequestStage::Closed(_), _) => t == s,
        _ => t == ended(s, RequestEnd::Failed),
    }
}

/// How the record of the connection changes by how a stage went.
pub open spec fn record_after(
    s: Exchange<'_>,
    refused: Option<RequestRefusal>,
    reply: RequestReply,
    before: ActiveConnection,
    after: ActiveConnection,
) -> bool {
    match (s.stage, reply) {
        (RequestStage::Received, _) => if refused is None {
            after.sni@ == s.request.head.host@ && after == (ActiveConnection {
                sni: after.sni,
                uploaded_bytes: active_tracker::saturated(before.uploaded_bytes + s.request.head.head_len) as u64,
                ..before
            })
        } else {
            after == before
        },
        (RequestStage::Selecting(_), RequestReply::Selected { target, .. }) => after.target_host@ == target.tls_server_name@
            && after.target_endpoint@ == target.endpoint@ && after == (ActiveConnection {
            target_host: after.target_host,
            target_endpoint: after.target_endpoint,
            ..before
        }),
        (RequestStage::Connecting { .. }, RequestReply::Done) => after == (ActiveConnection {
            status: ConnStatus::Success,
            ..before
        }),
        (RequestStage::AwaitingHead, RequestReply::Head(head)) => after == (ActiveConnection {
            downloaded_bytes: active_tracker::saturated((before.downloaded_bytes + head@.len()) as int) as u64,
            ..before
        }),
        _ => after == before,
    }
}

/// Whether a stage lies behind connecting.
pub open spec fn is_connected(stage: RequestStage) -> bool {
    stage is Wrapping || stage is Sending || stage is AwaitingHead || stage is Relaying
}

/// Whether a stage lies before connecting.
pub open spec fn is_unconnected(stage: RequestStage) -> bool {
    stage is Received || stage is Framing || stage is Selecting || stage is Connecting || stage is Files
}

impl<'a> Exchange<'a> {
    /// A tunnel was asked for and agreed to; an upstream that is connected was
    /// selected.
    pub open spec fn wf(self) -> bool {
        &&& self.request.head.wf()
        &&& self.stage == (RequestStage::Relaying { tunnel: true }) ==> self.request.upgrade && self.status == Some(101u16)
        &&& self.stage is AwaitingHead ==> self.request.upgrade
        &&& self.stage is Connecting || is_connected(self.stage) ==> self.selected is Some
        &&& self.stage is Answered ==> self.page is Some
        &&& self.stage is Files ==> self.request.route is Some && self.request.path is Some && (
        self.request.path->0).action is StaticFiles && http::permitted(
            (self.request.path->0).basic_auth,
            http::credentials(match self.request.authorization { Some(a) => Some(a@), None => None }),
        )
    }

    /// What holds of the record of the connection by how far the request got:
    /// it counts as served once the upstream is connected, and not before.
    pub open spec fn sound(self, record: ActiveConnection) -> bool {
        &&& is_connected(self.stage) ==> record.status == ConnStatus::Success
        &&& is_unconnected(self.stage) ==> record.status != ConnStatus::Success
        &&& self.stage is Connecting || is_connected(self.stage) ==> record.target_endpoint@ == (
        self.selected->0).endpoint@ && record.target_host@ == (self.selected->0).tls_server_name@
    }

    /// A request whose head was read.
    pub fn new(request: Request<'a>) -> (r: Exchange<'a>)
        requires
            request.head.wf(),
        ensures
            r.wf(),
            r == (Exchange {
                request,
                stage: RequestStage::Received,
                key: r.key,
                backends: request.route,
                stripped: false,
                authorization_consumed: false,
                selected: None,
                upstream_tls: false,
                status: None,
                page: None,
            }),
            r.key@ == request.key@,
    {
        let key = request.key.clone();
        let backends = request.route;
        Exchange {
            request,
            stage: RequestStage::Received,
            key,
            backends,
            stripped: false,
            authorization_consumed: false,
            selected: None,
            upstream_tls: false,
            status: None,
            page: None,
        }
    }

    fn answer(&mut self, status: u16, page: String)
        ensures
            answered(*old(self), *final(self), status, page@),
    {
        self.stage = RequestStage::Answered { status };
        self.page = Some(page);
    }

    fn answer_error(&mut self, status: u16)
        ensures
            answered_error(*old(self), *final(self), status),
    {
        let page = static_files::error_response(status, false);
        self.answer(status, page);
    }

    /// Decides by the path what becomes of an accepted request: it may be
    /// finished here (a challenge, files, nothing found), or the route is
    /// refined to the backends of the path.
    fn route(&mut self)
        requires
            old(self).wf(),
            old(self).stage is Received,
        ensures
            final(self).wf(),
            routed(*old(self), *final(self)),
    {
        let host = match self.request.route {
            Some(host) => host,
            None => {
                self.stage = RequestStage::Framing;
                return;
            },
        };
        let protected = match self.request.path {
            Some(path) => path.basic_auth.enabled,
            None => false,
        };
        match http::route_path(
            self.request.key.as_str(),
            host,
            self.request.path,
            &self.request.authorization,
            self.request.head_only,
        ) {
            PathOutcome::Answer(page) => {
                let status: u16 = if self.request.path.is_some() {
                    401
                } else {
                    404
                };
                self.answer(status, page);
            },
            PathOutcome::Files { .. } => {
                self.authorization_consumed = protected;
                self.stage = RequestStage::Files;
            },
            PathOutcome::Backends { key, action, stripped } => {
                self.key = key;
                self.backends = Some(action);
                self.stripped = stripped.is_some();
                self.authorization_consumed = protected;
                self.stage = RequestStage::Framing;
            },
            PathOutcome::Host => {
                self.stage = RequestStage::Framing;
            },
        }
    }

    /// Takes in how a stage went. An ambiguous body is a bad request; an
    /// upstream that cannot be selected, connected or asked for an upgrade is a
    /// bad gateway; anything else that fails closes the connection.
    pub fn run(&mut self, seen: &mut Cache, tracker: &mut ActiveTracker, reply: RequestReply, now: u64) -> (r: RequestStage)
        requires
            old(self).wf(),
            old(seen).wf(),
            old(tracker).wf(),
        ensures
            final(self).wf(),
            final(seen).wf(),
            final(tracker).wf(),
            r == final(self).stage,
            final(self).request == old(self).request,
            ({
                let q = old(self).request;
                let refused = http::acceptance(
                    old(seen).by_key@,
                    text::views(q.tokens@),
                    q.expected_sni,
                    q.head.host@,
                    now,
                );
                let id = Key::id(&q.request_id);
                &&& stage_ended(*old(self), refused, reply, *final(self))
                &&& if old(self).stage is Received {
                    final(seen).by_key@ == http::looked_up(old(seen).by_key@, text::views(q.tokens@), now)
                } else {
                    *final(seen) == *old(seen)
                }
                &&& active_tracker::only_changes(old(tracker)@, final(tracker)@, id)
                &&& old(tracker)@.dom().contains(id) ==> record_after(
                    *old(self),
                    refused,
                    reply,
                    old(tracker)@[id],
                    final(tracker)@[id],
                )
            }),
    {
        match (self.stage, reply) {
            (RequestStage::Received, _) => {
                match http::accept_request(
                    seen,
                    tracker,
                    &self.request.request_id,
                    &self.request.head,
                    &self.request.tokens,
                    &self.request.expected_sni,
                    now,
                ) {
                    Err(e) => {
                        self.stage = RequestStage::Closed(RequestEnd::Refused(e));
                    },
                    Ok(_) => self.route(),
                }
            },
            (RequestStage::Framing, RequestReply::Done) => {
                let choice = http::select_backend(
                    self.backends.is_some(),
                    self.request.fixed_backends,
                    self.request.head.port,
                    self.request.default_port,
                );
                self.stage = RequestStage::Selecting(choice);
            },
            (RequestStage::Framing, _) => self.answer_error(400),
            (RequestStage::Selecting(choice), RequestReply::Selected { target, tls, addresses }) => {
                active_tracker::set_target(
                    tracker,
                    &self.request.request_id,
                    target.tls_server_name.as_str(),
                    target.endpoint.as_str(),
                );
                self.selected = Some(target);
                self.upstream_tls = match choice {
                    BackendChoice::Route => tls,
                    BackendChoice::Listener => self.request.upstream_tls,
                    BackendChoice::Host { .. } => false,
                };
                self.stage = if relay::reject_obvious_self_connect(&self.request.bind, &addresses) {
                    RequestStage::Closed(RequestEnd::SelfConnect)
                } else {
                    RequestStage::Connecting { seconds: CONNECT_SECONDS }
                };
            },
            (RequestStage::Selecting(_), _) => self.answer_error(502),
            (RequestStage::Connecting { .. }, RequestReply::Done) => {
                active_tracker::set_status(tracker, &self.request.request_id, ConnStatus::Success);
                self.stage = if self.upstream_tls {
                    RequestStage::Wrapping { seconds: HANDSHAKE_SECONDS }
                } else {
                    RequestStage::Sending
                };
            },
            (RequestStage::Connecting { .. }, _) => self.answer_error(502),
            (RequestStage::Wrapping { .. }, RequestReply::Done) => {
                self.stage = RequestStage::Sending;
            },
            (RequestStage::Sending, RequestReply::Done) => {
                self.stage = if self.request.upgrade {
                    RequestStage::AwaitingHead
                } else {
                    RequestStage::Relaying { tunnel: false }
                };
            },
            (RequestStage::AwaitingHead, RequestReply::Head(head)) => {
                active_tracker::add_downloaded(tracker, &self.request.request_id, head.len() as u64);
                self.status = http::response_status(head.as_slice());
                let tunnel = match self.status {
                    Some(status) => status == 101,
                    None => false,
                };
                self.stage = RequestStage::Relaying { tunnel };
            },
            (RequestStage::AwaitingHead, _) => self.answer_error(502),
            (RequestStage::Relaying { .. }, _) => {
                self.stage = RequestStage::Closed(RequestEnd::Relayed);
            },
            (RequestStage::Files, _) => {},
            (RequestStage::Answered { .. }, _) => {},
            (RequestStage::Closed(_), _) => {},
            (RequestStage::Wrapping { .. }, _) => {
                self.stage = RequestStage::Closed(RequestEnd::Failed);
            },
            (RequestStage::Sending, _) => {
                self.stage = RequestStage::Closed(RequestEnd::Failed);
            },
        }
        self.stage
    }
}

impl<'a> Exchange<'a> {
    /// The request for the upstream: as it came, with the forwarding headers of
    /// this hop, without credentials that were for this proxy, and with the
    /// bytes of the body that came with it. The target keeps its prefix, and
    /// the host is the client's.
    pub fn upstream_head(&self, client_ip: &IpAddr) -> (r: Vec<u8>)
        requires
            self.wf(),
        ensures
            r@ == vstd::utf8::encode_utf8(
                http_header::forwarded_head(
                    self.request.head.lines(),
                    self.request.head.host_raw@,
                    *client_ip,
                    self.authorization_consumed,
                ),
            ) + self.request.head.buffered@.skip(self.request.head.head_len as int),
    {
        self.request.head.rewritten(client_ip, self.authorization_consumed)
    }
}

/// Whether the credentials of a request are consumed is decided once, when it
/// is routed: they are if its path is protected, and else the upstream gets
/// them.
pub proof fn credentials_are_consumed_by_a_protected_path(
    s: Exchange<'_>,
    refused: Option<RequestRefusal>,
    reply: RequestReply,
    t: Exchange<'_>,
)
    requires
        stage_ended(s, refused, reply, t),
    ensures
        s.stage is Received && !s.authorization_consumed && (t.stage is Framing || t.stage is Files) ==> t.authorization_consumed
            == (s.request.route is Some && s.request.path is Some && (s.request.path->0).basic_auth.enabled),
        !(s.stage is Received) ==> t.authorization_consumed == s.authorization_consumed,
{
}

/// A connection becomes an unbounded tunnel only if the request asked for an
/// upgrade and the upstream switched protocols.
pub proof fn a_tunnel_needs_an_accepted_upgrade(s: Exchange<'_>)
    requires
        s.wf(),
        s.stage == (RequestStage::Relaying { tunnel: true }),
    ensures
        s.request.upgrade,
        s.status == Some(101u16),
{
}

/// The files of a protected path are served only to a user of that path.
pub proof fn protected_files_need_credentials(s: Exchange<'_>)
    requires
        s.wf(),
        s.stage is Files,
        (s.request.path->0).basic_auth.enabled,
    ensures
        s.request.authorization is Some,
        http::any_user(
            http::credentials(Some((s.request.authorization->0)@))->0,
            (s.request.path->0).basic_auth.users@,
        ),
{
}

/// Once a client is answered or its connection is closed, nothing else happens
/// to its request.
pub proof fn an_answer_is_final(s: Exchange<'_>, refused: Option<RequestRefusal>, reply: RequestReply, t: Exchange<'_>)
    requires
        stage_ended(s, refused, reply, t),
        s.stage is Answered || s.stage is Closed,
    ensures
        t == s,
{
}

/// Whatever a stage comes to, a request counts as served once its upstream is
/// connected and not before, and its record shows the upstream that it is
/// connected to.
pub proof fn stages_keep_a_request_sound(
    s: Exchange<'_>,
    refused: Option<RequestRefusal>,
    reply: RequestReply,
    t: Exchange<'_>,
    before: ActiveConnection,
    after: ActiveConnection,
)
    requires
        s.wf(),
        s.sound(before),
        stage_ended(s, refused, reply, t),
        record_after(s, refused, reply, before, after),
    ensures
        t.sound(after),
{
}

/// A request whose upstream connects is forwarded: its head is sent right away,
/// or as soon as the upstream leg is encrypted.
pub proof fn a_connected_request_is_forwarded(
    s: Exchange<'_>,
    refused: Option<RequestRefusal>,
    t: Exchange<'_>,
    u: Exchange<'_>,
)
    requires
        s.stage is Connecting,
        stage_ended(s, refused, RequestReply::Done, t),
        stage_ended(t, refused, RequestReply::Done, u),
    ensures
        t.stage is Sending || u.stage is Sending,
{
}

/// A request that is accepted and that no path route selects is passed on, to
/// the host route's own backends if there is a host route, unless that has path
/// routes and neither a target nor a backend.
pub proof fn an_accepted_request_is_passed_on(s: Exchange<'_>, reply: RequestReply, t: Exchange<'_>)
    requires
        s.stage is Received,
        stage_ended(s, None, reply, t),
        s.request.path is None,
        s.request.route matches Some(host) ==> host.target is Some || host.backends@.len() > 0 || host.paths@.len() == 0,
    ensures
        t.stage is Framing,
        t.backends == s.backends,
        t.key == s.key,
        !t.stripped || s.stripped,
        t.page == s.page,
{
}

/// A request on a path gets past a path that is open, or whose credentials it
/// carries; else it is asked for them.
pub proof fn a_path_asks_for_credentials_it_did_not_get(s: Exchange<'_>, reply: RequestReply, t: Exchange<'_>)
    requires
        s.stage is Received,
        stage_ended(s, None, reply, t),
        s.request.route is Some,
        s.request.path is Some,
    ensures
        ({
            let auth = (s.request.path->0).basic_auth;
            let given = http::credentials(match s.request.authorization { Some(a) => Some(a@), None => None });
            &&& !auth.enabled || http::permitted(auth, given) ==> t.stage is Framing || t.stage is Files
            &&& auth.enabled && !http::permitted(auth, given) ==> t.stage == (RequestStage::Answered { status: 401 })
            &&& t.stage is Files ==> (s.request.path->0).action is StaticFiles
            &&& t.stage is Framing ==> (s.request.path->0).action is ReverseProxy
        }),
{
}

/// Where the upstream of a request comes from: the route before the listener's
/// own backends, and these before the host that the client names, on the port
/// that it names or else the default one. Only a client's own choice is always
/// reached in the clear.
pub proof fn a_route_outranks_the_clients_choice(s: Exchange<'_>, reply: RequestReply, t: Exchange<'_>)
    requires
        s.stage is Framing,
        reply is Done,
        stage_ended(s, None, reply, t),
    ensures
        s.backends is Some ==> t.stage == RequestStage::Selecting(BackendChoice::Route),
        s.backends is None && s.request.fixed_backends ==> t.stage == RequestStage::Selecting(BackendChoice::Listener),
        s.backends is None && !s.request.fixed_backends ==> (t.stage matches RequestStage::Selecting(
            BackendChoice::Host { port },
        ) && (s.request.head.port matches Some(p) ==> port == p) && (s.request.head.port is None ==> port
            == s.request.default_port)),
{
}

/// An upstream that was selected is connected unless it is this listener, and
/// its leg is encrypted exactly if its route or its listener says so.
pub proof fn a_selected_upstream_is_connected(
    s: Exchange<'_>,
    choice: BackendChoice,
    target: SelectedTarget,
    tls: bool,
    addresses: Vec<SocketAddr>,
    t: Exchange<'_>,
    u: Exchange<'_>,
)
    requires
        s.stage == RequestStage::Selecting(choice),
        stage_ended(s, None, RequestReply::Selected { target, tls, addresses }, t),
        !session::points_back(s.request.bind, addresses@),
        stage_ended(t, None, RequestReply::Done, u),
    ensures
        t.stage is Connecting,
        t.selected == Some(target),
        choice is Route ==> (u.stage is Wrapping <==> tls),
        choice is Listener ==> (u.stage is Wrapping <==> s.request.upstream_tls),
        choice is Host ==> u.stage is Sending,
        u.stage is Wrapping || u.stage is Sending,
{
}

/// A request that cannot be framed is answered 400; one whose upstream cannot be
/// selected or connected, or does not answer an upgrade, is answered 502; behind
/// that there is no answer of this proxy.
pub proof fn a_failure_before_the_upstream_answers_is_answered(s: Exchange<'_>, t: Exchange<'_>)
    requires
        stage_ended(s, None, RequestReply::Failed, t),
    ensures
        s.stage is Framing ==> t.stage == (RequestStage::Answered { status: 400 }),
        s.stage is Selecting || s.stage is Connecting || s.stage is AwaitingHead ==> t.stage == (
        RequestStage::Answered { status: 502 }),
        s.stage is Framing || s.stage is Selecting || s.stage is Connecting || s.stage is AwaitingHead
            ==> t.page is Some,
        s.stage is Wrapping || s.stage is Sending ==> t.stage == RequestStage::Closed(RequestEnd::Failed),
        s.stage is Relaying ==> t.stage == RequestStage::Closed(RequestEnd::Relayed),
{
}

/// A request that is framed, wrapped and sent is relayed; one that asks for an
/// upgrade waits for the upstream, and becomes a tunnel exactly if the upstream
/// switches protocols.
pub proof fn an_upgrade_becomes_a_tunnel_if_the_upstream_agrees(
    s: Exchange<'_>,
    t: Exchange<'_>,
    head: Vec<u8>,
    u: Exchange<'_>,
)
    requires
        s.stage is Sending,
        stage_ended(s, None, RequestReply::Done, t),
        t.stage is AwaitingHead ==> stage_ended(t, None, RequestReply::Head(head), u),
    ensures
        !s.request.upgrade ==> t.stage == (RequestStage::Relaying { tunnel: false }),
        s.request.upgrade ==> t.stage == RequestStage::AwaitingHead && u.stage == (RequestStage::Relaying {
            tunnel: http::status_of(head@) == Some(101nat),
        }),
{
}

/// The upstream is given five seconds to be reached and ten to set up TLS.
pub proof fn an_upstream_is_given_its_time(s: Exchange<'_>, reply: RequestReply, t: Exchange<'_>)
    requires
        stage_ended(s, None, reply, t),
        s.stage is Selecting || s.stage is Connecting,
    ensures
        t.stage matches RequestStage::Connecting { seconds } ==> seconds == 5,
        t.stage matches RequestStage::Wrapping { seconds } ==> seconds == 10,
        s.stage is Connecting && reply is Done ==> (t.stage is Wrapping <==> s.upstream_tls) && (t.stage is Sending
            <==> !s.upstream_tls),
{
}

} // verus!
