//! HTTP interception: reverse-proxy host/path routing, static file serving,
//! HTTPS redirects and built-in pages.
pub mod encode;
pub mod error_pages;
pub mod exchange;
pub mod listing;
pub mod static_files;

use vstd::prelude::*;
use vstd::slice::slice_subrange;
use crate::active_tracker;
use crate::active_tracker::{ActiveConnection, ActiveTracker};
use crate::bytes;
use crate::conn_stream::ConnStream;
use crate::crypto;
use crate::dataplane::pipeline::{Intercept, Intercepted};
use crate::hello_cache;
use crate::hello_cache::Cache;
use crate::http_header;
use crate::http_header::{DEFAULT_MAX_HTTP_HEADER_SIZE, HeadError, HttpHead};
use crate::request_id::RequestId;
use crate::runtime_config::{HttpBasicAuth, HttpBasicAuthUser, HttpPathAction, HttpPathRoute, HttpRedirectConfig, HttpRouteAction};
use crate::table::Key;
use crate::text;

verus! {

/// Interception point for an HTTP connection: its request head. The
/// continuation stream is the same connection, positioned at the message body
/// (any buffered body/pipelined bytes are retained in the returned head).
pub struct HeadIntercept<S> {
    pub stream: ConnStream<S>,
    pub timeout_ms: u64,
    pub max_size: usize,
}

/// The bytes that were read until a head was complete, and its length.
pub struct ReceivedHead {
    pub buffered: Vec<u8>,
    pub head_len: usize,
}

impl<S> HeadIntercept<S> {
    pub fn new(stream: ConnStream<S>, timeout_ms: u64) -> (r: HeadIntercept<S>)
        ensures
            r.stream == stream,
            r.timeout_ms == timeout_ms,
            r.max_size == DEFAULT_MAX_HTTP_HEADER_SIZE,
    {
        HeadIntercept { stream, timeout_ms, max_size: DEFAULT_MAX_HTTP_HEADER_SIZE }
    }
}

impl<S> Intercept for HeadIntercept<S> {
    type Received = ReceivedHead;

    type Artifact = HttpHead;

    type Stream = ConnStream<S>;

    type Refusal = HeadError;

    open spec fn reached(self, received: ReceivedHead) -> bool {
        received.head_len <= received.buffered@.len()
    }

    open spec fn yields(self, received: ReceivedHead, r: Result<Intercepted<HttpHead, ConnStream<S>>, HeadError>) -> bool {
        match http_header::parsed(received.buffered@, received.head_len as int) {
            Ok((host, port, raw)) => r matches Ok(i) && i.stream == self.stream && i.artifact.wf() && i.artifact.host@ == host
                && i.artifact.port == port && i.artifact.host_raw@ == raw && i.artifact.buffered@ == received.buffered@
                && i.artifact.head_len == received.head_len,
            Err((fault, named)) => r matches Err(e) && e.fault == fault && e.named@ == named,
        }
    }

    fn intercept(self, received: ReceivedHead) -> (r: Result<Intercepted<HttpHead, ConnStream<S>>, HeadError>) {
        match http_header::parse_head(received.buffered, received.head_len) {
            Ok(artifact) => Ok(Intercepted { artifact, stream: self.stream }),
            Err(e) => Err(e),
        }
    }
}

/// The host as it stands in a URL: an IPv6 address in brackets.
pub open spec fn authority(host: Seq<char>) -> Seq<char> {
    if host.contains(':') {
        "["@ + host + "]"@
    } else {
        host
    }
}

/// The port as it stands in a URL: nothing for the standard one.
pub open spec fn port_suffix(port: u16) -> Seq<char> {
    if port == 443 {
        seq![]
    } else {
        ":"@ + text::decimal(port as nat)
    }
}

/// Where a plain HTTP request is redirected to.
pub open spec fn redirect_location(
    host: Seq<char>,
    target: Seq<char>,
    config: Option<HttpRedirectConfig>,
    default_port: u16,
) -> Seq<char> {
    let name = match config {
        Some(c) => match c.hostname {
            Some(h) => h@,
            None => host,
        },
        None => host,
    };
    let port = match config {
        Some(c) => match c.port {
            Some(p) => p,
            None => default_port,
        },
        None => default_port,
    };
    "https://"@ + authority(name) + port_suffix(port) + target
}

pub open spec fn redirect_status(config: Option<HttpRedirectConfig>) -> u16 {
    match config {
        Some(c) => c.status,
        None => 308,
    }
}

pub open spec fn redirect_text(status: u16, location: Seq<char>) -> Seq<char> {
    "HTTP/1.1 "@ + text::decimal(status as nat) + " "@ + (if status == 301 {
        "Moved Permanently"@
    } else {
        "Permanent Redirect"@
    }) + "\r\nLocation: "@ + location + "\r\nContent-Length: 0\r\nConnection: close\r\n\r\n"@
}

/// The response that sends a plain HTTP request to HTTPS.
pub fn redirect_https(host: &str, target: &str, config: &Option<HttpRedirectConfig>, default_port: u16) -> (r: String)
    ensures
        r@ == redirect_text(redirect_status(*config), redirect_location(host@, target@, *config, default_port)),
{
    let mut status: u16 = 308;
    let mut port: u16 = default_port;
    let mut name = text::owned(host);
    if let Some(c) = config {
        status = c.status;
        if let Some(p) = c.port {
            port = p;
        }
        if let Some(h) = &c.hostname {
            name = h.clone();
        }
    }
    let mut location = text::owned("https://");
    let n = text::chars_of(name.as_str());
    let at = text::find(n.as_slice(), ':');
    proof {
        text::lemma_first_at(n@, ':');
    }
    if at < n.len() {
        let mut bracketed = text::owned("[");
        bracketed.push_str(name.as_str());
        bracketed.push_str("]");
        location.push_str(bracketed.as_str());
    } else {
        location.push_str(name.as_str());
    }
    let mut suffix = String::new();
    if port != 443 {
        suffix = text::owned(":");
        text::push_decimal(&mut suffix, port as u64);
    }
    location.push_str(suffix.as_str());
    location.push_str(target);
    let mut out = text::owned("HTTP/1.1 ");
    text::push_decimal(&mut out, status as u64);
    out.push_str(" ");
    out.push_str(
        if status == 301 {
            "Moved Permanently"
        } else {
            "Permanent Redirect"
        },
    );
    out.push_str("\r\nLocation: ");
    out.push_str(location.as_str());
    out.push_str("\r\nContent-Length: 0\r\nConnection: close\r\n\r\n");
    out
}

/// The credentials that an `Authorization` header carries.
pub open spec fn credentials(authorization: Option<Seq<char>>) -> Option<Seq<u8>> {
    match authorization {
        None => None,
        Some(v) => if text::begins(v, "Basic "@) {
            crypto::base64_standard(text::trimmed(v.skip("Basic "@.len() as int)))
        } else if text::begins(v, "basic "@) {
            crypto::base64_standard(text::trimmed(v.skip("basic "@.len() as int)))
        } else {
            None
        },
    }
}

/// Whether credentials are those of a user.
pub open spec fn is_user(given: Seq<u8>, user: HttpBasicAuthUser) -> bool {
    given == vstd::utf8::encode_utf8(user.username@ + ":"@ + user.password@)
}

pub open spec fn any_user(given: Seq<u8>, users: Seq<HttpBasicAuthUser>) -> bool {
    exists|i: int| 0 <= i < users.len() && is_user(given, #[trigger] users[i])
}

/// Whether a request may pass: authentication is off, or the credentials are
/// those of a user.
pub open spec fn permitted(auth: HttpBasicAuth, given: Option<Seq<u8>>) -> bool {
    !auth.enabled || match given {
        Some(g) => any_user(g, auth.users@),
        None => false,
    }
}

fn read_credentials(authorization: &Option<String>) -> (r: Option<Vec<u8>>)
    ensures
        match credentials(match authorization { Some(a) => Some(a@), None => None }) {
            Some(b) => r is Some && r->0@ == b,
            None => r is None,
        },
{
    let v = match authorization {
        Some(a) => text::chars_of(a.as_str()),
        None => return None,
    };
    let rest = match text::strip_prefix(v.as_slice(), text::chars_of("Basic ").as_slice()) {
        Some(rest) => rest,
        None => match text::strip_prefix(v.as_slice(), text::chars_of("basic ").as_slice()) {
            Some(rest) => rest,
            None => return None,
        },
    };
    crypto::base64_decode(text::string_of(text::trim(rest)).as_str())
}

/// Whether credentials that were decoded let a request pass.
pub fn credentials_permit(auth: &HttpBasicAuth, given: &Option<Vec<u8>>) -> (r: bool)
    ensures
        r == permitted(*auth, match given { Some(g) => Some(g@), None => None }),
{
    if !auth.enabled {
        return true;
    }
    let candidate = match given {
        Some(g) => g,
        None => return false,
    };
    let mut i: usize = 0;
    while i < auth.users.len()
        invariant
            i <= auth.users@.len(),
            given matches Some(g) && g@ == candidate@,
            forall|k: int| 0 <= k < i ==> !is_user(candidate@, #[trigger] auth.users@[k]),
        decreases auth.users@.len() - i,
    {
        let mut expected = auth.users[i].username.clone();
        expected.push_str(":");
        expected.push_str(auth.users[i].password.as_str());
        if crypto::constant_time_eq(candidate.as_slice(), expected.as_str().as_bytes()) {
            assert(is_user(candidate@, auth.users@[i as int]));
            return true;
        }
        i = i + 1;
    }
    false
}

/// Whether a request with this `Authorization` header may pass.
pub fn is_permitted(auth: &HttpBasicAuth, authorization: &Option<String>) -> (r: bool)
    ensures
        r == permitted(*auth, credentials(match authorization { Some(a) => Some(a@), None => None })),
{
    credentials_permit(auth, &read_credentials(authorization))
}

/// The response that asks for credentials.
pub open spec fn challenge_text() -> Seq<char> {
    let body = error_pages::page(401, "Unauthorized"@, error_pages::detail_of(401));
    "HTTP/1.1 401 Unauthorized\r\nWWW-Authenticate: Basic realm=\"tlsproxy\", charset=\"UTF-8\"\r\nContent-Type: text/html; charset=utf-8\r\nContent-Length: "@
        + text::decimal(vstd::utf8::encode_utf8(body).len()) + "\r\nConnection: close\r\n\r\n"@ + body
}

pub fn challenge() -> (r: String)
    ensures
        r@ == challenge_text(),
{
    let body = error_pages::render(401, "Unauthorized", error_pages::default_detail(401));
    let length: u64 = body.as_str().as_bytes().len() as u64;
    let mut out = text::owned(
        "HTTP/1.1 401 Unauthorized\r\nWWW-Authenticate: Basic realm=\"tlsproxy\", charset=\"UTF-8\"\r\nContent-Type: text/html; charset=utf-8\r\nContent-Length: ",
    );
    text::push_decimal(&mut out, length);
    out.push_str("\r\nConnection: close\r\n\r\n");
    out.push_str(body.as_str());
    out
}

/// What becomes of a request once its path is known.
#[derive(Debug)]
pub enum PathOutcome<'a> {
    /// The request is answered with this response.
    Answer(String),
    /// The request is served from files below the document root.
    Files { prefix: &'a str, document_root: &'a str, index: &'a Option<String>, directory_listing: bool },
    /// The request goes to the backends of a path route; the prefix is taken
    /// off its target if the route says so.
    Backends { key: String, action: &'a HttpRouteAction, stripped: Option<&'a str> },
    /// The request goes to the backends of the host route.
    Host,
}

/// Whether an outcome is that of a request whose path selected `path`.
pub open spec fn outcome_is(
    r: PathOutcome<'_>,
    key: Seq<char>,
    host: HttpRouteAction,
    path: Option<HttpPathRoute>,
    given: Option<Seq<u8>>,
    head_only: bool,
) -> bool {
    match path {
        None => if host.paths@.len() > 0 && host.backends@.len() == 0 && host.target is None {
            r matches PathOutcome::Answer(page) && page@ == if head_only {
                static_files::error_head(404)
            } else {
                static_files::error_head(404) + static_files::error_body(404)
            }
        } else {
            r is Host
        },
        Some(p) => if !permitted(p.basic_auth, given) {
            r matches PathOutcome::Answer(page) && page@ == challenge_text()
        } else {
            match p.action {
                HttpPathAction::StaticFiles { document_root, index, directory_listing } => {
                    r matches PathOutcome::Files { prefix, document_root: d, index: i, directory_listing: l } && prefix@
                        == p.prefix@ && d@ == document_root@ && *i == index && l == directory_listing
                },
                HttpPathAction::ReverseProxy { action } => {
                    r matches PathOutcome::Backends { key: k, action: a, stripped } && k@ == key + ":"@ + p.prefix@ && *a
                        == action && match stripped {
                        Some(prefix) => p.strip_prefix && prefix@ == p.prefix@,
                        None => !p.strip_prefix,
                    }
                },
            }
        },
    }
}

/// Decides what becomes of a request: `path` is the path route that its target
/// selected, if any. Path routing may finish the request (a challenge, files,
/// nothing found) or refine the route to the backends of the path.
pub fn route_path<'a>(
    key: &str,
    host: &HttpRouteAction,
    path: Option<&'a HttpPathRoute>,
    authorization: &Option<String>,
    head_only: bool,
) -> (r: PathOutcome<'a>)
    ensures
        outcome_is(
            r,
            key@,
            *host,
            match path { Some(p) => Some(*p), None => None },
            credentials(match authorization { Some(a) => Some(a@), None => None }),
            head_only,
        ),
{
    let p = match path {
        Some(p) => p,
        None => {
            if host.paths.len() > 0 && host.backends.len() == 0 && host.target.is_none() {
                return PathOutcome::Answer(static_files::not_found(head_only));
            }
            return PathOutcome::Host;
        },
    };
    if !is_permitted(&p.basic_auth, authorization) {
        return PathOutcome::Answer(challenge());
    }
    match &p.action {
        HttpPathAction::StaticFiles { document_root, index, directory_listing } => PathOutcome::Files {
            prefix: p.prefix.as_str(),
            document_root: document_root.as_str(),
            index,
            directory_listing: *directory_listing,
        },
        HttpPathAction::ReverseProxy { action } => {
            let mut k = text::owned(key);
            k.push_str(":");
            k.push_str(p.prefix.as_str());
            let stripped = if p.strip_prefix {
                Some(p.prefix.as_str())
            } else {
                None
            };
            PathOutcome::Backends { key: k, action, stripped }
        },
    }
}

/// Files are served and backends are reached only past the authentication of
/// the path.
pub proof fn a_protected_path_is_never_served_without_credentials(
    r: PathOutcome<'_>,
    key: Seq<char>,
    host: HttpRouteAction,
    path: HttpPathRoute,
    given: Option<Seq<u8>>,
    head_only: bool,
)
    requires
        path.basic_auth.enabled,
        outcome_is(r, key, host, Some(path), given, head_only),
        !(r is Answer),
    ensures
        given is Some,
        any_user(given->0, path.basic_auth.users@),
{
}

/// A request whose path no path route selects goes to the host route whenever
/// that has a target or a backend, or has no path routes at all. Only a host
/// route that has nothing to send it to answers, and then that there is
/// nothing.
pub proof fn a_request_off_the_path_routes_goes_to_the_host(
    r: PathOutcome<'_>,
    key: Seq<char>,
    host: HttpRouteAction,
    given: Option<Seq<u8>>,
    head_only: bool,
)
    requires
        outcome_is(r, key, host, None, given, head_only),
    ensures
        host.target is Some ==> r is Host,
        host.backends@.len() > 0 ==> r is Host,
        host.paths@.len() == 0 ==> r is Host,
        host.target is None && host.backends@.len() == 0 && host.paths@.len() > 0 ==> (r matches PathOutcome::Answer(page)
            && text::begins(page@, "HTTP/1.1 404 "@)),
{
    if r is Answer {
        reveal_strlit("HTTP/1.1 404 ");
        reveal_strlit("HTTP/1.1 ");
        reveal_strlit(" ");
        reveal_with_fuel(text::decimal, 4);
        static_files::an_error_head_begins_with_its_status(404);
        let page = r->Answer_0@;
        let head = static_files::error_head(404);
        let start = "HTTP/1.1 "@ + text::decimal(404) + " "@;
        assert(text::decimal(404) =~= seq!['4', '0', '4']);
        assert(start =~= "HTTP/1.1 404 "@);
        assert(page.take(head.len() as int) =~= head);
        assert(page.take(13) =~= head.take(13));
    }
}

/// Credentials let a request pass exactly if they are the name, a colon and the
/// password of one of the users, whichever one; a path without authentication
/// lets every request pass.
pub proof fn every_user_passes_and_nobody_else(auth: HttpBasicAuth, given: Option<Seq<u8>>, i: int)
    ensures
        !auth.enabled ==> permitted(auth, given),
        auth.enabled && given is None ==> !permitted(auth, given),
        0 <= i < auth.users@.len() && given == Some(
            vstd::utf8::encode_utf8(auth.users@[i].username@.push(':') + auth.users@[i].password@),
        ) ==> permitted(auth, given),
        auth.enabled && permitted(auth, given) ==> exists|k: int|
            0 <= k < auth.users@.len() && given == Some(
                vstd::utf8::encode_utf8((#[trigger] auth.users@[k]).username@.push(':') + auth.users@[k].password@),
            ),
{
    reveal_strlit(":");
    assert forall|k: int| 0 <= k < auth.users@.len() implies (#[trigger] auth.users@[k]).username@ + ":"@
        + auth.users@[k].password@ == auth.users@[k].username@.push(':') + auth.users@[k].password@ by {
        assert(auth.users@[k].username@ + ":"@ =~= auth.users@[k].username@.push(':'));
    }
    if 0 <= i < auth.users@.len() && given == Some(
        vstd::utf8::encode_utf8(auth.users@[i].username@.push(':') + auth.users@[i].password@),
    ) {
        assert(is_user(given->0, auth.users@[i]));
    }
    if auth.enabled && permitted(auth, given) {
        let k = choose|k: int| 0 <= k < auth.users@.len() && is_user(given->0, #[trigger] auth.users@[k]);
        assert(given == Some(
            vstd::utf8::encode_utf8((auth.users@[k]).username@.push(':') + auth.users@[k].password@),
        ));
    }
}

/// A request that its path lets pass gets what the path is for: the files below
/// its document root, or its own backends, under a name made of the host's and
/// the prefix, with the prefix taken off exactly if the path says so.
pub proof fn a_permitted_request_gets_what_its_path_is_for(
    r: PathOutcome<'_>,
    key: Seq<char>,
    host: HttpRouteAction,
    path: HttpPathRoute,
    given: Option<Seq<u8>>,
    head_only: bool,
)
    requires
        outcome_is(r, key, host, Some(path), given, head_only),
        !path.basic_auth.enabled || permitted(path.basic_auth, given),
    ensures
        !(r is Answer) && !(r is Host),
        path.action matches HttpPathAction::StaticFiles { document_root, index, directory_listing } ==> (
        r matches PathOutcome::Files { prefix, document_root: d, index: i, directory_listing: l } && prefix@
            == path.prefix@ && d@ == document_root@ && *i == index && l == directory_listing),
        path.action matches HttpPathAction::ReverseProxy { action } ==> (r matches PathOutcome::Backends {
            key: k,
            action: a,
            stripped,
        } && *a == action && k@ == key.push(':') + path.prefix@ && (stripped is Some <==> path.strip_prefix) && (
        stripped is Some ==> stripped->0@ == path.prefix@)),
{
    reveal_strlit(":");
    assert(key + ":"@ =~= key.push(':'));
}

/// Why a request is not proxied.
#[derive(Debug, Clone, Copy, PartialEq, Eq, Structural)]
pub enum RequestRefusal {
    /// This proxy forwarded the request itself.
    Looped,
    /// The host is not the one that TLS was set up for.
    WrongHost,
}

impl RequestRefusal {
    /// What is said of a request for `host` behind TLS for `sni`.
    pub open spec fn text(self, sni: Seq<char>, host: Seq<char>) -> Seq<char> {
        match self {
            RequestRefusal::Looped => "detected self-connection loop"@,
            RequestRefusal::WrongHost => "HTTPS SNI `"@ + sni + "` does not match HTTP Host `"@ + host + "`"@,
        }
    }

    pub fn message(self, sni: &str, host: &str) -> (r: String)
        ensures
            r@ == self.text(sni@, host@),
    {
        match self {
            RequestRefusal::Looped => text::owned("detected self-connection loop"),
            RequestRefusal::WrongHost => {
                let mut out = text::owned("HTTPS SNI `");
                out.push_str(sni);
                out.push_str("` does not match HTTP Host `");
                out.push_str(host);
                out.push_str("`");
                out
            },
        }
    }
}

/// Whether a key was forwarded recently.
pub open spec fn is_recent(seen: Map<Seq<u8>, u64>, key: Seq<u8>, now: u64) -> bool {
    seen.dom().contains(key) && seen[key] > now
}

/// Whether a recently forwarded token is among the tokens.
pub open spec fn looped_among(seen: Map<Seq<u8>, u64>, tokens: Seq<Seq<char>>, now: u64) -> bool {
    exists|i: int| 0 <= i < tokens.len() && is_recent(seen, vstd::utf8::encode_utf8(#[trigger] tokens[i]), now)
}

/// Whether two host names are the same but for letter case and dots at the
/// end.
pub open spec fn same_host(a: Seq<char>, b: Seq<char>) -> bool {
    text::lower(text::trimmed_end_of(a, '.')) == text::lower(text::trimmed_end_of(b, '.'))
}

fn hosts_agree(a: &str, b: &str) -> (r: bool)
    ensures
        r == same_host(a@, b@),
{
    let x = text::chars_of(a);
    let y = text::chars_of(b);
    let x = text::string_of(text::trim_end_of(x.as_slice(), '.'));
    let y = text::string_of(text::trim_end_of(y.as_slice(), '.'));
    text::eq_ignore_case(x.as_str(), y.as_str())
}

/// What is remembered once the tokens of a request were looked up: each is
/// taken out, up to and with the first one that was forwarded recently.
pub open spec fn looked_up(seen: Map<Seq<u8>, u64>, tokens: Seq<Seq<char>>, now: u64) -> Map<Seq<u8>, u64>
    decreases tokens.len(),
{
    if tokens.len() == 0 {
        seen
    } else {
        let key = vstd::utf8::encode_utf8(tokens[0]);
        if is_recent(seen, key, now) {
            seen.remove(key)
        } else {
            looked_up(seen.remove(key), tokens.drop_first(), now)
        }
    }
}

/// Whether a request head may be proxied.
pub open spec fn acceptance(
    seen: Map<Seq<u8>, u64>,
    tokens: Seq<Seq<char>>,
    expected_sni: Option<String>,
    host: Seq<char>,
    now: u64,
) -> Option<RequestRefusal> {
    if looped_among(seen, tokens, now) {
        Some(RequestRefusal::Looped)
    } else if expected_sni is Some && !same_host((expected_sni->0)@, host) {
        Some(RequestRefusal::WrongHost)
    } else {
        None
    }
}

/// Validates a parsed request head for proxying: no self-connection loop and
/// (behind TLS) a Host that matches the routed SNI. The connection then shows
/// the host, and the head's length on the wire, without the body bytes that
/// came with it, counts as uploaded. `tokens` are the loop tokens that the
/// request carries.
pub fn accept_request(
    seen: &mut Cache,
    tracker: &mut ActiveTracker,
    request_id: &RequestId,
    head: &HttpHead,
    tokens: &Vec<String>,
    expected_sni: &Option<String>,
    now: u64,
) -> (r: Result<usize, RequestRefusal>)
    requires
        old(seen).wf(),
        old(tracker).wf(),
        head.wf(),
    ensures
        final(seen).wf(),
        final(seen).by_key@ == looked_up(old(seen).by_key@, text::views(tokens@), now),
        r == match acceptance(old(seen).by_key@, text::views(tokens@), *expected_sni, head.host@, now) {
            Some(refusal) => Err::<usize, RequestRefusal>(refusal),
            None => Ok(head.head_len),
        },
        final(tracker).wf(),
        active_tracker::only_changes(old(tracker)@, final(tracker)@, Key::id(request_id)),
        r is Err ==> final(tracker)@ == old(tracker)@,
        r is Ok && old(tracker)@.dom().contains(Key::id(request_id)) ==> ({
            let before = old(tracker)@[Key::id(request_id)];
            let after = final(tracker)@[Key::id(request_id)];
            after.sni@ == head.host@ && after == (ActiveConnection {
                sni: after.sni,
                uploaded_bytes: active_tracker::saturated(before.uploaded_bytes + head.head_len) as u64,
                ..before
            })
        }),
{
    let ghost all = text::views(tokens@);
    let ghost m0 = seen.by_key@;
    let mut i: usize = 0;
    assert(all.skip(0) =~= all);
    while i < tokens.len()
        invariant
            i <= tokens@.len(),
            all == text::views(tokens@),
            m0 == old(seen).by_key@,
            seen.wf(),
            *tracker == *old(tracker),
            tracker.wf(),
            forall|k: int| 0 <= k < i ==> !is_recent(m0, vstd::utf8::encode_utf8(#[trigger] all[k]), now),
            forall|key: Seq<u8>| #[trigger] is_recent(seen.by_key@, key, now) == is_recent(m0, key, now),
            looked_up(m0, all, now) == looked_up(seen.by_key@, all.skip(i as int), now),
        decreases tokens@.len() - i,
    {
        let ghost key = vstd::utf8::encode_utf8(all[i as int]);
        assert(is_recent(seen.by_key@, key, now) == is_recent(m0, key, now));
        assert(all.skip(i as int)[0] == all[i as int]);
        assert(all.skip(i as int).drop_first() =~= all.skip(i + 1));
        let ghost before = seen.by_key@;
        if hello_cache::request_token_is_looped(seen, tokens[i].as_str(), now) {
            assert(looped_among(m0, all, now));
            return Err(RequestRefusal::Looped);
        }
        assert forall|other: Seq<u8>| #[trigger]
            is_recent(seen.by_key@, other, now) == is_recent(m0, other, now) by {
            assert(is_recent(before, other, now) == is_recent(m0, other, now));
        }
        i = i + 1;
    }
    assert(all.skip(i as int).len() == 0);
    if let Some(sni) = expected_sni {
        if !hosts_agree(sni.as_str(), head.host.as_str()) {
            return Err(RequestRefusal::WrongHost);
        }
    }
    active_tracker::set_sni(tracker, request_id, head.host.as_str());
    active_tracker::add_uploaded(tracker, request_id, head.head_len as u64);
    Ok(head.head_len)
}

/// A hit consumes its entry: the first token that was forwarded recently is
/// forgotten, and so are the ones in front of it. Nothing else is.
pub proof fn a_hit_consumes_its_entry(seen: Map<Seq<u8>, u64>, tokens: Seq<Seq<char>>, hit: int, now: u64)
    requires
        0 <= hit < tokens.len(),
        is_recent(seen, vstd::utf8::encode_utf8(tokens[hit]), now),
        forall|k: int| 0 <= k < hit ==> !is_recent(seen, vstd::utf8::encode_utf8(#[trigger] tokens[k]), now),
    ensures
        ({
            let after = looked_up(seen, tokens, now);
            &&& forall|k: int| 0 <= k <= hit ==> !after.dom().contains(vstd::utf8::encode_utf8(#[trigger] tokens[k]))
            &&& forall|key: Seq<u8>|
                (forall|k: int| 0 <= k <= hit ==> vstd::utf8::encode_utf8(#[trigger] tokens[k]) != key) ==> (
                #[trigger] after.dom().contains(key) == seen.dom().contains(key)) && (seen.dom().contains(key)
                    ==> after[key] == seen[key])
        }),
    decreases tokens.len(),
{
    if hit > 0 {
        let first = vstd::utf8::encode_utf8(tokens[0]);
        let rest = tokens.drop_first();
        let after = looked_up(seen, tokens, now);
        assert(!is_recent(seen, vstd::utf8::encode_utf8(tokens[0]), now));
        assert forall|k: int| 0 <= k < hit - 1 implies !is_recent(
            seen.remove(first),
            vstd::utf8::encode_utf8(#[trigger] rest[k]),
            now,
        ) by {
            assert(rest[k] == tokens[k + 1]);
        }
        a_hit_consumes_its_entry(seen.remove(first), rest, hit - 1, now);
        lemma_looked_up_shrinks(seen.remove(first), rest, now);
        assert(after == looked_up(seen.remove(first), rest, now));
        assert forall|k: int| 0 <= k <= hit implies !after.dom().contains(
            vstd::utf8::encode_utf8(#[trigger] tokens[k]),
        ) by {
            if k > 0 {
                assert(tokens[k] == rest[k - 1]);
            } else {
                assert(!seen.remove(first).dom().contains(first));
            }
        }
        assert forall|key: Seq<u8>|
            (forall|k: int| 0 <= k <= hit ==> vstd::utf8::encode_utf8(#[trigger] tokens[k]) != key) implies (
        #[trigger] after.dom().contains(key) == seen.dom().contains(key)) && (seen.dom().contains(key) ==> after[key]
            == seen[key]) by {
            assert(vstd::utf8::encode_utf8(tokens[0]) != key);
            assert forall|k: int| 0 <= k <= hit - 1 implies vstd::utf8::encode_utf8(#[trigger] rest[k]) != key by {
                assert(rest[k] == tokens[k + 1]);
            }
            let without = seen.remove(first);
            assert(after.dom().contains(key) == without.dom().contains(key));
            assert(without.dom().contains(key) == seen.dom().contains(key));
            if seen.dom().contains(key) {
                assert(after[key] == without[key]);
                assert(without[key] == seen[key]);
            }
        }
    }
}

proof fn lemma_looked_up_shrinks(seen: Map<Seq<u8>, u64>, tokens: Seq<Seq<char>>, now: u64)
    ensures
        forall|key: Seq<u8>| #[trigger]
            looked_up(seen, tokens, now).dom().contains(key) ==> seen.dom().contains(key),
    decreases tokens.len(),
{
    if tokens.len() > 0 {
        let rest = seen.remove(vstd::utf8::encode_utf8(tokens[0]));
        lemma_looked_up_shrinks(rest, tokens.drop_first(), now);
        assert forall|key: Seq<u8>| #[trigger] looked_up(seen, tokens, now).dom().contains(key) implies seen.dom().contains(
            key,
        ) by {
            if !is_recent(seen, vstd::utf8::encode_utf8(tokens[0]), now) {
                assert(looked_up(rest, tokens.drop_first(), now).dom().contains(key));
            }
            assert(rest.dom().contains(key));
        }
    }
}

/// Where the upstream of a request comes from.
#[derive(Debug, Clone, Copy, PartialEq, Eq, Structural)]
pub enum BackendChoice {
    /// The backends of the route.
    Route,
    /// The fixed backends of the listener.
    Listener,
    /// The host that the request names, on this port.
    Host { port: u16 },
}

/// Where the upstream of a request comes from.
pub open spec fn choice(routed: bool, fixed_backends: bool, port: Option<u16>, default_port: u16) -> BackendChoice {
    if routed {
        BackendChoice::Route
    } else if fixed_backends {
        BackendChoice::Listener
    } else {
        BackendChoice::Host {
            port: match port {
                Some(p) => p,
                None => default_port,
            },
        }
    }
}

/// Picks where the upstream comes from: the route, the listener's configured
/// backends, or the host of the request on its own or the default port.
pub fn select_backend(routed: bool, fixed_backends: bool, port: Option<u16>, default_port: u16) -> (r: BackendChoice)
    ensures
        r == choice(routed, fixed_backends, port, default_port),
{
    if routed {
        BackendChoice::Route
    } else if fixed_backends {
        BackendChoice::Listener
    } else {
        let port = match port {
            Some(p) => p,
            None => default_port,
        };
        BackendChoice::Host { port }
    }
}

pub const MAX_RESPONSE_HEAD: usize = 65536;

/// Whether the bytes hold a blank line after a line.
pub open spec fn holds_blank_line(b: Seq<u8>) -> bool {
    exists|i: int| 0 <= i && i + 4 <= b.len() && #[trigger] ends_line_at(b, i)
}

/// Whether `\r\n\r\n` stands at `i`.
pub open spec fn ends_line_at(b: Seq<u8>, i: int) -> bool {
    b[i] == 13 && b[i + 1] == 10 && b[i + 2] == 13 && b[i + 3] == 10
}

/// What a read of a response head came to.
#[derive(Debug, Clone, Copy, PartialEq, Eq, Structural)]
pub enum HeadProgress {
    /// The head is complete.
    Complete,
    /// More bytes are needed.
    More,
    /// The upstream closed before a head was complete.
    Closed,
    /// The head is too large.
    TooLarge,
}

/// Takes in bytes of a response head; an empty read means that the upstream
/// closed.
pub fn read_response_head(buffer: &mut Vec<u8>, chunk: &[u8]) -> (r: HeadProgress)
    ensures
        final(buffer)@ == old(buffer)@ + chunk@,
        r == if chunk@.len() == 0 {
            HeadProgress::Closed
        } else if holds_blank_line(old(buffer)@ + chunk@) {
            HeadProgress::Complete
        } else if old(buffer)@.len() + chunk@.len() > MAX_RESPONSE_HEAD {
            HeadProgress::TooLarge
        } else {
            HeadProgress::More
        },
{
    if chunk.len() == 0 {
        assert(old(buffer)@ + chunk@ =~= old(buffer)@);
        return HeadProgress::Closed;
    }
    bytes::push_all(buffer, chunk);
    if has_blank_line(buffer.as_slice()) {
        return HeadProgress::Complete;
    }
    if buffer.len() > MAX_RESPONSE_HEAD {
        return HeadProgress::TooLarge;
    }
    HeadProgress::More
}

fn has_blank_line(b: &[u8]) -> (r: bool)
    ensures
        r == holds_blank_line(b@),
{
    if b.len() < 4 {
        return false;
    }
    let last: usize = b.len() - 4;
    let mut i: usize = 0;
    while i <= last
        invariant
            b@.len() >= 4,
            last == b@.len() - 4,
            i <= last + 1,
            forall|k: int| 0 <= k < i ==> !#[trigger] ends_line_at(b@, k),
        decreases last + 1 - i,
    {
        if b[i] == 13 && b[i + 1] == 10 && b[i + 2] == 13 && b[i + 3] == 10 {
            assert(ends_line_at(b@, i as int));
            return true;
        }
        i = i + 1;
    }
    false
}

/// The bytes before the first line feed.
pub open spec fn first_line(b: Seq<u8>) -> Seq<u8>
    decreases b.len(),
{
    if b.len() == 0 || b[0] == 10 {
        seq![]
    } else {
        seq![b[0]] + first_line(b.drop_first())
    }
}

/// The status of a response head: the second word of a first line that starts
/// as HTTP/1.
pub open spec fn status_of(head: Seq<u8>) -> Option<nat> {
    let line = first_line(head);
    if !vstd::utf8::valid_utf8(line) {
        None
    } else {
        let s = vstd::utf8::decode_utf8(line);
        let w = text::words(s);
        if !text::begins(s, "HTTP/1."@) || w.len() < 2 {
            None
        } else {
            text::unsigned(w[1], u16::MAX as nat)
        }
    }
}

proof fn lemma_first_line(b: Seq<u8>, n: int)
    requires
        0 <= n <= b.len(),
        forall|k: int| 0 <= k < n ==> b[k] != 10,
        n == b.len() || b[n] == 10,
    ensures
        first_line(b) == b.take(n),
    decreases n,
{
    if n > 0 {
        let t = b.drop_first();
        assert forall|k: int| 0 <= k < n - 1 implies t[k] != 10 by {
            assert(t[k] == b[k + 1]);
        }
        lemma_first_line(t, n - 1);
        assert(b.take(n) =~= seq![b[0]] + t.take(n - 1));
    } else {
        assert(b.take(0) =~= Seq::<u8>::empty());
    }
}

pub fn response_status(head: &[u8]) -> (r: Option<u16>)
    ensures
        match r {
            Some(status) => status_of(head@) == Some(status as nat),
            None => status_of(head@) is None,
        },
{
    let mut n: usize = 0;
    while n < head.len() && head[n] != 10
        invariant
            n <= head@.len(),
            forall|k: int| 0 <= k < n ==> head@[k] != 10,
        decreases head@.len() - n,
    {
        n = n + 1;
    }
    let line = slice_subrange(head, 0, n);
    proof {
        lemma_first_line(head@, n as int);
        assert(line@ =~= head@.take(n as int));
    }
    let s = match text::utf8_text(line) {
        Some(s) => text::chars_of(s.as_str()),
        None => return None,
    };
    if !text::starts_with(s.as_slice(), text::chars_of("HTTP/1.").as_slice()) {
        return None;
    }
    let w = text::split_words(s.as_slice());
    if w.len() < 2 {
        return None;
    }
    text::parse_u16(w[1].as_slice())
}

/// A request is redirected to its own host and target over HTTPS: on the port
/// that is configured or else the default one, which is left out if it is the
/// standard one; another host only if one is configured.
pub proof fn a_redirect_keeps_host_and_target(host: Seq<char>, target: Seq<char>, port: u16)
    requires
        !host.contains(':'),
    ensures
        redirect_location(host, target, None, 443) == "https://"@ + host + target,
        port != 443 ==> redirect_location(host, target, None, port) == "https://"@ + host + (":"@ + text::decimal(
            port as nat,
        )) + target,
        redirect_status(None) == 308,
{
    assert("https://"@ + host + Seq::<char>::empty() =~= "https://"@ + host);
}

/// What a redirect is configured with outranks what the request says.
pub proof fn a_configured_redirect_outranks_the_request(
    host: Seq<char>,
    target: Seq<char>,
    c: HttpRedirectConfig,
    default_port: u16,
)
    requires
        c.hostname is Some,
        c.port is Some,
    ensures
        redirect_location(host, target, Some(c), default_port) == "https://"@ + authority((c.hostname->0)@) + port_suffix(
            c.port->0,
        ) + target,
        redirect_status(Some(c)) == c.status,
{
}

/// A request is accepted exactly if none of its tokens was forwarded recently
/// and its host is the one that TLS was set up for, if it was; a loop is the
/// first reason to refuse it.
pub proof fn a_request_for_the_right_host_is_accepted(
    seen: Map<Seq<u8>, u64>,
    tokens: Seq<Seq<char>>,
    sni: Option<String>,
    host: Seq<char>,
    now: u64,
)
    ensures
        ({
            let looped = exists|i: int|
                0 <= i < tokens.len() && seen.dom().contains(vstd::utf8::encode_utf8(#[trigger] tokens[i]))
                    && seen[vstd::utf8::encode_utf8(tokens[i])] > now;
            let right = sni matches Some(s) ==> same_host(s@, host);
            &&& acceptance(seen, tokens, sni, host, now) is None <==> !looped && right
            &&& acceptance(seen, tokens, sni, host, now) == Some(RequestRefusal::Looped) <==> looped
        }),
        tokens.len() == 0 && sni is None ==> acceptance(seen, tokens, sni, host, now) is None,
{
    if looped_among(seen, tokens, now) {
        let i = choose|i: int|
            0 <= i < tokens.len() && is_recent(seen, vstd::utf8::encode_utf8(#[trigger] tokens[i]), now);
        assert(seen.dom().contains(vstd::utf8::encode_utf8(tokens[i])));
    }
    if exists|i: int|
        0 <= i < tokens.len() && seen.dom().contains(vstd::utf8::encode_utf8(#[trigger] tokens[i]))
            && seen[vstd::utf8::encode_utf8(tokens[i])] > now {
        let i = choose|i: int|
            0 <= i < tokens.len() && seen.dom().contains(vstd::utf8::encode_utf8(#[trigger] tokens[i]))
                && seen[vstd::utf8::encode_utf8(tokens[i])] > now;
        assert(is_recent(seen, vstd::utf8::encode_utf8(tokens[i]), now));
    }
}

/// Two names are the same host whatever the case of their letters, and with or
/// without a dot at the end; names that differ otherwise are not.
pub proof fn hosts_are_the_same_but_for_case_and_a_dot(a: Seq<char>, b: Seq<char>)
    requires
        a.len() > 0 && a.last() != '.',
        b.len() > 0 && b.last() != '.',
    ensures
        same_host(a, b) <==> text::lower(a) == text::lower(b),
        same_host(a.push('.'), a),
        same_host(text::lower(a), a),
{
    assert(a.push('.').drop_last() =~= a);
    let low = text::lower(a);
    assert(low.last() == text::lower_char(a.last()));
    text::lower_case_is_letter_by_letter(a, a.len() - 1);
}

/// The status of a response is the number behind its version.
pub proof fn a_status_is_the_number_behind_the_version(minor: char, status: u16, reason: Seq<char>, head: Seq<u8>, rest: Seq<u8>)
    requires
        '0' <= minor <= '9',
        ({
            let line = "HTTP/1."@.push(minor).push(' ') + (text::decimal(status as nat).push(' ') + reason);
            &&& head == vstd::utf8::encode_utf8(line).push(10u8) + rest
            &&& forall|i: int|
                0 <= i < vstd::utf8::encode_utf8(line).len() ==> #[trigger] vstd::utf8::encode_utf8(line)[i] != 10
        }),
    ensures
        status_of(head) == Some(status as nat),
{
    reveal_strlit("HTTP/1.");
    let version = "HTTP/1."@.push(minor);
    let d = text::decimal(status as nat);
    let line = version.push(' ') + (d.push(' ') + reason);
    let bytes = vstd::utf8::encode_utf8(line);
    lemma_line_is_first(bytes, rest);
    vstd::utf8::encode_utf8_valid_utf8(line);
    vstd::utf8::encode_utf8_decode_utf8(line);
    text::decimal_notation_reads_back(status as nat, u16::MAX as nat);
    assert(line.take("HTTP/1."@.len() as int) =~= "HTTP/1."@);
    assert forall|i: int| 0 <= i < d.len() implies !text::is_blank(#[trigger] d[i]) by {
        assert(text::is_digit(d[i]));
    }
    text::a_run_of_characters_is_one_word(version);
    text::a_run_of_characters_is_one_word(d);
    text::blanks_part_words(d, ' ', reason);
    text::blanks_part_words(version, ' ', d.push(' ') + reason);
    assert(text::words(line)[1] == d);
}

proof fn lemma_line_is_first(line: Seq<u8>, rest: Seq<u8>)
    requires
        forall|i: int| 0 <= i < line.len() ==> #[trigger] line[i] != 10,
    ensures
        first_line(line.push(10u8) + rest) == line,
    decreases line.len(),
{
    let b = line.push(10u8) + rest;
    if line.len() == 0 {
        assert(b[0] == 10);
        assert(line =~= seq![]);
    } else {
        assert(b[0] == line[0]);
        let t = line.drop_first();
        assert(b.drop_first() =~= t.push(10u8) + rest);
        assert forall|i: int| 0 <= i < t.len() implies #[trigger] t[i] != 10 by {
            assert(t[i] == line[i + 1]);
        }
        lemma_line_is_first(t, rest);
        assert(seq![line[0]] + t =~= line);
    }
}

/// Credentials are read from behind the scheme, without white space around
/// them.
pub proof fn credentials_stand_behind_the_scheme(value: Seq<char>)
    requires
        value.len() > 0,
        !text::is_ws(value[0]),
        !text::is_ws(value.last()),
    ensures
        credentials(Some("Basic "@ + value)) == crypto::base64_standard(value),
        credentials(Some("basic "@ + value)) == crypto::base64_standard(value),
        credentials(None) is None,
{
    reveal_strlit("Basic ");
    reveal_strlit("basic ");
    let none = Seq::<char>::empty();
    let a = "Basic "@ + value;
    let b = "basic "@ + value;
    assert(none + value + none =~= value);
    text::trimming_takes_off_white_space_alone(none, value, none);
    assert(a.take(6) =~= "Basic "@);
    assert(a.skip(6) =~= value);
    assert(b.take(6) =~= "basic "@);
    assert(b.skip(6) =~= value);
    assert("Basic "@[0] != "basic "@[0]);
}

/// A response head is read on until its blank line comes, the upstream closes or
/// it is larger than 64 KiB; nothing that was read is lost.
pub proof fn a_response_head_is_read_until_it_ends(buffer: &mut Vec<u8>, chunk: &[u8], r: HeadProgress)
    requires
        call_ensures(read_response_head, (buffer, chunk), r),
    ensures
        final(buffer)@ == old(buffer)@ + chunk@,
        r == HeadProgress::Closed <==> chunk@.len() == 0,
        chunk@.len() > 0 && holds_blank_line(final(buffer)@) ==> r == HeadProgress::Complete,
        chunk@.len() > 0 && !holds_blank_line(final(buffer)@) ==> (r == HeadProgress::TooLarge <==> final(buffer)@.len()
            > 65536),
{
}

/// A request that is accepted shows its host and counts its head, and leaves
/// every other connection alone.
pub proof fn an_accepted_request_shows_its_host(
    seen: &mut Cache,
    tracker: &mut ActiveTracker,
    id: RequestId,
    head: HttpHead,
    tokens: Vec<String>,
    sni: Option<String>,
    now: u64,
    r: Result<usize, RequestRefusal>,
)
    requires
        call_ensures(accept_request, (seen, tracker, &id, &head, &tokens, &sni, now), r),
        old(tracker)@.dom().contains(Key::id(&id)),
        tokens@.len() == 0,
        sni is None || same_host((sni->0)@, head.host@),
        old(tracker)@[Key::id(&id)].uploaded_bytes + head.head_len <= u64::MAX,
    ensures
        r == Ok::<usize, RequestRefusal>(head.head_len),
        final(tracker)@[Key::id(&id)].sni@ == head.host@,
        final(tracker)@[Key::id(&id)].uploaded_bytes == old(tracker)@[Key::id(&id)].uploaded_bytes + head.head_len,
{
}

} // verus!
