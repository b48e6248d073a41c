//! The routes of the running proxy: which host goes where, and how.
use vstd::prelude::*;
use crate::patterns;
use crate::resolver;
use crate::text;

verus! {

pub const DEFAULT_LISTENER_NAME: &'static str = "default";

#[derive(Debug, Clone, Copy, PartialEq, Eq, Structural)]
pub enum HttpLoadBalancing {
    RoundRobin,
    ClientIpHash,
}

#[derive(Debug, Clone, Copy, PartialEq, Eq, Structural)]
pub enum UpstreamTransport {
    Plaintext,
    Tls,
}

/// Which hosts a route is for.
#[derive(Debug)]
pub struct HostMatcher {
    pub exact: Vec<String>,
    pub suffix: Vec<String>,
    pub patterns: Vec<String>,
}

impl Default for HostMatcher {
    fn default() -> (r: HostMatcher)
        ensures
            r.exact@.len() == 0,
            r.suffix@.len() == 0,
            r.patterns@.len() == 0,
    {
        HostMatcher { exact: Vec::new(), suffix: Vec::new(), patterns: Vec::new() }
    }
}

#[derive(Debug)]
pub struct HttpBackend {
    pub address: String,
    pub transport: UpstreamTransport,
    pub tls_server_name: Option<String>,
}

#[derive(Debug)]
pub struct HttpBasicAuthUser {
    pub username: String,
    pub password: String,
}

#[derive(Debug)]
pub struct HttpBasicAuth {
    pub enabled: bool,
    pub users: Vec<HttpBasicAuthUser>,
}

impl Default for HttpBasicAuth {
    fn default() -> (r: HttpBasicAuth)
        ensures
            !r.enabled,
            r.users@.len() == 0,
    {
        HttpBasicAuth { enabled: false, users: Vec::new() }
    }
}

/// Where plain HTTP requests are sent to HTTPS.
#[derive(Debug)]
pub struct HttpRedirectConfig {
    pub hostname: Option<String>,
    pub port: Option<u16>,
    pub status: u16,
    pub preserve_host: bool,
}

#[derive(Debug)]
pub enum HttpPathAction {
    StaticFiles { document_root: String, index: Option<String>, directory_listing: bool },
    ReverseProxy { action: HttpRouteAction },
}

#[derive(Debug)]
pub struct HttpPathRoute {
    pub prefix: String,
    pub strip_prefix: bool,
    pub basic_auth: HttpBasicAuth,
    pub action: HttpPathAction,
}

#[derive(Debug)]
pub struct HttpRouteAction {
    pub backends: Vec<HttpBackend>,
    pub paths: Vec<HttpPathRoute>,
    pub target: Option<String>,
    pub target_port: u16,
    pub upstream: UpstreamTransport,
    pub host_header: Option<String>,
    pub load_balancing: HttpLoadBalancing,
}

#[derive(Debug)]
pub enum TlsRouteAction {
    Passthrough { target_port: u16, target: Option<String>, load_balancing: HttpLoadBalancing },
    Terminate {
        target_port: u16,
        target: Option<String>,
        upstream: UpstreamTransport,
        load_balancing: HttpLoadBalancing,
    },
    ReverseProxy { action: HttpRouteAction },
    Reject,
}

impl TlsRouteAction {
    /// The upstream port that the route names.
    pub fn target_port(&self) -> (r: Option<u16>)
        ensures
            r == match self {
                TlsRouteAction::Passthrough { target_port, .. } => Some(*target_port),
                TlsRouteAction::Terminate { target_port, .. } => Some(*target_port),
                _ => None,
            },
    {
        match self {
            TlsRouteAction::Passthrough { target_port, .. } => Some(*target_port),
            TlsRouteAction::Terminate { target_port, .. } => Some(*target_port),
            _ => None,
        }
    }
}

#[derive(Debug)]
pub struct TlsHostRoute {
    pub name: String,
    pub matcher: HostMatcher,
    pub action: TlsRouteAction,
}

#[derive(Debug)]
pub struct OrdinaryTlsConfig {
    pub routes: Vec<TlsHostRoute>,
    pub max_idle_time_ms: Option<u64>,
}

impl Default for OrdinaryTlsConfig {
    fn default() -> (r: OrdinaryTlsConfig)
        ensures
            r.routes@.len() == 0,
            r.max_idle_time_ms is None,
    {
        OrdinaryTlsConfig { routes: Vec::new(), max_idle_time_ms: None }
    }
}

#[derive(Debug)]
pub struct DefaultListenerConfig {
    pub bind: String,
    pub ordinary_traffic: OrdinaryTlsConfig,
}

impl Default for DefaultListenerConfig {
    fn default() -> (r: DefaultListenerConfig)
        ensures
            r.bind@ == "0.0.0.0:443"@,
            r.ordinary_traffic.routes@.len() == 0,
            r.ordinary_traffic.max_idle_time_ms is None,
    {
        DefaultListenerConfig { bind: text::owned("0.0.0.0:443"), ordinary_traffic: OrdinaryTlsConfig::default() }
    }
}

/// A route of a plain HTTP listener.
#[derive(Debug)]
pub struct HttpHostRoute {
    pub matcher: HostMatcher,
    pub action: HttpRouteAction,
}

/// A listener besides the default one.
#[derive(Debug)]
pub enum AdditionalListenerConfig {
    Tls { bind: String, routing: OrdinaryTlsConfig },
    Http { bind: String, routes: Vec<HttpHostRoute> },
    Redirect { bind: String, redirect: HttpRedirectConfig },
    Forward { bind: String, targets: String, upstream_tls: bool },
}

#[derive(Debug)]
pub struct RuntimeConfig {
    pub default_listener: DefaultListenerConfig,
    pub additional_listeners: Vec<(String, AdditionalListenerConfig)>,
    pub disabled_listeners: Vec<String>,
}

impl HostMatcher {
    pub open spec fn names(self, host: Seq<char>) -> bool {
        exists|i: int| 0 <= i < self.exact@.len() && text::lower(host) == text::lower((#[trigger] self.exact@[i])@)
    }

    pub open spec fn covers(self, host: Seq<char>) -> bool {
        exists|i: int|
            0 <= i < self.suffix@.len() && resolver::ends_in(
                text::lower(host),
                text::lower(text::trimmed_start_of((#[trigger] self.suffix@[i])@, '.')),
            )
    }

    pub open spec fn describes(self, host: Seq<char>) -> bool {
        exists|i: int|
            0 <= i < self.patterns@.len() && patterns::pattern_compiles((#[trigger] self.patterns@[i])@, true)
                && patterns::pattern_matches(self.patterns@[i]@, true, host)
    }

    /// Whether the route is for a host: one of its names, under one of its
    /// suffixes at a label boundary, or matched by one of its patterns.
    pub open spec fn selects(self, host: Seq<char>) -> bool {
        self.names(host) || self.covers(host) || self.describes(host)
    }

    pub fn matches_host(&self, host: &str) -> (r: bool)
        ensures
            r == self.selects(host@),
    {
        let low = text::string_of(text::to_lower(text::chars_of(host).as_slice()).as_slice());
        let mut i: usize = 0;
        while i < self.exact.len()
            invariant
                i <= self.exact@.len(),
                forall|k: int| 0 <= k < i ==> text::lower(host@) != text::lower((#[trigger] self.exact@[k])@),
            decreases self.exact@.len() - i,
        {
            if text::eq_ignore_case(host, self.exact[i].as_str()) {
                return true;
            }
            i = i + 1;
        }
        let mut j: usize = 0;
        while j < self.suffix.len()
            invariant
                j <= self.suffix@.len(),
                low@ == text::lower(host@),
                !self.names(host@),
                forall|k: int|
                    0 <= k < j ==> !resolver::ends_in(
                        text::lower(host@),
                        text::lower(text::trimmed_start_of((#[trigger] self.suffix@[k])@, '.')),
                    ),
            decreases self.suffix@.len() - j,
        {
            let s = text::chars_of(self.suffix[j].as_str());
            let base = text::string_of(text::to_lower(text::trim_start_of(s.as_slice(), '.')).as_slice());
            if resolver::suffix_matches(low.as_str(), base.as_str()) {
                assert(self.covers(host@));
                return true;
            }
            j = j + 1;
        }
        let mut n: usize = 0;
        while n < self.patterns.len()
            invariant
                n <= self.patterns@.len(),
                !self.names(host@),
                !self.covers(host@),
                forall|k: int|
                    0 <= k < n ==> !(patterns::pattern_compiles((#[trigger] self.patterns@[k])@, true)
                        && patterns::pattern_matches(self.patterns@[k]@, true, host@)),
            decreases self.patterns@.len() - n,
        {
            if let Some(true) = patterns::is_match(self.patterns[n].as_str(), true, host) {
                return true;
            }
            n = n + 1;
        }
        false
    }
}

impl OrdinaryTlsConfig {
    /// Whether the `k`-th route is the first that is for a host.
    pub open spec fn first_route(self, host: Seq<char>, k: int) -> bool {
        &&& 0 <= k < self.routes@.len()
        &&& self.routes@[k].matcher.selects(host)
        &&& forall|i: int| 0 <= i < k ==> !(#[trigger] self.routes@[i]).matcher.selects(host)
    }

    /// Whether some route is for a host.
    pub open spec fn routes_host(self, host: Seq<char>) -> bool {
        exists|k: int| 0 <= k < self.routes@.len() && (#[trigger] self.routes@[k]).matcher.selects(host)
    }

    /// The action of the first route that is for a host.
    pub fn select_route(&self, host: &str) -> (r: Option<&TlsRouteAction>)
        ensures
            r is Some <==> self.routes_host(host@),
            r is Some ==> exists|k: int| #[trigger]
                self.first_route(host@, k) && *(r->0) == self.routes@[k].action,
    {
        let mut k: usize = 0;
        while k < self.routes.len()
            invariant
                k <= self.routes@.len(),
                forall|i: int| 0 <= i < k ==> !(#[trigger] self.routes@[i]).matcher.selects(host@),
            decreases self.routes@.len() - k,
        {
            if self.routes[k].matcher.matches_host(host) {
                assert(self.first_route(host@, k as int));
                return Some(&self.routes[k].action);
            }
            k = k + 1;
        }
        None
    }
}

/// A route is for every host that it names, in whatever case.
pub proof fn a_named_host_is_selected(m: HostMatcher, host: Seq<char>, i: int)
    requires
        0 <= i < m.exact@.len(),
        text::lower(host) == text::lower(m.exact@[i]@),
    ensures
        m.selects(host),
{
}

/// A route is for a suffix and for every host under it, however many labels
/// stand in front and whatever the case; dots in front of the suffix make no
/// difference.
pub proof fn a_host_under_a_suffix_is_selected(m: HostMatcher, front: Seq<char>, dots: Seq<char>, base: Seq<char>, i: int)
    requires
        0 <= i < m.suffix@.len(),
        m.suffix@[i]@ == dots + base,
        forall|k: int| 0 <= k < dots.len() ==> #[trigger] dots[k] == '.',
        base.len() > 0 && base[0] != '.',
    ensures
        m.selects(base),
        m.selects(front.push('.') + base),
{
    lemma_dots_are_trimmed(dots, base);
    let host = front.push('.') + base;
    resolver::every_host_under_a_suffix_matches(text::lower(front), text::lower(base));
    assert(text::lower(host) =~= text::lower(front).push('.') + text::lower(base));
    assert(resolver::ends_in(
        text::lower(host),
        text::lower(text::trimmed_start_of(m.suffix@[i]@, '.')),
    ));
    assert(resolver::ends_in(
        text::lower(base),
        text::lower(text::trimmed_start_of(m.suffix@[i]@, '.')),
    ));
}

proof fn lemma_dots_are_trimmed(dots: Seq<char>, base: Seq<char>)
    requires
        forall|k: int| 0 <= k < dots.len() ==> #[trigger] dots[k] == '.',
        base.len() > 0 && base[0] != '.',
    ensures
        text::trimmed_start_of(dots + base, '.') == base,
    decreases dots.len(),
{
    if dots.len() > 0 {
        assert(dots[0] == '.');
        assert((dots + base).drop_first() =~= dots.drop_first() + base);
        assert forall|k: int| 0 <= k < dots.drop_first().len() implies #[trigger] dots.drop_first()[k] == '.' by {
            assert(dots.drop_first()[k] == dots[k + 1]);
        }
        lemma_dots_are_trimmed(dots.drop_first(), base);
    } else {
        assert(dots + base =~= base);
    }
}

/// A route is for a host that one of its patterns matches, and for no host that
/// it neither names nor covers nor matches.
pub proof fn nothing_else_is_selected(m: HostMatcher, host: Seq<char>, i: int)
    ensures
        0 <= i < m.patterns@.len() && patterns::pattern_compiles(m.patterns@[i]@, true) && patterns::pattern_matches(
            m.patterns@[i]@,
            true,
            host,
        ) ==> m.selects(host),
        m.selects(host) ==> (exists|k: int|
            0 <= k < m.exact@.len() && text::lower(host) == text::lower((#[trigger] m.exact@[k])@)) || (exists|k: int|
            0 <= k < m.suffix@.len() && resolver::ends_in(
                text::lower(host),
                text::lower(text::trimmed_start_of((#[trigger] m.suffix@[k])@, '.')),
            )) || (exists|k: int|
            0 <= k < m.patterns@.len() && patterns::pattern_matches((#[trigger] m.patterns@[k])@, true, host)),
{
}

} // verus!
