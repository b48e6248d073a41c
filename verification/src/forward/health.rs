//! Health checks of backends: which endpoints are probed for which route, what
//! a probe asks and what its answers mean.
use vstd::prelude::*;
use crate::forward::group;
use crate::forward::group::{GroupKey, MonitorGroup};
use crate::forward::select;
use crate::forward::targets;
use crate::hostutil;
use crate::hostutil::HostAndPort;
use crate::order;
use crate::order::Ranked;
use crate::resolver;
use crate::resolver::Tables;
use crate::runtime_config::{
    AdditionalListenerConfig,
    DEFAULT_LISTENER_NAME,
    HostMatcher,
    HttpBackend,
    HttpHostRoute,
    HttpLoadBalancing,
    HttpPathAction,
    HttpPathRoute,
    HttpRouteAction,
    RuntimeConfig,
    TlsHostRoute,
    TlsRouteAction,
    UpstreamTransport,
};
use crate::table;
use crate::table::{Key, Table};
use crate::text;

verus! {

/// Which route a group is probed for.
#[derive(Debug)]
pub struct HealthBinding {
    pub group: GroupKey,
    pub listener: String,
    pub host: String,
    pub path: String,
    pub backend: String,
    pub transport: String,
    pub load_balancing: String,
}

/// An endpoint as the control plane shows it.
#[derive(Debug)]
pub struct HealthCheckTarget {
    pub listener: String,
    pub host: String,
    pub path: String,
    pub backend: String,
    pub endpoint: String,
    pub transport: String,
    pub load_balancing: String,
    pub online: Option<bool>,
    pub since_ms: u128,
    pub last_checked_ms: u128,
}

/// The target that a host and port stand for once the overrides are applied.
pub open spec fn effective(tables: Tables, host: Seq<char>, port: u16) -> (Seq<char>, u16) {
    let found = match resolver::override_for(tables, text::lowercased(host), port) {
        Some(to) => to,
        None => hostutil::shown(host, port),
    };
    targets::pool_member(found, port)
}

/// Applies the overrides to a target; without one it stays as it is.
pub fn resolve_override_first(tables: &Tables, host: &str, port: u16) -> (r: HostAndPort)
    requires
        tables.exact_with_port.wf(),
        tables.exact_any_port.wf(),
    ensures
        (r.host@, r.port) == effective(*tables, host@, port),
{
    let found = match resolver::resolve(tables, host, port) {
        Some(to) => to,
        None => HostAndPort::new(text::owned(host), port).to_string(),
    };
    HostAndPort::parse_or_default(found.as_str(), port)
}

pub open spec fn suffix_labels(s: Seq<String>) -> Seq<Seq<char>> {
    s.map_values(|v: String| "*."@ + text::trimmed_start_of(v@, '.'))
}

pub open spec fn pattern_labels(s: Seq<String>) -> Seq<Seq<char>> {
    s.map_values(|v: String| "/"@ + v@ + "/"@)
}

/// How a matcher is shown: its names, its suffixes as `*.suffix` and its
/// patterns between slashes.
pub open spec fn label_of(m: HostMatcher) -> Seq<char> {
    text::joined(text::views(m.exact@) + suffix_labels(m.suffix@) + pattern_labels(m.patterns@), ", "@)
}

pub fn matcher_label(matcher: &HostMatcher) -> (r: String)
    ensures
        r@ == label_of(*matcher),
{
    let mut parts: Vec<String> = Vec::new();
    let ghost e = text::views(matcher.exact@);
    let ghost s = suffix_labels(matcher.suffix@);
    let ghost p = pattern_labels(matcher.patterns@);
    let mut i: usize = 0;
    assert(text::views(parts@) =~= e.take(0));
    while i < matcher.exact.len()
        invariant
            i <= matcher.exact@.len(),
            e == text::views(matcher.exact@),
            text::views(parts@) == e.take(i as int),
        decreases matcher.exact@.len() - i,
    {
        let ghost p0 = text::views(parts@);
        parts.push(matcher.exact[i].clone());
        assert(text::views(parts@) =~= p0.push(e[i as int]));
        assert(e.take(i + 1) =~= e.take(i as int).push(e[i as int]));
        i = i + 1;
    }
    assert(text::views(parts@) =~= e + s.take(0));
    i = 0;
    while i < matcher.suffix.len()
        invariant
            i <= matcher.suffix@.len(),
            s == suffix_labels(matcher.suffix@),
            text::views(parts@) == e + s.take(i as int),
        decreases matcher.suffix@.len() - i,
    {
        let ghost p0 = text::views(parts@);
        let mut one = text::owned("*.");
        let v = text::chars_of(matcher.suffix[i].as_str());
        text::push_chars(&mut one, text::trim_start_of(v.as_slice(), '.'));
        assert(one@ =~= s[i as int]);
        parts.push(one);
        assert(text::views(parts@) =~= p0.push(s[i as int]));
        assert(e + s.take(i + 1) =~= (e + s.take(i as int)).push(s[i as int]));
        i = i + 1;
    }
    assert(text::views(parts@) =~= e + s + p.take(0));
    i = 0;
    while i < matcher.patterns.len()
        invariant
            i <= matcher.patterns@.len(),
            p == pattern_labels(matcher.patterns@),
            text::views(parts@) == e + s + p.take(i as int),
        decreases matcher.patterns@.len() - i,
    {
        let ghost p0 = text::views(parts@);
        let mut one = text::owned("/");
        one.push_str(matcher.patterns[i].as_str());
        one.push_str("/");
        parts.push(one);
        assert(text::views(parts@) =~= p0.push(p[i as int]));
        assert(e + s + p.take(i + 1) =~= (e + s + p.take(i as int)).push(p[i as int]));
        i = i + 1;
    }
    assert(p.take(i as int) =~= p);
    text::join(&parts, ", ")
}

/// A backend of a route with what its group is made from.
#[derive(Debug)]
pub struct BoundBackend {
    pub binding: HealthBinding,
    pub requested: HostAndPort,
    pub effective: HostAndPort,
    pub tls_server_name: String,
}

/// What a bound backend is.
pub struct BoundModel {
    pub group: (Seq<char>, bool, bool),
    pub listener: Seq<char>,
    pub host: Seq<char>,
    pub path: Seq<char>,
    pub backend: Seq<char>,
    pub transport: Seq<char>,
    pub load_balancing: Seq<char>,
    pub requested: (Seq<char>, u16),
    pub effective: (Seq<char>, u16),
    pub tls_server_name: Seq<char>,
}

impl BoundBackend {
    pub open spec fn view(self) -> BoundModel {
        BoundModel {
            group: Key::id(&self.binding.group),
            listener: self.binding.listener@,
            host: self.binding.host@,
            path: self.binding.path@,
            backend: self.binding.backend@,
            transport: self.binding.transport@,
            load_balancing: self.binding.load_balancing@,
            requested: (self.requested.host@, self.requested.port),
            effective: (self.effective.host@, self.effective.port),
            tls_server_name: self.tls_server_name@,
        }
    }
}

pub open spec fn models(s: Seq<BoundBackend>) -> Seq<BoundModel> {
    s.map_values(|b: BoundBackend| b@)
}

pub open spec fn balancing_text(b: HttpLoadBalancing) -> Seq<char> {
    match b {
        HttpLoadBalancing::RoundRobin => "round_robin"@,
        HttpLoadBalancing::ClientIpHash => "client_ip_hash"@,
    }
}

pub open spec fn transport_text(tls: bool) -> Seq<char> {
    if tls {
        "tls"@
    } else {
        "plaintext"@
    }
}

/// How one backend of a route is bound.
pub open spec fn bound(
    tables: Tables,
    listener: Seq<char>,
    host: Seq<char>,
    path: Seq<char>,
    action: HttpRouteAction,
    b: HttpBackend,
) -> BoundModel {
    let requested = targets::pool_member(b.address@, action.target_port);
    let to = effective(tables, requested.0, requested.1);
    let tls = b.transport == UpstreamTransport::Tls;
    BoundModel {
        group: (hostutil::shown(to.0, to.1), tls, true),
        listener,
        host,
        path,
        backend: b.address@,
        transport: transport_text(tls),
        load_balancing: balancing_text(action.load_balancing),
        requested,
        effective: to,
        tls_server_name: match b.tls_server_name {
            Some(name) => name@,
            None => requested.0,
        },
    }
}

pub open spec fn own_bindings(
    tables: Tables,
    listener: Seq<char>,
    host: Seq<char>,
    path: Seq<char>,
    action: HttpRouteAction,
) -> Seq<BoundModel> {
    action.backends@.map_values(|b: HttpBackend| bound(tables, listener, host, path, action, b))
}

/// The bindings of a reverse-proxy action: its own backends, then those of its
/// path routes in order.
pub open spec fn action_bindings(
    tables: Tables,
    listener: Seq<char>,
    host: Seq<char>,
    path: Seq<char>,
    action: HttpRouteAction,
) -> Seq<BoundModel>
    decreases action,
{
    own_bindings(tables, listener, host, path, action) + path_bindings(tables, listener, host, action.paths@)
}

pub open spec fn path_bindings(tables: Tables, listener: Seq<char>, host: Seq<char>, paths: Seq<HttpPathRoute>) -> Seq<
    BoundModel,
>
    decreases paths,
{
    if paths.len() == 0 {
        seq![]
    } else {
        let last = paths[paths.len() - 1];
        path_bindings(tables, listener, host, paths.subrange(0, paths.len() - 1)) + match last.action {
            HttpPathAction::ReverseProxy { action } => action_bindings(tables, listener, host, last.prefix@, action),
            HttpPathAction::StaticFiles { .. } => seq![],
        }
    }
}

fn bind_backend(
    tables: &Tables,
    listener: &str,
    host: &str,
    path: &str,
    action: &HttpRouteAction,
    backend: &HttpBackend,
) -> (r: BoundBackend)
    requires
        tables.exact_with_port.wf(),
        tables.exact_any_port.wf(),
    ensures
        r@ == bound(*tables, listener@, host@, path@, *action, *backend),
{
    let requested = HostAndPort::parse_or_default(backend.address.as_str(), action.target_port);
    let to = resolve_override_first(tables, requested.host(), requested.port());
    let tls = backend.transport == UpstreamTransport::Tls;
    let tls_server_name = match &backend.tls_server_name {
        Some(name) => name.clone(),
        None => requested.host.clone(),
    };
    let load_balancing = match action.load_balancing {
        HttpLoadBalancing::RoundRobin => text::owned("round_robin"),
        HttpLoadBalancing::ClientIpHash => text::owned("client_ip_hash"),
    };
    BoundBackend {
        binding: HealthBinding {
            group: GroupKey { target: to.to_string(), upstream_tls: tls, http_health: true },
            listener: text::owned(listener),
            host: text::owned(host),
            path: text::owned(path),
            backend: backend.address.clone(),
            transport: if tls {
                text::owned("tls")
            } else {
                text::owned("plaintext")
            },
            load_balancing,
        },
        requested,
        effective: to,
        tls_server_name,
    }
}

/// Binds the backends of a reverse-proxy action and of the path routes below
/// it.
pub fn bind_http_action(
    out: &mut Vec<BoundBackend>,
    tables: &Tables,
    listener: &str,
    host: &str,
    path: &str,
    action: &HttpRouteAction,
)
    requires
        tables.exact_with_port.wf(),
        tables.exact_any_port.wf(),
    ensures
        models(final(out)@) == models(old(out)@) + action_bindings(*tables, listener@, host@, path@, *action),
    decreases action,
{
    let ghost start = models(out@);
    let ghost own = own_bindings(*tables, listener@, host@, path@, *action);
    let mut i: usize = 0;
    assert(models(out@) =~= start + own.take(0));
    while i < action.backends.len()
        invariant
            i <= action.backends@.len(),
            tables.exact_with_port.wf(),
            tables.exact_any_port.wf(),
            own == own_bindings(*tables, listener@, host@, path@, *action),
            models(out@) == start + own.take(i as int),
        decreases action.backends@.len() - i,
    {
        let ghost o0 = models(out@);
        let b = bind_backend(tables, listener, host, path, action, &action.backends[i]);
        out.push(b);
        assert(models(out@) =~= o0.push(own[i as int]));
        assert(start + own.take(i + 1) =~= (start + own.take(i as int)).push(own[i as int]));
        i = i + 1;
    }
    assert(own.take(i as int) =~= own);
    let ghost p = action.paths@;
    let mut j: usize = 0;
    assert(models(out@) =~= start + own + path_bindings(*tables, listener@, host@, p.subrange(0, 0)));
    while j < action.paths.len()
        invariant
            j <= action.paths@.len(),
            p == action.paths@,
            tables.exact_with_port.wf(),
            tables.exact_any_port.wf(),
            models(out@) == start + own + path_bindings(*tables, listener@, host@, p.subrange(0, j as int)),
        decreases action.paths@.len() - j,
    {
        let ghost o0 = models(out@);
        let ghost q = p.subrange(0, j + 1);
        assert(q.subrange(0, q.len() - 1) =~= p.subrange(0, j as int));
        assert(q[q.len() - 1] == p[j as int]);
        match &action.paths[j].action {
            HttpPathAction::ReverseProxy { action: nested } => {
                bind_http_action(out, tables, listener, host, action.paths[j].prefix.as_str(), nested);
            },
            HttpPathAction::StaticFiles { .. } => {},
        }
        assert(models(out@) =~= start + own + path_bindings(*tables, listener@, host@, q));
        j = j + 1;
    }
    assert(p.subrange(0, j as int) =~= p);
    assert(start + own + path_bindings(*tables, listener@, host@, p) =~= start + (own + path_bindings(
        *tables,
        listener@,
        host@,
        p,
    )));
}

/// The bindings of the reverse-proxy routes of a TLS listener.
pub open spec fn tls_bindings(tables: Tables, listener: Seq<char>, routes: Seq<TlsHostRoute>) -> Seq<BoundModel>
    decreases routes.len(),
{
    if routes.len() == 0 {
        seq![]
    } else {
        tls_bindings(tables, listener, routes.drop_last()) + match routes.last().action {
            TlsRouteAction::ReverseProxy { action } => action_bindings(
                tables,
                listener,
                label_of(routes.last().matcher),
                "/"@,
                action,
            ),
            _ => seq![],
        }
    }
}

/// The bindings of the routes of a plain HTTP listener.
pub open spec fn http_bindings(tables: Tables, listener: Seq<char>, routes: Seq<HttpHostRoute>) -> Seq<BoundModel>
    decreases routes.len(),
{
    if routes.len() == 0 {
        seq![]
    } else {
        http_bindings(tables, listener, routes.drop_last()) + action_bindings(
            tables,
            listener,
            label_of(routes.last().matcher),
            "/"@,
            routes.last().action,
        )
    }
}

fn bind_tls_routes(out: &mut Vec<BoundBackend>, tables: &Tables, listener: &str, routes: &Vec<TlsHostRoute>)
    requires
        tables.exact_with_port.wf(),
        tables.exact_any_port.wf(),
    ensures
        models(final(out)@) == models(old(out)@) + tls_bindings(*tables, listener@, routes@),
{
    let ghost start = models(out@);
    let mut i: usize = 0;
    assert(models(out@) =~= start + tls_bindings(*tables, listener@, routes@.take(0)));
    while i < routes.len()
        invariant
            i <= routes@.len(),
            tables.exact_with_port.wf(),
            tables.exact_any_port.wf(),
            models(out@) == start + tls_bindings(*tables, listener@, routes@.take(i as int)),
        decreases routes@.len() - i,
    {
        assert(routes@.take(i + 1).drop_last() =~= routes@.take(i as int));
        if let TlsRouteAction::ReverseProxy { action } = &routes[i].action {
            let label = matcher_label(&routes[i].matcher);
            bind_http_action(out, tables, listener, label.as_str(), "/", action);
        }
        assert(models(out@) =~= start + tls_bindings(*tables, listener@, routes@.take(i + 1)));
        i = i + 1;
    }
    assert(routes@.take(i as int) =~= routes@);
}

fn bind_http_routes(out: &mut Vec<BoundBackend>, tables: &Tables, listener: &str, routes: &Vec<HttpHostRoute>)
    requires
        tables.exact_with_port.wf(),
        tables.exact_any_port.wf(),
    ensures
        models(final(out)@) == models(old(out)@) + http_bindings(*tables, listener@, routes@),
{
    let ghost start = models(out@);
    let mut i: usize = 0;
    assert(models(out@) =~= start + http_bindings(*tables, listener@, routes@.take(0)));
    while i < routes.len()
        invariant
            i <= routes@.len(),
            tables.exact_with_port.wf(),
            tables.exact_any_port.wf(),
            models(out@) == start + http_bindings(*tables, listener@, routes@.take(i as int)),
        decreases routes@.len() - i,
    {
        assert(routes@.take(i + 1).drop_last() =~= routes@.take(i as int));
        let label = matcher_label(&routes[i].matcher);
        bind_http_action(out, tables, listener, label.as_str(), "/", &routes[i].action);
        assert(models(out@) =~= start + http_bindings(*tables, listener@, routes@.take(i + 1)));
        i = i + 1;
    }
    assert(routes@.take(i as int) =~= routes@);
}

/// The bindings of one additional listener.
pub open spec fn listener_bindings(tables: Tables, name: Seq<char>, l: AdditionalListenerConfig) -> Seq<BoundModel> {
    match l {
        AdditionalListenerConfig::Tls { routing, .. } => tls_bindings(tables, name, routing.routes@),
        AdditionalListenerConfig::Http { routes, .. } => http_bindings(tables, name, routes@),
        AdditionalListenerConfig::Redirect { .. } => seq![],
        AdditionalListenerConfig::Forward { .. } => seq![],
    }
}

/// The bindings of the additional listeners that are not disabled.
pub open spec fn enabled_bindings(
    tables: Tables,
    listeners: Seq<(String, AdditionalListenerConfig)>,
    disabled: Seq<Seq<char>>,
) -> Seq<BoundModel>
    decreases listeners.len(),
{
    if listeners.len() == 0 {
        seq![]
    } else {
        enabled_bindings(tables, listeners.drop_last(), disabled) + if disabled.contains(listeners.last().0@) {
            seq![]
        } else {
            listener_bindings(tables, listeners.last().0@, listeners.last().1)
        }
    }
}

/// Every binding of a configuration.
pub open spec fn config_bindings(tables: Tables, config: RuntimeConfig) -> Seq<BoundModel> {
    tls_bindings(tables, DEFAULT_LISTENER_NAME@, config.default_listener.ordinary_traffic.routes@) + enabled_bindings(
        tables,
        config.additional_listeners@,
        text::views(config.disabled_listeners@),
    )
}

pub fn holds_name(names: &Vec<String>, name: &str) -> (r: bool)
    ensures
        r == text::views(names@).contains(name@),
{
    let ghost all = text::views(names@);
    let mut i: usize = 0;
    while i < names.len()
        invariant
            i <= names@.len(),
            all == text::views(names@),
            forall|k: int| 0 <= k < i ==> #[trigger] all[k] != name@,
        decreases names@.len() - i,
    {
        assert(all[i as int] == names@[i as int]@);
        if text::str_eq(names[i].as_str(), name) {
            return true;
        }
        i = i + 1;
    }
    false
}

/// Binds every reverse-proxy backend of the configuration to its health
/// checks; disabled listeners have none.
pub fn configure_health_checks(tables: &Tables, config: &RuntimeConfig) -> (r: Vec<BoundBackend>)
    requires
        tables.exact_with_port.wf(),
        tables.exact_any_port.wf(),
    ensures
        models(r@) == config_bindings(*tables, *config),
{
    let mut out: Vec<BoundBackend> = Vec::new();
    assert(models(out@) =~= seq![]);
    bind_tls_routes(&mut out, tables, DEFAULT_LISTENER_NAME, &config.default_listener.ordinary_traffic.routes);
    let ghost start = models(out@);
    let ghost all = config.additional_listeners@;
    let ghost disabled = text::views(config.disabled_listeners@);
    assert(start =~= tls_bindings(
        *tables,
        DEFAULT_LISTENER_NAME@,
        config.default_listener.ordinary_traffic.routes@,
    ));
    let mut i: usize = 0;
    assert(models(out@) =~= start + enabled_bindings(*tables, all.take(0), disabled));
    while i < config.additional_listeners.len()
        invariant
            i <= config.additional_listeners@.len(),
            all == config.additional_listeners@,
            disabled == text::views(config.disabled_listeners@),
            tables.exact_with_port.wf(),
            tables.exact_any_port.wf(),
            models(out@) == start + enabled_bindings(*tables, all.take(i as int), disabled),
        decreases config.additional_listeners@.len() - i,
    {
        assert(all.take(i + 1).drop_last() =~= all.take(i as int));
        let name = config.additional_listeners[i].0.as_str();
        if !holds_name(&config.disabled_listeners, name) {
            match &config.additional_listeners[i].1 {
                AdditionalListenerConfig::Tls { routing, .. } => bind_tls_routes(
                    &mut out,
                    tables,
                    name,
                    &routing.routes,
                ),
                AdditionalListenerConfig::Http { routes, .. } => bind_http_routes(&mut out, tables, name, routes),
                AdditionalListenerConfig::Redirect { .. } => {},
                AdditionalListenerConfig::Forward { .. } => {},
            }
        }
        assert(models(out@) =~= start + enabled_bindings(*tables, all.take(i + 1), disabled));
        i = i + 1;
    }
    assert(all.take(i as int) =~= all);
    out
}

/// Whether `a` comes no later than `b`, text by text.
pub open spec fn rows_le(a: Seq<Seq<char>>, b: Seq<Seq<char>>) -> bool
    decreases a.len(),
{
    if a.len() == 0 {
        true
    } else if b.len() == 0 {
        false
    } else if a[0] != b[0] {
        text::lex_le(a[0], b[0])
    } else {
        rows_le(a.drop_first(), b.drop_first())
    }
}

proof fn lemma_rows_total(a: Seq<Seq<char>>, b: Seq<Seq<char>>)
    ensures
        rows_le(a, b) || rows_le(b, a),
    decreases a.len(),
{
    if a.len() > 0 && b.len() > 0 {
        if a[0] == b[0] {
            lemma_rows_total(a.drop_first(), b.drop_first());
        } else {
            text::lemma_lex_total(a[0], b[0]);
        }
    }
}

proof fn lemma_rows_transitive(a: Seq<Seq<char>>, b: Seq<Seq<char>>, c: Seq<Seq<char>>)
    requires
        rows_le(a, b),
        rows_le(b, c),
    ensures
        rows_le(a, c),
    decreases a.len(),
{
    if a.len() > 0 && b.len() > 0 && c.len() > 0 {
        if a[0] == b[0] && b[0] == c[0] {
            lemma_rows_transitive(a.drop_first(), b.drop_first(), c.drop_first());
        } else if a[0] != b[0] && b[0] != c[0] {
            text::lemma_lex_transitive(a[0], b[0], c[0]);
            if a[0] == c[0] {
                text::lemma_lex_antisymmetric(a[0], b[0]);
            }
        }
    }
}

impl HealthCheckTarget {
    /// What targets are ordered by.
    pub open spec fn place(self) -> Seq<Seq<char>> {
        seq![self.listener@, self.host@, self.backend@, self.endpoint@]
    }
}

impl Ranked for HealthCheckTarget {
    open spec fn ranks_before(self, other: Self) -> bool {
        rows_le(self.place(), other.place())
    }

    proof fn total(a: Self, b: Self) {
        lemma_rows_total(a.place(), b.place());
    }

    proof fn transitive(a: Self, b: Self, c: Self) {
        lemma_rows_transitive(a.place(), b.place(), c.place());
    }

    fn not_after(&self, other: &Self) -> (r: bool) {
        proof {
            reveal_with_fuel(rows_le, 6);
            let a = self.place();
            let b = other.place();
            assert(a.drop_first()[0] == a[1] && b.drop_first()[0] == b[1]);
            assert(a.drop_first().drop_first()[0] == a[2] && b.drop_first().drop_first()[0] == b[2]);
            assert(a.drop_first().drop_first().drop_first()[0] == a[3]);
            assert(b.drop_first().drop_first().drop_first()[0] == b[3]);
            text::lemma_lex_total(self.endpoint@, self.endpoint@);
        }
        if !text::str_eq(self.listener.as_str(), other.listener.as_str()) {
            return text::not_after(self.listener.as_str(), other.listener.as_str());
        }
        if !text::str_eq(self.host.as_str(), other.host.as_str()) {
            return text::not_after(self.host.as_str(), other.host.as_str());
        }
        if !text::str_eq(self.backend.as_str(), other.backend.as_str()) {
            return text::not_after(self.backend.as_str(), other.backend.as_str());
        }
        text::not_after(self.endpoint.as_str(), other.endpoint.as_str())
    }
}

/// One endpoint under one binding.
pub open spec fn target_row(b: HealthBinding, e: group::EndpointState) -> HealthCheckTarget {
    HealthCheckTarget {
        listener: b.listener,
        host: b.host,
        path: b.path,
        backend: b.backend,
        endpoint: e.endpoint,
        transport: b.transport,
        load_balancing: b.load_balancing,
        online: e.online,
        since_ms: e.since_ms,
        last_checked_ms: e.last_checked_ms,
    }
}

pub open spec fn endpoint_rows(b: HealthBinding, s: Seq<group::EndpointState>) -> Seq<HealthCheckTarget> {
    s.map_values(|e: group::EndpointState| target_row(b, e))
}

/// The endpoints of every binding whose group is there.
pub open spec fn target_rows(bindings: Seq<HealthBinding>, m: select::Groups) -> Seq<HealthCheckTarget>
    decreases bindings.len(),
{
    if bindings.len() == 0 {
        seq![]
    } else {
        let b = bindings.last();
        let k = Key::id(&b.group);
        target_rows(bindings.drop_last(), m) + if m.dom().contains(k) {
            endpoint_rows(b, m[k].endpoints@)
        } else {
            seq![]
        }
    }
}

/// Every probed endpoint, ordered by listener, host, backend and endpoint.
pub fn health_check_targets(bindings: &Vec<HealthBinding>, groups: &Table<GroupKey, MonitorGroup>) -> (r: Vec<
    HealthCheckTarget,
>)
    requires
        groups.wf(),
    ensures
        r@ == order::sorted(target_rows(bindings@, groups@)),
{
    let mut out: Vec<HealthCheckTarget> = Vec::new();
    let mut i: usize = 0;
    while i < bindings.len()
        invariant
            i <= bindings@.len(),
            groups.wf(),
            out@ == target_rows(bindings@.take(i as int), groups@),
        decreases bindings@.len() - i,
    {
        assert(bindings@.take(i + 1).drop_last() =~= bindings@.take(i as int));
        let b = &bindings[i];
        let ghost done = out@;
        if let Some(g) = groups.get(&b.group) {
            let ghost rows = endpoint_rows(*b, g.endpoints@);
            let mut j: usize = 0;
            assert(out@ =~= done + rows.take(0));
            while j < g.endpoints.len()
                invariant
                    j <= g.endpoints@.len(),
                    rows == endpoint_rows(*b, g.endpoints@),
                    out@ == done + rows.take(j as int),
                decreases g.endpoints@.len() - j,
            {
                let e = &g.endpoints[j];
                out.push(
                    HealthCheckTarget {
                        listener: b.listener.clone(),
                        host: b.host.clone(),
                        path: b.path.clone(),
                        backend: b.backend.clone(),
                        endpoint: e.endpoint.clone(),
                        transport: b.transport.clone(),
                        load_balancing: b.load_balancing.clone(),
                        online: e.online,
                        since_ms: e.since_ms,
                        last_checked_ms: e.last_checked_ms,
                    },
                );
                assert(out@ =~= done + rows.take(j + 1));
                j = j + 1;
            }
            assert(rows.take(j as int) =~= rows);
        } else {
            assert(out@ =~= done + Seq::<HealthCheckTarget>::empty());
        }
        i = i + 1;
    }
    assert(bindings@.take(i as int) =~= bindings@);
    order::sort_vec(out)
}

/// The result of a probe that was started.
#[derive(Debug)]
pub struct ProbeResult {
    pub group: GroupKey,
    pub endpoint: String,
    pub online: bool,
}

/// An endpoint that is to be probed.
#[derive(Debug)]
pub struct ProbeJob {
    pub group: GroupKey,
    pub endpoint: String,
    /// The host that is asked for.
    pub tls_server_name: String,
}

pub open spec fn job_ids(s: Seq<ProbeJob>) -> Seq<((Seq<char>, bool, bool), Seq<char>, Seq<char>)> {
    s.map_values(|j: ProbeJob| (Key::id(&j.group), j.endpoint@, j.tls_server_name@))
}

pub open spec fn endpoint_jobs(k: (Seq<char>, bool, bool), g: MonitorGroup) -> Seq<
    ((Seq<char>, bool, bool), Seq<char>, Seq<char>),
> {
    g.endpoints@.map_values(|e: group::EndpointState| (k, e.endpoint@, g.tls_server_name@))
}

/// One probe for every endpoint of every group.
pub open spec fn jobs_of(s: Seq<(GroupKey, MonitorGroup)>) -> Seq<((Seq<char>, bool, bool), Seq<char>, Seq<char>)>
    decreases s.len(),
{
    if s.len() == 0 {
        seq![]
    } else {
        jobs_of(s.drop_last()) + endpoint_jobs(Key::id(&s.last().0), s.last().1)
    }
}

/// The probes of a round: every endpoint of every group.
pub fn probe_jobs(groups: &Table<GroupKey, MonitorGroup>) -> (r: Vec<ProbeJob>)
    ensures
        job_ids(r@) == jobs_of(groups.entries@),
{
    let mut out: Vec<ProbeJob> = Vec::new();
    let ghost s = groups.entries@;
    let mut i: usize = 0;
    assert(job_ids(out@) =~= seq![]);
    while i < groups.entries.len()
        invariant
            i <= groups.entries@.len(),
            s == groups.entries@,
            job_ids(out@) == jobs_of(s.take(i as int)),
        decreases groups.entries@.len() - i,
    {
        assert(s.take(i + 1).drop_last() =~= s.take(i as int));
        let ghost done = job_ids(out@);
        let ghost rows = endpoint_jobs(Key::id(&s[i as int].0), s[i as int].1);
        let g = &groups.entries[i].1;
        let mut j: usize = 0;
        assert(job_ids(out@) =~= done + rows.take(0));
        while j < g.endpoints.len()
            invariant
                i < groups.entries@.len(),
                s == groups.entries@,
                *g == s[i as int].1,
                j <= g.endpoints@.len(),
                rows == endpoint_jobs(Key::id(&s[i as int].0), s[i as int].1),
                job_ids(out@) == done + rows.take(j as int),
            decreases g.endpoints@.len() - j,
        {
            let ghost o0 = job_ids(out@);
            let job = ProbeJob {
                group: groups.entries[i].0.copy(),
                endpoint: g.endpoints[j].endpoint.clone(),
                tls_server_name: g.tls_server_name.clone(),
            };
            out.push(job);
            assert(job_ids(out@) =~= o0.push(rows[j as int]));
            assert(done + rows.take(j + 1) =~= (done + rows.take(j as int)).push(rows[j as int]));
            j = j + 1;
        }
        assert(rows.take(j as int) =~= rows);
        i = i + 1;
    }
    assert(s.take(i as int) =~= s);
    out
}

/// The groups after a probe's result was recorded.
pub open spec fn recorded(
    m: select::Groups,
    k: (Seq<char>, bool, bool),
    endpoint: Seq<char>,
    online: bool,
    now: u128,
    after: select::Groups,
) -> bool {
    if m.dom().contains(k) {
        match group::first_state_of(m[k].endpoints@, endpoint) {
            None => after == m,
            Some(i) => {
                &&& after == m.insert(k, after[k])
                &&& after[k].endpoints@ == m[k].endpoints@.update(i, group::probed(m[k].endpoints@[i], online, now))
                &&& after[k] == (MonitorGroup { endpoints: after[k].endpoints, ..m[k] })
            },
        }
    } else {
        after == m
    }
}

/// Records a probe's result for an endpoint of a group; a group or an endpoint
/// that is gone changes nothing.
pub fn record_probe(groups: &mut Table<GroupKey, MonitorGroup>, key: &GroupKey, endpoint: &str, online: bool, now: u128)
    requires
        old(groups).wf(),
    ensures
        final(groups).wf(),
        recorded(old(groups)@, Key::id(key), endpoint@, online, now, final(groups)@),
{
    let ghost m0 = groups@;
    if let Some(g) = groups.remove(key) {
        let mut g = g;
        let _ = g.set_endpoint_state(endpoint, online, now);
        groups.insert(key.copy(), g);
        proof {
            let k = Key::id(key);
            assert(m0.remove(k).insert(k, g) =~= m0.insert(k, g));
            if group::first_state_of(m0[k].endpoints@, endpoint@) is None {
                assert(m0.insert(k, g) =~= m0);
            }
        }
    }
}

/// Whether a probe was answered.
pub open spec fn answered(results: Seq<ProbeResult>, k: (Seq<char>, bool, bool), endpoint: Seq<char>) -> bool {
    exists|i: int|
        0 <= i < results.len() && Key::id(&(#[trigger] results[i]).group) == k && results[i].endpoint@ == endpoint
}

fn is_answered(results: &Vec<ProbeResult>, job: &ProbeJob) -> (r: bool)
    ensures
        r == answered(results@, Key::id(&job.group), job.endpoint@),
{
    let mut i: usize = 0;
    while i < results.len()
        invariant
            i <= results@.len(),
            forall|k: int|
                0 <= k < i ==> !(Key::id(&(#[trigger] results@[k]).group) == Key::id(&job.group) && results@[k].endpoint@
                    == job.endpoint@),
        decreases results@.len() - i,
    {
        if results[i].group.same_key(&job.group) && text::str_eq(results[i].endpoint.as_str(), job.endpoint.as_str()) {
            return true;
        }
        i = i + 1;
    }
    false
}

/// The jobs that no result answers, in order.
pub open spec fn unanswered(jobs: Seq<ProbeJob>, results: Seq<ProbeResult>) -> Seq<ProbeJob>
    decreases jobs.len(),
{
    if jobs.len() == 0 {
        seq![]
    } else if answered(results, Key::id(&jobs.last().group), jobs.last().endpoint@) {
        unanswered(jobs.drop_last(), results)
    } else {
        unanswered(jobs.drop_last(), results).push(jobs.last())
    }
}

/// What a round records: the results as they came in, then every unanswered
/// probe as down.
pub open spec fn verdicts(jobs: Seq<ProbeJob>, results: Seq<ProbeResult>) -> Seq<
    ((Seq<char>, bool, bool), Seq<char>, bool),
> {
    results.map_values(|r: ProbeResult| (Key::id(&r.group), r.endpoint@, r.online)) + unanswered(
        jobs,
        results,
    ).map_values(|j: ProbeJob| (Key::id(&j.group), j.endpoint@, false))
}

/// Whether `after` is reached from `m` by recording the verdicts one by one.
pub open spec fn all_recorded(
    m: select::Groups,
    v: Seq<((Seq<char>, bool, bool), Seq<char>, bool)>,
    now: u128,
    after: select::Groups,
) -> bool
    decreases v.len(),
{
    if v.len() == 0 {
        after == m
    } else {
        exists|mid: select::Groups|
            all_recorded(m, v.drop_last(), now, mid) && #[trigger] recorded(
                mid,
                v.last().0,
                v.last().1,
                v.last().2,
                now,
                after,
            )
    }
}

proof fn lemma_recorded_next(
    m: select::Groups,
    v: Seq<((Seq<char>, bool, bool), Seq<char>, bool)>,
    now: u128,
    mid: select::Groups,
    after: select::Groups,
)
    requires
        v.len() > 0,
        all_recorded(m, v.drop_last(), now, mid),
        recorded(mid, v.last().0, v.last().1, v.last().2, now, after),
    ensures
        all_recorded(m, v, now, after),
{
}

/// Ends a round of probes: the results are recorded as they came in, and an
/// endpoint that did not answer in time is down.
pub fn check_jobs(
    groups: &mut Table<GroupKey, MonitorGroup>,
    jobs: &Vec<ProbeJob>,
    results: &Vec<ProbeResult>,
    now: u128,
)
    requires
        old(groups).wf(),
    ensures
        final(groups).wf(),
        all_recorded(old(groups)@, verdicts(jobs@, results@), now, final(groups)@),
{
    let ghost m0 = groups@;
    let ghost fr = |r: ProbeResult| (Key::id(&r.group), r.endpoint@, r.online);
    let ghost fj = |j: ProbeJob| (Key::id(&j.group), j.endpoint@, false);
    let ghost first = results@.map_values(fr);
    let mut i: usize = 0;
    assert(all_recorded(m0, first.take(0), now, groups@));
    while i < results.len()
        invariant
            i <= results@.len(),
            groups.wf(),
            fr == (|r: ProbeResult| (Key::id(&r.group), r.endpoint@, r.online)),
            first == results@.map_values(fr),
            all_recorded(m0, first.take(i as int), now, groups@),
        decreases results@.len() - i,
    {
        let ghost mid = groups@;
        record_probe(groups, &results[i].group, results[i].endpoint.as_str(), results[i].online, now);
        proof {
            let v = first.take(i + 1);
            assert(v.drop_last() =~= first.take(i as int));
            assert(v.last() == fr(results@[i as int]));
            assert(all_recorded(m0, v.drop_last(), now, mid));
            lemma_recorded_next(m0, v, now, mid, groups@);
        }
        i = i + 1;
    }
    assert(first.take(i as int) =~= first);
    let mut j: usize = 0;
    assert(first + unanswered(jobs@.take(0), results@).map_values(fj) =~= first);
    while j < jobs.len()
        invariant
            j <= jobs@.len(),
            groups.wf(),
            fj == (|j: ProbeJob| (Key::id(&j.group), j.endpoint@, false)),
            all_recorded(m0, first + unanswered(jobs@.take(j as int), results@).map_values(fj), now, groups@),
        decreases jobs@.len() - j,
    {
        assert(jobs@.take(j + 1).drop_last() =~= jobs@.take(j as int));
        if !is_answered(results, &jobs[j]) {
            let ghost mid = groups@;
            record_probe(groups, &jobs[j].group, jobs[j].endpoint.as_str(), false, now);
            proof {
                let u = unanswered(jobs@.take(j as int), results@);
                let v = first + u.push(jobs@[j as int]).map_values(fj);
                assert(v.drop_last() =~= first + u.map_values(fj));
                assert(v.last() == fj(jobs@[j as int]));
                assert(all_recorded(m0, v.drop_last(), now, mid));
                lemma_recorded_next(m0, v, now, mid, groups@);
            }
        }
        j = j + 1;
    }
    assert(jobs@.take(j as int) =~= jobs@);
}

/// An endpoint whose probe was not answered in time is recorded as down,
/// whatever it was before.
pub proof fn an_unanswered_probe_means_down(
    m: select::Groups,
    k: (Seq<char>, bool, bool),
    endpoint: Seq<char>,
    now: u128,
    after: select::Groups,
)
    requires
        m.dom().contains(k),
        group::first_state_of(m[k].endpoints@, endpoint) is Some,
        recorded(m, k, endpoint, false, now, after),
    ensures
        ({
            let i = group::first_state_of(m[k].endpoints@, endpoint)->0;
            &&& 0 <= i < m[k].endpoints@.len()
            &&& after[k].endpoints@[i].online == Some(false)
            &&& after[k].endpoints@[i].last_checked_ms == now
        }),
{
    group::lemma_first_state_of(m[k].endpoints@, endpoint);
}

/// The request that an HTTP probe sends.
pub open spec fn probe_text(host: Seq<char>) -> Seq<char> {
    "GET / HTTP/1.1\r\nHost: "@ + host + "\r\nConnection: close\r\n\r\n"@
}

pub fn probe_request(host: &str) -> (r: String)
    ensures
        r@ == probe_text(host@),
{
    let mut s = text::owned("GET / HTTP/1.1\r\nHost: ");
    s.push_str(host);
    s.push_str("\r\nConnection: close\r\n\r\n");
    s
}

/// Whether the start of a response shows a backend that serves requests: its
/// second word is a status from 100 up to 499. Authentication and
/// authorization failures still prove that the backend is reachable.
pub open spec fn healthy(response: Seq<u8>) -> bool {
    let w = text::words(text::ascii_marked(response));
    w.len() >= 2 && match text::unsigned(w[1], u16::MAX as nat) {
        Some(status) => 100 <= status < 500,
        None => false,
    }
}

pub fn probe_answer_is_healthy(response: &[u8]) -> (r: bool)
    ensures
        r == healthy(response@),
{
    let s = text::ascii_text(response);
    let w = text::split_words(s.as_slice());
    if w.len() < 2 {
        return false;
    }
    match text::parse_u16(w[1].as_slice()) {
        Some(status) => 100 <= status && status < 500,
        None => false,
    }
}

/// A backend is up if it answers with any status from 100 to 499, so that one
/// that asks for credentials or knows no such page counts as up, and one that
/// reports a fault of its own does not.
pub proof fn any_answer_but_a_server_fault_is_healthy(
    response: Seq<u8>,
    version: Seq<char>,
    status: u16,
    rest: Seq<char>,
)
    requires
        text::ascii_marked(response) == version.push(' ') + (text::decimal(status as nat).push(' ') + rest),
        version.len() > 0,
        forall|i: int| 0 <= i < version.len() ==> !text::is_blank(#[trigger] version[i]),
    ensures
        healthy(response) <==> 100 <= status <= 499,
{
    let d = text::decimal(status as nat);
    text::decimal_notation_reads_back(status as nat, u16::MAX as nat);
    assert forall|i: int| 0 <= i < d.len() implies !text::is_blank(#[trigger] d[i]) by {
        assert(text::is_digit(d[i]));
    }
    text::a_run_of_characters_is_one_word(version);
    text::a_run_of_characters_is_one_word(d);
    text::blanks_part_words(d, ' ', rest);
    text::blanks_part_words(version, ' ', d.push(' ') + rest);
    let w = text::words(text::ascii_marked(response));
    assert(w[1] == d);
}

/// Silence is no health.
pub proof fn no_answer_is_not_healthy()
    ensures
        !healthy(Seq::<u8>::empty()),
{
    assert(text::ascii_marked(Seq::<u8>::empty()) =~= Seq::<char>::empty());
}

/// Every endpoint of every group is probed, under its group's server name.
pub proof fn every_endpoint_is_probed(s: Seq<(GroupKey, MonitorGroup)>, i: int, e: int)
    requires
        0 <= i < s.len(),
        0 <= e < s[i].1.endpoints@.len(),
    ensures
        jobs_of(s).contains((Key::id(&s[i].0), s[i].1.endpoints@[e].endpoint@, s[i].1.tls_server_name@)),
    decreases s.len(),
{
    let t = s.drop_last();
    let own = endpoint_jobs(Key::id(&s.last().0), s.last().1);
    let job = (Key::id(&s[i].0), s[i].1.endpoints@[e].endpoint@, s[i].1.tls_server_name@);
    if i < t.len() {
        assert(t[i] == s[i]);
        every_endpoint_is_probed(t, i, e);
        let k = choose|k: int| 0 <= k < jobs_of(t).len() && jobs_of(t)[k] == job;
        assert(jobs_of(s)[k] == job);
    } else {
        assert(own[e] == job);
        assert(jobs_of(s)[jobs_of(t).len() + e] == job);
    }
}

/// A round records every result that came in, and as down exactly the probes
/// that none came in for.
pub proof fn a_round_records_every_probe(jobs: Seq<ProbeJob>, results: Seq<ProbeResult>, i: int)
    ensures
        0 <= i < results.len() ==> verdicts(jobs, results).contains(
            (Key::id(&results[i].group), results[i].endpoint@, results[i].online),
        ),
        0 <= i < jobs.len() && (forall|k: int|
            0 <= k < results.len() ==> Key::id(&(#[trigger] results[k]).group) != Key::id(&jobs[i].group)
                || results[k].endpoint@ != jobs[i].endpoint@) ==> verdicts(jobs, results).contains(
            (Key::id(&jobs[i].group), jobs[i].endpoint@, false),
        ),
        0 <= i < verdicts(jobs, results).len() && verdicts(jobs, results)[i].2 ==> exists|k: int|
            0 <= k < results.len() && (#[trigger] results[k]).online && Key::id(&results[k].group) == verdicts(
                jobs,
                results,
            )[i].0 && results[k].endpoint@ == verdicts(jobs, results)[i].1,
{
    let v = verdicts(jobs, results);
    let first = results.map_values(|r: ProbeResult| (Key::id(&r.group), r.endpoint@, r.online));
    let u = unanswered(jobs, results);
    let second = u.map_values(|j: ProbeJob| (Key::id(&j.group), j.endpoint@, false));
    if 0 <= i < results.len() {
        assert(v[i] == (Key::id(&results[i].group), results[i].endpoint@, results[i].online));
    }
    if 0 <= i < jobs.len() && !answered(results, Key::id(&jobs[i].group), jobs[i].endpoint@) {
        lemma_unanswered(jobs, results, i);
        let k = choose|k: int| 0 <= k < u.len() && u[k] == jobs[i];
        assert(second[k] == (Key::id(&jobs[i].group), jobs[i].endpoint@, false));
        assert(v[first.len() + k] == second[k]);
    }
    if 0 <= i < v.len() && v[i].2 {
        assert(i < first.len()) by {
            if i >= first.len() {
                assert(v[i] == second[i - first.len()]);
            }
        }
        assert(v[i] == first[i]);
        assert(results[i].online);
    }
}

proof fn lemma_unanswered(jobs: Seq<ProbeJob>, results: Seq<ProbeResult>, i: int)
    requires
        0 <= i < jobs.len(),
        !answered(results, Key::id(&jobs[i].group), jobs[i].endpoint@),
    ensures
        unanswered(jobs, results).contains(jobs[i]),
    decreases jobs.len(),
{
    let t = jobs.drop_last();
    let u = unanswered(jobs, results);
    if i < t.len() {
        assert(t[i] == jobs[i]);
        lemma_unanswered(t, results, i);
        let k = choose|k: int| 0 <= k < unanswered(t, results).len() && unanswered(t, results)[k] == jobs[i];
        assert(u[k] == jobs[i]);
    } else {
        assert(u[u.len() - 1] == jobs[i]);
    }
}

/// Recording a probe sets the state of its endpoint to what was found, up or
/// down, and leaves every other endpoint and group alone.
pub proof fn a_recorded_probe_is_what_was_found(
    m: select::Groups,
    k: (Seq<char>, bool, bool),
    endpoint: Seq<char>,
    online: bool,
    now: u128,
    after: select::Groups,
    other: (Seq<char>, bool, bool),
    e: int,
)
    requires
        recorded(m, k, endpoint, online, now, after),
    ensures
        after.dom() == m.dom(),
        other != k && m.dom().contains(other) ==> after[other] == m[other],
        m.dom().contains(k) ==> after[k].endpoints@.len() == m[k].endpoints@.len() && after[k].owner == m[k].owner,
        m.dom().contains(k) && 0 <= e < m[k].endpoints@.len() && m[k].endpoints@[e].endpoint@ != endpoint
            ==> after[k].endpoints@[e] == m[k].endpoints@[e],
        m.dom().contains(k) && 0 <= e < m[k].endpoints@.len() && m[k].endpoints@[e].endpoint@ == endpoint
            ==> exists|x: int|
            0 <= x < m[k].endpoints@.len() && (#[trigger] after[k].endpoints@[x]).endpoint@ == endpoint
                && after[k].endpoints@[x].online == Some(online),
{
    if m.dom().contains(k) {
        let s = m[k].endpoints@;
        group::lemma_first_state_of(s, endpoint);
        lemma_first_state_exists(s, endpoint, e);
        match group::first_state_of(s, endpoint) {
            Some(i) => {
                assert(after.dom() =~= m.dom());
                assert(after[k].endpoints@[i] == group::probed(s[i], online, now));
                assert(after[k].endpoints@[i].endpoint@ == endpoint);
            },
            None => {},
        }
    }
}

proof fn lemma_first_state_exists(s: Seq<group::EndpointState>, endpoint: Seq<char>, e: int)
    ensures
        0 <= e < s.len() && s[e].endpoint@ == endpoint ==> group::first_state_of(s, endpoint) is Some,
    decreases s.len(),
{
    if s.len() > 0 {
        let t = s.drop_last();
        lemma_first_state_exists(t, endpoint, e);
        if 0 <= e < t.len() {
            assert(t[e] == s[e]);
        }
    }
}

/// The overrides decide where a target really is; without one it is where it
/// says.
pub proof fn an_override_decides_where_a_target_is(tables: Tables, host: Seq<char>, port: u16, to: Seq<char>, to_port: u16)
    requires
        to.len() > 0,
        forall|i: int| 0 <= i < to.len() ==> !text::is_ws(#[trigger] to[i]) && to[i] != '=',
    ensures
        resolver::override_for(tables, text::lowercased(host), port) == Some(hostutil::shown(to, to_port))
            ==> effective(tables, host, port) == (to, to_port),
        resolver::override_for(tables, text::lowercased(to), port) is None ==> effective(tables, to, port) == (to, port),
{
    hostutil::a_written_target_reads_back(to, to_port);
    hostutil::a_written_target_reads_back(to, port);
}

/// Every backend of a reverse-proxy route is bound, with the transport and the
/// server name that it says, or else its own host's.
pub proof fn every_backend_is_bound(
    tables: Tables,
    listener: Seq<char>,
    host: Seq<char>,
    path: Seq<char>,
    action: HttpRouteAction,
    i: int,
) -> (k: int)
    requires
        0 <= i < action.backends@.len(),
    ensures
        ({
            let all = action_bindings(tables, listener, host, path, action);
            let b = action.backends@[i];
            &&& 0 <= k < all.len()
            &&& all[k].listener == listener
            &&& all[k].host == host
            &&& all[k].path == path
            &&& all[k].backend == b.address@
            &&& all[k].group.1 == (b.transport == UpstreamTransport::Tls)
            &&& all[k].group.2
            &&& b.tls_server_name matches Some(name) ==> all[k].tls_server_name == name@
            &&& b.tls_server_name is None ==> all[k].tls_server_name == all[k].requested.0
        }),
{
    let own = own_bindings(tables, listener, host, path, action);
    assert(own[i] == bound(tables, listener, host, path, action, action.backends@[i]));
    assert(action_bindings(tables, listener, host, path, action)[i] == own[i]);
    i
}

/// A listener that is disabled binds nothing, and every other one all of its
/// backends.
pub proof fn enabled_listeners_are_bound(
    tables: Tables,
    listeners: Seq<(String, AdditionalListenerConfig)>,
    disabled: Seq<Seq<char>>,
    i: int,
    k: int,
)
    requires
        0 <= i < listeners.len(),
        !disabled.contains(listeners[i].0@),
        0 <= k < listener_bindings(tables, listeners[i].0@, listeners[i].1).len(),
    ensures
        enabled_bindings(tables, listeners, disabled).contains(
            listener_bindings(tables, listeners[i].0@, listeners[i].1)[k],
        ),
    decreases listeners.len(),
{
    let t = listeners.drop_last();
    let own = listener_bindings(tables, listeners[i].0@, listeners[i].1);
    let done = enabled_bindings(tables, t, disabled);
    let all = enabled_bindings(tables, listeners, disabled);
    if i < t.len() {
        assert(t[i] == listeners[i]);
        enabled_listeners_are_bound(tables, t, disabled, i, k);
        let j = choose|j: int| 0 <= j < done.len() && done[j] == own[k];
        assert(all[j] == own[k]);
    } else {
        assert(all[done.len() + k] == own[k]);
    }
}

/// Every endpoint of a bound group is shown, under every binding of it, with the
/// state that it is in.
pub proof fn every_bound_endpoint_is_shown(bindings: Seq<HealthBinding>, m: select::Groups, i: int, j: int)
    requires
        0 <= i < bindings.len(),
        m.dom().contains(Key::id(&bindings[i].group)),
        0 <= j < m[Key::id(&bindings[i].group)].endpoints@.len(),
    ensures
        ({
            let e = m[Key::id(&bindings[i].group)].endpoints@[j];
            exists|k: int|
                0 <= k < target_rows(bindings, m).len() && {
                    let r = #[trigger] target_rows(bindings, m)[k];
                    &&& r.listener == bindings[i].listener
                    &&& r.backend == bindings[i].backend
                    &&& r.endpoint == e.endpoint
                    &&& r.online == e.online
                    &&& r.since_ms == e.since_ms
                    &&& r.last_checked_ms == e.last_checked_ms
                }
        }),
    decreases bindings.len(),
{
    let t = bindings.drop_last();
    let all = target_rows(bindings, m);
    let before = target_rows(t, m);
    let e = m[Key::id(&bindings[i].group)].endpoints@[j];
    if i < t.len() {
        assert(t[i] == bindings[i]);
        every_bound_endpoint_is_shown(t, m, i, j);
        let k = choose|k: int|
            0 <= k < before.len() && {
                let r = #[trigger] before[k];
                &&& r.listener == bindings[i].listener
                &&& r.backend == bindings[i].backend
                &&& r.endpoint == e.endpoint
                &&& r.online == e.online
                &&& r.since_ms == e.since_ms
                &&& r.last_checked_ms == e.last_checked_ms
            };
        assert(all[k] == before[k]);
    } else {
        assert(all[before.len() + j] == target_row(bindings[i], e));
    }
}

/// A probe stays to be done exactly as long as no result answers it.
pub proof fn a_probe_without_an_answer_stays(jobs: Seq<ProbeJob>, results: Seq<ProbeResult>, i: int)
    ensures
        0 <= i < jobs.len() && !answered(results, Key::id(&jobs[i].group), jobs[i].endpoint@) ==> unanswered(
            jobs,
            results,
        ).contains(jobs[i]),
        0 <= i < unanswered(jobs, results).len() ==> jobs.contains(unanswered(jobs, results)[i]) && !answered(
            results,
            Key::id(&unanswered(jobs, results)[i].group),
            unanswered(jobs, results)[i].endpoint@,
        ),
    decreases jobs.len(),
{
    if jobs.len() > 0 {
        let t = jobs.drop_last();
        let a = unanswered(t, results);
        let b = unanswered(jobs, results);
        a_probe_without_an_answer_stays(t, results, i);
        if 0 <= i < t.len() && !answered(results, Key::id(&jobs[i].group), jobs[i].endpoint@) {
            assert(t[i] == jobs[i]);
            let k = choose|k: int| 0 <= k < a.len() && a[k] == jobs[i];
            assert(b[k] == jobs[i]);
        }
        if i == t.len() && !answered(results, Key::id(&jobs[i].group), jobs[i].endpoint@) {
            assert(b[b.len() - 1] == jobs[i]);
        }
        if 0 <= i < b.len() {
            if i < a.len() {
                let k = choose|k: int| 0 <= k < t.len() && t[k] == a[i];
                assert(jobs[k] == b[i]);
            } else {
                assert(jobs[jobs.len() - 1] == b[i]);
            }
        }
    }
}

/// The backends of a host's route are bound under the root path.
pub proof fn a_hosts_backends_are_bound_under_the_root(
    tables: Tables,
    listener: Seq<char>,
    route: HttpHostRoute,
    tls: TlsHostRoute,
    action: HttpRouteAction,
    i: int,
)
    requires
        tls.action == (TlsRouteAction::ReverseProxy { action }),
    ensures
        0 <= i < route.action.backends@.len() ==> http_bindings(tables, listener, seq![route]).len() > i
            && http_bindings(tables, listener, seq![route])[i].path == seq!['/'] && http_bindings(
            tables,
            listener,
            seq![route],
        )[i].backend == route.action.backends@[i].address@,
        0 <= i < action.backends@.len() ==> tls_bindings(tables, listener, seq![tls]).len() > i && tls_bindings(
            tables,
            listener,
            seq![tls],
        )[i].path == seq!['/'] && tls_bindings(tables, listener, seq![tls])[i].backend
            == action.backends@[i].address@,
{
    reveal_strlit("/");
    assert("/"@ =~= seq!['/']);
    let r = seq![route];
    let t = seq![tls];
    assert(r.drop_last() =~= seq![]);
    assert(t.drop_last() =~= seq![]);
    assert(r.last() == route && t.last() == tls);
    assert(http_bindings(tables, listener, r.drop_last()) =~= seq![]);
    assert(tls_bindings(tables, listener, t.drop_last()) =~= seq![]);
    let a = action_bindings(tables, listener, label_of(route.matcher), "/"@, route.action);
    let b = action_bindings(tables, listener, label_of(tls.matcher), "/"@, action);
    assert(http_bindings(tables, listener, r) =~= a);
    assert(tls_bindings(tables, listener, t) =~= b);
    if 0 <= i < route.action.backends@.len() {
        assert(a[i] == own_bindings(tables, listener, label_of(route.matcher), "/"@, route.action)[i]);
    }
    if 0 <= i < action.backends@.len() {
        assert(b[i] == own_bindings(tables, listener, label_of(tls.matcher), "/"@, action)[i]);
    }
}

} // verus!
