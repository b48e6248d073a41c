//! Host overrides read from a JSON object of strings.
use vstd::prelude::*;
use vstd::slice::slice_subrange;
use crate::json;
use crate::table::{Key, Table};
use crate::text;

verus! {

/// Represents a HostName and Port pair. The hostname is required where port is optional
#[derive(Debug, Clone, Eq, PartialEq, Hash)]
pub struct HostAndPort {
    /// Host name
    pub host: String,
    /// Port number
    pub port: Option<i32>,
}

impl Key for HostAndPort {
    type Id = (Seq<char>, Option<i32>);

    open spec fn id(&self) -> (Seq<char>, Option<i32>) {
        (self.host@, self.port)
    }

    fn same_key(&self, other: &Self) -> (r: bool) {
        let ports = match (self.port, other.port) {
            (Some(a), Some(b)) => a == b,
            (None, None) => true,
            _ => false,
        };
        ports && text::str_eq(self.host.as_str(), other.host.as_str())
    }
}

/// Why an override is refused.
#[derive(Debug, Clone, Copy, PartialEq, Eq, Structural)]
pub enum ResolveError {
    /// What follows the first colon is no number.
    InvalidPort,
    /// The text is no JSON.
    NotJson,
    /// The JSON value is no object.
    NotAnObject,
    /// A member of the object is no string.
    NotAString,
}

/// Host and port of `host:port`, or of `host` alone.
pub open spec fn single(s: Seq<char>) -> Result<(Seq<char>, Option<i32>), ResolveError> {
    if !s.contains(':') {
        Ok((s, None))
    } else {
        match text::signed(text::after(s, ':'), i32::MIN as int, i32::MAX as int) {
            Some(p) => Ok((text::before(s, ':'), Some(p as i32))),
            None => Err(ResolveError::InvalidPort),
        }
    }
}

/// The pairs of a row of texts, blank ones skipped; the first error counts.
pub open spec fn singles(parts: Seq<Seq<char>>) -> Result<Seq<(Seq<char>, Option<i32>)>, ResolveError>
    decreases parts.len(),
{
    if parts.len() == 0 {
        Ok(seq![])
    } else {
        match singles(parts.drop_last()) {
            Err(e) => Err(e),
            Ok(done) => {
                let t = text::trimmed(parts.last());
                if t.len() == 0 {
                    Ok(done)
                } else {
                    match single(t) {
                        Ok(p) => Ok(done.push(p)),
                        Err(e) => Err(e),
                    }
                }
            },
        }
    }
}

pub open spec fn ids(v: Seq<HostAndPort>) -> Seq<(Seq<char>, Option<i32>)> {
    v.map_values(|h: HostAndPort| (h.host@, h.port))
}

/// An error in a prefix is the error of the whole row.
proof fn lemma_singles_error(parts: Seq<Seq<char>>, n: int)
    requires
        0 <= n <= parts.len(),
        singles(parts.take(n)) is Err,
    ensures
        singles(parts) == singles(parts.take(n)),
    decreases parts.len() - n,
{
    if n == parts.len() {
        assert(parts.take(n) =~= parts);
    } else {
        assert(parts.take(n + 1).drop_last() =~= parts.take(n));
        lemma_singles_error(parts, n + 1);
    }
}

impl HostAndPort {
    /// Parse www.google.com:443, or www.google.com to HostAndPort. The former one has Port -> Some(443) while later has Port -> None
    pub fn parse_single(input: &str) -> (r: Result<HostAndPort, ResolveError>)
        ensures
            match single(input@) {
                Ok(p) => r is Ok && (r->Ok_0.host@, r->Ok_0.port) == p,
                Err(e) => r is Err && r->Err_0 == e,
            },
    {
        let s = text::chars_of(input);
        let k = text::find(s.as_slice(), ':');
        if k == s.len() {
            return Ok(HostAndPort { host: text::owned(input), port: None });
        }
        let first = slice_subrange(s.as_slice(), 0, k);
        let second = slice_subrange(s.as_slice(), k + 1, s.len());
        assert(first@ =~= text::before(input@, ':'));
        assert(second@ =~= text::after(input@, ':'));
        match text::parse_i32(second) {
            Some(port) => Ok(HostAndPort { host: text::string_of(first), port: Some(port) }),
            None => Err(ResolveError::InvalidPort),
        }
    }

    /// Parse multiple HostAndPort separated by ;. e.g. www.google.com:443;www.baidu.com;www.yahoo.com.sg:443. If any parse failed, the whole parse is abandoned.
    pub fn parse_as_vec(input: &str) -> (r: Result<Vec<HostAndPort>, ResolveError>)
        ensures
            match singles(text::pieces(input@, ';')) {
                Ok(v) => r is Ok && ids(r->Ok_0@) == v,
                Err(e) => r is Err && r->Err_0 == e,
            },
    {
        let s = text::chars_of(input);
        let parts = text::split(s.as_slice(), ';');
        let ghost all = text::pieces(input@, ';');
        let mut out: Vec<HostAndPort> = Vec::new();
        let mut i: usize = 0;
        assert(ids(out@) =~= seq![]);
        while i < parts.len()
            invariant
                i <= parts@.len(),
                all == text::pieces(input@, ';'),
                parts@.len() == all.len(),
                forall|k: int| 0 <= k < parts@.len() ==> (#[trigger] parts@[k])@ == all[k],
                singles(all.take(i as int)) == Ok::<Seq<(Seq<char>, Option<i32>)>, ResolveError>(ids(out@)),
            decreases parts@.len() - i,
        {
            assert(all.take(i + 1).drop_last() =~= all.take(i as int));
            let t = text::trim(parts[i]);
            if t.len() > 0 {
                match HostAndPort::parse_single(text::string_of(t).as_str()) {
                    Ok(p) => {
                        let ghost o0 = ids(out@);
                        out.push(p);
                        assert(ids(out@) =~= o0.push((p.host@, p.port)));
                    },
                    Err(e) => {
                        proof {
                            assert(singles(all.take(i + 1)) is Err);
                            lemma_singles_error(all, i + 1);
                        }
                        return Err(e);
                    },
                }
            }
            i = i + 1;
        }
        assert(all.take(i as int) =~= all);
        Ok(out)
    }
}

/// Represents a resolve config. It internally stores Keys as HostAndPort and values as HostAndPort as well.
pub struct ResolveConfig {
    pub rules: Table<HostAndPort, HostAndPort>,
}

impl Default for ResolveConfig {
    fn default() -> (r: ResolveConfig)
        ensures
            r.rules.wf(),
            r.rules@ == Map::<(Seq<char>, Option<i32>), HostAndPort>::empty(),
    {
        ResolveConfig { rules: Table::new() }
    }
}

/// What the rules make of a host and a port: without rules nothing changes;
/// otherwise the rule for host and port counts before the rule for the host,
/// and a target without a port keeps the port.
pub open spec fn resolved(
    rules: Map<(Seq<char>, Option<i32>), HostAndPort>,
    host: Seq<char>,
    port: i32,
) -> Option<(Seq<char>, i32)> {
    if rules.dom().len() == 0 {
        Some((host, port))
    } else if rules.dom().contains((host, Some(port))) {
        Some(target(rules[(host, Some(port))], port))
    } else if rules.dom().contains((host, None)) {
        Some(target(rules[(host, None)], port))
    } else {
        None
    }
}

pub open spec fn target(to: HostAndPort, port: i32) -> (Seq<char>, i32) {
    (to.host@, match to.port {
        Some(p) => p,
        None => port,
    })
}

/// The rules that the members of a JSON object state, the later ones in place
/// of the earlier ones.
pub open spec fn rules_of(members: Seq<(Seq<char>, json::Document)>) -> Result<
    Map<(Seq<char>, Option<i32>), (Seq<char>, Option<i32>)>,
    ResolveError,
>
    decreases members.len(),
{
    if members.len() == 0 {
        Ok(Map::empty())
    } else {
        match rules_of(members.drop_last()) {
            Err(e) => Err(e),
            Ok(done) => match members.last().1 {
                json::Document::Text(v) => match singles(text::pieces(members.last().0, ';')) {
                    Err(e) => Err(e),
                    Ok(keys) => match single(v) {
                        Err(e) => Err(e),
                        Ok(to) => Ok(bound(done, keys, to)),
                    },
                },
                _ => Err(ResolveError::NotAString),
            },
        }
    }
}

/// `m` with every key bound to one value.
pub open spec fn bound(
    m: Map<(Seq<char>, Option<i32>), (Seq<char>, Option<i32>)>,
    keys: Seq<(Seq<char>, Option<i32>)>,
    to: (Seq<char>, Option<i32>),
) -> Map<(Seq<char>, Option<i32>), (Seq<char>, Option<i32>)>
    decreases keys.len(),
{
    if keys.len() == 0 {
        m
    } else {
        bound(m, keys.drop_last(), to).insert(keys.last(), to)
    }
}

/// The targets of a rule map as host and port.
pub open spec fn shown(m: Map<(Seq<char>, Option<i32>), HostAndPort>) -> Map<
    (Seq<char>, Option<i32>),
    (Seq<char>, Option<i32>),
> {
    m.map_values(|h: HostAndPort| (h.host@, h.port))
}

proof fn lemma_rules_error(members: Seq<(Seq<char>, json::Document)>, n: int)
    requires
        0 <= n <= members.len(),
        rules_of(members.take(n)) is Err,
    ensures
        rules_of(members) == rules_of(members.take(n)),
    decreases members.len() - n,
{
    if n == members.len() {
        assert(members.take(n) =~= members);
    } else {
        assert(members.take(n + 1).drop_last() =~= members.take(n));
        lemma_rules_error(members, n + 1);
    }
}

/// Whether `r` is what a JSON document configures.
pub open spec fn configured(r: Result<ResolveConfig, ResolveError>, document: json::Document) -> bool {
    match document {
        json::Document::Object(members) => match rules_of(members) {
            Ok(m) => r is Ok && r->Ok_0.rules.wf() && shown(r->Ok_0.rules@) == m,
            Err(e) => r is Err && r->Err_0 == e,
        },
        _ => r is Err && r->Err_0 == ResolveError::NotAnObject,
    }
}

impl ResolveConfig {
    /// Resolve a lookup host and port to a target HostAndPort.
    /// If there is entry with given host and port, then exact lookup is returned.
    /// If there is entry with given host, then the lookup without port is returned.
    ///
    /// If looked up result has no port,the input port is used as default.
    pub fn resolve(&self, host: &str, port: i32) -> (r: Option<(String, i32)>)
        requires
            self.rules.wf(),
        ensures
            match resolved(self.rules@, host@, port) {
                Some((h, p)) => r is Some && (r->0).0@ == h && (r->0).1 == p,
                None => r is None,
            },
    {
        if self.rules.len() == 0 {
            return Some((text::owned(host), port));
        }
        let exact = HostAndPort { host: text::owned(host), port: Some(port) };
        let any = HostAndPort { host: text::owned(host), port: None };
        let found = match self.rules.get(&exact) {
            Some(to) => Some(to),
            None => self.rules.get(&any),
        };
        match found {
            Some(to) => Some(
                (
                    to.host.clone(),
                    match to.port {
                        Some(p) => p,
                        None => port,
                    },
                ),
            ),
            None => None,
        }
    }

    /// Builds the rules of a JSON value, which must be a String -> String
    /// object. If key or value is not string, the parse fails.
    pub fn from_json(raw: &json::Json) -> (r: Result<ResolveConfig, ResolveError>)
        ensures
            configured(r, raw@),
    {
        let members = match raw {
            json::Json::Object(members) => members,
            _ => return Err(ResolveError::NotAnObject),
        };
        let ghost all = json::members_of(members@);
        proof {
            json::an_object_shows_its_members(*members);
        }
        let mut rules: Table<HostAndPort, HostAndPort> = Table::new();
        let mut i: usize = 0;
        assert(shown(rules@) =~= Map::empty());
        while i < members.len()
            invariant
                i <= members@.len(),
                all == json::members_of(members@),
                raw@ == json::Document::Object(all),
                rules.wf(),
                rules_of(all.take(i as int)) == Ok::<
                    Map<(Seq<char>, Option<i32>), (Seq<char>, Option<i32>)>,
                    ResolveError,
                >(shown(rules@)),
            decreases members@.len() - i,
        {
            assert(all.take(i + 1).drop_last() =~= all.take(i as int));
            assert(all[i as int] == (members@[i as int].0@, members@[i as int].1@));
            proof {
                if rules_of(all.take(i + 1)) is Err {
                    lemma_rules_error(all, i + 1);
                }
            }
            let value = match &members[i].1 {
                json::Json::Text(v) => v,
                _ => return Err(ResolveError::NotAString),
            };
            let keys = match HostAndPort::parse_as_vec(members[i].0.as_str()) {
                Ok(keys) => keys,
                Err(e) => return Err(e),
            };
            let to = match HostAndPort::parse_single(value.as_str()) {
                Ok(to) => to,
                Err(e) => return Err(e),
            };
            let ghost m0 = shown(rules@);
            let ghost keyids = ids(keys@);
            let mut k: usize = 0;
            while k < keys.len()
                invariant
                    k <= keys@.len(),
                    keyids == ids(keys@),
                    rules.wf(),
                    shown(rules@) == bound(m0, keyids.take(k as int), (to.host@, to.port)),
                decreases keys@.len() - k,
            {
                assert(keyids.take(k + 1).drop_last() =~= keyids.take(k as int));
                let ghost r0 = rules@;
                let key = HostAndPort { host: keys[k].host.clone(), port: keys[k].port };
                let copy = HostAndPort { host: to.host.clone(), port: to.port };
                rules.insert(key, copy);
                assert(shown(rules@) =~= shown(r0).insert(keyids[k as int], (to.host@, to.port)));
                k = k + 1;
            }
            assert(keyids.take(k as int) =~= keyids);
            i = i + 1;
        }
        assert(all.take(i as int) =~= all);
        Ok(ResolveConfig { rules })
    }

    /// Builds the rules of a JSON text.
    pub fn load_from_json(text: &str) -> (r: Result<ResolveConfig, ResolveError>)
        ensures
            match json::document_of(text@) {
                Ok(document) => configured(r, document),
                Err(_) => r is Err && r->Err_0 == ResolveError::NotJson,
            },
    {
        match json::read(text) {
            Ok(raw) => ResolveConfig::from_json(&raw),
            Err(_) => Err(ResolveError::NotJson),
        }
    }
}

/// A target is a host, or a host and a port behind a colon.
pub proof fn a_single_target_is_host_and_port(host: Seq<char>, port: u16)
    requires
        !host.contains(':'),
    ensures
        single(host) == Ok::<(Seq<char>, Option<i32>), ResolveError>((host, None)),
        single(host.push(':') + text::decimal(port as nat)) == Ok::<(Seq<char>, Option<i32>), ResolveError>(
            (host, Some(port as i32)),
        ),
{
    let d = text::decimal(port as nat);
    let s = host.push(':') + d;
    text::decimal_notation_reads_back(port as nat, u16::MAX as nat);
    text::lemma_digits_hold_nothing_else(d, '+');
    text::lemma_digits_hold_nothing_else(d, '-');
    assert(d.contains(d[0]));
    assert(s[host.len() as int] == ':');
    assert forall|k: int| 0 <= k < host.len() implies s[k] != ':' by {
        assert(s[k] == host[k]);
        assert(host.contains(host[k]));
    }
    text::lemma_first_at_is(s, ':', host.len() as int);
    assert(text::before(s, ':') =~= host);
    assert(text::after(s, ':') =~= d);
}

/// Without rules every target is left as it is. A rule for the host and the port
/// counts before one for the host; a target that names no port keeps the one
/// that was asked for; and what no rule is about has no target.
pub proof fn a_rule_decides_the_target(
    rules: Map<(Seq<char>, Option<i32>), HostAndPort>,
    host: Seq<char>,
    port: i32,
    to: HostAndPort,
)
    requires
        rules.dom().finite(),
    ensures
        rules == Map::<(Seq<char>, Option<i32>), HostAndPort>::empty() ==> resolved(rules, host, port) == Some(
            (host, port),
        ),
        rules.dom().contains((host, Some(port))) && rules[(host, Some(port))] == to ==> resolved(rules, host, port)
            == Some(
            (to.host@, if to.port is Some {
                to.port->0
            } else {
                port
            }),
        ),
        !rules.dom().contains((host, Some(port))) && rules.dom().contains((host, None)) && rules[(host, None)] == to
            ==> resolved(rules, host, port) == Some(
            (to.host@, if to.port is Some {
                to.port->0
            } else {
                port
            }),
        ),
        rules.dom().len() > 0 && !rules.dom().contains((host, Some(port))) && !rules.dom().contains((host, None))
            ==> resolved(rules, host, port) is None,
{
    if rules.dom().contains((host, Some(port))) || rules.dom().contains((host, None)) {
        if rules.dom().len() == 0 {
            assert(rules.dom() =~= Set::empty());
        }
    }
    if rules == Map::<(Seq<char>, Option<i32>), HostAndPort>::empty() {
        assert(rules.dom() =~= Set::empty());
    }
}

/// A rule binds every one of its keys to its target, and leaves the others as
/// they were.
pub proof fn a_rule_binds_every_key(
    m: Map<(Seq<char>, Option<i32>), (Seq<char>, Option<i32>)>,
    keys: Seq<(Seq<char>, Option<i32>)>,
    to: (Seq<char>, Option<i32>),
    key: (Seq<char>, Option<i32>),
)
    ensures
        keys.contains(key) ==> bound(m, keys, to).dom().contains(key) && bound(m, keys, to)[key] == to,
        !keys.contains(key) ==> bound(m, keys, to).dom().contains(key) == m.dom().contains(key) && (m.dom().contains(
            key,
        ) ==> bound(m, keys, to)[key] == m[key]),
    decreases keys.len(),
{
    if keys.len() > 0 {
        let t = keys.drop_last();
        a_rule_binds_every_key(m, t, to, key);
        if t.contains(key) {
            let k = choose|k: int| 0 <= k < t.len() && t[k] == key;
            assert(keys[k] == key);
        }
        assert(keys[keys.len() - 1] == keys.last());
        if keys.contains(key) && key != keys.last() {
            let k = choose|k: int| 0 <= k < keys.len() && keys[k] == key;
            assert(t[k] == key);
        }
    }
}

/// A row of targets is read whole: every one that is not blank is in it.
pub proof fn every_target_of_a_row_counts(parts: Seq<Seq<char>>, i: int)
    requires
        singles(parts) is Ok,
        0 <= i < parts.len(),
        text::trimmed(parts[i]).len() > 0,
    ensures
        single(text::trimmed(parts[i])) is Ok,
        singles(parts)->Ok_0.contains(single(text::trimmed(parts[i]))->Ok_0),
    decreases parts.len(),
{
    let t = parts.drop_last();
    let all = singles(parts)->Ok_0;
    if i < t.len() {
        assert(t[i] == parts[i]);
        every_target_of_a_row_counts(t, i);
        let done = singles(t)->Ok_0;
        let k = choose|k: int| 0 <= k < done.len() && done[k] == single(text::trimmed(parts[i]))->Ok_0;
        assert(all[k] == done[k]);
    } else {
        assert(all[all.len() - 1] == single(text::trimmed(parts[i]))->Ok_0);
    }
}

/// The last member that names a target decides it.
pub proof fn the_last_rule_of_a_key_holds(
    members: Seq<(Seq<char>, json::Document)>,
    keys: Seq<char>,
    to: Seq<char>,
    key: (Seq<char>, Option<i32>),
)
    requires
        rules_of(members.push((keys, json::Document::Text(to)))) is Ok,
        singles(text::pieces(keys, ';'))->Ok_0.contains(key),
    ensures
        single(to) is Ok,
        rules_of(members.push((keys, json::Document::Text(to))))->Ok_0.dom().contains(key),
        rules_of(members.push((keys, json::Document::Text(to))))->Ok_0[key] == single(to)->Ok_0,
{
    let all = members.push((keys, json::Document::Text(to)));
    assert(all.drop_last() =~= members);
    let m = rules_of(members)->Ok_0;
    a_rule_binds_every_key(m, singles(text::pieces(keys, ';'))->Ok_0, single(to)->Ok_0, key);
}

} // verus!
