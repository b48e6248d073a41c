//! Lists of upstream targets as they are configured.
use vstd::prelude::*;
use vstd::slice::slice_subrange;
use crate::hostutil;
use crate::hostutil::HostAndPort;
use crate::text;

verus! {

/// Why a list of targets is refused.
#[derive(Debug, Clone, Copy, PartialEq, Eq, Structural)]
pub enum TargetError {
    /// A target holds white space.
    HasWhitespace,
    /// A target is no host and port.
    InvalidTarget,
    /// A target has port zero.
    InvalidPort,
    /// There is no target.
    Empty,
    /// An http target is https.
    HttpsNotSupported,
    /// An http target does not start with `http://`.
    NotHttp,
    /// An http target is more than a host and a port.
    HasPath,
    /// An http target has a colon but no valid host and port.
    InvalidHostPort,
}

/// The pieces of `s` between commas and semicolons.
pub open spec fn items(s: Seq<char>) -> Seq<Seq<char>>
    decreases s.len(),
{
    if s.len() == 0 {
        seq![seq![]]
    } else {
        let rest = items(s.drop_last());
        if s.last() == ',' || s.last() == ';' {
            rest.push(seq![])
        } else {
            rest.drop_last().push(rest.last().push(s.last()))
        }
    }
}

proof fn lemma_items_nonempty(s: Seq<char>)
    ensures
        items(s).len() >= 1,
    decreases s.len(),
{
    if s.len() > 0 {
        lemma_items_nonempty(s.drop_last());
    }
}

/// Splits a list at commas and semicolons.
pub fn split_items(s: &[char]) -> (r: Vec<Vec<char>>)
    ensures
        text::texts(r@) == items(s@),
        r@.len() == items(s@).len(),
        forall|i: int| 0 <= i < r@.len() ==> (#[trigger] r@[i])@ == items(s@)[i],
{
    let mut out: Vec<Vec<char>> = Vec::new();
    let mut cur: Vec<char> = Vec::new();
    let mut i: usize = 0;
    assert(items(s@.take(0)) =~= text::texts(out@).push(cur@)) by {
        assert(s@.take(0).len() == 0);
        assert(cur@ =~= seq![]);
    }
    while i < s.len()
        invariant
            i <= s@.len(),
            items(s@.take(i as int)) == text::texts(out@).push(cur@),
        decreases s@.len() - i,
    {
        assert(s@.take(i + 1).drop_last() =~= s@.take(i as int));
        let ghost out0 = text::texts(out@);
        let ghost cur0 = cur@;
        assert(out0.push(cur0).drop_last() =~= out0);
        if s[i] == ',' || s[i] == ';' {
            out.push(cur);
            cur = Vec::new();
            assert(text::texts(out@) =~= out0.push(cur0));
            assert(cur@ =~= seq![]);
        } else {
            cur.push(s[i]);
        }
        i = i + 1;
    }
    assert(s@.take(i as int) =~= s@);
    let ghost out0 = text::texts(out@);
    let ghost cur0 = cur@;
    out.push(cur);
    proof {
        assert(text::texts(out@) =~= out0.push(cur0));
        assert forall|k: int| 0 <= k < out@.len() implies (#[trigger] out@[k])@ == items(s@)[k] by {
            assert(text::texts(out@)[k] == out@[k]@);
        }
    }
    out
}

/// One forward target in normal form, `host:port`.
pub open spec fn forward_target(item: Seq<char>) -> Result<Seq<char>, TargetError> {
    let t = text::trimmed(item);
    if hostutil::has_ws(t) {
        Err(TargetError::HasWhitespace)
    } else {
        match hostutil::target(t) {
            None => Err(TargetError::InvalidTarget),
            Some((host, port)) => if port == 0 {
                Err(TargetError::InvalidPort)
            } else {
                Ok(hostutil::shown(host, port))
            },
        }
    }
}

/// One http target in normal form; the port is 80 where none is given.
pub open spec fn http_target(item: Seq<char>) -> Result<Seq<char>, TargetError> {
    let t = text::trimmed(item);
    let lower = text::lower(t);
    let rest = t.skip(7);
    let bare = if rest.len() > 0 && rest.last() == '/' {
        rest.drop_last()
    } else {
        rest
    };
    let parsed = match hostutil::target(bare) {
        Some(p) => Some(p),
        None => if !bare.contains(':') {
            Some((bare, 80u16))
        } else {
            None
        },
    };
    if text::begins(lower, "https://"@) {
        Err(TargetError::HttpsNotSupported)
    } else if !text::begins(lower, "http://"@) {
        Err(TargetError::NotHttp)
    } else if bare.len() == 0 || bare.contains('/') || bare.contains('?') || bare.contains('#') || hostutil::has_ws(
        bare,
    ) {
        Err(TargetError::HasPath)
    } else if parsed is None {
        Err(TargetError::InvalidHostPort)
    } else if (parsed->0).1 == 0 {
        Err(TargetError::InvalidPort)
    } else {
        Ok(hostutil::shown((parsed->0).0, (parsed->0).1))
    }
}

/// The normal forms of a row of targets, blank ones skipped; the first error
/// counts.
pub open spec fn targets_of(parts: Seq<Seq<char>>, http: bool) -> Result<Seq<Seq<char>>, TargetError>
    decreases parts.len(),
{
    if parts.len() == 0 {
        Ok(seq![])
    } else {
        match targets_of(parts.drop_last(), http) {
            Err(e) => Err(e),
            Ok(done) => if text::trimmed(parts.last()).len() == 0 {
                Ok(done)
            } else {
                match if http {
                    http_target(parts.last())
                } else {
                    forward_target(parts.last())
                } {
                    Ok(t) => Ok(done.push(t)),
                    Err(e) => Err(e),
                }
            },
        }
    }
}

/// The normal forms of a list of targets; there has to be one.
pub open spec fn target_list(s: Seq<char>, http: bool) -> Result<Seq<Seq<char>>, TargetError> {
    match targets_of(items(s), http) {
        Err(e) => Err(e),
        Ok(v) => if v.len() == 0 {
            Err(TargetError::Empty)
        } else {
            Ok(v)
        },
    }
}

proof fn lemma_targets_error(parts: Seq<Seq<char>>, n: int, http: bool)
    requires
        0 <= n <= parts.len(),
        targets_of(parts.take(n), http) is Err,
    ensures
        targets_of(parts, http) == targets_of(parts.take(n), http),
    decreases parts.len() - n,
{
    if n == parts.len() {
        assert(parts.take(n) =~= parts);
    } else {
        assert(parts.take(n + 1).drop_last() =~= parts.take(n));
        lemma_targets_error(parts, n + 1, http);
    }
}

pub fn holds_whitespace(s: &[char]) -> (r: bool)
    ensures
        r == hostutil::has_ws(s@),
{
    let mut i: usize = 0;
    while i < s.len()
        invariant
            i <= s@.len(),
            forall|k: int| 0 <= k < i ==> !text::is_ws(#[trigger] s@[k]),
        decreases s@.len() - i,
    {
        if text::is_whitespace(s[i]) {
            assert(text::is_ws(s@[i as int]));
            return true;
        }
        i = i + 1;
    }
    false
}

fn parse_forward_target(item: &[char]) -> (r: Result<String, TargetError>)
    ensures
        match forward_target(item@) {
            Ok(t) => r is Ok && r->Ok_0@ == t,
            Err(e) => r is Err && r->Err_0 == e,
        },
{
    let t = text::trim(item);
    if holds_whitespace(t) {
        return Err(TargetError::HasWhitespace);
    }
    match HostAndPort::parse(text::string_of(t).as_str()) {
        Err(_) => Err(TargetError::InvalidTarget),
        Ok(p) => if p.port == 0 {
            Err(TargetError::InvalidPort)
        } else {
            Ok(p.to_string())
        },
    }
}

fn parse_http_target(item: &[char]) -> (r: Result<String, TargetError>)
    ensures
        match http_target(item@) {
            Ok(t) => r is Ok && r->Ok_0@ == t,
            Err(e) => r is Err && r->Err_0 == e,
        },
{
    let t = text::trim(item);
    let lower = text::to_lower(t);
    let https = text::chars_of("https://");
    let http = text::chars_of("http://");
    proof {
        reveal_strlit("http://");
    }
    if text::starts_with(lower.as_slice(), https.as_slice()) {
        return Err(TargetError::HttpsNotSupported);
    }
    if !text::starts_with(lower.as_slice(), http.as_slice()) {
        return Err(TargetError::NotHttp);
    }
    assert(lower@.len() == t@.len());
    let rest = slice_subrange(t, 7, t.len());
    assert(rest@ =~= t@.skip(7));
    let bare = if rest.len() > 0 && rest[rest.len() - 1] == '/' {
        let b = slice_subrange(rest, 0, rest.len() - 1);
        assert(b@ =~= rest@.drop_last());
        b
    } else {
        rest
    };
    if bare.len() == 0 || text::find(bare, '/') < bare.len() || text::find(bare, '?') < bare.len() || text::find(
        bare,
        '#',
    ) < bare.len() || holds_whitespace(bare) {
        return Err(TargetError::HasPath);
    }
    let name = text::string_of(bare);
    let parsed = match HostAndPort::parse(name.as_str()) {
        Ok(p) => p,
        Err(_) => {
            if text::find(bare, ':') < bare.len() {
                return Err(TargetError::InvalidHostPort);
            }
            HostAndPort::new(name, 80)
        },
    };
    if parsed.port == 0 {
        return Err(TargetError::InvalidPort);
    }
    Ok(parsed.to_string())
}

fn parse_list(targets: &str, http: bool) -> (r: Result<Vec<String>, TargetError>)
    ensures
        match target_list(targets@, http) {
            Ok(v) => r is Ok && text::views(r->Ok_0@) == v,
            Err(e) => r is Err && r->Err_0 == e,
        },
{
    let s = text::chars_of(targets);
    let parts = split_items(s.as_slice());
    let ghost all = items(targets@);
    let mut out: Vec<String> = Vec::new();
    assert(text::views(out@) =~= seq![]);
    let mut i: usize = 0;
    while i < parts.len()
        invariant
            i <= parts@.len(),
            all == items(targets@),
            parts@.len() == all.len(),
            forall|k: int| 0 <= k < parts@.len() ==> (#[trigger] parts@[k])@ == all[k],
            targets_of(all.take(i as int), http) == Ok::<Seq<Seq<char>>, TargetError>(text::views(out@)),
        decreases parts@.len() - i,
    {
        assert(all.take(i + 1).drop_last() =~= all.take(i as int));
        let item = parts[i].as_slice();
        if text::trim(item).len() > 0 {
            let parsed = if http {
                parse_http_target(item)
            } else {
                parse_forward_target(item)
            };
            match parsed {
                Ok(t) => {
                    let ghost o0 = text::views(out@);
                    out.push(t);
                    assert(text::views(out@) =~= o0.push(t@));
                },
                Err(e) => {
                    proof {
                        lemma_targets_error(all, i + 1, http);
                    }
                    return Err(e);
                },
            }
        }
        i = i + 1;
    }
    assert(all.take(i as int) =~= all);
    if out.len() == 0 {
        return Err(TargetError::Empty);
    }
    Ok(out)
}

/// Parses forward targets, separated by `,` or `;`, into `host:port` texts.
pub fn parse_targets(targets: &str) -> (r: Result<Vec<String>, TargetError>)
    ensures
        match target_list(targets@, false) {
            Ok(v) => r is Ok && text::views(r->Ok_0@) == v,
            Err(e) => r is Err && r->Err_0 == e,
        },
{
    parse_list(targets, false)
}

/// Parses http-mode backend targets (`http://host` or `http://host:port`,
/// separated by `,` or `;`; the port defaults to 80) into the `host:port`
/// list format that forward targets have.
pub fn parse_http_targets(targets: &str) -> (r: Result<String, TargetError>)
    ensures
        match target_list(targets@, true) {
            Ok(v) => r is Ok && r->Ok_0@ == text::joined(v, ";"@),
            Err(e) => r is Err && r->Err_0 == e,
        },
{
    match parse_list(targets, true) {
        Ok(v) => Ok(text::join(&v, ";")),
        Err(e) => Err(e),
    }
}

/// Explicit backends of an http listener, or None when it routes dynamically
/// by Host header.
pub fn http_listener_targets(target: &Option<String>) -> (r: Option<String>)
    ensures
        match target {
            Some(t) => if text::trimmed(t@).len() > 0 {
                r is Some && r->0@ == text::trimmed(t@)
            } else {
                r is None
            },
            None => r is None,
        },
{
    match target {
        Some(t) => {
            let all = text::chars_of(t.as_str());
            let bare = text::trim(all.as_slice());
            if bare.len() > 0 {
                Some(text::string_of(bare))
            } else {
                None
            }
        },
        None => None,
    }
}

/// The texts of a pool: the items of the list without blank ones, or the
/// requested host where no list is given.
pub open spec fn pool_texts(parts: Seq<Seq<char>>) -> Seq<Seq<char>>
    decreases parts.len(),
{
    if parts.len() == 0 {
        seq![]
    } else if text::trimmed(parts.last()).len() == 0 {
        pool_texts(parts.drop_last())
    } else {
        pool_texts(parts.drop_last()).push(text::trimmed(parts.last()))
    }
}

/// The host and port that a pool text stands for.
pub open spec fn pool_member(t: Seq<char>, default_port: u16) -> (Seq<char>, u16) {
    match hostutil::target(t) {
        Some(p) => p,
        None => (t, default_port),
    }
}

/// The members of a pool, unless one of them has port zero.
pub open spec fn pool_members(texts: Seq<Seq<char>>, default_port: u16) -> Result<Seq<(Seq<char>, u16)>, TargetError>
    decreases texts.len(),
{
    if texts.len() == 0 {
        Ok(seq![])
    } else {
        match pool_members(texts.drop_last(), default_port) {
            Err(e) => Err(e),
            Ok(done) => if pool_member(texts.last(), default_port).1 == 0 {
                Err(TargetError::InvalidPort)
            } else {
                Ok(done.push(pool_member(texts.last(), default_port)))
            },
        }
    }
}

/// The members of a route's pool: those of the explicit list, or the host that
/// the client asked for.
pub open spec fn pool(sni_host: Seq<char>, explicit: Option<Seq<char>>, default_port: u16) -> Result<
    Seq<(Seq<char>, u16)>,
    TargetError,
> {
    let texts = match explicit {
        Some(list) => pool_texts(items(list)),
        None => seq![sni_host],
    };
    if texts.len() == 0 {
        Err(TargetError::Empty)
    } else {
        pool_members(texts, default_port)
    }
}

pub open spec fn pairs(v: Seq<HostAndPort>) -> Seq<(Seq<char>, u16)> {
    v.map_values(|h: HostAndPort| (h.host@, h.port))
}

fn pool_texts_of(list: &str) -> (r: Vec<String>)
    ensures
        text::views(r@) == pool_texts(items(list@)),
{
    let s = text::chars_of(list);
    let parts = split_items(s.as_slice());
    let ghost all = items(list@);
    let mut out: Vec<String> = Vec::new();
    assert(text::views(out@) =~= seq![]);
    let mut i: usize = 0;
    while i < parts.len()
        invariant
            i <= parts@.len(),
            all == items(list@),
            parts@.len() == all.len(),
            forall|k: int| 0 <= k < parts@.len() ==> (#[trigger] parts@[k])@ == all[k],
            text::views(out@) == pool_texts(all.take(i as int)),
        decreases parts@.len() - i,
    {
        assert(all.take(i + 1).drop_last() =~= all.take(i as int));
        let t = text::trim(parts[i].as_slice());
        if t.len() > 0 {
            let ghost o0 = text::views(out@);
            out.push(text::string_of(t));
            assert(text::views(out@) =~= o0.push(t@));
        }
        i = i + 1;
    }
    assert(all.take(i as int) =~= all);
    out
}

proof fn lemma_members_error(texts: Seq<Seq<char>>, n: int, default_port: u16)
    requires
        0 <= n <= texts.len(),
        pool_members(texts.take(n), default_port) is Err,
    ensures
        pool_members(texts, default_port) == pool_members(texts.take(n), default_port),
    decreases texts.len() - n,
{
    if n == texts.len() {
        assert(texts.take(n) =~= texts);
    } else {
        assert(texts.take(n + 1).drop_last() =~= texts.take(n));
        lemma_members_error(texts, n + 1, default_port);
    }
}

/// The members of a route's pool.
pub fn pool_targets(sni_host: &str, explicit: &Option<String>, default_port: u16) -> (r: Result<
    Vec<HostAndPort>,
    TargetError,
>)
    ensures
        match pool(sni_host@, match explicit { Some(e) => Some(e@), None => None }, default_port) {
            Ok(v) => r is Ok && pairs(r->Ok_0@) == v,
            Err(e) => r is Err && r->Err_0 == e,
        },
{
    let texts = match explicit {
        Some(list) => pool_texts_of(list.as_str()),
        None => {
            let mut one: Vec<String> = Vec::new();
            one.push(text::owned(sni_host));
            assert(text::views(one@) =~= seq![sni_host@]);
            one
        },
    };
    if texts.len() == 0 {
        return Err(TargetError::Empty);
    }
    let ghost all = text::views(texts@);
    let mut out: Vec<HostAndPort> = Vec::new();
    assert(pairs(out@) =~= seq![]);
    let mut i: usize = 0;
    while i < texts.len()
        invariant
            i <= texts@.len(),
            all == text::views(texts@),
            all.len() > 0,
            all == match explicit {
                Some(list) => pool_texts(items(list@)),
                None => seq![sni_host@],
            },
            pool_members(all.take(i as int), default_port) == Ok::<Seq<(Seq<char>, u16)>, TargetError>(pairs(out@)),
        decreases texts@.len() - i,
    {
        assert(all.take(i + 1).drop_last() =~= all.take(i as int));
        let p = HostAndPort::parse_or_default(texts[i].as_str(), default_port);
        assert((p.host@, p.port) == pool_member(all[i as int], default_port));
        if p.port == 0 {
            proof {
                lemma_members_error(all, i + 1, default_port);
            }
            return Err(TargetError::InvalidPort);
        }
        let ghost o0 = pairs(out@);
        out.push(p);
        assert(pairs(out@) =~= o0.push((p.host@, p.port)));
        i = i + 1;
    }
    assert(all.take(i as int) =~= all);
    Ok(out)
}

/// The target of a route: the explicit one, or the host that the client asked
/// for. Port zero is refused.
pub fn route_target(sni_host: &str, explicit: &Option<String>, default_port: u16) -> (r: Result<
    HostAndPort,
    TargetError,
>)
    ensures
        ({
            let (host, port) = match explicit {
                Some(t) => pool_member(t@, default_port),
                None => (sni_host@, default_port),
            };
            if port == 0 {
                r is Err && r->Err_0 == TargetError::InvalidPort
            } else {
                r is Ok && r->Ok_0.host@ == host && r->Ok_0.port == port
            }
        }),
{
    let requested = match explicit {
        Some(t) => HostAndPort::parse_or_default(t.as_str(), default_port),
        None => HostAndPort::new(text::owned(sni_host), default_port),
    };
    if requested.port == 0 {
        Err(TargetError::InvalidPort)
    } else {
        Ok(requested)
    }
}

/// Commas and semicolons part the items before them from those behind them; a
/// text without either is one item.
pub proof fn separators_part_items(a: Seq<char>, sep: char, b: Seq<char>)
    requires
        sep == ',' || sep == ';',
    ensures
        !a.contains(',') && !a.contains(';') ==> items(a) == seq![a],
        items(a.push(sep) + b) == items(a) + items(b),
    decreases a.len() + b.len(),
{
    lemma_items_nonempty(a);
    if !a.contains(',') && !a.contains(';') {
        lemma_one_item(a);
    }
    let s = a.push(sep) + b;
    if b.len() == 0 {
        assert(s.drop_last() =~= a);
        assert(s.last() == sep);
        assert(items(a).push(seq![]) =~= items(a) + seq![Seq::<char>::empty()]);
    } else {
        let c = b.drop_last();
        assert(s.drop_last() =~= a.push(sep) + c);
        assert(s.last() == b.last());
        separators_part_items(a, sep, c);
        lemma_items_nonempty(c);
        let i = items(a) + items(c);
        assert(i.push(seq![]) =~= items(a) + items(c).push(seq![]));
        assert(i.drop_last() =~= items(a) + items(c).drop_last());
        assert(i.last() == items(c).last());
        assert(i.drop_last().push(i.last().push(b.last())) =~= items(a) + items(c).drop_last().push(
            items(c).last().push(b.last()),
        ));
    }
}

proof fn lemma_one_item(a: Seq<char>)
    requires
        !a.contains(','),
        !a.contains(';'),
    ensures
        items(a) == seq![a],
    decreases a.len(),
{
    if a.len() > 0 {
        let t = a.drop_last();
        assert(a[a.len() - 1] == a.last());
        assert(a.contains(a.last()));
        assert forall|i: int| 0 <= i < t.len() implies t[i] != ',' && t[i] != ';' by {
            assert(a.contains(a[i]));
        }
        lemma_one_item(t);
        assert(t.push(a.last()) =~= a);
        assert(items(a) =~= seq![a]);
    } else {
        assert(a =~= seq![]);
    }
}

/// A forward target with a host and a port is taken as it is written; port zero
/// is refused.
pub proof fn a_forward_target_keeps_its_host_and_port(host: Seq<char>, port: u16)
    requires
        host.len() > 0,
        forall|i: int| 0 <= i < host.len() ==> !text::is_ws(#[trigger] host[i]) && host[i] != '=',
    ensures
        port > 0 ==> forward_target(hostutil::shown(host, port)) == Ok::<Seq<char>, TargetError>(
            hostutil::shown(host, port),
        ),
        port == 0 ==> forward_target(hostutil::shown(host, port)) == Err::<Seq<char>, TargetError>(
            TargetError::InvalidPort,
        ),
{
    reveal_strlit(":");
    let t = hostutil::shown(host, port);
    let d = text::decimal(port as nat);
    hostutil::a_written_target_reads_back(host, port);
    text::decimal_notation_reads_back(port as nat, u16::MAX as nat);
    lemma_shown_has_no_ws(host, port);
    let none = Seq::<char>::empty();
    assert(none + t + none =~= t);
    assert(!text::is_ws(t[0]) && !text::is_ws(t[t.len() - 1]));
    text::trimming_takes_off_white_space_alone(none, t, none);
}

proof fn lemma_shown_has_no_ws(host: Seq<char>, port: u16)
    requires
        forall|i: int| 0 <= i < host.len() ==> !text::is_ws(#[trigger] host[i]),
    ensures
        hostutil::shown(host, port).len() > 0,
        forall|i: int| 0 <= i < hostutil::shown(host, port).len() ==> !text::is_ws(#[trigger] hostutil::shown(host, port)[i]),
        !hostutil::has_ws(hostutil::shown(host, port)),
{
    reveal_strlit(":");
    let d = text::decimal(port as nat);
    let t = hostutil::shown(host, port);
    text::decimal_notation_reads_back(port as nat, u16::MAX as nat);
    assert forall|i: int| 0 <= i < t.len() implies !text::is_ws(#[trigger] t[i]) by {
        if i < host.len() {
            assert(t[i] == host[i]);
        } else if i > host.len() {
            assert(t[i] == d[i - host.len() - 1]);
            assert(text::is_digit(d[i - host.len() - 1]));
        }
    }
}

/// An http target is taken with port 80 where it names none, whatever the case
/// of its scheme and with or without a slash at its end.
pub proof fn an_http_target_has_port_80_unless_it_says_otherwise(scheme: Seq<char>, host: Seq<char>, slash: bool)
    requires
        text::lower(scheme) == "http://"@,
        host.len() > 0,
        forall|i: int|
            0 <= i < host.len() ==> !text::is_ws(#[trigger] host[i]) && host[i] != '=' && host[i] != ':' && host[i] != '@'
                && host[i] != '|' && host[i] != '/' && host[i] != '?' && host[i] != '#',
    ensures
        http_target(scheme + host + if slash { seq!['/'] } else { seq![] }) == Ok::<Seq<char>, TargetError>(
            hostutil::shown(host, 80),
        ),
{
    reveal_strlit("http://");
    reveal_strlit("https://");
    let end: Seq<char> = if slash {
        seq!['/']
    } else {
        seq![]
    };
    let t = scheme + host + end;
    let none = Seq::<char>::empty();
    assert(scheme.len() == 7) by {
        assert(text::lower(scheme).len() == scheme.len());
    }
    assert(text::lower(scheme)[0] == text::lower_char(scheme[0]));
    assert(!text::is_ws(t[0]));
    assert(!text::is_ws(t.last())) by {
        assert(!text::is_ws(host[host.len() - 1]));
    }
    assert(none + t + none =~= t);
    text::trimming_takes_off_white_space_alone(none, t, none);
    let low = text::lower(t);
    assert(low.take(7) =~= text::lower(scheme));
    assert(low[4] == text::lower(scheme)[4]);
    assert("http://"@[4] == ':' && "https://"@[4] == 's');
    assert(!text::begins(low, "https://"@)) by {
        if text::begins(low, "https://"@) {
            assert(low.take(8)[4] == low[4]);
        }
    }
    let rest = t.skip(7);
    assert(rest =~= host + end);
    if slash {
        assert(rest.drop_last() =~= host);
    } else {
        assert(rest =~= host);
        assert(host[host.len() - 1] != '/');
    }
    lemma_plain_host_is_no_target(host);
}

proof fn lemma_plain_host_is_no_target(host: Seq<char>)
    requires
        forall|i: int|
            0 <= i < host.len() ==> !text::is_ws(#[trigger] host[i]) && host[i] != '=' && host[i] != ':' && host[i] != '@'
                && host[i] != '|' && host[i] != '/' && host[i] != '?' && host[i] != '#',
    ensures
        hostutil::target(host) is None,
        !host.contains(':') && !host.contains('/') && !host.contains('?') && !host.contains('#') && !hostutil::has_ws(host),
{
    assert(!host.contains('=') && !host.contains(':') && !host.contains('@') && !host.contains('|')
        && !host.contains('/') && !host.contains('?') && !host.contains('#')) by {
        assert forall|c: char| host.contains(c) implies c != '=' && c != ':' && c != '@' && c != '|' && c != '/' && c
            != '?' && c != '#' by {
            let i = choose|i: int| 0 <= i < host.len() && host[i] == c;
            assert(host[i] == c);
        }
    }
    hostutil::a_bare_host_is_no_target(host);
}

/// A list comes to the normal forms of its items, one by one and in order,
/// without blank ones.
pub proof fn every_listed_target_counts(parts: Seq<Seq<char>>, http: bool, i: int)
    requires
        targets_of(parts, http) is Ok,
        0 <= i < parts.len(),
        text::trimmed(parts[i]).len() > 0,
    ensures
        http ==> http_target(parts[i]) is Ok && targets_of(parts, http)->Ok_0.contains(http_target(parts[i])->Ok_0),
        !http ==> forward_target(parts[i]) is Ok && targets_of(parts, http)->Ok_0.contains(
            forward_target(parts[i])->Ok_0,
        ),
    decreases parts.len(),
{
    let t = parts.drop_last();
    let all = targets_of(parts, http)->Ok_0;
    let done = targets_of(t, http)->Ok_0;
    if i < t.len() {
        assert(t[i] == parts[i]);
        every_listed_target_counts(t, http, i);
        let x = if http {
            http_target(parts[i])->Ok_0
        } else {
            forward_target(parts[i])->Ok_0
        };
        let k = choose|k: int| 0 <= k < done.len() && done[k] == x;
        assert(all[k] == x);
    } else {
        assert(all[all.len() - 1] == all.last());
    }
}

/// A pool has a member for every text, in order: the host and port that it
/// says, or the text itself on the default port. Port zero is the one thing
/// that is refused.
pub proof fn every_pool_text_is_a_member(texts: Seq<Seq<char>>, default_port: u16, i: int)
    requires
        0 <= i < texts.len(),
    ensures
        pool_members(texts, default_port) matches Ok(v) ==> v.len() == texts.len() && v[i].1 != 0 && (hostutil::target(
            texts[i],
        ) matches Some(p) ==> v[i] == p) && (hostutil::target(texts[i]) is None ==> v[i] == (texts[i], default_port)),
        pool_members(texts, default_port) is Err ==> exists|k: int|
            0 <= k < texts.len() && (hostutil::target(#[trigger] texts[k]) matches Some(p) && p.1 == 0 || (
            hostutil::target(texts[k]) is None && default_port == 0)),
    decreases texts.len(),
{
    let t = texts.drop_last();
    if t.len() > 0 {
        every_pool_text_is_a_member(t, default_port, if i < t.len() {
            i
        } else {
            0
        });
        if pool_members(t, default_port) is Err {
            let k = choose|k: int|
                0 <= k < t.len() && (hostutil::target(#[trigger] t[k]) matches Some(p) && p.1 == 0 || (hostutil::target(
                    t[k],
                ) is None && default_port == 0));
            assert(texts[k] == t[k]);
        }
        if i < t.len() {
            assert(t[i] == texts[i]);
        }
    } else {
        assert(pool_members(t, default_port) == Ok::<Seq<(Seq<char>, u16)>, TargetError>(seq![]));
    }
    assert(texts[texts.len() - 1] == texts.last());
}

/// A route without targets goes to the host that the client asks for, on the
/// port of the route.
pub proof fn a_route_without_targets_goes_to_the_client_host(host: Seq<char>, port: u16)
    requires
        port > 0,
        !host.contains('='),
        !host.contains(':'),
        !host.contains('@'),
        !host.contains('|'),
    ensures
        pool(host, None, port) == Ok::<Seq<(Seq<char>, u16)>, TargetError>(seq![(host, port)]),
{
    hostutil::a_bare_host_is_no_target(host);
    let texts = seq![host];
    assert(texts.drop_last() =~= seq![]);
    assert(pool_members(texts.drop_last(), port) == Ok::<Seq<(Seq<char>, u16)>, TargetError>(seq![]));
    assert(pool_members(texts, port)->Ok_0 =~= seq![(host, port)]);
}

/// A pool's texts are the items that are not blank, without white space around
/// them.
pub proof fn a_pool_lists_every_item(parts: Seq<Seq<char>>, i: int)
    ensures
        0 <= i < parts.len() && text::trimmed(parts[i]).len() > 0 ==> pool_texts(parts).contains(text::trimmed(parts[i])),
        0 <= i < pool_texts(parts).len() ==> exists|k: int|
            0 <= k < parts.len() && text::trimmed(#[trigger] parts[k]) == pool_texts(parts)[i] && pool_texts(
                parts,
            )[i].len() > 0,
    decreases parts.len(),
{
    if parts.len() > 0 {
        let t = parts.drop_last();
        let a = pool_texts(t);
        let b = pool_texts(parts);
        a_pool_lists_every_item(t, i);
        if 0 <= i < t.len() && text::trimmed(parts[i]).len() > 0 {
            assert(t[i] == parts[i]);
            let k = choose|k: int| 0 <= k < a.len() && a[k] == text::trimmed(parts[i]);
            assert(b[k] == a[k]);
        }
        if i == t.len() && text::trimmed(parts[i]).len() > 0 {
            assert(b[b.len() - 1] == text::trimmed(parts[i]));
        }
        if 0 <= i < b.len() {
            if i < a.len() {
                let k = choose|k: int|
                    0 <= k < t.len() && text::trimmed(#[trigger] t[k]) == a[i] && a[i].len() > 0;
                assert(parts[k] == t[k]);
            } else {
                assert(parts[parts.len() - 1] == parts.last());
            }
        }
    }
}

/// A list of targets names one at least; blank items alone are no list.
pub proof fn a_list_names_a_target(s: Seq<char>, http: bool)
    ensures
        target_list(s, http) matches Ok(v) ==> v.len() > 0,
        (forall|i: int| 0 <= i < items(s).len() ==> text::trimmed(#[trigger] items(s)[i]).len() == 0) ==> target_list(
            s,
            http,
        ) == Err::<Seq<Seq<char>>, TargetError>(TargetError::Empty),
{
    if forall|i: int| 0 <= i < items(s).len() ==> text::trimmed(#[trigger] items(s)[i]).len() == 0 {
        lemma_blank_targets(items(s), http);
    }
}

proof fn lemma_blank_targets(parts: Seq<Seq<char>>, http: bool)
    requires
        forall|i: int| 0 <= i < parts.len() ==> text::trimmed(#[trigger] parts[i]).len() == 0,
    ensures
        targets_of(parts, http) is Ok,
        targets_of(parts, http)->Ok_0.len() == 0,
    decreases parts.len(),
{
    if parts.len() > 0 {
        let t = parts.drop_last();
        assert forall|i: int| 0 <= i < t.len() implies text::trimmed(#[trigger] t[i]).len() == 0 by {
            assert(t[i] == parts[i]);
        }
        lemma_blank_targets(t, http);
        assert(text::trimmed(parts[parts.len() - 1]).len() == 0);
    }
}

} // verus!
