//! Bind addresses: literal ones, and patterns that name an interface.
use vstd::prelude::*;
use vstd::slice::slice_subrange;
use crate::net::IpAddr;
use crate::order;
use crate::order::Ranked;
use crate::text;

verus! {

#[derive(Debug, Clone, Copy, PartialEq, Eq, Structural)]
pub enum Family {
    V4,
    V6,
}

#[derive(Debug, Clone, PartialEq, Eq)]
pub enum BindPattern {
    Literal(String),
    Interface { name: String, family: Family, port: Option<u16> },
}

/// Why a bind pattern is refused.
#[derive(Debug, Clone, Copy, PartialEq, Eq, Structural)]
pub enum BindError {
    /// There is no closing `%`.
    MissingClose,
    /// The suffix is neither `/v4` nor `/v6`.
    UnknownFamily,
    EmptyName,
    /// Something other than `:port` follows the closing `%`.
    ExpectedPort,
    InvalidPort,
}

/// What a bind value says: the literal address, or interface name, family and
/// port.
pub enum Bind {
    Literal(Seq<char>),
    Interface(Seq<char>, Family, Option<u16>),
}

pub open spec fn family_of(inner: Seq<char>) -> Option<Family> {
    if !inner.contains('/') || text::after(inner, '/') == "v4"@ {
        Some(Family::V4)
    } else if text::after(inner, '/') == "v6"@ {
        Some(Family::V6)
    } else {
        None
    }
}

pub open spec fn bind_of(input: Seq<char>) -> Result<Bind, BindError> {
    let t = text::trimmed(input);
    let rest = t.skip(1);
    let inner = text::before(rest, '%');
    let behind = text::after(rest, '%');
    let name = text::before(inner, '/');
    if !(t.len() > 0 && t[0] == '%') {
        Ok(Bind::Literal(t))
    } else if !rest.contains('%') {
        Err(BindError::MissingClose)
    } else if family_of(inner) is None {
        Err(BindError::UnknownFamily)
    } else if name.len() == 0 {
        Err(BindError::EmptyName)
    } else if behind.len() == 0 {
        Ok(Bind::Interface(name, family_of(inner)->0, None))
    } else if behind[0] != ':' {
        Err(BindError::ExpectedPort)
    } else {
        match text::unsigned(behind.skip(1), u16::MAX as nat) {
            Some(port) => Ok(Bind::Interface(name, family_of(inner)->0, Some(port as u16))),
            None => Err(BindError::InvalidPort),
        }
    }
}

impl BindError {
    /// What is said of a bind value that is refused.
    pub open spec fn text(self, input: Seq<char>) -> Seq<char> {
        let rest = text::trimmed(input).skip(1);
        "invalid bind pattern `"@ + input + "`: "@ + match self {
            BindError::MissingClose => "missing closing `%`"@,
            BindError::UnknownFamily => "unknown family suffix `/"@ + text::after(text::before(rest, '%'), '/')
                + "` (use /v4 or /v6)"@,
            BindError::EmptyName => "empty interface name"@,
            BindError::ExpectedPort => "expected `:port` after closing `%`"@,
            BindError::InvalidPort => "invalid port `"@ + text::after(rest, '%').skip(1) + "`"@,
        }
    }

    /// The message for the value that is refused for this reason.
    pub fn message(self, input: &str) -> (r: String)
        requires
            bind_of(input@) matches Err(e) && e == self,
        ensures
            r@ == self.text(input@),
    {
        let all = text::chars_of(input);
        let t = text::trim(all.as_slice());
        let rest = slice_subrange(t, 1, t.len());
        assert(rest@ =~= t@.skip(1));
        let end = text::find(rest, '%');
        let mut out = text::owned("invalid bind pattern `");
        out.push_str(input);
        out.push_str("`: ");
        let ghost start = out@;
        match self {
            BindError::MissingClose => out.push_str("missing closing `%`"),
            BindError::UnknownFamily => {
                let inner = slice_subrange(rest, 0, end);
                assert(inner@ =~= text::before(rest@, '%'));
                let k = text::find(inner, '/');
                let suffix = slice_subrange(inner, k + 1, inner.len());
                assert(suffix@ =~= text::after(inner@, '/'));
                out.push_str("unknown family suffix `/");
                text::push_chars(&mut out, suffix);
                out.push_str("` (use /v4 or /v6)");
            },
            BindError::EmptyName => out.push_str("empty interface name"),
            BindError::ExpectedPort => out.push_str("expected `:port` after closing `%`"),
            BindError::InvalidPort => {
                let behind = slice_subrange(rest, end + 1, rest.len());
                assert(behind@ =~= text::after(rest@, '%'));
                let port = slice_subrange(behind, 1, behind.len());
                assert(port@ =~= behind@.skip(1));
                out.push_str("invalid port `");
                text::push_chars(&mut out, port);
                out.push_str("`");
            },
        }
        assert(out@ =~= self.text(input@));
        out
    }
}

impl BindPattern {
    pub open spec fn view(self) -> Bind {
        match self {
            BindPattern::Literal(s) => Bind::Literal(s@),
            BindPattern::Interface { name, family, port } => Bind::Interface(name@, family, port),
        }
    }
}

/// Parses a bind value. `%eth0%:442` / `%eth0/v4%:442` / `%eth0/v6%:442`
/// select an interface; anything not starting with `%` is a literal.
/// A pattern without `:port` (admin `bind_address`) is also accepted.
pub fn parse_bind_pattern(input: &str) -> (r: Result<BindPattern, BindError>)
    ensures
        match bind_of(input@) {
            Ok(b) => r is Ok && r->Ok_0@ == b,
            Err(e) => r is Err && r->Err_0 == e,
        },
{
    let all = text::chars_of(input);
    let t = text::trim(all.as_slice());
    if !(t.len() > 0 && t[0] == '%') {
        return Ok(BindPattern::Literal(text::string_of(t)));
    }
    let rest = slice_subrange(t, 1, t.len());
    assert(rest@ =~= t@.skip(1));
    let end = text::find(rest, '%');
    if end == rest.len() {
        return Err(BindError::MissingClose);
    }
    let inner = slice_subrange(rest, 0, end);
    let behind = slice_subrange(rest, end + 1, rest.len());
    assert(inner@ =~= text::before(rest@, '%'));
    assert(behind@ =~= text::after(rest@, '%'));
    let k = text::find(inner, '/');
    let name = slice_subrange(inner, 0, k);
    assert(name@ =~= text::before(inner@, '/'));
    let family = if k == inner.len() {
        Family::V4
    } else {
        let suffix = slice_subrange(inner, k + 1, inner.len());
        assert(suffix@ =~= text::after(inner@, '/'));
        if text::is(suffix, "v4") {
            Family::V4
        } else if text::is(suffix, "v6") {
            Family::V6
        } else {
            return Err(BindError::UnknownFamily);
        }
    };
    if name.len() == 0 {
        return Err(BindError::EmptyName);
    }
    if behind.len() == 0 {
        return Ok(BindPattern::Interface { name: text::string_of(name), family, port: None });
    }
    if behind[0] != ':' {
        return Err(BindError::ExpectedPort);
    }
    let digits = slice_subrange(behind, 1, behind.len());
    assert(digits@ =~= behind@.skip(1));
    match text::parse_u16(digits) {
        Some(port) => Ok(BindPattern::Interface { name: text::string_of(name), family, port: Some(port) }),
        None => Err(BindError::InvalidPort),
    }
}

/// An address of a network interface.
pub struct InterfaceAddress {
    pub name: String,
    pub ip: IpAddr,
}

/// Why no address can be bound.
#[derive(Debug)]
pub enum ResolveError {
    Pattern(BindError),
    /// No interface has the name; the available ones are listed.
    UnknownInterface(String),
    /// The interface has no address of the family; its addresses are listed.
    NoAddress(String),
}

/// Whether an address serves a family. Link-local IPv6 addresses do not: a
/// stable address is wanted for binding.
pub open spec fn serves(family: Family, ip: IpAddr) -> bool {
    match family {
        Family::V4 => ip is V4,
        Family::V6 => ip is V6 && !ip.link_local_v6(),
    }
}

/// The addresses of the interface `name`.
pub open spec fn addresses_of(s: Seq<InterfaceAddress>, name: Seq<char>) -> Seq<IpAddr>
    decreases s.len(),
{
    if s.len() == 0 {
        seq![]
    } else if s.last().name@ == name {
        addresses_of(s.drop_last(), name).push(s.last().ip)
    } else {
        addresses_of(s.drop_last(), name)
    }
}

/// The first address that serves a family.
pub open spec fn first_serving(ips: Seq<IpAddr>, family: Family) -> Option<IpAddr>
    decreases ips.len(),
{
    if ips.len() == 0 {
        None
    } else if serves(family, ips[0]) {
        Some(ips[0])
    } else {
        first_serving(ips.drop_first(), family)
    }
}

/// An address with a port: IPv6 in brackets.
pub open spec fn with_port(ip: IpAddr, port: Option<u16>) -> Seq<char> {
    match port {
        None => ip.shown(),
        Some(p) => if ip is V6 {
            "["@ + ip.shown() + "]:"@ + text::decimal(p as nat)
        } else {
            ip.shown() + ":"@ + text::decimal(p as nat)
        },
    }
}

/// A name in the order of its characters.
pub struct Name {
    pub text: String,
}

impl Ranked for Name {
    open spec fn ranks_before(self, other: Self) -> bool {
        text::lex_le(self.text@, other.text@)
    }

    proof fn total(a: Self, b: Self) {
        text::lemma_lex_total(a.text@, b.text@);
    }

    proof fn transitive(a: Self, b: Self, c: Self) {
        text::lemma_lex_transitive(a.text@, b.text@, c.text@);
    }

    fn not_after(&self, other: &Self) -> (r: bool) {
        text::not_after(self.text.as_str(), other.text.as_str())
    }
}

/// `s` without an element that equals the one before it.
pub open spec fn without_repeats(s: Seq<Seq<char>>) -> Seq<Seq<char>>
    decreases s.len(),
{
    if s.len() <= 1 {
        s
    } else if s.last() == s[s.len() - 2] {
        without_repeats(s.drop_last())
    } else {
        without_repeats(s.drop_last()).push(s.last())
    }
}

pub open spec fn name_views(s: Seq<Name>) -> Seq<Seq<char>> {
    s.map_values(|n: Name| n.text@)
}

/// The distinct interface names in order. `names` are the interface names as
/// they come.
pub open spec fn available(names: Seq<Name>) -> Seq<Seq<char>> {
    without_repeats(name_views(order::sorted(names)))
}

pub open spec fn names_of(s: Seq<InterfaceAddress>, names: Seq<Name>) -> bool {
    &&& names.len() == s.len()
    &&& forall|i: int| 0 <= i < s.len() ==> (#[trigger] names[i]).text@ == s[i].name@
}

fn available_names(interfaces: &Vec<InterfaceAddress>) -> (r: Vec<String>)
    ensures
        exists|names: Seq<Name>| #[trigger] names_of(interfaces@, names) && text::views(r@) == available(names),
{
    let mut names: Vec<Name> = Vec::new();
    let mut i: usize = 0;
    while i < interfaces.len()
        invariant
            i <= interfaces@.len(),
            names@.len() == i,
            forall|k: int| 0 <= k < i ==> (#[trigger] names@[k]).text@ == interfaces@[k].name@,
        decreases interfaces@.len() - i,
    {
        names.push(Name { text: interfaces[i].name.clone() });
        i = i + 1;
    }
    let ghost names0 = names@;
    assert(names_of(interfaces@, names0));
    let rows = order::sort_vec(names);
    let ghost all = name_views(rows@);
    let mut out: Vec<String> = Vec::new();
    let mut j: usize = 0;
    assert(text::views(out@) =~= without_repeats(all.take(0)));
    while j < rows.len()
        invariant
            j <= rows@.len(),
            all == name_views(rows@),
            text::views(out@) == without_repeats(all.take(j as int)),
        decreases rows@.len() - j,
    {
        assert(all.take(j + 1).drop_last() =~= all.take(j as int));
        assert(all[j as int] == rows@[j as int].text@);
        let ghost o0 = text::views(out@);
        if j > 0 && text::str_eq(rows[j].text.as_str(), rows[j - 1].text.as_str()) {
            assert(all.take(j + 1)[j - 1] == rows@[j - 1].text@);
        } else {
            out.push(rows[j].text.clone());
            proof {
                assert(text::views(out@) =~= o0.push(rows@[j as int].text@));
                if j == 0 {
                    assert(without_repeats(all.take(1)) =~= all.take(1));
                    assert(text::views(out@) =~= all.take(1));
                } else {
                    assert(all.take(j + 1)[j - 1] == rows@[j - 1].text@);
                }
            }
        }
        j = j + 1;
    }
    assert(all.take(j as int) =~= all);
    out
}

pub open spec fn family_name(family: Family) -> Seq<char> {
    match family {
        Family::V4 => "IPv4"@,
        Family::V6 => "global IPv6"@,
    }
}

pub open spec fn shown_all(ips: Seq<IpAddr>) -> Seq<Seq<char>> {
    ips.map_values(|ip: IpAddr| ip.shown())
}

/// Whether `r` is the address that a bind value comes to, given the addresses
/// of the machine's interfaces.
pub open spec fn resolved_is(
    r: Result<String, ResolveError>,
    input: Seq<char>,
    interfaces: Seq<InterfaceAddress>,
) -> bool {
    match bind_of(input) {
        Err(e) => r matches Err(ResolveError::Pattern(p)) && p == e,
        Ok(Bind::Literal(s)) => r matches Ok(t) && t@ == s,
        Ok(Bind::Interface(name, family, port)) => {
            let ips = addresses_of(interfaces, name);
            if ips.len() == 0 {
                r matches Err(ResolveError::UnknownInterface(m)) && exists|names: Seq<Name>| #[trigger]
                    names_of(interfaces, names) && m@ == "interface \""@ + name
                        + "\" not found; available interfaces: "@ + text::joined(available(names), ", "@)
            } else {
                match first_serving(ips, family) {
                    Some(ip) => r matches Ok(t) && t@ == with_port(ip, port),
                    None => r matches Err(ResolveError::NoAddress(m)) && m@ == "interface \""@ + name + "\" has no "@
                        + family_name(family) + " address; addresses: "@ + text::joined(shown_all(ips), ", "@),
                }
            }
        },
    }
}

fn ip_serves(family: Family, ip: &IpAddr) -> (r: bool)
    ensures
        r == serves(family, *ip),
{
    match family {
        Family::V4 => ip.is_v4(),
        Family::V6 => !ip.is_v4() && !ip.is_link_local_v6(),
    }
}

fn address_text(ip: &IpAddr, port: Option<u16>) -> (r: String)
    ensures
        r@ == with_port(*ip, port),
{
    match port {
        None => ip.to_text(),
        Some(p) => {
            if ip.is_v4() {
                let mut out = ip.to_text();
                out.push_str(":");
                text::push_decimal(&mut out, p as u64);
                out
            } else {
                let mut out = text::owned("[");
                out.push_str(ip.to_text().as_str());
                out.push_str("]:");
                text::push_decimal(&mut out, p as u64);
                out
            }
        },
    }
}

/// Parses, then resolves an interface pattern to a bindable address string
/// (`ip:port`, `[v6]:port`, or bare IP when the pattern has no port), given
/// the addresses of the machine's interfaces. Literals are returned unchanged.
pub fn resolve_bind_addr(input: &str, interfaces: &Vec<InterfaceAddress>) -> (r: Result<String, ResolveError>)
    ensures
        resolved_is(r, input@, interfaces@),
{
    let (name, family, port) = match parse_bind_pattern(input) {
        Err(e) => return Err(ResolveError::Pattern(e)),
        Ok(BindPattern::Literal(s)) => return Ok(s),
        Ok(BindPattern::Interface { name, family, port }) => (name, family, port),
    };
    let mut at: Vec<usize> = Vec::new();
    let ghost ips = addresses_of(interfaces@, name@);
    let mut i: usize = 0;
    assert(addresses_of(interfaces@.take(0), name@) =~= seq![]);
    while i < interfaces.len()
        invariant
            i <= interfaces@.len(),
            at@.len() == addresses_of(interfaces@.take(i as int), name@).len(),
            forall|k: int|
                0 <= k < at@.len() ==> (#[trigger] at@[k]) < interfaces@.len() && interfaces@[at@[k] as int].ip
                    == addresses_of(interfaces@.take(i as int), name@)[k],
        decreases interfaces@.len() - i,
    {
        assert(interfaces@.take(i + 1).drop_last() =~= interfaces@.take(i as int));
        if text::str_eq(interfaces[i].name.as_str(), name.as_str()) {
            at.push(i);
        }
        i = i + 1;
    }
    assert(interfaces@.take(i as int) =~= interfaces@);
    if at.len() == 0 {
        let names = available_names(interfaces);
        let mut message = text::owned("interface \"");
        message.push_str(name.as_str());
        message.push_str("\" not found; available interfaces: ");
        message.push_str(text::join(&names, ", ").as_str());
        return Err(ResolveError::UnknownInterface(message));
    }
    let mut k: usize = 0;
    assert(ips.skip(0) =~= ips);
    while k < at.len()
        invariant
            k <= at@.len(),
            ips == addresses_of(interfaces@, name@),
            at@.len() == ips.len(),
            at@.len() > 0,
            forall|j: int|
                0 <= j < at@.len() ==> (#[trigger] at@[j]) < interfaces@.len() && interfaces@[at@[j] as int].ip == ips[j],
            first_serving(ips, family) == first_serving(ips.skip(k as int), family),
            bind_of(input@) == Ok::<Bind, BindError>(Bind::Interface(name@, family, port)),
        decreases at@.len() - k,
    {
        assert(ips.skip(k as int)[0] == ips[k as int]);
        assert(ips.skip(k as int).drop_first() =~= ips.skip(k + 1));
        let ip = &interfaces[at[k]].ip;
        if ip_serves(family, ip) {
            return Ok(address_text(ip, port));
        }
        k = k + 1;
    }
    let mut shown: Vec<String> = Vec::new();
    let mut j: usize = 0;
    while j < at.len()
        invariant
            j <= at@.len(),
            at@.len() == ips.len(),
            forall|m: int|
                0 <= m < at@.len() ==> (#[trigger] at@[m]) < interfaces@.len() && interfaces@[at@[m] as int].ip == ips[m],
            shown@.len() == j,
            forall|m: int| 0 <= m < j ==> (#[trigger] shown@[m])@ == ips[m].shown(),
        decreases at@.len() - j,
    {
        shown.push(interfaces[at[j]].ip.to_text());
        j = j + 1;
    }
    assert(text::views(shown@) =~= shown_all(ips));
    let wanted = match family {
        Family::V4 => "IPv4",
        Family::V6 => "global IPv6",
    };
    let mut message = text::owned("interface \"");
    message.push_str(name.as_str());
    message.push_str("\" has no ");
    message.push_str(wanted);
    message.push_str(" address; addresses: ");
    message.push_str(text::join(&shown, ", ").as_str());
    Err(ResolveError::NoAddress(message))
}

proof fn lemma_interface_text(name: Seq<char>, family: Seq<char>, behind: Seq<char>)
    requires
        name.len() > 0,
        !name.contains('%'),
        !name.contains('/'),
        !family.contains('%'),
        behind.len() > 0 ==> !text::is_ws(behind.last()),
    ensures
        ({
            let input = seq!['%'] + name + family + seq!['%'] + behind;
            let rest = input.skip(1);
            &&& text::trimmed(input) == input
            &&& input[0] == '%'
            &&& rest.contains('%')
            &&& text::before(rest, '%') == name + family
            &&& text::after(rest, '%') == behind
        }),
{
    let input = seq!['%'] + name + family + seq!['%'] + behind;
    let rest = input.skip(1);
    let inner = name + family;
    let none = Seq::<char>::empty();
    assert(input.last() == if behind.len() > 0 {
        behind.last()
    } else {
        '%'
    });
    assert(none + input + none =~= input);
    text::trimming_takes_off_white_space_alone(none, input, none);
    assert(rest =~= inner + seq!['%'] + behind);
    assert(rest[inner.len() as int] == '%');
    assert forall|k: int| 0 <= k < inner.len() implies rest[k] != '%' by {
        if k < name.len() {
            assert(rest[k] == name[k]);
            assert(name.contains(name[k]));
        } else {
            assert(rest[k] == family[k - name.len()]);
            assert(family.contains(family[k - name.len()]));
        }
    }
    text::lemma_first_at_is(rest, '%', inner.len() as int);
    assert(text::before(rest, '%') =~= inner);
    assert(text::after(rest, '%') =~= behind);
}

/// `%name%`, `%name/v4%` and `%name/v6%` name an interface and a family, IPv4
/// unless it says otherwise; a colon and a number behind it are the port.
pub proof fn a_bind_pattern_names_an_interface(name: Seq<char>, port: u16)
    requires
        name.len() > 0,
        !name.contains('%'),
        !name.contains('/'),
    ensures
        ({
            let behind = seq![':'] + text::decimal(port as nat);
            let none = Seq::<char>::empty();
            let v4 = seq!['/', 'v', '4'];
            let v6 = seq!['/', 'v', '6'];
            &&& bind_of(seq!['%'] + name + none + seq!['%'] + none) == Ok::<Bind, BindError>(
                Bind::Interface(name, Family::V4, None),
            )
            &&& bind_of(seq!['%'] + name + none + seq!['%'] + behind) == Ok::<Bind, BindError>(
                Bind::Interface(name, Family::V4, Some(port)),
            )
            &&& bind_of(seq!['%'] + name + v4 + seq!['%'] + behind) == Ok::<Bind, BindError>(
                Bind::Interface(name, Family::V4, Some(port)),
            )
            &&& bind_of(seq!['%'] + name + v6 + seq!['%'] + behind) == Ok::<Bind, BindError>(
                Bind::Interface(name, Family::V6, Some(port)),
            )
        }),
{
    reveal_strlit("v4");
    reveal_strlit("v6");
    let d = text::decimal(port as nat);
    let behind = seq![':'] + d;
    let none = Seq::<char>::empty();
    text::decimal_notation_reads_back(port as nat, u16::MAX as nat);
    assert(text::is_digit(d[d.len() - 1]));
    assert(behind.last() == d.last());
    assert(behind.skip(1) =~= d);
    lemma_interface_text(name, none, none);
    lemma_interface_text(name, none, behind);
    assert(name + none =~= name);
    text::lemma_first_at(name, '/');
    assert(text::before(name, '/') =~= name);
    lemma_family(name, '4');
    lemma_family(name, '6');
    lemma_interface_text(name, seq!['/', 'v', '4'], behind);
    lemma_interface_text(name, seq!['/', 'v', '6'], behind);
    assert("v4"@ =~= seq!['v', '4']);
    assert("v6"@ =~= seq!['v', '6']);
    assert("v4"@[1] != "v6"@[1]);
}

proof fn lemma_family(name: Seq<char>, digit: char)
    requires
        !name.contains('/'),
    ensures
        ({
            let inner = name + seq!['/', 'v', digit];
            &&& inner.contains('/')
            &&& text::before(inner, '/') == name
            &&& text::after(inner, '/') == seq!['v', digit]
        }),
{
    let inner = name + seq!['/', 'v', digit];
    assert(inner[name.len() as int] == '/');
    assert forall|k: int| 0 <= k < name.len() implies inner[k] != '/' by {
        assert(inner[k] == name[k]);
        assert(name.contains(name[k]));
    }
    text::lemma_first_at_is(inner, '/', name.len() as int);
    assert(text::before(inner, '/') =~= name);
    assert(text::after(inner, '/') =~= seq!['v', digit]);
}

/// A value that does not begin with a percent sign is an address as it is.
pub proof fn a_plain_bind_value_is_an_address(input: Seq<char>)
    requires
        text::trimmed(input).len() > 0 ==> text::trimmed(input)[0] != '%',
    ensures
        bind_of(input) == Ok::<Bind, BindError>(Bind::Literal(text::trimmed(input))),
{
}

/// An interface is bound by its first address of the family that is asked for,
/// whatever addresses of the other family and of other interfaces stand before
/// it; a link-local one does not serve.
pub proof fn the_first_address_of_the_family_is_bound(ips: Seq<IpAddr>, family: Family, i: int)
    requires
        0 <= i < ips.len(),
        family == Family::V4 ==> ips[i] is V4,
        family == Family::V6 ==> ips[i] is V6 && !ips[i].link_local_v6(),
        forall|k: int|
            0 <= k < i ==> if family == Family::V4 {
                (#[trigger] ips[k]) is V6
            } else {
                ips[k] is V4 || ips[k].link_local_v6()
            },
    ensures
        first_serving(ips, family) == Some(ips[i]),
    decreases ips.len(),
{
    if i > 0 {
        assert(if family == Family::V4 {
            ips[0] is V6
        } else {
            ips[0] is V4 || ips[0].link_local_v6()
        });
        let rest = ips.drop_first();
        assert forall|k: int| 0 <= k < i - 1 implies if family == Family::V4 {
            (#[trigger] rest[k]) is V6
        } else {
            rest[k] is V4 || rest[k].link_local_v6()
        } by {
            assert(rest[k] == ips[k + 1]);
        }
        the_first_address_of_the_family_is_bound(rest, family, i - 1);
    }
}

/// Every address of an interface is considered, and none of another one.
pub proof fn an_interface_has_its_own_addresses(s: Seq<InterfaceAddress>, name: Seq<char>, i: int)
    ensures
        0 <= i < s.len() && s[i].name@ == name ==> addresses_of(s, name).contains(s[i].ip),
        0 <= i < addresses_of(s, name).len() ==> exists|k: int|
            0 <= k < s.len() && (#[trigger] s[k]).name@ == name && s[k].ip == addresses_of(s, name)[i],
    decreases s.len(),
{
    if s.len() > 0 {
        let t = s.drop_last();
        let a = addresses_of(t, name);
        an_interface_has_its_own_addresses(t, name, i);
        if 0 <= i < t.len() && s[i].name@ == name {
            assert(t[i] == s[i]);
            let k = choose|k: int| 0 <= k < a.len() && a[k] == s[i].ip;
            assert(addresses_of(s, name)[k] == s[i].ip);
        }
        if i == t.len() && s[i].name@ == name {
            assert(addresses_of(s, name)[a.len() as int] == s[i].ip);
        }
        if 0 <= i < addresses_of(s, name).len() {
            if i < a.len() {
                let k = choose|k: int| 0 <= k < t.len() && (#[trigger] t[k]).name@ == name && t[k].ip == a[i];
                assert(s[k].name@ == name && s[k].ip == addresses_of(s, name)[i]);
            } else {
                assert(s[s.len() - 1].name@ == name && s[s.len() - 1].ip == addresses_of(s, name)[i]);
            }
        }
    }
}

} // verus!
