//! DNS overrides. Resolution priority (first hit wins):
//!   1. exact host:port
//!   2. exact host (any port)
//!   3. suffix rules with a port (longest suffix first)
//!   4. suffix rules without a port (longest suffix first)
//!   5. regex rules, in definition order (hostname-only match, optional port filter)
use vstd::prelude::*;
use vstd::slice::slice_subrange;
use crate::config::{DnsConfig, ExactDnsRule, RegexDnsRule, SuffixDnsRule};
use crate::order;
use crate::order::Ranked;
use crate::patterns;
use crate::table::Table;
use crate::text;

verus! {

pub struct SuffixRule {
    /// suffix with any leading dot removed, lowercased
    pub base: String,
    pub port: Option<u16>,
    pub to: String,
}

/// The length of a text in UTF-8.
pub open spec fn byte_length(s: Seq<char>) -> nat {
    vstd::utf8::encode_utf8(s).len()
}

impl Ranked for SuffixRule {
    /// Port-qualified rules first, then port-less; the longest base first
    /// within each group.
    open spec fn ranks_before(self, other: Self) -> bool {
        if self.port is Some && other.port is None {
            true
        } else if self.port is None && other.port is Some {
            false
        } else {
            byte_length(self.base@) >= byte_length(other.base@)
        }
    }

    proof fn total(a: Self, b: Self) {
    }

    proof fn transitive(a: Self, b: Self, c: Self) {
    }

    fn not_after(&self, other: &Self) -> (r: bool) {
        if self.port.is_some() && other.port.is_none() {
            true
        } else if self.port.is_none() && other.port.is_some() {
            false
        } else {
            self.base.as_str().as_bytes().len() >= other.base.as_str().as_bytes().len()
        }
    }
}

pub struct RegexRule {
    pub pattern: String,
    pub port: Option<u16>,
    pub to: String,
}

pub struct Tables {
    pub exact_with_port: Table<(String, u16), String>,
    pub exact_any_port: Table<String, String>,
    /// port-qualified rules first, then port-less; longest base first within each group
    pub suffix: Vec<SuffixRule>,
    pub regex: Vec<RegexRule>,
}

/// Host and port of a value that ends with `:<u16>`, else the value and no
/// port; the host in lower case.
pub open spec fn host_and_port(value: Seq<char>) -> (Seq<char>, Option<u16>) {
    let k = text::last_at(value, ':');
    let port = text::unsigned(value.skip(k + 1), u16::MAX as nat);
    if k >= 0 && port is Some {
        (text::lowercased(value.take(k)), Some(port->0 as u16))
    } else {
        (text::lowercased(value), None)
    }
}

/// Splits `value` into (host, Some(port)) when it ends with `:<u16>`,
/// (value, None) otherwise. IPv6 literals in brackets keep working because a
/// trailing `:port` is only recognized after the last colon.
pub fn split_host_port(value: &[char]) -> (r: (String, Option<u16>))
    ensures
        (r.0@, r.1) == host_and_port(value@),
{
    if let Some(k) = text::rfind(value, ':') {
        let tail = slice_subrange(value, k + 1, value.len());
        assert(tail@ =~= value@.skip(k + 1));
        if let Some(port) = text::parse_u16(tail) {
            let head = slice_subrange(value, 0, k);
            assert(head@ =~= value@.take(k as int));
            return (text::to_lowercase(text::string_of(head).as_str()), Some(port));
        }
    }
    (text::to_lowercase(text::string_of(value).as_str()), None)
}

/// The exact rules with a port, later ones in place of earlier ones.
pub open spec fn exact_ports(rules: Seq<ExactDnsRule>) -> Map<(Seq<char>, u16), Seq<char>>
    decreases rules.len(),
{
    if rules.len() == 0 {
        Map::empty()
    } else {
        let m = exact_ports(rules.drop_last());
        match host_and_port(text::trimmed(rules.last().from@)) {
            (host, Some(port)) => m.insert((host, port), rules.last().to@),
            _ => m,
        }
    }
}

/// The exact rules for any port, later ones in place of earlier ones.
pub open spec fn exact_hosts(rules: Seq<ExactDnsRule>) -> Map<Seq<char>, Seq<char>>
    decreases rules.len(),
{
    if rules.len() == 0 {
        Map::empty()
    } else {
        let m = exact_hosts(rules.drop_last());
        match host_and_port(text::trimmed(rules.last().from@)) {
            (host, None) => m.insert(host, rules.last().to@),
            _ => m,
        }
    }
}

/// A suffix rule as plain values: base, port and target.
pub open spec fn suffix_view(r: SuffixRule) -> (Seq<char>, Option<u16>, Seq<char>) {
    (r.base@, r.port, r.to@)
}

/// The suffix rules that have a base, in definition order.
pub open spec fn suffix_rules(rules: Seq<SuffixDnsRule>) -> Seq<(Seq<char>, Option<u16>, Seq<char>)>
    decreases rules.len(),
{
    if rules.len() == 0 {
        seq![]
    } else {
        let (suffix, port) = host_and_port(text::trimmed(rules.last().from@));
        let base = text::trimmed_start_of(suffix, '.');
        if base.len() == 0 {
            suffix_rules(rules.drop_last())
        } else {
            suffix_rules(rules.drop_last()).push((base, port, rules.last().to@))
        }
    }
}

pub open spec fn regex_view(r: RegexRule) -> (Seq<char>, Option<u16>, Seq<char>) {
    (r.pattern@, r.port, r.to@)
}

/// The regex rules whose pattern compiles, in definition order.
pub open spec fn regex_rules(rules: Seq<RegexDnsRule>) -> Seq<(Seq<char>, Option<u16>, Seq<char>)>
    decreases rules.len(),
{
    if rules.len() == 0 {
        seq![]
    } else if patterns::pattern_compiles(rules.last().hostname@, true) {
        regex_rules(rules.drop_last()).push((rules.last().hostname@, rules.last().port, rules.last().to@))
    } else {
        regex_rules(rules.drop_last())
    }
}

pub open spec fn texts_of<K>(m: Map<K, String>) -> Map<K, Seq<char>> {
    m.map_values(|s: String| s@)
}

/// Whether the tables hold the rules of a configuration.
pub open spec fn holds(t: Tables, dns: DnsConfig) -> bool {
    &&& t.exact_with_port.wf()
    &&& t.exact_any_port.wf()
    &&& texts_of(t.exact_with_port@) == exact_ports(dns.exact@)
    &&& texts_of(t.exact_any_port@) == exact_hosts(dns.exact@)
    &&& exists|rules: Seq<SuffixRule>| #[trigger]
        t.suffix@ == order::sorted(rules) && rules.map_values(|r: SuffixRule| suffix_view(r)) == suffix_rules(
            dns.suffix@,
        )
    &&& t.regex@.map_values(|r: RegexRule| regex_view(r)) == regex_rules(dns.regex@)
}

fn load_exact(rules: &Vec<ExactDnsRule>) -> (r: (Table<(String, u16), String>, Table<String, String>))
    ensures
        r.0.wf(),
        r.1.wf(),
        texts_of(r.0@) == exact_ports(rules@),
        texts_of(r.1@) == exact_hosts(rules@),
{
    let mut ports: Table<(String, u16), String> = Table::new();
    let mut hosts: Table<String, String> = Table::new();
    assert(texts_of(ports@) =~= Map::empty());
    assert(texts_of(hosts@) =~= Map::empty());
    let mut i: usize = 0;
    while i < rules.len()
        invariant
            i <= rules@.len(),
            ports.wf(),
            hosts.wf(),
            texts_of(ports@) == exact_ports(rules@.take(i as int)),
            texts_of(hosts@) == exact_hosts(rules@.take(i as int)),
        decreases rules@.len() - i,
    {
        assert(rules@.take(i + 1).drop_last() =~= rules@.take(i as int));
        let from = text::chars_of(rules[i].from.as_str());
        let (host, port) = split_host_port(text::trim(from.as_slice()));
        let to = rules[i].to.clone();
        match port {
            Some(p) => {
                let ghost m0 = ports@;
                ports.insert((host, p), to);
                assert(texts_of(ports@) =~= texts_of(m0).insert((host@, p), to@));
            },
            None => {
                let ghost m0 = hosts@;
                hosts.insert(host, to);
                assert(texts_of(hosts@) =~= texts_of(m0).insert(host@, to@));
            },
        }
        i = i + 1;
    }
    assert(rules@.take(i as int) =~= rules@);
    (ports, hosts)
}

fn load_suffix(rules: &Vec<SuffixDnsRule>) -> (r: Vec<SuffixRule>)
    ensures
        exists|found: Seq<SuffixRule>| #[trigger]
            r@ == order::sorted(found) && found.map_values(|r: SuffixRule| suffix_view(r)) == suffix_rules(rules@),
{
    let ghost f = |r: SuffixRule| suffix_view(r);
    let mut found: Vec<SuffixRule> = Vec::new();
    assert(found@.map_values(f) =~= seq![]);
    let mut i: usize = 0;
    while i < rules.len()
        invariant
            i <= rules@.len(),
            f == (|r: SuffixRule| suffix_view(r)),
            found@.map_values(f) == suffix_rules(rules@.take(i as int)),
        decreases rules@.len() - i,
    {
        assert(rules@.take(i + 1).drop_last() =~= rules@.take(i as int));
        let from = text::chars_of(rules[i].from.as_str());
        let (suffix, port) = split_host_port(text::trim(from.as_slice()));
        let s = text::chars_of(suffix.as_str());
        let base = text::trim_start_of(s.as_slice(), '.');
        if base.len() > 0 {
            let ghost m0 = found@.map_values(f);
            let rule = SuffixRule { base: text::string_of(base), port, to: rules[i].to.clone() };
            let ghost v = suffix_view(rule);
            found.push(rule);
            assert(found@.map_values(f) =~= m0.push(v));
        }
        i = i + 1;
    }
    assert(rules@.take(i as int) =~= rules@);
    let ghost all = found@;
    let r = order::sort_vec(found);
    assert(r@ == order::sorted(all));
    r
}

fn load_regex(rules: &Vec<RegexDnsRule>) -> (r: Vec<RegexRule>)
    ensures
        r@.map_values(|r: RegexRule| regex_view(r)) == regex_rules(rules@),
{
    let ghost f = |r: RegexRule| regex_view(r);
    let mut found: Vec<RegexRule> = Vec::new();
    assert(found@.map_values(f) =~= seq![]);
    let mut i: usize = 0;
    while i < rules.len()
        invariant
            i <= rules@.len(),
            f == (|r: RegexRule| regex_view(r)),
            found@.map_values(f) == regex_rules(rules@.take(i as int)),
        decreases rules@.len() - i,
    {
        assert(rules@.take(i + 1).drop_last() =~= rules@.take(i as int));
        if patterns::compiles(rules[i].hostname.as_str(), true) {
            let ghost m0 = found@.map_values(f);
            let rule = RegexRule { pattern: rules[i].hostname.clone(), port: rules[i].port, to: rules[i].to.clone() };
            let ghost v = regex_view(rule);
            found.push(rule);
            assert(found@.map_values(f) =~= m0.push(v));
        }
        i = i + 1;
    }
    assert(rules@.take(i as int) =~= rules@);
    found
}

/// Builds the override tables of a configuration. An empty suffix and a
/// pattern that does not compile are skipped.
pub fn init(dns: &DnsConfig) -> (r: Tables)
    ensures
        holds(r, *dns),
{
    let (exact_with_port, exact_any_port) = load_exact(&dns.exact);
    let suffix = load_suffix(&dns.suffix);
    let regex = load_regex(&dns.regex);
    Tables { exact_with_port, exact_any_port, suffix, regex }
}

/// Whether `host` equals `base` or ends with `.base` (label boundary).
pub open spec fn ends_in(host: Seq<char>, base: Seq<char>) -> bool {
    host == base || text::finishes(host, "."@ + base)
}

pub fn suffix_matches(host: &str, base: &str) -> (r: bool)
    ensures
        r == ends_in(host@, base@),
{
    let h = text::chars_of(host);
    let b = text::chars_of(base);
    if text::same(h.as_slice(), b.as_slice()) {
        return true;
    }
    let mut dotted = text::owned(".");
    dotted.push_str(base);
    let d = text::chars_of(dotted.as_str());
    text::ends_with(h.as_slice(), d.as_slice())
}

/// A host is under a suffix only at a label boundary: the character before the
/// suffix is a dot.
pub proof fn suffixes_respect_label_boundaries(host: Seq<char>, base: Seq<char>)
    requires
        ends_in(host, base),
        host != base,
    ensures
        host.len() > base.len(),
        host[host.len() - base.len() - 1] == '.',
        host.skip(host.len() - base.len()) == base,
{
    reveal_strlit(".");
    let d = "."@ + base;
    let t = host.skip(host.len() - d.len());
    assert(t == d);
    assert(t[0] == '.');
    assert(host.skip(host.len() - base.len()) =~= t.skip(1));
    assert(d.skip(1) =~= base);
}

/// Every host under a suffix matches, however many labels stand in front, and
/// so does the bare suffix.
pub proof fn every_host_under_a_suffix_matches(front: Seq<char>, base: Seq<char>)
    ensures
        ends_in(base, base),
        ends_in(front.push('.') + base, base),
{
    reveal_strlit(".");
    let host = front.push('.') + base;
    let d = "."@ + base;
    assert(host.skip(host.len() - d.len()) =~= d);
}

pub open spec fn port_fits(rule: Option<u16>, port: u16) -> bool {
    rule is Some ==> rule->0 == port
}

/// The target of the first suffix rule that fits.
pub open spec fn by_suffix(rules: Seq<SuffixRule>, host: Seq<char>, port: u16) -> Option<Seq<char>>
    decreases rules.len(),
{
    if rules.len() == 0 {
        None
    } else if port_fits(rules[0].port, port) && ends_in(host, rules[0].base@) {
        Some(rules[0].to@)
    } else {
        by_suffix(rules.drop_first(), host, port)
    }
}

/// The target of the first regex rule that fits.
pub open spec fn by_regex(rules: Seq<RegexRule>, host: Seq<char>, port: u16) -> Option<Seq<char>>
    decreases rules.len(),
{
    if rules.len() == 0 {
        None
    } else if port_fits(rules[0].port, port) && patterns::pattern_compiles(rules[0].pattern@, true)
        && patterns::pattern_matches(rules[0].pattern@, true, host) {
        Some(rules[0].to@)
    } else {
        by_regex(rules.drop_first(), host, port)
    }
}

/// The override for a host in lower case.
pub open spec fn override_for(t: Tables, host: Seq<char>, port: u16) -> Option<Seq<char>> {
    if t.exact_with_port@.dom().contains((host, port)) {
        Some(t.exact_with_port@[(host, port)]@)
    } else if t.exact_any_port@.dom().contains(host) {
        Some(t.exact_any_port@[host]@)
    } else if by_suffix(t.suffix@, host, port) is Some {
        by_suffix(t.suffix@, host, port)
    } else {
        by_regex(t.regex@, host, port)
    }
}

fn find_suffix<'a>(rules: &'a Vec<SuffixRule>, host: &str, port: u16) -> (r: Option<&'a String>)
    ensures
        match by_suffix(rules@, host@, port) {
            Some(to) => r is Some && r->0@ == to,
            None => r is None,
        },
{
    let mut i: usize = 0;
    assert(rules@.skip(0) =~= rules@);
    while i < rules.len()
        invariant
            i <= rules@.len(),
            by_suffix(rules@, host@, port) == by_suffix(rules@.skip(i as int), host@, port),
        decreases rules@.len() - i,
    {
        assert(rules@.skip(i as int)[0] == rules@[i as int]);
        assert(rules@.skip(i as int).drop_first() =~= rules@.skip(i + 1));
        let fits = match rules[i].port {
            Some(p) => p == port,
            None => true,
        };
        if fits && suffix_matches(host, rules[i].base.as_str()) {
            return Some(&rules[i].to);
        }
        i = i + 1;
    }
    None
}

fn find_regex<'a>(rules: &'a Vec<RegexRule>, host: &str, port: u16) -> (r: Option<&'a String>)
    ensures
        match by_regex(rules@, host@, port) {
            Some(to) => r is Some && r->0@ == to,
            None => r is None,
        },
{
    let mut i: usize = 0;
    assert(rules@.skip(0) =~= rules@);
    while i < rules.len()
        invariant
            i <= rules@.len(),
            by_regex(rules@, host@, port) == by_regex(rules@.skip(i as int), host@, port),
        decreases rules@.len() - i,
    {
        assert(rules@.skip(i as int)[0] == rules@[i as int]);
        assert(rules@.skip(i as int).drop_first() =~= rules@.skip(i + 1));
        let fits = match rules[i].port {
            Some(p) => p == port,
            None => true,
        };
        if fits {
            if let Some(true) = patterns::is_match(rules[i].pattern.as_str(), true, host) {
                return Some(&rules[i].to);
            }
        }
        i = i + 1;
    }
    None
}

impl Tables {
    /// Tables without any rule.
    pub fn empty() -> (r: Tables)
        ensures
            r.exact_with_port.wf(),
            r.exact_any_port.wf(),
            r.exact_with_port@ == Map::<(Seq<char>, u16), String>::empty(),
            r.exact_any_port@ == Map::<Seq<char>, String>::empty(),
            r.suffix@.len() == 0,
            r.regex@.len() == 0,
    {
        Tables {
            exact_with_port: Table::new(),
            exact_any_port: Table::new(),
            suffix: Vec::new(),
            regex: Vec::new(),
        }
    }

    /// How many rules are loaded.
    pub fn count(&self) -> (r: usize)
        requires
            self.exact_with_port.wf(),
            self.exact_any_port.wf(),
            self.exact_with_port@.dom().len() + self.exact_any_port@.dom().len() + self.suffix@.len()
                + self.regex@.len() <= usize::MAX,
        ensures
            r == self.exact_with_port@.dom().len() + self.exact_any_port@.dom().len() + self.suffix@.len()
                + self.regex@.len(),
    {
        self.exact_with_port.len() + self.exact_any_port.len() + self.suffix.len() + self.regex.len()
    }
}

/// Resolves an override for `host` (an SNI hostname, no port) and `port`.
/// Returns the replacement target (`host` or `host:port`) or None when no
/// rule matches and normal DNS should apply.
pub fn resolve(tables: &Tables, host: &str, port: u16) -> (r: Option<String>)
    requires
        tables.exact_with_port.wf(),
        tables.exact_any_port.wf(),
    ensures
        match override_for(*tables, text::lowercased(host@), port) {
            Some(to) => r is Some && r->0@ == to,
            None => r is None,
        },
{
    let low = text::to_lowercase(host);
    if let Some(to) = tables.exact_with_port.get(&(low.clone(), port)) {
        return Some(to.clone());
    }
    if let Some(to) = tables.exact_any_port.get(&low) {
        return Some(to.clone());
    }
    if let Some(to) = find_suffix(&tables.suffix, low.as_str(), port) {
        return Some(to.clone());
    }
    match find_regex(&tables.regex, low.as_str(), port) {
        Some(to) => Some(to.clone()),
        None => None,
    }
}

/// A suffix rule with a port is looked at before one without, and a longer
/// suffix before a shorter one of its group.
pub proof fn suffix_rules_are_ranked(t: Tables, dns: DnsConfig, i: int, j: int)
    requires
        holds(t, dns),
        0 <= i < j < t.suffix@.len(),
    ensures
        t.suffix@[j].port is Some ==> t.suffix@[i].port is Some,
        (t.suffix@[i].port is Some <==> t.suffix@[j].port is Some) ==> byte_length(t.suffix@[i].base@)
            >= byte_length(t.suffix@[j].base@),
{
    let rules = choose|rules: Seq<SuffixRule>| #[trigger]
        t.suffix@ == order::sorted(rules) && rules.map_values(|r: SuffixRule| suffix_view(r)) == suffix_rules(
            dns.suffix@,
        );
    order::sorted_is_an_ordered_permutation(rules);
    assert(t.suffix@[i].ranks_before(t.suffix@[j]));
}

/// Whether a rule is about a host and a port: the bare base or a host under it,
/// on its port if it names one.
pub open spec fn is_about(rule: SuffixRule, host: Seq<char>, port: u16) -> bool {
    &&& rule.port is None || rule.port == Some(port)
    &&& host == rule.base@ || exists|front: Seq<char>| host == #[trigger] front.push('.') + rule.base@
}

proof fn lemma_is_about(rule: SuffixRule, host: Seq<char>, port: u16)
    ensures
        is_about(rule, host, port) == (port_fits(rule.port, port) && ends_in(host, rule.base@)),
{
    let base = rule.base@;
    if ends_in(host, base) && host != base {
        suffixes_respect_label_boundaries(host, base);
        let front = host.take(host.len() - base.len() - 1);
        assert(host =~= front.push('.') + base);
    }
    if exists|front: Seq<char>| host == #[trigger] front.push('.') + base {
        let front = choose|front: Seq<char>| host == #[trigger] front.push('.') + base;
        every_host_under_a_suffix_matches(front, base);
    }
}

/// The first suffix rule about a host and a port decides: one that names no
/// port or that port, and whose base is the host or what stands behind a dot
/// of it. Without such a rule no suffix decides.
pub proof fn the_first_suffix_rule_about_a_host_decides(rules: Seq<SuffixRule>, host: Seq<char>, port: u16, i: int)
    requires
        0 <= i < rules.len(),
        is_about(rules[i], host, port),
        forall|k: int| 0 <= k < i ==> !is_about(#[trigger] rules[k], host, port),
    ensures
        by_suffix(rules, host, port) == Some(rules[i].to@),
    decreases rules.len(),
{
    lemma_is_about(rules[0], host, port);
    let rest = rules.drop_first();
    if i > 0 {
        assert forall|k: int| 0 <= k < i - 1 implies !is_about(#[trigger] rest[k], host, port) by {
            assert(rest[k] == rules[k + 1]);
        }
        assert(rest[i - 1] == rules[i]);
        the_first_suffix_rule_about_a_host_decides(rest, host, port, i - 1);
    }
}

/// A suffix decides only through a rule about the host and the port.
pub proof fn a_suffix_decides_by_a_rule_about_the_host(rules: Seq<SuffixRule>, host: Seq<char>, port: u16) -> (i: int)
    requires
        by_suffix(rules, host, port) is Some,
    ensures
        0 <= i < rules.len(),
        by_suffix(rules, host, port) == Some(rules[i].to@),
        rules[i].port is None || rules[i].port == Some(port),
        host == rules[i].base@ || exists|front: Seq<char>| host == #[trigger] front.push('.') + rules[i].base@,
    decreases rules.len(),
{
    lemma_is_about(rules[0], host, port);
    if port_fits(rules[0].port, port) && ends_in(host, rules[0].base@) {
        0
    } else {
        let k = a_suffix_decides_by_a_rule_about_the_host(rules.drop_first(), host, port);
        assert(rules.drop_first()[k] == rules[k + 1]);
        k + 1
    }
}

/// The first pattern that matches a host on its port decides among patterns.
pub proof fn the_first_matching_pattern_decides(rules: Seq<RegexRule>, host: Seq<char>, port: u16, i: int)
    requires
        0 <= i < rules.len(),
        rules[i].port is None || rules[i].port == Some(port),
        patterns::pattern_compiles(rules[i].pattern@, true),
        patterns::pattern_matches(rules[i].pattern@, true, host),
        forall|k: int|
            0 <= k < i ==> ((#[trigger] rules[k]).port is Some && rules[k].port != Some(port))
                || !patterns::pattern_matches(rules[k].pattern@, true, host),
    ensures
        by_regex(rules, host, port) == Some(rules[i].to@),
    decreases rules.len(),
{
    if i > 0 {
        let rest = rules.drop_first();
        assert(rules[0].port is Some && rules[0].port != Some(port) || !patterns::pattern_matches(
            rules[0].pattern@,
            true,
            host,
        ));
        assert forall|k: int| 0 <= k < i - 1 implies ((#[trigger] rest[k]).port is Some && rest[k].port != Some(port))
            || !patterns::pattern_matches(rest[k].pattern@, true, host) by {
            assert(rest[k] == rules[k + 1]);
        }
        the_first_matching_pattern_decides(rest, host, port, i - 1);
    }
}

/// Overrides are ranked: an exact rule for host and port, then an exact rule for
/// the host, then suffixes, then patterns.
pub proof fn overrides_are_ranked(t: Tables, host: Seq<char>, port: u16)
    ensures
        t.exact_with_port@.dom().contains((host, port)) ==> override_for(t, host, port) == Some(
            t.exact_with_port@[(host, port)]@,
        ),
        !t.exact_with_port@.dom().contains((host, port)) && t.exact_any_port@.dom().contains(host) ==> override_for(
            t,
            host,
            port,
        ) == Some(t.exact_any_port@[host]@),
        !t.exact_with_port@.dom().contains((host, port)) && !t.exact_any_port@.dom().contains(host) && by_suffix(
            t.suffix@,
            host,
            port,
        ) is Some ==> override_for(t, host, port) == by_suffix(t.suffix@, host, port),
        !t.exact_with_port@.dom().contains((host, port)) && !t.exact_any_port@.dom().contains(host) && by_suffix(
            t.suffix@,
            host,
            port,
        ) is None ==> override_for(t, host, port) == by_regex(t.regex@, host, port),
{
}

/// The last exact rule for a host and a port is the one that holds, and rules
/// for other hosts and ports do not disturb it.
pub proof fn the_last_exact_rule_holds(rules: Seq<ExactDnsRule>, i: int, host: Seq<char>, port: Option<u16>)
    requires
        0 <= i < rules.len(),
        host_and_port(text::trimmed(rules[i].from@)) == (host, port),
        forall|k: int| i < k < rules.len() ==> host_and_port(text::trimmed((#[trigger] rules[k]).from@)) != (host, port),
    ensures
        port matches Some(p) ==> exact_ports(rules).dom().contains((host, p)) && exact_ports(rules)[(host, p)]
            == rules[i].to@,
        port is None ==> exact_hosts(rules).dom().contains(host) && exact_hosts(rules)[host] == rules[i].to@,
    decreases rules.len(),
{
    let t = rules.drop_last();
    if i < t.len() {
        assert(t[i] == rules[i]);
        assert forall|k: int| i < k < t.len() implies host_and_port(text::trimmed((#[trigger] t[k]).from@)) != (
            host,
            port,
        ) by {
            assert(t[k] == rules[k]);
        }
        the_last_exact_rule_holds(t, i, host, port);
        assert(host_and_port(text::trimmed(rules[rules.len() - 1].from@)) != (host, port));
    }
}

/// A port behind the last colon is split off; without one the whole value is
/// the host. Either way the host is put in lower case.
pub proof fn a_port_is_split_off_at_the_last_colon(host: Seq<char>, port: u16)
    ensures
        host_and_port(host.push(':') + text::decimal(port as nat)) == (text::lowercased(host), Some(port)),
        !host.contains(':') ==> host_and_port(host) == (text::lowercased(host), None::<u16>),
{
    let d = text::decimal(port as nat);
    let value = host.push(':') + d;
    text::decimal_notation_reads_back(port as nat, u16::MAX as nat);
    text::lemma_digits_hold_nothing_else(d, ':');
    text::lemma_last_at(value, ':');
    let k = text::last_at(value, ':');
    assert(value[host.len() as int] == ':');
    if k > host.len() {
        assert(value[k] == d[k - host.len() - 1]);
        assert(d.contains(d[k - host.len() - 1]));
    }
    assert(value.skip(k + 1) =~= d);
    assert(value.take(k) =~= host);
    if !host.contains(':') {
        text::lemma_last_at(host, ':');
        if text::last_at(host, ':') >= 0 {
            assert(host.contains(host[text::last_at(host, ':')]));
        }
    }
}

/// Every suffix rule that names something counts, with its port and its target;
/// dots in front of it do not matter.
pub proof fn every_suffix_rule_counts(rules: Seq<SuffixDnsRule>, i: int)
    requires
        0 <= i < rules.len(),
        text::trimmed_start_of(host_and_port(text::trimmed(rules[i].from@)).0, '.').len() > 0,
    ensures
        suffix_rules(rules).contains(
            (
                text::trimmed_start_of(host_and_port(text::trimmed(rules[i].from@)).0, '.'),
                host_and_port(text::trimmed(rules[i].from@)).1,
                rules[i].to@,
            ),
        ),
    decreases rules.len(),
{
    let t = rules.drop_last();
    let all = suffix_rules(rules);
    let row = (
        text::trimmed_start_of(host_and_port(text::trimmed(rules[i].from@)).0, '.'),
        host_and_port(text::trimmed(rules[i].from@)).1,
        rules[i].to@,
    );
    if i < t.len() {
        assert(t[i] == rules[i]);
        every_suffix_rule_counts(t, i);
        let done = suffix_rules(t);
        let k = choose|k: int| 0 <= k < done.len() && done[k] == row;
        assert(all[k] == row);
    } else {
        assert(all[all.len() - 1] == row);
    }
}

/// Every pattern rule whose pattern is a regular expression counts.
pub proof fn every_pattern_rule_counts(rules: Seq<RegexDnsRule>, i: int)
    requires
        0 <= i < rules.len(),
        patterns::pattern_compiles(rules[i].hostname@, true),
    ensures
        regex_rules(rules).contains((rules[i].hostname@, rules[i].port, rules[i].to@)),
    decreases rules.len(),
{
    let t = rules.drop_last();
    let all = regex_rules(rules);
    let row = (rules[i].hostname@, rules[i].port, rules[i].to@);
    if i < t.len() {
        assert(t[i] == rules[i]);
        every_pattern_rule_counts(t, i);
        let done = regex_rules(t);
        let k = choose|k: int| 0 <= k < done.len() && done[k] == row;
        assert(all[k] == row);
    } else {
        assert(all[all.len() - 1] == row);
    }
}

/// Suffix rules for a port come before those for any port, and among these the
/// longer suffix comes first.
pub proof fn the_closer_suffix_rule_comes_first(rules: Seq<SuffixRule>, i: int, j: int)
    requires
        0 <= i < j < rules.len(),
    ensures
        ({
            let a = order::sorted(rules)[i];
            let b = order::sorted(rules)[j];
            &&& b.port is Some ==> a.port is Some
            &&& a.port is Some == b.port is Some ==> vstd::utf8::encode_utf8(a.base@).len() >= vstd::utf8::encode_utf8(
                b.base@,
            ).len()
        }),
{
    order::sorted_is_an_ordered_permutation(rules);
    let a = order::sorted(rules)[i];
    let b = order::sorted(rules)[j];
    assert(a.ranks_before(b));
}

} // verus!
