//! Access rules: a white list and a black list of hosts and patterns.
use vstd::prelude::*;
use crate::json;
use crate::patterns;
use crate::text;

verus! {

#[derive(Debug)]
pub struct RuleSet {
    pub default_allow: bool,
    pub allowed_all: bool,
    pub rejected_all: bool,
    pub allowed_static_hosts: Vec<String>,
    pub rejected_static_hosts: Vec<String>,
    pub allowed_patterns: Vec<String>,
    pub rejected_patterns: Vec<String>,
}

#[derive(Debug)]
pub struct RuleSetRaw {
    pub no_match_decision: String,
    pub whitelist: Vec<String>,
    pub blacklist: Vec<String>,
}

/// What is wrong with a rule set.
#[derive(Debug, Clone, Copy, PartialEq, Eq, Structural)]
pub enum RuleFault {
    /// `no_match_decision` is missing.
    MissingDecision,
    /// `no_match_decision` is neither allow nor reject.
    UnknownDecision,
    /// A rule begins with neither `host:` nor `pattern:`.
    UnknownRule,
    /// A pattern is no regular expression.
    InvalidPattern,
    /// The text is no JSON.
    NotJson,
    /// A field of the document is missing.
    MissingField,
}

/// Why a rule set is refused: what is wrong with it, and the decision, the
/// rule, the field or the fault of the pattern or the text that the message
/// names.
#[derive(Debug)]
pub struct RuleError {
    pub fault: RuleFault,
    pub named: String,
}

impl RuleFault {
    pub open spec fn text(self, named: Seq<char>) -> Seq<char> {
        match self {
            RuleFault::MissingDecision => "required field `no_match_decision` not found"@,
            RuleFault::UnknownDecision => "unknown decision ["@ + named + "], expect allow|reject"@,
            RuleFault::UnknownRule => "Unknown rule ["@ + named + "], expect to begin with `host:` or `pattern:`"@,
            RuleFault::InvalidPattern => named,
            RuleFault::NotJson => named,
            RuleFault::MissingField => "required field `"@ + named + "` not found"@,
        }
    }
}

impl RuleError {
    pub fn message(&self) -> (r: String)
        ensures
            r@ == self.fault.text(self.named@),
    {
        match self.fault {
            RuleFault::MissingDecision => text::owned("required field `no_match_decision` not found"),
            RuleFault::UnknownDecision => {
                let mut out = text::owned("unknown decision [");
                out.push_str(self.named.as_str());
                out.push_str("], expect allow|reject");
                out
            },
            RuleFault::UnknownRule => {
                let mut out = text::owned("Unknown rule [");
                out.push_str(self.named.as_str());
                out.push_str("], expect to begin with `host:` or `pattern:`");
                out
            },
            RuleFault::InvalidPattern => self.named.clone(),
            RuleFault::NotJson => self.named.clone(),
            RuleFault::MissingField => {
                let mut out = text::owned("required field `");
                out.push_str(self.named.as_str());
                out.push_str("` not found");
                out
            },
        }
    }
}

/// A list of rules, taken apart.
pub struct Lists {
    pub all: bool,
    pub hosts: Seq<Seq<char>>,
    pub patterns: Seq<Seq<char>>,
}

/// A pattern that is matched without regard to case.
pub open spec fn folded(pattern: Seq<char>) -> Seq<char> {
    if text::begins(pattern, "(?i)"@) {
        pattern
    } else {
        "(?i)"@ + pattern
    }
}

/// The rules of a list, in lower case, up to the first one that is refused.
pub open spec fn lists_of(rules: Seq<Seq<char>>) -> Result<Lists, (RuleFault, Seq<char>)>
    decreases rules.len(),
{
    if rules.len() == 0 {
        Ok(Lists { all: false, hosts: seq![], patterns: seq![] })
    } else {
        match lists_of(rules.drop_last()) {
            Err(e) => Err(e),
            Ok(l) => {
                let rule = text::lowercased(rules.last());
                if rule == "$any"@ {
                    Ok(Lists { all: true, hosts: l.hosts, patterns: l.patterns })
                } else if text::begins(rule, "host:"@) {
                    Ok(Lists { all: l.all, hosts: l.hosts.push(rule.skip(5)), patterns: l.patterns })
                } else if text::begins(rule, "pattern:"@) {
                    match patterns::pattern_fault(folded(rule.skip(8)), false) {
                        None => Ok(
                            Lists { all: l.all, hosts: l.hosts, patterns: l.patterns.push(folded(rule.skip(8))) },
                        ),
                        Some(fault) => Err((RuleFault::InvalidPattern, fault)),
                    }
                } else {
                    Err((RuleFault::UnknownRule, rule))
                }
            },
        }
    }
}

proof fn lemma_lists_error(rules: Seq<Seq<char>>, n: int)
    requires
        0 <= n <= rules.len(),
        lists_of(rules.take(n)) is Err,
    ensures
        lists_of(rules) == lists_of(rules.take(n)),
    decreases rules.len() - n,
{
    if n == rules.len() {
        assert(rules.take(n) =~= rules);
    } else {
        assert(rules.take(n + 1).drop_last() =~= rules.take(n));
        lemma_lists_error(rules, n + 1);
    }
}

/// The strings of a JSON array that are not empty; nothing of another value.
pub open spec fn strings_of(v: Seq<json::Document>) -> Seq<Seq<char>>
    decreases v.len(),
{
    if v.len() == 0 {
        seq![]
    } else {
        match v.last() {
            json::Document::Text(s) => if s.len() > 0 {
                strings_of(v.drop_last()).push(s)
            } else {
                strings_of(v.drop_last())
            },
            _ => strings_of(v.drop_last()),
        }
    }
}

pub open spec fn list_of(v: json::Document) -> Seq<Seq<char>> {
    match v {
        json::Document::Array(items) => strings_of(items),
        _ => seq![],
    }
}

pub open spec fn string_of(v: json::Document) -> Seq<char> {
    match v {
        json::Document::Text(s) => s,
        _ => seq![],
    }
}

/// The decision for hosts that no rule names.
pub open spec fn default_decision(decision: Seq<char>) -> Result<bool, (RuleFault, Seq<char>)> {
    let d = text::lowercased(decision);
    if d == "accept"@ || d == "allow"@ {
        Ok(true)
    } else if d == "reject"@ || d == "deny"@ {
        Ok(false)
    } else if d == ""@ {
        Err((RuleFault::MissingDecision, seq![]))
    } else {
        Err((RuleFault::UnknownDecision, decision))
    }
}

/// Whether `r` is the rule set of a decision and two lists. The decision is
/// looked at first, then the white list, then the black list.
pub open spec fn generated(
    r: Result<RuleSet, RuleError>,
    decision: Seq<char>,
    whitelist: Seq<Seq<char>>,
    blacklist: Seq<Seq<char>>,
) -> bool {
    match (default_decision(decision), lists_of(whitelist), lists_of(blacklist)) {
        (Err(e), _, _) => r is Err && r->Err_0.fault == e.0 && r->Err_0.named@ == e.1,
        (Ok(_), Err(e), _) => r is Err && r->Err_0.fault == e.0 && r->Err_0.named@ == e.1,
        (Ok(_), Ok(_), Err(e)) => r is Err && r->Err_0.fault == e.0 && r->Err_0.named@ == e.1,
        (Ok(allow), Ok(white), Ok(black)) => r matches Ok(s) && {
            &&& s.default_allow == allow
            &&& s.allowed_all == white.all
            &&& text::views(s.allowed_static_hosts@) == white.hosts
            &&& text::views(s.allowed_patterns@) == white.patterns
            &&& s.rejected_all == black.all
            &&& text::views(s.rejected_static_hosts@) == black.hosts
            &&& text::views(s.rejected_patterns@) == black.patterns
        },
    }
}

struct Built {
    all: bool,
    hosts: Vec<String>,
    patterns: Vec<String>,
}

fn build_lists(rules: &Vec<String>) -> (r: Result<Built, RuleError>)
    ensures
        match lists_of(text::views(rules@)) {
            Ok(l) => r is Ok && r->Ok_0.all == l.all && text::views(r->Ok_0.hosts@) == l.hosts && text::views(
                r->Ok_0.patterns@,
            ) == l.patterns,
            Err(e) => r is Err && r->Err_0.fault == e.0 && r->Err_0.named@ == e.1,
        },
{
    let ghost all_rules = text::views(rules@);
    let mut all = false;
    let mut hosts: Vec<String> = Vec::new();
    let mut found: Vec<String> = Vec::new();
    let host_prefix = text::chars_of("host:");
    let pattern_prefix = text::chars_of("pattern:");
    let fold_prefix = text::chars_of("(?i)");
    proof {
        reveal_strlit("host:");
        reveal_strlit("pattern:");
    }
    let mut i: usize = 0;
    assert(text::views(hosts@) =~= seq![]);
    assert(text::views(found@) =~= seq![]);
    while i < rules.len()
        invariant
            i <= rules@.len(),
            all_rules == text::views(rules@),
            host_prefix@ == "host:"@,
            host_prefix@.len() == 5,
            pattern_prefix@ == "pattern:"@,
            pattern_prefix@.len() == 8,
            fold_prefix@ == "(?i)"@,
            lists_of(all_rules.take(i as int)) == Ok::<Lists, (RuleFault, Seq<char>)>(
                (Lists { all, hosts: text::views(hosts@), patterns: text::views(found@) }),
            ),
        decreases rules@.len() - i,
    {
        assert(all_rules.take(i + 1).drop_last() =~= all_rules.take(i as int));
        proof {
            if lists_of(all_rules.take(i + 1)) is Err {
                lemma_lists_error(all_rules, i + 1);
            }
        }
        let rule = text::chars_of(text::to_lowercase(rules[i].as_str()).as_str());
        assert(rule@ == text::lowercased(all_rules[i as int]));
        if text::is(rule.as_slice(), "$any") {
            all = true;
        } else if let Some(host) = text::strip_prefix(rule.as_slice(), host_prefix.as_slice()) {
            let ghost h0 = text::views(hosts@);
            hosts.push(text::string_of(host));
            assert(text::views(hosts@) =~= h0.push(rule@.skip(5)));
        } else if let Some(pattern) = text::strip_prefix(rule.as_slice(), pattern_prefix.as_slice()) {
            let text_of = if text::starts_with(pattern, fold_prefix.as_slice()) {
                text::string_of(pattern)
            } else {
                let mut t = text::owned("(?i)");
                text::push_chars(&mut t, pattern);
                t
            };
            assert(text_of@ == folded(rule@.skip(8)));
            if let Some(named) = patterns::fault(text_of.as_str(), false) {
                return Err(RuleError { fault: RuleFault::InvalidPattern, named });
            }
            let ghost f0 = text::views(found@);
            found.push(text_of);
            assert(text::views(found@) =~= f0.push(folded(rule@.skip(8))));
        } else {
            return Err(RuleError { fault: RuleFault::UnknownRule, named: text::string_of(rule.as_slice()) });
        }
        i = i + 1;
    }
    assert(all_rules.take(i as int) =~= all_rules);
    Ok(Built { all, hosts, patterns: found })
}

impl RuleSetRaw {
    /// Reads the three fields of a JSON object; they have to be there.
    pub fn from_json_value(val: &json::Json) -> (r: RuleSetRaw)
        requires
            val@.has("no_match_decision"@),
            val@.has("whitelist"@),
            val@.has("blacklist"@),
        ensures
            r.no_match_decision@ == string_of(val@.member("no_match_decision"@)),
            text::views(r.whitelist@) == list_of(val@.member("whitelist"@)),
            text::views(r.blacklist@) == list_of(val@.member("blacklist"@)),
    {
        let no_match_decision = match val.get("no_match_decision") {
            Some(v) => RuleSetRaw::value_to_string(v),
            None => String::new(),
        };
        let whitelist = match val.get("whitelist") {
            Some(v) => RuleSetRaw::value_to_vec(v),
            None => Vec::new(),
        };
        let blacklist = match val.get("blacklist") {
            Some(v) => RuleSetRaw::value_to_vec(v),
            None => Vec::new(),
        };
        RuleSetRaw { no_match_decision, whitelist, blacklist }
    }

    pub fn value_to_string(val: &json::Json) -> (r: String)
        ensures
            r@ == string_of(val@),
    {
        match val {
            json::Json::Text(s) => s.clone(),
            _ => String::new(),
        }
    }

    pub fn value_to_vec(what: &json::Json) -> (r: Vec<String>)
        ensures
            text::views(r@) == list_of(what@),
    {
        let mut out: Vec<String> = Vec::new();
        assert(text::views(out@) =~= seq![]);
        match what {
            json::Json::Array(items) => {
                let ghost all = json::items_of(items@);
                proof {
                    json::an_array_shows_its_items(*items);
                }
                let mut i: usize = 0;
                assert(all.take(0) =~= seq![]);
                while i < items.len()
                    invariant
                        i <= items@.len(),
                        all == json::items_of(items@),
                        what@ == json::Document::Array(all),
                        text::views(out@) == strings_of(all.take(i as int)),
                    decreases items@.len() - i,
                {
                    assert(all.take(i + 1).drop_last() =~= all.take(i as int));
                    assert(all[i as int] == items@[i as int]@);
                    if let json::Json::Text(s) = &items[i] {
                        if !s.as_str().is_empty() {
                            let ghost o0 = text::views(out@);
                            out.push(s.clone());
                            assert(text::views(out@) =~= o0.push(s@));
                        }
                    }
                    i = i + 1;
                }
                assert(all.take(i as int) =~= all);
                out
            },
            _ => out,
        }
    }

    /// Compiles the rules.
    pub fn generate(&self) -> (r: Result<RuleSet, RuleError>)
        ensures
            generated(r, self.no_match_decision@, text::views(self.whitelist@), text::views(self.blacklist@)),
    {
        let d = text::chars_of(text::to_lowercase(self.no_match_decision.as_str()).as_str());
        let default_allow = if text::is(d.as_slice(), "accept") || text::is(d.as_slice(), "allow") {
            true
        } else if text::is(d.as_slice(), "reject") || text::is(d.as_slice(), "deny") {
            false
        } else if text::is(d.as_slice(), "") {
            return Err(RuleError { fault: RuleFault::MissingDecision, named: String::new() });
        } else {
            return Err(RuleError { fault: RuleFault::UnknownDecision, named: self.no_match_decision.clone() });
        };
        let white = match build_lists(&self.whitelist) {
            Ok(l) => l,
            Err(e) => return Err(e),
        };
        let black = match build_lists(&self.blacklist) {
            Ok(l) => l,
            Err(e) => return Err(e),
        };
        Ok(
            RuleSet {
                default_allow,
                allowed_all: white.all,
                rejected_all: black.all,
                allowed_static_hosts: white.hosts,
                rejected_static_hosts: black.hosts,
                allowed_patterns: white.patterns,
                rejected_patterns: black.patterns,
            },
        )
    }
}

/// Whether a host is listed, or matched by one of the patterns.
pub open spec fn listed(host: Seq<char>, hosts: Seq<Seq<char>>, found: Seq<Seq<char>>) -> bool {
    ||| hosts.contains(text::lowercased(host))
    ||| exists|i: int|
        0 <= i < found.len() && patterns::pattern_compiles(#[trigger] found[i], false) && patterns::pattern_matches(
            found[i],
            false,
            text::lowercased(host),
        )
}

fn check_match(host: &str, hosts: &Vec<String>, found: &Vec<String>) -> (r: bool)
    ensures
        r == listed(host@, text::views(hosts@), text::views(found@)),
        r == listed(text::lowercased(host@), text::views(hosts@), text::views(found@)),
{
    let low = text::to_lowercase(host);
    let ghost names = text::views(hosts@);
    let ghost pats = text::views(found@);
    let mut i: usize = 0;
    while i < hosts.len()
        invariant
            i <= hosts@.len(),
            names == text::views(hosts@),
            low@ == text::lowercased(host@),
            text::lowercased(low@) == low@,
            forall|k: int| 0 <= k < i ==> names[k] != low@,
        decreases hosts@.len() - i,
    {
        if text::str_eq(hosts[i].as_str(), low.as_str()) {
            assert(names[i as int] == low@);
            return true;
        }
        i = i + 1;
    }
    assert(!names.contains(low@));
    let mut j: usize = 0;
    while j < found.len()
        invariant
            j <= found@.len(),
            pats == text::views(found@),
            low@ == text::lowercased(host@),
            text::lowercased(low@) == low@,
            !text::views(hosts@).contains(low@),
            forall|k: int|
                0 <= k < j ==> !(patterns::pattern_compiles(#[trigger] pats[k], false) && patterns::pattern_matches(
                    pats[k],
                    false,
                    low@,
                )),
        decreases found@.len() - j,
    {
        if let Some(true) = patterns::is_match(found[j].as_str(), false, low.as_str()) {
            assert(patterns::pattern_compiles(pats[j as int], false));
            return true;
        }
        j = j + 1;
    }
    false
}

impl RuleSet {
    /// Whether a host may be reached. Where hosts are let through by default
    /// the black list counts, else the white list.
    pub open spec fn admits(self, host: Seq<char>) -> bool {
        if self.default_allow {
            !self.rejected_all && !listed(
                host,
                text::views(self.rejected_static_hosts@),
                text::views(self.rejected_patterns@),
            )
        } else {
            self.allowed_all || listed(
                host,
                text::views(self.allowed_static_hosts@),
                text::views(self.allowed_patterns@),
            )
        }
    }

    /// Checks a host. A host and its lower-case form get the same answer.
    pub fn check_access(&self, target_host: &str) -> (r: bool)
        ensures
            r == self.admits(target_host@),
            r == self.admits(text::lowercased(target_host@)),
    {
        if self.default_allow {
            if self.rejected_all {
                return false;
            }
            !check_match(target_host, &self.rejected_static_hosts, &self.rejected_patterns)
        } else {
            if self.allowed_all {
                return true;
            }
            check_match(target_host, &self.allowed_static_hosts, &self.allowed_patterns)
        }
    }
}

/// Whether a rule is about a host: any host, the whole of its name, or a
/// pattern that matches in it.
pub open spec fn rule_matches(rule: Seq<char>, host: Seq<char>) -> bool {
    let low = text::lowercased(rule);
    if low == "$any"@ {
        true
    } else if text::begins(low, "host:"@) {
        low.skip(5) == text::lowercased(host)
    } else {
        text::begins(low, "pattern:"@) && patterns::pattern_matches(
            folded(low.skip(8)),
            false,
            text::lowercased(host),
        )
    }
}

/// Whether one of the rules is about a host.
pub open spec fn any_matches(rules: Seq<Seq<char>>, host: Seq<char>) -> bool {
    exists|i: int| 0 <= i < rules.len() && rule_matches(#[trigger] rules[i], host)
}

proof fn lemma_lists_match(rules: Seq<Seq<char>>, host: Seq<char>)
    requires
        lists_of(rules) is Ok,
    ensures
        ({
            let l = lists_of(rules)->Ok_0;
            (l.all || listed(host, l.hosts, l.patterns)) == any_matches(rules, host)
        }),
        forall|i: int|
            0 <= i < lists_of(rules)->Ok_0.patterns.len() ==> patterns::pattern_compiles(
                #[trigger] lists_of(rules)->Ok_0.patterns[i],
                false,
            ),
    decreases rules.len(),
{
    let l = lists_of(rules)->Ok_0;
    if rules.len() > 0 {
        let before = rules.drop_last();
        lemma_lists_match(before, host);
        let m = lists_of(before)->Ok_0;
        let low = text::lowercased(host);
        assert(any_matches(rules, host) == (any_matches(before, host) || rule_matches(rules.last(), host))) by {
            if any_matches(before, host) {
                let i = choose|i: int| 0 <= i < before.len() && rule_matches(#[trigger] before[i], host);
                assert(rule_matches(rules[i], host));
            }
            if rule_matches(rules.last(), host) {
                assert(rule_matches(rules[rules.len() - 1], host));
            }
            if any_matches(rules, host) {
                let i = choose|i: int| 0 <= i < rules.len() && rule_matches(#[trigger] rules[i], host);
                if i < before.len() {
                    assert(rule_matches(before[i], host));
                }
            }
        }
        if l.hosts.len() > m.hosts.len() {
            let h = l.hosts.last();
            assert(l.hosts == m.hosts.push(h));
            assert(l.hosts.contains(low) == (m.hosts.contains(low) || h == low)) by {
                if m.hosts.contains(low) {
                    let i = choose|i: int| 0 <= i < m.hosts.len() && m.hosts[i] == low;
                    assert(l.hosts[i] == low);
                }
                assert(l.hosts[m.hosts.len() as int] == h);
            }
        }
        if l.patterns.len() > m.patterns.len() {
            let p = l.patterns.last();
            assert(l.patterns == m.patterns.push(p));
            assert(listed(host, l.hosts, l.patterns) == (listed(host, m.hosts, m.patterns) || patterns::pattern_matches(
                p,
                false,
                low,
            ))) by {
                assert(l.patterns[m.patterns.len() as int] == p);
                assert forall|i: int| 0 <= i < m.patterns.len() implies l.patterns[i] == #[trigger] m.patterns[i] by {}
            }
        }
    }
}

/// Where hosts are let through by default, those that a rule of the black list
/// is about are refused, whatever the white list holds. Where they are not,
/// those that a rule of the white list is about are let through, whatever the
/// black list holds.
pub proof fn access_follows_the_list_that_counts(
    r: Result<RuleSet, RuleError>,
    decision: Seq<char>,
    whitelist: Seq<Seq<char>>,
    blacklist: Seq<Seq<char>>,
    host: Seq<char>,
)
    requires
        generated(r, decision, whitelist, blacklist),
        r is Ok,
    ensures
        ({
            let d = text::lowercased(decision);
            let set = r->Ok_0;
            &&& d == "accept"@ || d == "allow"@ || d == "reject"@ || d == "deny"@
            &&& d == "accept"@ || d == "allow"@ ==> set.admits(host) == !any_matches(blacklist, host)
            &&& d == "reject"@ || d == "deny"@ ==> set.admits(host) == any_matches(whitelist, host)
        }),
{
    reveal_strlit("accept");
    reveal_strlit("allow");
    reveal_strlit("reject");
    reveal_strlit("deny");
    assert("accept"@[0] == 'a' && "allow"@[0] == 'a' && "reject"@[0] == 'r' && "deny"@[0] == 'd');
    lemma_lists_match(whitelist, host);
    lemma_lists_match(blacklist, host);
}

/// The first field of a rule set that a document does not have.
pub open spec fn missing_field(document: json::Document) -> Option<Seq<char>> {
    if !document.has("no_match_decision"@) {
        Some("no_match_decision"@)
    } else if !document.has("whitelist"@) {
        Some("whitelist"@)
    } else if !document.has("blacklist"@) {
        Some("blacklist"@)
    } else {
        None
    }
}

/// Whether `r` is the rule set that a JSON text states. It is refused if it is
/// no JSON, then if a field is missing.
pub open spec fn stated(r: Result<RuleSet, RuleError>, text: Seq<char>) -> bool {
    match json::document_of(text) {
        Err(cause) => r is Err && r->Err_0.fault == RuleFault::NotJson && r->Err_0.named@ == cause,
        Ok(document) => match missing_field(document) {
            Some(name) => r is Err && r->Err_0.fault == RuleFault::MissingField && r->Err_0.named@ == name,
            None => generated(
                r,
                string_of(document.member("no_match_decision"@)),
                list_of(document.member("whitelist"@)),
                list_of(document.member("blacklist"@)),
            ),
        },
    }
}

/// Builds the rule set of a JSON text.
pub fn parse_text(text: &str) -> (r: Result<RuleSet, RuleError>)
    ensures
        stated(r, text@),
{
    let document = match json::read(text) {
        Ok(document) => document,
        Err(named) => return Err(RuleError { fault: RuleFault::NotJson, named }),
    };
    let missing = if document.get("no_match_decision").is_none() {
        Some("no_match_decision")
    } else if document.get("whitelist").is_none() {
        Some("whitelist")
    } else if document.get("blacklist").is_none() {
        Some("blacklist")
    } else {
        None
    };
    match missing {
        Some(name) => Err(RuleError { fault: RuleFault::MissingField, named: text::owned(name) }),
        None => parse(&document),
    }
}

/// Builds the rule set of a parsed JSON document.
pub fn parse(document: &json::Json) -> (r: Result<RuleSet, RuleError>)
    requires
        document@.has("no_match_decision"@),
        document@.has("whitelist"@),
        document@.has("blacklist"@),
    ensures
        generated(
            r,
            string_of(document@.member("no_match_decision"@)),
            list_of(document@.member("whitelist"@)),
            list_of(document@.member("blacklist"@)),
        ),
{
    RuleSetRaw::from_json_value(document).generate()
}

/// Whether a rule can be made out: any host, a host, or a pattern that is a
/// regular expression.
pub open spec fn is_good_rule(rule: Seq<char>) -> bool {
    let low = text::lowercased(rule);
    ||| low == "$any"@
    ||| exists|host: Seq<char>| low == #[trigger] ("host:"@ + host)
    ||| exists|pattern: Seq<char>|
        low == #[trigger] ("pattern:"@ + pattern) && patterns::pattern_compiles(folded(pattern), false)
}

/// A list is accepted exactly if every rule of it can be made out; the first one
/// that cannot is the one that is refused.
pub proof fn a_list_of_good_rules_is_accepted(rules: Seq<Seq<char>>)
    ensures
        lists_of(rules) is Ok <==> forall|i: int| 0 <= i < rules.len() ==> is_good_rule(#[trigger] rules[i]),
    decreases rules.len(),
{
    if rules.len() > 0 {
        let t = rules.drop_last();
        a_list_of_good_rules_is_accepted(t);
        lemma_good_rule(rules.last());
        reveal_strlit("$any");
        assert forall|i: int| 0 <= i < t.len() implies t[i] == rules[i] by {}
        if forall|i: int| 0 <= i < rules.len() ==> is_good_rule(#[trigger] rules[i]) {
            assert forall|i: int| 0 <= i < t.len() implies is_good_rule(#[trigger] t[i]) by {
                assert(is_good_rule(rules[i]));
            }
            assert(is_good_rule(rules[rules.len() - 1]));
        }
        if lists_of(rules) is Ok {
            assert forall|i: int| 0 <= i < rules.len() implies is_good_rule(#[trigger] rules[i]) by {
                if i < t.len() {
                    assert(is_good_rule(t[i]));
                }
            }
        }
    }
}

proof fn lemma_good_rule(rule: Seq<char>)
    ensures
        ({
            let low = text::lowercased(rule);
            is_good_rule(rule) <==> low == "$any"@ || text::begins(low, "host:"@) || (text::begins(low, "pattern:"@)
                && patterns::pattern_fault(folded(low.skip(8)), false) is None)
        }),
{
    reveal_strlit("$any");
    reveal_strlit("host:");
    reveal_strlit("pattern:");
    let low = text::lowercased(rule);
    if text::begins(low, "host:"@) {
        assert(low =~= "host:"@ + low.skip(5));
    }
    if text::begins(low, "pattern:"@) {
        assert(low =~= "pattern:"@ + low.skip(8));
    }
    assert forall|host: Seq<char>| low == #[trigger] ("host:"@ + host) implies text::begins(low, "host:"@) by {
        assert(low.take(5) =~= "host:"@);
    }
    assert forall|pattern: Seq<char>| low == #[trigger] ("pattern:"@ + pattern) implies text::begins(low, "pattern:"@)
        && low.skip(8) == pattern by {
        assert(low.take(8) =~= "pattern:"@);
        assert(low.skip(8) =~= pattern);
    }
}

/// A rule that names a host is about that host and no other; one that names any
/// is about every host; one that holds a pattern is about the hosts that it
/// matches.
pub proof fn a_rule_is_about_what_it_names(rule: Seq<char>, named: Seq<char>, host: Seq<char>)
    ensures
        text::lowercased(rule) == "host:"@ + named ==> (rule_matches(rule, host) <==> text::lowercased(host) == named),
        text::lowercased(rule) == "$any"@ ==> rule_matches(rule, host),
        text::lowercased(rule) == "pattern:"@ + named && !text::begins(named, "(?i)"@) ==> (rule_matches(rule, host)
            <==> patterns::pattern_matches("(?i)"@ + named, false, text::lowercased(host))),
        text::lowercased(rule) == "pattern:"@ + named && text::begins(named, "(?i)"@) ==> (rule_matches(rule, host)
            <==> patterns::pattern_matches(named, false, text::lowercased(host))),
{
    reveal_strlit("$any");
    reveal_strlit("host:");
    reveal_strlit("pattern:");
    let a = "host:"@ + named;
    let b = "pattern:"@ + named;
    assert(a.take(5) =~= "host:"@);
    assert(a.skip(5) =~= named);
    assert(b.take(8) =~= "pattern:"@);
    assert(b.skip(8) =~= named);
    assert(a[0] == 'h' && b[0] == 'p' && "$any"@[0] == '$');
    assert(b.take(5)[0] == 'p');
    assert("host:"@[0] == 'h');
}

/// Every text of a list counts that holds something, and nothing else.
pub proof fn every_text_of_a_list_counts(v: Seq<json::Document>, i: int, s: Seq<char>)
    ensures
        0 <= i < v.len() && v[i] == json::Document::Text(s) && s.len() > 0 ==> strings_of(v).contains(s),
        strings_of(v).contains(s) ==> s.len() > 0 && v.contains(json::Document::Text(s)),
    decreases v.len(),
{
    if v.len() > 0 {
        let t = v.drop_last();
        every_text_of_a_list_counts(t, i, s);
        let a = strings_of(t);
        let b = strings_of(v);
        if 0 <= i < t.len() && v[i] == json::Document::Text(s) && s.len() > 0 {
            assert(t[i] == v[i]);
            let k = choose|k: int| 0 <= k < a.len() && a[k] == s;
            assert(b[k] == s);
        }
        if i == t.len() && v[i] == json::Document::Text(s) && s.len() > 0 {
            assert(b[b.len() - 1] == s);
        }
        if b.contains(s) {
            let k = choose|k: int| 0 <= k < b.len() && b[k] == s;
            if k < a.len() {
                assert(a[k] == s);
                let j = choose|j: int| 0 <= j < t.len() && t[j] == json::Document::Text(s);
                assert(v[j] == json::Document::Text(s));
            } else {
                assert(v[v.len() - 1] == json::Document::Text(s));
            }
        }
    }
}

} // verus!
