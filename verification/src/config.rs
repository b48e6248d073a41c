//! The proxy's configuration: listeners, access rules, DNS overrides and the
//! accounting log.
use vstd::prelude::*;
use crate::dataplane::http::static_files::Encoding;
use vstd::slice::slice_subrange;
use crate::patterns;
use crate::text;

verus! {

/// The whole configuration. Listener names are distinct.
#[derive(Debug, Clone)]
pub struct Config {
    pub listeners: Vec<(String, Listener)>,
    pub options: Options,
    pub dns: DnsConfig,
    /// Certificate authority used for every certificate the proxy manages
    /// (admin server TLS and terminating listeners). When absent, a local CA
    /// with default parameters is used.
    pub ca: Option<CaConfig>,
    pub admin_server: Option<AdminServerConfig>,
    /// Accounting CDR log. Absent or `enabled: false` disables it.
    pub accounting: Option<AccountingConfig>,
}

/// Local CA configuration. When absent, `localca` defaults are used.
#[derive(Debug, Clone)]
pub struct CaConfig {
    pub localca: Option<LocalCaConfig>,
}

#[derive(Debug, Clone, PartialEq, Hash)]
pub struct LocalCaConfig {
    pub ca_cert: String,
    pub ca_key: String,
    pub working_dir: String,
}

impl Default for LocalCaConfig {
    fn default() -> (r: LocalCaConfig)
        ensures
            r.ca_cert@ == "local_ca/CA.pem"@,
            r.ca_key@ == "local_ca/CA.key"@,
            r.working_dir@ == "local_ca"@,
    {
        LocalCaConfig {
            ca_cert: text::owned("local_ca/CA.pem"),
            ca_key: text::owned("local_ca/CA.key"),
            working_dir: text::owned("local_ca"),
        }
    }
}

/// DNS overrides, applied before connecting upstream. Resolution priority:
/// exact host:port, then exact host (any port), then suffix rules with a
/// port, then suffix rules without (longer suffixes win within each group),
/// then regex rules in definition order.
#[derive(Debug, Clone)]
pub struct DnsConfig {
    pub exact: Vec<ExactDnsRule>,
    pub suffix: Vec<SuffixDnsRule>,
    pub regex: Vec<RegexDnsRule>,
}

/// `from` is `host` (any port) or `host:port`; `to` is `host` (keep original
/// port) or `host:port`.
#[derive(Debug, Clone)]
pub struct ExactDnsRule {
    pub from: String,
    pub to: String,
}

/// `from` is a domain suffix, conventionally written with a leading dot
/// (`.internal.example.com`), optionally with `:port`. Matching respects
/// label boundaries: `.abc.com` matches `x.abc.com` and `abc.com`, but never
/// `notabc.com`.
#[derive(Debug, Clone)]
pub struct SuffixDnsRule {
    pub from: String,
    pub to: String,
}

/// `hostname` is matched against the hostname only (the port is never part of
/// the text the regex sees); `port` optionally restricts the rule to one port.
#[derive(Debug, Clone)]
pub struct RegexDnsRule {
    pub hostname: String,
    pub port: Option<u16>,
    pub to: String,
}

/// A listener without its speed limit, which is a rate of the relay.
#[derive(Debug, Clone)]
pub struct Listener {
    pub bind: String,
    pub target: Option<String>,
    pub target_port: u16,
    pub policy: Policy,
    pub rules: Rules,
    pub max_idle_time_ms: Option<u64>,
    pub mode: ListenerMode,
    /// Encrypt the terminate-mode upstream leg without authenticating the
    /// upstream certificate.
    pub upstream_tls: bool,
}

#[derive(Debug, Clone, Copy, PartialEq, Eq, Structural)]
pub enum ListenerMode {
    Passthrough,
    Terminate,
    Forward,
}

impl Default for ListenerMode {
    fn default() -> (r: ListenerMode)
        ensures
            r == ListenerMode::Passthrough,
    {
        ListenerMode::Passthrough
    }
}

/// The hosts that a listener's policy is about. Patterns are matched without
/// regard to case.
#[derive(Debug, Clone)]
pub struct Rules {
    pub static_hosts: Vec<String>,
    pub patterns: Vec<String>,
}

#[derive(Debug, Clone, Copy, PartialEq, Eq, Structural)]
pub enum Policy {
    ALLOW,
    DENY,
}

#[derive(Debug, Clone)]
pub struct Options {
    /// Directory for runtime artifacts such as the local CA.
    pub runtime_dir: String,
}

impl Default for Options {
    fn default() -> (r: Options)
        ensures
            r.runtime_dir@ == "./runtime"@,
    {
        Options { runtime_dir: text::owned("./runtime") }
    }
}

#[derive(Debug, Clone, PartialEq, Hash)]
pub struct AdminServerConfig {
    pub bind_address: Option<String>,
    pub bind_port: Option<u16>,
    pub username: Option<String>,
    pub password: Option<String>,
    pub tls: Option<bool>,
    /// Subject alternative names for the admin certificate; DNS names and
    /// IP addresses are told apart automatically. The certificate itself
    /// comes from the top-level `ca` source.
    pub san: Vec<String>,
}

impl Default for AdminServerConfig {
    fn default() -> (r: AdminServerConfig)
        ensures
            r.bind_address matches Some(a) && a@ == "0.0.0.0"@,
            r.bind_port == Some(48888u16),
            r.username matches Some(u) && u@ == "admin"@,
            r.password matches Some(p) && p@ == "admin"@,
            r.tls == Some(false),
            text::views(r.san@) == seq!["localhost"@, "127.0.0.1"@],
    {
        let mut san: Vec<String> = Vec::new();
        san.push(text::owned("localhost"));
        san.push(text::owned("127.0.0.1"));
        assert(text::views(san@) =~= seq!["localhost"@, "127.0.0.1"@]);
        AdminServerConfig {
            bind_address: Some(text::owned("0.0.0.0")),
            bind_port: Some(48888),
            username: Some(text::owned("admin")),
            password: Some(text::owned("admin")),
            tls: Some(false),
            san,
        }
    }
}

/// Per-connection CDR accounting log with size-based rotation.
#[derive(Debug, Clone)]
pub struct AccountingConfig {
    pub enabled: bool,
    pub log_file: String,
    pub rotate_size: String,
    pub max_keep: usize,
    /// Rotated indexes 1..=compress_after stay uncompressed.
    pub compress_after: usize,
    pub compression: Compression,
}

/// A log that is switched off, with the sizes that apply where none are set.
impl Default for AccountingConfig {
    fn default() -> (r: AccountingConfig)
        ensures
            !r.enabled,
            r.log_file@ == ""@,
            r.rotate_size@ == "100MiB"@,
            r.max_keep == 10,
            r.compress_after == 3,
            r.compression == Compression::Zstd,
    {
        AccountingConfig {
            enabled: false,
            log_file: text::owned(""),
            rotate_size: text::owned("100MiB"),
            max_keep: 10,
            compress_after: 3,
            compression: Compression::Zstd,
        }
    }
}

#[derive(Debug, Clone, Copy, PartialEq, Eq, Structural)]
pub enum Compression {
    Zstd,
    Gzip,
    /// Files stay as they are.
    Plain,
}

impl Default for Compression {
    fn default() -> (r: Compression)
        ensures
            r == Compression::Zstd,
    {
        Compression::Zstd
    }
}

impl Compression {
    pub open spec fn extension_text(self) -> Option<Seq<char>> {
        match self {
            Compression::Zstd => Some("zst"@),
            Compression::Gzip => Some("gz"@),
            Compression::Plain => None,
        }
    }

    /// The encoding of a compressed file.
    pub fn encoding(self) -> (r: Encoding)
        ensures
            r == match self {
                Compression::Plain => Encoding::Identity,
                Compression::Gzip => Encoding::Gzip,
                Compression::Zstd => Encoding::Zstd,
            },
    {
        match self {
            Compression::Plain => Encoding::Identity,
            Compression::Gzip => Encoding::Gzip,
            Compression::Zstd => Encoding::Zstd,
        }
    }

    /// The suffix of files compressed this way.
    pub fn extension(&self) -> (r: Option<&'static str>)
        ensures
            match self.extension_text() {
                Some(e) => r is Some && r->0@ == e,
                None => r is None,
            },
    {
        match self {
            Compression::Zstd => Some("zst"),
            Compression::Gzip => Some("gz"),
            Compression::Plain => None,
        }
    }
}

/// The digits of a size and the factor of its suffix.
pub open spec fn size_parts(size: Seq<char>) -> (Seq<char>, u64) {
    let s = text::lower(text::trimmed(size));
    if text::finishes(s, "kib"@) {
        (s.take(s.len() - 3), 1024u64)
    } else if text::finishes(s, "mib"@) {
        (s.take(s.len() - 3), 1048576u64)
    } else if text::finishes(s, "gib"@) {
        (s.take(s.len() - 3), 1073741824u64)
    } else {
        (s, 1u64)
    }
}

/// The bytes that a size denotes, or why it denotes none.
pub open spec fn size_of_text(size: Seq<char>) -> Result<u64, Seq<char>> {
    let (digits, factor) = size_parts(size);
    match text::unsigned(text::trimmed(digits), u64::MAX as nat) {
        None => Err("invalid size `"@ + size + "`; use bytes or a KiB/MiB/GiB suffix"@),
        Some(v) => if v * factor > u64::MAX {
            Err("size `"@ + size + "` overflows"@)
        } else {
            Ok((v * factor) as u64)
        },
    }
}

fn cut_suffix<'a>(s: &'a [char], suffix: &str) -> (r: Option<&'a [char]>)
    ensures
        r is Some <==> text::finishes(s@, suffix@),
        r is Some ==> r->0@ == s@.take(s@.len() - suffix@.len()),
{
    let p = text::chars_of(suffix);
    if text::ends_with(s, p.as_slice()) {
        let r = slice_subrange(s, 0, s.len() - p.len());
        assert(r@ =~= s@.take(s@.len() - suffix@.len()));
        Some(r)
    } else {
        None
    }
}

/// Parses `123` (bytes), `2KiB`, `18MiB`, or `1GiB` (case-insensitive) into bytes.
pub fn parse_size(size: &str) -> (r: Result<u64, String>)
    ensures
        match size_of_text(size@) {
            Ok(n) => r == Ok::<u64, String>(n),
            Err(e) => r is Err && r->Err_0@ == e,
        },
{
    let all = text::chars_of(size);
    let lower = text::to_lower(text::trim(all.as_slice()));
    proof {
        reveal_strlit("kib");
        reveal_strlit("mib");
        reveal_strlit("gib");
    }
    let (digits, factor): (&[char], u64) = match cut_suffix(lower.as_slice(), "kib") {
        Some(d) => (d, 1024),
        None => match cut_suffix(lower.as_slice(), "mib") {
            Some(d) => (d, 1048576),
            None => match cut_suffix(lower.as_slice(), "gib") {
                Some(d) => (d, 1073741824),
                None => (lower.as_slice(), 1),
            },
        },
    };
    match text::parse_u64(text::trim(digits)) {
        None => {
            let mut cause = text::owned("invalid size `");
            cause.push_str(size);
            cause.push_str("`; use bytes or a KiB/MiB/GiB suffix");
            Err(cause)
        },
        Some(v) => match v.checked_mul(factor) {
            Some(n) => Ok(n),
            None => {
                let mut cause = text::owned("size `");
                cause.push_str(size);
                cause.push_str("` overflows");
                Err(cause)
            },
        },
    }
}

impl AccountingConfig {
    /// Why the settings are refused; a log that is off is never refused.
    pub open spec fn problem(self) -> Option<Seq<char>> {
        if !self.enabled {
            None
        } else if text::trimmed(self.log_file@).len() == 0 {
            Some("accounting.log_file is required when accounting.enabled is true"@)
        } else if self.max_keep == 0 {
            Some("accounting.max_keep must be at least 1"@)
        } else {
            match size_of_text(self.rotate_size@) {
                Ok(_) => None,
                Err(e) => Some(e),
            }
        }
    }

    pub fn rotate_size_bytes(&self) -> (r: Result<u64, String>)
        ensures
            match size_of_text(self.rotate_size@) {
                Ok(n) => r == Ok::<u64, String>(n),
                Err(e) => r is Err && r->Err_0@ == e,
            },
    {
        parse_size(self.rotate_size.as_str())
    }

    pub fn validate(&self) -> (r: Result<(), String>)
        ensures
            match self.problem() {
                None => r is Ok,
                Some(e) => r is Err && r->Err_0@ == e,
            },
    {
        if !self.enabled {
            return Ok(());
        }
        let file = text::chars_of(self.log_file.as_str());
        if text::trim(file.as_slice()).len() == 0 {
            return Err(text::owned("accounting.log_file is required when accounting.enabled is true"));
        }
        if self.max_keep == 0 {
            return Err(text::owned("accounting.max_keep must be at least 1"));
        }
        match self.rotate_size_bytes() {
            Ok(_) => Ok(()),
            Err(e) => Err(e),
        }
    }
}

impl Rules {
    /// Whether one of the static hosts is `host`, in any case.
    pub open spec fn names(self, host: Seq<char>) -> bool {
        exists|i: int| 0 <= i < self.static_hosts@.len() && text::lower(host) == text::lower(
            (#[trigger] self.static_hosts@[i])@,
        )
    }

    /// Whether one of the patterns matches `host`.
    pub open spec fn describes(self, host: Seq<char>) -> bool {
        exists|i: int| 0 <= i < self.patterns@.len() && patterns::pattern_compiles(
            (#[trigger] self.patterns@[i])@,
            true,
        ) && patterns::pattern_matches(self.patterns@[i]@, true, host)
    }

    /// What is said of the first pattern that is no regular expression.
    pub fn check_patterns(&self) -> (r: Result<(), String>)
        ensures
            match pattern_problem(self.patterns@) {
                Some(p) => r is Err && r->Err_0@ == p,
                None => r is Ok,
            },
    {
        let mut k: usize = 0;
        assert(self.patterns@.skip(0) =~= self.patterns@);
        while k < self.patterns.len()
            invariant
                k <= self.patterns@.len(),
                pattern_problem(self.patterns@) == pattern_problem(self.patterns@.skip(k as int)),
            decreases self.patterns@.len() - k,
        {
            assert(self.patterns@.skip(k as int)[0] == self.patterns@[k as int]);
            assert(self.patterns@.skip(k as int).drop_first() =~= self.patterns@.skip(k + 1));
            if let Some(fault) = patterns::fault(self.patterns[k].as_str(), true) {
                let mut problem = text::owned("invalid regex `");
                problem.push_str(self.patterns[k].as_str());
                problem.push_str("`: ");
                problem.push_str(fault.as_str());
                return Err(problem);
            }
            k = k + 1;
        }
        Ok(())
    }
}

/// What is said of the first pattern of a list that is no regular expression.
pub open spec fn pattern_problem(list: Seq<String>) -> Option<Seq<char>>
    decreases list.len(),
{
    if list.len() == 0 {
        None
    } else {
        match patterns::pattern_fault(list[0]@, true) {
            Some(fault) => Some("invalid regex `"@ + list[0]@ + "`: "@ + fault),
            None => pattern_problem(list.drop_first()),
        }
    }
}

/// What is said of the first listener with a pattern that is no regular
/// expression.
pub open spec fn listener_problem(listeners: Seq<(String, Listener)>) -> Option<Seq<char>>
    decreases listeners.len(),
{
    if listeners.len() == 0 {
        None
    } else {
        match pattern_problem(listeners[0].1.rules.patterns@) {
            Some(p) => Some(p),
            None => listener_problem(listeners.drop_first()),
        }
    }
}

impl Listener {
    /// Whether the rules are about `host`.
    pub open spec fn matches_host(self, host: Seq<char>) -> bool {
        self.rules.names(host) || self.rules.describes(host)
    }

    /// Whether the policy lets `host` through.
    pub open spec fn allows(self, host: Seq<char>) -> bool {
        match self.policy {
            Policy::ALLOW => self.matches_host(host),
            Policy::DENY => !self.matches_host(host),
        }
    }

    /// How long a connection may idle: an hour by default, forever for zero.
    pub fn max_idle_time_ms(&self) -> (r: u64)
        ensures
            r == match self.max_idle_time_ms {
                None => 3600000u64,
                Some(n) => if n == 0 {
                    u64::MAX
                } else {
                    n
                },
            },
    {
        match self.max_idle_time_ms {
            Some(n) => if n == 0 {
                u64::MAX
            } else {
                n
            },
            None => 3600000,
        }
    }

    pub fn match_host(&self, host: &str) -> (r: bool)
        ensures
            r == self.matches_host(host@),
    {
        let mut i: usize = 0;
        while i < self.rules.static_hosts.len()
            invariant
                i <= self.rules.static_hosts@.len(),
                forall|k: int|
                    0 <= k < i ==> text::lower(host@) != text::lower((#[trigger] self.rules.static_hosts@[k])@),
            decreases self.rules.static_hosts@.len() - i,
        {
            if text::eq_ignore_case(host, self.rules.static_hosts[i].as_str()) {
                assert(self.rules.names(host@));
                return true;
            }
            i = i + 1;
        }
        let mut j: usize = 0;
        while j < self.rules.patterns.len()
            invariant
                j <= self.rules.patterns@.len(),
                !self.rules.names(host@),
                forall|k: int|
                    0 <= k < j ==> !(patterns::pattern_compiles((#[trigger] self.rules.patterns@[k])@, true)
                        && patterns::pattern_matches(self.rules.patterns@[k]@, true, host@)),
            decreases self.rules.patterns@.len() - j,
        {
            if let Some(true) = patterns::is_match(self.rules.patterns[j].as_str(), true, host) {
                assert(self.rules.describes(host@));
                return true;
            }
            j = j + 1;
        }
        false
    }

    pub fn is_allowed(&self, host: &str) -> (r: bool)
        ensures
            r == self.allows(host@),
    {
        let matched = self.match_host(host);
        match self.policy {
            Policy::ALLOW => matched,
            Policy::DENY => !matched,
        }
    }
}

/// Of two listeners that differ in their policy alone, exactly one lets a host
/// through.
pub proof fn policies_are_complementary(a: Listener, b: Listener, host: Seq<char>)
    requires
        a.rules == b.rules,
        a.policy == Policy::ALLOW,
        b.policy == Policy::DENY,
    ensures
        a.allows(host) <==> !b.allows(host),
{
}

/// A static host is recognized whatever the case of its letters.
pub proof fn hosts_are_matched_in_any_case(l: Listener, host: Seq<char>, other: Seq<char>)
    requires
        l.rules.names(host),
        text::lower(host) == text::lower(other),
    ensures
        l.allows(other) == (l.policy == Policy::ALLOW),
{
    let i = choose|i: int| 0 <= i < l.rules.static_hosts@.len() && text::lower(host) == text::lower(
        (#[trigger] l.rules.static_hosts@[i])@,
    );
    assert(text::lower(other) == text::lower(l.rules.static_hosts@[i]@));
}

impl Config {
    /// What is wrong with a configuration: a pattern that is no regular
    /// expression, or else accounting settings.
    pub open spec fn problem(self) -> Option<Seq<char>> {
        match listener_problem(self.listeners@) {
            Some(p) => Some(p),
            None => match self.accounting {
                Some(accounting) => accounting.problem(),
                None => None,
            },
        }
    }

    /// Refuses a configuration that something is wrong with.
    pub fn validate(&self) -> (r: Result<(), String>)
        ensures
            match self.problem() {
                Some(p) => r is Err && r->Err_0@ == p,
                None => r is Ok,
            },
    {
        let mut i: usize = 0;
        assert(self.listeners@.skip(0) =~= self.listeners@);
        while i < self.listeners.len()
            invariant
                i <= self.listeners@.len(),
                listener_problem(self.listeners@) == listener_problem(self.listeners@.skip(i as int)),
            decreases self.listeners@.len() - i,
        {
            assert(self.listeners@.skip(i as int)[0] == self.listeners@[i as int]);
            assert(self.listeners@.skip(i as int).drop_first() =~= self.listeners@.skip(i + 1));
            match self.listeners[i].1.rules.check_patterns() {
                Ok(()) => {},
                Err(problem) => return Err(problem),
            }
            i = i + 1;
        }
        match &self.accounting {
            Some(accounting) => accounting.validate(),
            None => Ok(()),
        }
    }
}

/// The policy decides on the hosts that the rules list or describe, and the
/// other way round on all others: a listed host passes an allowing listener and
/// is held by a denying one, whatever the case of its letters and its place in
/// the list.
pub proof fn listed_hosts_follow_the_policy(l: Listener, host: Seq<char>, i: int)
    requires
        (0 <= i < l.rules.static_hosts@.len() && text::lower(host) == text::lower(l.rules.static_hosts@[i]@)) || (0 <= i
            < l.rules.patterns@.len() && patterns::pattern_compiles(l.rules.patterns@[i]@, true)
            && patterns::pattern_matches(l.rules.patterns@[i]@, true, host)),
    ensures
        l.policy == Policy::ALLOW ==> l.allows(host),
        l.policy == Policy::DENY ==> !l.allows(host),
{
}

/// A host that the rules neither list nor describe is held by an allowing
/// listener and passes a denying one.
pub proof fn other_hosts_go_against_the_policy(l: Listener, host: Seq<char>)
    requires
        forall|i: int|
            0 <= i < l.rules.static_hosts@.len() ==> text::lower(host) != text::lower(
                (#[trigger] l.rules.static_hosts@[i])@,
            ),
        forall|i: int|
            0 <= i < l.rules.patterns@.len() ==> !patterns::pattern_matches(
                (#[trigger] l.rules.patterns@[i])@,
                true,
                host,
            ),
    ensures
        l.policy == Policy::ALLOW ==> !l.allows(host),
        l.policy == Policy::DENY ==> l.allows(host),
{
}

/// A size is its number times its unit, in whatever case the unit is written:
/// 1024 for `KiB`, 1024 times that for `MiB`, and again for `GiB`. One that a
/// machine word cannot hold is refused.
pub proof fn a_size_is_its_number_times_its_unit(n: u64, unit: Seq<char>, factor: u64)
    requires
        (text::lower(unit) == "kib"@ && factor == 1024) || (text::lower(unit) == "mib"@ && factor == 1024 * 1024) || (
        text::lower(unit) == "gib"@ && factor == 1024 * 1024 * 1024),
    ensures
        n * factor <= u64::MAX ==> size_of_text(text::decimal(n as nat) + unit) == Ok::<u64, Seq<char>>(
            (n * factor) as u64,
        ),
        n * factor > u64::MAX ==> size_of_text(text::decimal(n as nat) + unit) is Err,
{
    reveal_strlit("kib");
    reveal_strlit("mib");
    reveal_strlit("gib");
    let d = text::decimal(n as nat);
    let none = Seq::<char>::empty();
    let size = d + unit;
    text::decimal_notation_reads_back(n as nat, u64::MAX as nat);
    assert(unit.len() == 3) by {
        assert(text::lower(unit).len() == unit.len());
    }
    assert(text::is_digit(d[0]) && text::is_digit(d[d.len() - 1]));
    assert(text::lower(unit)[2] == text::lower_char(unit[2]));
    assert(text::lower(unit)[0] == text::lower_char(unit[0]));
    assert(size[0] == d[0] && size.last() == unit[2]);
    assert(none + size + none =~= size);
    text::trimming_takes_off_white_space_alone(none, size, none);
    let s = text::lower(size);
    assert forall|i: int| 0 <= i < d.len() implies text::lower_char(#[trigger] d[i]) == d[i] by {
        assert(text::is_digit(d[i]));
    }
    assert(s =~= d + text::lower(unit));
    assert(s.skip(s.len() - 3) =~= text::lower(unit));
    assert("kib"@[0] != "mib"@[0] && "kib"@[0] != "gib"@[0] && "mib"@[0] != "gib"@[0]);
    assert(s.take(s.len() - 3) =~= d);
    assert(none + d + none =~= d);
    text::trimming_takes_off_white_space_alone(none, d, none);
}

/// A size without a unit is a number of bytes.
pub proof fn a_plain_size_is_in_bytes(n: u64)
    ensures
        size_of_text(text::decimal(n as nat)) == Ok::<u64, Seq<char>>(n),
{
    reveal_strlit("kib");
    reveal_strlit("mib");
    reveal_strlit("gib");
    let d = text::decimal(n as nat);
    let none = Seq::<char>::empty();
    text::decimal_notation_reads_back(n as nat, u64::MAX as nat);
    assert(text::is_digit(d[0]) && text::is_digit(d[d.len() - 1]));
    assert(none + d + none =~= d);
    text::trimming_takes_off_white_space_alone(none, d, none);
    assert forall|i: int| 0 <= i < d.len() implies text::lower_char(#[trigger] d[i]) == d[i] by {
        assert(text::is_digit(d[i]));
    }
    assert(text::lower(d) =~= d);
    assert("kib"@[2] == 'b' && "mib"@[2] == 'b' && "gib"@[2] == 'b');
    if d.len() >= 3 {
        assert(d.skip(d.len() - 3)[2] == d.last());
        assert(!text::finishes(d, "kib"@) && !text::finishes(d, "mib"@) && !text::finishes(d, "gib"@));
    } else {
        assert("kib"@.len() == 3 && "mib"@.len() == 3 && "gib"@.len() == 3);
    }
    assert(size_parts(d) == (d, 1u64));
    assert(text::unsigned(text::trimmed(d), u64::MAX as nat) == Some(n as nat));
    assert((n as nat) * (1u64 as nat) == n as nat) by (nonlinear_arith);
}

/// An accounting log that is off is never refused; one that is on needs a file,
/// a size that can be read, and room for one old file at least.
pub proof fn accounting_needs_a_file_a_size_and_room(a: AccountingConfig)
    ensures
        !a.enabled ==> a.problem() is None,
        a.enabled ==> (a.problem() is None <==> text::trimmed(a.log_file@).len() > 0 && a.max_keep >= 1 && size_of_text(
            a.rotate_size@,
        ) is Ok),
{
}

/// Listeners are in order exactly if every pattern of every one of them is a
/// regular expression.
pub proof fn listeners_with_good_patterns_are_in_order(listeners: Seq<(String, Listener)>)
    ensures
        listener_problem(listeners) is None <==> forall|i: int, j: int|
            0 <= i < listeners.len() && 0 <= j < listeners[i].1.rules.patterns@.len() ==> patterns::pattern_compiles(
                (#[trigger] listeners[i].1.rules.patterns@[j])@,
                true,
            ),
    decreases listeners.len(),
{
    if listeners.len() > 0 {
        let t = listeners.drop_first();
        listeners_with_good_patterns_are_in_order(t);
        good_patterns_are_no_problem(listeners[0].1.rules.patterns@);
        if forall|i: int, j: int|
            0 <= i < listeners.len() && 0 <= j < listeners[i].1.rules.patterns@.len() ==> patterns::pattern_compiles(
                (#[trigger] listeners[i].1.rules.patterns@[j])@,
                true,
            ) {
            assert forall|i: int, j: int|
                0 <= i < t.len() && 0 <= j < t[i].1.rules.patterns@.len() implies patterns::pattern_compiles(
                (#[trigger] t[i].1.rules.patterns@[j])@,
                true,
            ) by {
                assert(t[i] == listeners[i + 1]);
                assert(patterns::pattern_compiles(listeners[i + 1].1.rules.patterns@[j]@, true));
            }
            assert forall|j: int| 0 <= j < listeners[0].1.rules.patterns@.len() implies patterns::pattern_compiles(
                (#[trigger] listeners[0].1.rules.patterns@[j])@,
                true,
            ) by {}
        }
        if listener_problem(listeners) is None {
            assert forall|i: int, j: int|
                0 <= i < listeners.len() && 0 <= j
                    < listeners[i].1.rules.patterns@.len() implies patterns::pattern_compiles(
                (#[trigger] listeners[i].1.rules.patterns@[j])@,
                true,
            ) by {
                if i > 0 {
                    assert(t[i - 1] == listeners[i]);
                    assert(patterns::pattern_compiles(t[i - 1].1.rules.patterns@[j]@, true));
                }
            }
        }
    }
}

/// A list of patterns is in order exactly if every one is a regular expression.
pub proof fn good_patterns_are_no_problem(list: Seq<String>)
    ensures
        pattern_problem(list) is None <==> forall|j: int|
            0 <= j < list.len() ==> patterns::pattern_compiles((#[trigger] list[j])@, true),
    decreases list.len(),
{
    if list.len() > 0 {
        let t = list.drop_first();
        good_patterns_are_no_problem(t);
        if forall|j: int| 0 <= j < list.len() ==> patterns::pattern_compiles((#[trigger] list[j])@, true) {
            assert(patterns::pattern_compiles(list[0]@, true));
            assert forall|j: int| 0 <= j < t.len() implies patterns::pattern_compiles((#[trigger] t[j])@, true) by {
                assert(t[j] == list[j + 1]);
            }
        }
        if pattern_problem(list) is None {
            assert forall|j: int| 0 <= j < list.len() implies patterns::pattern_compiles(
                (#[trigger] list[j])@,
                true,
            ) by {
                if j > 0 {
                    assert(t[j - 1] == list[j]);
                }
            }
        }
    }
}

/// A connection may idle for an hour unless it is said otherwise; zero means
/// for ever.
pub proof fn a_connection_idles_for_as_long_as_it_is_said(listener: Listener, r: u64)
    requires
        call_ensures(Listener::max_idle_time_ms, (&listener,), r),
    ensures
        listener.max_idle_time_ms is None ==> r == 3_600_000,
        listener.max_idle_time_ms == Some(0u64) ==> r == u64::MAX,
        listener.max_idle_time_ms matches Some(n) ==> (n > 0 ==> r == n),
{
}

} // verus!
