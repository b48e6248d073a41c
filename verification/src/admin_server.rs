//! The admin UI's rules: who may use it, which part of a file a request gets,
//! and what an operation on the manager comes to.
use vstd::prelude::*;
use vstd::slice::slice_subrange;
use crate::config::{AdminServerConfig, RegexDnsRule};
use crate::crypto;
use crate::manager::Status;
use crate::patterns;
use crate::text;

verus! {

/// The challenge that a request without credentials is answered with.
pub const CHALLENGE: &'static str = "Basic realm=\"TLS Proxy ACE\", charset=\"UTF-8\"";

/// What an `Authorization` header of the scheme `Basic`, in any case, carries
/// behind the name of the scheme.
pub open spec fn encoded_credentials(authorization: Seq<char>) -> Option<Seq<char>> {
    if text::begins(text::lower(authorization), "basic"@) {
        Some(text::trimmed(authorization.skip("basic"@.len() as int)))
    } else {
        None
    }
}

/// Whether decoded credentials are accepted: a name and a password with a
/// colon between them. Without configured credentials any of that form are;
/// half-configured credentials can never match.
pub open spec fn accepted(decoded: Option<Seq<u8>>, username: Option<Seq<char>>, password: Option<Seq<char>>) -> bool {
    match decoded {
        None => false,
        Some(b) => vstd::utf8::valid_utf8(b) && ({
            let s = vstd::utf8::decode_utf8(b);
            s.contains(':') && match (username, password) {
                (Some(u), Some(p)) => text::before(s, ':') == u && text::after(s, ':') == p,
                (None, None) => true,
                _ => false,
            }
        }),
    }
}

pub open spec fn text_of(v: Option<String>) -> Option<Seq<char>> {
    match v {
        Some(s) => Some(s@),
        None => None,
    }
}

/// Whether credentials that were decoded are accepted.
pub fn credentials_match(decoded: &Option<Vec<u8>>, username: &Option<String>, password: &Option<String>) -> (r: bool)
    ensures
        r == accepted(match decoded { Some(b) => Some(b@), None => None }, text_of(*username), text_of(*password)),
{
    let bytes = match decoded {
        Some(b) => b,
        None => return false,
    };
    let credentials = match text::utf8_text(bytes.as_slice()) {
        Some(s) => text::chars_of(s.as_str()),
        None => return false,
    };
    let split = text::find(credentials.as_slice(), ':');
    if split == credentials.len() {
        return false;
    }
    let name = slice_subrange(credentials.as_slice(), 0, split);
    let secret = slice_subrange(credentials.as_slice(), split + 1, credentials.len());
    assert(name@ =~= text::before(credentials@, ':'));
    assert(secret@ =~= text::after(credentials@, ':'));
    match (username, password) {
        (Some(u), Some(p)) => text::is(name, u.as_str()) && text::is(secret, p.as_str()),
        (None, None) => true,
        _ => false,
    }
}

/// Whether a request with this `Authorization` header may use the admin UI.
pub fn is_authorized(authorization: &Option<String>, config: &AdminServerConfig) -> (r: bool)
    ensures
        r == match authorization {
            None => false,
            Some(a) => match encoded_credentials(a@) {
                None => false,
                Some(e) => accepted(crypto::base64_standard(e), text_of(config.username), text_of(config.password)),
            },
        },
{
    let all = match authorization {
        Some(a) => text::chars_of(a.as_str()),
        None => return false,
    };
    let low = text::to_lower(all.as_slice());
    let prefix = text::chars_of("basic");
    if !text::starts_with(low.as_slice(), prefix.as_slice()) {
        return false;
    }
    let rest = slice_subrange(all.as_slice(), prefix.len(), all.len());
    assert(rest@ =~= all@.skip("basic"@.len() as int));
    let encoded = text::string_of(text::trim(rest));
    let decoded = crypto::base64_decode(encoded.as_str());
    credentials_match(&decoded, &config.username, &config.password)
}

/// An error that a request is answered with.
#[derive(Debug, Clone)]
pub struct ISE {
    pub message: String,
}

impl ISE {
    pub fn from(err: &str) -> (r: Self)
        ensures
            r.message@ == err@,
    {
        ISE { message: text::owned(err) }
    }

    /// How the error reads, whatever its message.
    pub fn text(&self) -> (r: &'static str)
        ensures
            r@ == "InternalServerError"@,
    {
        "InternalServerError"
    }
}

/// What a `Range` header looks like.
pub const RANGE_PATTERN: &'static str = r"(?i)^bytes\s*=\s*(\d*)\s*-\s*(\d*)\s*$";

/// The part of a file that a request asks for.
#[derive(Debug, Clone, Copy, PartialEq, Eq, Structural)]
pub struct RangeHeader {
    pub start: Option<usize>,
    pub end: Option<usize>,
}

/// The number that a group of the pattern captured, if it captured one.
pub open spec fn bound_of(group: Option<Seq<char>>) -> Option<usize> {
    match group {
        None => None,
        Some(s) => match text::unsigned(s, usize::MAX as nat) {
            Some(n) => Some(n as usize),
            None => None,
        },
    }
}

proof fn lemma_unsigned_bounds(s: Seq<char>, low: nat, high: nat)
    requires
        low <= high,
    ensures
        match text::unsigned(s, high) {
            Some(n) => if n <= low {
                text::unsigned(s, low) == Some(n)
            } else {
                text::unsigned(s, low) is None
            },
            None => text::unsigned(s, low) is None,
        },
{
}

/// Reads what a group of the pattern captured.
pub fn parse_bound(group: &Option<String>) -> (r: Option<usize>)
    ensures
        r == bound_of(text_of(*group)),
{
    match group {
        None => None,
        Some(s) => {
            let digits = text::chars_of(s.as_str());
            proof {
                lemma_unsigned_bounds(digits@, usize::MAX as nat, u64::MAX as nat);
            }
            match text::parse_u64(digits.as_slice()) {
                Some(n) => if n <= usize::MAX as u64 {
                    Some(n as usize)
                } else {
                    None
                },
                None => None,
            }
        },
    }
}

impl RangeHeader {
    /// Reads a `Range` header; one that does not match asks for no part.
    pub fn parse(range: &Option<String>) -> (r: RangeHeader)
        ensures
            match range {
                None => r.start is None && r.end is None,
                Some(v) => r.start == bound_of(patterns::captured(RANGE_PATTERN@, v@, 1)) && r.end == bound_of(
                    patterns::captured(RANGE_PATTERN@, v@, 2),
                ),
            },
    {
        match range {
            None => RangeHeader { start: None, end: None },
            Some(v) => {
                let first = patterns::capture(RANGE_PATTERN, v.as_str(), 1);
                let second = patterns::capture(RANGE_PATTERN, v.as_str(), 2);
                RangeHeader { start: parse_bound(&first), end: parse_bound(&second) }
            },
        }
    }

    pub fn has_value(&self) -> (r: bool)
        ensures
            r == (self.start is Some || self.end is Some),
    {
        self.start.is_some() || self.end.is_some()
    }

    pub open spec fn aligned_start(self, max_size: usize) -> usize {
        match self.start {
            Some(s) => if s > max_size {
                max_size
            } else {
                s
            },
            None => 0,
        }
    }

    pub open spec fn aligned_end(self, max_size: usize) -> usize {
        match self.end {
            Some(e) => {
                let capped = if e > max_size {
                    max_size
                } else {
                    e
                };
                if capped < self.aligned_start(max_size) {
                    self.aligned_start(max_size)
                } else {
                    capped
                }
            },
            None => max_size,
        }
    }

    /// The part that is asked for, cut to a size: from the start up to, but
    /// without, the end. It always lies within the size.
    pub fn align(&self, max_size: usize) -> (r: (usize, usize))
        ensures
            r.0 == self.aligned_start(max_size),
            r.1 == self.aligned_end(max_size),
            r.0 <= r.1 <= max_size,
    {
        let mut start: usize = 0;
        let mut end: usize = max_size;
        if let Some(this_start) = self.start {
            start = this_start;
            if start > max_size {
                start = max_size;
            }
        }
        if let Some(this_end) = self.end {
            end = this_end;
            if end > max_size {
                end = max_size;
            }
            if end < start {
                end = start;
            }
        }
        (start, end)
    }
}

/// The part of a path behind its last dot, or all of it.
pub open spec fn extension_of(path: Seq<char>) -> Seq<char> {
    path.skip(text::last_at(path, '.') + 1)
}

/// The media type of an extension.
pub open spec fn media_type(e: Seq<char>) -> Seq<char> {
    if e == "html"@ || e == "htm"@ {
        "text/html; charset=utf-8"@
    } else if e == "js"@ {
        "text/javascript"@
    } else if e == "css"@ {
        "text/css"@
    } else if e == "json"@ || e == "map"@ {
        "application/json"@
    } else if e == "ico"@ {
        "image/x-icon"@
    } else if e == "png"@ {
        "image/png"@
    } else if e == "jpg"@ || e == "jpeg"@ {
        "image/jpeg"@
    } else if e == "gif"@ {
        "image/gif"@
    } else if e == "svg"@ {
        "image/svg+xml"@
    } else if e == "txt"@ {
        "text/plain; charset=utf-8"@
    } else if e == "woff"@ {
        "font/woff"@
    } else if e == "woff2"@ {
        "font/woff2"@
    } else {
        "application/octet-stream"@
    }
}

/// The media type of a file.
pub fn content_type_for(path: &str) -> (r: &'static str)
    ensures
        r@ == media_type(extension_of(path@)),
{
    let s = text::chars_of(path);
    proof {
        text::lemma_last_at(s@, '.');
    }
    let from = match text::rfind(s.as_slice(), '.') {
        Some(k) => k + 1,
        None => 0,
    };
    let e = slice_subrange(s.as_slice(), from, s.len());
    assert(e@ =~= extension_of(path@));
    if text::is(e, "html") || text::is(e, "htm") {
        "text/html; charset=utf-8"
    } else if text::is(e, "js") {
        "text/javascript"
    } else if text::is(e, "css") {
        "text/css"
    } else if text::is(e, "json") || text::is(e, "map") {
        "application/json"
    } else if text::is(e, "ico") {
        "image/x-icon"
    } else if text::is(e, "png") {
        "image/png"
    } else if text::is(e, "jpg") || text::is(e, "jpeg") {
        "image/jpeg"
    } else if text::is(e, "gif") {
        "image/gif"
    } else if text::is(e, "svg") {
        "image/svg+xml"
    } else if text::is(e, "txt") {
        "text/plain; charset=utf-8"
    } else if text::is(e, "woff") {
        "font/woff"
    } else if text::is(e, "woff2") {
        "font/woff2"
    } else {
        "application/octet-stream"
    }
}

/// How a file is served.
#[derive(Debug)]
pub struct StaticAnswer {
    pub status: u16,
    pub content_type: &'static str,
    /// The value of `Content-Range`, where a part is served.
    pub content_range: Option<String>,
    /// The bytes that are served: from here
    pub start: usize,
    /// up to, but without, here.
    pub end: usize,
}

/// Decides how a file of `length` bytes is served.
pub fn serve_static(path: &str, range: RangeHeader, length: usize) -> (r: StaticAnswer)
    ensures
        r.content_type@ == media_type(extension_of(path@)),
        r.start <= r.end <= length,
        if range.start is Some || range.end is Some {
            &&& r.status == 206
            &&& r.start == range.aligned_start(length)
            &&& r.end == range.aligned_end(length)
            &&& r.content_range is Some
            &&& (r.content_range->0)@ == "bytes "@ + text::decimal(r.start as nat) + "-"@ + text::decimal(r.end as nat) + "/"@
                + text::decimal(length as nat)
        } else {
            r.status == 200 && r.start == 0 && r.end == length && r.content_range is None
        },
{
    let content_type = content_type_for(path);
    if range.has_value() {
        let (start, end) = range.align(length);
        let mut shown = text::owned("bytes ");
        text::push_decimal(&mut shown, start as u64);
        shown.push_str("-");
        text::push_decimal(&mut shown, end as u64);
        shown.push_str("/");
        text::push_decimal(&mut shown, length as u64);
        StaticAnswer { status: 206, content_type, content_range: Some(shown), start, end }
    } else {
        StaticAnswer { status: 200, content_type, content_range: None, start: 0, end: length }
    }
}

/// What an operation came to.
#[derive(Debug, Clone)]
pub struct SimpleOperationResult {
    pub success: bool,
    pub changed: bool,
    pub message: Option<String>,
}

impl SimpleOperationResult {
    pub fn ok(message: Option<String>) -> (r: Self)
        ensures
            r == (SimpleOperationResult { success: true, changed: true, message }),
    {
        SimpleOperationResult { success: true, changed: true, message }
    }

    pub fn ok_no_change(message: Option<String>) -> (r: Self)
        ensures
            r == (SimpleOperationResult { success: true, changed: false, message }),
    {
        SimpleOperationResult { success: true, changed: false, message }
    }

    pub fn fail(message: &str) -> (r: Self)
        ensures
            !r.success,
            !r.changed,
            r.message is Some && (r.message->0)@ == message@,
    {
        SimpleOperationResult { success: false, changed: false, message: Some(text::owned(message)) }
    }
}

/// Decides on stopping: whether the manager is to be stopped, and the answer.
pub fn stop(status: Status) -> (r: (bool, SimpleOperationResult))
    ensures
        r.0 == (status == Status::STARTED),
        match status {
            Status::STARTED => r.1 == (SimpleOperationResult { success: true, changed: true, message: None }),
            Status::STOPPED => r.1 == (SimpleOperationResult { success: true, changed: false, message: None }),
            _ => !r.1.success && !r.1.changed && r.1.message is Some && (r.1.message->0)@ == "should not happen"@,
        },
{
    match status {
        Status::STARTED => (true, SimpleOperationResult::ok(None)),
        Status::STOPPED => (false, SimpleOperationResult::ok_no_change(None)),
        _ => (false, SimpleOperationResult::fail("should not happen")),
    }
}

/// Decides on starting: only a stopped manager is started with the current
/// configuration; otherwise this is the answer.
pub fn start(status: Status) -> (r: Option<SimpleOperationResult>)
    ensures
        r == if status == Status::STOPPED {
            None
        } else {
            Some(SimpleOperationResult { success: true, changed: false, message: None })
        },
{
    match status {
        Status::STOPPED => None,
        _ => Some(SimpleOperationResult::ok_no_change(None)),
    }
}

/// What is said of the first rule whose pattern is no regular expression.
pub open spec fn dns_problem(rules: Seq<RegexDnsRule>) -> Option<Seq<char>>
    decreases rules.len(),
{
    if rules.len() == 0 {
        None
    } else {
        match patterns::pattern_fault(rules[0].hostname@, true) {
            Some(fault) => Some("invalid DNS regex `"@ + rules[0].hostname@ + "`: "@ + fault),
            None => dns_problem(rules.drop_first()),
        }
    }
}

/// Checks DNS rules before they are saved: what is wrong with the first one
/// whose pattern is no regular expression, if any.
pub fn check_dns_rules(rules: &Vec<RegexDnsRule>) -> (r: Option<String>)
    ensures
        match dns_problem(rules@) {
            Some(p) => r is Some && r->0@ == p,
            None => r is None,
        },
{
    let mut i: usize = 0;
    assert(rules@.skip(0) =~= rules@);
    while i < rules.len()
        invariant
            i <= rules@.len(),
            dns_problem(rules@) == dns_problem(rules@.skip(i as int)),
        decreases rules@.len() - i,
    {
        assert(rules@.skip(i as int)[0] == rules@[i as int]);
        assert(rules@.skip(i as int).drop_first() =~= rules@.skip(i + 1));
        if let Some(fault) = patterns::fault(rules[i].hostname.as_str(), true) {
            let mut problem = text::owned("invalid DNS regex `");
            problem.push_str(rules[i].hostname.as_str());
            problem.push_str("`: ");
            problem.push_str(fault.as_str());
            return Some(problem);
        }
        i = i + 1;
    }
    None
}

/// What the admin UI listens on.
#[derive(Debug)]
pub struct AdminListen {
    pub bind_address: String,
    pub bind_port: u16,
    pub tls: bool,
}

/// What the admin UI listens on, where it is configured at all.
pub fn listen_on(config: &Option<AdminServerConfig>) -> (r: Option<AdminListen>)
    ensures
        r is Some <==> config is Some,
        config matches Some(c) ==> {
            &&& (r->0).bind_port == match c.bind_port {
                Some(p) => p,
                None => 48888,
            }
            &&& (r->0).bind_address@ == match c.bind_address {
                Some(a) => a@,
                None => "0.0.0.0"@,
            }
            &&& (r->0).tls == match c.tls {
                Some(t) => t,
                None => false,
            }
        },
{
    match config {
        None => None,
        Some(c) => {
            let bind_address = match &c.bind_address {
                Some(a) => a.clone(),
                None => text::owned("0.0.0.0"),
            };
            let bind_port: u16 = match c.bind_port {
                Some(p) => p,
                None => 48888,
            };
            let tls = match c.tls {
                Some(t) => t,
                None => false,
            };
            Some(AdminListen { bind_address, bind_port, tls })
        },
    }
}

/// The configured name and password are accepted with a colon between them, and
/// no others; without a configuration any name and password are. A password may
/// hold colons.
pub proof fn the_configured_credentials_are_accepted(
    name: Seq<char>,
    word: Seq<char>,
    username: Option<Seq<char>>,
    password: Option<Seq<char>>,
)
    requires
        !name.contains(':'),
    ensures
        ({
            let given = Some(vstd::utf8::encode_utf8(name.push(':') + word));
            &&& accepted(given, Some(name), Some(word))
            &&& accepted(given, None, None)
            &&& username is Some && password is Some && (username != Some(name) || password != Some(word)) ==> !accepted(
                given,
                username,
                password,
            )
            &&& username is Some != password is Some ==> !accepted(given, username, password)
        }),
        !accepted(None, username, password),
{
    let s = name.push(':') + word;
    vstd::utf8::encode_utf8_valid_utf8(s);
    vstd::utf8::encode_utf8_decode_utf8(s);
    assert(s[name.len() as int] == ':');
    assert forall|k: int| 0 <= k < name.len() implies s[k] != ':' by {
        assert(s[k] == name[k]);
        assert(name.contains(name[k]));
    }
    text::lemma_first_at_is(s, ':', name.len() as int);
    assert(text::before(s, ':') =~= name);
    assert(text::after(s, ':') =~= word);
}

/// Credentials are read from a header whatever the case of its scheme.
pub proof fn credentials_are_read_in_any_case(scheme: Seq<char>, value: Seq<char>)
    requires
        text::lower(scheme) == "basic"@,
        value.len() > 0,
        !text::is_ws(value[0]),
        !text::is_ws(value.last()),
    ensures
        encoded_credentials(scheme.push(' ') + value) == Some(value),
{
    reveal_strlit("basic");
    let a = scheme.push(' ') + value;
    let none = Seq::<char>::empty();
    assert(scheme.len() == 5) by {
        assert(text::lower(scheme).len() == scheme.len());
    }
    assert(text::lower(a).take(5) =~= text::lower(scheme));
    assert(a.skip(5) =~= seq![' '] + value + none);
    text::trimming_takes_off_white_space_alone(seq![' '], value, none);
}

/// A part that lies within a file is served as it was asked for, and one that
/// does not is cut to the file.
pub proof fn a_part_is_cut_to_the_file(r: RangeHeader, size: usize)
    ensures
        r.aligned_start(size) <= r.aligned_end(size) <= size,
        r.start matches Some(s) && s <= size ==> r.aligned_start(size) == r.start->0,
        r.start is None ==> r.aligned_start(size) == 0,
        r.end is None ==> r.aligned_end(size) == size,
        r.end is Some && r.aligned_start(size) <= r.end->0 <= size ==> r.aligned_end(size) == r.end->0,
{
}

/// Rules are saved exactly if every pattern is a regular expression.
pub proof fn rules_with_good_patterns_are_saved(rules: Seq<RegexDnsRule>)
    ensures
        dns_problem(rules) is None <==> forall|i: int|
            0 <= i < rules.len() ==> patterns::pattern_fault((#[trigger] rules[i]).hostname@, true) is None,
    decreases rules.len(),
{
    if rules.len() > 0 {
        let rest = rules.drop_first();
        rules_with_good_patterns_are_saved(rest);
        if dns_problem(rules) is None {
            assert forall|i: int| 0 <= i < rules.len() implies patterns::pattern_fault(
                (#[trigger] rules[i]).hostname@,
                true,
            ) is None by {
                if i > 0 {
                    assert(rest[i - 1] == rules[i]);
                }
            }
        } else if patterns::pattern_fault(rules[0].hostname@, true) is None {
            let i = choose|i: int|
                0 <= i < rest.len() && patterns::pattern_fault((#[trigger] rest[i]).hostname@, true) is Some;
            assert(rules[i + 1] == rest[i]);
        }
    }
}

/// A file is served whole unless a range is asked for; then the bytes of the
/// range are served as far as the file has them.
pub proof fn a_file_is_served_as_far_as_it_goes(path: &str, range: RangeHeader, length: usize, r: StaticAnswer)
    requires
        call_ensures(serve_static, (path, range, length), r),
    ensures
        r.status == 200 <==> range.start is None && range.end is None,
        range.start is None && range.end is None ==> r.start == 0 && r.end == length && r.content_range is None,
        range.start is Some && range.start->0 <= length ==> r.start == range.start->0 && r.status == 206,
        range.start is Some && range.end is Some && range.start->0 <= range.end->0 && range.end->0 <= length ==> r.start
            == range.start->0 && r.end == range.end->0,
        range.end is None ==> r.end == length,
        range.start is None ==> r.start == 0,
{
}

/// The manager is stopped exactly if it was started, and started exactly if it
/// was stopped; asking twice changes nothing.
pub proof fn asking_twice_changes_nothing(status: Status, r: (bool, SimpleOperationResult), s: Option<SimpleOperationResult>)
    requires
        call_ensures(stop, (status,), r),
        call_ensures(start, (status,), s),
    ensures
        r.0 <==> status == Status::STARTED,
        r.1.changed <==> status == Status::STARTED,
        status == Status::STOPPED ==> r.1.success && !r.1.changed,
        s is None <==> status == Status::STOPPED,
        s matches Some(answer) ==> answer.success && !answer.changed,
{
}

/// The admin UI listens where it is configured to; on every address and port
/// 48888 without TLS where nothing is said.
pub proof fn the_admin_ui_listens_where_it_is_configured(config: AdminServerConfig, r: Option<AdminListen>)
    requires
        call_ensures(listen_on, (&Some(config),), r),
    ensures
        r is Some,
        config.bind_port is Some ==> (r->0).bind_port == config.bind_port->0,
        config.bind_port is None ==> (r->0).bind_port == 48888,
        config.bind_address is Some ==> (r->0).bind_address@ == (config.bind_address->0)@,
        config.bind_address is None ==> (r->0).bind_address@ == "0.0.0.0"@,
        (r->0).tls <==> config.tls == Some(true),
{
}

} // verus!
