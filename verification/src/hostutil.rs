//! Host and port pairs as they are written in targets.
use vstd::prelude::*;
use vstd::slice::slice_subrange;
use crate::patterns;
use crate::text;

verus! {

#[derive(Debug)]
pub struct HostAndPort {
    pub host: String,
    pub port: u16,
}

#[derive(Debug)]
pub struct ParseError {
    pub cause: String,
}

/// Whether `s` holds white space.
pub open spec fn has_ws(s: Seq<char>) -> bool {
    exists|i: int| 0 <= i < s.len() && text::is_ws(#[trigger] s[i])
}

/// A host: something without white space.
pub open spec fn is_host(s: Seq<char>) -> bool {
    s.len() > 0 && !has_ws(s)
}

/// The pattern of one decimal digit of any script.
pub const DECIMAL_DIGIT: &'static str = r"^\d$";

/// A decimal digit of any script.
pub open spec fn is_decimal(c: char) -> bool {
    text::is_digit(c) || (c as u32 >= 128 && patterns::pattern_compiles(DECIMAL_DIGIT@, false)
        && patterns::pattern_matches(DECIMAL_DIGIT@, false, seq![c]))
}

pub open spec fn all_decimal(s: Seq<char>) -> bool {
    forall|i: int| 0 <= i < s.len() ==> is_decimal(#[trigger] s[i])
}

/// The host before and the digits behind the last `sep`, with white space
/// around either.
pub open spec fn split_at_last(s: Seq<char>, sep: char) -> Option<(Seq<char>, Seq<char>)> {
    let k = text::last_at(s, sep);
    let host = text::trimmed(s.take(k));
    let port = text::trimmed(s.skip(k + 1));
    if k >= 0 && is_host(host) && port.len() > 0 && all_decimal(port) {
        Some((host, port))
    } else {
        None
    }
}

/// The word `host` in any case; the long s counts as an s.
pub open spec fn is_host_word(w: Seq<char>) -> bool {
    &&& w.len() == 4
    &&& text::lower_char(w[0]) == 'h'
    &&& text::lower_char(w[1]) == 'o'
    &&& (text::lower_char(w[2]) == 's' || w[2] == '\u{17f}')
    &&& text::lower_char(w[3]) == 't'
}

/// The word `port` in any case.
pub open spec fn is_port_word(w: Seq<char>) -> bool {
    &&& w.len() == 4
    &&& text::lower_char(w[0]) == 'p'
    &&& text::lower_char(w[1]) == 'o'
    &&& text::lower_char(w[2]) == 'r'
    &&& text::lower_char(w[3]) == 't'
}

/// `host = ... , port = ...`, with white space wherever it may stand.
pub open spec fn split_keyed(s: Seq<char>) -> Option<(Seq<char>, Seq<char>)> {
    let e = text::last_at(s, '=');
    let port = text::trimmed(s.skip(e + 1));
    let left = text::trimmed_end(s.take(e));
    let list = text::trimmed_end(left.take(left.len() - 4));
    let item = text::trimmed_start(list.drop_last());
    let value = text::trimmed_start(item.skip(4));
    let host = text::trimmed(value.skip(1));
    if e >= 0 && port.len() > 0 && all_decimal(port) && left.len() >= 4 && is_port_word(
        left.skip(left.len() - 4),
    ) && list.len() > 0 && list.last() == ',' && item.len() >= 4 && is_host_word(item.take(4)) && value.len() > 0
        && value[0] == '=' && is_host(host) {
        Some((host, port))
    } else {
        None
    }
}

/// The host and the port digits of a target: `host=xxx,port=yyy`,
/// `host:port`, `host@port` or `host|port`, in this order.
pub open spec fn split_target(s: Seq<char>) -> Option<(Seq<char>, Seq<char>)> {
    if split_keyed(s) is Some {
        split_keyed(s)
    } else if split_at_last(s, ':') is Some {
        split_at_last(s, ':')
    } else if split_at_last(s, '@') is Some {
        split_at_last(s, '@')
    } else {
        split_at_last(s, '|')
    }
}

/// The host and port that a target denotes. The port is read from the digits
/// `0` to `9` alone.
pub open spec fn target(s: Seq<char>) -> Option<(Seq<char>, u16)> {
    match split_target(s) {
        Some((host, digits)) => if text::all_digits(digits) && text::digits_value(digits) <= u16::MAX {
            Some((host, text::digits_value(digits) as u16))
        } else {
            None
        },
        None => None,
    }
}

/// Why a target is refused.
pub open spec fn target_error(s: Seq<char>) -> Seq<char> {
    match split_target(s) {
        Some((_, digits)) => digits + " (in "@ + s + ") is not valid port"@,
        None => "unsupported HostAndPort spec `"@ + s
            + "`. Support `host:port`, `host@port`, `host|port`, `host=xxx,port=yyy` formats only"@,
    }
}

/// What a host and a port are written as.
pub open spec fn shown(host: Seq<char>, port: u16) -> Seq<char> {
    host + ":"@ + text::decimal(port as nat)
}

fn host_ok(s: &[char]) -> (r: bool)
    ensures
        r == is_host(s@),
{
    if s.len() == 0 {
        return false;
    }
    let mut i: usize = 0;
    while i < s.len()
        invariant
            i <= s@.len(),
            forall|k: int| 0 <= k < i ==> !text::is_ws(#[trigger] s@[k]),
        decreases s@.len() - i,
    {
        if text::is_whitespace(s[i]) {
            assert(text::is_ws(s@[i as int]));
            return false;
        }
        i = i + 1;
    }
    true
}

fn decimal(c: char) -> (r: bool)
    ensures
        r == is_decimal(c),
{
    if (c as u32) < 128 {
        return text::is_ascii_digit(c);
    }
    let one = vec![c];
    let shown = text::string_of(one.as_slice());
    assert(one@ =~= seq![c]);
    match patterns::is_match(DECIMAL_DIGIT, false, shown.as_str()) {
        Some(found) => found,
        None => false,
    }
}

fn digits_ok(s: &[char]) -> (r: bool)
    ensures
        r == (s@.len() > 0 && all_decimal(s@)),
{
    if s.len() == 0 {
        return false;
    }
    let mut i: usize = 0;
    while i < s.len()
        invariant
            i <= s@.len(),
            forall|k: int| 0 <= k < i ==> is_decimal(#[trigger] s@[k]),
        decreases s@.len() - i,
    {
        if !decimal(s[i]) {
            assert(!is_decimal(s@[i as int]));
            return false;
        }
        i = i + 1;
    }
    true
}

fn at_last<'a>(s: &'a [char], sep: char) -> (r: Option<(&'a [char], &'a [char])>)
    ensures
        match split_at_last(s@, sep) {
            Some((h, p)) => r matches Some(x) && x.0@ == h && x.1@ == p,
            None => r is None,
        },
{
    let k = match text::rfind(s, sep) {
        Some(k) => k,
        None => return None,
    };
    let left = slice_subrange(s, 0, k);
    let right = slice_subrange(s, k + 1, s.len());
    assert(left@ =~= s@.take(k as int));
    assert(right@ =~= s@.skip(k + 1));
    let host = text::trim(left);
    let port = text::trim(right);
    if host_ok(host) && digits_ok(port) {
        Some((host, port))
    } else {
        None
    }
}

fn keyed<'a>(s: &'a [char]) -> (r: Option<(&'a [char], &'a [char])>)
    ensures
        match split_keyed(s@) {
            Some((h, p)) => r matches Some(x) && x.0@ == h && x.1@ == p,
            None => r is None,
        },
{
    let e = match text::rfind(s, '=') {
        Some(e) => e,
        None => return None,
    };
    let before = slice_subrange(s, 0, e);
    let behind = slice_subrange(s, e + 1, s.len());
    assert(before@ =~= s@.take(e as int));
    assert(behind@ =~= s@.skip(e + 1));
    let port = text::trim(behind);
    let left = text::trim_end(before);
    if !digits_ok(port) || left.len() < 4 {
        return None;
    }
    let n = left.len() - 4;
    let word = slice_subrange(left, n, left.len());
    assert(word@ =~= left@.skip(left@.len() - 4));
    if !(text::to_lower_char(word[0]) == 'p' && text::to_lower_char(word[1]) == 'o' && text::to_lower_char(word[2])
        == 'r' && text::to_lower_char(word[3]) == 't') {
        return None;
    }
    let head = slice_subrange(left, 0, n);
    assert(head@ =~= left@.take(left@.len() - 4));
    let list = text::trim_end(head);
    if list.len() == 0 || list[list.len() - 1] != ',' {
        return None;
    }
    let inner = slice_subrange(list, 0, list.len() - 1);
    assert(inner@ =~= list@.drop_last());
    let item = text::trim_start(inner);
    if item.len() < 4 {
        return None;
    }
    let key = slice_subrange(item, 0, 4);
    assert(key@ =~= item@.take(4));
    if !(text::to_lower_char(key[0]) == 'h' && text::to_lower_char(key[1]) == 'o' && (text::to_lower_char(key[2])
        == 's' || key[2] == '\u{17f}') && text::to_lower_char(key[3]) == 't') {
        return None;
    }
    let rest = slice_subrange(item, 4, item.len());
    assert(rest@ =~= item@.skip(4));
    let value = text::trim_start(rest);
    if value.len() == 0 || value[0] != '=' {
        return None;
    }
    let tail = slice_subrange(value, 1, value.len());
    assert(tail@ =~= value@.skip(1));
    let host = text::trim(tail);
    if host_ok(host) {
        Some((host, port))
    } else {
        None
    }
}

/// A row of digits has no plus sign in front.
proof fn lemma_digits_are_unsigned(d: Seq<char>)
    requires
        d.len() > 0,
        all_decimal(d),
    ensures
        text::unsigned(d, u16::MAX as nat) == if text::all_digits(d) && text::digits_value(d) <= u16::MAX {
            Some(text::digits_value(d))
        } else {
            None
        },
{
    assert(is_decimal(d[0]));
}

impl HostAndPort {
    pub fn new(host: String, port: u16) -> (r: HostAndPort)
        ensures
            r.host@ == host@,
            r.port == port,
    {
        HostAndPort { host, port }
    }

    pub fn host(&self) -> (r: &str)
        ensures
            r@ == self.host@,
    {
        self.host.as_str()
    }

    pub fn port(&self) -> (r: u16)
        ensures
            r == self.port,
    {
        self.port
    }

    /// Parses a target in one of the supported notations.
    pub fn parse(input: &str) -> (r: Result<HostAndPort, ParseError>)
        ensures
            match target(input@) {
                Some((host, port)) => r is Ok && r->Ok_0.host@ == host && r->Ok_0.port == port,
                None => r is Err && r->Err_0.cause@ == target_error(input@),
            },
    {
        let s = text::chars_of(input);
        let found = match keyed(s.as_slice()) {
            Some(x) => Some(x),
            None => match at_last(s.as_slice(), ':') {
                Some(x) => Some(x),
                None => match at_last(s.as_slice(), '@') {
                    Some(x) => Some(x),
                    None => at_last(s.as_slice(), '|'),
                },
            },
        };
        match found {
            Some((host, digits)) => {
                proof {
                    lemma_digits_are_unsigned(digits@);
                }
                match text::parse_u16(digits) {
                    Some(port) => Ok(HostAndPort { host: text::string_of(host), port }),
                    None => {
                        let mut cause = text::string_of(digits);
                        cause.push_str(" (in ");
                        cause.push_str(input);
                        cause.push_str(") is not valid port");
                        Err(ParseError { cause })
                    },
                }
            },
            None => {
                let mut cause = text::owned("unsupported HostAndPort spec `");
                cause.push_str(input);
                cause.push_str(
                    "`. Support `host:port`, `host@port`, `host|port`, `host=xxx,port=yyy` formats only",
                );
                Err(ParseError { cause })
            },
        }
    }

    /// Parse a host port spec. If it is sufficient, return the parsed result.
    /// If it is failing, return host:default_port
    pub fn parse_or_default(host: &str, default_port: u16) -> (r: HostAndPort)
        ensures
            match target(host@) {
                Some((h, p)) => r.host@ == h && r.port == p,
                None => r.host@ == host@ && r.port == default_port,
            },
    {
        match HostAndPort::parse(host) {
            Ok(parsed) => parsed,
            Err(_) => HostAndPort { host: text::owned(host), port: default_port },
        }
    }

    pub fn to_string(&self) -> (r: String)
        ensures
            r@ == shown(self.host@, self.port),
    {
        let mut out = self.host.clone();
        out.push_str(":");
        text::push_decimal(&mut out, self.port as u64);
        out
    }
}

impl std::str::FromStr for HostAndPort {
    type Err = ParseError;

    fn from_str(input: &str) -> (r: Result<HostAndPort, ParseError>) {
        HostAndPort::parse(input)
    }
}

proof fn lemma_one_separator(host: Seq<char>, sep: char, digits: Seq<char>)
    requires
        is_host(host),
        digits.len() > 0,
        text::all_digits(digits),
        !text::is_digit(sep),
    ensures
        split_at_last(host.push(sep) + digits, sep) == Some((host, digits)),
{
    let s = host.push(sep) + digits;
    let none = Seq::<char>::empty();
    text::lemma_digits_hold_nothing_else(digits, sep);
    text::lemma_last_at(s, sep);
    let k = text::last_at(s, sep);
    assert(s[host.len() as int] == sep);
    if k > host.len() {
        assert(s[k] == digits[k - host.len() - 1]);
        assert(digits.contains(digits[k - host.len() - 1]));
    }
    assert(s.take(k) =~= host);
    assert(s.skip(k + 1) =~= digits);
    assert(!text::is_ws(host[0]) && !text::is_ws(host[host.len() - 1]));
    assert(text::is_digit(digits[0]) && text::is_digit(digits[digits.len() - 1]));
    assert(none + host + none =~= host);
    assert(none + digits + none =~= digits);
    text::trimming_takes_off_white_space_alone(none, host, none);
    text::trimming_takes_off_white_space_alone(none, digits, none);
}

proof fn lemma_absent_separator(s: Seq<char>, sep: char)
    requires
        !s.contains(sep),
    ensures
        split_at_last(s, sep) is None,
{
    text::lemma_last_at(s, sep);
    if text::last_at(s, sep) >= 0 {
        assert(s.contains(s[text::last_at(s, sep)]));
    }
}

proof fn lemma_unkeyed(s: Seq<char>)
    requires
        !s.contains('='),
    ensures
        split_keyed(s) is None,
{
    text::lemma_last_at(s, '=');
    if text::last_at(s, '=') >= 0 {
        assert(s.contains(s[text::last_at(s, '=')]));
    }
}

proof fn lemma_absent_from_parts(host: Seq<char>, sep: char, digits: Seq<char>, c: char)
    requires
        !host.contains(c),
        sep != c,
        text::all_digits(digits),
        !text::is_digit(c),
    ensures
        !(host.push(sep) + digits).contains(c),
{
    let s = host.push(sep) + digits;
    text::lemma_digits_hold_nothing_else(digits, c);
    if s.contains(c) {
        let i = choose|i: int| 0 <= i < s.len() && s[i] == c;
        if i < host.len() {
            assert(host.contains(host[i]));
        } else if i > host.len() {
            assert(digits.contains(digits[i - host.len() - 1]));
        }
    }
}

/// A host and a port that are written with a colon, an at sign or a bar between
/// them are read back, whatever port it is; a host may hold colons of its own.
pub proof fn a_written_target_reads_back(host: Seq<char>, port: u16)
    requires
        host.len() > 0,
        forall|i: int| 0 <= i < host.len() ==> !text::is_ws(#[trigger] host[i]) && host[i] != '=',
    ensures
        target(shown(host, port)) == Some((host, port)),
        target(host.push(':') + text::decimal(port as nat)) == Some((host, port)),
        !host.contains(':') ==> target(host.push('@') + text::decimal(port as nat)) == Some((host, port)),
        !host.contains(':') && !host.contains('@') ==> target(host.push('|') + text::decimal(port as nat)) == Some(
            (host, port),
        ),
{
    reveal_strlit(":");
    let d = text::decimal(port as nat);
    text::decimal_notation_reads_back(port as nat, u16::MAX as nat);
    assert(!host.contains('=')) by {
        if host.contains('=') {
            let i = choose|i: int| 0 <= i < host.len() && host[i] == '=';
            assert(host[i] != '=');
        }
    }
    assert(is_host(host));
    assert(shown(host, port) =~= host.push(':') + d);
    lemma_one_separator(host, ':', d);
    lemma_absent_from_parts(host, ':', d, '=');
    lemma_unkeyed(host.push(':') + d);
    lemma_one_separator(host, '@', d);
    lemma_absent_from_parts(host, '@', d, '=');
    lemma_unkeyed(host.push('@') + d);
    lemma_one_separator(host, '|', d);
    lemma_absent_from_parts(host, '|', d, '=');
    lemma_unkeyed(host.push('|') + d);
    if !host.contains(':') {
        lemma_absent_from_parts(host, '@', d, ':');
        lemma_absent_separator(host.push('@') + d, ':');
        lemma_absent_from_parts(host, '|', d, ':');
        lemma_absent_separator(host.push('|') + d, ':');
    }
    if !host.contains('@') {
        lemma_absent_from_parts(host, '|', d, '@');
        lemma_absent_separator(host.push('|') + d, '@');
    }
}

/// A bare host is no target: it has no port.
pub proof fn a_bare_host_is_no_target(host: Seq<char>)
    requires
        !host.contains('='),
        !host.contains(':'),
        !host.contains('@'),
        !host.contains('|'),
    ensures
        target(host) is None,
{
    lemma_unkeyed(host);
    lemma_absent_separator(host, ':');
    lemma_absent_separator(host, '@');
    lemma_absent_separator(host, '|');
}

} // verus!
