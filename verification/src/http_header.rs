//! The head of a plaintext HTTP/1.x request: where it ends, what it routes
//! to, and how a hop rewrites it.
use vstd::prelude::*;
use vstd::slice::slice_subrange;
use crate::bytes;
use crate::net::IpAddr;
use crate::text;

verus! {

pub const DEFAULT_MAX_HTTP_HEADER_SIZE: usize = 262144;

/// The most bytes that one read asks for while the head is incomplete.
pub const READ_CHUNK: usize = 4096;

/// The buffered start of a plaintext HTTP/1.x connection: everything read so
/// far (`buffered`, which may extend past the header block into the body) and
/// the routing facts parsed from the request head.
#[derive(Debug)]
pub struct HttpHead {
    /// Hostname from the `Host` header, without any port.
    pub host: String,
    /// Explicit port from the `Host` header, when the client sent one.
    pub port: Option<u16>,
    /// The raw `Host` header value (`example.com` or `example.com:8080`).
    pub host_raw: String,
    /// Bytes read from the client; the head occupies `..head_len`.
    pub buffered: Vec<u8>,
    pub head_len: usize,
}

/// What is wrong with a request head.
#[derive(Debug, Clone, Copy, PartialEq, Eq, Structural)]
pub enum HeadFault {
    TooLarge,
    NotUtf8,
    MalformedRequestLine,
    UnsupportedVersion,
    FoldedHost,
    MalformedHeader,
    MultipleHosts,
    MissingHost,
    EmptyHost,
    InvalidIpv6Host,
    InvalidHost,
    InvalidPort,
}

/// Why a request head is refused: what is wrong with it, and the part of it
/// that is at fault where the message names one.
#[derive(Debug)]
pub struct HeadError {
    pub fault: HeadFault,
    pub named: String,
}

impl HeadFault {
    pub open spec fn text(self, named: Seq<char>) -> Seq<char> {
        match self {
            HeadFault::TooLarge => "HTTP request head exceeds the "@ + named + "-byte limit"@,
            HeadFault::NotUtf8 => "HTTP request head is not valid UTF-8"@,
            HeadFault::MalformedRequestLine => "malformed HTTP request line"@,
            HeadFault::UnsupportedVersion => "only HTTP/1.x requests are supported, got `"@ + named + "`"@,
            HeadFault::FoldedHost => "folded Host header is not supported"@,
            HeadFault::MalformedHeader => "malformed HTTP header line"@,
            HeadFault::MultipleHosts => "HTTP request contains multiple Host headers"@,
            HeadFault::MissingHost => "HTTP request does not contain a Host header"@,
            HeadFault::EmptyHost => "HTTP Host header is empty"@,
            HeadFault::InvalidIpv6Host => "invalid IPv6 Host header `"@ + named + "`"@,
            HeadFault::InvalidHost => "invalid HTTP Host header `"@ + named + "`"@,
            HeadFault::InvalidPort => "invalid port in Host header `"@ + named + "`"@,
        }
    }
}

impl HeadError {
    /// A fault whose message names nothing.
    fn plain(fault: HeadFault) -> (r: HeadError)
        ensures
            r.fault == fault,
            r.named@ == Seq::<char>::empty(),
    {
        HeadError { fault, named: String::new() }
    }

    /// A head of more than `max_size` bytes.
    pub fn too_large(max_size: usize) -> (r: HeadError)
        ensures
            r.fault == HeadFault::TooLarge,
            r.named@ == text::decimal(max_size as nat),
    {
        let mut named = String::new();
        text::push_decimal(&mut named, max_size as u64);
        assert(named@ =~= text::decimal(max_size as nat));
        HeadError { fault: HeadFault::TooLarge, named }
    }

    pub fn message(&self) -> (r: String)
        ensures
            r@ == self.fault.text(self.named@),
    {
        let before = match self.fault {
            HeadFault::TooLarge => "HTTP request head exceeds the ",
            HeadFault::NotUtf8 => return text::owned("HTTP request head is not valid UTF-8"),
            HeadFault::MalformedRequestLine => return text::owned("malformed HTTP request line"),
            HeadFault::UnsupportedVersion => "only HTTP/1.x requests are supported, got `",
            HeadFault::FoldedHost => return text::owned("folded Host header is not supported"),
            HeadFault::MalformedHeader => return text::owned("malformed HTTP header line"),
            HeadFault::MultipleHosts => return text::owned("HTTP request contains multiple Host headers"),
            HeadFault::MissingHost => return text::owned("HTTP request does not contain a Host header"),
            HeadFault::EmptyHost => return text::owned("HTTP Host header is empty"),
            HeadFault::InvalidIpv6Host => "invalid IPv6 Host header `",
            HeadFault::InvalidHost => "invalid HTTP Host header `",
            HeadFault::InvalidPort => "invalid port in Host header `",
        };
        let mut out = text::owned(before);
        out.push_str(self.named.as_str());
        out.push_str(
            if self.fault == HeadFault::TooLarge {
                "-byte limit"
            } else {
                "`"
            },
        );
        out
    }
}

/// Whether a blank line follows the line feed at `i`: `\n\n` or `\n\r\n`.
pub open spec fn blank_after(b: Seq<u8>, i: int) -> bool {
    &&& 0 <= i < b.len()
    &&& b[i] == 10
    &&& (i + 1 < b.len() && b[i + 1] == 10) || (i + 2 < b.len() && b[i + 1] == 13 && b[i + 2] == 10)
}

/// The length of the head whose blank line follows the line feed at `i`.
pub open spec fn length_through(b: Seq<u8>, i: int) -> int {
    if b[i + 1] == 10 {
        i + 2
    } else {
        i + 3
    }
}

/// The length of the head including its blank line, searched from `from`.
pub open spec fn head_end_from(b: Seq<u8>, from: int) -> Option<int>
    decreases b.len() - from,
{
    if from >= b.len() {
        None
    } else if blank_after(b, from) {
        Some(length_through(b, from))
    } else {
        head_end_from(b, from + 1)
    }
}

/// The length of the head including its blank line.
pub open spec fn head_end(b: Seq<u8>) -> Option<int> {
    head_end_from(b, 0)
}

/// The head ends at the first blank line, and there is an end exactly where
/// there is a blank line.
pub proof fn head_ends_at_the_first_blank_line(b: Seq<u8>)
    ensures
        head_end(b) is None <==> forall|i: int| !blank_after(b, i),
        head_end(b) is Some ==> exists|i: int| #[trigger] blank_after(b, i) && head_end(b)->0
            == length_through(b, i) && forall|j: int| j < i ==> !blank_after(b, j),
        head_end(b) is Some ==> 0 < head_end(b)->0 <= b.len(),
{
    lemma_head_end_from(b, 0);
    assert forall|i: int| i < 0 implies !blank_after(b, i) by {}
    if head_end(b) is None {
        assert forall|i: int| !blank_after(b, i) by {}
    } else {
        let i = choose|i: int| 0 <= i && #[trigger] blank_after(b, i) && head_end(b)->0 == length_through(b, i) && forall|j: int| 0 <= j < i ==> !blank_after(b, j);
        assert(blank_after(b, i));
    }
}

proof fn lemma_head_end_from(b: Seq<u8>, from: int)
    requires
        0 <= from,
    ensures
        head_end_from(b, from) is None ==> forall|i: int| from <= i ==> !blank_after(b, i),
        head_end_from(b, from) is Some ==> exists|i: int|
            from <= i && #[trigger] blank_after(b, i) && head_end_from(b, from)->0 == length_through(b, i)
                && forall|j: int| from <= j < i ==> !blank_after(b, j),
        head_end_from(b, from) is Some ==> from < head_end_from(b, from)->0 <= b.len(),
    decreases b.len() - from,
{
    if from < b.len() {
        if blank_after(b, from) {
        } else {
            lemma_head_end_from(b, from + 1);
            if head_end_from(b, from) is Some {
                let i = choose|i: int| from + 1 <= i && #[trigger] blank_after(b, i) && head_end_from(b, from + 1)->0 == length_through(b, i) && forall|j: int| from + 1 <= j < i ==> !blank_after(b, j);
                assert forall|j: int| from <= j < i implies !blank_after(b, j) by {}
                assert(blank_after(b, i));
            }
        }
    }
}

/// Returns the length of the head including the blank-line terminator.
/// Accepts `\r\n\r\n` and, leniently, bare `\n\n`.
pub fn find_head_end(buffered: &[u8]) -> (r: Option<usize>)
    ensures
        r is None <==> head_end(buffered@) is None,
        r is Some ==> head_end(buffered@) == Some(r->0 as int) && 0 < r->0 <= buffered@.len(),
{
    let n = buffered.len();
    let mut index: usize = 0;
    while index < n
        invariant
            n == buffered@.len(),
            index <= n,
            head_end(buffered@) == head_end_from(buffered@, index as int),
        decreases n - index,
    {
        if buffered[index] == 10 && n - index > 1 {
            if buffered[index + 1] == 10 {
                return Some(index + 2);
            }
            if n - index > 2 && buffered[index + 1] == 13 && buffered[index + 2] == 10 {
                return Some(index + 3);
            }
        }
        index = index + 1;
    }
    None
}

/// What to do next while a request head is being read.
#[derive(Debug, Clone, Copy, PartialEq, Eq, Structural)]
pub enum ReadStep {
    /// The head is complete and has this length.
    Parse(usize),
    /// Read at most this many bytes more.
    Read(usize),
    /// The limit is reached without a complete head.
    TooLarge,
}

/// Decides the next step of reading a head of at most `max_size` bytes.
pub fn next_read(buffered: &[u8], max_size: usize) -> (r: ReadStep)
    ensures
        r == match head_end(buffered@) {
            Some(n) => ReadStep::Parse(n as usize),
            None => if buffered@.len() >= max_size {
                ReadStep::TooLarge
            } else if max_size - buffered@.len() < READ_CHUNK {
                ReadStep::Read((max_size - buffered@.len()) as usize)
            } else {
                ReadStep::Read(READ_CHUNK)
            },
        },
        r matches ReadStep::Parse(n) ==> head_end(buffered@) == Some(n as int) && n <= buffered@.len(),
        r matches ReadStep::Read(n) ==> 0 < n && buffered@.len() + n <= max_size,
{
    match find_head_end(buffered) {
        Some(n) => ReadStep::Parse(n),
        None => {
            if buffered.len() >= max_size {
                ReadStep::TooLarge
            } else {
                let room: usize = max_size - buffered.len();
                if room < READ_CHUNK {
                    ReadStep::Read(room)
                } else {
                    ReadStep::Read(READ_CHUNK)
                }
            }
        },
    }
}

/// Why a request line is refused: it takes a method, a target and an HTTP/1.x
/// version, and nothing more.
pub open spec fn request_line_error(line: Seq<char>) -> Option<HeadFault> {
    let w = text::words(line);
    if w.len() < 2 || w.len() > 3 {
        Some(HeadFault::MalformedRequestLine)
    } else if w.len() == 2 || !text::begins(w[2], "HTTP/1."@) {
        Some(HeadFault::UnsupportedVersion)
    } else {
        None
    }
}

/// The version that a request line of three words ends in.
pub open spec fn version_of(line: Seq<char>) -> Seq<char> {
    let w = text::words(line);
    if w.len() == 3 {
        w[2]
    } else {
        seq![]
    }
}

pub fn validate_request_line(line: &[char]) -> (r: Result<(), HeadError>)
    ensures
        match request_line_error(line@) {
            Some(e) => r is Err && r->Err_0.fault == e && r->Err_0.named@ == version_of(line@),
            None => r is Ok,
        },
{
    let w = text::split_words(line);
    if w.len() < 2 || w.len() > 3 {
        return Err(HeadError::plain(HeadFault::MalformedRequestLine));
    }
    if w.len() == 2 {
        return Err(HeadError::plain(HeadFault::UnsupportedVersion));
    }
    let prefix = text::chars_of("HTTP/1.");
    if !text::starts_with(w[2].as_slice(), prefix.as_slice()) {
        let named = text::string_of(w[2].as_slice());
        return Err(HeadError { fault: HeadFault::UnsupportedVersion, named });
    }
    Ok(())
}

/// Whether a header line continues the one before it.
pub open spec fn is_fold(line: Seq<char>) -> bool {
    line.len() > 0 && (line[0] == ' ' || line[0] == '\t')
}

fn line_is_fold(line: &[char]) -> (r: bool)
    ensures
        r == is_fold(line@),
{
    line.len() > 0 && (line[0] == ' ' || line[0] == '\t')
}

/// The name of a header line in lower case.
pub open spec fn name_of(line: Seq<char>) -> Seq<char> {
    text::lower(text::trimmed(text::before(line, ':')))
}

/// The value of a header line.
pub open spec fn value_of(line: Seq<char>) -> Seq<char> {
    text::trimmed(text::after(line, ':'))
}

/// The value of the one `Host` line among header lines, given what the lines
/// before them held.
pub open spec fn host_line(lines: Seq<Seq<char>>, host: Option<Seq<char>>, last_was_host: bool) -> Result<
    Option<Seq<char>>,
    HeadFault,
>
    decreases lines.len(),
{
    if lines.len() == 0 || lines[0].len() == 0 {
        Ok(host)
    } else if is_fold(lines[0]) {
        if last_was_host {
            Err(HeadFault::FoldedHost)
        } else {
            host_line(lines.drop_first(), host, last_was_host)
        }
    } else if !lines[0].contains(':') {
        Err(HeadFault::MalformedHeader)
    } else if name_of(lines[0]) == "host"@ {
        if host is Some {
            Err(HeadFault::MultipleHosts)
        } else {
            host_line(lines.drop_first(), Some(value_of(lines[0])), true)
        }
    } else {
        host_line(lines.drop_first(), host, false)
    }
}

/// The host and the port that a `Host` header value names.
pub open spec fn host_port(value: Seq<char>) -> Result<(Seq<char>, Option<u16>), HeadFault> {
    if value.len() == 0 {
        Err(HeadFault::EmptyHost)
    } else if value[0] == '[' {
        let rest = value.skip(1);
        if !rest.contains(']') {
            Err(HeadFault::InvalidIpv6Host)
        } else {
            let tail = text::after(rest, ']');
            host_and_port_text(
                text::before(rest, ']'),
                if tail.len() > 0 && tail[0] == ':' {
                    Some(tail.skip(1))
                } else {
                    None
                },
            )
        }
    } else if text::last_at(value, ':') >= 0 {
        let k = text::last_at(value, ':');
        host_and_port_text(value.take(k), Some(value.skip(k + 1)))
    } else {
        host_and_port_text(value, None)
    }
}

pub open spec fn host_and_port_text(host: Seq<char>, port: Option<Seq<char>>) -> Result<
    (Seq<char>, Option<u16>),
    HeadFault,
> {
    if host.len() == 0 || exists|i: int| 0 <= i < host.len() && text::is_ws(#[trigger] host[i]) {
        Err(HeadFault::InvalidHost)
    } else {
        match port {
            Some(p) => match text::unsigned(p, u16::MAX as nat) {
                Some(n) => Ok((host, Some(n as u16))),
                None => Err(HeadFault::InvalidPort),
            },
            None => Ok((host, None)),
        }
    }
}

fn checked_host_port(host: &[char], port: Option<&[char]>) -> (r: Result<(String, Option<u16>), HeadFault>)
    ensures
        match host_and_port_text(host@, match port { Some(p) => Some(p@), None => None }) {
            Ok((h, p)) => r is Ok && r->Ok_0.0@ == h && r->Ok_0.1 == p,
            Err(e) => r is Err && r->Err_0 == e,
        },
{
    if host.len() == 0 {
        return Err(HeadFault::InvalidHost);
    }
    let mut i: usize = 0;
    while i < host.len()
        invariant
            i <= host@.len(),
            forall|k: int| 0 <= k < i ==> !text::is_ws(#[trigger] host@[k]),
        decreases host@.len() - i,
    {
        if text::is_whitespace(host[i]) {
            assert(text::is_ws(host@[i as int]));
            return Err(HeadFault::InvalidHost);
        }
        i = i + 1;
    }
    match port {
        Some(p) => match text::parse_u16(p) {
            Some(n) => Ok((text::string_of(host), Some(n))),
            None => Err(HeadFault::InvalidPort),
        },
        None => Ok((text::string_of(host), None)),
    }
}

/// Splits `example.com`, `example.com:8080`, `[::1]`, or `[::1]:8080` from a
/// Host header value.
pub fn split_host_port(value: &[char]) -> (r: Result<(String, Option<u16>), HeadFault>)
    ensures
        match host_port(value@) {
            Ok((h, p)) => r is Ok && r->Ok_0.0@ == h && r->Ok_0.1 == p,
            Err(e) => r is Err && r->Err_0 == e,
        },
{
    if value.len() == 0 {
        return Err(HeadFault::EmptyHost);
    }
    if value[0] == '[' {
        let rest = slice_subrange(value, 1, value.len());
        let k = text::find(rest, ']');
        assert(rest@ =~= value@.skip(1));
        if k == rest.len() {
            return Err(HeadFault::InvalidIpv6Host);
        }
        let host = slice_subrange(rest, 0, k);
        let tail = slice_subrange(rest, k + 1, rest.len());
        assert(host@ =~= text::before(rest@, ']'));
        assert(tail@ =~= text::after(rest@, ']'));
        if tail.len() > 0 && tail[0] == ':' {
            let port = slice_subrange(tail, 1, tail.len());
            assert(port@ =~= tail@.skip(1));
            checked_host_port(host, Some(port))
        } else {
            checked_host_port(host, None)
        }
    } else {
        match text::rfind(value, ':') {
            Some(k) => {
                let host = slice_subrange(value, 0, k);
                let port = slice_subrange(value, k + 1, value.len());
                assert(host@ =~= value@.take(k as int));
                assert(port@ =~= value@.skip(k + 1));
                checked_host_port(host, Some(port))
            },
            None => checked_host_port(value, None),
        }
    }
}

/// The routing facts of a head: host, port and raw host value; or what is
/// wrong with it and the part at fault.
pub open spec fn parsed(buffered: Seq<u8>, head_len: int) -> Result<
    (Seq<char>, Option<u16>, Seq<char>),
    (HeadFault, Seq<char>),
> {
    let raw = buffered.take(head_len);
    if !vstd::utf8::valid_utf8(raw) {
        Err((HeadFault::NotUtf8, seq![]))
    } else {
        let lines = text::lines(vstd::utf8::decode_utf8(raw));
        match request_line_error(lines[0]) {
            Some(e) => Err((e, version_of(lines[0]))),
            None => match host_line(lines.skip(1), None, false) {
                Err(e) => Err((e, seq![])),
                Ok(None) => Err((HeadFault::MissingHost, seq![])),
                Ok(Some(value)) => match host_port(value) {
                    Ok((host, port)) => Ok((host, port, value)),
                    Err(e) => Err((e, value)),
                },
            },
        }
    }
}

/// Parses the head that occupies the first `head_len` bytes.
pub fn parse_head(buffered: Vec<u8>, head_len: usize) -> (r: Result<HttpHead, HeadError>)
    requires
        head_len <= buffered@.len(),
    ensures
        match parsed(buffered@, head_len as int) {
            Ok((host, port, raw)) => r is Ok && r->Ok_0.host@ == host && r->Ok_0.port == port
                && r->Ok_0.host_raw@ == raw && r->Ok_0.buffered@ == buffered@ && r->Ok_0.head_len == head_len,
            Err((e, named)) => r is Err && r->Err_0.fault == e && r->Err_0.named@ == named,
        },
        r is Ok ==> r->Ok_0.wf(),
{
    let raw = slice_subrange(buffered.as_slice(), 0, head_len);
    assert(raw@ =~= buffered@.take(head_len as int));
    let head = match text::utf8_text(raw) {
        Some(s) => text::chars_of(s.as_str()),
        None => return Err(HeadError::plain(HeadFault::NotUtf8)),
    };
    let lines = text::split_lines(head.as_slice());
    let ghost all = text::lines(head@);
    match validate_request_line(lines[0]) {
        Ok(()) => {},
        Err(e) => return Err(e),
    }
    let mut host: Option<&[char]> = None;
    let mut last_was_host = false;
    let mut i: usize = 1;
    let mut done = false;
    while i < lines.len() && !done
        invariant
            1 <= i <= lines@.len(),
            all == text::lines(head@),
            lines@.len() == all.len(),
            forall|k: int| 0 <= k < lines@.len() ==> (#[trigger] lines@[k])@ == all[k],
            done ==> host_line(all.skip(1), None, false) == Ok::<Option<Seq<char>>, HeadFault>(
                match host { Some(h) => Some(h@), None => None },
            ),
            !done ==> host_line(all.skip(1), None, false) == host_line(
                all.skip(i as int),
                match host { Some(h) => Some(h@), None => None },
                last_was_host,
            ),
            request_line_error(all[0]) is None,
            vstd::utf8::valid_utf8(buffered@.take(head_len as int)),
            head@ == vstd::utf8::decode_utf8(buffered@.take(head_len as int)),
        decreases lines@.len() - i, (if done { 0int } else { 1int }),
    {
        let line = lines[i];
        let ghost rest = all.skip(i as int);
        assert(rest[0] == line@);
        assert(rest.drop_first() =~= all.skip(i + 1));
        if line.len() == 0 {
            done = true;
        } else if line_is_fold(line) {
            if last_was_host {
                return Err(HeadError::plain(HeadFault::FoldedHost));
            }
            i = i + 1;
        } else {
            let k = text::find(line, ':');
            if k == line.len() {
                return Err(HeadError::plain(HeadFault::MalformedHeader));
            }
            let name = slice_subrange(line, 0, k);
            let value = slice_subrange(line, k + 1, line.len());
            assert(name@ =~= text::before(line@, ':'));
            assert(value@ =~= text::after(line@, ':'));
            let lowered = text::to_lower(text::trim(name));
            last_was_host = text::is(lowered.as_slice(), "host");
            if last_was_host {
                if host.is_some() {
                    return Err(HeadError::plain(HeadFault::MultipleHosts));
                }
                host = Some(text::trim(value));
            }
            i = i + 1;
        }
    }
    proof {
        if !done {
            assert(all.skip(i as int).len() == 0);
        }
    }
    let value = match host {
        Some(h) => h,
        None => return Err(HeadError::plain(HeadFault::MissingHost)),
    };
    match split_host_port(value) {
        Ok((h, p)) => {
            let host_raw = text::string_of(value);
            Ok(HttpHead { host: h, port: p, host_raw, buffered, head_len })
        },
        Err(fault) => Err(HeadError { fault, named: text::string_of(value) }),
    }
}

/// The values of the header lines named `name`, in order, up to the first
/// blank line.
pub open spec fn values_named(lines: Seq<Seq<char>>, name: Seq<char>) -> Seq<Seq<char>>
    decreases lines.len(),
{
    if lines.len() == 0 || lines[0].len() == 0 {
        seq![]
    } else if !is_fold(lines[0]) && lines[0].contains(':') && name_of(lines[0]) == name {
        seq![value_of(lines[0])] + values_named(lines.drop_first(), name)
    } else {
        values_named(lines.drop_first(), name)
    }
}

/// The forwarding headers that a hop replaces.
pub open spec fn is_forwarding(name: Seq<char>) -> bool {
    name == "x-forwarded-for"@ || name == "forwarded"@ || name == "x-forwarded-host"@ || name
        == "x-forwarded-proto"@
}

/// Whether a hop leaves a header out of what it passes on: the forwarding
/// headers, and the credentials if it consumed them.
pub open spec fn is_left_out(name: Seq<char>, consumed: bool) -> bool {
    is_forwarding(name) || (consumed && name == "authorization"@)
}

/// The header lines that a hop passes on: all but the headers that it leaves
/// out and their continuation lines.
pub open spec fn kept_lines(lines: Seq<Seq<char>>, skipping: bool, consumed: bool) -> Seq<Seq<char>>
    decreases lines.len(),
{
    if lines.len() == 0 || lines[0].len() == 0 {
        seq![]
    } else if is_fold(lines[0]) {
        if skipping {
            kept_lines(lines.drop_first(), skipping, consumed)
        } else {
            seq![lines[0]] + kept_lines(lines.drop_first(), skipping, consumed)
        }
    } else if lines[0].contains(':') && is_left_out(name_of(lines[0]), consumed) {
        kept_lines(lines.drop_first(), true, consumed)
    } else {
        seq![lines[0]] + kept_lines(lines.drop_first(), false, consumed)
    }
}

/// Lines in a row, each with its line end.
pub open spec fn with_ends(lines: Seq<Seq<char>>) -> Seq<char>
    decreases lines.len(),
{
    if lines.len() == 0 {
        seq![]
    } else {
        lines[0] + "\r\n"@ + with_ends(lines.drop_first())
    }
}

/// The header lines that a hop passes on, each with its line end.
pub open spec fn passed_on(lines: Seq<Seq<char>>, skipping: bool, consumed: bool) -> Seq<char> {
    with_ends(kept_lines(lines, skipping, consumed))
}

/// Credentials that a hop consumed are not passed on, and neither is a
/// forwarding header. What is passed on stood in the request.
pub proof fn consumed_credentials_are_not_passed_on(lines: Seq<Seq<char>>, skipping: bool, i: int)
    requires
        0 <= i < kept_lines(lines, skipping, true).len(),
    ensures
        ({
            let kept = kept_lines(lines, skipping, true)[i];
            &&& lines.contains(kept)
            &&& is_fold(kept) || !kept.contains(':') || (name_of(kept) != "authorization"@ && !is_forwarding(
                name_of(kept),
            ))
        }),
    decreases lines.len(),
{
    let rest = lines.drop_first();
    let first = lines[0];
    let left_out = first.contains(':') && is_left_out(name_of(first), true);
    if is_fold(first) && skipping {
        consumed_credentials_are_not_passed_on(rest, skipping, i);
        lemma_rest_contains(lines, kept_lines(lines, skipping, true)[i]);
    } else if !is_fold(first) && left_out {
        consumed_credentials_are_not_passed_on(rest, true, i);
        lemma_rest_contains(lines, kept_lines(lines, skipping, true)[i]);
    } else {
        let next = is_fold(first) && skipping;
        assert(kept_lines(lines, skipping, true) == seq![first] + kept_lines(rest, next, true));
        if i > 0 {
            consumed_credentials_are_not_passed_on(rest, next, i - 1);
            lemma_rest_contains(lines, kept_lines(lines, skipping, true)[i]);
        } else {
            assert(lines.contains(lines[0]));
        }
    }
}

/// Credentials that no hop consumed are passed on as they came, and so is every
/// other header that is no forwarding header.
pub proof fn other_headers_are_passed_on(lines: Seq<Seq<char>>, skipping: bool, i: int)
    requires
        0 <= i < lines.len(),
        forall|k: int| 0 <= k <= i ==> #[trigger] lines[k].len() > 0,
        !is_fold(lines[i]),
        lines[i].contains(':') ==> !is_forwarding(name_of(lines[i])),
    ensures
        kept_lines(lines, skipping, false).contains(lines[i]),
    decreases lines.len(),
{
    let rest = lines.drop_first();
    let all = kept_lines(lines, skipping, false);
    assert(lines[0].len() > 0);
    let left_out = lines[0].contains(':') && is_left_out(name_of(lines[0]), false);
    let next = if is_fold(lines[0]) {
        skipping
    } else {
        left_out
    };
    if i == 0 {
        assert(all[0] == lines[0]);
    } else {
        assert forall|k: int| 0 <= k <= i - 1 implies #[trigger] rest[k].len() > 0 by {
            assert(rest[k] == lines[k + 1]);
        }
        other_headers_are_passed_on(rest, next, i - 1);
        let tail = kept_lines(rest, next, false);
        let k = choose|k: int| 0 <= k < tail.len() && tail[k] == lines[i];
        if next {
            assert(all[k] == lines[i]);
        } else {
            assert(all[k + 1] == lines[i]);
        }
    }
}

proof fn lemma_rest_contains(lines: Seq<Seq<char>>, line: Seq<char>)
    requires
        lines.len() > 0,
        lines.drop_first().contains(line),
    ensures
        lines.contains(line),
{
    let k = choose|k: int| 0 <= k < lines.drop_first().len() && lines.drop_first()[k] == line;
    assert(lines[k + 1] == line);
}

/// How the `Forwarded` header names the client.
pub open spec fn forwarded_for(client: IpAddr) -> Seq<char> {
    match client {
        IpAddr::V4(_, _, _, _) => "for="@ + client.shown(),
        IpAddr::V6 { .. } => "for=\"["@ + client.shown() + "]\""@,
    }
}

/// The head that a hop sends on for `lines` and a client.
pub open spec fn forwarded_head(lines: Seq<Seq<char>>, host_raw: Seq<char>, client: IpAddr, consumed: bool) -> Seq<char> {
    let rest = lines.skip(1);
    lines[0] + "\r\n"@ + passed_on(rest, false, consumed) + "X-Forwarded-For: "@ + text::joined(
        values_named(rest, "x-forwarded-for"@).push(client.shown()),
        ", "@,
    ) + "\r\nX-Forwarded-Host: "@ + host_raw + "\r\nX-Forwarded-Proto: http\r\nForwarded: "@ + text::joined(
        values_named(rest, "forwarded"@).push(
            forwarded_for(client) + ";host="@ + host_raw + ";proto=http"@,
        ),
        ", "@,
    ) + "\r\n\r\n"@
}

/// How one header line leaves `passed_on`.
proof fn lemma_passed_on_step(lines: Seq<Seq<char>>, skipping: bool, consumed: bool, done: Seq<char>, kept: Seq<char>)
    ensures
        with_ends(seq![kept] + kept_lines(lines, skipping, consumed)) == kept + "\r\n"@ + passed_on(
            lines,
            skipping,
            consumed,
        ),
        done + (kept + "\r\n"@ + passed_on(lines, skipping, consumed)) == done + kept + "\r\n"@ + passed_on(
            lines,
            skipping,
            consumed,
        ),
{
    let rest = kept_lines(lines, skipping, consumed);
    assert((seq![kept] + rest).drop_first() =~= rest);
    assert(done + (kept + "\r\n"@ + with_ends(rest)) =~= done + kept + "\r\n"@ + with_ends(rest));
}

impl HttpHead {
    /// The fields are what parsing the buffered head yields.
    pub open spec fn wf(self) -> bool {
        &&& self.head_len <= self.buffered@.len()
        &&& parsed(self.buffered@, self.head_len as int) == Ok::<
            (Seq<char>, Option<u16>, Seq<char>),
            (HeadFault, Seq<char>),
        >((self.host@, self.port, self.host_raw@))
    }

    /// The lines of the head, the request line first.
    pub open spec fn lines(self) -> Seq<Seq<char>> {
        text::lines(vstd::utf8::decode_utf8(self.buffered@.take(self.head_len as int)))
    }

    /// The words of the request line.
    pub open spec fn request(self) -> Seq<Seq<char>> {
        text::words(self.lines()[0])
    }

    fn head_chars(&self) -> (r: Vec<char>)
        requires
            self.wf(),
        ensures
            r@ == vstd::utf8::decode_utf8(self.buffered@.take(self.head_len as int)),
    {
        let raw = slice_subrange(self.buffered.as_slice(), 0, self.head_len);
        assert(raw@ =~= self.buffered@.take(self.head_len as int));
        match text::utf8_text(raw) {
            Some(s) => text::chars_of(s.as_str()),
            None => Vec::new(),
        }
    }

    fn request_word(&self, k: usize) -> (r: String)
        requires
            self.wf(),
            k < 3,
        ensures
            r@ == self.request()[k as int],
    {
        let head = self.head_chars();
        let lines = text::split_lines(head.as_slice());
        let w = text::split_words(lines[0]);
        text::string_of(w[k].as_slice())
    }

    /// The request method.
    pub fn method(&self) -> (r: String)
        requires
            self.wf(),
        ensures
            r@ == self.request()[0],
    {
        self.request_word(0)
    }

    /// The request target.
    pub fn target(&self) -> (r: String)
        requires
            self.wf(),
        ensures
            r@ == self.request()[1],
    {
        self.request_word(1)
    }

    /// The value of the first header named `name`, whatever the case of its
    /// letters.
    pub fn header_value(&self, name: &str) -> (r: Option<String>)
        requires
            self.wf(),
        ensures
            ({
                let v = values_named(self.lines().skip(1), text::lower(name@));
                if v.len() == 0 {
                    r is None
                } else {
                    r is Some && r->0@ == v[0]
                }
            }),
    {
        let head = self.head_chars();
        let lines = text::split_lines(head.as_slice());
        let wanted = text::to_lower(text::chars_of(name).as_slice());
        let mut i: usize = 1;
        let ghost all = self.lines();
        while i < lines.len() && lines[i].len() > 0
            invariant
                1 <= i <= lines@.len(),
                lines@.len() == all.len(),
                wanted@ == text::lower(name@),
                forall|k: int| 0 <= k < lines@.len() ==> (#[trigger] lines@[k])@ == all[k],
                all == self.lines(),
                values_named(all.skip(1), wanted@) == values_named(all.skip(i as int), wanted@),
            decreases lines@.len() - i,
        {
            let line = lines[i];
            let ghost rest = all.skip(i as int);
            assert(rest[0] == line@);
            assert(rest.drop_first() =~= all.skip(i + 1));
            if !line_is_fold(line) {
                let k = text::find(line, ':');
                if k < line.len() {
                    let head_name = slice_subrange(line, 0, k);
                    let value = slice_subrange(line, k + 1, line.len());
                    assert(head_name@ =~= text::before(line@, ':'));
                    assert(value@ =~= text::after(line@, ':'));
                    let lowered = text::to_lower(text::trim(head_name));
                    if text::same(lowered.as_slice(), wanted.as_slice()) {
                        return Some(text::string_of(text::trim(value)));
                    }
                }
            }
            i = i + 1;
        }
        None
    }

    /// The bytes received past the head.
    pub fn body_prefix(&self) -> (r: &[u8])
        requires
            self.wf(),
        ensures
            r@ == self.buffered@.skip(self.head_len as int),
    {
        slice_subrange(self.buffered.as_slice(), self.head_len, self.buffered.len())
    }

    /// Rebuilds the buffered bytes with proxy forwarding headers injected into
    /// the first request: the client is appended to `X-Forwarded-For` and
    /// `Forwarded`, while `X-Forwarded-Host` and `X-Forwarded-Proto` are set
    /// to this hop's values. Bytes past the header block pass through as-is.
    pub fn with_forwarded_headers(&self, client_ip: &IpAddr) -> (r: Vec<u8>)
        requires
            self.wf(),
        ensures
            r@ == vstd::utf8::encode_utf8(forwarded_head(self.lines(), self.host_raw@, *client_ip, false))
                + self.buffered@.skip(self.head_len as int),
    {
        self.rewritten(client_ip, false)
    }

    /// Like `with_forwarded_headers`; the credentials are left out if they were
    /// consumed.
    pub fn rewritten(&self, client_ip: &IpAddr, consumed: bool) -> (r: Vec<u8>)
        requires
            self.wf(),
        ensures
            r@ == vstd::utf8::encode_utf8(forwarded_head(self.lines(), self.host_raw@, *client_ip, consumed))
                + self.buffered@.skip(self.head_len as int),
    {
        let head = self.head_chars();
        let lines = text::split_lines(head.as_slice());
        let ghost all = self.lines();
        let mut out = text::string_of(lines[0]);
        out.push_str("\r\n");
        let ghost first = out@;
        let mut xff: Vec<String> = Vec::new();
        let mut forwarded: Vec<String> = Vec::new();
        let mut skipping = false;
        let mut i: usize = 1;
        proof {
            assert(first + passed_on(all.skip(1), false, consumed) =~= out@ + passed_on(all.skip(1), false, consumed));
            assert(text::views(xff@) + values_named(all.skip(1), "x-forwarded-for"@) =~= values_named(all.skip(1), "x-forwarded-for"@));
            assert(text::views(forwarded@) + values_named(all.skip(1), "forwarded"@) =~= values_named(all.skip(1), "forwarded"@));
        }
        while i < lines.len() && lines[i].len() > 0
            invariant
                1 <= i <= lines@.len(),
                lines@.len() == all.len(),
                forall|k: int| 0 <= k < lines@.len() ==> (#[trigger] lines@[k])@ == all[k],
                out@ + passed_on(all.skip(i as int), skipping, consumed) == first + passed_on(all.skip(1), false, consumed),
                text::views(xff@) + values_named(all.skip(i as int), "x-forwarded-for"@)
                    == values_named(all.skip(1), "x-forwarded-for"@),
                text::views(forwarded@) + values_named(all.skip(i as int), "forwarded"@)
                    == values_named(all.skip(1), "forwarded"@),
            decreases lines@.len() - i,
        {
            let line = lines[i];
            let ghost rest = all.skip(i as int);
            let ghost next = all.skip(i + 1);
            let ghost out0 = out@;
            assert(rest[0] == line@);
            assert(rest.drop_first() =~= next);
            let mut keep = true;
            if line_is_fold(line) {
                keep = !skipping;
            } else {
                skipping = false;
                let k = text::find(line, ':');
                if k < line.len() {
                    let head_name = slice_subrange(line, 0, k);
                    let value = slice_subrange(line, k + 1, line.len());
                    assert(head_name@ =~= text::before(line@, ':'));
                    assert(value@ =~= text::after(line@, ':'));
                    let name = text::to_lower(text::trim(head_name));
                    proof {
                        lemma_forwarding_names_differ();
                    }
                    if text::is(name.as_slice(), "x-forwarded-for") {
                        let ghost xff0 = xff@;
                        xff.push(text::string_of(text::trim(value)));
                        proof {
                            assert(text::views(xff@) =~= text::views(xff0).push(value_of(line@)));
                            assert(text::views(xff0).push(value_of(line@)) + values_named(next, "x-forwarded-for"@)
                                =~= text::views(xff0) + (seq![value_of(line@)] + values_named(next, "x-forwarded-for"@)));
                        }
                        skipping = true;
                        keep = false;
                    } else if text::is(name.as_slice(), "forwarded") {
                        let ghost f0 = forwarded@;
                        forwarded.push(text::string_of(text::trim(value)));
                        proof {
                            assert(text::views(forwarded@) =~= text::views(f0).push(value_of(line@)));
                            assert(text::views(f0).push(value_of(line@)) + values_named(next, "forwarded"@)
                                =~= text::views(f0) + (seq![value_of(line@)] + values_named(next, "forwarded"@)));
                        }
                        skipping = true;
                        keep = false;
                    } else if text::is(name.as_slice(), "x-forwarded-host") || text::is(
                        name.as_slice(),
                        "x-forwarded-proto",
                    ) {
                        skipping = true;
                        keep = false;
                    } else if consumed && text::is(name.as_slice(), "authorization") {
                        skipping = true;
                        keep = false;
                    }
                }
            }
            if keep {
                text::push_chars(&mut out, line);
                out.push_str("\r\n");
                proof {
                    lemma_passed_on_step(next, skipping, consumed, out0, line@);
                }
            }
            i = i + 1;
        }
        proof {
            assert(passed_on(all.skip(i as int), skipping, consumed) =~= seq![]);
            assert(out@ =~= first + passed_on(all.skip(1), false, consumed));
            assert(text::views(xff@) =~= values_named(all.skip(1), "x-forwarded-for"@));
            assert(text::views(forwarded@) =~= values_named(all.skip(1), "forwarded"@));
        }
        let shown = client_ip.to_text();
        let mut element = match client_ip {
            IpAddr::V4(_, _, _, _) => {
                let mut s = text::owned("for=");
                s.push_str(shown.as_str());
                s
            },
            IpAddr::V6 { .. } => {
                let mut s = text::owned("for=\"[");
                s.push_str(shown.as_str());
                s.push_str("]\"");
                s
            },
        };
        element.push_str(";host=");
        element.push_str(self.host_raw.as_str());
        element.push_str(";proto=http");
        let ghost xff0 = xff@;
        let ghost f0 = forwarded@;
        xff.push(shown);
        forwarded.push(element);
        proof {
            assert(text::views(xff@) =~= text::views(xff0).push(client_ip.shown()));
            assert(text::views(forwarded@) =~= text::views(f0).push(element@));
        }
        out.push_str("X-Forwarded-For: ");
        out.push_str(text::join(&xff, ", ").as_str());
        out.push_str("\r\nX-Forwarded-Host: ");
        out.push_str(self.host_raw.as_str());
        out.push_str("\r\nX-Forwarded-Proto: http\r\nForwarded: ");
        out.push_str(text::join(&forwarded, ", ").as_str());
        out.push_str("\r\n\r\n");
        let mut result = bytes::copy_of(out.as_str().as_bytes());
        bytes::push_all(&mut result, self.body_prefix());
        result
    }
}

proof fn lemma_forwarding_names_differ()
    ensures
        "x-forwarded-for"@ != "forwarded"@,
        "x-forwarded-host"@ != "forwarded"@,
        "x-forwarded-host"@ != "x-forwarded-for"@,
        "x-forwarded-proto"@ != "forwarded"@,
        "x-forwarded-proto"@ != "x-forwarded-for"@,
        "authorization"@ != "forwarded"@,
        "authorization"@ != "x-forwarded-for"@,
{
    reveal_strlit("x-forwarded-for");
    reveal_strlit("forwarded");
    reveal_strlit("x-forwarded-host");
    reveal_strlit("x-forwarded-proto");
    assert("x-forwarded-for"@.len() == 15);
    assert("forwarded"@.len() == 9);
    assert("x-forwarded-host"@.len() == 16);
    assert("x-forwarded-proto"@.len() == 17);
    reveal_strlit("authorization");
    assert("authorization"@.len() == 13);
}

/// A host value names its host, and its port if a number stands behind a colon;
/// an IPv6 address stands in brackets.
pub proof fn a_host_value_names_host_and_port(host: Seq<char>, port: u16)
    requires
        host.len() > 0,
        host[0] != '[',
        forall|i: int| 0 <= i < host.len() ==> !text::is_ws(#[trigger] host[i]),
        !host.contains(':'),
    ensures
        host_port(host) == Ok::<(Seq<char>, Option<u16>), HeadFault>((host, None)),
        host_port(host.push(':') + text::decimal(port as nat)) == Ok::<(Seq<char>, Option<u16>), HeadFault>(
            (host, Some(port)),
        ),
{
    let d = text::decimal(port as nat);
    let value = host.push(':') + d;
    text::decimal_notation_reads_back(port as nat, u16::MAX as nat);
    text::lemma_digits_hold_nothing_else(d, ':');
    text::lemma_last_at(value, ':');
    text::lemma_last_at(host, ':');
    let k = text::last_at(value, ':');
    assert(value[host.len() as int] == ':');
    if k > host.len() {
        assert(value[k] == d[k - host.len() - 1]);
        assert(d.contains(d[k - host.len() - 1]));
    }
    assert(value.take(k) =~= host);
    assert(value.skip(k + 1) =~= d);
    assert(value[0] == host[0]);
    if text::last_at(host, ':') >= 0 {
        assert(host.contains(host[text::last_at(host, ':')]));
    }
}

/// An address in brackets is a host, with or without a port behind them.
pub proof fn a_bracketed_address_is_a_host(address: Seq<char>, port: u16)
    requires
        address.len() > 0,
        forall|i: int| 0 <= i < address.len() ==> !text::is_ws(#[trigger] address[i]),
        !address.contains(']'),
    ensures
        host_port(seq!['['] + address + seq![']']) == Ok::<(Seq<char>, Option<u16>), HeadFault>((address, None)),
        host_port(seq!['['] + address + seq![']', ':'] + text::decimal(port as nat)) == Ok::<
            (Seq<char>, Option<u16>),
            HeadFault,
        >((address, Some(port))),
{
    let d = text::decimal(port as nat);
    text::decimal_notation_reads_back(port as nat, u16::MAX as nat);
    let plain = seq!['['] + address + seq![']'];
    let full = seq!['['] + address + seq![']', ':'] + d;
    let none = Seq::<char>::empty();
    assert(plain.skip(1) =~= address.push(']') + none);
    assert(full.skip(1) =~= address.push(']') + (seq![':'] + d));
    lemma_before_bracket(address, none);
    lemma_before_bracket(address, seq![':'] + d);
    assert((seq![':'] + d).skip(1) =~= d);
}

proof fn lemma_before_bracket(address: Seq<char>, tail: Seq<char>)
    requires
        !address.contains(']'),
    ensures
        ({
            let rest = address.push(']') + tail;
            &&& rest.contains(']')
            &&& text::before(rest, ']') == address
            &&& text::after(rest, ']') == tail
        }),
{
    let rest = address.push(']') + tail;
    assert(rest[address.len() as int] == ']');
    assert forall|k: int| 0 <= k < address.len() implies rest[k] != ']' by {
        assert(rest[k] == address[k]);
        assert(address.contains(address[k]));
    }
    text::lemma_first_at_is(rest, ']', address.len() as int);
    assert(text::before(rest, ']') =~= address);
    assert(text::after(rest, ']') =~= tail);
}

/// A request line of a method, a target and an HTTP/1 version is taken, whatever
/// method and target they are.
pub proof fn a_proper_request_line_is_taken(method: Seq<char>, target: Seq<char>, minor: Seq<char>)
    requires
        method.len() > 0,
        target.len() > 0,
        forall|i: int| 0 <= i < method.len() ==> !text::is_blank(#[trigger] method[i]),
        forall|i: int| 0 <= i < target.len() ==> !text::is_blank(#[trigger] target[i]),
        forall|i: int| 0 <= i < minor.len() ==> !text::is_blank(#[trigger] minor[i]),
    ensures
        request_line_error(method.push(' ') + (target.push(' ') + ("HTTP/1."@ + minor))) is None,
{
    reveal_strlit("HTTP/1.");
    let version = "HTTP/1."@ + minor;
    assert forall|i: int| 0 <= i < version.len() implies !text::is_blank(#[trigger] version[i]) by {
        if i >= 7 {
            assert(version[i] == minor[i - 7]);
        }
    }
    text::a_run_of_characters_is_one_word(method);
    text::a_run_of_characters_is_one_word(target);
    text::a_run_of_characters_is_one_word(version);
    text::blanks_part_words(target, ' ', version);
    text::blanks_part_words(method, ' ', target.push(' ') + version);
    assert(version.take(7) =~= "HTTP/1."@);
    assert(text::words(method.push(' ') + (target.push(' ') + version)) =~= seq![method, target, version]);
}

/// The one `Host` line is found wherever it stands among other headers, and its
/// value is what stands behind the colon.
pub proof fn the_host_line_is_found(lines: Seq<Seq<char>>, i: int)
    requires
        0 <= i < lines.len(),
        forall|k: int|
            0 <= k < lines.len() ==> (#[trigger] lines[k]).len() > 0 && !is_fold(lines[k]) && lines[k].contains(':'),
        forall|k: int| 0 <= k < lines.len() ==> (name_of(#[trigger] lines[k]) == "host"@ <==> k == i),
    ensures
        host_line(lines, None, false) == Ok::<Option<Seq<char>>, HeadFault>(Some(value_of(lines[i]))),
{
    lemma_host_line_from(lines, None, i);
}

proof fn lemma_host_line_from(lines: Seq<Seq<char>>, host: Option<Seq<char>>, i: int)
    requires
        i < lines.len(),
        forall|k: int|
            0 <= k < lines.len() ==> (#[trigger] lines[k]).len() > 0 && !is_fold(lines[k]) && lines[k].contains(':'),
        forall|k: int| 0 <= k < lines.len() ==> (name_of(#[trigger] lines[k]) == "host"@ <==> k == i),
        host is Some <==> i < 0,
    ensures
        host_line(lines, host, false) == Ok::<Option<Seq<char>>, HeadFault>(
            if i < 0 {
                host
            } else {
                Some(value_of(lines[i]))
            },
        ),
        host_line(lines, host, true) == host_line(lines, host, false),
    decreases lines.len(),
{
    if lines.len() > 0 {
        let rest = lines.drop_first();
        assert(lines[0].len() > 0);
        assert forall|k: int| 0 <= k < rest.len() implies (#[trigger] rest[k]).len() > 0 && !is_fold(rest[k])
            && rest[k].contains(':') by {
            assert(rest[k] == lines[k + 1]);
        }
        assert forall|k: int| 0 <= k < rest.len() implies (name_of(#[trigger] rest[k]) == "host"@ <==> k == i - 1) by {
            assert(rest[k] == lines[k + 1]);
        }
        if i == 0 {
            lemma_host_line_from(rest, Some(value_of(lines[0])), -1);
        } else {
            lemma_host_line_from(rest, host, i - 1);
            if i > 0 {
                assert(rest[i - 1] == lines[i]);
            }
        }
    }
}

/// Two `Host` lines are refused.
pub proof fn two_host_lines_are_refused(first: Seq<char>, second: Seq<char>, rest: Seq<Seq<char>>)
    requires
        first.len() > 0 && !is_fold(first) && first.contains(':') && name_of(first) == "host"@,
        second.len() > 0 && !is_fold(second) && second.contains(':') && name_of(second) == "host"@,
    ensures
        host_line(seq![first, second] + rest, None, false) == Err::<Option<Seq<char>>, HeadFault>(
            HeadFault::MultipleHosts,
        ),
{
    reveal_with_fuel(host_line, 3);
    let all = seq![first, second] + rest;
    assert(all[0] == first);
    assert(all.drop_first()[0] == second);
}

/// A header line is taken apart at its first colon: the name in lower case and
/// the value, both without white space around them.
pub proof fn a_header_line_has_a_name_and_a_value(name: Seq<char>, a: Seq<char>, value: Seq<char>, b: Seq<char>)
    requires
        name.len() > 0,
        !text::is_ws(name[0]),
        !text::is_ws(name.last()),
        !name.contains(':'),
        forall|i: int| 0 <= i < a.len() ==> text::is_ws(#[trigger] a[i]),
        forall|i: int| 0 <= i < b.len() ==> text::is_ws(#[trigger] b[i]),
        value.len() > 0 ==> !text::is_ws(value[0]) && !text::is_ws(value.last()),
    ensures
        name_of(name.push(':') + (a + value + b)) == text::lower(name),
        value_of(name.push(':') + (a + value + b)) == value,
{
    let line = name.push(':') + (a + value + b);
    let none = Seq::<char>::empty();
    assert(line[name.len() as int] == ':');
    assert forall|k: int| 0 <= k < name.len() implies line[k] != ':' by {
        assert(line[k] == name[k]);
        assert(name.contains(name[k]));
    }
    text::lemma_first_at_is(line, ':', name.len() as int);
    assert(text::before(line, ':') =~= name);
    assert(text::after(line, ':') =~= a + value + b);
    assert(none + name + none =~= name);
    text::trimming_takes_off_white_space_alone(none, name, none);
    text::trimming_takes_off_white_space_alone(a, value, b);
}

/// Every header of a name is found, in order, whatever stands between.
pub proof fn every_header_of_a_name_is_found(lines: Seq<Seq<char>>, name: Seq<char>, i: int)
    requires
        0 <= i < lines.len(),
        forall|k: int| 0 <= k <= i ==> (#[trigger] lines[k]).len() > 0,
        !is_fold(lines[i]),
        lines[i].contains(':'),
        name_of(lines[i]) == name,
    ensures
        values_named(lines, name).contains(value_of(lines[i])),
    decreases lines.len(),
{
    let all = values_named(lines, name);
    assert(lines[0].len() > 0);
    if i == 0 {
        assert(all[0] == value_of(lines[0]));
    } else {
        let rest = lines.drop_first();
        assert(rest[i - 1] == lines[i]);
        assert forall|k: int| 0 <= k <= i - 1 implies (#[trigger] rest[k]).len() > 0 by {
            assert(rest[k] == lines[k + 1]);
        }
        every_header_of_a_name_is_found(rest, name, i - 1);
        let done = values_named(rest, name);
        let k = choose|k: int| 0 <= k < done.len() && done[k] == value_of(lines[i]);
        if all.len() == done.len() {
            assert(all[k] == done[k]);
        } else {
            assert(all[k + 1] == done[k]);
        }
    }
}

/// A head that is sent on begins with the request line that came in, and tells
/// the client behind those that it was forwarded for before, and the host that
/// it asked for.
pub proof fn a_hop_tells_of_its_client(lines: Seq<Seq<char>>, host_raw: Seq<char>, client: IpAddr, consumed: bool)
    requires
        lines.len() > 0,
    ensures
        text::begins(forwarded_head(lines, host_raw, client, consumed), lines[0] + "\r\n"@),
        exists|a: Seq<char>, b: Seq<char>|
            forwarded_head(lines, host_raw, client, consumed) == #[trigger] (a + ("X-Forwarded-For: "@ + text::joined(
                values_named(lines.skip(1), "x-forwarded-for"@).push(client.shown()),
                ", "@,
            ) + "\r\nX-Forwarded-Host: "@ + host_raw + "\r\n"@) + b),
{
    reveal_strlit("\r\nX-Forwarded-Proto: http\r\nForwarded: ");
    reveal_strlit("\r\n");
    reveal_strlit("X-Forwarded-Proto: http\r\nForwarded: ");
    let head = forwarded_head(lines, host_raw, client, consumed);
    let first = lines[0] + "\r\n"@;
    assert(head.take(first.len() as int) =~= first);
    let middle = "X-Forwarded-For: "@ + text::joined(
        values_named(lines.skip(1), "x-forwarded-for"@).push(client.shown()),
        ", "@,
    ) + "\r\nX-Forwarded-Host: "@ + host_raw + "\r\n"@;
    let a = first + passed_on(lines.skip(1), false, consumed);
    let tail = text::joined(
        values_named(lines.skip(1), "forwarded"@).push(forwarded_for(client) + ";host="@ + host_raw + ";proto=http"@),
        ", "@,
    ) + "\r\n\r\n"@;
    let b = "X-Forwarded-Proto: http\r\nForwarded: "@ + tail;
    assert("\r\nX-Forwarded-Proto: http\r\nForwarded: "@ =~= "\r\n"@ + "X-Forwarded-Proto: http\r\nForwarded: "@);
    assert(head =~= a + middle + b);
}

/// A head whose request line is in order and that has one good `Host` line is
/// taken, with the host that the line names.
pub proof fn a_head_with_a_host_is_taken(
    buffered: Seq<u8>,
    head_len: int,
    host: Seq<char>,
    port: Option<u16>,
    value: Seq<char>,
)
    requires
        0 <= head_len <= buffered.len(),
        vstd::utf8::valid_utf8(buffered.take(head_len)),
        ({
            let lines = text::lines(vstd::utf8::decode_utf8(buffered.take(head_len)));
            &&& request_line_error(lines[0]) is None
            &&& host_line(lines.skip(1), None, false) == Ok::<Option<Seq<char>>, HeadFault>(Some(value))
        }),
        host_port(value) == Ok::<(Seq<char>, Option<u16>), HeadFault>((host, port)),
    ensures
        parsed(buffered, head_len) == Ok::<(Seq<char>, Option<u16>, Seq<char>), (HeadFault, Seq<char>)>(
            (host, port, value),
        ),
{
}

/// A head is read on until it ends or is too large; no more is read than it may
/// still hold.
pub proof fn a_head_is_read_until_it_ends(buffered: &[u8], max_size: usize, r: ReadStep)
    requires
        call_ensures(next_read, (buffered, max_size), r),
    ensures
        r is Parse <==> head_end(buffered@) is Some,
        r is TooLarge <==> head_end(buffered@) is None && buffered@.len() >= max_size,
        r matches ReadStep::Read(n) ==> n <= 4096 && buffered@.len() + n <= max_size && (n == 4096 || buffered@.len() + n
            == max_size),
{
}

/// The first header of a name is the one that is read, whatever the case in
/// which it is asked for.
pub proof fn the_first_header_of_a_name_is_read(head: HttpHead, name: &str, i: int, r: Option<String>)
    requires
        call_ensures(HttpHead::header_value, (&head, name), r),
        ({
            let lines = head.lines().skip(1);
            &&& 0 <= i < lines.len()
            &&& forall|k: int| 0 <= k <= i ==> (#[trigger] lines[k]).len() > 0
            &&& forall|k: int|
                0 <= k < i ==> is_fold(#[trigger] lines[k]) || !lines[k].contains(':') || name_of(lines[k])
                    != text::lower(name@)
            &&& !is_fold(lines[i]) && lines[i].contains(':') && name_of(lines[i]) == text::lower(name@)
        }),
    ensures
        r is Some,
        (r->0)@ == value_of(head.lines().skip(1)[i]),
{
    lemma_first_named(head.lines().skip(1), text::lower(name@), i);
}

proof fn lemma_first_named(lines: Seq<Seq<char>>, name: Seq<char>, i: int)
    requires
        0 <= i < lines.len(),
        forall|k: int| 0 <= k <= i ==> (#[trigger] lines[k]).len() > 0,
        forall|k: int| 0 <= k < i ==> is_fold(#[trigger] lines[k]) || !lines[k].contains(':') || name_of(lines[k]) != name,
        !is_fold(lines[i]) && lines[i].contains(':') && name_of(lines[i]) == name,
    ensures
        values_named(lines, name).len() > 0,
        values_named(lines, name)[0] == value_of(lines[i]),
    decreases lines.len(),
{
    assert(lines[0].len() > 0);
    if i > 0 {
        let rest = lines.drop_first();
        assert(rest[i - 1] == lines[i]);
        assert forall|k: int| 0 <= k <= i - 1 implies (#[trigger] rest[k]).len() > 0 by {
            assert(rest[k] == lines[k + 1]);
        }
        assert forall|k: int| 0 <= k < i - 1 implies is_fold(#[trigger] rest[k]) || !rest[k].contains(':') || name_of(
            rest[k],
        ) != name by {
            assert(rest[k] == lines[k + 1]);
        }
        lemma_first_named(rest, name, i - 1);
    }
}

} // verus!
