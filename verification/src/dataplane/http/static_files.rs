//! Static file serving with sensible production defaults: a broad MIME
//! table, negotiated gzip/zstd compression, validator-based caching
//! (`ETag`/`Last-Modified`/304), single-range requests, and styled built-in
//! error pages.
use vstd::prelude::*;
use crate::bytes;
use vstd::slice::slice_subrange;
use crate::dataplane::http::error_pages;
use crate::text;
use crate::utc;

verus! {

/// Bodies smaller than this are never compressed; the frames would cost more
/// than they save.
pub const MIN_COMPRESS_BYTES: u64 = 256;

/// Response body encoding, negotiated from `Accept-Encoding` for compressible
/// content types.
#[derive(Debug, Clone, Copy, PartialEq, Eq, Structural)]
pub enum Encoding {
    Identity,
    Gzip,
    Zstd,
}

impl Encoding {
    pub open spec fn token_text(self) -> Seq<char> {
        match self {
            Encoding::Identity => "identity"@,
            Encoding::Gzip => "gzip"@,
            Encoding::Zstd => "zstd"@,
        }
    }

    pub open spec fn suffix_text(self) -> Seq<char> {
        match self {
            Encoding::Identity => ""@,
            Encoding::Gzip => "-gz"@,
            Encoding::Zstd => "-zst"@,
        }
    }

    pub fn token(self) -> (r: &'static str)
        ensures
            r@ == self.token_text(),
    {
        match self {
            Encoding::Identity => "identity",
            Encoding::Gzip => "gzip",
            Encoding::Zstd => "zstd",
        }
    }

    /// Suffix folded into the entity tag so caches key each representation
    /// separately.
    pub fn etag_suffix(self) -> (r: &'static str)
        ensures
            r@ == self.suffix_text(),
    {
        match self {
            Encoding::Identity => "",
            Encoding::Gzip => "-gz",
            Encoding::Zstd => "-zst",
        }
    }
}

/// Whether a parameter of an `Accept-Encoding` entry is `q=0`.
pub open spec fn is_zero_weight(parameter: Seq<char>) -> bool {
    text::lower(text::without(text::trimmed(parameter), ' ')) == text::lower("q=0"@)
}

/// Whether one `Accept-Encoding` entry names the token without `q=0`.
pub open spec fn entry_accepts(entry: Seq<char>, token: Seq<char>) -> bool {
    let parts = text::pieces(text::trimmed(entry), ';');
    &&& text::lower(text::trimmed(parts[0])) == text::lower(token)
    &&& forall|k: int| 1 <= k < parts.len() ==> !is_zero_weight(#[trigger] parts[k])
}

/// Whether an `Accept-Encoding` value lists the token without `q=0`.
pub open spec fn accepts(header: Seq<char>, token: Seq<char>) -> bool {
    exists|i: int| 0 <= i < text::pieces(header, ',').len() && entry_accepts(#[trigger] text::pieces(header, ',')[i], token)
}

fn zero_weight(parameter: &[char]) -> (r: bool)
    ensures
        r == is_zero_weight(parameter@),
{
    let squeezed = text::remove_all(text::trim(parameter), ' ');
    let low = text::to_lower(squeezed.as_slice());
    let want = text::to_lower(text::chars_of("q=0").as_slice());
    text::same(low.as_slice(), want.as_slice())
}

fn entry_lists(entry: &[char], token: &[char]) -> (r: bool)
    ensures
        r == entry_accepts(entry@, token@),
{
    let parts = text::split(text::trim(entry), ';');
    proof {
        text::lemma_pieces_nonempty(text::trimmed(entry@), ';');
    }
    let name = text::to_lower(text::trim(parts[0]));
    let want = text::to_lower(token);
    if !text::same(name.as_slice(), want.as_slice()) {
        return false;
    }
    let mut k: usize = 1;
    while k < parts.len()
        invariant
            1 <= k <= parts@.len(),
            parts@.len() == text::pieces(text::trimmed(entry@), ';').len(),
            forall|j: int| 0 <= j < parts@.len() ==> (#[trigger] parts@[j])@ == text::pieces(text::trimmed(entry@), ';')[j],
            forall|j: int| 1 <= j < k ==> !is_zero_weight(#[trigger] text::pieces(text::trimmed(entry@), ';')[j]),
        decreases parts@.len() - k,
    {
        if zero_weight(parts[k]) {
            assert(is_zero_weight(text::pieces(text::trimmed(entry@), ';')[k as int]));
            return false;
        }
        k = k + 1;
    }
    true
}

/// True when the client's `Accept-Encoding` lists the token without `q=0`.
pub fn accepts_encoding(header: &str, token: &str) -> (r: bool)
    ensures
        r == accepts(header@, token@),
{
    let h = text::chars_of(header);
    let t = text::chars_of(token);
    let entries = text::split(h.as_slice(), ',');
    let mut i: usize = 0;
    while i < entries.len()
        invariant
            i <= entries@.len(),
            h@ == header@,
            t@ == token@,
            entries@.len() == text::pieces(header@, ',').len(),
            forall|j: int| 0 <= j < entries@.len() ==> (#[trigger] entries@[j])@ == text::pieces(header@, ',')[j],
            forall|j: int| 0 <= j < i ==> !entry_accepts(#[trigger] text::pieces(header@, ',')[j], token@),
        decreases entries@.len() - i,
    {
        if entry_lists(entries[i], t.as_slice()) {
            assert(entry_accepts(text::pieces(header@, ',')[i as int], token@));
            return true;
        }
        i = i + 1;
    }
    false
}

/// Content types that gain from compression.
pub open spec fn is_compressible(content_type: Seq<char>) -> bool {
    let e = text::before(content_type, ';');
    ||| text::begins(content_type, "text/"@)
    ||| e == "application/json"@
    ||| e == "application/xml"@
    ||| e == "application/yaml"@
    ||| e == "application/wasm"@
    ||| e == "application/rss+xml"@
    ||| e == "application/atom+xml"@
    ||| e == "application/xhtml+xml"@
    ||| e == "application/manifest+json"@
    ||| e == "image/svg+xml"@
}

pub fn compressible(content_type: &str) -> (r: bool)
    ensures
        r == is_compressible(content_type@),
{
    let s = text::chars_of(content_type);
    let prefix = text::chars_of("text/");
    let k = text::find(s.as_slice(), ';');
    let e = slice_subrange(s.as_slice(), 0, k);
    assert(e@ =~= text::before(content_type@, ';'));
    text::starts_with(s.as_slice(), prefix.as_slice()) || text::is(e, "application/json") || text::is(
        e,
        "application/xml",
    ) || text::is(e, "application/yaml") || text::is(e, "application/wasm") || text::is(e, "application/rss+xml")
        || text::is(e, "application/atom+xml") || text::is(e, "application/xhtml+xml") || text::is(
        e,
        "application/manifest+json",
    ) || text::is(e, "image/svg+xml")
}

/// The encoding of a response: zstd before gzip, and only where it pays.
pub open spec fn negotiated(accept: Option<Seq<char>>, content_type: Seq<char>, length: u64) -> Encoding {
    if length < MIN_COMPRESS_BYTES || !is_compressible(content_type) {
        Encoding::Identity
    } else {
        match accept {
            None => Encoding::Identity,
            Some(a) => if accepts(a, "zstd"@) {
                Encoding::Zstd
            } else if accepts(a, "gzip"@) {
                Encoding::Gzip
            } else {
                Encoding::Identity
            },
        }
    }
}

/// What an optional header value holds.
pub open spec fn held(v: Option<String>) -> Option<Seq<char>> {
    match v {
        Some(s) => Some(s@),
        None => None,
    }
}

pub fn negotiate_encoding(accept: &Option<String>, content_type: &str, length: u64) -> (r: Encoding)
    ensures
        r == negotiated(held(*accept), content_type@, length),
{
    if length < MIN_COMPRESS_BYTES || !compressible(content_type) {
        return Encoding::Identity;
    }
    match accept {
        None => Encoding::Identity,
        Some(a) => if accepts_encoding(a.as_str(), "zstd") {
            Encoding::Zstd
        } else if accepts_encoding(a.as_str(), "gzip") {
            Encoding::Gzip
        } else {
            Encoding::Identity
        },
    }
}

/// A requested byte range within an entity.
#[derive(Debug, Clone, Copy, PartialEq, Eq, Structural)]
pub enum RangeSpec {
    /// The bytes `start` to `end`, both of them part of the entity.
    Bounded { start: u64, end: u64 },
    Unsatisfiable,
}

/// The range that a `Range` value asks for of an entity of `length` bytes.
pub open spec fn range_of(value: Seq<char>, length: u64) -> Option<RangeSpec> {
    let v = text::trimmed(value);
    let spec_text = text::trimmed(v.skip(6));
    let start = text::trimmed(text::before(spec_text, '-'));
    let end = text::trimmed(text::after(spec_text, '-'));
    let first = text::unsigned(start, u64::MAX as nat);
    let last = text::unsigned(end, u64::MAX as nat);
    if !text::begins(v, "bytes="@) || spec_text.contains(',') || !spec_text.contains('-') {
        None
    } else if start.len() == 0 {
        if last is None {
            None
        } else if last->0 == 0 || length == 0 {
            Some(RangeSpec::Unsatisfiable)
        } else if last->0 >= length {
            Some(RangeSpec::Bounded { start: 0, end: (length - 1) as u64 })
        } else {
            Some(RangeSpec::Bounded { start: (length - last->0) as u64, end: (length - 1) as u64 })
        }
    } else if first is None {
        None
    } else if first->0 >= length {
        Some(RangeSpec::Unsatisfiable)
    } else if end.len() == 0 {
        Some(RangeSpec::Bounded { start: first->0 as u64, end: (length - 1) as u64 })
    } else if last is None || last->0 < first->0 {
        None
    } else if last->0 >= length {
        Some(RangeSpec::Bounded { start: first->0 as u64, end: (length - 1) as u64 })
    } else {
        Some(RangeSpec::Bounded { start: first->0 as u64, end: last->0 as u64 })
    }
}

/// Parses a single-range `bytes=` header. Multi-range requests and malformed
/// values return `None`, which serves the full entity (permitted by RFC 9110).
pub fn parse_range(value: &str, length: u64) -> (r: Option<RangeSpec>)
    ensures
        r == range_of(value@, length),
{
    let all = text::chars_of(value);
    let v = text::trim(all.as_slice());
    let prefix = text::chars_of("bytes=");
    proof {
        reveal_strlit("bytes=");
    }
    let rest = match text::strip_prefix(v, prefix.as_slice()) {
        Some(rest) => rest,
        None => return None,
    };
    assert(rest@ == v@.skip(6));
    let spec_text = text::trim(rest);
    if text::find(spec_text, ',') < spec_text.len() {
        return None;
    }
    let k = text::find(spec_text, '-');
    if k == spec_text.len() {
        return None;
    }
    let left = slice_subrange(spec_text, 0, k);
    let right = slice_subrange(spec_text, k + 1, spec_text.len());
    assert(left@ =~= text::before(spec_text@, '-'));
    assert(right@ =~= text::after(spec_text@, '-'));
    let start = text::trim(left);
    let end = text::trim(right);
    if start.len() == 0 {
        let suffix = match text::parse_u64(end) {
            Some(n) => n,
            None => return None,
        };
        if suffix == 0 || length == 0 {
            return Some(RangeSpec::Unsatisfiable);
        }
        return Some(RangeSpec::Bounded { start: length.saturating_sub(suffix), end: length - 1 });
    }
    let first = match text::parse_u64(start) {
        Some(n) => n,
        None => return None,
    };
    if first >= length {
        return Some(RangeSpec::Unsatisfiable);
    }
    let last = if end.len() == 0 {
        length - 1
    } else {
        match text::parse_u64(end) {
            Some(n) => n,
            None => return None,
        }
    };
    if last < first {
        return None;
    }
    Some(RangeSpec::Bounded { start: first, end: if last < length { last } else { length - 1 } })
}

/// A satisfiable range lies within the entity and is not empty.
pub proof fn ranges_lie_within_the_entity(value: Seq<char>, length: u64)
    ensures
        range_of(value, length) matches Some(RangeSpec::Bounded { start, end }) ==> start <= end < length,
{
}

/// When a file was last modified: seconds since the Unix epoch and the
/// nanoseconds past them.
#[derive(Debug, Clone, Copy, PartialEq, Eq, Structural)]
pub struct Stamp {
    pub seconds: i64,
    pub nanos: u32,
}

impl Stamp {
    /// The calendar knows the time.
    pub open spec fn wf(self) -> bool {
        utc::MIN_SECONDS <= self.seconds <= utc::MAX_SECONDS
    }
}

pub open spec fn stamp_ok(modified: Option<Stamp>) -> bool {
    modified is Some ==> modified->0.wf()
}

/// The entity tag of a file: length, time of modification and encoding.
pub open spec fn tag_of(length: u64, modified: Option<Stamp>, encoding: Encoding) -> Seq<char> {
    let past = modified is Some && modified->0.seconds >= 0;
    let seconds: nat = if past {
        modified->0.seconds as nat
    } else {
        0
    };
    let nanos: nat = if past {
        modified->0.nanos as nat
    } else {
        0
    };
    "\""@ + text::hexadecimal(length as nat) + "-"@ + text::hexadecimal(seconds) + "."@ + text::hexadecimal(nanos)
        + encoding.suffix_text() + "\""@
}

pub fn entity_tag(length: u64, modified: Option<Stamp>, encoding: Encoding) -> (r: String)
    ensures
        r@ == tag_of(length, modified, encoding),
{
    let (seconds, nanos): (u64, u32) = match modified {
        Some(stamp) => if stamp.seconds >= 0 {
            (stamp.seconds as u64, stamp.nanos)
        } else {
            (0, 0)
        },
        None => (0, 0),
    };
    let mut out = text::owned("\"");
    text::push_hexadecimal(&mut out, length);
    out.push_str("-");
    text::push_hexadecimal(&mut out, seconds);
    out.push_str(".");
    text::push_hexadecimal(&mut out, nanos as u64);
    out.push_str(encoding.etag_suffix());
    out.push_str("\"");
    out
}

/// Two encodings of one file never share an entity tag.
pub proof fn encodings_have_distinct_tags(length: u64, modified: Option<Stamp>, a: Encoding, b: Encoding)
    requires
        a != b,
    ensures
        tag_of(length, modified, a) != tag_of(length, modified, b),
{
    reveal_strlit("");
    reveal_strlit("-gz");
    reveal_strlit("-zst");
    assert(tag_of(length, modified, a).len() != tag_of(length, modified, b).len());
}

/// The HTTP date of a file's last modification.
pub open spec fn last_modified_text(stamp: Stamp) -> Seq<char> {
    utc::http_date_text(utc::at(stamp.seconds as int))
}

pub open spec fn last_modified_of(modified: Option<Stamp>) -> Option<Seq<char>> {
    match modified {
        Some(stamp) => Some(last_modified_text(stamp)),
        None => None,
    }
}

fn last_modified(modified: Option<Stamp>) -> (r: Option<String>)
    requires
        stamp_ok(modified),
    ensures
        held(r) == last_modified_of(modified),
{
    match modified {
        Some(stamp) => utc::http_date(stamp.seconds),
        None => None,
    }
}

/// The conditions and preferences that a request for a file carries.
pub struct FileRequest {
    pub head_only: bool,
    pub accept_encoding: Option<String>,
    pub range: Option<String>,
    pub if_range: Option<String>,
    pub if_none_match: Option<String>,
    pub if_modified_since: Option<String>,
}

/// What is known of the file that a request asks for.
pub struct FileFacts {
    pub length: u64,
    pub modified: Option<Stamp>,
    pub content_type: String,
}

/// How a request for a file is answered.
#[derive(Debug, Clone, Copy, PartialEq, Eq, Structural)]
pub enum FileAnswer {
    NotModified,
    RangeNotSatisfiable,
    /// The whole file, compressed.
    Encoded(Encoding),
    /// The whole file as it is.
    Whole,
    /// The bytes `start` to `end`.
    Part { start: u64, end: u64 },
}

/// A stale `If-Range` validator means the stored partial body no longer
/// matches the file: the range does not apply.
pub open spec fn range_applies(q: FileRequest, f: FileFacts) -> bool {
    q.if_range is Some ==> held(q.if_range)->0 == tag_of(f.length, f.modified, Encoding::Identity)
        || last_modified_of(f.modified) == held(q.if_range)
}

/// The range that is served, if any.
pub open spec fn served_range(q: FileRequest, f: FileFacts) -> Option<RangeSpec> {
    if q.head_only || !range_applies(q, f) || q.range is None {
        None
    } else {
        range_of(held(q.range)->0, f.length)
    }
}

/// Ranges always apply to the identity representation, so a range request
/// disables compression.
pub open spec fn served_encoding(q: FileRequest, f: FileFacts) -> Encoding {
    if served_range(q, f) is Some {
        Encoding::Identity
    } else {
        negotiated(held(q.accept_encoding), f.content_type@, f.length)
    }
}

pub open spec fn served_tag(q: FileRequest, f: FileFacts) -> Seq<char> {
    tag_of(f.length, f.modified, served_encoding(q, f))
}

/// Whether an `If-None-Match` value lists one of the two tags or `*`.
pub open spec fn lists_tag(value: Seq<char>, tag: Seq<char>, identity: Seq<char>) -> bool {
    exists|i: int| 0 <= i < text::pieces(value, ',').len() && ({
        let t = text::trimmed(#[trigger] text::pieces(value, ',')[i]);
        t == "*"@ || t == tag || t == identity
    })
}

/// Whether the client's copy is still good.
pub open spec fn revalidates(q: FileRequest, f: FileFacts) -> bool {
    match held(q.if_none_match) {
        Some(value) => lists_tag(value, served_tag(q, f), tag_of(f.length, f.modified, Encoding::Identity)),
        None => q.if_modified_since is Some && held(q.if_modified_since) == last_modified_of(f.modified),
    }
}

pub open spec fn file_answer(q: FileRequest, f: FileFacts) -> FileAnswer {
    if revalidates(q, f) {
        FileAnswer::NotModified
    } else {
        match served_range(q, f) {
            Some(RangeSpec::Unsatisfiable) => FileAnswer::RangeNotSatisfiable,
            Some(RangeSpec::Bounded { start, end }) => FileAnswer::Part { start, end },
            None => if served_encoding(q, f) != Encoding::Identity {
                FileAnswer::Encoded(served_encoding(q, f))
            } else {
                FileAnswer::Whole
            },
        }
    }
}

pub open spec fn last_modified_line(modified: Option<Stamp>) -> Seq<char> {
    match last_modified_of(modified) {
        Some(d) => "Last-Modified: "@ + d + "\r\n"@,
        None => ""@,
    }
}

/// The validators and caching rules that go with a body.
pub open spec fn validators_text(tag: Seq<char>, modified: Option<Stamp>) -> Seq<char> {
    "ETag: "@ + tag + "\r\n"@ + last_modified_line(modified)
        + "Accept-Ranges: bytes\r\nCache-Control: public, no-cache\r\nVary: Accept-Encoding\r\nX-Content-Type-Options: nosniff\r\n"@
}

/// The response head of an answer.
pub open spec fn answer_head(a: FileAnswer, tag: Seq<char>, f: FileFacts) -> Seq<char> {
    match a {
        FileAnswer::NotModified => "HTTP/1.1 304 Not Modified\r\nETag: "@ + tag + "\r\n"@ + last_modified_line(
            f.modified,
        ) + "Vary: Accept-Encoding\r\nConnection: close\r\n\r\n"@,
        FileAnswer::RangeNotSatisfiable => "HTTP/1.1 416 Range Not Satisfiable\r\nContent-Range: bytes */"@
            + text::decimal(f.length as nat) + "\r\nContent-Length: 0\r\nConnection: close\r\n\r\n"@,
        FileAnswer::Encoded(encoding) => "HTTP/1.1 200 OK\r\nContent-Type: "@ + f.content_type@
            + "\r\nContent-Encoding: "@ + encoding.token_text() + "\r\n"@ + validators_text(tag, f.modified)
            + "Connection: close\r\n\r\n"@,
        FileAnswer::Whole => "HTTP/1.1 200 OK\r\nContent-Type: "@ + f.content_type@ + "\r\nContent-Length: "@
            + text::decimal(f.length as nat) + "\r\n"@ + validators_text(tag, f.modified)
            + "Connection: close\r\n\r\n"@,
        FileAnswer::Part { start, end } => "HTTP/1.1 206 Partial Content\r\nContent-Type: "@ + f.content_type@
            + "\r\nContent-Length: "@ + text::decimal((end - start + 1) as nat) + "\r\nContent-Range: bytes "@
            + text::decimal(start as nat) + "-"@ + text::decimal(end as nat) + "/"@ + text::decimal(f.length as nat)
            + "\r\n"@ + validators_text(tag, f.modified) + "Connection: close\r\n\r\n"@,
    }
}

fn lists(value: &str, tag: &str, identity: &str) -> (r: bool)
    ensures
        r == lists_tag(value@, tag@, identity@),
{
    let v = text::chars_of(value);
    let parts = text::split(v.as_slice(), ',');
    let mut i: usize = 0;
    while i < parts.len()
        invariant
            i <= parts@.len(),
            v@ == value@,
            parts@.len() == text::pieces(value@, ',').len(),
            forall|j: int| 0 <= j < parts@.len() ==> (#[trigger] parts@[j])@ == text::pieces(value@, ',')[j],
            forall|j: int| 0 <= j < i ==> ({
                let t = text::trimmed(#[trigger] text::pieces(value@, ',')[j]);
                !(t == "*"@ || t == tag@ || t == identity@)
            }),
        decreases parts@.len() - i,
    {
        let t = text::trim(parts[i]);
        if text::is(t, "*") || text::is(t, tag) || text::is(t, identity) {
            assert(t@ == text::trimmed(text::pieces(value@, ',')[i as int]));
            return true;
        }
        i = i + 1;
    }
    false
}

fn same_text(a: &Option<String>, b: &Option<String>) -> (r: bool)
    ensures
        r == (held(*a) == held(*b)),
{
    match (a, b) {
        (Some(x), Some(y)) => text::str_eq(x.as_str(), y.as_str()),
        (None, None) => true,
        _ => false,
    }
}

fn push_last_modified(out: &mut String, shown: &Option<String>, modified: Option<Stamp>)
    requires
        held(*shown) == last_modified_of(modified),
    ensures
        final(out)@ == old(out)@ + last_modified_line(modified),
{
    match shown {
        Some(d) => {
            let mut line = text::owned("Last-Modified: ");
            line.push_str(d.as_str());
            line.push_str("\r\n");
            out.push_str(line.as_str());
        },
        None => {
            out.push_str("");
        },
    }
}

fn validators(tag: &str, shown: &Option<String>, modified: Option<Stamp>) -> (r: String)
    requires
        held(*shown) == last_modified_of(modified),
    ensures
        r@ == validators_text(tag@, modified),
{
    let mut out = text::owned("ETag: ");
    out.push_str(tag);
    out.push_str("\r\n");
    push_last_modified(&mut out, shown, modified);
    out.push_str(
        "Accept-Ranges: bytes\r\nCache-Control: public, no-cache\r\nVary: Accept-Encoding\r\nX-Content-Type-Options: nosniff\r\n",
    );
    out
}

/// Decides how one regular file is served: negotiated compression,
/// `ETag`/`Last-Modified` revalidation, and single `Range: bytes=` requests
/// guarded by `If-Range`. Yields the answer and its response head.
pub fn serve_file(q: &FileRequest, f: &FileFacts) -> (r: (FileAnswer, String))
    requires
        stamp_ok(f.modified),
    ensures
        r.0 == file_answer(*q, *f),
        r.1@ == answer_head(file_answer(*q, *f), served_tag(*q, *f), *f),
{
    let shown = last_modified(f.modified);
    let identity = entity_tag(f.length, f.modified, Encoding::Identity);
    let applies = match &q.if_range {
        Some(validator) => text::str_eq(validator.as_str(), identity.as_str()) || same_text(&shown, &q.if_range),
        None => true,
    };
    let range: Option<RangeSpec> = if q.head_only || !applies {
        None
    } else {
        match &q.range {
            Some(value) => parse_range(value.as_str(), f.length),
            None => None,
        }
    };
    let encoding = if range.is_some() {
        Encoding::Identity
    } else {
        negotiate_encoding(&q.accept_encoding, f.content_type.as_str(), f.length)
    };
    let tag = entity_tag(f.length, f.modified, encoding);
    assert(applies == range_applies(*q, *f));
    assert(range == served_range(*q, *f));
    assert(encoding == served_encoding(*q, *f));
    let good = match &q.if_none_match {
        Some(value) => lists(value.as_str(), tag.as_str(), identity.as_str()),
        None => q.if_modified_since.is_some() && same_text(&q.if_modified_since, &shown),
    };
    assert(good == revalidates(*q, *f));
    if good {
        let mut head = text::owned("HTTP/1.1 304 Not Modified\r\nETag: ");
        head.push_str(tag.as_str());
        head.push_str("\r\n");
        push_last_modified(&mut head, &shown, f.modified);
        head.push_str("Vary: Accept-Encoding\r\nConnection: close\r\n\r\n");
        return (FileAnswer::NotModified, head);
    }
    let validators = validators(tag.as_str(), &shown, f.modified);
    match range {
        Some(RangeSpec::Unsatisfiable) => {
            let mut head = text::owned("HTTP/1.1 416 Range Not Satisfiable\r\nContent-Range: bytes */");
            text::push_decimal(&mut head, f.length);
            head.push_str("\r\nContent-Length: 0\r\nConnection: close\r\n\r\n");
            (FileAnswer::RangeNotSatisfiable, head)
        },
        Some(RangeSpec::Bounded { start, end }) => {
            proof {
                ranges_lie_within_the_entity(held(q.range)->0, f.length);
            }
            let mut head = text::owned("HTTP/1.1 206 Partial Content\r\nContent-Type: ");
            head.push_str(f.content_type.as_str());
            head.push_str("\r\nContent-Length: ");
            text::push_decimal(&mut head, end - start + 1);
            head.push_str("\r\nContent-Range: bytes ");
            text::push_decimal(&mut head, start);
            head.push_str("-");
            text::push_decimal(&mut head, end);
            head.push_str("/");
            text::push_decimal(&mut head, f.length);
            head.push_str("\r\n");
            head.push_str(validators.as_str());
            head.push_str("Connection: close\r\n\r\n");
            (FileAnswer::Part { start, end }, head)
        },
        None => {
            let mut head = text::owned("HTTP/1.1 200 OK\r\nContent-Type: ");
            head.push_str(f.content_type.as_str());
            if encoding != Encoding::Identity {
                head.push_str("\r\nContent-Encoding: ");
                head.push_str(encoding.token());
                head.push_str("\r\n");
                head.push_str(validators.as_str());
                head.push_str("Connection: close\r\n\r\n");
                (FileAnswer::Encoded(encoding), head)
            } else {
                head.push_str("\r\nContent-Length: ");
                text::push_decimal(&mut head, f.length);
                head.push_str("\r\n");
                head.push_str(validators.as_str());
                head.push_str("Connection: close\r\n\r\n");
                (FileAnswer::Whole, head)
            }
        },
    }
}

/// A range is never served compressed, and never to a `HEAD` request.
pub proof fn ranges_are_served_as_they_are(q: FileRequest, f: FileFacts)
    ensures
        file_answer(q, f) is Part ==> served_encoding(q, f) == Encoding::Identity && !q.head_only,
        file_answer(q, f) matches FileAnswer::Part { start, end } ==> start <= end < f.length,
        file_answer(q, f) is Encoded ==> f.length >= 256,
{
}

proof fn lemma_hexadecimal_has_no_comma(n: nat)
    ensures
        !text::hexadecimal(n).contains(','),
    decreases n,
{
    if n >= 16 {
        lemma_hexadecimal_has_no_comma(n / 16);
        let h = text::hexadecimal(n / 16);
        let c = text::hex_char(n % 16);
        assert forall|i: int| 0 <= i < h.push(c).len() implies h.push(c)[i] != ',' by {
            if i < h.len() {
                assert(h.contains(h[i]));
            }
        }
    }
}

proof fn lemma_concat_has_no_comma(a: Seq<char>, b: Seq<char>)
    requires
        !a.contains(','),
        !b.contains(','),
    ensures
        !(a + b).contains(','),
{
    assert forall|i: int| 0 <= i < (a + b).len() implies (a + b)[i] != ',' by {
        if i < a.len() {
            assert(a.contains(a[i]));
        } else {
            assert(b.contains(b[i - a.len()]));
        }
    }
}

/// An entity tag holds no comma and no white space at its ends.
proof fn lemma_tag_is_one_word(length: u64, modified: Option<Stamp>, encoding: Encoding)
    ensures
        !tag_of(length, modified, encoding).contains(','),
        text::trimmed(tag_of(length, modified, encoding)) == tag_of(length, modified, encoding),
{
    reveal_strlit("\"");
    reveal_strlit("-");
    reveal_strlit(".");
    reveal_strlit("");
    reveal_strlit("-gz");
    reveal_strlit("-zst");
    let past = modified is Some && modified->0.seconds >= 0;
    let seconds: nat = if past {
        modified->0.seconds as nat
    } else {
        0
    };
    let nanos: nat = if past {
        modified->0.nanos as nat
    } else {
        0
    };
    lemma_hexadecimal_has_no_comma(length as nat);
    lemma_hexadecimal_has_no_comma(seconds);
    lemma_hexadecimal_has_no_comma(nanos);
    let a = "\""@ + text::hexadecimal(length as nat);
    let b = a + "-"@;
    let c = b + text::hexadecimal(seconds);
    let d = c + "."@;
    let e = d + text::hexadecimal(nanos);
    let g = e + encoding.suffix_text();
    lemma_concat_has_no_comma("\""@, text::hexadecimal(length as nat));
    lemma_concat_has_no_comma(a, "-"@);
    lemma_concat_has_no_comma(b, text::hexadecimal(seconds));
    lemma_concat_has_no_comma(c, "."@);
    lemma_concat_has_no_comma(d, text::hexadecimal(nanos));
    lemma_concat_has_no_comma(e, encoding.suffix_text());
    lemma_concat_has_no_comma(g, "\""@);
    let tag = tag_of(length, modified, encoding);
    assert(tag == g + "\""@);
    assert(tag[0] == '"');
    assert(tag.last() == '"');
}

/// A client that sends back the tag it was given gets 304, as long as it asks
/// for the same file in the same way.
pub proof fn a_served_tag_revalidates(q: FileRequest, again: FileRequest, f: FileFacts)
    requires
        again.head_only == q.head_only,
        held(again.accept_encoding) == held(q.accept_encoding),
        held(again.range) == held(q.range),
        held(again.if_range) == held(q.if_range),
        held(again.if_none_match) == Some(served_tag(q, f)),
    ensures
        file_answer(again, f) == FileAnswer::NotModified,
{
    let v = served_tag(q, f);
    lemma_tag_is_one_word(f.length, f.modified, served_encoding(q, f));
    text::lemma_first_at(v, ',');
    assert(text::pieces(v, ',') =~= seq![v]);
    assert(text::trimmed(text::pieces(v, ',')[0]) == v);
    assert(served_tag(again, f) == v);
}

/// A client that names no tag but sends back the date that it was served gets
/// 304; one that sends any other date, or none, gets the file. A file without a
/// date is always sent to a client that names no tag.
pub proof fn a_served_date_revalidates(q: FileRequest, f: FileFacts)
    requires
        q.if_none_match is None,
    ensures
        f.modified matches Some(stamp) ==> (file_answer(q, f) == FileAnswer::NotModified <==> (
        q.if_modified_since matches Some(since) && since@ == utc::http_date_text(utc::at(stamp.seconds as int)))),
        q.if_modified_since is None ==> file_answer(q, f) != FileAnswer::NotModified,
        f.modified is None ==> file_answer(q, f) != FileAnswer::NotModified,
{
}

/// A client that names tags gets 304 exactly if one of the names between its
/// commas is a star, the tag of what it would be served, or the tag of the file
/// as it is; the date that it sends counts for nothing then.
pub proof fn a_named_tag_outranks_the_date(q: FileRequest, f: FileFacts, value: Seq<char>)
    requires
        held(q.if_none_match) == Some(value),
    ensures
        file_answer(q, f) == FileAnswer::NotModified <==> exists|i: int|
            0 <= i < text::pieces(value, ',').len() && (text::trimmed(#[trigger] text::pieces(value, ',')[i])
                == seq!['*'] || text::trimmed(text::pieces(value, ',')[i]) == tag_of(
                f.length,
                f.modified,
                Encoding::Identity,
            ) || text::trimmed(text::pieces(value, ',')[i]) == served_tag(q, f)),
{
    reveal_strlit("*");
    assert("*"@ =~= seq!['*']);
    if lists_tag(value, served_tag(q, f), tag_of(f.length, f.modified, Encoding::Identity)) {
        let i = choose|i: int| 0 <= i < text::pieces(value, ',').len() && ({
            let t = text::trimmed(#[trigger] text::pieces(value, ',')[i]);
            t == "*"@ || t == served_tag(q, f) || t == tag_of(f.length, f.modified, Encoding::Identity)
        });
        assert(text::trimmed(text::pieces(value, ',')[i]) == seq!['*'] || text::trimmed(text::pieces(value, ',')[i])
            == tag_of(f.length, f.modified, Encoding::Identity) || text::trimmed(text::pieces(value, ',')[i])
            == served_tag(q, f));
    }
}

proof fn lemma_range_text(range: Seq<char>)
    requires
        range.len() > 0,
        !text::is_ws(range[0]),
        !text::is_ws(range.last()),
    ensures
        text::trimmed("bytes="@ + range) == "bytes="@ + range,
        text::begins("bytes="@ + range, "bytes="@),
        text::trimmed(("bytes="@ + range).skip(6)) == range,
{
    reveal_strlit("bytes=");
    let none = Seq::<char>::empty();
    let v = "bytes="@ + range;
    assert(none + v + none =~= v);
    text::trimming_takes_off_white_space_alone(none, v, none);
    assert(v.skip(6) =~= range);
    assert(none + range + none =~= range);
    text::trimming_takes_off_white_space_alone(none, range, none);
    assert(v.take(6) =~= "bytes="@);
}

proof fn lemma_two_numbers(first: Seq<char>, last: Seq<char>)
    requires
        text::all_digits(first),
        text::all_digits(last),
    ensures
        ({
            let range = first.push('-') + last;
            &&& !range.contains(',')
            &&& range.contains('-')
            &&& text::before(range, '-') == first
            &&& text::after(range, '-') == last
            &&& text::trimmed(first) == first
            &&& text::trimmed(last) == last
        }),
{
    let range = first.push('-') + last;
    text::lemma_digits_hold_nothing_else(first, '-');
    text::lemma_digits_hold_nothing_else(first, ',');
    text::lemma_digits_hold_nothing_else(last, ',');
    assert(range[first.len() as int] == '-');
    assert forall|k: int| 0 <= k < first.len() implies range[k] != '-' by {
        assert(range[k] == first[k]);
        assert(first.contains(first[k]));
    }
    text::lemma_first_at_is(range, '-', first.len() as int);
    assert(text::before(range, '-') =~= first);
    assert(text::after(range, '-') =~= last);
    if range.contains(',') {
        let k = choose|k: int| 0 <= k < range.len() && range[k] == ',';
        if k < first.len() {
            assert(first.contains(first[k]));
        } else if k > first.len() {
            assert(last.contains(last[k - first.len() - 1]));
        }
    }
    let none = Seq::<char>::empty();
    if first.len() > 0 {
        assert(text::is_digit(first[0]) && text::is_digit(first[first.len() - 1]));
    }
    if last.len() > 0 {
        assert(text::is_digit(last[0]) && text::is_digit(last[last.len() - 1]));
    }
    assert(none + first + none =~= first);
    assert(none + last + none =~= last);
    text::trimming_takes_off_white_space_alone(none, first, none);
    text::trimming_takes_off_white_space_alone(none, last, none);
}

/// `bytes=first-last` asks for the bytes from the first to the last, both with
/// it, cut off at the end of the entity. A first byte behind the end cannot be
/// had, and a last byte before the first makes no range.
pub proof fn a_bounded_range_is_what_it_says(first: u64, last: u64, length: u64)
    ensures
        ({
            let r = range_of(
                "bytes="@ + (text::decimal(first as nat).push('-') + text::decimal(last as nat)),
                length,
            );
            &&& first >= length ==> r == Some(RangeSpec::Unsatisfiable)
            &&& first < length && last < first ==> r is None
            &&& first <= last && last < length ==> r == Some(RangeSpec::Bounded { start: first, end: last })
            &&& first < length && length <= last ==> r == Some(
                RangeSpec::Bounded { start: first, end: (length - 1) as u64 },
            )
        }),
{
    let a = text::decimal(first as nat);
    let b = text::decimal(last as nat);
    text::decimal_notation_reads_back(first as nat, u64::MAX as nat);
    text::decimal_notation_reads_back(last as nat, u64::MAX as nat);
    lemma_two_numbers(a, b);
    let range = a.push('-') + b;
    assert(text::is_digit(a[0]) && text::is_digit(b[b.len() - 1]));
    assert(range[0] == a[0] && range.last() == b.last());
    lemma_range_text(range);
}

/// `bytes=first-` asks for everything from the first byte on.
pub proof fn an_open_range_goes_to_the_end(first: u64, length: u64)
    ensures
        range_of("bytes="@ + text::decimal(first as nat).push('-'), length) == if first < length {
            Some(RangeSpec::Bounded { start: first, end: (length - 1) as u64 })
        } else {
            Some(RangeSpec::Unsatisfiable)
        },
{
    let a = text::decimal(first as nat);
    let none = Seq::<char>::empty();
    text::decimal_notation_reads_back(first as nat, u64::MAX as nat);
    lemma_two_numbers(a, none);
    let range = a.push('-');
    assert(a.push('-') + none =~= range);
    assert(text::is_digit(a[0]));
    assert(range[0] == a[0] && range.last() == '-');
    lemma_range_text(range);
}

/// `bytes=-count` asks for so many bytes at the end, all of them if there are
/// fewer; no bytes at all cannot be had.
pub proof fn a_suffix_range_is_the_end_of_the_entity(count: u64, length: u64)
    ensures
        range_of("bytes="@ + (seq!['-'] + text::decimal(count as nat)), length) == if count == 0 || length == 0 {
            Some(RangeSpec::Unsatisfiable)
        } else {
            Some(
                RangeSpec::Bounded {
                    start: if count < length {
                        (length - count) as u64
                    } else {
                        0
                    },
                    end: (length - 1) as u64,
                },
            )
        },
{
    let b = text::decimal(count as nat);
    let none = Seq::<char>::empty();
    text::decimal_notation_reads_back(count as nat, u64::MAX as nat);
    lemma_two_numbers(none, b);
    let range = seq!['-'] + b;
    assert(none.push('-') + b =~= range);
    assert(text::is_digit(b[b.len() - 1]));
    assert(range[0] == '-' && range.last() == b.last());
    lemma_range_text(range);
}

/// More than one range is served as the whole file: a list of ranges is none.
pub proof fn a_list_of_ranges_is_none(value: Seq<char>, length: u64)
    requires
        range_of(value, length) is Some,
    ensures
        text::begins(text::trimmed(value), "bytes="@),
        !text::trimmed(text::trimmed(value).skip(6)).contains(','),
{
}

/// Unless its copy is still good, a client gets the part that it asks for: with
/// no `If-Range`, or one that names the file as it is now by tag or by date. A
/// stale one, or a `HEAD` request, gets no part.
pub proof fn a_part_is_served_while_the_validator_holds(q: FileRequest, f: FileFacts, value: Seq<char>)
    requires
        file_answer(q, f) != FileAnswer::NotModified,
        held(q.range) == Some(value),
    ensures
        !q.head_only && q.if_range is None ==> (range_of(value, f.length) matches Some(
            RangeSpec::Bounded { start, end },
        ) ==> file_answer(q, f) == (FileAnswer::Part { start, end })),
        !q.head_only && q.if_range is None && range_of(value, f.length) == Some(RangeSpec::Unsatisfiable)
            ==> file_answer(q, f) == FileAnswer::RangeNotSatisfiable,
        !q.head_only && held(q.if_range) == Some(tag_of(f.length, f.modified, Encoding::Identity)) ==> (range_of(
            value,
            f.length,
        ) matches Some(RangeSpec::Bounded { start, end }) ==> file_answer(q, f) == (FileAnswer::Part { start, end })),
        !q.head_only && (f.modified matches Some(stamp) && held(q.if_range) == Some(
            utc::http_date_text(utc::at(stamp.seconds as int)),
        )) ==> (range_of(value, f.length) matches Some(RangeSpec::Bounded { start, end }) ==> file_answer(q, f) == (
        FileAnswer::Part { start, end })),
        q.head_only || (q.if_range is Some && held(q.if_range) != Some(
            tag_of(f.length, f.modified, Encoding::Identity),
        ) && (f.modified matches Some(stamp) ==> held(q.if_range) != Some(
            utc::http_date_text(utc::at(stamp.seconds as int)),
        ))) ==> file_answer(q, f) is Whole || file_answer(q, f) is Encoded,
        range_of(value, f.length) is None ==> file_answer(q, f) is Whole || file_answer(q, f) is Encoded,
{
}

/// Without a range a file goes out compressed exactly if it is worth it and the
/// client takes an encoding: zstd if it takes that, else gzip.
pub proof fn a_file_goes_out_compressed_if_the_client_takes_it(q: FileRequest, f: FileFacts)
    requires
        file_answer(q, f) != FileAnswer::NotModified,
        q.range is None,
    ensures
        ({
            let worth = f.length >= 256 && is_compressible(f.content_type@);
            let zstd = q.accept_encoding matches Some(a) && accepts(a@, seq!['z', 's', 't', 'd']);
            let gzip = q.accept_encoding matches Some(a) && accepts(a@, seq!['g', 'z', 'i', 'p']);
            &&& worth && zstd ==> file_answer(q, f) == FileAnswer::Encoded(Encoding::Zstd)
            &&& worth && !zstd && gzip ==> file_answer(q, f) == FileAnswer::Encoded(Encoding::Gzip)
            &&& !worth || !(zstd || gzip) ==> file_answer(q, f) == FileAnswer::Whole
        }),
{
    reveal_strlit("zstd");
    reveal_strlit("gzip");
    assert("zstd"@ =~= seq!['z', 's', 't', 'd']);
    assert("gzip"@ =~= seq!['g', 'z', 'i', 'p']);
}

/// A client takes an encoding that it lists by its plain name, in any case and
/// with white space around it, whatever else it lists before or behind it.
pub proof fn a_listed_encoding_is_taken(
    before: Seq<char>,
    a: Seq<char>,
    name: Seq<char>,
    b: Seq<char>,
    behind: Seq<char>,
    token: Seq<char>,
)
    requires
        text::lower(name) == text::lower(token),
        name.len() > 0,
        forall|i: int| 0 <= i < name.len() ==> !text::is_ws(#[trigger] name[i]) && name[i] != ',' && name[i] != ';',
        forall|i: int| 0 <= i < a.len() ==> text::is_ws(#[trigger] a[i]),
        forall|i: int| 0 <= i < b.len() ==> text::is_ws(#[trigger] b[i]),
    ensures
        accepts(a + name + b, token),
        accepts(before.push(',') + (a + name + b), token),
        accepts((a + name + b).push(',') + behind, token),
        accepts(before.push(',') + ((a + name + b).push(',') + behind), token),
{
    let entry = a + name + b;
    let none = Seq::<char>::empty();
    assert(!text::is_ws(name[0]) && !text::is_ws(name[name.len() - 1]));
    text::trimming_takes_off_white_space_alone(a, name, b);
    assert(none + name + none =~= name);
    text::trimming_takes_off_white_space_alone(none, name, none);
    assert(!name.contains(';')) by {
        if name.contains(';') {
            let i = choose|i: int| 0 <= i < name.len() && name[i] == ';';
            assert(name[i] != ';');
        }
    }
    text::separators_part_pieces(name, ';', none);
    assert(entry_accepts(entry, token));
    assert(!entry.contains(',')) by {
        if entry.contains(',') {
            let i = choose|i: int| 0 <= i < entry.len() && entry[i] == ',';
            if i < a.len() {
                assert(text::is_ws(a[i]));
            } else if i < a.len() + name.len() {
                assert(name[i - a.len()] != ',');
            } else {
                assert(text::is_ws(b[i - a.len() - name.len()]));
            }
        }
    }
    text::separators_part_pieces(entry, ',', behind);
    text::separators_part_pieces(before, ',', entry);
    text::separators_part_pieces(before, ',', entry.push(',') + behind);
    let n = text::pieces(before, ',').len() as int;
    assert(text::pieces(entry, ',')[0] == entry);
    assert(text::pieces(before.push(',') + entry, ',')[n] == entry);
    assert(text::pieces(entry.push(',') + behind, ',')[0] == entry);
    assert(text::pieces(before.push(',') + (entry.push(',') + behind), ',')[n] == entry);
}

/// A client does not take an encoding that it lists with weight zero alone.
pub proof fn an_encoding_of_weight_zero_is_not_taken(name: Seq<char>, token: Seq<char>)
    requires
        name.len() > 0,
        forall|i: int| 0 <= i < name.len() ==> !text::is_ws(#[trigger] name[i]) && name[i] != ',' && name[i] != ';',
    ensures
        !accepts(name.push(';') + seq!['q', '=', '0'], token),
{
    reveal_strlit("q=0");
    let zero = seq!['q', '=', '0'];
    let entry = name.push(';') + zero;
    let none = Seq::<char>::empty();
    assert("q=0"@ =~= zero);
    assert(!text::is_ws(name[0]));
    assert(entry[0] == name[0] && entry.last() == '0');
    assert(none + entry + none =~= entry);
    text::trimming_takes_off_white_space_alone(none, entry, none);
    assert(none + zero + none =~= zero);
    text::trimming_takes_off_white_space_alone(none, zero, none);
    text::separators_part_pieces(name, ';', zero);
    assert(!name.contains(';')) by {
        if name.contains(';') {
            let i = choose|i: int| 0 <= i < name.len() && name[i] == ';';
            assert(name[i] != ';');
        }
    }
    assert(!zero.contains(';'));
    text::separators_part_pieces(zero, ';', none);
    assert(text::pieces(entry, ';') =~= seq![name, zero]);
    assert(!entry.contains(',')) by {
        if entry.contains(',') {
            let i = choose|i: int| 0 <= i < entry.len() && entry[i] == ',';
            if i < name.len() {
                assert(name[i] != ',');
            }
        }
    }
    text::separators_part_pieces(entry, ',', none);
    assert(text::pieces(entry, ',') =~= seq![entry]);
    lemma_without_absent(zero, ' ');
    assert(is_zero_weight(text::pieces(entry, ';')[1]));
}

proof fn lemma_without_absent(s: Seq<char>, c: char)
    requires
        !s.contains(c),
    ensures
        text::without(s, c) == s,
    decreases s.len(),
{
    if s.len() > 0 {
        let t = s.drop_last();
        assert(!t.contains(c)) by {
            if t.contains(c) {
                let i = choose|i: int| 0 <= i < t.len() && t[i] == c;
                assert(s[i] == c);
            }
        }
        lemma_without_absent(t, c);
        assert(s[s.len() - 1] == s.last());
        assert(s.contains(s.last()));
        assert(t.push(s.last()) =~= s);
    } else {
        assert(text::without(s, c) =~= s);
    }
}

/// Text of any kind is worth compressing, and so are the data formats that are
/// text.
pub proof fn text_is_worth_compressing(rest: Seq<char>)
    ensures
        is_compressible("text/"@ + rest),
        is_compressible("application/json"@),
        is_compressible("image/svg+xml"@),
        !is_compressible("image/png"@),
        !is_compressible("application/octet-stream"@),
{
    assert(("text/"@ + rest).take("text/"@.len() as int) =~= "text/"@);
    reveal_strlit("text/");
    reveal_strlit("application/json");
    reveal_strlit("application/xml");
    reveal_strlit("application/yaml");
    reveal_strlit("application/wasm");
    reveal_strlit("application/rss+xml");
    reveal_strlit("application/atom+xml");
    reveal_strlit("application/xhtml+xml");
    reveal_strlit("application/manifest+json");
    reveal_strlit("image/svg+xml");
    reveal_strlit("image/png");
    reveal_strlit("application/octet-stream");
    text::lemma_first_at("application/json"@, ';');
    text::lemma_first_at("image/svg+xml"@, ';');
    text::lemma_first_at("image/png"@, ';');
    text::lemma_first_at("application/octet-stream"@, ';');
    lemma_no_semicolon("application/json"@);
    lemma_no_semicolon("image/svg+xml"@);
    lemma_no_semicolon("image/png"@);
    lemma_no_semicolon("application/octet-stream"@);
    assert("image/png"@[0] != "text/"@[0] && "image/png"@.take(5)[0] == 'i');
    assert("application/octet-stream"@.take(5)[0] == 'a');
}

proof fn lemma_no_semicolon(s: Seq<char>)
    requires
        forall|i: int| 0 <= i < s.len() ==> s[i] != ';',
    ensures
        text::before(s, ';') == s,
{
    text::lemma_first_at(s, ';');
    assert(!s.contains(';'));
    assert(text::before(s, ';') =~= s);
}

/// The part of a file name behind its last dot; a leading dot starts no
/// extension.
pub open spec fn extension_of(file_name: Seq<char>) -> Seq<char> {
    let k = text::last_at(file_name, '.');
    if k <= 0 || file_name == ".."@ {
        seq![]
    } else {
        file_name.skip(k + 1)
    }
}

/// The media type of a lower-case file extension.
pub open spec fn media_type(e: Seq<char>) -> Seq<char> {
    if e == "html"@ || e == "htm"@ {
        "text/html; charset=utf-8"@
    } else if e == "css"@ {
        "text/css; charset=utf-8"@
    } else if e == "js"@ || e == "mjs"@ {
        "text/javascript; charset=utf-8"@
    } else if e == "json"@ {
        "application/json"@
    } else if e == "jsonl"@ || e == "ndjson"@ {
        "application/x-ndjson"@
    } else if e == "xml"@ {
        "application/xml"@
    } else if e == "rss"@ {
        "application/rss+xml"@
    } else if e == "atom"@ {
        "application/atom+xml"@
    } else if e == "xhtml"@ {
        "application/xhtml+xml"@
    } else if e == "yaml"@ || e == "yml"@ {
        "application/yaml"@
    } else if e == "toml"@ {
        "text/plain; charset=utf-8"@
    } else if e == "wasm"@ {
        "application/wasm"@
    } else if e == "svg"@ {
        "image/svg+xml"@
    } else if e == "png"@ {
        "image/png"@
    } else if e == "jpg"@ || e == "jpeg"@ {
        "image/jpeg"@
    } else if e == "gif"@ {
        "image/gif"@
    } else if e == "webp"@ {
        "image/webp"@
    } else if e == "avif"@ {
        "image/avif"@
    } else if e == "ico"@ {
        "image/x-icon"@
    } else if e == "bmp"@ {
        "image/bmp"@
    } else if e == "tif"@ || e == "tiff"@ {
        "image/tiff"@
    } else if e == "woff"@ {
        "font/woff"@
    } else if e == "woff2"@ {
        "font/woff2"@
    } else if e == "ttf"@ {
        "font/ttf"@
    } else if e == "otf"@ {
        "font/otf"@
    } else if e == "mp4"@ || e == "m4v"@ {
        "video/mp4"@
    } else if e == "webm"@ {
        "video/webm"@
    } else if e == "mkv"@ {
        "video/x-matroska"@
    } else if e == "avi"@ {
        "video/x-msvideo"@
    } else if e == "mov"@ {
        "video/quicktime"@
    } else if e == "mp3"@ {
        "audio/mpeg"@
    } else if e == "m4a"@ {
        "audio/mp4"@
    } else if e == "aac"@ {
        "audio/aac"@
    } else if e == "ogg"@ || e == "oga"@ {
        "audio/ogg"@
    } else if e == "opus"@ {
        "audio/opus"@
    } else if e == "flac"@ {
        "audio/flac"@
    } else if e == "wav"@ {
        "audio/wav"@
    } else if e == "txt"@ || e == "md"@ || e == "text"@ || e == "log"@ {
        "text/plain; charset=utf-8"@
    } else if e == "csv"@ {
        "text/csv; charset=utf-8"@
    } else if e == "pdf"@ {
        "application/pdf"@
    } else if e == "zip"@ {
        "application/zip"@
    } else if e == "gz"@ {
        "application/gzip"@
    } else if e == "zst"@ {
        "application/zstd"@
    } else if e == "tar"@ {
        "application/x-tar"@
    } else if e == "7z"@ {
        "application/x-7z-compressed"@
    } else if e == "rar"@ {
        "application/vnd.rar"@
    } else if e == "bz2"@ {
        "application/x-bzip2"@
    } else if e == "xz"@ {
        "application/x-xz"@
    } else if e == "apk"@ {
        "application/vnd.android.package-archive"@
    } else if e == "iso"@ {
        "application/x-iso9660-image"@
    } else if e == "deb"@ {
        "application/vnd.debian.binary-package"@
    } else if e == "rpm"@ {
        "application/x-rpm"@
    } else if e == "sh"@ {
        "text/x-shellscript; charset=utf-8"@
    } else if e == "py"@ {
        "text/x-python; charset=utf-8"@
    } else if e == "rs"@ || e == "c"@ || e == "h"@ || e == "cpp"@ || e == "hpp"@ || e == "go"@ || e == "java"@ || e == "ts"@ {
        "text/plain; charset=utf-8"@
    } else if e == "eot"@ {
        "application/vnd.ms-fontobject"@
    } else if e == "manifest"@ || e == "webmanifest"@ {
        "application/manifest+json"@
    } else {
        "application/octet-stream"@
    }
}

fn media_type_name(e: &[char]) -> (r: &'static str)
    ensures
        r@ == media_type(e@),
{
    if text::is(e, "html") || text::is(e, "htm") {
        "text/html; charset=utf-8"
    } else if text::is(e, "css") {
        "text/css; charset=utf-8"
    } else if text::is(e, "js") || text::is(e, "mjs") {
        "text/javascript; charset=utf-8"
    } else if text::is(e, "json") {
        "application/json"
    } else if text::is(e, "jsonl") || text::is(e, "ndjson") {
        "application/x-ndjson"
    } else if text::is(e, "xml") {
        "application/xml"
    } else if text::is(e, "rss") {
        "application/rss+xml"
    } else if text::is(e, "atom") {
        "application/atom+xml"
    } else if text::is(e, "xhtml") {
        "application/xhtml+xml"
    } else if text::is(e, "yaml") || text::is(e, "yml") {
        "application/yaml"
    } else if text::is(e, "toml") {
        "text/plain; charset=utf-8"
    } else if text::is(e, "wasm") {
        "application/wasm"
    } else if text::is(e, "svg") {
        "image/svg+xml"
    } else if text::is(e, "png") {
        "image/png"
    } else if text::is(e, "jpg") || text::is(e, "jpeg") {
        "image/jpeg"
    } else if text::is(e, "gif") {
        "image/gif"
    } else if text::is(e, "webp") {
        "image/webp"
    } else if text::is(e, "avif") {
        "image/avif"
    } else if text::is(e, "ico") {
        "image/x-icon"
    } else if text::is(e, "bmp") {
        "image/bmp"
    } else if text::is(e, "tif") || text::is(e, "tiff") {
        "image/tiff"
    } else if text::is(e, "woff") {
        "font/woff"
    } else if text::is(e, "woff2") {
        "font/woff2"
    } else if text::is(e, "ttf") {
        "font/ttf"
    } else if text::is(e, "otf") {
        "font/otf"
    } else if text::is(e, "mp4") || text::is(e, "m4v") {
        "video/mp4"
    } else if text::is(e, "webm") {
        "video/webm"
    } else if text::is(e, "mkv") {
        "video/x-matroska"
    } else if text::is(e, "avi") {
        "video/x-msvideo"
    } else if text::is(e, "mov") {
        "video/quicktime"
    } else if text::is(e, "mp3") {
        "audio/mpeg"
    } else if text::is(e, "m4a") {
        "audio/mp4"
    } else if text::is(e, "aac") {
        "audio/aac"
    } else if text::is(e, "ogg") || text::is(e, "oga") {
        "audio/ogg"
    } else if text::is(e, "opus") {
        "audio/opus"
    } else if text::is(e, "flac") {
        "audio/flac"
    } else if text::is(e, "wav") {
        "audio/wav"
    } else if text::is(e, "txt") || text::is(e, "md") || text::is(e, "text") || text::is(e, "log") {
        "text/plain; charset=utf-8"
    } else if text::is(e, "csv") {
        "text/csv; charset=utf-8"
    } else if text::is(e, "pdf") {
        "application/pdf"
    } else if text::is(e, "zip") {
        "application/zip"
    } else if text::is(e, "gz") {
        "application/gzip"
    } else if text::is(e, "zst") {
        "application/zstd"
    } else if text::is(e, "tar") {
        "application/x-tar"
    } else if text::is(e, "7z") {
        "application/x-7z-compressed"
    } else if text::is(e, "rar") {
        "application/vnd.rar"
    } else if text::is(e, "bz2") {
        "application/x-bzip2"
    } else if text::is(e, "xz") {
        "application/x-xz"
    } else if text::is(e, "apk") {
        "application/vnd.android.package-archive"
    } else if text::is(e, "iso") {
        "application/x-iso9660-image"
    } else if text::is(e, "deb") {
        "application/vnd.debian.binary-package"
    } else if text::is(e, "rpm") {
        "application/x-rpm"
    } else if text::is(e, "sh") {
        "text/x-shellscript; charset=utf-8"
    } else if text::is(e, "py") {
        "text/x-python; charset=utf-8"
    } else if text::is(e, "rs") || text::is(e, "c") || text::is(e, "h") || text::is(e, "cpp") || text::is(e, "hpp") || text::is(e, "go") || text::is(e, "java") || text::is(e, "ts") {
        "text/plain; charset=utf-8"
    } else if text::is(e, "eot") {
        "application/vnd.ms-fontobject"
    } else if text::is(e, "manifest") || text::is(e, "webmanifest") {
        "application/manifest+json"
    } else {
        "application/octet-stream"
    }
}

/// The media type that a file name suggests.
pub fn content_type(file_name: &str) -> (r: &'static str)
    ensures
        r@ == media_type(text::lower(extension_of(file_name@))),
{
    let name = text::chars_of(file_name);
    if text::is(name.as_slice(), "..") {
        let none: Vec<char> = Vec::new();
        assert(none@ =~= text::lower(extension_of(file_name@)));
        return media_type_name(none.as_slice());
    }
    match text::rfind(name.as_slice(), '.') {
        Some(k) => {
            if k > 0 {
                let e = slice_subrange(name.as_slice(), k + 1, name.len());
                assert(e@ =~= extension_of(file_name@));
                let low = text::to_lower(e);
                return media_type_name(low.as_slice());
            }
        },
        None => {},
    }
    let none: Vec<char> = Vec::new();
    assert(none@ =~= text::lower(extension_of(file_name@)));
    media_type_name(none.as_slice())
}

/// The icon category of a lower-case file extension.
pub open spec fn icon_of_extension(e: Seq<char>) -> Seq<char> {
    if e == "png"@ || e == "jpg"@ || e == "jpeg"@ || e == "gif"@ || e == "webp"@ || e == "avif"@ || e == "svg"@ || e == "ico"@ || e == "bmp"@ || e == "tif"@ || e == "tiff"@ {
        "image"@
    } else if e == "mp4"@ || e == "m4v"@ || e == "webm"@ || e == "mkv"@ || e == "avi"@ || e == "mov"@ {
        "video"@
    } else if e == "mp3"@ || e == "m4a"@ || e == "aac"@ || e == "ogg"@ || e == "oga"@ || e == "opus"@ || e == "flac"@ || e == "wav"@ {
        "audio"@
    } else if e == "zip"@ || e == "gz"@ || e == "zst"@ || e == "tar"@ || e == "7z"@ || e == "rar"@ || e == "bz2"@ || e == "xz"@ || e == "deb"@ || e == "rpm"@ || e == "apk"@ || e == "iso"@ {
        "archive"@
    } else if e == "rs"@ || e == "c"@ || e == "h"@ || e == "cpp"@ || e == "hpp"@ || e == "go"@ || e == "java"@ || e == "ts"@ || e == "js"@ || e == "mjs"@ || e == "py"@ || e == "sh"@ || e == "css"@ || e == "json"@ || e == "yaml"@ || e == "yml"@ || e == "toml"@ || e == "xml"@ || e == "html"@ || e == "htm"@ {
        "code"@
    } else if e == "txt"@ || e == "md"@ || e == "log"@ || e == "csv"@ || e == "pdf"@ || e == "doc"@ || e == "docx"@ || e == "xls"@ || e == "xlsx"@ || e == "ppt"@ || e == "pptx"@ {
        "doc"@
    } else if e == "woff"@ || e == "woff2"@ || e == "ttf"@ || e == "otf"@ || e == "eot"@ {
        "font"@
    } else {
        "file"@
    }
}

fn icon_name(e: &[char]) -> (r: &'static str)
    ensures
        r@ == icon_of_extension(e@),
{
    if text::is(e, "png") || text::is(e, "jpg") || text::is(e, "jpeg") || text::is(e, "gif") || text::is(e, "webp") || text::is(e, "avif") || text::is(e, "svg") || text::is(e, "ico") || text::is(e, "bmp") || text::is(e, "tif") || text::is(e, "tiff") {
        "image"
    } else if text::is(e, "mp4") || text::is(e, "m4v") || text::is(e, "webm") || text::is(e, "mkv") || text::is(e, "avi") || text::is(e, "mov") {
        "video"
    } else if text::is(e, "mp3") || text::is(e, "m4a") || text::is(e, "aac") || text::is(e, "ogg") || text::is(e, "oga") || text::is(e, "opus") || text::is(e, "flac") || text::is(e, "wav") {
        "audio"
    } else if text::is(e, "zip") || text::is(e, "gz") || text::is(e, "zst") || text::is(e, "tar") || text::is(e, "7z") || text::is(e, "rar") || text::is(e, "bz2") || text::is(e, "xz") || text::is(e, "deb") || text::is(e, "rpm") || text::is(e, "apk") || text::is(e, "iso") {
        "archive"
    } else if text::is(e, "rs") || text::is(e, "c") || text::is(e, "h") || text::is(e, "cpp") || text::is(e, "hpp") || text::is(e, "go") || text::is(e, "java") || text::is(e, "ts") || text::is(e, "js") || text::is(e, "mjs") || text::is(e, "py") || text::is(e, "sh") || text::is(e, "css") || text::is(e, "json") || text::is(e, "yaml") || text::is(e, "yml") || text::is(e, "toml") || text::is(e, "xml") || text::is(e, "html") || text::is(e, "htm") {
        "code"
    } else if text::is(e, "txt") || text::is(e, "md") || text::is(e, "log") || text::is(e, "csv") || text::is(e, "pdf") || text::is(e, "doc") || text::is(e, "docx") || text::is(e, "xls") || text::is(e, "xlsx") || text::is(e, "ppt") || text::is(e, "pptx") {
        "doc"
    } else if text::is(e, "woff") || text::is(e, "woff2") || text::is(e, "ttf") || text::is(e, "otf") || text::is(e, "eot") {
        "font"
    } else {
        "file"
    }
}

/// The part of a name behind its last dot, or the whole name without one.
pub open spec fn behind_last_dot(name: Seq<char>) -> Seq<char> {
    name.skip(text::last_at(name, '.') + 1)
}

pub open spec fn icon_of(name: Seq<char>, is_dir: bool) -> Seq<char> {
    if is_dir {
        "folder"@
    } else {
        icon_of_extension(text::lower(behind_last_dot(name)))
    }
}

/// Icon category for a file name, keyed to the bundled SVG sprite.
pub fn icon_for(name: &str, is_dir: bool) -> (r: &'static str)
    ensures
        r@ == icon_of(name@, is_dir),
{
    if is_dir {
        return "folder";
    }
    let s = text::chars_of(name);
    let from = match text::rfind(s.as_slice(), '.') {
        Some(k) => k + 1,
        None => 0,
    };
    let e = slice_subrange(s.as_slice(), from, s.len());
    assert(e@ =~= behind_last_dot(name@));
    let low = text::to_lower(e);
    icon_name(low.as_slice())
}

/// Why an encoded value is refused.
#[derive(Debug, Clone, Copy, PartialEq, Eq, Structural)]
pub enum DecodeError {
    InvalidPercent,
    NulByte,
    NotUtf8,
    Escapes,
}

/// The byte that two characters behind a `%` denote: two hexadecimal digits,
/// or a plus sign and one.
pub open spec fn encoded_byte(a: u8, b: u8) -> Option<u8> {
    match (text::hex_value(a), text::hex_value(b)) {
        (Some(x), Some(y)) => Some((16 * x + y) as u8),
        (None, Some(y)) => if a == 43 {
            Some(y)
        } else {
            None
        },
        _ => None,
    }
}

/// The bytes that a percent-encoded value denotes.
pub open spec fn percent_decoded(b: Seq<u8>) -> Option<Seq<u8>>
    decreases b.len(),
{
    if b.len() == 0 {
        Some(seq![])
    } else if b[0] == 37 {
        if b.len() < 3 || encoded_byte(b[1], b[2]) is None {
            None
        } else {
            match percent_decoded(b.skip(3)) {
                Some(rest) => Some(seq![encoded_byte(b[1], b[2])->0] + rest),
                None => None,
            }
        }
    } else {
        match percent_decoded(b.skip(1)) {
            Some(rest) => Some(seq![b[0]] + rest),
            None => None,
        }
    }
}

/// The text that a percent-encoded value denotes.
pub open spec fn decoded_text(value: Seq<char>) -> Result<Seq<char>, DecodeError> {
    match percent_decoded(vstd::utf8::encode_utf8(value)) {
        None => Err(DecodeError::InvalidPercent),
        Some(b) => if b.contains(0u8) {
            Err(DecodeError::NulByte)
        } else if !vstd::utf8::valid_utf8(b) {
            Err(DecodeError::NotUtf8)
        } else {
            Ok(vstd::utf8::decode_utf8(b))
        },
    }
}

fn pair_value(a: u8, b: u8) -> (r: Option<u8>)
    ensures
        r == encoded_byte(a, b),
{
    match (text::hex_digit(a), text::hex_digit(b)) {
        (Some(x), Some(y)) => Some(16 * x + y),
        (None, Some(y)) => if a == 43 {
            Some(y)
        } else {
            None
        },
        _ => None,
    }
}

fn percent_bytes(input: &[u8]) -> (r: Option<Vec<u8>>)
    ensures
        match percent_decoded(input@) {
            Some(b) => r is Some && r->0@ == b,
            None => r is None,
        },
{
    let mut out: Vec<u8> = Vec::new();
    let mut offset: usize = 0;
    assert(input@.skip(0) =~= input@);
    proof {
        if percent_decoded(input@) is Some {
            assert(out@ + percent_decoded(input@)->0 =~= percent_decoded(input@)->0);
        }
    }
    while offset < input.len()
        invariant
            offset <= input@.len(),
            percent_decoded(input@) is Some <==> percent_decoded(input@.skip(offset as int)) is Some,
            percent_decoded(input@) is Some ==> percent_decoded(input@)->0 == out@ + percent_decoded(
                input@.skip(offset as int),
            )->0,
        decreases input@.len() - offset,
    {
        let ghost rest = input@.skip(offset as int);
        let ghost out0 = out@;
        assert(rest[0] == input@[offset as int]);
        if input[offset] == 37 {
            if input.len() - offset < 3 {
                return None;
            }
            assert(rest[1] == input@[offset + 1]);
            assert(rest[2] == input@[offset + 2]);
            assert(rest.skip(3) =~= input@.skip(offset + 3));
            match pair_value(input[offset + 1], input[offset + 2]) {
                Some(b) => {
                    out.push(b);
                    proof {
                        if percent_decoded(input@) is Some {
                            let tail = percent_decoded(input@.skip(offset + 3))->0;
                            assert(out0 + (seq![b] + tail) =~= out@ + tail);
                        }
                    }
                },
                None => return None,
            }
            offset = offset + 3;
        } else {
            let b = input[offset];
            assert(rest.skip(1) =~= input@.skip(offset + 1));
            out.push(b);
            proof {
                if percent_decoded(input@) is Some {
                    let tail = percent_decoded(input@.skip(offset + 1))->0;
                    assert(out0 + (seq![b] + tail) =~= out@ + tail);
                }
            }
            offset = offset + 1;
        }
    }
    proof {
        assert(input@.skip(offset as int) =~= seq![]);
        assert(out@ + Seq::<u8>::empty() =~= out@);
    }
    Some(out)
}

fn holds_zero(b: &Vec<u8>) -> (r: bool)
    ensures
        r == b@.contains(0u8),
{
    let mut i: usize = 0;
    while i < b.len()
        invariant
            i <= b@.len(),
            forall|k: int| 0 <= k < i ==> b@[k] != 0,
        decreases b@.len() - i,
    {
        if b[i] == 0 {
            assert(b@[i as int] == 0);
            return true;
        }
        i = i + 1;
    }
    false
}

/// Undoes percent encoding; NUL bytes and text that is not UTF-8 are refused.
pub fn percent_decode(value: &str) -> (r: Result<String, DecodeError>)
    ensures
        match decoded_text(value@) {
            Ok(s) => r is Ok && r->Ok_0@ == s,
            Err(e) => r is Err && r->Err_0 == e,
        },
{
    let b = match percent_bytes(value.as_bytes()) {
        Some(b) => b,
        None => return Err(DecodeError::InvalidPercent),
    };
    if holds_zero(&b) {
        return Err(DecodeError::NulByte);
    }
    match text::utf8_text(b.as_slice()) {
        Some(s) => Ok(s),
        None => Err(DecodeError::NotUtf8),
    }
}

/// Whether a relative path stays below where it starts: it has no root and no
/// component that leads to a parent.
pub open spec fn stays_below(path: Seq<char>) -> bool {
    &&& !(path.len() > 0 && path[0] == '/')
    &&& forall|i: int| 0 <= i < text::pieces(path, '/').len() ==> #[trigger] text::pieces(path, '/')[i] != ".."@
}

pub open spec fn decoded_path(value: Seq<char>) -> Result<Seq<char>, DecodeError> {
    match decoded_text(value) {
        Err(e) => Err(e),
        Ok(s) => if stays_below(s) {
            Ok(s)
        } else {
            Err(DecodeError::Escapes)
        },
    }
}

/// Decodes a request path and refuses one that leaves the document root.
pub fn decode_path(value: &str) -> (r: Result<String, DecodeError>)
    ensures
        match decoded_path(value@) {
            Ok(s) => r is Ok && r->Ok_0@ == s,
            Err(e) => r is Err && r->Err_0 == e,
        },
{
    let decoded = match percent_decode(value) {
        Ok(s) => s,
        Err(e) => return Err(e),
    };
    let s = text::chars_of(decoded.as_str());
    if s.len() > 0 && s[0] == '/' {
        return Err(DecodeError::Escapes);
    }
    let parts = text::split(s.as_slice(), '/');
    let mut i: usize = 0;
    while i < parts.len()
        invariant
            i <= parts@.len(),
            decoded_text(value@) == Ok::<Seq<char>, DecodeError>(s@),
            parts@.len() == text::pieces(s@, '/').len(),
            forall|j: int| 0 <= j < parts@.len() ==> (#[trigger] parts@[j])@ == text::pieces(s@, '/')[j],
            forall|j: int| 0 <= j < i ==> #[trigger] text::pieces(s@, '/')[j] != ".."@,
        decreases parts@.len() - i,
    {
        if text::is(parts[i], "..") {
            assert(text::pieces(s@, '/')[i as int] == ".."@);
            return Err(DecodeError::Escapes);
        }
        i = i + 1;
    }
    Ok(decoded)
}

/// No accepted request path has a root or leads to a parent directory.
pub proof fn accepted_paths_stay_below_the_root(value: Seq<char>)
    ensures
        decoded_path(value) matches Ok(path) ==> stays_below(path),
{
}

/// The value of the first `after=` parameter of a query, if it decodes.
pub open spec fn after_parameter(pairs: Seq<Seq<char>>) -> Option<Seq<char>>
    decreases pairs.len(),
{
    if pairs.len() == 0 {
        None
    } else if text::begins(pairs[0], "after="@) {
        match decoded_text(pairs[0].skip(6)) {
            Ok(s) => Some(s),
            Err(_) => None,
        }
    } else {
        after_parameter(pairs.drop_first())
    }
}

/// The listing cursor of a query.
pub fn query_after(query: &str) -> (r: Option<String>)
    ensures
        held(r) == after_parameter(text::pieces(query@, '&')),
{
    let q = text::chars_of(query);
    let pairs = text::split(q.as_slice(), '&');
    let prefix = text::chars_of("after=");
    proof {
        reveal_strlit("after=");
    }
    let ghost all = text::pieces(query@, '&');
    let mut i: usize = 0;
    assert(all.skip(0) =~= all);
    while i < pairs.len()
        invariant
            i <= pairs@.len(),
            prefix@ == "after="@,
            prefix@.len() == 6,
            all == text::pieces(query@, '&'),
            pairs@.len() == all.len(),
            forall|j: int| 0 <= j < pairs@.len() ==> (#[trigger] pairs@[j])@ == all[j],
            after_parameter(all) == after_parameter(all.skip(i as int)),
        decreases pairs@.len() - i,
    {
        assert(all.skip(i as int)[0] == all[i as int]);
        assert(all.skip(i as int).drop_first() =~= all.skip(i + 1));
        if let Some(v) = text::strip_prefix(pairs[i], prefix.as_slice()) {
            let s = text::string_of(v);
            return match percent_decode(s.as_str()) {
                Ok(d) => Some(d),
                Err(_) => None,
            };
        }
        i = i + 1;
    }
    None
}

/// Whether a byte stands for itself in a URL.
pub open spec fn is_unreserved(b: u8) -> bool {
    (48 <= b <= 57) || (65 <= b <= 90) || (97 <= b <= 122) || b == 45 || b == 46 || b == 95 || b == 126
}

pub open spec fn url_byte(b: u8) -> Seq<char> {
    if is_unreserved(b) {
        seq![b as char]
    } else {
        seq!['%', text::upper_hex_char(b as nat / 16), text::upper_hex_char(b as nat % 16)]
    }
}

pub open spec fn url_bytes(b: Seq<u8>) -> Seq<char>
    decreases b.len(),
{
    if b.len() == 0 {
        seq![]
    } else {
        url_bytes(b.drop_last()) + url_byte(b.last())
    }
}

/// A text in a URL: every byte of its UTF-8 form that is not unreserved is
/// percent-encoded.
pub open spec fn url(s: Seq<char>) -> Seq<char> {
    url_bytes(vstd::utf8::encode_utf8(s))
}

fn upper_hex(d: u8) -> (r: char)
    requires
        d < 16,
    ensures
        r == text::upper_hex_char(d as nat),
{
    if d < 10 {
        (48u8 + d) as char
    } else {
        (55u8 + d) as char
    }
}

pub fn url_escape(value: &str) -> (r: String)
    ensures
        r@ == url(value@),
{
    let b = value.as_bytes();
    let mut out = String::new();
    let mut i: usize = 0;
    while i < b.len()
        invariant
            i <= b@.len(),
            out@ == url_bytes(b@.take(i as int)),
        decreases b@.len() - i,
    {
        let x = b[i];
        let ghost before = out@;
        assert(b@.take(i + 1).drop_last() =~= b@.take(i as int));
        if (48 <= x && x <= 57) || (65 <= x && x <= 90) || (97 <= x && x <= 122) || x == 45 || x == 46 || x == 95 || x
            == 126 {
            out.push(x as char);
            assert(out@ =~= before + url_byte(x));
        } else {
            out.push('%');
            out.push(upper_hex(x / 16));
            out.push(upper_hex(x % 16));
            assert(out@ =~= before + url_byte(x));
        }
        i = i + 1;
    }
    assert(b@.take(i as int) =~= b@);
    out
}

/// Percent encoding loses nothing: decoding gives back every text that holds no
/// NUL.
pub proof fn url_escaping_is_undone_by_decoding(s: Seq<char>)
    requires
        !s.contains('\u{0}'),
    ensures
        decoded_text(url(s)) == Ok::<Seq<char>, DecodeError>(s),
{
    let b = vstd::utf8::encode_utf8(s);
    lemma_no_zero_byte(s);
    vstd::utf8::encode_utf8_valid_utf8(s);
    vstd::utf8::encode_utf8_decode_utf8(s);
    lemma_url_is_ascii(b);
    let u = url_bytes(b);
    vstd::utf8::is_ascii_chars_encode_utf8(u);
    lemma_url_roundtrip(b, seq![]);
    assert(url_ascii(b) + Seq::<u8>::empty() =~= url_ascii(b));
    assert(vstd::utf8::encode_utf8(u) =~= url_ascii(b));
    assert(percent_decoded(url_ascii(b))->0 =~= b);
}

/// The cursor of a listing's next page reads back from its link: whatever name
/// without a NUL it is, `?after=` and its percent-encoded form name it.
pub proof fn a_cursor_reads_back(name: Seq<char>)
    requires
        !name.contains('\u{0}'),
    ensures
        after_parameter(text::pieces("after="@ + url(name), '&')) == Some(name),
{
    let query = "after="@ + url(name);
    reveal_strlit("after=");
    url_escaping_is_undone_by_decoding(name);
    lemma_url_keeps_no_ampersand(vstd::utf8::encode_utf8(name));
    assert(!query.contains('&')) by {
        assert forall|i: int| 0 <= i < query.len() implies query[i] != '&' by {
            if i >= 6 {
                assert(query[i] == url(name)[i - 6]);
            }
        }
    }
    let pairs = text::pieces(query, '&');
    assert(pairs == seq![query]);
    assert(query.take(6) =~= "after="@);
    assert(query.skip(6) =~= url(name));
    assert(text::begins(pairs[0], "after="@));
}

proof fn lemma_url_keeps_no_ampersand(b: Seq<u8>)
    ensures
        forall|i: int| 0 <= i < url_bytes(b).len() ==> #[trigger] url_bytes(b)[i] != '&',
    decreases b.len(),
{
    if b.len() > 0 {
        lemma_url_keeps_no_ampersand(b.drop_last());
        let h = url_bytes(b.drop_last());
        let t = url_byte(b.last());
        assert forall|i: int| 0 <= i < (h + t).len() implies #[trigger] (h + t)[i] != '&' by {
            if i >= h.len() {
                assert((h + t)[i] == t[i - h.len()]);
            } else {
                assert((h + t)[i] == h[i]);
            }
        }
    }
}

proof fn lemma_scalar_bytes(c: u32)
    requires
        0 < c <= 0x10ffff,
    ensures
        !vstd::utf8::encode_scalar(c).contains(0u8),
{
    assert(0 < c <= 0x7f ==> (c & 0x7F) as u8 != 0) by (bit_vector);
    assert(0xC0u8 | ((c >> 6) & 0x1F) as u8 != 0) by (bit_vector);
    assert(0xE0u8 | ((c >> 12) & 0x0F) as u8 != 0) by (bit_vector);
    assert(0xF0u8 | ((c >> 18) & 0x7) as u8 != 0) by (bit_vector);
    assert(0x80u8 | (c & 0x3F) as u8 != 0) by (bit_vector);
    assert(0x80u8 | ((c >> 6) & 0x3F) as u8 != 0) by (bit_vector);
    assert(0x80u8 | ((c >> 12) & 0x3F) as u8 != 0) by (bit_vector);
    let e = vstd::utf8::encode_scalar(c);
    assert forall|i: int| 0 <= i < e.len() implies e[i] != 0u8 by {}
}

proof fn lemma_no_zero_byte(s: Seq<char>)
    requires
        !s.contains('\u{0}'),
    ensures
        !vstd::utf8::encode_utf8(s).contains(0u8),
    decreases s.len(),
{
    if s.len() > 0 {
        let t = s.drop_first();
        assert forall|i: int| 0 <= i < t.len() implies t[i] != '\u{0}' by {
            assert(t[i] == s[i + 1]);
        }
        lemma_no_zero_byte(t);
        assert(s[0] != '\u{0}');
        vstd::utf8::char_is_scalar(s[0]);
        if s[0] as u32 == 0 {
            vstd::utf8::char_u32_cast(s[0], 0u32);
            vstd::utf8::char_u32_cast('\u{0}', 0u32);
        }
        let a = vstd::utf8::encode_scalar(s[0] as u32);
        let b = vstd::utf8::encode_utf8(t);
        lemma_scalar_bytes(s[0] as u32);
        assert forall|i: int| 0 <= i < (a + b).len() implies (a + b)[i] != 0u8 by {
            if i < a.len() {
                assert(a.contains((a + b)[i]));
            } else {
                assert(b.contains((a + b)[i]));
            }
        }
    }
}

/// The bytes of an escaped text.
spec fn url_ascii(b: Seq<u8>) -> Seq<u8> {
    Seq::new(url_bytes(b).len(), |i: int| url_bytes(b)[i] as u8)
}

proof fn lemma_url_is_ascii(b: Seq<u8>)
    ensures
        vstd::utf8::is_ascii_chars(url_bytes(b)),
    decreases b.len(),
{
    if b.len() > 0 {
        lemma_url_is_ascii(b.drop_last());
        let h = url_bytes(b.drop_last());
        let t = url_byte(b.last());
        assert forall|i: int| 0 <= i < (h + t).len() implies '\u{0}' <= #[trigger] (h + t)[i] <= '\u{7f}' by {
            if i >= h.len() {
                assert((h + t)[i] == t[i - h.len()]);
            } else {
                assert((h + t)[i] == h[i]);
            }
        }
    }
}

proof fn lemma_hex_char_value(d: nat)
    requires
        d < 16,
    ensures
        text::hex_value(text::upper_hex_char(d) as u8) == Some(d as u8),
        text::upper_hex_char(d) as u8 != 37,
{
}

/// Decoding an escaped row of bytes followed by `tail` yields the bytes, then
/// what `tail` decodes to.
proof fn lemma_url_roundtrip(b: Seq<u8>, tail: Seq<u8>)
    requires
        percent_decoded(tail) is Some,
    ensures
        percent_decoded(url_ascii(b) + tail) == Some(b + percent_decoded(tail)->0),
    decreases b.len(),
{
    if b.len() == 0 {
        assert(url_ascii(b) + tail =~= tail);
        assert(b + percent_decoded(tail)->0 =~= percent_decoded(tail)->0);
    } else {
        let x = b.last();
        let e = url_byte(x);
        let enc = Seq::new(e.len(), |i: int| e[i] as u8);
        let t2 = enc + tail;
        assert(url_ascii(b) + tail =~= url_ascii(b.drop_last()) + t2);
        if is_unreserved(x) {
            assert((x as char) as u8 == x);
            assert(t2[0] == x);
            assert(t2.skip(1) =~= tail);
        } else {
            let hi = x as nat / 16;
            let lo = x as nat % 16;
            lemma_hex_char_value(hi);
            lemma_hex_char_value(lo);
            assert(('%') as u8 == 37);
            assert(t2[0] == 37);
            assert(t2[1] == text::upper_hex_char(hi) as u8);
            assert(t2[2] == text::upper_hex_char(lo) as u8);
            assert(t2.skip(3) =~= tail);
            assert(encoded_byte(t2[1], t2[2]) == Some(x));
        }
        assert(percent_decoded(t2) == Some(seq![x] + percent_decoded(tail)->0));
        lemma_url_roundtrip(b.drop_last(), t2);
        assert(b.drop_last() + (seq![x] + percent_decoded(tail)->0) =~= b + percent_decoded(tail)->0);
    }
}

/// The head of a built-in error page.
pub open spec fn error_head(status: u16) -> Seq<char> {
    "HTTP/1.1 "@ + text::decimal(status as nat) + " "@ + error_pages::reason_of(status)
        + "\r\nContent-Type: text/html; charset=utf-8\r\nContent-Length: "@ + text::decimal(
        vstd::utf8::encode_utf8(error_body(status)).len(),
    ) + "\r\nConnection: close\r\nX-Content-Type-Options: nosniff\r\n\r\n"@
}

pub open spec fn error_body(status: u16) -> Seq<char> {
    error_pages::page(status, error_pages::reason_of(status), error_pages::detail_of(status))
}

/// The head of an error response begins with its status.
pub proof fn an_error_head_begins_with_its_status(status: u16)
    ensures
        text::begins(error_head(status), "HTTP/1.1 "@ + text::decimal(status as nat) + " "@),
{
    let start = "HTTP/1.1 "@ + text::decimal(status as nat) + " "@;
    assert(error_head(status).take(start.len() as int) =~= start);
}

/// The whole response for a status: its head, and the page unless only the
/// head was asked for.
pub fn error_response(status: u16, head_only: bool) -> (r: String)
    ensures
        r@ == if head_only {
            error_head(status)
        } else {
            error_head(status) + error_body(status)
        },
{
    let reason = error_pages::reason(status);
    let body = error_pages::render(status, reason, error_pages::default_detail(status));
    let length: u64 = body.as_str().as_bytes().len() as u64;
    let mut out = text::owned("HTTP/1.1 ");
    text::push_decimal(&mut out, status as u64);
    out.push_str(" ");
    out.push_str(reason);
    out.push_str("\r\nContent-Type: text/html; charset=utf-8\r\nContent-Length: ");
    text::push_decimal(&mut out, length);
    out.push_str("\r\nConnection: close\r\nX-Content-Type-Options: nosniff\r\n\r\n");
    if !head_only {
        out.push_str(body.as_str());
    }
    out
}

/// The response for a path that no route serves.
pub fn not_found(head_only: bool) -> (r: String)
    ensures
        r@ == if head_only {
            error_head(404)
        } else {
            error_head(404) + error_body(404)
        },
{
    error_response(404, head_only)
}

pub open spec fn redirect_text(location: Seq<char>) -> Seq<char> {
    "HTTP/1.1 301 Moved Permanently\r\nLocation: "@ + location
        + "\r\nContent-Length: 0\r\nConnection: close\r\n\r\n"@
}

pub fn redirect(location: &str) -> (r: String)
    ensures
        r@ == redirect_text(location@),
{
    let mut out = text::owned("HTTP/1.1 301 Moved Permanently\r\nLocation: ");
    out.push_str(location);
    out.push_str("\r\nContent-Length: 0\r\nConnection: close\r\n\r\n");
    out
}

pub open spec fn listing_head(length: nat) -> Seq<char> {
    "HTTP/1.1 200 OK\r\nContent-Type: text/html; charset=utf-8\r\nContent-Length: "@ + text::decimal(length)
        + "\r\nCache-Control: no-cache\r\nConnection: close\r\nX-Content-Type-Options: nosniff\r\n\r\n"@
}

/// The response that carries a directory page.
pub fn listing_response(body: &str, head_only: bool) -> (r: String)
    ensures
        r@ == if head_only {
            listing_head(vstd::utf8::encode_utf8(body@).len())
        } else {
            listing_head(vstd::utf8::encode_utf8(body@).len()) + body@
        },
{
    let length: u64 = body.as_bytes().len() as u64;
    let mut out = text::owned("HTTP/1.1 200 OK\r\nContent-Type: text/html; charset=utf-8\r\nContent-Length: ");
    text::push_decimal(&mut out, length);
    out.push_str("\r\nCache-Control: no-cache\r\nConnection: close\r\nX-Content-Type-Options: nosniff\r\n\r\n");
    if !head_only {
        out.push_str(body);
    }
    out
}

pub const OPTIONS_RESPONSE: &'static str = "HTTP/1.1 204 No Content\r\nAllow: GET, HEAD, OPTIONS\r\nContent-Length: 0\r\nConnection: close\r\n\r\n";

/// What a request comes down to before the file system is asked.
pub enum RequestPlan {
    /// Send this response and close.
    Respond(String),
    /// Look the path up below the document root.
    Lookup { path: String, request_path: String, query: Option<String>, head_only: bool },
}

/// The part of a request target that the document root is searched for:
/// without the route's prefix and without slashes in front.
pub open spec fn relative_path(request_path: Seq<char>, prefix: Seq<char>) -> Seq<char> {
    let p = text::trimmed_end_of(prefix, '/');
    text::trimmed_start_of(
        if text::begins(request_path, p) {
            request_path.skip(p.len() as int)
        } else {
            request_path
        },
        '/',
    )
}

/// The path of a target: what stands before a question mark.
pub open spec fn path_of(target: Seq<char>) -> Seq<char> {
    text::before(target, '?')
}

pub open spec fn query_of(target: Seq<char>) -> Option<Seq<char>> {
    if target.contains('?') {
        Some(text::after(target, '?'))
    } else {
        None
    }
}

/// The status that ends a request early, if any.
pub open spec fn early_status(method: Seq<char>, target: Seq<char>, prefix: Seq<char>, root_usable: bool) -> Option<u16> {
    if method != "GET"@ && method != "HEAD"@ {
        Some(405u16)
    } else if !root_usable {
        Some(500u16)
    } else if decoded_path(relative_path(path_of(target), prefix)) is Err {
        Some(400u16)
    } else {
        None
    }
}

pub open spec fn plan_is(p: RequestPlan, method: Seq<char>, target: Seq<char>, prefix: Seq<char>, root_usable: bool) -> bool {
    if method == "OPTIONS"@ {
        p matches RequestPlan::Respond(s) && s@ == OPTIONS_RESPONSE@
    } else {
        match early_status(method, target, prefix, root_usable) {
            Some(status) => p matches RequestPlan::Respond(s) && s@ == if method == "HEAD"@ {
                error_head(status)
            } else {
                error_head(status) + error_body(status)
            },
            None => p matches RequestPlan::Lookup { path, request_path, query, head_only } && path@ == decoded_path(
                relative_path(path_of(target), prefix),
            )->Ok_0 && request_path@ == path_of(target) && held(query) == query_of(target) && head_only == (method
                == "HEAD"@),
        }
    }
}

/// The first half of serving a request: what can be said before the file
/// system is asked, given whether the document root is a usable directory.
pub fn plan_request(method: &str, target: &str, prefix: &str, root_usable: bool) -> (r: RequestPlan)
    ensures
        plan_is(r, method@, target@, prefix@, root_usable),
{
    let m = text::chars_of(method);
    proof {
        reveal_strlit("GET");
        reveal_strlit("HEAD");
        reveal_strlit("OPTIONS");
        assert("GET"@.len() == 3 && "HEAD"@.len() == 4 && "OPTIONS"@.len() == 7);
    }
    if text::is(m.as_slice(), "OPTIONS") {
        return RequestPlan::Respond(text::owned(OPTIONS_RESPONSE));
    }
    let head_only = text::is(m.as_slice(), "HEAD");
    if !text::is(m.as_slice(), "GET") && !head_only {
        return RequestPlan::Respond(error_response(405, false));
    }
    if !root_usable {
        return RequestPlan::Respond(error_response(500, head_only));
    }
    let t = text::chars_of(target);
    let k = text::find(t.as_slice(), '?');
    let request_path = slice_subrange(t.as_slice(), 0, k);
    assert(request_path@ =~= path_of(target@));
    let query = if k < t.len() {
        let q = slice_subrange(t.as_slice(), k + 1, t.len());
        assert(q@ =~= text::after(target@, '?'));
        Some(text::string_of(q))
    } else {
        None
    };
    let pre = text::chars_of(prefix);
    let stem = text::trim_end_of(pre.as_slice(), '/');
    let relative = match text::strip_prefix(request_path, stem) {
        Some(rest) => rest,
        None => request_path,
    };
    let bare = text::string_of(text::trim_start_of(relative, '/'));
    match decode_path(bare.as_str()) {
        Ok(path) => RequestPlan::Lookup { path, request_path: text::string_of(request_path), query, head_only },
        Err(_) => RequestPlan::Respond(error_response(400, head_only)),
    }
}

/// What the file system says of a path below the document root.
#[derive(Debug, Clone, Copy, PartialEq, Eq, Structural)]
pub enum Found {
    /// Nothing there.
    Missing,
    /// It leads out of the document root, or cannot be resolved.
    Unresolved,
    /// Its metadata may not be read.
    Denied,
    /// Its metadata cannot be read for another reason.
    Unreadable,
    Directory,
    File,
    /// Neither a directory nor a regular file.
    Other,
}

/// What is done with a path that was looked up.
pub enum EntryPlan {
    /// Send this response and close.
    Respond(String),
    /// Serve the index file of the directory.
    ServeIndex,
    /// Serve the file itself.
    ServeFile,
    /// List the directory.
    List,
}

pub open spec fn entry_plan_is(
    p: EntryPlan,
    found: Found,
    request_path: Seq<char>,
    index_is_file: bool,
    directory_listing: bool,
    head_only: bool,
) -> bool {
    let status: Option<u16> = match found {
        Found::Missing => Some(404u16),
        Found::Unresolved => Some(403u16),
        Found::Denied => Some(403u16),
        Found::Unreadable => Some(404u16),
        Found::Other => Some(404u16),
        _ => None,
    };
    let slash = request_path.len() > 0 && request_path.last() == '/';
    match status {
        Some(status) => p matches EntryPlan::Respond(s) && s@ == if head_only {
            error_head(status)
        } else {
            error_head(status) + error_body(status)
        },
        None => if found == Found::File {
            p is ServeFile
        } else if !slash {
            p matches EntryPlan::Respond(s) && s@ == redirect_text(request_path + "/"@)
        } else if index_is_file {
            p is ServeIndex
        } else if directory_listing {
            p is List
        } else {
            p matches EntryPlan::Respond(s) && s@ == if head_only {
                error_head(403)
            } else {
                error_head(403) + error_body(403)
            }
        },
    }
}

/// The second half of serving a request: what is done with what was found.
/// Relative links in listings and index pages only resolve correctly under a
/// trailing-slash URL, so a directory without one is redirected.
pub fn plan_entry(
    found: Found,
    request_path: &str,
    index_is_file: bool,
    directory_listing: bool,
    head_only: bool,
) -> (r: EntryPlan)
    ensures
        entry_plan_is(r, found, request_path@, index_is_file, directory_listing, head_only),
{
    match found {
        Found::Missing => EntryPlan::Respond(error_response(404, head_only)),
        Found::Unresolved => EntryPlan::Respond(error_response(403, head_only)),
        Found::Denied => EntryPlan::Respond(error_response(403, head_only)),
        Found::Unreadable => EntryPlan::Respond(error_response(404, head_only)),
        Found::Other => EntryPlan::Respond(error_response(404, head_only)),
        Found::File => EntryPlan::ServeFile,
        Found::Directory => {
            let p = text::chars_of(request_path);
            if !(p.len() > 0 && p[p.len() - 1] == '/') {
                let mut location = text::owned(request_path);
                location.push_str("/");
                EntryPlan::Respond(redirect(location.as_str()))
            } else if index_is_file {
                EntryPlan::ServeIndex
            } else if directory_listing {
                EntryPlan::List
            } else {
                EntryPlan::Respond(error_response(403, head_only))
            }
        },
    }
}

/// What a path resolves to once every link in it is followed, by its
/// components.
pub enum Physical {
    Missing,
    /// The path could not be resolved.
    Failed,
    At(Vec<Vec<u8>>),
}

/// Whether a path is a directory or lies in it, component by component.
pub open spec fn is_beneath(root: Seq<Seq<u8>>, path: Seq<Seq<u8>>) -> bool {
    root.len() <= path.len() && path.take(root.len() as int) == root
}

/// Whether there is something at a path; anything outside of the physical
/// document root is an error, however the path got there.
pub fn canonical_beneath(root: &Vec<Vec<u8>>, path: &Physical) -> (r: Result<bool, ()>)
    ensures
        match path {
            Physical::Missing => r == Ok::<bool, ()>(false),
            Physical::Failed => r is Err,
            Physical::At(p) => if is_beneath(bytes::views(root@), bytes::views(p@)) {
                r == Ok::<bool, ()>(true)
            } else {
                r is Err
            },
        },
{
    let p = match path {
        Physical::Missing => return Ok(false),
        Physical::Failed => return Err(()),
        Physical::At(p) => p,
    };
    let ghost whole = bytes::views(root@);
    let ghost other = bytes::views(p@);
    if p.len() < root.len() {
        return Err(());
    }
    let mut i: usize = 0;
    while i < root.len()
        invariant
            i <= root@.len() <= p@.len(),
            whole == bytes::views(root@),
            other == bytes::views(p@),
            path matches Physical::At(q) && q@ == p@,
            forall|k: int| 0 <= k < i ==> #[trigger] whole[k] == other[k],
        decreases root@.len() - i,
    {
        assert(whole[i as int] == root@[i as int]@ && other[i as int] == p@[i as int]@);
        if !bytes::same(root[i].as_slice(), p[i].as_slice()) {
            assert(other.take(whole.len() as int)[i as int] != whole[i as int]);
            return Err(());
        }
        i = i + 1;
    }
    assert(other.take(whole.len() as int) =~= whole);
    Ok(true)
}

/// What lies beneath a directory lies beneath every directory above it, so that
/// links may lead anywhere within the document root and nowhere else.
pub proof fn beneath_is_transitive(a: Seq<Seq<u8>>, b: Seq<Seq<u8>>, c: Seq<Seq<u8>>)
    requires
        is_beneath(a, b),
        is_beneath(b, c),
    ensures
        is_beneath(a, c),
        is_beneath(a, a),
{
    assert(a.take(a.len() as int) =~= a);
    assert(c.take(a.len() as int) =~= c.take(b.len() as int).take(a.len() as int));
}

/// How many bytes the next chunk of a body may hold.
pub const STREAM_CHUNK: u64 = 4096;

/// The next step of streaming a body of which `remaining` bytes are left:
/// how much to ask for, none when the body is complete.
pub fn next_chunk(remaining: u64) -> (r: Option<usize>)
    ensures
        r is None <==> remaining == 0,
        r is Some ==> r->0 == if remaining < STREAM_CHUNK {
            remaining
        } else {
            STREAM_CHUNK
        },
{
    if remaining == 0 {
        None
    } else if remaining < STREAM_CHUNK {
        Some(remaining as usize)
    } else {
        Some(STREAM_CHUNK as usize)
    }
}

/// What is left of a body once `count` bytes were read; reading nothing
/// before the end means that the file was truncated.
pub fn after_chunk(remaining: u64, count: u64) -> (r: Option<u64>)
    requires
        count <= remaining,
    ensures
        r is None <==> count == 0,
        r is Some ==> r->0 == remaining - count,
{
    if count == 0 {
        None
    } else {
        Some(remaining - count)
    }
}

/// A path without a percent sign stands for itself.
pub proof fn a_plain_path_stands_for_itself(value: Seq<char>)
    requires
        !vstd::utf8::encode_utf8(value).contains(37u8),
        !vstd::utf8::encode_utf8(value).contains(0u8),
    ensures
        decoded_text(value) == Ok::<Seq<char>, DecodeError>(value),
        stays_below(value) ==> decoded_path(value) == Ok::<Seq<char>, DecodeError>(value),
{
    let b = vstd::utf8::encode_utf8(value);
    assert forall|i: int| 0 <= i < b.len() implies #[trigger] b[i] != 37 by {
        assert(b.contains(b[i]));
    }
    lemma_plain_bytes(b);
    vstd::utf8::encode_utf8_valid_utf8(value);
    vstd::utf8::encode_utf8_decode_utf8(value);
}

proof fn lemma_plain_bytes(b: Seq<u8>)
    requires
        forall|i: int| 0 <= i < b.len() ==> #[trigger] b[i] != 37,
    ensures
        percent_decoded(b) == Some(b),
    decreases b.len(),
{
    if b.len() > 0 {
        let t = b.skip(1);
        assert forall|i: int| 0 <= i < t.len() implies #[trigger] t[i] != 37 by {
            assert(t[i] == b[i + 1]);
        }
        lemma_plain_bytes(t);
        assert(seq![b[0]] + t =~= b);
    } else {
        assert(b =~= seq![]);
    }
}

/// A percent sign and two hexadecimal digits stand for one byte, wherever they
/// stand.
pub proof fn a_percent_sign_stands_for_a_byte(a: Seq<u8>, x: u8, y: u8, b: Seq<u8>)
    requires
        percent_decoded(a) is Some,
        percent_decoded(b) is Some,
        text::hex_value(x) is Some,
        text::hex_value(y) is Some,
    ensures
        percent_decoded(a + seq![37u8, x, y] + b) == Some(
            percent_decoded(a)->0 + seq![(16 * text::hex_value(x)->0 + text::hex_value(y)->0) as u8]
                + percent_decoded(b)->0,
        ),
    decreases a.len(),
{
    let v = a + seq![37u8, x, y] + b;
    let byte = (16 * text::hex_value(x)->0 + text::hex_value(y)->0) as u8;
    let end = percent_decoded(b)->0;
    if a.len() == 0 {
        assert(v[0] == 37 && v[1] == x && v[2] == y);
        assert(v.skip(3) =~= b);
        assert(seq![byte] + end =~= percent_decoded(a)->0 + seq![byte] + end);
    } else if a[0] == 37 {
        assert(v[0] == a[0] && v[1] == a[1] && v[2] == a[2]);
        assert(v.skip(3) =~= a.skip(3) + seq![37u8, x, y] + b);
        a_percent_sign_stands_for_a_byte(a.skip(3), x, y, b);
        let first = encoded_byte(a[1], a[2])->0;
        let rest = percent_decoded(a.skip(3))->0;
        assert(seq![first] + (rest + seq![byte] + end) =~= seq![first] + rest + seq![byte] + end);
    } else {
        assert(v[0] == a[0]);
        assert(v.skip(1) =~= a.skip(1) + seq![37u8, x, y] + b);
        a_percent_sign_stands_for_a_byte(a.skip(1), x, y, b);
        let rest = percent_decoded(a.skip(1))->0;
        assert(seq![a[0]] + (rest + seq![byte] + end) =~= seq![a[0]] + rest + seq![byte] + end);
    }
}

/// A path that decodes is looked up exactly if it has no root and none of its
/// parts leads to the parent, however deep it is.
pub proof fn a_path_below_the_root_is_looked_up(value: Seq<char>, path: Seq<char>)
    requires
        decoded_text(value) == Ok::<Seq<char>, DecodeError>(path),
    ensures
        decoded_path(value) == Ok::<Seq<char>, DecodeError>(path) <==> (path.len() == 0 || path[0] != '/')
            && !text::pieces(path, '/').contains(seq!['.', '.']),
        decoded_path(value) is Ok || decoded_path(value) == Err::<Seq<char>, DecodeError>(DecodeError::Escapes),
{
    reveal_strlit("..");
    assert(".."@ =~= seq!['.', '.']);
    let parts = text::pieces(path, '/');
    if parts.contains(seq!['.', '.']) {
        let i = choose|i: int| 0 <= i < parts.len() && parts[i] == seq!['.', '.'];
        assert(!(parts[i] != ".."@));
    } else {
        assert forall|i: int| 0 <= i < parts.len() implies #[trigger] parts[i] != ".."@ by {
            assert(parts.contains(parts[i]));
        }
    }
}

/// What is looked up is what stands behind the route's prefix and a slash.
pub proof fn a_path_is_taken_from_behind_the_prefix(prefix: Seq<char>, rest: Seq<char>)
    requires
        prefix.len() == 0 || prefix.last() != '/',
        rest.len() == 0 || rest[0] != '/',
    ensures
        relative_path(prefix.push('/') + rest, prefix) == rest,
        relative_path(prefix.push('/') + rest, prefix.push('/')) == rest,
{
    let path = prefix.push('/') + rest;
    assert(prefix.push('/').drop_last() =~= prefix);
    assert(path.take(prefix.len() as int) =~= prefix);
    let tail = path.skip(prefix.len() as int);
    assert(tail =~= seq!['/'] + rest);
    assert(tail.drop_first() =~= rest);
    reveal_with_fuel(text::trimmed_start_of, 3);
    reveal_with_fuel(text::trimmed_end_of, 3);
}

/// `GET` and `HEAD` of a path below a root that can be used are looked up; every
/// other request is answered at once.
pub proof fn a_proper_request_is_looked_up(
    p: RequestPlan,
    method: Seq<char>,
    target: Seq<char>,
    prefix: Seq<char>,
    root_usable: bool,
)
    requires
        plan_is(p, method, target, prefix, root_usable),
    ensures
        p is Lookup <==> (method == "GET"@ || method == "HEAD"@) && root_usable && decoded_path(
            relative_path(path_of(target), prefix),
        ) is Ok,
        p matches RequestPlan::Lookup { path, request_path, query, head_only } ==> decoded_path(
            relative_path(path_of(target), prefix),
        ) == Ok::<Seq<char>, DecodeError>(path@) && request_path@ == path_of(target) && (head_only <==> method
            == "HEAD"@) && held(query) == query_of(target),
        p matches RequestPlan::Respond(s) ==> {
            let known = method == "GET"@ || method == "HEAD"@;
            &&& known && root_usable ==> text::begins(s@, error_head(400))
            &&& known && !root_usable ==> text::begins(s@, error_head(500))
            &&& !known && method != "OPTIONS"@ ==> text::begins(s@, error_head(405))
        },
{
    reveal_strlit("GET");
    reveal_strlit("HEAD");
    reveal_strlit("OPTIONS");
    assert("GET"@.len() == 3 && "HEAD"@.len() == 4 && "OPTIONS"@.len() == 7);
    lemma_begins_with_head(405);
    lemma_begins_with_head(500);
    lemma_begins_with_head(400);
}

proof fn lemma_begins_with_head(status: u16)
    ensures
        text::begins(error_head(status), error_head(status)),
        text::begins(error_head(status) + error_body(status), error_head(status)),
{
    let h = error_head(status);
    assert(h.take(h.len() as int) =~= h);
    assert((h + error_body(status)).take(h.len() as int) =~= h);
}

/// A file is served. A directory is served by its index, else listed if that is
/// allowed, once it is asked for with a slash at the end; without one the client
/// is sent there.
pub proof fn what_is_found_is_served(
    p: EntryPlan,
    found: Found,
    request_path: Seq<char>,
    index_is_file: bool,
    directory_listing: bool,
    head_only: bool,
)
    requires
        entry_plan_is(p, found, request_path, index_is_file, directory_listing, head_only),
    ensures
        p is ServeFile <==> found == Found::File,
        p is ServeIndex <==> found == Found::Directory && request_path.len() > 0 && request_path.last() == '/'
            && index_is_file,
        p is List <==> found == Found::Directory && request_path.len() > 0 && request_path.last() == '/'
            && !index_is_file && directory_listing,
        found == Found::Missing ==> (p matches EntryPlan::Respond(s) && text::begins(s@, error_head(404))),
        found == Found::Denied || found == Found::Unresolved ==> (p matches EntryPlan::Respond(s) && text::begins(
            s@,
            error_head(403),
        )),
        found == Found::Directory && (request_path.len() == 0 || request_path.last() != '/') ==> (
        p matches EntryPlan::Respond(s) && s@ == redirect_text(request_path + "/"@)),
{
    lemma_begins_with_head(404);
    lemma_begins_with_head(403);
}

/// The extension of a name is what stands behind its last dot.
pub proof fn an_extension_stands_behind_the_last_dot(name: Seq<char>, extension: Seq<char>)
    requires
        name.len() > 0,
        extension.len() > 0,
        !extension.contains('.'),
    ensures
        extension_of(name.push('.') + extension) == extension,
        behind_last_dot(name.push('.') + extension) == extension,
{
    reveal_strlit("..");
    let full = name.push('.') + extension;
    text::lemma_last_at(full, '.');
    let k = text::last_at(full, '.');
    assert(full[name.len() as int] == '.');
    if k > name.len() {
        assert(full[k] == extension[k - name.len() - 1]);
        assert(extension.contains(extension[k - name.len() - 1]));
    }
    assert(full.skip(k + 1) =~= extension);
    assert(full.len() > 2);
}

/// Whether a head holds a line with a name and a value.
pub open spec fn holds_line(head: Seq<char>, name: Seq<char>, value: Seq<char>) -> bool {
    exists|a: Seq<char>, b: Seq<char>| head == #[trigger] (a + name + value + "\r\n"@ + b)
}

proof fn lemma_holds_line(head: Seq<char>, a: Seq<char>, name: Seq<char>, value: Seq<char>, b: Seq<char>)
    requires
        head == a + name + value + "\r\n"@ + b,
    ensures
        holds_line(head, name, value),
{
}

/// A head announces the length of what follows it: of the whole file, or of the
/// part with both its ends; and it tells which part that is.
pub proof fn a_head_announces_its_body(tag: Seq<char>, f: FileFacts, start: u64, end: u64)
    requires
        start <= end,
    ensures
        holds_line(answer_head(FileAnswer::Whole, tag, f), "\r\nContent-Length: "@, text::decimal(f.length as nat)),
        holds_line(
            answer_head(FileAnswer::Part { start, end }, tag, f),
            "\r\nContent-Length: "@,
            text::decimal((end - start + 1) as nat),
        ),
        holds_line(
            answer_head(FileAnswer::Part { start, end }, tag, f),
            "\r\nContent-Range: bytes "@,
            text::decimal(start as nat) + "-"@ + text::decimal(end as nat) + "/"@ + text::decimal(f.length as nat),
        ),
{
    let v = validators_text(tag, f.modified) + "Connection: close\r\n\r\n"@;
    let whole = answer_head(FileAnswer::Whole, tag, f);
    let n = text::decimal(f.length as nat);
    assert(whole =~= ("HTTP/1.1 200 OK\r\nContent-Type: "@ + f.content_type@) + "\r\nContent-Length: "@ + n + "\r\n"@
        + v);
    lemma_holds_line(whole, "HTTP/1.1 200 OK\r\nContent-Type: "@ + f.content_type@, "\r\nContent-Length: "@, n, v);
    let part = answer_head(FileAnswer::Part { start, end }, tag, f);
    let m = text::decimal((end - start + 1) as nat);
    let begin = "HTTP/1.1 206 Partial Content\r\nContent-Type: "@ + f.content_type@;
    let range = text::decimal(start as nat) + "-"@ + text::decimal(end as nat) + "/"@ + n;
    reveal_strlit("\r\nContent-Range: bytes ");
    reveal_strlit("\r\n");
    reveal_strlit("Content-Range: bytes ");
    let rest = "Content-Range: bytes "@ + range + "\r\n"@ + v;
    assert("\r\nContent-Range: bytes "@ =~= "\r\n"@ + "Content-Range: bytes "@);
    assert(part =~= begin + "\r\nContent-Length: "@ + m + "\r\n"@ + rest);
    lemma_holds_line(part, begin, "\r\nContent-Length: "@, m, rest);
    let front = begin + "\r\nContent-Length: "@ + m;
    assert(part =~= front + "\r\nContent-Range: bytes "@ + range + "\r\n"@ + v);
    lemma_holds_line(part, front, "\r\nContent-Range: bytes "@, range, v);
}

/// A file is streamed to its end, no more than 4096 bytes at a time.
pub proof fn a_file_is_streamed_to_its_end(remaining: u64, r: Option<usize>)
    requires
        call_ensures(next_chunk, (remaining,), r),
    ensures
        r is None <==> remaining == 0,
        r matches Some(n) ==> 0 < n && n <= remaining && n <= 4096 && (n == remaining || n == 4096),
{
}

/// A path is found exactly if it leads to the document root or somewhere below
/// it, at any depth; one that leads elsewhere is an error, and one that leads
/// nowhere is not found.
pub proof fn everything_below_the_root_is_found(root: Vec<Vec<u8>>, parts: Vec<Vec<u8>>, r: Result<bool, ()>)
    requires
        call_ensures(canonical_beneath, (&root, &Physical::At(parts)), r),
    ensures
        r == Ok::<bool, ()>(true) <==> root@.len() <= parts@.len() && forall|i: int|
            0 <= i < root@.len() ==> (#[trigger] root@[i])@ == parts@[i]@,
        r is Err || r == Ok::<bool, ()>(true),
{
    let a = bytes::views(root@);
    let b = bytes::views(parts@);
    if root@.len() <= parts@.len() && forall|i: int| 0 <= i < root@.len() ==> (#[trigger] root@[i])@ == parts@[i]@ {
        assert(b.take(a.len() as int) =~= a);
    }
    if is_beneath(a, b) {
        assert forall|i: int| 0 <= i < root@.len() implies (#[trigger] root@[i])@ == parts@[i]@ by {
            assert(b.take(a.len() as int)[i] == a[i]);
        }
    }
}

/// A file that is shown as a picture, a film or a sound is served as one.
pub proof fn a_kind_shows_in_the_media_type(e: Seq<char>)
    ensures
        icon_of_extension(e) == "image"@ ==> text::begins(media_type(e), "image/"@),
        icon_of_extension(e) == "video"@ ==> text::begins(media_type(e), "video/"@),
        icon_of_extension(e) == "audio"@ ==> text::begins(media_type(e), "audio/"@),
{
    reveal_strlit("html");
    reveal_strlit("htm");
    reveal_strlit("css");
    reveal_strlit("js");
    reveal_strlit("mjs");
    reveal_strlit("json");
    reveal_strlit("jsonl");
    reveal_strlit("ndjson");
    reveal_strlit("xml");
    reveal_strlit("rss");
    reveal_strlit("atom");
    reveal_strlit("xhtml");
    reveal_strlit("yaml");
    reveal_strlit("yml");
    reveal_strlit("toml");
    reveal_strlit("wasm");
    reveal_strlit("svg");
    reveal_strlit("png");
    reveal_strlit("jpg");
    reveal_strlit("jpeg");
    reveal_strlit("gif");
    reveal_strlit("webp");
    reveal_strlit("avif");
    reveal_strlit("ico");
    reveal_strlit("bmp");
    reveal_strlit("tif");
    reveal_strlit("tiff");
    reveal_strlit("woff");
    reveal_strlit("woff2");
    reveal_strlit("ttf");
    reveal_strlit("otf");
    reveal_strlit("mp4");
    reveal_strlit("m4v");
    reveal_strlit("webm");
    reveal_strlit("mkv");
    reveal_strlit("avi");
    reveal_strlit("mov");
    reveal_strlit("mp3");
    reveal_strlit("m4a");
    reveal_strlit("aac");
    reveal_strlit("ogg");
    reveal_strlit("oga");
    reveal_strlit("opus");
    reveal_strlit("flac");
    reveal_strlit("wav");
    reveal_strlit("txt");
    reveal_strlit("md");
    reveal_strlit("text");
    reveal_strlit("log");
    reveal_strlit("csv");
    reveal_strlit("pdf");
    reveal_strlit("zip");
    reveal_strlit("gz");
    reveal_strlit("zst");
    reveal_strlit("tar");
    reveal_strlit("7z");
    reveal_strlit("rar");
    reveal_strlit("bz2");
    reveal_strlit("xz");
    reveal_strlit("apk");
    reveal_strlit("iso");
    reveal_strlit("deb");
    reveal_strlit("rpm");
    reveal_strlit("sh");
    reveal_strlit("py");
    reveal_strlit("rs");
    reveal_strlit("c");
    reveal_strlit("h");
    reveal_strlit("cpp");
    reveal_strlit("hpp");
    reveal_strlit("go");
    reveal_strlit("java");
    reveal_strlit("ts");
    reveal_strlit("eot");
    reveal_strlit("manifest");
    reveal_strlit("webmanifest");
    reveal_strlit("doc");
    reveal_strlit("docx");
    reveal_strlit("xls");
    reveal_strlit("xlsx");
    reveal_strlit("ppt");
    reveal_strlit("pptx");
    reveal_strlit("image");
    reveal_strlit("video");
    reveal_strlit("audio");
    reveal_strlit("archive");
    reveal_strlit("code");
    reveal_strlit("doc");
    reveal_strlit("font");
    reveal_strlit("file");
    reveal_strlit("image/");
    reveal_strlit("video/");
    reveal_strlit("audio/");
    reveal_strlit("image/svg+xml");
    reveal_strlit("image/png");
    reveal_strlit("image/jpeg");
    reveal_strlit("image/gif");
    reveal_strlit("image/webp");
    reveal_strlit("image/avif");
    reveal_strlit("image/x-icon");
    reveal_strlit("image/bmp");
    reveal_strlit("image/tiff");
    reveal_strlit("video/mp4");
    reveal_strlit("video/webm");
    reveal_strlit("video/x-matroska");
    reveal_strlit("video/x-msvideo");
    reveal_strlit("video/quicktime");
    reveal_strlit("audio/mpeg");
    reveal_strlit("audio/mp4");
    reveal_strlit("audio/aac");
    reveal_strlit("audio/ogg");
    reveal_strlit("audio/opus");
    reveal_strlit("audio/flac");
    reveal_strlit("audio/wav");
    assert("html"@.len() == 4 && "html"@[0] == 'h' && "html"@[1] == 't' && "html"@[2] == 'm' && "html"@[3] == 'l');
    assert("htm"@.len() == 3 && "htm"@[0] == 'h' && "htm"@[1] == 't' && "htm"@[2] == 'm');
    assert("css"@.len() == 3 && "css"@[0] == 'c' && "css"@[1] == 's' && "css"@[2] == 's');
    assert("js"@.len() == 2 && "js"@[0] == 'j' && "js"@[1] == 's');
    assert("mjs"@.len() == 3 && "mjs"@[0] == 'm' && "mjs"@[1] == 'j' && "mjs"@[2] == 's');
    assert("json"@.len() == 4 && "json"@[0] == 'j' && "json"@[1] == 's' && "json"@[2] == 'o' && "json"@[3] == 'n');
    assert("jsonl"@.len() == 5 && "jsonl"@[0] == 'j' && "jsonl"@[1] == 's' && "jsonl"@[2] == 'o' && "jsonl"@[3] == 'n' && "jsonl"@[4] == 'l');
    assert("ndjson"@.len() == 6 && "ndjson"@[0] == 'n' && "ndjson"@[1] == 'd' && "ndjson"@[2] == 'j' && "ndjson"@[3] == 's' && "ndjson"@[4] == 'o' && "ndjson"@[5] == 'n');
    assert("xml"@.len() == 3 && "xml"@[0] == 'x' && "xml"@[1] == 'm' && "xml"@[2] == 'l');
    assert("rss"@.len() == 3 && "rss"@[0] == 'r' && "rss"@[1] == 's' && "rss"@[2] == 's');
    assert("atom"@.len() == 4 && "atom"@[0] == 'a' && "atom"@[1] == 't' && "atom"@[2] == 'o' && "atom"@[3] == 'm');
    assert("xhtml"@.len() == 5 && "xhtml"@[0] == 'x' && "xhtml"@[1] == 'h' && "xhtml"@[2] == 't' && "xhtml"@[3] == 'm' && "xhtml"@[4] == 'l');
    assert("yaml"@.len() == 4 && "yaml"@[0] == 'y' && "yaml"@[1] == 'a' && "yaml"@[2] == 'm' && "yaml"@[3] == 'l');
    assert("yml"@.len() == 3 && "yml"@[0] == 'y' && "yml"@[1] == 'm' && "yml"@[2] == 'l');
    assert("toml"@.len() == 4 && "toml"@[0] == 't' && "toml"@[1] == 'o' && "toml"@[2] == 'm' && "toml"@[3] == 'l');
    assert("wasm"@.len() == 4 && "wasm"@[0] == 'w' && "wasm"@[1] == 'a' && "wasm"@[2] == 's' && "wasm"@[3] == 'm');
    assert("svg"@.len() == 3 && "svg"@[0] == 's' && "svg"@[1] == 'v' && "svg"@[2] == 'g');
    assert("png"@.len() == 3 && "png"@[0] == 'p' && "png"@[1] == 'n' && "png"@[2] == 'g');
    assert("jpg"@.len() == 3 && "jpg"@[0] == 'j' && "jpg"@[1] == 'p' && "jpg"@[2] == 'g');
    assert("jpeg"@.len() == 4 && "jpeg"@[0] == 'j' && "jpeg"@[1] == 'p' && "jpeg"@[2] == 'e' && "jpeg"@[3] == 'g');
    assert("gif"@.len() == 3 && "gif"@[0] == 'g' && "gif"@[1] == 'i' && "gif"@[2] == 'f');
    assert("webp"@.len() == 4 && "webp"@[0] == 'w' && "webp"@[1] == 'e' && "webp"@[2] == 'b' && "webp"@[3] == 'p');
    assert("avif"@.len() == 4 && "avif"@[0] == 'a' && "avif"@[1] == 'v' && "avif"@[2] == 'i' && "avif"@[3] == 'f');
    assert("ico"@.len() == 3 && "ico"@[0] == 'i' && "ico"@[1] == 'c' && "ico"@[2] == 'o');
    assert("bmp"@.len() == 3 && "bmp"@[0] == 'b' && "bmp"@[1] == 'm' && "bmp"@[2] == 'p');
    assert("tif"@.len() == 3 && "tif"@[0] == 't' && "tif"@[1] == 'i' && "tif"@[2] == 'f');
    assert("tiff"@.len() == 4 && "tiff"@[0] == 't' && "tiff"@[1] == 'i' && "tiff"@[2] == 'f' && "tiff"@[3] == 'f');
    assert("woff"@.len() == 4 && "woff"@[0] == 'w' && "woff"@[1] == 'o' && "woff"@[2] == 'f' && "woff"@[3] == 'f');
    assert("woff2"@.len() == 5 && "woff2"@[0] == 'w' && "woff2"@[1] == 'o' && "woff2"@[2] == 'f' && "woff2"@[3] == 'f' && "woff2"@[4] == '2');
    assert("ttf"@.len() == 3 && "ttf"@[0] == 't' && "ttf"@[1] == 't' && "ttf"@[2] == 'f');
    assert("otf"@.len() == 3 && "otf"@[0] == 'o' && "otf"@[1] == 't' && "otf"@[2] == 'f');
    assert("mp4"@.len() == 3 && "mp4"@[0] == 'm' && "mp4"@[1] == 'p' && "mp4"@[2] == '4');
    assert("m4v"@.len() == 3 && "m4v"@[0] == 'm' && "m4v"@[1] == '4' && "m4v"@[2] == 'v');
    assert("webm"@.len() == 4 && "webm"@[0] == 'w' && "webm"@[1] == 'e' && "webm"@[2] == 'b' && "webm"@[3] == 'm');
    assert("mkv"@.len() == 3 && "mkv"@[0] == 'm' && "mkv"@[1] == 'k' && "mkv"@[2] == 'v');
    assert("avi"@.len() == 3 && "avi"@[0] == 'a' && "avi"@[1] == 'v' && "avi"@[2] == 'i');
    assert("mov"@.len() == 3 && "mov"@[0] == 'm' && "mov"@[1] == 'o' && "mov"@[2] == 'v');
    assert("mp3"@.len() == 3 && "mp3"@[0] == 'm' && "mp3"@[1] == 'p' && "mp3"@[2] == '3');
    assert("m4a"@.len() == 3 && "m4a"@[0] == 'm' && "m4a"@[1] == '4' && "m4a"@[2] == 'a');
    assert("aac"@.len() == 3 && "aac"@[0] == 'a' && "aac"@[1] == 'a' && "aac"@[2] == 'c');
    assert("ogg"@.len() == 3 && "ogg"@[0] == 'o' && "ogg"@[1] == 'g' && "ogg"@[2] == 'g');
    assert("oga"@.len() == 3 && "oga"@[0] == 'o' && "oga"@[1] == 'g' && "oga"@[2] == 'a');
    assert("opus"@.len() == 4 && "opus"@[0] == 'o' && "opus"@[1] == 'p' && "opus"@[2] == 'u' && "opus"@[3] == 's');
    assert("flac"@.len() == 4 && "flac"@[0] == 'f' && "flac"@[1] == 'l' && "flac"@[2] == 'a' && "flac"@[3] == 'c');
    assert("wav"@.len() == 3 && "wav"@[0] == 'w' && "wav"@[1] == 'a' && "wav"@[2] == 'v');
    assert("txt"@.len() == 3 && "txt"@[0] == 't' && "txt"@[1] == 'x' && "txt"@[2] == 't');
    assert("md"@.len() == 2 && "md"@[0] == 'm' && "md"@[1] == 'd');
    assert("text"@.len() == 4 && "text"@[0] == 't' && "text"@[1] == 'e' && "text"@[2] == 'x' && "text"@[3] == 't');
    assert("log"@.len() == 3 && "log"@[0] == 'l' && "log"@[1] == 'o' && "log"@[2] == 'g');
    assert("csv"@.len() == 3 && "csv"@[0] == 'c' && "csv"@[1] == 's' && "csv"@[2] == 'v');
    assert("pdf"@.len() == 3 && "pdf"@[0] == 'p' && "pdf"@[1] == 'd' && "pdf"@[2] == 'f');
    assert("zip"@.len() == 3 && "zip"@[0] == 'z' && "zip"@[1] == 'i' && "zip"@[2] == 'p');
    assert("gz"@.len() == 2 && "gz"@[0] == 'g' && "gz"@[1] == 'z');
    assert("zst"@.len() == 3 && "zst"@[0] == 'z' && "zst"@[1] == 's' && "zst"@[2] == 't');
    assert("tar"@.len() == 3 && "tar"@[0] == 't' && "tar"@[1] == 'a' && "tar"@[2] == 'r');
    assert("7z"@.len() == 2 && "7z"@[0] == '7' && "7z"@[1] == 'z');
    assert("rar"@.len() == 3 && "rar"@[0] == 'r' && "rar"@[1] == 'a' && "rar"@[2] == 'r');
    assert("bz2"@.len() == 3 && "bz2"@[0] == 'b' && "bz2"@[1] == 'z' && "bz2"@[2] == '2');
    assert("xz"@.len() == 2 && "xz"@[0] == 'x' && "xz"@[1] == 'z');
    assert("apk"@.len() == 3 && "apk"@[0] == 'a' && "apk"@[1] == 'p' && "apk"@[2] == 'k');
    assert("iso"@.len() == 3 && "iso"@[0] == 'i' && "iso"@[1] == 's' && "iso"@[2] == 'o');
    assert("deb"@.len() == 3 && "deb"@[0] == 'd' && "deb"@[1] == 'e' && "deb"@[2] == 'b');
    assert("rpm"@.len() == 3 && "rpm"@[0] == 'r' && "rpm"@[1] == 'p' && "rpm"@[2] == 'm');
    assert("sh"@.len() == 2 && "sh"@[0] == 's' && "sh"@[1] == 'h');
    assert("py"@.len() == 2 && "py"@[0] == 'p' && "py"@[1] == 'y');
    assert("rs"@.len() == 2 && "rs"@[0] == 'r' && "rs"@[1] == 's');
    assert("c"@.len() == 1 && "c"@[0] == 'c');
    assert("h"@.len() == 1 && "h"@[0] == 'h');
    assert("cpp"@.len() == 3 && "cpp"@[0] == 'c' && "cpp"@[1] == 'p' && "cpp"@[2] == 'p');
    assert("hpp"@.len() == 3 && "hpp"@[0] == 'h' && "hpp"@[1] == 'p' && "hpp"@[2] == 'p');
    assert("go"@.len() == 2 && "go"@[0] == 'g' && "go"@[1] == 'o');
    assert("java"@.len() == 4 && "java"@[0] == 'j' && "java"@[1] == 'a' && "java"@[2] == 'v' && "java"@[3] == 'a');
    assert("ts"@.len() == 2 && "ts"@[0] == 't' && "ts"@[1] == 's');
    assert("eot"@.len() == 3 && "eot"@[0] == 'e' && "eot"@[1] == 'o' && "eot"@[2] == 't');
    assert("manifest"@.len() == 8 && "manifest"@[0] == 'm' && "manifest"@[1] == 'a' && "manifest"@[2] == 'n' && "manifest"@[3] == 'i' && "manifest"@[4] == 'f' && "manifest"@[5] == 'e' && "manifest"@[6] == 's' && "manifest"@[7] == 't');
    assert("webmanifest"@.len() == 11 && "webmanifest"@[0] == 'w' && "webmanifest"@[1] == 'e' && "webmanifest"@[2] == 'b' && "webmanifest"@[3] == 'm' && "webmanifest"@[4] == 'a' && "webmanifest"@[5] == 'n' && "webmanifest"@[6] == 'i' && "webmanifest"@[7] == 'f' && "webmanifest"@[8] == 'e' && "webmanifest"@[9] == 's' && "webmanifest"@[10] == 't');
    assert("doc"@.len() == 3 && "doc"@[0] == 'd' && "doc"@[1] == 'o' && "doc"@[2] == 'c');
    assert("docx"@.len() == 4 && "docx"@[0] == 'd' && "docx"@[1] == 'o' && "docx"@[2] == 'c' && "docx"@[3] == 'x');
    assert("xls"@.len() == 3 && "xls"@[0] == 'x' && "xls"@[1] == 'l' && "xls"@[2] == 's');
    assert("xlsx"@.len() == 4 && "xlsx"@[0] == 'x' && "xlsx"@[1] == 'l' && "xlsx"@[2] == 's' && "xlsx"@[3] == 'x');
    assert("ppt"@.len() == 3 && "ppt"@[0] == 'p' && "ppt"@[1] == 'p' && "ppt"@[2] == 't');
    assert("pptx"@.len() == 4 && "pptx"@[0] == 'p' && "pptx"@[1] == 'p' && "pptx"@[2] == 't' && "pptx"@[3] == 'x');
    assert("image"@.len() == 5 && "image"@[0] == 'i' && "image"@[1] == 'm' && "image"@[2] == 'a' && "image"@[3] == 'g' && "image"@[4] == 'e');
    assert("video"@.len() == 5 && "video"@[0] == 'v' && "video"@[1] == 'i' && "video"@[2] == 'd' && "video"@[3] == 'e' && "video"@[4] == 'o');
    assert("audio"@.len() == 5 && "audio"@[0] == 'a' && "audio"@[1] == 'u' && "audio"@[2] == 'd' && "audio"@[3] == 'i' && "audio"@[4] == 'o');
    assert("archive"@.len() == 7 && "archive"@[0] == 'a' && "archive"@[1] == 'r' && "archive"@[2] == 'c' && "archive"@[3] == 'h' && "archive"@[4] == 'i' && "archive"@[5] == 'v' && "archive"@[6] == 'e');
    assert("code"@.len() == 4 && "code"@[0] == 'c' && "code"@[1] == 'o' && "code"@[2] == 'd' && "code"@[3] == 'e');
    assert("doc"@.len() == 3 && "doc"@[0] == 'd' && "doc"@[1] == 'o' && "doc"@[2] == 'c');
    assert("font"@.len() == 4 && "font"@[0] == 'f' && "font"@[1] == 'o' && "font"@[2] == 'n' && "font"@[3] == 't');
    assert("file"@.len() == 4 && "file"@[0] == 'f' && "file"@[1] == 'i' && "file"@[2] == 'l' && "file"@[3] == 'e');
    assert("image/svg+xml"@.take(6) =~= "image/"@);
    assert("image/png"@.take(6) =~= "image/"@);
    assert("image/jpeg"@.take(6) =~= "image/"@);
    assert("image/gif"@.take(6) =~= "image/"@);
    assert("image/webp"@.take(6) =~= "image/"@);
    assert("image/avif"@.take(6) =~= "image/"@);
    assert("image/x-icon"@.take(6) =~= "image/"@);
    assert("image/bmp"@.take(6) =~= "image/"@);
    assert("image/tiff"@.take(6) =~= "image/"@);
    assert("video/mp4"@.take(6) =~= "video/"@);
    assert("video/webm"@.take(6) =~= "video/"@);
    assert("video/x-matroska"@.take(6) =~= "video/"@);
    assert("video/x-msvideo"@.take(6) =~= "video/"@);
    assert("video/quicktime"@.take(6) =~= "video/"@);
    assert("audio/mpeg"@.take(6) =~= "audio/"@);
    assert("audio/mp4"@.take(6) =~= "audio/"@);
    assert("audio/aac"@.take(6) =~= "audio/"@);
    assert("audio/ogg"@.take(6) =~= "audio/"@);
    assert("audio/opus"@.take(6) =~= "audio/"@);
    assert("audio/flac"@.take(6) =~= "audio/"@);
    assert("audio/wav"@.take(6) =~= "audio/"@);
}

} // verus!
