//! Call detail records: one CSV row per connection, in a log that rotates by
//! size and compresses its older files.
use vstd::prelude::*;
use vstd::slice::slice_subrange;
use std::collections::VecDeque;
use crate::config::{AccountingConfig, Compression, ListenerMode};
use crate::order;
use crate::order::Ranked;
use crate::text;
use crate::utc;

verus! {

pub const CSV_HEADER: &'static str = "listener_type,connection_id,listener_name,sni,target_host,target_endpoint,remote_address,status,uploaded_bytes,downloaded_bytes,connection_start,connection_end";

#[derive(Debug, Clone, Copy, PartialEq, Eq, Structural)]
pub enum ListenerType {
    TlsPassthrough,
    TlsTerminate,
    PortForward,
}

impl ListenerType {
    pub open spec fn of_mode(mode: ListenerMode) -> ListenerType {
        match mode {
            ListenerMode::Passthrough => ListenerType::TlsPassthrough,
            ListenerMode::Terminate => ListenerType::TlsTerminate,
            ListenerMode::Forward => ListenerType::PortForward,
        }
    }

    pub fn from_mode(mode: ListenerMode) -> (r: ListenerType)
        ensures
            r == ListenerType::of_mode(mode),
    {
        match mode {
            ListenerMode::Passthrough => ListenerType::TlsPassthrough,
            ListenerMode::Terminate => ListenerType::TlsTerminate,
            ListenerMode::Forward => ListenerType::PortForward,
        }
    }

    pub open spec fn text(self) -> Seq<char> {
        match self {
            ListenerType::TlsPassthrough => "TLS_PASSTHROUGH"@,
            ListenerType::TlsTerminate => "TLS_TERMINATE"@,
            ListenerType::PortForward => "PORT_FORWARD"@,
        }
    }

    pub fn as_str(&self) -> (r: &'static str)
        ensures
            r@ == self.text(),
    {
        match self {
            ListenerType::TlsPassthrough => "TLS_PASSTHROUGH",
            ListenerType::TlsTerminate => "TLS_TERMINATE",
            ListenerType::PortForward => "PORT_FORWARD",
        }
    }
}

/// Connection outcome for the CDR. Defaults to `ConnectFailed`; workers
/// upgrade it to `Success` once the upstream socket is connected, or mark
/// `Denied` on ACL rejection.
#[derive(Debug, Clone, Copy, PartialEq, Eq, Structural)]
pub enum ConnStatus {
    Success,
    Denied,
    ConnectFailed,
}

impl Default for ConnStatus {
    fn default() -> (r: ConnStatus)
        ensures
            r == ConnStatus::ConnectFailed,
    {
        ConnStatus::ConnectFailed
    }
}

impl ConnStatus {
    pub open spec fn text(self) -> Seq<char> {
        match self {
            ConnStatus::Success => "OK"@,
            ConnStatus::Denied => "DENIED"@,
            ConnStatus::ConnectFailed => "CONNECT_FAILED"@,
        }
    }

    pub fn as_str(&self) -> (r: &'static str)
        ensures
            r@ == self.text(),
    {
        match self {
            ConnStatus::Success => "OK",
            ConnStatus::Denied => "DENIED",
            ConnStatus::ConnectFailed => "CONNECT_FAILED",
        }
    }
}

#[derive(Debug, Clone)]
pub struct CdrRecord {
    pub listener_type: ListenerType,
    pub connection_id: String,
    pub listener_name: String,
    pub sni: String,
    pub target_host: String,
    pub target_endpoint: String,
    pub remote_address: String,
    pub status: ConnStatus,
    pub uploaded_bytes: u64,
    pub downloaded_bytes: u64,
    pub start_unix_ms: u128,
    pub end_unix_ms: u128,
}

/// A value without its control characters.
pub open spec fn cleaned(s: Seq<char>) -> Seq<char>
    decreases s.len(),
{
    if s.len() == 0 {
        seq![]
    } else if text::is_ctl(s.last()) {
        cleaned(s.drop_last())
    } else {
        cleaned(s.drop_last()).push(s.last())
    }
}

/// A value with every quote doubled.
pub open spec fn doubled(s: Seq<char>) -> Seq<char>
    decreases s.len(),
{
    if s.len() == 0 {
        seq![]
    } else if s.last() == '"' {
        doubled(s.drop_last()) + seq!['"', '"']
    } else {
        doubled(s.drop_last()).push(s.last())
    }
}

/// A value as a CSV field: control characters stripped, and quoted where it
/// holds a comma or a quote.
pub open spec fn field(s: Seq<char>) -> Seq<char> {
    let c = cleaned(s);
    if c.contains(',') || c.contains('"') {
        seq!['"'] + doubled(c) + seq!['"']
    } else {
        c
    }
}

fn without_controls(s: &[char]) -> (r: Vec<char>)
    ensures
        r@ == cleaned(s@),
{
    let mut out: Vec<char> = Vec::new();
    let mut i: usize = 0;
    while i < s.len()
        invariant
            i <= s@.len(),
            out@ == cleaned(s@.take(i as int)),
        decreases s@.len() - i,
    {
        assert(s@.take(i + 1).drop_last() =~= s@.take(i as int));
        if !text::is_control(s[i]) {
            out.push(s[i]);
        }
        i = i + 1;
    }
    assert(s@.take(i as int) =~= s@);
    out
}

/// Strips control characters (so a field can never break the row structure),
/// then applies RFC 4180 quoting when the value contains a comma or quote.
pub fn csv_field(value: &str) -> (r: String)
    ensures
        r@ == field(value@),
{
    let all = text::chars_of(value);
    let c = without_controls(all.as_slice());
    let mut out = String::new();
    if text::find(c.as_slice(), ',') < c.len() || text::find(c.as_slice(), '"') < c.len() {
        out.push('"');
        let ghost quote = seq!['"'];
        assert(out@ =~= quote);
        let mut i: usize = 0;
        assert(doubled(c@.take(0)) =~= seq![]);
        while i < c.len()
            invariant
                i <= c@.len(),
                quote == seq!['"'],
                out@ == quote + doubled(c@.take(i as int)),
            decreases c@.len() - i,
        {
            assert(c@.take(i + 1).drop_last() =~= c@.take(i as int));
            let ghost before = out@;
            if c[i] == '"' {
                out.push('"');
                out.push('"');
                assert(out@ =~= quote + (doubled(c@.take(i as int)) + seq!['"', '"']));
            } else {
                out.push(c[i]);
                assert(out@ =~= quote + doubled(c@.take(i as int)).push(c@[i as int]));
            }
            i = i + 1;
        }
        assert(c@.take(i as int) =~= c@);
        out.push('"');
        assert(out@ =~= field(value@));
    } else {
        text::push_chars(&mut out, c.as_slice());
        assert(out@ =~= field(value@));
    }
    out
}

/// A time in milliseconds since the Unix epoch as RFC 3339 text; empty beyond
/// the year 9999.
pub open spec fn timestamp(unix_ms: u128) -> Seq<char> {
    if unix_ms / 1000 <= utc::MAX_SECONDS {
        utc::rfc3339_text(
            utc::at(unix_ms as int / 1000),
            unix_ms as nat % 1000,
        )
    } else {
        seq![]
    }
}

pub fn format_rfc3339_ms(unix_ms: u128) -> (r: String)
    ensures
        r@ == timestamp(unix_ms),
{
    let seconds: u128 = unix_ms / 1000;
    if seconds > 253402300799 {
        return String::new();
    }
    let millis: u64 = (unix_ms % 1000) as u64;
    match utc::utc(seconds as i64) {
        Some(t) => {
            let out = utc::format_rfc3339(&t, millis);
            proof {
                utc::utc_time_is_unique(t, utc::at(seconds as int), seconds as int);
            }
            out
        },
        None => String::new(),
    }
}

impl CdrRecord {
    /// The columns of the record's row.
    pub open spec fn columns(self) -> Seq<Seq<char>> {
        seq![
            field(self.listener_type.text()),
            field(self.connection_id@),
            field(self.listener_name@),
            field(self.sni@),
            field(self.target_host@),
            field(self.target_endpoint@),
            field(self.remote_address@),
            field(self.status.text()),
            text::decimal(self.uploaded_bytes as nat),
            text::decimal(self.downloaded_bytes as nat),
            timestamp(self.start_unix_ms),
            timestamp(self.end_unix_ms),
        ]
    }

    pub fn to_csv_line(&self) -> (r: String)
        ensures
            r@ == text::joined(self.columns(), ","@),
    {
        let mut parts: Vec<String> = Vec::new();
        parts.push(csv_field(self.listener_type.as_str()));
        parts.push(csv_field(self.connection_id.as_str()));
        parts.push(csv_field(self.listener_name.as_str()));
        parts.push(csv_field(self.sni.as_str()));
        parts.push(csv_field(self.target_host.as_str()));
        parts.push(csv_field(self.target_endpoint.as_str()));
        parts.push(csv_field(self.remote_address.as_str()));
        parts.push(csv_field(self.status.as_str()));
        parts.push(text::decimal_string(self.uploaded_bytes));
        parts.push(text::decimal_string(self.downloaded_bytes));
        parts.push(format_rfc3339_ms(self.start_unix_ms));
        parts.push(format_rfc3339_ms(self.end_unix_ms));
        assert(text::views(parts@) =~= self.columns());
        text::join(&parts, ",")
    }
}

/// The field behind an opening quote, and what stands behind its closing one.
pub open spec fn read_quoted(s: Seq<char>) -> (Seq<char>, Seq<char>)
    decreases s.len(),
{
    if s.len() == 0 {
        (seq![], seq![])
    } else if s[0] == '"' {
        if s.len() > 1 && s[1] == '"' {
            let (f, r) = read_quoted(s.skip(2));
            (seq!['"'] + f, r)
        } else {
            (seq![], s.skip(1))
        }
    } else {
        let (f, r) = read_quoted(s.skip(1));
        (seq![s[0]] + f, r)
    }
}

/// The first field of a CSV row as RFC 4180 reads it, and the rest of the row.
pub open spec fn read_field(s: Seq<char>) -> (Seq<char>, Seq<char>) {
    if s.len() > 0 && s[0] == '"' {
        read_quoted(s.skip(1))
    } else {
        (text::before(s, ','), s.skip(text::first_at(s, ',')))
    }
}

proof fn lemma_cleaned_has_no_control(s: Seq<char>)
    ensures
        forall|i: int| 0 <= i < cleaned(s).len() ==> !text::is_ctl(#[trigger] cleaned(s)[i]),
    decreases s.len(),
{
    if s.len() > 0 {
        let t = cleaned(s.drop_last());
        lemma_cleaned_has_no_control(s.drop_last());
        assert forall|i: int| 0 <= i < cleaned(s).len() implies !text::is_ctl(#[trigger] cleaned(s)[i]) by {
            if i < t.len() {
                assert(!text::is_ctl(t[i]));
            }
        }
    }
}

proof fn lemma_read_doubled(c: Seq<char>, tail: Seq<char>)
    requires
        tail.len() > 0,
        tail[0] == '"',
        tail.len() == 1 || tail[1] != '"',
    ensures
        read_quoted(doubled(c) + tail) == (c, tail.skip(1)),
{
    lemma_read_doubled_from(c, seq![], tail);
    assert(c + Seq::<char>::empty() =~= c);
    assert(doubled(c) + (doubled(Seq::<char>::empty()) + tail) =~= doubled(c) + tail);
    assert(doubled(Seq::<char>::empty()) =~= seq![]);
    assert(Seq::<char>::empty() + tail =~= tail);
}

/// Reading back the doubled form of `c`, then of `d`.
proof fn lemma_read_doubled_from(c: Seq<char>, d: Seq<char>, tail: Seq<char>)
    requires
        tail.len() > 0,
        tail[0] == '"',
        tail.len() == 1 || tail[1] != '"',
        read_quoted(doubled(d) + tail) == (d, tail.skip(1)) || d.len() == 0,
    ensures
        read_quoted(doubled(c) + (doubled(d) + tail)) == (c + d, tail.skip(1)),
    decreases c.len(),
{
    if d.len() == 0 {
        assert(doubled(d) =~= seq![]);
        assert(doubled(d) + tail =~= tail);
        assert(read_quoted(tail) == (Seq::<char>::empty(), tail.skip(1)));
        assert(d =~= seq![]);
    }
    if c.len() == 0 {
        assert(doubled(c) =~= seq![]);
        assert(doubled(c) + (doubled(d) + tail) =~= doubled(d) + tail);
        assert(c + d =~= d);
    } else {
        let x = c.last();
        let d1 = seq![x] + d;
        lemma_doubled_cons(x, d);
        let e = if x == '"' {
            seq!['"', '"']
        } else {
            seq![x]
        };
        let s = e + (doubled(d) + tail);
        assert(doubled(d1) + tail =~= s);
        if x == '"' {
            assert(s.skip(2) =~= doubled(d) + tail);
        } else {
            assert(s.skip(1) =~= doubled(d) + tail);
        }
        assert(read_quoted(s) == (d1, tail.skip(1)));
        lemma_read_doubled_from(c.drop_last(), d1, tail);
        assert(doubled(c) + (doubled(d) + tail) =~= doubled(c.drop_last()) + (doubled(d1) + tail));
        assert(c.drop_last() + d1 =~= c + d);
    }
}

proof fn lemma_doubled_cons(x: char, d: Seq<char>)
    ensures
        doubled(seq![x] + d) == (if x == '"' {
            seq!['"', '"']
        } else {
            seq![x]
        }) + doubled(d),
    decreases d.len(),
{
    let s = seq![x] + d;
    if d.len() == 0 {
        assert(s =~= seq![x]);
        assert(s.drop_last() =~= seq![]);
        assert(doubled(Seq::<char>::empty()) =~= seq![]);
        assert(doubled(d) =~= seq![]);
        assert(doubled(s) =~= (if x == '"' {
            seq!['"', '"']
        } else {
            seq![x]
        }) + doubled(d));
    } else {
        lemma_doubled_cons(x, d.drop_last());
        assert(s.drop_last() =~= seq![x] + d.drop_last());
        assert(doubled(s) =~= (if x == '"' {
            seq!['"', '"']
        } else {
            seq![x]
        }) + doubled(d));
    }
}

/// A field never breaks its row: a reader of the row gets the value without
/// its control characters back, and goes on at the separator.
pub proof fn a_field_reads_back(value: Seq<char>, rest: Seq<char>)
    requires
        rest.len() == 0 || rest[0] == ',',
    ensures
        read_field(field(value) + rest) == (cleaned(value), rest),
{
    let c = cleaned(value);
    let s = field(value) + rest;
    if c.contains(',') || c.contains('"') {
        let tail = seq!['"'] + rest;
        assert(s.skip(1) =~= doubled(c) + tail);
        lemma_read_doubled(c, tail);
        assert(tail.skip(1) =~= rest);
    } else {
        if c.len() > 0 {
            assert(c.contains(c[0]));
            assert(s[0] == c[0]);
        }
        assert forall|k: int| 0 <= k < c.len() implies s[k] != ',' by {
            assert(c.contains(c[k]));
        }
        text::lemma_first_at_is(s, ',', c.len() as int);
        assert(s.take(c.len() as int) =~= c);
        assert(s.skip(c.len() as int) =~= rest);
    }
}

proof fn lemma_doubled_has_no_control(c: Seq<char>)
    requires
        forall|i: int| 0 <= i < c.len() ==> !text::is_ctl(#[trigger] c[i]),
    ensures
        forall|i: int| 0 <= i < doubled(c).len() ==> !text::is_ctl(#[trigger] doubled(c)[i]),
    decreases c.len(),
{
    if c.len() > 0 {
        let d = c.drop_last();
        assert forall|i: int| 0 <= i < d.len() implies !text::is_ctl(#[trigger] d[i]) by {
            assert(d[i] == c[i]);
        }
        lemma_doubled_has_no_control(d);
        assert(!text::is_ctl(c[c.len() - 1]));
        assert forall|i: int| 0 <= i < doubled(c).len() implies !text::is_ctl(#[trigger] doubled(c)[i]) by {
            if i < doubled(d).len() {
                assert(!text::is_ctl(doubled(d)[i]));
            }
        }
    }
}

/// A field holds no line break and no other control character.
pub proof fn a_field_stays_on_its_line(value: Seq<char>)
    ensures
        forall|i: int| 0 <= i < field(value).len() ==> !text::is_ctl(#[trigger] field(value)[i]),
{
    lemma_cleaned_has_no_control(value);
    lemma_doubled_has_no_control(cleaned(value));
}

/// A rotated log file: `<log>.<index>` or `<log>.<index>.<suffix>`.
pub struct RotatedFile {
    pub index: usize,
    pub suffix: Option<String>,
    pub name: String,
}

/// The index and the suffix of a rotated file of the log `base`.
pub open spec fn rotated(base: Seq<char>, name: Seq<char>) -> Option<(nat, Option<Seq<char>>)> {
    let prefix = base + "."@;
    let rest = name.skip(prefix.len() as int);
    let has_suffix = rest.contains('.');
    let index = if has_suffix {
        text::unsigned(text::before(rest, '.'), usize::MAX as nat)
    } else {
        text::unsigned(rest, usize::MAX as nat)
    };
    if text::begins(name, prefix) && index is Some {
        Some((index->0, if has_suffix {
            Some(text::after(rest, '.'))
        } else {
            None
        }))
    } else {
        None
    }
}

pub open spec fn suffix_view(s: Option<String>) -> Option<Seq<char>> {
    match s {
        Some(x) => Some(x@),
        None => None,
    }
}

/// Whether `f` is what `name` says of a rotated file.
pub open spec fn file_is(f: RotatedFile, base: Seq<char>, name: Seq<char>) -> bool {
    f.name@ == name && rotated(base, name) == Some((f.index as nat, suffix_view(f.suffix)))
}

fn parse_index(s: &[char]) -> (r: Option<usize>)
    ensures
        match r {
            Some(v) => text::unsigned(s@, usize::MAX as nat) == Some(v as nat),
            None => text::unsigned(s@, usize::MAX as nat) is None,
        },
{
    match text::parse_u64(s) {
        Some(v) => if v <= usize::MAX as u64 {
            Some(v as usize)
        } else {
            None
        },
        None => None,
    }
}

/// Recognizes a rotated file of the log `base` by its name.
pub fn parse_rotated(base: &str, name: &str) -> (r: Option<RotatedFile>)
    ensures
        r is Some <==> rotated(base@, name@) is Some,
        r is Some ==> file_is(r->0, base@, name@),
{
    let mut prefix = text::owned(base);
    prefix.push_str(".");
    let p = text::chars_of(prefix.as_str());
    let n = text::chars_of(name);
    let rest = match text::strip_prefix(n.as_slice(), p.as_slice()) {
        Some(rest) => rest,
        None => return None,
    };
    let k = text::find(rest, '.');
    if k < rest.len() {
        let head = slice_subrange(rest, 0, k);
        let tail = slice_subrange(rest, k + 1, rest.len());
        assert(head@ =~= text::before(rest@, '.'));
        assert(tail@ =~= text::after(rest@, '.'));
        match parse_index(head) {
            Some(index) => Some(
                RotatedFile { index, suffix: Some(text::string_of(tail)), name: text::owned(name) },
            ),
            None => None,
        }
    } else {
        match parse_index(rest) {
            Some(index) => Some(RotatedFile { index, suffix: None, name: text::owned(name) }),
            None => None,
        }
    }
}

/// The name of the rotated file with an index and a suffix.
pub open spec fn indexed(base: Seq<char>, index: nat, suffix: Option<Seq<char>>) -> Seq<char> {
    let plain = base + "."@ + text::decimal(index);
    match suffix {
        Some(s) => plain + "."@ + s,
        None => plain,
    }
}

pub fn indexed_name(base: &str, index: usize, suffix: &Option<String>) -> (r: String)
    ensures
        r@ == indexed(base@, index as nat, suffix_view(*suffix)),
{
    let mut out = text::owned(base);
    out.push_str(".");
    text::push_decimal(&mut out, index as u64);
    match suffix {
        Some(s) => {
            out.push_str(".");
            out.push_str(s.as_str());
        },
        None => {},
    }
    out
}

/// The rotated files of the log `base` among the names of a directory.
pub open spec fn rotated_names(base: Seq<char>, names: Seq<Seq<char>>) -> Seq<Seq<char>>
    decreases names.len(),
{
    if names.len() == 0 {
        seq![]
    } else if rotated(base, names.last()) is Some {
        rotated_names(base, names.drop_last()).push(names.last())
    } else {
        rotated_names(base, names.drop_last())
    }
}

/// Whether `files` are the files of `names`, one for one.
pub open spec fn files_are(files: Seq<RotatedFile>, base: Seq<char>, names: Seq<Seq<char>>) -> bool {
    &&& files.len() == names.len()
    &&& forall|i: int| 0 <= i < files.len() ==> file_is(#[trigger] files[i], base, names[i])
}

/// `<log>.N` or `<log>.N.<suffix>` files next to the active log.
pub fn rotated_files(base: &str, names: &Vec<String>) -> (r: Vec<RotatedFile>)
    ensures
        files_are(r@, base@, rotated_names(base@, text::views(names@))),
{
    let mut out: Vec<RotatedFile> = Vec::new();
    let mut i: usize = 0;
    let ghost all = text::views(names@);
    while i < names.len()
        invariant
            i <= names@.len(),
            all == text::views(names@),
            files_are(out@, base@, rotated_names(base@, all.take(i as int))),
        decreases names@.len() - i,
    {
        assert(all.take(i + 1).drop_last() =~= all.take(i as int));
        if let Some(f) = parse_rotated(base, names[i].as_str()) {
            out.push(f);
        }
        i = i + 1;
    }
    assert(all.take(i as int) =~= all);
    out
}

/// Whether a file is to be kept when the log rotates.
pub open spec fn survives(f: RotatedFile, keep_upto: int) -> bool {
    f.index <= keep_upto
}

pub open spec fn survivors(files: Seq<RotatedFile>, keep_upto: int) -> Seq<RotatedFile>
    decreases files.len(),
{
    if files.len() == 0 {
        seq![]
    } else if survives(files.last(), keep_upto) {
        survivors(files.drop_last(), keep_upto).push(files.last())
    } else {
        survivors(files.drop_last(), keep_upto)
    }
}

pub open spec fn pruned(files: Seq<RotatedFile>, keep_upto: int) -> Seq<Seq<char>>
    decreases files.len(),
{
    if files.len() == 0 {
        seq![]
    } else if survives(files.last(), keep_upto) {
        pruned(files.drop_last(), keep_upto)
    } else {
        pruned(files.drop_last(), keep_upto).push(files.last().name@)
    }
}

/// The names of the files with index > `keep_upto`, and the other files.
pub fn prune(files: Vec<RotatedFile>, keep_upto: usize) -> (r: (Vec<String>, Vec<RotatedFile>))
    ensures
        text::views(r.0@) == pruned(files@, keep_upto as int),
        r.1@ == survivors(files@, keep_upto as int),
{
    let ghost all = files@;
    let mut rest = files;
    let mut gone: Vec<String> = Vec::new();
    let mut kept: Vec<RotatedFile> = Vec::new();
    let mut queue: VecDeque<RotatedFile> = VecDeque::new();
    while rest.len() > 0
        invariant
            rest@ + queue@ == all,
        decreases rest@.len(),
    {
        let ghost r0 = rest@;
        let ghost q0 = queue@;
        if let Some(f) = rest.pop() {
            queue.push_front(f);
            assert(rest@ + queue@ =~= r0 + q0);
        }
    }
    assert(queue@ =~= all);
    let ghost mut done: int = 0;
    assert(text::views(gone@) =~= seq![]);
    while queue.len() > 0
        invariant
            0 <= done <= all.len(),
            queue@ == all.skip(done),
            text::views(gone@) == pruned(all.take(done), keep_upto as int),
            kept@ == survivors(all.take(done), keep_upto as int),
        decreases queue@.len(),
    {
        proof {
            assert(all.take(done + 1).drop_last() =~= all.take(done));
            assert(all.skip(done)[0] == all[done]);
        }
        if let Some(f) = queue.pop_front() {
            assert(queue@ =~= all.skip(done + 1));
            if f.index <= keep_upto {
                kept.push(f);
            } else {
                let ghost g0 = text::views(gone@);
                gone.push(f.name);
                assert(text::views(gone@) =~= g0.push(f.name@));
            }
            proof {
                done = done + 1;
            }
        }
    }
    assert(all.take(done) =~= all);
    (gone, kept)
}

/// The newest index first.
pub struct ByIndexDown {
    pub file: RotatedFile,
}

impl Ranked for ByIndexDown {
    open spec fn ranks_before(self, other: Self) -> bool {
        self.file.index >= other.file.index
    }

    proof fn total(a: Self, b: Self) {
    }

    proof fn transitive(a: Self, b: Self, c: Self) {
    }

    fn not_after(&self, other: &Self) -> (r: bool) {
        self.file.index >= other.file.index
    }
}

/// The oldest index first.
pub struct ByIndexUp {
    pub file: RotatedFile,
}

impl Ranked for ByIndexUp {
    open spec fn ranks_before(self, other: Self) -> bool {
        self.file.index <= other.file.index
    }

    proof fn total(a: Self, b: Self) {
    }

    proof fn transitive(a: Self, b: Self, c: Self) {
    }

    fn not_after(&self, other: &Self) -> (r: bool) {
        self.file.index <= other.file.index
    }
}

pub open spec fn down(files: Seq<RotatedFile>) -> Seq<ByIndexDown> {
    files.map_values(|f: RotatedFile| ByIndexDown { file: f })
}

pub open spec fn up(files: Seq<RotatedFile>) -> Seq<ByIndexUp> {
    files.map_values(|f: RotatedFile| ByIndexUp { file: f })
}

/// One step of a rotation: a file moves to another name.
pub struct Rename {
    pub from: String,
    pub to: String,
}

/// What a rotation does to the directory of a log: removals first, then the
/// renames in order.
pub struct RotationPlan {
    pub removals: Vec<String>,
    pub renames: Vec<Rename>,
}

/// The shifts of the surviving files, the highest index first.
pub open spec fn shifts(base: Seq<char>, sorted: Seq<ByIndexDown>) -> Seq<(Seq<char>, Seq<char>)> {
    sorted.map_values(
        |f: ByIndexDown|
            (f.file.name@, indexed(base, f.file.index as nat + 1, suffix_view(f.file.suffix))),
    )
}

pub open spec fn moves(renames: Seq<Rename>) -> Seq<(Seq<char>, Seq<char>)> {
    renames.map_values(|m: Rename| (m.from@, m.to@))
}

/// The index up to which files survive a rotation: after the shift every
/// survivor's index grows by one.
pub open spec fn keep_limit(max_keep: usize) -> int {
    if max_keep > 0 {
        max_keep - 1
    } else {
        0
    }
}

pub open spec fn plan_is(plan: RotationPlan, base: Seq<char>, files: Seq<RotatedFile>, max_keep: usize) -> bool {
    let kept = survivors(files, keep_limit(max_keep));
    &&& text::views(plan.removals@) == pruned(files, keep_limit(max_keep))
    &&& moves(plan.renames@) == shifts(base, order::sorted(down(kept))).push((base, indexed(base, 1, None)))
}

proof fn lemma_survivors_are_small(files: Seq<RotatedFile>, keep_upto: int)
    ensures
        forall|i: int|
            0 <= i < survivors(files, keep_upto).len() ==> (#[trigger] survivors(files, keep_upto)[i]).index
                <= keep_upto,
    decreases files.len(),
{
    if files.len() > 0 {
        lemma_survivors_are_small(files.drop_last(), keep_upto);
    }
}

/// Plans a logrotate-style rotation: what is past `max_keep` goes, every other
/// `.N` shifts to `.N+1` and keeps any compression suffix, and the active file
/// becomes `.1`.
pub fn plan_rotation(base: &str, files: Vec<RotatedFile>, max_keep: usize) -> (r: RotationPlan)
    ensures
        plan_is(r, base@, files@, max_keep),
{
    let ghost all = files@;
    let limit = max_keep.saturating_sub(1);
    let (removals, kept) = prune(files, limit);
    let ghost kept0 = kept@;
    proof {
        lemma_survivors_are_small(all, limit as int);
    }
    let mut rest = kept;
    let mut boxed: VecDeque<ByIndexDown> = VecDeque::new();
    while rest.len() > 0
        invariant
            down(rest@) + boxed@ == down(kept0),
        decreases rest@.len(),
    {
        let ghost r0 = rest@;
        let ghost b0 = boxed@;
        if let Some(f) = rest.pop() {
            boxed.push_front(ByIndexDown { file: f });
            assert(down(rest@) + boxed@ =~= down(r0) + b0);
        }
    }
    assert(boxed@ =~= down(kept0));
    let mut queue = order::sort(boxed);
    let ghost sorted = queue@;
    proof {
        assert forall|i: int| 0 <= i < sorted.len() implies (#[trigger] sorted[i]).file.index <= limit by {
            order::sorted_keeps_elements(down(kept0), sorted[i]);
            assert(sorted.contains(sorted[i]));
            let k = choose|k: int| 0 <= k < down(kept0).len() && down(kept0)[k] == sorted[i];
            assert(kept0[k].index <= limit);
        }
    }
    let mut renames: Vec<Rename> = Vec::new();
    let ghost mut done: int = 0;
    assert(sorted.skip(0) =~= sorted);
    assert(moves(renames@) =~= shifts(base@, sorted.take(0)));
    while queue.len() > 0
        invariant
            0 <= done <= sorted.len(),
            queue@ == sorted.skip(done),
            limit < usize::MAX,
            forall|i: int| 0 <= i < sorted.len() ==> (#[trigger] sorted[i]).file.index <= limit,
            moves(renames@) == shifts(base@, sorted.take(done)),
        decreases queue@.len(),
    {
        proof {
            assert(sorted.skip(done)[0] == sorted[done]);
            assert(sorted.take(done + 1) =~= sorted.take(done).push(sorted[done]));
        }
        if let Some(f) = queue.pop_front() {
            assert(queue@ =~= sorted.skip(done + 1));
            let to = indexed_name(base, f.file.index + 1, &f.file.suffix);
            let ghost m0 = moves(renames@);
            renames.push(Rename { from: f.file.name, to });
            proof {
                assert(moves(renames@) =~= m0.push((f.file.name@, to@)));
                assert(shifts(base@, sorted.take(done + 1)) =~= shifts(base@, sorted.take(done)).push(
                    (f.file.name@, to@),
                ));
                done = done + 1;
            }
        }
    }
    assert(sorted.take(done) =~= sorted);
    let first = indexed_name(base, 1, &None);
    let ghost m0 = moves(renames@);
    renames.push(Rename { from: text::owned(base), to: first });
    assert(moves(renames@) =~= m0.push((base@, first@)));
    RotationPlan { removals, renames }
}

/// A rotation leaves no rotated file with an index above `max_keep`.
pub proof fn rotation_keeps_at_most_max_keep(files: Seq<RotatedFile>, max_keep: usize, i: int)
    requires
        max_keep > 0,
        0 <= i < order::sorted(down(survivors(files, keep_limit(max_keep)))).len(),
    ensures
        order::sorted(down(survivors(files, keep_limit(max_keep))))[i].file.index + 1 <= max_keep,
{
    let kept = survivors(files, keep_limit(max_keep));
    let sorted = order::sorted(down(kept));
    lemma_survivors_are_small(files, keep_limit(max_keep));
    order::sorted_keeps_elements(down(kept), sorted[i]);
    assert(sorted.contains(sorted[i]));
    let k = choose|k: int| 0 <= k < down(kept).len() && down(kept)[k] == sorted[i];
    assert(kept[k].index <= keep_limit(max_keep));
}

/// No shift of a rotation lands on a file that has not moved yet: whatever
/// moves later has a lower index than the place that an earlier shift takes.
pub proof fn shifts_never_overwrite_a_waiting_file(files: Seq<RotatedFile>, max_keep: usize, i: int, j: int)
    requires
        0 <= i < j < order::sorted(down(survivors(files, keep_limit(max_keep)))).len(),
    ensures
        ({
            let sorted = order::sorted(down(survivors(files, keep_limit(max_keep))));
            sorted[j].file.index < sorted[i].file.index + 1
        }),
{
    let kept = survivors(files, keep_limit(max_keep));
    let sorted = order::sorted(down(kept));
    order::sorted_is_an_ordered_permutation(down(kept));
    assert(sorted[i].ranks_before(sorted[j]));
}

pub open spec fn is_candidate(f: RotatedFile, compress_after: usize) -> bool {
    f.suffix is None && f.index > compress_after
}

pub open spec fn candidates(files: Seq<RotatedFile>, compress_after: usize) -> Seq<RotatedFile>
    decreases files.len(),
{
    if files.len() == 0 {
        seq![]
    } else if is_candidate(files.last(), compress_after) {
        candidates(files.drop_last(), compress_after).push(files.last())
    } else {
        candidates(files.drop_last(), compress_after)
    }
}

/// Uncompressed rotated files that sit past the `compress_after` boundary,
/// in ascending index order. Compressed files are never revisited.
pub fn compression_candidates(files: Vec<RotatedFile>, compress_after: usize, compression: Compression) -> (r: Vec<
    String,
>)
    ensures
        compression == Compression::Plain ==> r@.len() == 0,
        compression != Compression::Plain ==> text::views(r@) == order::sorted(
            up(candidates(files@, compress_after)),
        ).map_values(|f: ByIndexUp| f.file.name@),
{
    if compression == Compression::Plain {
        return Vec::new();
    }
    let ghost all = files@;
    let mut rest = files;
    let mut chosen: VecDeque<ByIndexUp> = VecDeque::new();
    let ghost mut left: int = all.len() as int;
    proof {
        assert(all.take(left) =~= all);
        assert(up(candidates(all, compress_after)) + chosen@ =~= up(candidates(all, compress_after)));
    }
    while rest.len() > 0
        invariant
            0 <= left <= all.len(),
            rest@ == all.take(left),
            up(candidates(all.take(left), compress_after)) + chosen@ == up(candidates(all, compress_after)),
        decreases rest@.len(),
    {
        proof {
            assert(all.take(left).drop_last() =~= all.take(left - 1));
        }
        let ghost c0 = chosen@;
        if let Some(f) = rest.pop() {
            let take = match &f.suffix {
                None => f.index > compress_after,
                Some(_) => false,
            };
            proof {
                assert(rest@ =~= all.take(left - 1));
            }
            if take {
                chosen.push_front(ByIndexUp { file: f });
                proof {
                    let before = candidates(all.take(left - 1), compress_after);
                    assert(up(before.push(f)) + c0 =~= up(before) + chosen@);
                }
            }
            proof {
                left = left - 1;
            }
        }
    }
    assert(chosen@ =~= up(candidates(all, compress_after)));
    let mut queue = order::sort(chosen);
    let ghost sorted = queue@;
    let ghost name = |f: ByIndexUp| f.file.name@;
    let mut out: Vec<String> = Vec::new();
    let ghost mut done: int = 0;
    assert(text::views(out@) =~= sorted.take(0).map_values(name));
    while queue.len() > 0
        invariant
            0 <= done <= sorted.len(),
            queue@ == sorted.skip(done),
            name == (|f: ByIndexUp| f.file.name@),
            text::views(out@) == sorted.take(done).map_values(name),
        decreases queue@.len(),
    {
        proof {
            assert(sorted.skip(done)[0] == sorted[done]);
            assert(sorted.take(done + 1) =~= sorted.take(done).push(sorted[done]));
        }
        if let Some(f) = queue.pop_front() {
            assert(queue@ =~= sorted.skip(done + 1));
            let ghost o0 = text::views(out@);
            out.push(f.file.name);
            proof {
                assert(text::views(out@) =~= o0.push(f.file.name@));
                assert(sorted.take(done + 1).map_values(name) =~= sorted.take(done).map_values(name).push(f.file.name@));
                done = done + 1;
            }
        }
    }
    assert(sorted.take(done) =~= sorted);
    out
}

/// The length of the header line with its line feed.
pub open spec fn header_length() -> nat {
    vstd::utf8::encode_utf8(CSV_HEADER@).len() + 1
}

/// The size accounting of the active log. Rotation is skipped entirely while
/// the compression gate is held; the writer then appends past `rotate_size`.
pub struct RotatingWriter {
    pub rotate_size: u64,
    pub max_keep: usize,
    pub current_size: u64,
    /// While `true`, a compression job is running and rotation is barred.
    pub compress_in_flight: bool,
}

fn header_size() -> (r: u64)
    ensures
        r == header_length(),
{
    proof {
        reveal_strlit(
            "listener_type,connection_id,listener_name,sni,target_host,target_endpoint,remote_address,status,uploaded_bytes,downloaded_bytes,connection_start,connection_end",
        );
        vstd::utf8::is_ascii_chars_encode_utf8(CSV_HEADER@);
    }
    CSV_HEADER.as_bytes().len() as u64 + 1
}

impl RotatingWriter {
    /// Takes over an active file of `existing` bytes. The second result says
    /// whether the header has to be written first: to an empty file only.
    pub fn open(existing: u64, rotate_size: u64, max_keep: usize) -> (r: (RotatingWriter, bool))
        ensures
            r.1 == (existing == 0),
            r.0.rotate_size == rotate_size,
            r.0.max_keep == max_keep,
            r.0.current_size == if existing == 0 {
                header_length()
            } else {
                existing as nat
            },
            !r.0.compress_in_flight,
    {
        let size = if existing == 0 {
            header_size()
        } else {
            existing
        };
        (
            RotatingWriter { rotate_size, max_keep, current_size: size, compress_in_flight: false },
            existing == 0,
        )
    }

    /// The rotation gate.
    pub fn compress_gate(&self) -> (r: bool)
        ensures
            r == self.compress_in_flight,
    {
        self.compress_in_flight
    }

    /// Accounts for one appended line and tells whether the log rotates now,
    /// in which case a fresh file with only the header takes its place.
    pub fn write_record(&mut self, line: &str) -> (r: bool)
        requires
            old(self).current_size + vstd::utf8::encode_utf8(line@).len() + 1 <= u64::MAX,
        ensures
            ({
                let size = old(self).current_size + vstd::utf8::encode_utf8(line@).len() + 1;
                &&& r == (size >= old(self).rotate_size && !old(self).compress_in_flight)
                &&& final(self).current_size == if r {
                    header_length() as int
                } else {
                    size
                }
            }),
            final(self).rotate_size == old(self).rotate_size,
            final(self).max_keep == old(self).max_keep,
            final(self).compress_in_flight == old(self).compress_in_flight,
    {
        let size = self.current_size + line.as_bytes().len() as u64 + 1;
        if size >= self.rotate_size && !self.compress_in_flight {
            self.current_size = header_size();
            true
        } else {
            self.current_size = size;
            false
        }
    }
}

/// Bounded so a stalled disk caps memory instead of growing without limit.
pub const QUEUE_CAPACITY: usize = 100000;

/// The queue between the connections and the log writer.
pub struct Accounting {
    /// Absent until accounting is switched on.
    pub sender: Option<VecDeque<CdrRecord>>,
    /// Set once the writer has drained the queue for good.
    pub writer_gone: bool,
}

impl Accounting {
    pub fn new() -> (r: Accounting)
        ensures
            r.sender is None,
            !r.writer_gone,
    {
        Accounting { sender: None, writer_gone: false }
    }
}

pub fn enabled(state: &Accounting) -> (r: bool)
    ensures
        r == state.sender is Some,
{
    state.sender.is_some()
}

/// Non-blocking; drops the record if the queue is full or the writer is gone,
/// and silently when accounting was never enabled. Yields whether a record was
/// dropped that should have been written.
pub fn submit(state: &mut Accounting, record: CdrRecord) -> (r: bool)
    ensures
        final(state).writer_gone == old(state).writer_gone,
        match old(state).sender {
            None => !r && final(state).sender is None,
            Some(q) => {
                let room = !old(state).writer_gone && q@.len() < QUEUE_CAPACITY;
                &&& r == !room
                &&& final(state).sender is Some
                &&& final(state).sender->0@ == if room {
                    q@.push(record)
                } else {
                    q@
                }
            },
        },
{
    let mut taken: Option<VecDeque<CdrRecord>> = None;
    std::mem::swap(&mut taken, &mut state.sender);
    match taken {
        None => false,
        Some(mut q) => {
            if state.writer_gone || q.len() >= QUEUE_CAPACITY {
                state.sender = Some(q);
                true
            } else {
                q.push_back(record);
                state.sender = Some(q);
                false
            }
        },
    }
}

/// Switches accounting on, unless the settings leave it off. Yields the
/// rotation size where it was switched on.
pub fn init(state: &mut Accounting, cfg: &AccountingConfig) -> (r: Result<Option<u64>, String>)
    ensures
        !cfg.enabled ==> r == Ok::<Option<u64>, String>(None) && *final(state) == *old(state),
        cfg.enabled && old(state).sender is Some ==> r is Err && r->Err_0@ == "accounting already initialized"@
            && *final(state) == *old(state),
        cfg.enabled && old(state).sender is None ==> match cfg.problem() {
            Some(e) => r is Err && r->Err_0@ == e && *final(state) == *old(state),
            None => r matches Ok(Some(size)) && crate::config::size_of_text(cfg.rotate_size@) == Ok::<
                u64,
                Seq<char>,
            >(size) && final(state).sender is Some && final(state).sender->0@.len() == 0
                && final(state).writer_gone == old(state).writer_gone,
        },
{
    if !cfg.enabled {
        return Ok(None);
    }
    if state.sender.is_some() {
        return Err(text::owned("accounting already initialized"));
    }
    match cfg.validate() {
        Ok(()) => {},
        Err(e) => return Err(e),
    }
    match cfg.rotate_size_bytes() {
        Ok(size) => {
            state.sender = Some(VecDeque::new());
            Ok(Some(size))
        },
        Err(e) => Err(e),
    }
}

/// Hands over every record submitted so far and stops the writer: records
/// submitted afterwards are dropped.
pub fn shutdown(state: &mut Accounting) -> (r: VecDeque<CdrRecord>)
    ensures
        match old(state).sender {
            None => r@.len() == 0 && final(state).sender is None && final(state).writer_gone == old(
                state,
            ).writer_gone,
            Some(q) => r@ == q@ && final(state).sender is Some && final(state).sender->0@.len() == 0
                && final(state).writer_gone,
        },
{
    let mut taken: Option<VecDeque<CdrRecord>> = None;
    std::mem::swap(&mut taken, &mut state.sender);
    match taken {
        None => VecDeque::new(),
        Some(q) => {
            state.sender = Some(VecDeque::new());
            state.writer_gone = true;
            q
        },
    }
}

/// Nothing but control characters is taken out of a value.
pub proof fn a_value_keeps_all_but_control_characters(s: Seq<char>, i: int)
    ensures
        (forall|k: int| 0 <= k < s.len() ==> !text::is_ctl(#[trigger] s[k])) ==> cleaned(s) == s,
        0 <= i < s.len() && !text::is_ctl(s[i]) ==> cleaned(s).contains(s[i]),
        cleaned(s).len() <= s.len(),
    decreases s.len(),
{
    if s.len() > 0 {
        let t = s.drop_last();
        a_value_keeps_all_but_control_characters(t, i);
        assert(s[s.len() - 1] == s.last());
        if forall|k: int| 0 <= k < s.len() ==> !text::is_ctl(#[trigger] s[k]) {
            assert forall|k: int| 0 <= k < t.len() implies !text::is_ctl(#[trigger] t[k]) by {
                assert(t[k] == s[k]);
            }
            assert(cleaned(s) =~= s);
        }
        if 0 <= i < t.len() && !text::is_ctl(s[i]) {
            assert(t[i] == s[i]);
            let k = choose|k: int| 0 <= k < cleaned(t).len() && cleaned(t)[k] == s[i];
            assert(cleaned(s)[k] == s[i]);
        }
        if i == t.len() && !text::is_ctl(s[i]) {
            assert(cleaned(s)[cleaned(s).len() - 1] == s[i]);
        }
    } else {
        assert(cleaned(s) =~= s);
    }
}

/// A row tells the whole connection: each of its twelve columns is the one that
/// the header names.
pub proof fn a_row_tells_the_whole_connection(r: CdrRecord, rest: Seq<char>)
    requires
        rest.len() == 0 || rest[0] == ',',
    ensures
        r.columns().len() == 12,
        read_field(r.columns()[1] + rest) == (cleaned(r.connection_id@), rest),
        read_field(r.columns()[2] + rest) == (cleaned(r.listener_name@), rest),
        read_field(r.columns()[3] + rest) == (cleaned(r.sni@), rest),
        read_field(r.columns()[4] + rest) == (cleaned(r.target_host@), rest),
        read_field(r.columns()[5] + rest) == (cleaned(r.target_endpoint@), rest),
        read_field(r.columns()[6] + rest) == (cleaned(r.remote_address@), rest),
        text::digits_value(r.columns()[8]) == r.uploaded_bytes,
        text::digits_value(r.columns()[9]) == r.downloaded_bytes,
        r.columns()[10] == timestamp(r.start_unix_ms),
        r.columns()[11] == timestamp(r.end_unix_ms),
{
    a_field_reads_back(r.connection_id@, rest);
    a_field_reads_back(r.listener_name@, rest);
    a_field_reads_back(r.sni@, rest);
    a_field_reads_back(r.target_host@, rest);
    a_field_reads_back(r.target_endpoint@, rest);
    a_field_reads_back(r.remote_address@, rest);
    text::decimal_notation_reads_back(r.uploaded_bytes as nat, u64::MAX as nat);
    text::decimal_notation_reads_back(r.downloaded_bytes as nat, u64::MAX as nat);
}

/// A rotated file is recognized by its name: log, index and suffix read back.
pub proof fn a_rotated_file_is_recognized(base: Seq<char>, index: usize, suffix: Option<Seq<char>>)
    ensures
        rotated(base, indexed(base, index as nat, suffix)) == Some((index as nat, suffix)),
{
    reveal_strlit(".");
    let prefix = base + "."@;
    let d = text::decimal(index as nat);
    let name = indexed(base, index as nat, suffix);
    let rest = name.skip(prefix.len() as int);
    text::decimal_notation_reads_back(index as nat, usize::MAX as nat);
    text::lemma_digits_hold_nothing_else(d, '.');
    assert(name.take(prefix.len() as int) =~= prefix);
    match suffix {
        None => {
            assert(rest =~= d);
        },
        Some(x) => {
            assert(rest =~= d + "."@ + x);
            assert(rest[d.len() as int] == '.');
            assert forall|k: int| 0 <= k < d.len() implies rest[k] != '.' by {
                assert(rest[k] == d[k]);
                assert(d.contains(d[k]));
            }
            text::lemma_first_at_is(rest, '.', d.len() as int);
            assert(text::before(rest, '.') =~= d);
            assert(text::after(rest, '.') =~= x);
        },
    }
}

/// A rotation drops a rotated file exactly if its index has reached what is
/// kept; every other one stays.
pub proof fn a_rotation_drops_only_the_oldest_files(files: Seq<RotatedFile>, max_keep: usize, i: int)
    requires
        0 <= i < files.len(),
        max_keep > 0,
    ensures
        files[i].index < max_keep ==> survivors(files, keep_limit(max_keep)).contains(files[i]),
        files[i].index >= max_keep ==> pruned(files, keep_limit(max_keep)).contains(files[i].name@),
    decreases files.len(),
{
    let t = files.drop_last();
    let limit = keep_limit(max_keep);
    if i < t.len() {
        assert(t[i] == files[i]);
        a_rotation_drops_only_the_oldest_files(t, max_keep, i);
        if files[i].index < max_keep {
            let k = choose|k: int| 0 <= k < survivors(t, limit).len() && survivors(t, limit)[k] == files[i];
            assert(survivors(files, limit)[k] == files[i]);
        } else {
            let k = choose|k: int| 0 <= k < pruned(t, limit).len() && pruned(t, limit)[k] == files[i].name@;
            assert(pruned(files, limit)[k] == files[i].name@);
        }
    } else if files[i].index < max_keep {
        assert(survivors(files, limit)[survivors(files, limit).len() - 1] == files[i]);
    } else {
        assert(pruned(files, limit)[pruned(files, limit).len() - 1] == files[i].name@);
    }
}

/// A rotation moves every file that stays up by one, and the log itself to the
/// first place, last of all.
pub proof fn a_rotation_moves_every_file_up(
    plan: RotationPlan,
    base: Seq<char>,
    files: Seq<RotatedFile>,
    max_keep: usize,
    i: int,
)
    requires
        plan_is(plan, base, files, max_keep),
        0 <= i < files.len(),
        max_keep > 0,
        files[i].index < max_keep,
    ensures
        moves(plan.renames@).contains(
            (files[i].name@, indexed(base, files[i].index as nat + 1, suffix_view(files[i].suffix))),
        ),
        moves(plan.renames@).last() == (base, indexed(base, 1, None)),
{
    a_rotation_drops_only_the_oldest_files(files, max_keep, i);
    let kept = survivors(files, keep_limit(max_keep));
    let sorted = order::sorted(down(kept));
    let k = choose|k: int| 0 <= k < kept.len() && kept[k] == files[i];
    let row = ByIndexDown { file: files[i] };
    assert(down(kept)[k] == row);
    order::sorted_keeps_elements(down(kept), row);
    let j = choose|j: int| 0 <= j < sorted.len() && sorted[j] == row;
    let all = shifts(base, sorted);
    assert(all[j] == (files[i].name@, indexed(base, files[i].index as nat + 1, suffix_view(files[i].suffix))));
    assert(moves(plan.renames@)[j] == all[j]);
}

/// A rotated file is compressed once it is older than asked for, and only if it
/// is not compressed yet.
pub proof fn old_plain_files_are_compressed(files: Seq<RotatedFile>, compress_after: usize, i: int)
    ensures
        0 <= i < files.len() && files[i].suffix is None && files[i].index > compress_after ==> candidates(
            files,
            compress_after,
        ).contains(files[i]),
        0 <= i < candidates(files, compress_after).len() ==> candidates(files, compress_after)[i].suffix is None
            && candidates(files, compress_after)[i].index > compress_after && files.contains(
            candidates(files, compress_after)[i],
        ),
    decreases files.len(),
{
    if files.len() > 0 {
        let t = files.drop_last();
        let a = candidates(t, compress_after);
        let b = candidates(files, compress_after);
        old_plain_files_are_compressed(t, compress_after, i);
        if 0 <= i < t.len() && files[i].suffix is None && files[i].index > compress_after {
            assert(t[i] == files[i]);
            let k = choose|k: int| 0 <= k < a.len() && a[k] == files[i];
            assert(b[k] == files[i]);
        }
        if i == t.len() && files[i].suffix is None && files[i].index > compress_after {
            assert(b[b.len() - 1] == files[i]);
        }
        if 0 <= i < b.len() {
            if i < a.len() {
                let k = choose|k: int| 0 <= k < t.len() && t[k] == a[i];
                assert(files[k] == b[i]);
            } else {
                assert(files[files.len() - 1] == b[i]);
            }
        }
    }
}

/// Every rotated file of a log is seen among the names of its directory, and no
/// other file.
pub proof fn every_rotated_file_is_seen(base: Seq<char>, names: Seq<Seq<char>>, i: int)
    ensures
        0 <= i < names.len() && rotated(base, names[i]) is Some ==> rotated_names(base, names).contains(names[i]),
        0 <= i < rotated_names(base, names).len() ==> rotated(base, rotated_names(base, names)[i]) is Some,
    decreases names.len(),
{
    if names.len() > 0 {
        let t = names.drop_last();
        let a = rotated_names(base, t);
        let b = rotated_names(base, names);
        every_rotated_file_is_seen(base, t, i);
        if 0 <= i < t.len() && rotated(base, names[i]) is Some {
            assert(t[i] == names[i]);
            let k = choose|k: int| 0 <= k < a.len() && a[k] == names[i];
            assert(b[k] == names[i]);
        }
        if i == t.len() && rotated(base, names[i]) is Some {
            assert(b[b.len() - 1] == names[i]);
        }
    }
}

/// Every line that is written counts. The log rotates with the line that fills
/// it, as soon as nothing is being compressed; until then it grows by the line
/// and its end.
pub proof fn a_log_rotates_once_it_is_full(log: &mut RotatingWriter, line: &str, rotates: bool)
    requires
        call_ensures(RotatingWriter::write_record, (log, line), rotates),
    ensures
        ({
            let grown = old(log).current_size + vstd::utf8::encode_utf8(line@).len() + 1;
            &&& grown < old(log).rotate_size ==> !rotates
            &&& grown >= old(log).rotate_size && !old(log).compress_in_flight ==> rotates
            &&& old(log).compress_in_flight ==> !rotates
            &&& !rotates ==> final(log).current_size == grown
            &&& rotates ==> final(log).current_size == header_length()
        }),
{
}

/// A record is kept as long as there is room for it and someone to write it, and
/// is the last in the queue then. Without accounting nothing is lost.
pub proof fn a_record_is_kept_while_there_is_room(state: &mut Accounting, record: CdrRecord, dropped: bool)
    requires
        call_ensures(submit, (state, record), dropped),
    ensures
        old(state).sender is None ==> !dropped,
        old(state).sender is Some && !old(state).writer_gone && (old(state).sender->0)@.len() < 100_000 ==> !dropped
            && final(state).sender is Some && (final(state).sender->0)@.len() == (old(state).sender->0)@.len() + 1
            && (final(state).sender->0)@.last() == record && (final(state).sender->0)@.drop_last() == (
        old(state).sender->0)@,
        old(state).sender is Some && (old(state).writer_gone || (old(state).sender->0)@.len() >= 100_000) ==> dropped
            && final(state).sender is Some && (final(state).sender->0)@ == (old(state).sender->0)@,
{
    if old(state).sender is Some {
        let q = (old(state).sender->0)@;
        assert(q.push(record).drop_last() =~= q);
    }
}

/// Files are moved from the highest index down, so that no move overwrites a
/// file that is yet to be moved.
pub proof fn files_are_moved_from_the_highest_down(files: Seq<RotatedFile>, i: int, j: int)
    requires
        0 <= i < j < files.len(),
    ensures
        order::sorted(down(files))[i].file.index >= order::sorted(down(files))[j].file.index,
{
    order::sorted_is_an_ordered_permutation(down(files));
    assert(order::sorted(down(files))[i].ranks_before(order::sorted(down(files))[j]));
}

/// Accounting that is switched on with good settings begins with an empty queue,
/// and is not switched on twice.
pub proof fn accounting_is_switched_on_once(state: &mut Accounting, cfg: AccountingConfig, r: Result<Option<u64>, String>)
    requires
        call_ensures(init, (state, &cfg), r),
    ensures
        cfg.enabled && old(state).sender is None && cfg.problem() is None ==> r is Ok && final(state).sender is Some && (
        final(state).sender->0)@.len() == 0,
        cfg.enabled && old(state).sender is Some ==> r is Err && *final(state) == *old(state),
        !cfg.enabled ==> r is Ok && *final(state) == *old(state),
        cfg.enabled && cfg.problem() is Some ==> r is Err,
{
}

} // verus!
