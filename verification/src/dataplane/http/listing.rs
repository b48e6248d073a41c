//! Paginated, symlink-aware directory listings.
use vstd::prelude::*;
use crate::dataplane::http::error_pages;
use crate::dataplane::http::static_files;
use crate::order;
use crate::order::Ranked;
use crate::text;
use crate::utc;

verus! {

/// Directory listings are paginated; each page shows at most this many
/// entries and links to the next page via the `?after=<name>` cursor.
pub const PAGE_SIZE: usize = 100000;

/// A name found in a directory.
pub struct NamedEntry {
    pub name: String,
    pub is_dir: bool,
    pub is_symlink: bool,
}

impl Ranked for NamedEntry {
    open spec fn ranks_before(self, other: Self) -> bool {
        text::lex_le(self.name@, other.name@)
    }

    proof fn total(a: Self, b: Self) {
        text::lemma_lex_total(a.name@, b.name@);
    }

    proof fn transitive(a: Self, b: Self, c: Self) {
        text::lemma_lex_transitive(a.name@, b.name@, c.name@);
    }

    fn not_after(&self, other: &Self) -> (r: bool) {
        text::not_after(self.name.as_str(), other.name.as_str())
    }
}

/// The directories among the entries.
pub open spec fn directory_count(s: Seq<NamedEntry>) -> nat
    decreases s.len(),
{
    if s.len() == 0 {
        0
    } else {
        directory_count(s.drop_last()) + (if s.last().is_dir {
            1nat
        } else {
            0nat
        })
    }
}

/// How many of the first entries of a sorted row come no later than the
/// cursor.
pub open spec fn passed(s: Seq<NamedEntry>, cursor: Seq<char>) -> int
    decreases s.len(),
{
    if s.len() > 0 && text::lex_le(s[0].name@, cursor) {
        1 + passed(s.drop_first(), cursor)
    } else {
        0
    }
}

pub open spec fn page_start(s: Seq<NamedEntry>, after: Option<Seq<char>>) -> int {
    match after {
        Some(cursor) => passed(s, cursor),
        None => 0,
    }
}

pub open spec fn page_end(s: Seq<NamedEntry>, after: Option<Seq<char>>, page_size: int) -> int {
    let end = page_start(s, after) + page_size;
    if end < s.len() {
        end
    } else {
        s.len() as int
    }
}

/// One page of a directory: which names it shows and where the next begins.
pub struct Page {
    pub directories: usize,
    pub files: usize,
    /// 1-based ordinal of the first entry on this page.
    pub start_ordinal: usize,
    pub entries: Vec<NamedEntry>,
    pub next_after: Option<String>,
}

/// Whether a page shows the names of a directory that come after the cursor.
pub open spec fn shows(p: Page, names: Seq<NamedEntry>, after: Option<Seq<char>>, page_size: int) -> bool {
    let s = order::sorted(names);
    let start = page_start(s, after);
    let end = page_end(s, after, page_size);
    &&& p.directories == directory_count(names)
    &&& p.files == names.len() - directory_count(names)
    &&& p.start_ordinal == start + 1
    &&& p.entries@ == s.subrange(start, end)
    &&& static_files::held(p.next_after) == if end < s.len() {
        Some(s[end - 1].name@)
    } else {
        None
    }
}

proof fn lemma_passed(s: Seq<NamedEntry>, cursor: Seq<char>)
    ensures
        0 <= passed(s, cursor) <= s.len(),
        forall|i: int| 0 <= i < passed(s, cursor) ==> text::lex_le(#[trigger] s[i].name@, cursor),
        passed(s, cursor) < s.len() ==> !text::lex_le(s[passed(s, cursor)].name@, cursor),
    decreases s.len(),
{
    if s.len() > 0 && text::lex_le(s[0].name@, cursor) {
        let t = s.drop_first();
        lemma_passed(t, cursor);
        assert forall|i: int| 0 <= i < passed(s, cursor) implies text::lex_le(#[trigger] s[i].name@, cursor) by {
            if i > 0 {
                assert(t[i - 1] == s[i]);
            }
        }
        if passed(s, cursor) < s.len() {
            assert(t[passed(t, cursor)] == s[passed(s, cursor)]);
        }
    }
}

proof fn lemma_passed_is(s: Seq<NamedEntry>, cursor: Seq<char>, n: int)
    requires
        0 <= n <= s.len(),
        forall|i: int| 0 <= i < n ==> text::lex_le(#[trigger] s[i].name@, cursor),
        n < s.len() ==> !text::lex_le(s[n].name@, cursor),
    ensures
        passed(s, cursor) == n,
{
    lemma_passed(s, cursor);
    let m = passed(s, cursor);
    if m < n {
        assert(text::lex_le(s[m].name@, cursor));
    }
    if n < m {
        assert(text::lex_le(s[n].name@, cursor));
    }
}

/// Names of one directory are distinct.
pub open spec fn distinct_names(s: Seq<NamedEntry>) -> bool {
    forall|i: int, j: int| 0 <= i < j < s.len() ==> (#[trigger] s[i]).name@ != (#[trigger] s[j]).name@
}

/// Every entry that a page shows comes strictly after its cursor, and no
/// earlier entry does.
pub proof fn a_page_starts_strictly_after_its_cursor(names: Seq<NamedEntry>, cursor: Seq<char>, i: int)
    requires
        0 <= i < names.len(),
    ensures
        ({
            let s = order::sorted(names);
            i < page_start(s, Some(cursor)) <==> text::lex_le(s[i].name@, cursor)
        }),
{
    let s = order::sorted(names);
    order::sorted_is_an_ordered_permutation(names);
    lemma_passed(s, cursor);
    let m = passed(s, cursor);
    if i >= m && text::lex_le(s[i].name@, cursor) {
        if i > m {
            assert(s[m].ranks_before(s[i]));
            text::lemma_lex_transitive(s[m].name@, s[i].name@, cursor);
        }
    }
}

/// Following the `next_after` cursor shows every entry exactly once: the next
/// page starts where this one ended.
pub proof fn pages_follow_each_other(names: Seq<NamedEntry>, after: Option<Seq<char>>, page_size: int)
    requires
        page_size > 0,
        distinct_names(order::sorted(names)),
        page_end(order::sorted(names), after, page_size) < names.len(),
    ensures
        ({
            let s = order::sorted(names);
            let end = page_end(s, after, page_size);
            page_start(s, Some(s[end - 1].name@)) == end
        }),
{
    let s = order::sorted(names);
    order::sorted_is_an_ordered_permutation(names);
    if after is Some {
        lemma_passed(s, after->0);
    }
    let end = page_end(s, after, page_size);
    let cursor = s[end - 1].name@;
    assert forall|i: int| 0 <= i < end implies text::lex_le(#[trigger] s[i].name@, cursor) by {
        if i < end - 1 {
            assert(s[i].ranks_before(s[end - 1]));
        } else {
            text::lemma_lex_total(cursor, cursor);
        }
    }
    if text::lex_le(s[end].name@, cursor) {
        assert(s[end - 1].ranks_before(s[end]));
        text::lemma_lex_antisymmetric(s[end].name@, cursor);
    }
    lemma_passed_is(s, cursor, end);
}

/// The cursor of the page at a position: that of the page before, if there is
/// one.
pub open spec fn cursor_at(pages: Seq<Page>, i: int) -> Option<Seq<char>> {
    if i == 0 {
        None
    } else {
        static_files::held(pages[i - 1].next_after)
    }
}

/// Whether pages are what a reader sees who follows the cursors of a directory
/// from the first page to the last.
pub open spec fn is_walk(pages: Seq<Page>, names: Seq<NamedEntry>, page_size: int) -> bool {
    &&& pages.len() > 0
    &&& forall|i: int| 0 <= i < pages.len() ==> shows(#[trigger] pages[i], names, cursor_at(pages, i), page_size)
    &&& forall|i: int| 0 <= i < pages.len() - 1 ==> (#[trigger] pages[i]).next_after is Some
    &&& pages.last().next_after is None
}

/// The entries of pages, joined in order.
pub open spec fn joined_entries(pages: Seq<Page>) -> Seq<NamedEntry>
    decreases pages.len(),
{
    if pages.len() == 0 {
        seq![]
    } else {
        joined_entries(pages.drop_last()) + pages.last().entries@
    }
}

proof fn lemma_sorted_names_are_distinct(names: Seq<NamedEntry>)
    requires
        distinct_names(names),
    ensures
        distinct_names(order::sorted(names)),
{
    broadcast use vstd::seq_lib::group_to_multiset_ensures;

    let s = order::sorted(names);
    order::sorted_is_an_ordered_permutation(names);
    assert(names.no_duplicates());
    names.lemma_multiset_has_no_duplicates();
    s.lemma_multiset_has_no_duplicates_conv();
    assert forall|i: int, j: int| 0 <= i < j < s.len() implies (#[trigger] s[i]).name@ != (#[trigger] s[j]).name@ by {
        order::sorted_keeps_elements(names, s[i]);
        order::sorted_keeps_elements(names, s[j]);
        assert(s.contains(s[i]) && s.contains(s[j]));
        let a = choose|a: int| 0 <= a < names.len() && names[a] == s[i];
        let b = choose|b: int| 0 <= b < names.len() && names[b] == s[j];
        assert(s[i] != s[j]);
        assert(a != b);
        if a < b {
            assert(names[a].name@ != names[b].name@);
        } else {
            assert(names[b].name@ != names[a].name@);
        }
    }
}

proof fn lemma_joined_next(pages: Seq<Page>, n: int)
    requires
        0 <= n < pages.len(),
    ensures
        joined_entries(pages.take(n + 1)) == joined_entries(pages.take(n)) + pages[n].entries@,
{
    assert(pages.take(n + 1).drop_last() =~= pages.take(n));
    assert(pages.take(n + 1).last() == pages[n]);
}

proof fn lemma_page_bounds(s: Seq<NamedEntry>, after: Option<Seq<char>>, page_size: int)
    requires
        page_size > 0,
    ensures
        0 <= page_start(s, after) <= page_end(s, after, page_size) <= s.len(),
        page_end(s, after, page_size) - page_start(s, after) <= page_size,
{
    if after is Some {
        lemma_passed(s, after->0);
    }
}

proof fn lemma_page_extends(s: Seq<NamedEntry>, start: int, end: int)
    requires
        0 <= start <= end <= s.len(),
    ensures
        s.take(start) + s.subrange(start, end) == s.take(end),
{
    assert(s.take(start) + s.subrange(start, end) =~= s.take(end));
}

proof fn lemma_walk(pages: Seq<Page>, names: Seq<NamedEntry>, page_size: int, n: int)
    requires
        page_size > 0,
        distinct_names(order::sorted(names)),
        is_walk(pages, names, page_size),
        0 <= n < pages.len(),
    ensures
        joined_entries(pages.take(n)).len() == page_start(order::sorted(names), cursor_at(pages, n)),
        joined_entries(pages.take(n + 1)) == order::sorted(names).take(
            page_end(order::sorted(names), cursor_at(pages, n), page_size),
        ),
    decreases n,
{
    let s = order::sorted(names);
    let after = cursor_at(pages, n);
    let start = page_start(s, after);
    let end = page_end(s, after, page_size);
    lemma_page_bounds(s, after, page_size);
    lemma_joined_next(pages, n);
    assert(shows(pages[n], names, after, page_size));
    if n == 0 {
        assert(pages.take(0) =~= seq![]);
        assert(s.take(0) =~= seq![]);
    } else {
        let earlier = cursor_at(pages, n - 1);
        lemma_walk(pages, names, page_size, n - 1);
        lemma_page_bounds(s, earlier, page_size);
        assert(shows(pages[n - 1], names, earlier, page_size));
        assert(pages[n - 1].next_after is Some);
        order::sorted_is_an_ordered_permutation(names);
        pages_follow_each_other(names, earlier, page_size);
        assert(start == page_end(s, earlier, page_size));
    }
    assert(joined_entries(pages.take(n)) == s.take(start));
    lemma_page_extends(s, start, end);
}

/// Following the cursors from the first page to the last shows every name of a
/// directory exactly once, in order. Every page counts the whole directory,
/// shows no more than a page's worth, and begins with the number of its first
/// entry.
pub proof fn the_pages_joined_are_the_directory(pages: Seq<Page>, names: Seq<NamedEntry>, page_size: int, i: int)
    requires
        page_size > 0,
        distinct_names(names),
        is_walk(pages, names, page_size),
        0 <= i < pages.len(),
    ensures
        joined_entries(pages) == order::sorted(names),
        joined_entries(pages).to_multiset() == names.to_multiset(),
        distinct_names(joined_entries(pages)),
        pages[i].entries@.len() <= page_size,
        pages[i].directories + pages[i].files == names.len(),
        pages[i].start_ordinal == 1 + joined_entries(pages.take(i)).len(),
{
    let s = order::sorted(names);
    let last = pages.len() - 1;
    order::sorted_is_an_ordered_permutation(names);
    lemma_sorted_names_are_distinct(names);
    lemma_walk(pages, names, page_size, i);
    lemma_walk(pages, names, page_size, last);
    lemma_page_bounds(s, cursor_at(pages, i), page_size);
    lemma_page_bounds(s, cursor_at(pages, last), page_size);
    assert(shows(pages[i], names, cursor_at(pages, i), page_size));
    assert(shows(pages[last], names, cursor_at(pages, last), page_size));
    assert(pages.take(last + 1) =~= pages);
    assert(s.take(s.len() as int) =~= s);
}

fn count_directories(names: &Vec<NamedEntry>) -> (r: usize)
    ensures
        r == directory_count(names@),
        r <= names@.len(),
{
    let mut n: usize = 0;
    let mut i: usize = 0;
    while i < names.len()
        invariant
            i <= names@.len(),
            n <= i,
            n == directory_count(names@.take(i as int)),
        decreases names@.len() - i,
    {
        assert(names@.take(i + 1).drop_last() =~= names@.take(i as int));
        if names[i].is_dir {
            n = n + 1;
        }
        i = i + 1;
    }
    assert(names@.take(i as int) =~= names@);
    n
}

/// Picks one page of a directory's names, sorted byte-lexicographically, so
/// that the `after` cursor is a plain name comparison.
pub fn paginate(names: Vec<NamedEntry>, after: &Option<String>, page_size: usize) -> (r: Page)
    requires
        page_size > 0,
        names@.len() + page_size <= usize::MAX,
    ensures
        shows(r, names@, static_files::held(*after), page_size as int),
{
    let directories = count_directories(&names);
    let total = names.len();
    let ghost names0 = names@;
    let mut rows = order::sort_vec(names);
    let ghost s = rows@;
    proof {
        order::sorted_is_an_ordered_permutation(names0);
    }
    let mut start: usize = 0;
    match after {
        Some(cursor) => {
            while start < rows.len() && text::not_after(rows[start].name.as_str(), cursor.as_str())
                invariant
                    start <= rows@.len(),
                    rows@ == s,
                    forall|i: int| 0 <= i < start ==> text::lex_le(#[trigger] s[i].name@, cursor@),
                decreases rows@.len() - start,
            {
                start = start + 1;
            }
            proof {
                lemma_passed_is(s, cursor@, start as int);
            }
        },
        None => {},
    }
    let end = if start + page_size < total {
        start + page_size
    } else {
        total
    };
    let next_after = if end < total {
        Some(rows[end - 1].name.clone())
    } else {
        None
    };
    let mut tail = rows.split_off(start);
    let _rest = tail.split_off(end - start);
    assert(tail@ =~= s.subrange(start as int, end as int));
    Page { directories, files: total - directories, start_ordinal: start + 1, entries: tail, next_after }
}

/// One row of a listing.
pub struct ListedEntry {
    pub name: String,
    pub is_dir: bool,
    /// The size as it is shown for a file.
    pub size: String,
    pub modified: Option<static_files::Stamp>,
    /// The target a symlink points at, for display only.
    pub link_target: Option<String>,
}

/// A page of a directory with what is shown of each entry.
pub struct Listing {
    pub directories: usize,
    pub files: usize,
    /// 1-based ordinal of the first entry on this page.
    pub start_ordinal: usize,
    pub entries: Vec<ListedEntry>,
    pub next_after: Option<String>,
}

/// The calendar knows every time of modification, and the ordinals fit.
pub open spec fn listing_ok(l: Listing) -> bool {
    &&& forall|i: int| 0 <= i < l.entries@.len() ==> static_files::stamp_ok((#[trigger] l.entries@[i]).modified)
    &&& l.directories + l.files <= usize::MAX
    &&& l.start_ordinal + l.entries@.len() <= usize::MAX
}

/// The date that a listing shows for an entry.
pub open spec fn date_of(modified: Option<static_files::Stamp>) -> Seq<char> {
    match modified {
        Some(stamp) => utc::minute_text(utc::at(stamp.seconds as int)),
        None => "\u{2014}"@,
    }
}

pub fn listing_date(modified: Option<static_files::Stamp>) -> (r: String)
    requires
        static_files::stamp_ok(modified),
    ensures
        r@ == date_of(modified),
{
    match modified {
        Some(stamp) => match utc::utc(stamp.seconds) {
            Some(t) => {
                proof {
                    utc::utc_time_is_unique(t, utc::at(stamp.seconds as int), stamp.seconds as int);
                }
                utc::format_minute(&t)
            },
            None => String::new(),
        },
        None => text::owned("\u{2014}"),
    }
}

/// The segments of a request path that are not empty.
pub open spec fn segments(parts: Seq<Seq<char>>) -> Seq<Seq<char>>
    decreases parts.len(),
{
    if parts.len() == 0 {
        seq![]
    } else if parts.last().len() == 0 {
        segments(parts.drop_last())
    } else {
        segments(parts.drop_last()).push(parts.last())
    }
}

/// The link to the directory that the first `n` segments name.
pub open spec fn crumb_href(s: Seq<Seq<char>>, n: int) -> Seq<char>
    decreases n,
{
    if n <= 0 {
        "/"@
    } else {
        crumb_href(s, n - 1) + s[n - 1] + "/"@
    }
}

/// The trail of links for the first `n` segments.
pub open spec fn crumb_trail(s: Seq<Seq<char>>, n: int) -> Seq<char>
    decreases n,
{
    if n <= 0 {
        "<a href=\"/\">/</a>"@
    } else if n == s.len() {
        crumb_trail(s, n - 1) + "<span>"@ + error_pages::html(s[n - 1]) + "</span>"@
    } else {
        crumb_trail(s, n - 1) + "<a href=\""@ + error_pages::html(crumb_href(s, n)) + "\">"@ + error_pages::html(
            s[n - 1],
        ) + "</a><i>/</i>"@
    }
}

/// The trail of links to a request path and its parents.
pub open spec fn crumbs_of(request_path: Seq<char>) -> Seq<char> {
    let s = segments(text::pieces(request_path, '/'));
    crumb_trail(s, s.len() as int)
}

fn path_segments<'a>(path: &'a [char]) -> (r: Vec<&'a [char]>)
    ensures
        r@.len() == segments(text::pieces(path@, '/')).len(),
        forall|i: int| 0 <= i < r@.len() ==> (#[trigger] r@[i])@ == segments(text::pieces(path@, '/'))[i],
{
    let parts = text::split(path, '/');
    let ghost all = text::pieces(path@, '/');
    let mut out: Vec<&'a [char]> = Vec::new();
    let mut i: usize = 0;
    while i < parts.len()
        invariant
            i <= parts@.len(),
            all == text::pieces(path@, '/'),
            parts@.len() == all.len(),
            forall|j: int| 0 <= j < parts@.len() ==> (#[trigger] parts@[j])@ == all[j],
            out@.len() == segments(all.take(i as int)).len(),
            forall|j: int| 0 <= j < out@.len() ==> (#[trigger] out@[j])@ == segments(all.take(i as int))[j],
        decreases parts@.len() - i,
    {
        assert(all.take(i + 1).drop_last() =~= all.take(i as int));
        if parts[i].len() > 0 {
            out.push(parts[i]);
        }
        i = i + 1;
    }
    assert(all.take(i as int) =~= all);
    out
}

pub fn breadcrumbs(request_path: &str) -> (r: String)
    ensures
        r@ == crumbs_of(request_path@),
{
    let p = text::chars_of(request_path);
    let parts = path_segments(p.as_slice());
    let ghost s = segments(text::pieces(request_path@, '/'));
    let mut html = text::owned("<a href=\"/\">/</a>");
    let mut href = text::owned("/");
    let mut i: usize = 0;
    while i < parts.len()
        invariant
            i <= parts@.len(),
            p@ == request_path@,
            s == segments(text::pieces(request_path@, '/')),
            parts@.len() == s.len(),
            forall|j: int| 0 <= j < parts@.len() ==> (#[trigger] parts@[j])@ == s[j],
            html@ == crumb_trail(s, i as int),
            href@ == crumb_href(s, i as int),
        decreases parts@.len() - i,
    {
        let segment = text::string_of(parts[i]);
        href.push_str(segment.as_str());
        href.push_str("/");
        let shown = error_pages::html_escape(segment.as_str());
        if i + 1 == parts.len() {
            html.push_str("<span>");
            html.push_str(shown.as_str());
            html.push_str("</span>");
        } else {
            html.push_str("<a href=\"");
            html.push_str(error_pages::html_escape(href.as_str()).as_str());
            html.push_str("\">");
            html.push_str(shown.as_str());
            html.push_str("</a><i>/</i>");
        }
        i = i + 1;
    }
    html
}

pub const LINK_MARK: &'static str = r##"<span class=lt><svg viewBox="0 0 24 24" fill="none" stroke="currentColor" stroke-width="2"><path d="M10 13a5 5 0 0 0 7.5.5l3-3a5 5 0 0 0-7-7l-1.7 1.7M14 11a5 5 0 0 0-7.5-.5l-3 3a5 5 0 0 0 7 7l1.7-1.7"/></svg>"##;

pub const PAGE_HEAD: &'static str = r##"<!doctype html><html lang=en><meta charset=utf-8><meta name=viewport content="width=device-width,initial-scale=1"><title>Index of "##;

pub const PAGE_TOP: &'static str = r##"</title><style>
:root{--bg:#f4f6fa;--panel:#fff;--text:#1c2433;--muted:#6b7686;--line:#e5e9f1;--accent:#2563c9;--accent-soft:#e8f0fd;--hover:#f4f7fc;--shadow:0 1px 3px rgba(16,24,40,.08),0 1px 2px rgba(16,24,40,.04)}
@media(prefers-color-scheme:dark){:root{--bg:#0f131a;--panel:#181e29;--text:#e6eaf2;--muted:#8b95a7;--line:#293142;--accent:#6ba3f5;--accent-soft:#1d2b45;--hover:#1f2734;--shadow:0 1px 3px rgba(0,0,0,.4)}}
*{box-sizing:border-box}body{margin:0;background:var(--bg);color:var(--text);font:14.5px/1.55 system-ui,-apple-system,"Segoe UI",sans-serif}
header.top{background:var(--panel);border-bottom:1px solid var(--line);padding:.8rem 1.25rem;display:flex;align-items:center;gap:.7rem}
header.top svg{width:26px;height:26px;color:var(--accent);flex:none}
nav.crumbs{font-size:1.02rem;font-weight:600;word-break:break-all;min-width:0}nav.crumbs a{color:var(--accent);text-decoration:none}nav.crumbs a:hover{text-decoration:underline}nav.crumbs i{font-style:normal;color:var(--muted);margin:0 .12em}nav.crumbs span{color:var(--text)}
main{max-width:68rem;margin:1.5rem auto 4rem;padding:0 1.25rem}
.card{background:var(--panel);border:1px solid var(--line);border-radius:12px;box-shadow:var(--shadow);overflow:hidden}
.toolbar{display:flex;align-items:center;gap:.8rem;padding:.75rem 1rem;border-bottom:1px solid var(--line);flex-wrap:wrap}
.toolbar input{flex:1;min-width:10rem;background:var(--bg);color:var(--text);border:1px solid var(--line);border-radius:8px;padding:.45rem .75rem;font:inherit;outline:none}
.toolbar input:focus{border-color:var(--accent);box-shadow:0 0 0 3px var(--accent-soft)}
.badge{background:var(--accent-soft);color:var(--accent);font-size:.78rem;font-weight:600;border-radius:999px;padding:.2rem .65rem;white-space:nowrap}
table{width:100%;border-collapse:collapse}
thead th{position:sticky;top:0;background:var(--panel);text-align:left;font-size:.72rem;letter-spacing:.07em;text-transform:uppercase;color:var(--muted);font-weight:600;padding:.6rem 1rem;border-bottom:1px solid var(--line)}
tbody td{padding:0;border-bottom:1px solid var(--line)}tbody tr:last-child td{border-bottom:0}tbody tr:hover{background:var(--hover)}
td a{display:inline-block;padding:.5rem 0 .5rem 1rem;color:var(--text);text-decoration:none;word-break:break-all}
td a:hover{color:var(--accent)}
tr.d td a{font-weight:600}svg.ic{width:18px;height:18px;vertical-align:-3.5px;margin-right:.55em;color:var(--muted);flex:none}tr.d svg.ic{color:var(--accent)}
span.lt{color:var(--muted);font-size:.85em;margin-left:.5em;word-break:break-all}span.lt svg{width:12px;height:12px;vertical-align:-1.5px;margin-right:.25em}
td.s,td.m{padding:.5rem 1rem;color:var(--muted);white-space:nowrap;font-variant-numeric:tabular-nums}td.s{text-align:right}
th.s{text-align:right}th.s,td.s{width:7.5rem}th.m,td.m{width:10rem}
footer{display:flex;justify-content:space-between;align-items:center;color:var(--muted);font-size:.83rem;margin-top:1rem;padding:0 .25rem}
a.btn{color:var(--accent);text-decoration:none;font-weight:600;border:1px solid var(--line);background:var(--panel);border-radius:8px;padding:.4rem .9rem;box-shadow:var(--shadow)}a.btn:hover{border-color:var(--accent)}
@media(max-width:640px){th.m,td.m{display:none}}
</style><body>
<svg style=display:none xmlns="http://www.w3.org/2000/svg"><defs>
<symbol id=i-up viewBox="0 0 24 24" fill=none stroke=currentColor stroke-width=1.8 stroke-linecap=round stroke-linejoin=round><path d="M3 8V6a2 2 0 0 1 2-2h4l2 2h8a2 2 0 0 1 2 2v10a2 2 0 0 1-2 2H5a2 2 0 0 1-2-2V8z"/><path d="M12 16v-5m0 0-2.5 2.5M12 11l2.5 2.5"/></symbol>
<symbol id=i-folder viewBox="0 0 24 24" fill=none stroke=currentColor stroke-width=1.8 stroke-linecap=round stroke-linejoin=round><path d="M3 8V6a2 2 0 0 1 2-2h4l2 2h8a2 2 0 0 1 2 2v10a2 2 0 0 1-2 2H5a2 2 0 0 1-2-2V8z"/></symbol>
<symbol id=i-file viewBox="0 0 24 24" fill=none stroke=currentColor stroke-width=1.8 stroke-linecap=round stroke-linejoin=round><path d="M14 3H7a2 2 0 0 0-2 2v14a2 2 0 0 0 2 2h10a2 2 0 0 0 2-2V8l-5-5z"/><path d="M14 3v5h5"/></symbol>
<symbol id=i-doc viewBox="0 0 24 24" fill=none stroke=currentColor stroke-width=1.8 stroke-linecap=round stroke-linejoin=round><path d="M14 3H7a2 2 0 0 0-2 2v14a2 2 0 0 0 2 2h10a2 2 0 0 0 2-2V8l-5-5z"/><path d="M14 3v5h5M9 13h6M9 17h6"/></symbol>
<symbol id=i-image viewBox="0 0 24 24" fill=none stroke=currentColor stroke-width=1.8 stroke-linecap=round stroke-linejoin=round><rect x=4 y=4 width=16 height=16 rx=2/><circle cx=9.5 cy=9.5 r=1.6/><path d="m5 18 5-5 3 3 2.5-2.5L20 18"/></symbol>
<symbol id=i-video viewBox="0 0 24 24" fill=none stroke=currentColor stroke-width=1.8 stroke-linecap=round stroke-linejoin=round><rect x=3.5 y=5 width=17 height=14 rx=2.5/><path d="m10.5 9.5 4.5 2.5-4.5 2.5v-5z"/></symbol>
<symbol id=i-audio viewBox="0 0 24 24" fill=none stroke=currentColor stroke-width=1.8 stroke-linecap=round stroke-linejoin=round><path d="M9 18V6l10-2v12"/><circle cx=6.6 cy=18 r=2.4/><circle cx=16.6 cy=16 r=2.4/></symbol>
<symbol id=i-archive viewBox="0 0 24 24" fill=none stroke=currentColor stroke-width=1.8 stroke-linecap=round stroke-linejoin=round><path d="M4 8V6a1.5 1.5 0 0 1 1.5-1.5h13A1.5 1.5 0 0 1 20 6v2M4 8h16v10a2 2 0 0 1-2 2H6a2 2 0 0 1-2-2V8z"/><path d="M10 12h4"/></symbol>
<symbol id=i-code viewBox="0 0 24 24" fill=none stroke=currentColor stroke-width=1.8 stroke-linecap=round stroke-linejoin=round><path d="m9 8-5 4 5 4M15 8l5 4-5 4"/></symbol>
<symbol id=i-font viewBox="0 0 24 24" fill=none stroke=currentColor stroke-width=1.8 stroke-linecap=round stroke-linejoin=round><path d="M6 19 12 5l6 14M8.4 14h7.2"/></symbol>
</defs></svg>
<header class=top><svg viewBox="0 0 48 48" fill="none" stroke="currentColor" stroke-width="2.5" stroke-linecap="round" stroke-linejoin="round" aria-hidden="true"><path d="M24 4 6 11v11c0 10.5 7.7 18.9 18 22 10.3-3.1 18-11.5 18-22V11L24 4z"/><path d="M16 24h12m0 0-4-4m4 4-4 4"/></svg><nav class=crumbs>"##;

pub const PAGE_TOOLS: &'static str = r##"</nav></header>
<main><div class=card>
<div class=toolbar><input id=q type=search placeholder="Filter this page&#8230;" autocomplete=off><span class=badge>"##;

pub const PAGE_BADGE: &'static str = r##" folders</span><span class=badge>"##;

pub const PAGE_TABLE: &'static str = r##" files</span></div>
<table><thead><tr><th>Name</th><th class=s>Size</th><th class=m>Modified</th></tr></thead><tbody id=rows>"##;

pub const PAGE_FOOT: &'static str = r##"</tbody></table>
</div><footer><span>"##;

pub const PAGE_TAIL: &'static str = r##"</footer></main>
<script>const q=document.getElementById('q');q.addEventListener('input',()=>{const v=q.value.toLowerCase();for(const r of document.querySelectorAll('#rows tr'))r.style.display=(r.dataset.n===undefined||r.dataset.n.includes(v))?'':'none'});</script>
</body></html>"##;

pub const PARENT_ROW: &'static str = "<tr class=d><td><a href=\"../\"><svg class=ic><use href=\"#i-up\"/></svg>..</a></td><td class=s>\u{2014}</td><td class=m>\u{2014}</td></tr>";

pub open spec fn suffix_of(e: ListedEntry) -> Seq<char> {
    if e.is_dir {
        "/"@
    } else {
        ""@
    }
}

pub open spec fn link_note_of(e: ListedEntry) -> Seq<char> {
    match e.link_target {
        Some(target) => LINK_MARK@ + error_pages::html(target@) + "</span>"@,
        None => ""@,
    }
}

/// The table row of an entry: every text of it is escaped.
pub open spec fn row_of(e: ListedEntry) -> Seq<char> {
    "<tr class="@ + (if e.is_dir {
        "d"@
    } else {
        "f"@
    }) + " data-n=\""@ + error_pages::html(text::lowercased(e.name@)) + "\"><td><a href=\""@ + static_files::url(e.name@)
        + suffix_of(e) + "\"><svg class=ic><use href=\"#i-"@ + static_files::icon_of(e.name@, e.is_dir)
        + "\"/></svg>"@ + error_pages::html(e.name@) + suffix_of(e) + "</a>"@ + link_note_of(e)
        + "</td><td class=s>"@ + (if e.is_dir {
        "\u{2014}"@
    } else {
        e.size@
    }) + "</td><td class=m>"@ + date_of(e.modified) + "</td></tr>"@
}

pub open spec fn rows_of(entries: Seq<ListedEntry>) -> Seq<char>
    decreases entries.len(),
{
    if entries.len() == 0 {
        ""@
    } else {
        rows_of(entries.drop_last()) + row_of(entries.last())
    }
}

/// Which part of the directory the page shows, if not all of it.
pub open spec fn range_note_of(l: Listing) -> Seq<char> {
    let total = l.directories + l.files;
    let shown = l.entries@.len();
    if total > shown {
        "Showing "@ + text::decimal(l.start_ordinal as nat) + "&#8202;\u{2013}&#8202;"@ + text::decimal(
            (l.start_ordinal + (if shown > 0 {
                shown - 1
            } else {
                0
            })) as nat,
        ) + " of "@ + text::decimal(total as nat)
    } else {
        ""@
    }
}

pub open spec fn next_link_of(l: Listing) -> Seq<char> {
    match l.next_after {
        Some(cursor) => "<a class=\"btn next\" href=\"?after="@ + static_files::url(cursor@)
            + "\">Next page &rarr;</a>"@,
        None => ""@,
    }
}

pub open spec fn page_of(l: Listing, request_path: Seq<char>) -> Seq<char> {
    PAGE_HEAD@ + error_pages::html(request_path) + PAGE_TOP@ + crumbs_of(request_path) + PAGE_TOOLS@ + text::decimal(
        l.directories as nat,
    ) + PAGE_BADGE@ + text::decimal(l.files as nat) + PAGE_TABLE@ + (if request_path != "/"@ {
        PARENT_ROW@
    } else {
        ""@
    }) + rows_of(l.entries@) + PAGE_FOOT@ + range_note_of(l) + "</span>"@ + next_link_of(l) + PAGE_TAIL@
}

fn push_row(out: &mut String, e: &ListedEntry)
    requires
        static_files::stamp_ok(e.modified),
    ensures
        final(out)@ == old(out)@ + row_of(*e),
{
    let suffix = if e.is_dir {
        "/"
    } else {
        ""
    };
    let note = match &e.link_target {
        Some(target) => {
            let mut n = text::owned(LINK_MARK);
            n.push_str(error_pages::html_escape(target.as_str()).as_str());
            n.push_str("</span>");
            n
        },
        None => text::owned(""),
    };
    let mut row = text::owned("<tr class=");
    row.push_str(
        if e.is_dir {
            "d"
        } else {
            "f"
        },
    );
    row.push_str(" data-n=\"");
    row.push_str(error_pages::html_escape(text::to_lowercase(e.name.as_str()).as_str()).as_str());
    row.push_str("\"><td><a href=\"");
    row.push_str(static_files::url_escape(e.name.as_str()).as_str());
    row.push_str(suffix);
    row.push_str("\"><svg class=ic><use href=\"#i-");
    row.push_str(static_files::icon_for(e.name.as_str(), e.is_dir));
    row.push_str("\"/></svg>");
    row.push_str(error_pages::html_escape(e.name.as_str()).as_str());
    row.push_str(suffix);
    row.push_str("</a>");
    row.push_str(note.as_str());
    row.push_str("</td><td class=s>");
    if e.is_dir {
        row.push_str("\u{2014}");
    } else {
        row.push_str(e.size.as_str());
    }
    row.push_str("</td><td class=m>");
    row.push_str(listing_date(e.modified).as_str());
    row.push_str("</td></tr>");
    out.push_str(row.as_str());
}

/// The page that lists a directory. Names, paths and link targets are
/// escaped.
pub fn directory_page(listing: &Listing, request_path: &str) -> (r: String)
    requires
        listing_ok(*listing),
    ensures
        r@ == page_of(*listing, request_path@),
{
    let mut rows = text::owned("");
    let mut i: usize = 0;
    assert(listing.entries@.take(0) =~= seq![]);
    while i < listing.entries.len()
        invariant
            i <= listing.entries@.len(),
            listing_ok(*listing),
            rows@ == rows_of(listing.entries@.take(i as int)),
        decreases listing.entries@.len() - i,
    {
        assert(listing.entries@.take(i + 1).drop_last() =~= listing.entries@.take(i as int));
        push_row(&mut rows, &listing.entries[i]);
        i = i + 1;
    }
    assert(listing.entries@.take(i as int) =~= listing.entries@);
    let total = listing.directories + listing.files;
    let shown = listing.entries.len();
    let note = if total > shown {
        let last = if shown > 0 {
            listing.start_ordinal + (shown - 1)
        } else {
            listing.start_ordinal
        };
        let mut n = text::owned("Showing ");
        text::push_decimal(&mut n, listing.start_ordinal as u64);
        n.push_str("&#8202;\u{2013}&#8202;");
        text::push_decimal(&mut n, last as u64);
        n.push_str(" of ");
        text::push_decimal(&mut n, total as u64);
        n
    } else {
        text::owned("")
    };
    let next = match &listing.next_after {
        Some(cursor) => {
            let mut n = text::owned("<a class=\"btn next\" href=\"?after=");
            n.push_str(static_files::url_escape(cursor.as_str()).as_str());
            n.push_str("\">Next page &rarr;</a>");
            n
        },
        None => text::owned(""),
    };
    let mut out = text::owned(PAGE_HEAD);
    out.push_str(error_pages::html_escape(request_path).as_str());
    out.push_str(PAGE_TOP);
    out.push_str(breadcrumbs(request_path).as_str());
    out.push_str(PAGE_TOOLS);
    text::push_decimal(&mut out, listing.directories as u64);
    out.push_str(PAGE_BADGE);
    text::push_decimal(&mut out, listing.files as u64);
    out.push_str(PAGE_TABLE);
    if !text::str_eq(request_path, "/") {
        out.push_str(PARENT_ROW);
    } else {
        out.push_str("");
    }
    out.push_str(rows.as_str());
    out.push_str(PAGE_FOOT);
    out.push_str(note.as_str());
    out.push_str("</span>");
    out.push_str(next.as_str());
    out.push_str(PAGE_TAIL);
    out
}

/// Every entry of a listing has its row, in order.
pub proof fn every_entry_has_its_row(entries: Seq<ListedEntry>, i: int)
    requires
        0 <= i < entries.len(),
    ensures
        text::begins(rows_of(entries), rows_of(entries.take(i)) + row_of(entries[i])),
    decreases entries.len(),
{
    let t = entries.drop_last();
    let all = rows_of(entries);
    if i == t.len() {
        assert(entries.take(i) =~= t);
        assert(all.take(all.len() as int) =~= all);
    } else {
        every_entry_has_its_row(t, i);
        assert(t.take(i) =~= entries.take(i));
        assert(t[i] == entries[i]);
        let p = rows_of(entries.take(i)) + row_of(entries[i]);
        assert(all.take(p.len() as int) =~= rows_of(t).take(p.len() as int));
    }
}

/// Every part of a path that holds something is a segment of it, and nothing
/// else is.
pub proof fn every_part_of_a_path_is_a_segment(parts: Seq<Seq<char>>, part: Seq<char>)
    ensures
        segments(parts).contains(part) <==> parts.contains(part) && part.len() > 0,
    decreases parts.len(),
{
    if parts.len() > 0 {
        let t = parts.drop_last();
        every_part_of_a_path_is_a_segment(t, part);
        let a = segments(t);
        let b = segments(parts);
        assert(parts[parts.len() - 1] == parts.last());
        if a.contains(part) {
            let k = choose|k: int| 0 <= k < a.len() && a[k] == part;
            assert(b[k] == part);
        }
        if t.contains(part) {
            let k = choose|k: int| 0 <= k < t.len() && t[k] == part;
            assert(parts[k] == part);
        }
        if parts.contains(part) && !t.contains(part) {
            let k = choose|k: int| 0 <= k < parts.len() && parts[k] == part;
            if k < t.len() {
                assert(t[k] == part);
            }
            if part.len() > 0 {
                assert(b[b.len() - 1] == part);
            }
        }
        if b.contains(part) && !a.contains(part) {
            let k = choose|k: int| 0 <= k < b.len() && b[k] == part;
            if k < a.len() {
                assert(a[k] == part);
            }
        }
    }
}

/// Every directory among the entries counts as one, and nothing else does.
pub proof fn every_directory_counts(s: Seq<NamedEntry>, e: NamedEntry)
    ensures
        directory_count(Seq::empty()) == 0,
        e.is_dir ==> directory_count(s.push(e)) == directory_count(s) + 1,
        !e.is_dir ==> directory_count(s.push(e)) == directory_count(s),
{
    assert(s.push(e).drop_last() =~= s);
}

/// The row of an entry links to it: by its percent-encoded name, with a slash
/// behind that of a directory.
pub proof fn a_row_links_to_its_entry(e: ListedEntry)
    ensures
        e.is_dir ==> exists|a: Seq<char>, b: Seq<char>|
            row_of(e) == #[trigger] (a + ("<a href=\""@ + static_files::url(e.name@) + "/"@ + "\">"@) + b),
        !e.is_dir ==> exists|a: Seq<char>, b: Seq<char>|
            row_of(e) == #[trigger] (a + ("<a href=\""@ + static_files::url(e.name@) + ""@ + "\">"@) + b),
{
    reveal_strlit("\"><td><a href=\"");
    reveal_strlit("\"><td>");
    reveal_strlit("<a href=\"");
    reveal_strlit("\"><svg class=ic><use href=\"#i-");
    reveal_strlit("\">");
    reveal_strlit("<svg class=ic><use href=\"#i-");
    assert("\"><td><a href=\""@ =~= "\"><td>"@ + "<a href=\""@);
    assert("\"><svg class=ic><use href=\"#i-"@ =~= "\">"@ + "<svg class=ic><use href=\"#i-"@);
    let a = "<tr class="@ + (if e.is_dir {
        "d"@
    } else {
        "f"@
    }) + " data-n=\""@ + error_pages::html(text::lowercased(e.name@)) + "\"><td>"@;
    let middle = "<a href=\""@ + static_files::url(e.name@) + suffix_of(e) + "\">"@;
    let b = "<svg class=ic><use href=\"#i-"@ + static_files::icon_of(e.name@, e.is_dir) + "\"/></svg>"@
        + error_pages::html(e.name@) + suffix_of(e) + "</a>"@ + link_note_of(e) + "</td><td class=s>"@ + (if e.is_dir {
        "\u{2014}"@
    } else {
        e.size@
    }) + "</td><td class=m>"@ + date_of(e.modified) + "</td></tr>"@;
    assert(row_of(e) =~= a + middle + b);
}

} // verus!
