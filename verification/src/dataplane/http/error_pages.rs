//! Built-in styled error pages, served by the static file server and the
//! reverse proxy's locally-generated error responses. Self-contained HTML:
//! inline CSS and an inline SVG mark, light and dark aware, no external
//! resources.
use vstd::prelude::*;
use crate::text;

verus! {

/// The page up to its title.
pub const PAGE_START: &'static str = r##"<!doctype html><html lang=en><meta charset=utf-8><meta name=viewport content="width=device-width,initial-scale=1"><title>"##;

/// The page from its title to the status heading.
pub const PAGE_STYLE: &'static str = r##"</title><style>
:root{--bg:#fafbfd;--panel:#fff;--text:#1c2433;--muted:#6b7686;--line:#e5e9f1;--accent:#2563c9}
@media(prefers-color-scheme:dark){:root{--bg:#12161e;--panel:#1a202b;--text:#e6eaf2;--muted:#8b95a7;--line:#2a3240;--accent:#6ba3f5}}
*{box-sizing:border-box}body{margin:0;min-height:100vh;display:flex;align-items:center;justify-content:center;background:var(--bg);color:var(--text);font:16px/1.6 system-ui,-apple-system,"Segoe UI",sans-serif}
main{text-align:center;padding:3rem 1.5rem;max-width:36rem}
.mark{width:64px;height:64px;margin:0 auto 1.2rem;display:block;color:var(--accent)}
h1{font-size:4rem;margin:0;font-weight:700;letter-spacing:-.02em}
h2{font-size:1.25rem;margin:.2rem 0 1rem;font-weight:600}
p{color:var(--muted);margin:0 0 1.6rem}
footer{color:var(--muted);font-size:.8rem;border-top:1px solid var(--line);padding-top:1rem;letter-spacing:.04em}
</style><body><main>
<svg class=mark viewBox="0 0 48 48" fill="none" stroke="currentColor" stroke-width="2.5" stroke-linecap="round" stroke-linejoin="round" aria-hidden="true"><path d="M24 4 6 11v11c0 10.5 7.7 18.9 18 22 10.3-3.1 18-11.5 18-22V11L24 4z"/><path d="M16 24h12m0 0-4-4m4 4-4 4"/><path d="M32 30H20m0 0 4 4m-4-4 4-4" opacity=".55"/></svg>
<h1>"##;

/// The page behind the detail line.
pub const PAGE_END: &'static str = r##"</p>
<footer>tlsproxy</footer>
</main></body></html>"##;

/// A character as HTML text.
pub open spec fn html_char(c: char) -> Seq<char> {
    if c == '&' {
        "&amp;"@
    } else if c == '<' {
        "&lt;"@
    } else if c == '>' {
        "&gt;"@
    } else if c == '"' {
        "&quot;"@
    } else {
        seq![c]
    }
}

/// A text as HTML text.
pub open spec fn html(s: Seq<char>) -> Seq<char>
    decreases s.len(),
{
    if s.len() == 0 {
        seq![]
    } else {
        html(s.drop_last()) + html_char(s.last())
    }
}

/// Writes `&`, `<`, `>` and `"` as character references.
pub fn html_escape(value: &str) -> (r: String)
    ensures
        r@ == html(value@),
{
    let s = text::chars_of(value);
    let mut out = String::new();
    let mut i: usize = 0;
    while i < s.len()
        invariant
            i <= s@.len(),
            out@ == html(s@.take(i as int)),
        decreases s@.len() - i,
    {
        let c = s[i];
        assert(s@.take(i + 1).drop_last() =~= s@.take(i as int));
        if c == '&' {
            out.push_str("&amp;");
        } else if c == '<' {
            out.push_str("&lt;");
        } else if c == '>' {
            out.push_str("&gt;");
        } else if c == '"' {
            out.push_str("&quot;");
        } else {
            let ghost before = out@;
            out.push(c);
            assert(out@ =~= before + seq![c]);
        }
        i = i + 1;
    }
    assert(s@.take(i as int) =~= s@);
    out
}

/// Escaped text holds no character that opens a tag or ends a quoted
/// attribute.
pub proof fn escaped_text_cannot_open_markup(s: Seq<char>)
    ensures
        !html(s).contains('<'),
        !html(s).contains('>'),
        !html(s).contains('"'),
    decreases s.len(),
{
    if s.len() > 0 {
        escaped_text_cannot_open_markup(s.drop_last());
        let head = html(s.drop_last());
        let tail = html_char(s.last());
        reveal_strlit("&amp;");
        reveal_strlit("&lt;");
        reveal_strlit("&gt;");
        reveal_strlit("&quot;");
        assert forall|i: int| 0 <= i < html(s).len() implies html(s)[i] != '<' && html(s)[i] != '>' && html(
            s,
        )[i] != '"' by {
            if i < head.len() {
                assert(head.contains(head[i]));
            } else {
                assert(html(s)[i] == tail[i - head.len()]);
            }
        }
    }
}

/// The standard error page.
pub open spec fn page(status: u16, reason: Seq<char>, detail: Seq<char>) -> Seq<char> {
    PAGE_START@ + text::decimal(status as nat) + " "@ + reason + PAGE_STYLE@ + text::decimal(status as nat)
        + "</h1><h2>"@ + reason + "</h2><p>"@ + html(detail) + PAGE_END@
}

/// Renders the standard error page for a status code.
pub fn render(status: u16, reason: &str, detail: &str) -> (r: String)
    ensures
        r@ == page(status, reason@, detail@),
{
    let mut out = text::owned(PAGE_START);
    text::push_decimal(&mut out, status as u64);
    out.push_str(" ");
    out.push_str(reason);
    out.push_str(PAGE_STYLE);
    text::push_decimal(&mut out, status as u64);
    out.push_str("</h1><h2>");
    out.push_str(reason);
    out.push_str("</h2><p>");
    out.push_str(html_escape(detail).as_str());
    out.push_str(PAGE_END);
    out
}

pub open spec fn detail_of(status: u16) -> Seq<char> {
    match status {
        400 => "The request could not be understood."@,
        401 => "Authentication is required to access this resource."@,
        403 => "You don't have permission to access this resource."@,
        404 => "The requested resource was not found on this server."@,
        405 => "This method is not allowed for the requested resource."@,
        416 => "The requested range cannot be satisfied."@,
        500 => "The server encountered an unexpected condition."@,
        502 => "The upstream server could not be reached."@,
        _ => "The request could not be completed."@,
    }
}

/// Standard detail line for a status when the caller has nothing specific.
pub fn default_detail(status: u16) -> (r: &'static str)
    ensures
        r@ == detail_of(status),
{
    match status {
        400 => "The request could not be understood.",
        401 => "Authentication is required to access this resource.",
        403 => "You don't have permission to access this resource.",
        404 => "The requested resource was not found on this server.",
        405 => "This method is not allowed for the requested resource.",
        416 => "The requested range cannot be satisfied.",
        500 => "The server encountered an unexpected condition.",
        502 => "The upstream server could not be reached.",
        _ => "The request could not be completed.",
    }
}

pub open spec fn reason_of(status: u16) -> Seq<char> {
    match status {
        200 => "OK"@,
        204 => "No Content"@,
        400 => "Bad Request"@,
        401 => "Unauthorized"@,
        403 => "Forbidden"@,
        404 => "Not Found"@,
        405 => "Method Not Allowed"@,
        416 => "Range Not Satisfiable"@,
        500 => "Internal Server Error"@,
        502 => "Bad Gateway"@,
        _ => "Error"@,
    }
}

/// The reason phrase of a status.
pub fn reason(status: u16) -> (r: &'static str)
    ensures
        r@ == reason_of(status),
{
    match status {
        200 => "OK",
        204 => "No Content",
        400 => "Bad Request",
        401 => "Unauthorized",
        403 => "Forbidden",
        404 => "Not Found",
        405 => "Method Not Allowed",
        416 => "Range Not Satisfiable",
        500 => "Internal Server Error",
        502 => "Bad Gateway",
        _ => "Error",
    }
}

/// Text is escaped character by character: the four that HTML gives a meaning
/// become their entities, and every other one stays.
pub proof fn text_is_escaped_character_by_character(a: Seq<char>, c: char)
    ensures
        html(Seq::empty()) == Seq::<char>::empty(),
        c == '&' ==> html(a.push(c)) == html(a) + seq!['&', 'a', 'm', 'p', ';'],
        c == '<' ==> html(a.push(c)) == html(a) + seq!['&', 'l', 't', ';'],
        c == '>' ==> html(a.push(c)) == html(a) + seq!['&', 'g', 't', ';'],
        c == '"' ==> html(a.push(c)) == html(a) + seq!['&', 'q', 'u', 'o', 't', ';'],
        c != '&' && c != '<' && c != '>' && c != '"' ==> html(a.push(c)) == html(a).push(c),
{
    reveal_strlit("&amp;");
    reveal_strlit("&lt;");
    reveal_strlit("&gt;");
    reveal_strlit("&quot;");
    assert("&amp;"@ =~= seq!['&', 'a', 'm', 'p', ';']);
    assert("&lt;"@ =~= seq!['&', 'l', 't', ';']);
    assert("&gt;"@ =~= seq!['&', 'g', 't', ';']);
    assert("&quot;"@ =~= seq!['&', 'q', 'u', 'o', 't', ';']);
    assert(a.push(c).drop_last() =~= a);
    assert(html(a) + seq![c] =~= html(a).push(c));
}

} // verus!
