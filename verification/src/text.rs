//! Text over sequences of characters.
//!
//! Functions of this module work on `&[char]`, so that a position is a
//! character index and a part of a text is a sub-slice.  The spec functions
//! say what each operation yields on `Seq<char>`.
use vstd::prelude::*;
use vstd::slice::slice_subrange;

verus! {

/// `String::push`: appends one character.
pub assume_specification[ String::push ](s: &mut String, ch: char)
    ensures
        final(s)@ == old(s)@.push(ch),
;

/// `String::push_str`: appends a whole string slice.
pub assume_specification[ String::push_str ](s: &mut String, string: &str)
    ensures
        final(s)@ == old(s)@ + string@,
;

/// The characters with the Unicode property White_Space.
pub open spec fn is_ws(c: char) -> bool {
    ||| '\u{9}' <= c <= '\u{d}'
    ||| c == ' '
    ||| c == '\u{85}'
    ||| c == '\u{a0}'
    ||| c == '\u{1680}'
    ||| '\u{2000}' <= c <= '\u{200a}'
    ||| c == '\u{2028}'
    ||| c == '\u{2029}'
    ||| c == '\u{202f}'
    ||| c == '\u{205f}'
    ||| c == '\u{3000}'
}

/// The characters of the general category Cc.
pub open spec fn is_ctl(c: char) -> bool {
    c <= '\u{1f}' || '\u{7f}' <= c <= '\u{9f}'
}

pub open spec fn is_digit(c: char) -> bool {
    '0' <= c <= '9'
}

pub open spec fn is_upper(c: char) -> bool {
    'A' <= c <= 'Z'
}

pub open spec fn is_lower(c: char) -> bool {
    'a' <= c <= 'z'
}

pub open spec fn is_alnum(c: char) -> bool {
    is_digit(c) || is_upper(c) || is_lower(c)
}

/// ASCII letters in lower case, every other character unchanged.
pub open spec fn lower_char(c: char) -> char {
    if is_upper(c) {
        (c as u32 + 32) as char
    } else {
        c
    }
}

pub open spec fn lower(s: Seq<char>) -> Seq<char> {
    s.map_values(|c: char| lower_char(c))
}

pub open spec fn trimmed_start(s: Seq<char>) -> Seq<char>
    decreases s.len(),
{
    if s.len() > 0 && is_ws(s[0]) {
        trimmed_start(s.drop_first())
    } else {
        s
    }
}

pub open spec fn trimmed_end(s: Seq<char>) -> Seq<char>
    decreases s.len(),
{
    if s.len() > 0 && is_ws(s.last()) {
        trimmed_end(s.drop_last())
    } else {
        s
    }
}

/// `s` without white space at either end.
pub open spec fn trimmed(s: Seq<char>) -> Seq<char> {
    trimmed_end(trimmed_start(s))
}

/// `s` without any `c` at its end.
pub open spec fn trimmed_end_of(s: Seq<char>, c: char) -> Seq<char>
    decreases s.len(),
{
    if s.len() > 0 && s.last() == c {
        trimmed_end_of(s.drop_last(), c)
    } else {
        s
    }
}

/// The position of the first `c` in `s`, or the length of `s` without one.
pub open spec fn first_at(s: Seq<char>, c: char) -> int
    decreases s.len(),
{
    if s.len() == 0 || s[0] == c {
        0
    } else {
        1 + first_at(s.drop_first(), c)
    }
}

pub open spec fn before(s: Seq<char>, c: char) -> Seq<char> {
    s.take(first_at(s, c))
}

pub open spec fn after(s: Seq<char>, c: char) -> Seq<char> {
    s.skip(first_at(s, c) + 1)
}

/// The position of the last `c` in `s`, or -1 without one.
pub open spec fn last_at(s: Seq<char>, c: char) -> int
    decreases s.len(),
{
    if s.len() == 0 {
        -1
    } else if s.last() == c {
        s.len() - 1
    } else {
        last_at(s.drop_last(), c)
    }
}

pub open spec fn begins(s: Seq<char>, p: Seq<char>) -> bool {
    p.len() <= s.len() && s.take(p.len() as int) == p
}

pub open spec fn finishes(s: Seq<char>, p: Seq<char>) -> bool {
    p.len() <= s.len() && s.skip(s.len() - p.len()) == p
}

/// The pieces of `s` between the occurrences of `c`.
pub open spec fn pieces(s: Seq<char>, c: char) -> Seq<Seq<char>>
    decreases s.len(),
{
    if s.contains(c) && 0 <= first_at(s, c) < s.len() {
        seq![before(s, c)] + pieces(after(s, c), c)
    } else {
        seq![s]
    }
}

/// `parts` in a row with `sep` between two neighbours.
pub open spec fn joined(parts: Seq<Seq<char>>, sep: Seq<char>) -> Seq<char>
    decreases parts.len(),
{
    if parts.len() == 0 {
        seq![]
    } else if parts.len() == 1 {
        parts[0]
    } else {
        joined(parts.drop_last(), sep) + sep + parts.last()
    }
}

pub open spec fn digit_char(d: nat) -> char {
    (48 + d) as char
}

/// The decimal notation of `n`.
pub open spec fn decimal(n: nat) -> Seq<char>
    decreases n,
{
    if n < 10 {
        seq![digit_char(n)]
    } else {
        decimal(n / 10).push(digit_char(n % 10))
    }
}

/// The decimal notation of `n`, filled with zeros on the left up to `width`.
pub open spec fn padded(n: nat, width: nat) -> Seq<char> {
    let d = decimal(n);
    if d.len() < width {
        Seq::new((width - d.len()) as nat, |i: int| '0') + d
    } else {
        d
    }
}

pub open spec fn all_digits(s: Seq<char>) -> bool {
    forall|i: int| 0 <= i < s.len() ==> is_digit(#[trigger] s[i])
}

/// The number that a row of decimal digits denotes.
pub open spec fn digits_value(s: Seq<char>) -> nat
    decreases s.len(),
{
    if s.len() == 0 {
        0
    } else {
        digits_value(s.drop_last()) * 10 + (s.last() as nat - 48) as nat
    }
}

/// What `s` denotes as an unsigned number of at most `max`: decimal digits,
/// with or without one `+` in front.
pub open spec fn unsigned(s: Seq<char>, max: nat) -> Option<nat> {
    let d = if s.len() > 0 && s[0] == '+' {
        s.skip(1)
    } else {
        s
    };
    if d.len() > 0 && all_digits(d) && digits_value(d) <= max {
        Some(digits_value(d))
    } else {
        None
    }
}

/// What `s` denotes as a number in `min..=max`: decimal digits, with or
/// without one sign in front.
pub open spec fn signed(s: Seq<char>, min: int, max: int) -> Option<int> {
    let negative = s.len() > 0 && s[0] == '-';
    let d = if s.len() > 0 && (s[0] == '+' || s[0] == '-') {
        s.skip(1)
    } else {
        s
    };
    let v = if negative {
        -(digits_value(d) as int)
    } else {
        digits_value(d) as int
    };
    if d.len() > 0 && all_digits(d) && min <= v <= max {
        Some(v)
    } else {
        None
    }
}

/// The characters of a string slice.
pub fn chars_of(s: &str) -> (r: Vec<char>)
    ensures
        r@ == s@,
{
    let mut out: Vec<char> = Vec::new();
    for c in it: s.chars()
        invariant
            it.seq() == s@,
            out@ == s@.take(it.index()),
    {
        out.push(c);
        assert(out@ =~= s@.take(it.index() + 1));
    }
    assert(s@.take(s@.len() as int) =~= s@);
    out
}

/// Appends the characters of `s` to `out`.
pub fn push_chars(out: &mut String, s: &[char])
    ensures
        final(out)@ == old(out)@ + s@,
{
    let mut i: usize = 0;
    while i < s.len()
        invariant
            i <= s@.len(),
            out@ == old(out)@ + s@.take(i as int),
        decreases s@.len() - i,
    {
        out.push(s[i]);
        assert(s@.take(i + 1) =~= s@.take(i as int).push(s@[i as int]));
        i = i + 1;
    }
    assert(s@.take(i as int) =~= s@);
}

pub fn string_of(s: &[char]) -> (r: String)
    ensures
        r@ == s@,
{
    let mut out = String::new();
    push_chars(&mut out, s);
    assert(out@ =~= s@);
    out
}

/// An owned copy of a string slice.
pub fn owned(s: &str) -> (r: String)
    ensures
        r@ == s@,
{
    s.to_owned()
}

pub fn is_whitespace(c: char) -> (r: bool)
    ensures
        r == is_ws(c),
{
    ('\u{9}' <= c && c <= '\u{d}') || c == ' ' || c == '\u{85}' || c == '\u{a0}' || c == '\u{1680}'
        || ('\u{2000}' <= c && c <= '\u{200a}') || c == '\u{2028}' || c == '\u{2029}' || c
        == '\u{202f}' || c == '\u{205f}' || c == '\u{3000}'
}

pub fn is_control(c: char) -> (r: bool)
    ensures
        r == is_ctl(c),
{
    c <= '\u{1f}' || ('\u{7f}' <= c && c <= '\u{9f}')
}

pub fn is_ascii_digit(c: char) -> (r: bool)
    ensures
        r == is_digit(c),
{
    '0' <= c && c <= '9'
}

pub fn is_ascii_alphanumeric(c: char) -> (r: bool)
    ensures
        r == is_alnum(c),
{
    ('0' <= c && c <= '9') || ('A' <= c && c <= 'Z') || ('a' <= c && c <= 'z')
}

pub fn to_lower_char(c: char) -> (r: char)
    ensures
        r == lower_char(c),
{
    if 'A' <= c && c <= 'Z' {
        ((c as u8) + 32u8) as char
    } else {
        c
    }
}

/// The ASCII letters of `s` in lower case.
pub fn to_lower(s: &[char]) -> (r: Vec<char>)
    ensures
        r@ == lower(s@),
{
    let mut out: Vec<char> = Vec::new();
    let mut i: usize = 0;
    while i < s.len()
        invariant
            i <= s@.len(),
            out@ == lower(s@.take(i as int)),
        decreases s@.len() - i,
    {
        out.push(to_lower_char(s[i]));
        assert(lower(s@.take(i + 1)) =~= lower(s@.take(i as int)).push(lower_char(s@[i as int])));
        i = i + 1;
    }
    assert(s@.take(i as int) =~= s@);
    out
}

/// Whether the two texts have the same characters.
pub fn same(a: &[char], b: &[char]) -> (r: bool)
    ensures
        r == (a@ == b@),
{
    if a.len() != b.len() {
        return false;
    }
    let mut i: usize = 0;
    while i < a.len()
        invariant
            i <= a@.len(),
            a@.len() == b@.len(),
            forall|k: int| 0 <= k < i ==> a@[k] == b@[k],
        decreases a@.len() - i,
    {
        if a[i] != b[i] {
            assert(a@[i as int] != b@[i as int]);
            return false;
        }
        i = i + 1;
    }
    assert(a@ =~= b@);
    true
}

/// Whether the string slice `a` has the characters of `b`.
pub fn str_eq(a: &str, b: &str) -> (r: bool)
    ensures
        r == (a@ == b@),
{
    let x = chars_of(a);
    let y = chars_of(b);
    same(x.as_slice(), y.as_slice())
}

/// Whether two texts agree up to the case of their ASCII letters.
pub fn eq_ignore_case(a: &str, b: &str) -> (r: bool)
    ensures
        r == (lower(a@) == lower(b@)),
{
    let x = to_lower(chars_of(a).as_slice());
    let y = to_lower(chars_of(b).as_slice());
    same(x.as_slice(), y.as_slice())
}

pub fn trim_start(s: &[char]) -> (r: &[char])
    ensures
        r@ == trimmed_start(s@),
{
    let mut i: usize = 0;
    assert(s@.skip(0) =~= s@);
    while i < s.len() && is_whitespace(s[i])
        invariant
            i <= s@.len(),
            trimmed_start(s@.skip(i as int)) == trimmed_start(s@),
        decreases s@.len() - i,
    {
        assert(s@.skip(i as int).drop_first() =~= s@.skip(i + 1));
        i = i + 1;
    }
    slice_subrange(s, i, s.len())
}

pub fn trim_end(s: &[char]) -> (r: &[char])
    ensures
        r@ == trimmed_end(s@),
{
    let mut n: usize = s.len();
    assert(s@.take(n as int) =~= s@);
    while n > 0 && is_whitespace(s[n - 1])
        invariant
            n <= s@.len(),
            trimmed_end(s@.take(n as int)) == trimmed_end(s@),
        decreases n,
    {
        assert(s@.take(n as int).drop_last() =~= s@.take(n - 1));
        n = n - 1;
    }
    slice_subrange(s, 0, n)
}

pub fn trim(s: &[char]) -> (r: &[char])
    ensures
        r@ == trimmed(s@),
{
    trim_end(trim_start(s))
}

pub fn trim_end_of(s: &[char], c: char) -> (r: &[char])
    ensures
        r@ == trimmed_end_of(s@, c),
{
    let mut n: usize = s.len();
    assert(s@.take(n as int) =~= s@);
    while n > 0 && s[n - 1] == c
        invariant
            n <= s@.len(),
            trimmed_end_of(s@.take(n as int), c) == trimmed_end_of(s@, c),
        decreases n,
    {
        assert(s@.take(n as int).drop_last() =~= s@.take(n - 1));
        n = n - 1;
    }
    slice_subrange(s, 0, n)
}

/// `first_at` is the first position of `c`.
pub proof fn lemma_first_at(s: Seq<char>, c: char)
    ensures
        0 <= first_at(s, c) <= s.len(),
        first_at(s, c) < s.len() ==> s[first_at(s, c)] == c,
        forall|k: int| 0 <= k < first_at(s, c) ==> s[k] != c,
        first_at(s, c) == s.len() <==> !s.contains(c),
    decreases s.len(),
{
    if s.len() > 0 && s[0] != c {
        let t = s.drop_first();
        lemma_first_at(t, c);
        assert forall|k: int| 0 <= k < first_at(s, c) implies s[k] != c by {
            if k > 0 {
                assert(t[k - 1] == s[k]);
            }
        }
        if s.contains(c) {
            let k = choose|k: int| 0 <= k < s.len() && s[k] == c;
            assert(t[k - 1] == c);
        }
        if t.contains(c) {
            let k = choose|k: int| 0 <= k < t.len() && t[k] == c;
            assert(s[k + 1] == c);
        }
    } else if s.len() > 0 {
        assert(s.contains(c));
    }
}

/// A position of `c` before which there is no `c` is `first_at`.
pub proof fn lemma_first_at_is(s: Seq<char>, c: char, i: int)
    requires
        0 <= i <= s.len(),
        forall|k: int| 0 <= k < i ==> s[k] != c,
        i < s.len() ==> s[i] == c,
    ensures
        first_at(s, c) == i,
{
    lemma_first_at(s, c);
}

pub fn find(s: &[char], c: char) -> (r: usize)
    ensures
        r == first_at(s@, c),
        r <= s@.len(),
        r < s@.len() ==> s@[r as int] == c,
        r < s@.len() <==> s@.contains(c),
{
    let mut i: usize = 0;
    while i < s.len() && s[i] != c
        invariant
            i <= s@.len(),
            forall|k: int| 0 <= k < i ==> s@[k] != c,
        decreases s@.len() - i,
    {
        i = i + 1;
    }
    proof {
        lemma_first_at_is(s@, c, i as int);
        lemma_first_at(s@, c);
    }
    i
}

/// `last_at` is the last position of `c`.
pub proof fn lemma_last_at(s: Seq<char>, c: char)
    ensures
        -1 <= last_at(s, c) < s.len(),
        last_at(s, c) >= 0 ==> s[last_at(s, c)] == c,
        forall|k: int| last_at(s, c) < k < s.len() ==> s[k] != c,
    decreases s.len(),
{
    if s.len() > 0 && s.last() != c {
        let t = s.drop_last();
        lemma_last_at(t, c);
        assert forall|k: int| last_at(s, c) < k < s.len() implies s[k] != c by {
            if k < t.len() {
                assert(t[k] == s[k]);
            }
        }
    }
}

/// The position of the last `c`, if there is one.
pub fn rfind(s: &[char], c: char) -> (r: Option<usize>)
    ensures
        r is None <==> last_at(s@, c) == -1,
        r is Some ==> r->0 == last_at(s@, c) && r->0 < s@.len() && r->0 < usize::MAX,
{
    let mut n: usize = s.len();
    while n > 0
        invariant
            n <= s@.len(),
            forall|k: int| n <= k < s@.len() ==> s@[k] != c,
        decreases n,
    {
        n = n - 1;
        if s[n] == c {
            proof {
                lemma_last_at(s@, c);
            }
            return Some(n);
        }
    }
    proof {
        lemma_last_at(s@, c);
    }
    None
}

pub fn starts_with(s: &[char], p: &[char]) -> (r: bool)
    ensures
        r == begins(s@, p@),
{
    if s.len() < p.len() {
        return false;
    }
    same(slice_subrange(s, 0, p.len()), p)
}

pub fn ends_with(s: &[char], p: &[char]) -> (r: bool)
    ensures
        r == finishes(s@, p@),
{
    if s.len() < p.len() {
        return false;
    }
    same(slice_subrange(s, s.len() - p.len(), s.len()), p)
}

/// The pieces of `s` between the occurrences of `c`.
pub fn split<'a>(s: &'a [char], c: char) -> (r: Vec<&'a [char]>)
    ensures
        r@.map_values(|x: &[char]| x@) == pieces(s@, c),
        r@.len() == pieces(s@, c).len(),
        forall|i: int| 0 <= i < r@.len() ==> (#[trigger] r@[i])@ == pieces(s@, c)[i],
{
    let ghost f = |x: &'a [char]| x@;
    let mut out: Vec<&'a [char]> = Vec::new();
    let mut rest: &'a [char] = s;
    assert(out@.map_values(f) =~= seq![]);
    assert(seq![] + pieces(s@, c) =~= pieces(s@, c));
    loop
        invariant
            out@.map_values(f) + pieces(rest@, c) == pieces(s@, c),
            f == (|x: &'a [char]| x@),
        decreases rest@.len(),
    {
        let k = find(rest, c);
        if k == rest.len() {
            out.push(rest);
            proof {
                lemma_first_at(rest@, c);
                assert(pieces(rest@, c) == seq![rest@]);
                assert(out@.map_values(f) =~= pieces(s@, c));
                assert forall|i: int| 0 <= i < out@.len() implies (#[trigger] out@[i])@ == pieces(s@, c)[i] by {
                    assert(out@.map_values(f)[i] == out@[i]@);
                }
            }
            return out;
        }
        let head = slice_subrange(rest, 0, k);
        let tail = slice_subrange(rest, k + 1, rest.len());
        proof {
            lemma_first_at(rest@, c);
            assert(head@ =~= before(rest@, c));
            assert(tail@ =~= after(rest@, c));
            assert(pieces(rest@, c) == seq![head@] + pieces(tail@, c));
        }
        let ghost done = out@;
        out.push(head);
        proof {
            assert(out@.map_values(f) =~= done.map_values(f).push(head@));
            assert(done.map_values(f) + (seq![head@] + pieces(tail@, c)) =~= done.map_values(f).push(head@) + pieces(tail@, c));
        }
        rest = tail;
    }
}

/// The decimal notation of `n`, appended to `out`.
pub fn push_decimal(out: &mut String, n: u64)
    ensures
        final(out)@ == old(out)@ + decimal(n as nat),
    decreases n,
{
    if n >= 10 {
        push_decimal(out, n / 10);
    }
    let d: u8 = (n % 10) as u8;
    out.push((48u8 + d) as char);
    assert(out@ =~= old(out)@ + decimal(n as nat));
}

pub fn decimal_string(n: u64) -> (r: String)
    ensures
        r@ == decimal(n as nat),
{
    let mut out = String::new();
    push_decimal(&mut out, n);
    assert(out@ =~= decimal(n as nat));
    out
}

/// The decimal notation of `n`, filled with zeros up to `width` digits.
pub fn push_padded(out: &mut String, n: u64, width: usize)
    ensures
        final(out)@ == old(out)@ + padded(n as nat, width as nat),
{
    let d = chars_of(decimal_string(n).as_str());
    let ghost zeros = |i: int| '0';
    let mut i: usize = d.len();
    let ghost start = out@;
    assert(Seq::new(0, zeros) =~= Seq::<char>::empty());
    while i < width
        invariant
            d@.len() <= i,
            i <= width || i == d@.len(),
            out@ == start + Seq::new((i - d@.len()) as nat, zeros),
            zeros == (|i: int| '0'),
        decreases width - i,
    {
        out.push('0');
        assert(Seq::new((i + 1 - d@.len()) as nat, zeros) =~= Seq::new((i - d@.len()) as nat, zeros).push('0'));
        i = i + 1;
    }
    push_chars(out, d.as_slice());
    assert(out@ =~= start + padded(n as nat, width as nat));
}

fn all_ascii_digits(s: &[char]) -> (r: bool)
    ensures
        r == all_digits(s@),
{
    let mut i: usize = 0;
    while i < s.len()
        invariant
            i <= s@.len(),
            forall|k: int| 0 <= k < i ==> is_digit(#[trigger] s@[k]),
        decreases s@.len() - i,
    {
        if !is_ascii_digit(s[i]) {
            return false;
        }
        i = i + 1;
    }
    true
}

/// The value of a row of digits, if it fits.
fn digits_to_u64(s: &[char]) -> (r: Option<u64>)
    requires
        all_digits(s@),
    ensures
        match r {
            Some(v) => v == digits_value(s@),
            None => digits_value(s@) > u64::MAX,
        },
{
    let mut acc: Option<u64> = Some(0);
    let mut i: usize = 0;
    while i < s.len()
        invariant
            i <= s@.len(),
            all_digits(s@),
            match acc {
                Some(v) => v == digits_value(s@.take(i as int)),
                None => digits_value(s@.take(i as int)) > u64::MAX,
            },
        decreases s@.len() - i,
    {
        proof {
            assert(is_digit(s@[i as int]));
            assert(s@.take(i + 1).drop_last() =~= s@.take(i as int));
        }
        let d: u64 = (s[i] as u64) - 48;
        acc = match acc {
            Some(v) => match v.checked_mul(10) {
                Some(w) => w.checked_add(d),
                None => None,
            },
            None => None,
        };
        i = i + 1;
    }
    assert(s@.take(i as int) =~= s@);
    acc
}

/// The unsigned number that `s` denotes.
pub fn parse_u64(s: &[char]) -> (r: Option<u64>)
    ensures
        match r {
            Some(v) => unsigned(s@, u64::MAX as nat) == Some(v as nat),
            None => unsigned(s@, u64::MAX as nat) is None,
        },
{
    let d = if s.len() > 0 && s[0] == '+' {
        slice_subrange(s, 1, s.len())
    } else {
        s
    };
    if d.len() > 0 && all_ascii_digits(d) {
        digits_to_u64(d)
    } else {
        None
    }
}

pub fn parse_u16(s: &[char]) -> (r: Option<u16>)
    ensures
        match r {
            Some(v) => unsigned(s@, u16::MAX as nat) == Some(v as nat),
            None => unsigned(s@, u16::MAX as nat) is None,
        },
{
    match parse_u64(s) {
        Some(v) => if v <= 65535 {
            Some(v as u16)
        } else {
            None
        },
        None => None,
    }
}

/// The signed number that `s` denotes.
pub fn parse_i64(s: &[char]) -> (r: Option<i64>)
    ensures
        match r {
            Some(v) => signed(s@, i64::MIN as int, i64::MAX as int) == Some(v as int),
            None => signed(s@, i64::MIN as int, i64::MAX as int) is None,
        },
{
    let negative = s.len() > 0 && s[0] == '-';
    let d = if s.len() > 0 && (s[0] == '+' || s[0] == '-') {
        slice_subrange(s, 1, s.len())
    } else {
        s
    };
    if d.len() == 0 || !all_ascii_digits(d) {
        return None;
    }
    match digits_to_u64(d) {
        Some(v) => if negative {
            if v <= 0x7fff_ffff_ffff_ffff {
                Some(-(v as i64))
            } else if v == 0x8000_0000_0000_0000 {
                Some(i64::MIN)
            } else {
                None
            }
        } else if v <= 0x7fff_ffff_ffff_ffff {
            Some(v as i64)
        } else {
            None
        },
        None => None,
    }
}

pub fn parse_i32(s: &[char]) -> (r: Option<i32>)
    ensures
        match r {
            Some(v) => signed(s@, i32::MIN as int, i32::MAX as int) == Some(v as int),
            None => signed(s@, i32::MIN as int, i32::MAX as int) is None,
        },
{
    match parse_i64(s) {
        Some(v) => if -0x8000_0000 <= v && v <= 0x7fff_ffff {
            Some(v as i32)
        } else {
            None
        },
        None => None,
    }
}

/// Whether `s` has the characters of the literal `b`.
pub fn is(s: &[char], b: &str) -> (r: bool)
    ensures
        r == (s@ == b@),
{
    let y = chars_of(b);
    same(s, y.as_slice())
}

/// The contents of a row of strings.
pub open spec fn views(v: Seq<String>) -> Seq<Seq<char>> {
    Seq::new(v.len(), |i: int| v[i]@)
}

/// The contents of a row of character vectors.
pub open spec fn texts(v: Seq<Vec<char>>) -> Seq<Seq<char>> {
    Seq::new(v.len(), |i: int| v[i]@)
}

/// ASCII white space.
pub open spec fn is_blank(c: char) -> bool {
    c == ' ' || c == '\t' || c == '\n' || c == '\u{c}' || c == '\r'
}

/// The ASCII characters of a byte sequence, every other byte as a mark.
pub open spec fn ascii_marked(b: Seq<u8>) -> Seq<char> {
    b.map_values(
        |x: u8|
            if x < 128 {
                x as char
            } else {
                '\u{fffd}'
            },
    )
}

/// The ASCII characters of `b`, with a mark for every other byte.
pub fn ascii_text(b: &[u8]) -> (r: Vec<char>)
    ensures
        r@ == ascii_marked(b@),
{
    let mut out: Vec<char> = Vec::new();
    let mut i: usize = 0;
    while i < b.len()
        invariant
            i <= b@.len(),
            out@ == ascii_marked(b@.take(i as int)),
        decreases b@.len() - i,
    {
        let x = b[i];
        if x < 128 {
            out.push(x as char);
        } else {
            out.push('\u{fffd}');
        }
        assert(out@ =~= ascii_marked(b@.take(i + 1)));
        i = i + 1;
    }
    assert(b@.take(i as int) =~= b@);
    out
}

/// The longest runs of characters in `s` that are no ASCII white space.
pub open spec fn words(s: Seq<char>) -> Seq<Seq<char>>
    decreases s.len(),
{
    if s.len() == 0 {
        seq![]
    } else if is_blank(s.last()) {
        words(s.drop_last())
    } else if s.len() == 1 || is_blank(s[s.len() - 2]) {
        words(s.drop_last()).push(seq![s.last()])
    } else {
        let w = words(s.drop_last());
        w.drop_last().push(w.last().push(s.last()))
    }
}

/// The words of `s`, separated by ASCII white space.
pub fn split_words(s: &[char]) -> (r: Vec<Vec<char>>)
    ensures
        texts(r@) == words(s@),
        r@.len() == words(s@).len(),
        forall|i: int| 0 <= i < r@.len() ==> (#[trigger] r@[i])@ == words(s@)[i],
{
    let mut out: Vec<Vec<char>> = Vec::new();
    let mut cur: Vec<char> = Vec::new();
    let mut i: usize = 0;
    assert(texts(out@) =~= seq![]);
    while i < s.len()
        invariant
            i <= s@.len(),
            cur@.len() > 0 <==> i > 0 && !is_blank(s@[i - 1]),
            words(s@.take(i as int)) == (if cur@.len() > 0 {
                texts(out@).push(cur@)
            } else {
                texts(out@)
            }),
        decreases s@.len() - i,
    {
        let c = s[i];
        let ghost pre = s@.take(i as int);
        let ghost nxt = s@.take(i + 1);
        let ghost out0 = out@;
        let ghost cur0 = cur@;
        assert(nxt.drop_last() =~= pre);
        assert(nxt.last() == c);
        if c == ' ' || c == '\t' || c == '\n' || c == '\u{c}' || c == '\r' {
            if cur.len() > 0 {
                out.push(cur);
                cur = Vec::new();
                assert(texts(out@) =~= texts(out0).push(cur0));
            }
        } else {
            cur.push(c);
            proof {
                if cur0.len() > 0 {
                    assert(nxt[nxt.len() - 2] == s@[i - 1]);
                    let w = texts(out0).push(cur0);
                    assert(w.drop_last() =~= texts(out0));
                    assert(words(nxt) =~= texts(out@).push(cur@));
                } else {
                    assert(cur@ =~= seq![c]);
                    if i > 0 {
                        assert(nxt[nxt.len() - 2] == s@[i - 1]);
                    }
                    assert(words(nxt) =~= texts(out@).push(cur@));
                }
            }
        }
        i = i + 1;
    }
    assert(s@.take(i as int) =~= s@);
    if cur.len() > 0 {
        let ghost out0 = out@;
        let ghost cur0 = cur@;
        out.push(cur);
        assert(texts(out@) =~= texts(out0).push(cur0));
    }
    proof {
        assert forall|k: int| 0 <= k < out@.len() implies (#[trigger] out@[k])@ == words(s@)[k] by {
            assert(texts(out@)[k] == out@[k]@);
        }
    }
    out
}

/// `line` without one `\r` at its end.
pub open spec fn without_cr(line: Seq<char>) -> Seq<char> {
    if line.len() > 0 && line.last() == '\r' {
        line.drop_last()
    } else {
        line
    }
}

/// The lines of `s`: its pieces between line feeds, each without a carriage
/// return at its end.
pub open spec fn lines(s: Seq<char>) -> Seq<Seq<char>> {
    pieces(s, '\n').map_values(|l: Seq<char>| without_cr(l))
}

pub fn split_lines<'a>(s: &'a [char]) -> (r: Vec<&'a [char]>)
    ensures
        r@.len() == lines(s@).len(),
        forall|i: int| 0 <= i < r@.len() ==> (#[trigger] r@[i])@ == lines(s@)[i],
        r@.len() >= 1,
{
    let parts = split(s, '\n');
    let mut out: Vec<&'a [char]> = Vec::new();
    let mut i: usize = 0;
    while i < parts.len()
        invariant
            i <= parts@.len(),
            parts@.len() == pieces(s@, '\n').len(),
            forall|k: int| 0 <= k < parts@.len() ==> (#[trigger] parts@[k])@ == pieces(s@, '\n')[k],
            out@.len() == i,
            forall|k: int| 0 <= k < i ==> (#[trigger] out@[k])@ == lines(s@)[k],
        decreases parts@.len() - i,
    {
        let line: &'a [char] = parts[i];
        let n = line.len();
        if n > 0 && line[n - 1] == '\r' {
            let t = slice_subrange(line, 0, n - 1);
            assert(t@ =~= line@.drop_last());
            out.push(t);
        } else {
            out.push(line);
        }
        i = i + 1;
    }
    proof {
        lemma_pieces_nonempty(s@, '\n');
    }
    out
}

/// The lines of a text: what ends in a line feed, without it and without a
/// carriage return before it, and what follows the last line feed, if anything.
pub open spec fn text_lines(s: Seq<char>) -> Seq<Seq<char>> {
    let p = pieces(s, '\n');
    p.drop_last().map_values(|l: Seq<char>| without_cr(l)) + if p.last().len() == 0 {
        Seq::<Seq<char>>::empty()
    } else {
        seq![p.last()]
    }
}

pub fn split_text_lines<'a>(s: &'a [char]) -> (r: Vec<&'a [char]>)
    ensures
        r@.len() == text_lines(s@).len(),
        forall|i: int| 0 <= i < r@.len() ==> (#[trigger] r@[i])@ == text_lines(s@)[i],
{
    let parts = split(s, '\n');
    let ghost p = pieces(s@, '\n');
    proof {
        lemma_pieces_nonempty(s@, '\n');
    }
    let mut out: Vec<&'a [char]> = Vec::new();
    let last: usize = parts.len() - 1;
    let mut i: usize = 0;
    while i < last
        invariant
            p == pieces(s@, '\n'),
            parts@.len() == p.len(),
            last == p.len() - 1,
            i <= last,
            forall|k: int| 0 <= k < parts@.len() ==> (#[trigger] parts@[k])@ == p[k],
            out@.len() == i,
            forall|k: int| 0 <= k < i ==> (#[trigger] out@[k])@ == without_cr(p[k]),
        decreases last - i,
    {
        let line = parts[i];
        let n = line.len();
        if n > 0 && line[n - 1] == '\r' {
            let cut = slice_subrange(line, 0, n - 1);
            assert(cut@ =~= line@.drop_last());
            out.push(cut);
        } else {
            out.push(line);
        }
        i = i + 1;
    }
    if parts[last].len() > 0 {
        out.push(parts[last]);
    }
    out
}

/// There is always at least one piece.
pub proof fn lemma_pieces_nonempty(s: Seq<char>, c: char)
    ensures
        pieces(s, c).len() >= 1,
{
}

/// `parts` in a row with `sep` between two neighbours.
pub fn join(parts: &Vec<String>, sep: &str) -> (r: String)
    ensures
        r@ == joined(views(parts@), sep@),
{
    let mut out = String::new();
    let mut i: usize = 0;
    while i < parts.len()
        invariant
            i <= parts@.len(),
            out@ == joined(views(parts@.take(i as int)), sep@),
        decreases parts@.len() - i,
    {
        let ghost pre = views(parts@.take(i as int));
        let ghost nxt = views(parts@.take(i + 1));
        assert(nxt.drop_last() =~= pre);
        let ghost before = out@;
        if i > 0 {
            out.push_str(sep);
        }
        out.push_str(parts[i].as_str());
        proof {
            if i == 0 {
                assert(nxt =~= seq![parts@[0]@]);
                assert(out@ =~= parts@[0]@);
            } else {
                assert(out@ == before + sep@ + parts@[i as int]@);
            }
        }
        i = i + 1;
    }
    assert(parts@.take(i as int) =~= parts@);
    out
}

/// The decimal notation of `n` with a minus sign where it is negative.
pub open spec fn signed_decimal(n: int) -> Seq<char> {
    if n < 0 {
        "-"@ + decimal((-n) as nat)
    } else {
        decimal(n as nat)
    }
}

/// The decimal notation of `n`, filled with zeros behind its sign up to
/// `width` characters.
pub open spec fn signed_padded(n: int, width: nat) -> Seq<char> {
    if n < 0 && width > 0 {
        "-"@ + padded((-n) as nat, (width - 1) as nat)
    } else if n < 0 {
        "-"@ + padded((-n) as nat, 0)
    } else {
        padded(n as nat, width)
    }
}

pub fn push_signed(out: &mut String, n: i32)
    ensures
        final(out)@ == old(out)@ + signed_decimal(n as int),
{
    if n < 0 {
        out.push_str("-");
        push_decimal(out, (-(n as i64)) as u64);
        assert(out@ =~= old(out)@ + signed_decimal(n as int));
    } else {
        push_decimal(out, n as u64);
    }
}

pub fn push_signed_padded(out: &mut String, n: i32, width: usize)
    ensures
        final(out)@ == old(out)@ + signed_padded(n as int, width as nat),
{
    if n < 0 {
        out.push_str("-");
        push_padded(out, (-(n as i64)) as u64, if width > 0 { width - 1 } else { 0 });
        assert(out@ =~= old(out)@ + signed_padded(n as int, width as nat));
    } else {
        push_padded(out, n as u64, width);
    }
}

pub open spec fn hex_char(d: nat) -> char {
    if d < 10 {
        (48 + d) as char
    } else {
        (87 + d) as char
    }
}

pub open spec fn upper_hex_char(d: nat) -> char {
    if d < 10 {
        (48 + d) as char
    } else {
        (55 + d) as char
    }
}

/// The hexadecimal notation of `n`, in lower case.
pub open spec fn hexadecimal(n: nat) -> Seq<char>
    decreases n,
{
    if n < 16 {
        seq![hex_char(n)]
    } else {
        hexadecimal(n / 16).push(hex_char(n % 16))
    }
}

pub fn push_hexadecimal(out: &mut String, n: u64)
    ensures
        final(out)@ == old(out)@ + hexadecimal(n as nat),
    decreases n,
{
    if n >= 16 {
        push_hexadecimal(out, n / 16);
    }
    let d: u8 = (n % 16) as u8;
    if d < 10 {
        out.push((48u8 + d) as char);
    } else {
        out.push((87u8 + d) as char);
    }
    assert(out@ =~= old(out)@ + hexadecimal(n as nat));
}

/// The value of a hexadecimal digit given as an ASCII byte.
pub open spec fn hex_value(b: u8) -> Option<u8> {
    if 48 <= b <= 57 {
        Some((b - 48) as u8)
    } else if 65 <= b <= 70 {
        Some((b - 55) as u8)
    } else if 97 <= b <= 102 {
        Some((b - 87) as u8)
    } else {
        None
    }
}

pub fn hex_digit(b: u8) -> (r: Option<u8>)
    ensures
        r == hex_value(b),
        r is Some ==> r->0 < 16,
{
    if 48 <= b && b <= 57 {
        Some(b - 48)
    } else if 65 <= b && b <= 70 {
        Some(b - 55)
    } else if 97 <= b && b <= 102 {
        Some(b - 87)
    } else {
        None
    }
}

/// Whether `a` comes before `b`, or is `b`, character by character.
pub open spec fn lex_le(a: Seq<char>, b: Seq<char>) -> bool
    decreases a.len(),
{
    if a.len() == 0 {
        true
    } else if b.len() == 0 {
        false
    } else if a[0] != b[0] {
        a[0] < b[0]
    } else {
        lex_le(a.drop_first(), b.drop_first())
    }
}

pub proof fn lemma_lex_total(a: Seq<char>, b: Seq<char>)
    ensures
        lex_le(a, b) || lex_le(b, a),
    decreases a.len(),
{
    if a.len() > 0 && b.len() > 0 && a[0] == b[0] {
        lemma_lex_total(a.drop_first(), b.drop_first());
    }
}

pub proof fn lemma_lex_transitive(a: Seq<char>, b: Seq<char>, c: Seq<char>)
    requires
        lex_le(a, b),
        lex_le(b, c),
    ensures
        lex_le(a, c),
    decreases a.len(),
{
    if a.len() > 0 && b.len() > 0 && c.len() > 0 && a[0] == b[0] && b[0] == c[0] {
        lemma_lex_transitive(a.drop_first(), b.drop_first(), c.drop_first());
    }
}

pub proof fn lemma_lex_antisymmetric(a: Seq<char>, b: Seq<char>)
    requires
        lex_le(a, b),
        lex_le(b, a),
    ensures
        a == b,
    decreases a.len(),
{
    if a.len() > 0 && b.len() > 0 {
        lemma_lex_antisymmetric(a.drop_first(), b.drop_first());
        assert(a =~= seq![a[0]] + a.drop_first());
        assert(b =~= seq![b[0]] + b.drop_first());
    } else {
        assert(a =~= b);
    }
}

/// Whether `a` comes before `b` in the order of their characters, or is `b`.
pub fn not_after(a: &str, b: &str) -> (r: bool)
    ensures
        r == lex_le(a@, b@),
{
    let x = chars_of(a);
    let y = chars_of(b);
    let mut i: usize = 0;
    assert(x@.skip(0) =~= x@);
    assert(y@.skip(0) =~= y@);
    while i < x.len()
        invariant
            i <= x@.len(),
            i <= y@.len(),
            x@ == a@,
            y@ == b@,
            lex_le(x@, y@) == lex_le(x@.skip(i as int), y@.skip(i as int)),
        decreases x@.len() - i,
    {
        assert(x@.skip(i as int)[0] == x@[i as int]);
        if i >= y.len() {
            return false;
        }
        assert(y@.skip(i as int)[0] == y@[i as int]);
        if x[i] != y[i] {
            return x[i] < y[i];
        }
        assert(x@.skip(i as int).drop_first() =~= x@.skip(i + 1));
        assert(y@.skip(i as int).drop_first() =~= y@.skip(i + 1));
        i = i + 1;
    }
    true
}

/// `s` without any `c`.
pub open spec fn without(s: Seq<char>, c: char) -> Seq<char>
    decreases s.len(),
{
    if s.len() == 0 {
        seq![]
    } else if s.last() == c {
        without(s.drop_last(), c)
    } else {
        without(s.drop_last(), c).push(s.last())
    }
}

pub fn remove_all(s: &[char], c: char) -> (r: Vec<char>)
    ensures
        r@ == without(s@, c),
{
    let mut out: Vec<char> = Vec::new();
    let mut i: usize = 0;
    while i < s.len()
        invariant
            i <= s@.len(),
            out@ == without(s@.take(i as int), c),
        decreases s@.len() - i,
    {
        assert(s@.take(i + 1).drop_last() =~= s@.take(i as int));
        if s[i] != c {
            out.push(s[i]);
        }
        i = i + 1;
    }
    assert(s@.take(i as int) =~= s@);
    out
}

/// `s` without any `c` at its start.
pub open spec fn trimmed_start_of(s: Seq<char>, c: char) -> Seq<char>
    decreases s.len(),
{
    if s.len() > 0 && s[0] == c {
        trimmed_start_of(s.drop_first(), c)
    } else {
        s
    }
}

pub fn trim_start_of(s: &[char], c: char) -> (r: &[char])
    ensures
        r@ == trimmed_start_of(s@, c),
{
    let mut i: usize = 0;
    assert(s@.skip(0) =~= s@);
    while i < s.len() && s[i] == c
        invariant
            i <= s@.len(),
            trimmed_start_of(s@.skip(i as int), c) == trimmed_start_of(s@, c),
        decreases s@.len() - i,
    {
        assert(s@.skip(i as int).drop_first() =~= s@.skip(i + 1));
        i = i + 1;
    }
    slice_subrange(s, i, s.len())
}

/// `s` behind the prefix `p`, if it begins with `p`.
pub fn strip_prefix<'a>(s: &'a [char], p: &[char]) -> (r: Option<&'a [char]>)
    ensures
        r is Some <==> begins(s@, p@),
        r is Some ==> r->0@ == s@.skip(p@.len() as int),
{
    if starts_with(s, p) {
        Some(slice_subrange(s, p.len(), s.len()))
    } else {
        None
    }
}

/// The lower-case form of a text in the sense of Unicode.
pub uninterp spec fn lowercased(s: Seq<char>) -> Seq<char>;

/// `str::to_lowercase`: the lower-case equivalent of a text, which depends on
/// the text alone. A text in lower case is its own equivalent.
#[verifier::external_body]
pub(crate) fn to_lowercase(s: &str) -> (r: String)
    ensures
        r@ == lowercased(s@),
        lowercased(r@) == r@,
{
    s.to_lowercase()
}

/// `std::str::from_utf8`: the text that the bytes encode, where they are
/// valid UTF-8.
#[verifier::external_body]
pub(crate) fn utf8_text(bytes: &[u8]) -> (r: Option<String>)
    ensures
        match r {
            Some(s) => vstd::utf8::valid_utf8(bytes@) && s@ == vstd::utf8::decode_utf8(bytes@),
            None => !vstd::utf8::valid_utf8(bytes@),
        },
{
    match std::str::from_utf8(bytes) {
        Ok(s) => Some(s.to_owned()),
        Err(_) => None,
    }
}

/// The decimal notation of a number is a row of digits that denotes it.
pub proof fn decimal_notation_reads_back(n: nat, max: nat)
    requires
        n <= max,
    ensures
        decimal(n).len() > 0,
        all_digits(decimal(n)),
        digits_value(decimal(n)) == n,
        unsigned(decimal(n), max) == Some(n),
    decreases n,
{
    let d = decimal(n);
    if n >= 10 {
        decimal_notation_reads_back(n / 10, max);
        let h = decimal(n / 10);
        assert(d.drop_last() =~= h);
        assert forall|i: int| 0 <= i < d.len() implies is_digit(#[trigger] d[i]) by {
            if i < h.len() {
                assert(is_digit(h[i]));
            }
        }
    } else {
        assert(d.drop_last() =~= seq![]);
        assert(digits_value(d.drop_last()) == 0);
    }
    assert(is_digit(d[0]));
}

/// A row of digits holds no other character.
pub proof fn lemma_digits_hold_nothing_else(s: Seq<char>, c: char)
    requires
        all_digits(s),
        !is_digit(c),
    ensures
        !s.contains(c),
{
    if s.contains(c) {
        let i = choose|i: int| 0 <= i < s.len() && s[i] == c;
        assert(is_digit(s[i]));
    }
}

/// White space around a text is taken off, and nothing else is: the first and
/// the last character that are none stay, with all between them.
pub proof fn trimming_takes_off_white_space_alone(a: Seq<char>, s: Seq<char>, b: Seq<char>)
    requires
        forall|i: int| 0 <= i < a.len() ==> is_ws(#[trigger] a[i]),
        forall|i: int| 0 <= i < b.len() ==> is_ws(#[trigger] b[i]),
        s.len() > 0 ==> !is_ws(s[0]) && !is_ws(s.last()),
    ensures
        trimmed(a + s + b) == s,
    decreases a.len() + b.len(),
{
    let t = a + s + b;
    if a.len() > 0 {
        assert(is_ws(a[0]));
        assert(t[0] == a[0]);
        assert(t.drop_first() =~= a.drop_first() + s + b);
        assert forall|i: int| 0 <= i < a.drop_first().len() implies is_ws(#[trigger] a.drop_first()[i]) by {
            assert(a.drop_first()[i] == a[i + 1]);
        }
        trimming_takes_off_white_space_alone(a.drop_first(), s, b);
    } else if s.len() == 0 {
        assert(t =~= b);
        lemma_blank_trims_to_nothing(b);
    } else {
        assert(t =~= s + b);
        assert(trimmed_start(t) == t);
        lemma_trimmed_end_of_blank_tail(s, b);
    }
}

proof fn lemma_blank_trims_to_nothing(b: Seq<char>)
    requires
        forall|i: int| 0 <= i < b.len() ==> is_ws(#[trigger] b[i]),
    ensures
        trimmed(b) == Seq::<char>::empty(),
    decreases b.len(),
{
    if b.len() > 0 {
        assert(is_ws(b[0]));
        assert forall|i: int| 0 <= i < b.drop_first().len() implies is_ws(#[trigger] b.drop_first()[i]) by {
            assert(b.drop_first()[i] == b[i + 1]);
        }
        lemma_blank_trims_to_nothing(b.drop_first());
    } else {
        assert(trimmed(b) =~= Seq::<char>::empty());
    }
}

proof fn lemma_trimmed_end_of_blank_tail(s: Seq<char>, b: Seq<char>)
    requires
        s.len() > 0,
        !is_ws(s.last()),
        forall|i: int| 0 <= i < b.len() ==> is_ws(#[trigger] b[i]),
    ensures
        trimmed_end(s + b) == s,
    decreases b.len(),
{
    if b.len() > 0 {
        assert(is_ws(b[b.len() - 1]));
        assert((s + b).last() == b.last());
        assert((s + b).drop_last() =~= s + b.drop_last());
        assert forall|i: int| 0 <= i < b.drop_last().len() implies is_ws(#[trigger] b.drop_last()[i]) by {
            assert(b.drop_last()[i] == b[i]);
        }
        lemma_trimmed_end_of_blank_tail(s, b.drop_last());
    } else {
        assert(s + b =~= s);
    }
}

/// A text without a separator is one piece, and a separator parts the pieces
/// before it from those behind it.
pub proof fn separators_part_pieces(a: Seq<char>, c: char, b: Seq<char>)
    ensures
        !a.contains(c) ==> pieces(a, c) == seq![a],
        pieces(a.push(c) + b, c) == pieces(a, c) + pieces(b, c),
    decreases a.len(),
{
    let t = a.push(c) + b;
    assert(t[a.len() as int] == c);
    assert(t.contains(c));
    lemma_first_at(t, c);
    lemma_first_at(a, c);
    if a.contains(c) {
        let k = first_at(a, c);
        lemma_first_at_is(t, c, k);
        assert(before(t, c) =~= before(a, c));
        assert(after(t, c) =~= after(a, c).push(c) + b);
        separators_part_pieces(after(a, c), c, b);
        assert(seq![before(a, c)] + (pieces(after(a, c), c) + pieces(b, c)) =~= (seq![before(a, c)] + pieces(
            after(a, c),
            c,
        )) + pieces(b, c));
    } else {
        assert forall|i: int| 0 <= i < a.len() implies t[i] != c by {
            assert(t[i] == a[i]);
            assert(a.contains(a[i]));
        }
        lemma_first_at_is(t, c, a.len() as int);
        assert(before(t, c) =~= a);
        assert(after(t, c) =~= b);
    }
}

/// Letters are put in lower case one by one and nothing else is changed; doing
/// it again changes nothing.
pub proof fn lower_case_is_letter_by_letter(s: Seq<char>, i: int)
    requires
        0 <= i < s.len(),
    ensures
        lower(s).len() == s.len(),
        !('A' <= s[i] <= 'Z') ==> lower(s)[i] == s[i],
        'A' <= s[i] <= 'Z' ==> 'a' <= lower(s)[i] <= 'z' && lower(s)[i] as u32 == s[i] as u32 + 32,
        lower(lower(s)) == lower(s),
{
    assert forall|k: int| 0 <= k < s.len() implies lower_char(lower_char(s[k])) == #[trigger] lower_char(s[k]) by {
    }
    assert(lower(lower(s)) =~= lower(s));
}

/// White space parts the words before it from those behind it, and a run of
/// other characters is one word.
pub proof fn blanks_part_words(a: Seq<char>, blank: char, b: Seq<char>)
    requires
        is_blank(blank),
    ensures
        words(a.push(blank) + b) == words(a) + words(b),
    decreases b.len(),
{
    let s = a.push(blank) + b;
    if b.len() == 0 {
        assert(s =~= a.push(blank));
        assert(s.drop_last() =~= a);
        assert(words(a) + words(b) =~= words(a));
    } else {
        let c = b.drop_last();
        assert(s.drop_last() =~= a.push(blank) + c);
        blanks_part_words(a, blank, c);
        assert(s.last() == b.last());
        lemma_words_nonempty(c);
        if is_blank(b.last()) {
        } else if b.len() == 1 {
            assert(s[s.len() - 2] == blank);
            assert(words(c) =~= seq![]);
            assert(words(a) + words(c) =~= words(a));
            assert(words(s) =~= words(a).push(seq![b.last()]));
            assert(words(b) =~= seq![seq![b.last()]]);
            assert(words(a) + words(b) =~= words(a).push(seq![b.last()]));
        } else {
            assert(s[s.len() - 2] == b[b.len() - 2]);
            if is_blank(b[b.len() - 2]) {
                assert((words(a) + words(c)).push(seq![b.last()]) =~= words(a) + words(c).push(seq![b.last()]));
            } else {
                let w = words(a) + words(c);
                assert(words(c).len() > 0);
                assert(w.drop_last() =~= words(a) + words(c).drop_last());
                assert(w.last() == words(c).last());
                assert(w.drop_last().push(w.last().push(b.last())) =~= words(a) + words(c).drop_last().push(
                    words(c).last().push(b.last()),
                ));
            }
        }
    }
}

proof fn lemma_words_nonempty(s: Seq<char>)
    ensures
        s.len() > 0 && !is_blank(s.last()) ==> words(s).len() > 0,
{
}

/// Characters without a blank among them are one word.
pub proof fn a_run_of_characters_is_one_word(w: Seq<char>)
    requires
        w.len() > 0,
        forall|i: int| 0 <= i < w.len() ==> !is_blank(#[trigger] w[i]),
    ensures
        words(w) == seq![w],
    decreases w.len(),
{
    let v = w.drop_last();
    assert(!is_blank(w[w.len() - 1]));
    if v.len() > 0 {
        assert forall|i: int| 0 <= i < v.len() implies !is_blank(#[trigger] v[i]) by {
            assert(v[i] == w[i]);
        }
        a_run_of_characters_is_one_word(v);
        assert(!is_blank(w[w.len() - 2]));
        assert(v.push(w.last()) =~= w);
        assert(seq![v].drop_last().push(v.push(w.last())) =~= seq![w]);
    } else {
        assert(words(v) =~= seq![]);
        assert(seq![w.last()] =~= w);
        assert(words(w) =~= seq![w]);
    }
}

} // verus!
