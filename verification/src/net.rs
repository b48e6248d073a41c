//! Network addresses as plain values.
use vstd::prelude::*;
use crate::text;

verus! {

/// Whether a character can stand in the textual form of an address.
pub open spec fn is_address_char(c: char) -> bool {
    '0' <= c <= '9' || 'a' <= c <= 'f' || 'A' <= c <= 'F' || c == '.' || c == ':'
}

/// Whether a text holds nothing but what an address is written with.
pub open spec fn may_be_address(s: Seq<char>) -> bool {
    forall|i: int| 0 <= i < s.len() ==> is_address_char(#[trigger] s[i])
}

/// The octets of the IP address that a text denotes, if it denotes one.
pub uninterp spec fn octets_of(text: Seq<char>) -> Option<Seq<u8>>;

/// `str::parse` to an IP address of std: its octets, four or sixteen, or nothing
/// if the text is no address. Only that the result depends on the text, how many
/// octets there are, and which characters an address is written with is claimed.
#[verifier::external_body]
pub(crate) fn address_octets(text: &str) -> (r: Option<Vec<u8>>)
    ensures
        match octets_of(text@) {
            Some(b) => r is Some && r->0@ == b,
            None => r is None,
        },
        r is Some ==> (r->0@.len() == 4 || r->0@.len() == 16) && may_be_address(text@),
{
    match rcgen::SanType::IpAddress(text.parse().ok()?) {
        rcgen::SanType::IpAddress(ip) => match rustls::pki_types::IpAddr::from(ip) {
            rustls::pki_types::IpAddr::V4(v4) => Some(AsRef::<[u8; 4]>::as_ref(&v4).to_vec()),
            rustls::pki_types::IpAddr::V6(v6) => Some(AsRef::<[u8; 16]>::as_ref(&v6).to_vec()),
        },
        _ => None,
    }
}

/// An IP address: the octets of an IPv4 address, or the segments of an IPv6
/// address together with its textual form.
pub enum IpAddr {
    V4(u8, u8, u8, u8),
    V6 { segments: Vec<u16>, text: String },
}

impl IpAddr {
    /// The address as it is written: dotted decimals, or the textual form.
    pub open spec fn shown(self) -> Seq<char> {
        match self {
            IpAddr::V4(a, b, c, d) => text::decimal(a as nat) + "."@ + text::decimal(b as nat) + "."@
                + text::decimal(c as nat) + "."@ + text::decimal(d as nat),
            IpAddr::V6 { segments, text } => text@,
        }
    }

    /// Whether two addresses denote the same host.
    pub open spec fn same_as(self, other: IpAddr) -> bool {
        match (self, other) {
            (IpAddr::V4(a, b, c, d), IpAddr::V4(e, f, g, h)) => a == e && b == f && c == g && d == h,
            (IpAddr::V6 { segments: s, text: _ }, IpAddr::V6 { segments: t, text: _ }) => s@ == t@,
            _ => false,
        }
    }

    /// The address that stands for every local address: all bits zero.
    pub open spec fn unspecified(self) -> bool {
        match self {
            IpAddr::V4(a, b, c, d) => a == 0 && b == 0 && c == 0 && d == 0,
            IpAddr::V6 { segments, text: _ } => segments@ == seq![0u16, 0u16, 0u16, 0u16, 0u16, 0u16, 0u16, 0u16],
        }
    }

    /// `127.0.0.0/8` or `::1`.
    pub open spec fn loopback(self) -> bool {
        match self {
            IpAddr::V4(a, _, _, _) => a == 127,
            IpAddr::V6 { segments, text: _ } => segments@ == seq![0u16, 0u16, 0u16, 0u16, 0u16, 0u16, 0u16, 1u16],
        }
    }

    /// `fe80::/10`.
    pub open spec fn link_local_v6(self) -> bool {
        match self {
            IpAddr::V4(_, _, _, _) => false,
            IpAddr::V6 { segments, text: _ } => segments@.len() > 0 && 0xfe80 <= segments@[0] <= 0xfebf,
        }
    }

    pub fn is_v4(&self) -> (r: bool)
        ensures
            r == (*self is V4),
    {
        match self {
            IpAddr::V4(_, _, _, _) => true,
            IpAddr::V6 { .. } => false,
        }
    }

    pub fn to_text(&self) -> (r: String)
        ensures
            r@ == self.shown(),
    {
        match self {
            IpAddr::V4(a, b, c, d) => {
                let mut out = text::decimal_string(*a as u64);
                out.push_str(".");
                text::push_decimal(&mut out, *b as u64);
                out.push_str(".");
                text::push_decimal(&mut out, *c as u64);
                out.push_str(".");
                text::push_decimal(&mut out, *d as u64);
                out
            },
            IpAddr::V6 { segments: _, text } => text.clone(),
        }
    }

    pub fn same(&self, other: &IpAddr) -> (r: bool)
        ensures
            r == self.same_as(*other),
    {
        match (self, other) {
            (IpAddr::V4(a, b, c, d), IpAddr::V4(e, f, g, h)) => *a == *e && *b == *f && *c == *g && *d == *h,
            (IpAddr::V6 { segments: s, text: _ }, IpAddr::V6 { segments: t, text: _ }) => same_segments(s, t),
            _ => false,
        }
    }

    pub fn is_unspecified(&self) -> (r: bool)
        ensures
            r == self.unspecified(),
    {
        match self {
            IpAddr::V4(a, b, c, d) => *a == 0 && *b == 0 && *c == 0 && *d == 0,
            IpAddr::V6 { segments, text: _ } => {
                let zero: Vec<u16> = vec![0, 0, 0, 0, 0, 0, 0, 0];
                assert(zero@ =~= seq![0u16, 0u16, 0u16, 0u16, 0u16, 0u16, 0u16, 0u16]);
                same_segments(segments, &zero)
            },
        }
    }

    pub fn is_loopback(&self) -> (r: bool)
        ensures
            r == self.loopback(),
    {
        match self {
            IpAddr::V4(a, _, _, _) => *a == 127,
            IpAddr::V6 { segments, text: _ } => {
                let one: Vec<u16> = vec![0, 0, 0, 0, 0, 0, 0, 1];
                assert(one@ =~= seq![0u16, 0u16, 0u16, 0u16, 0u16, 0u16, 0u16, 1u16]);
                same_segments(segments, &one)
            },
        }
    }

    pub fn is_link_local_v6(&self) -> (r: bool)
        ensures
            r == self.link_local_v6(),
    {
        match self {
            IpAddr::V4(_, _, _, _) => false,
            IpAddr::V6 { segments, text: _ } => segments.len() > 0 && 0xfe80 <= segments[0] && segments[0] <= 0xfebf,
        }
    }
}

fn same_segments(a: &Vec<u16>, b: &Vec<u16>) -> (r: bool)
    ensures
        r == (a@ == b@),
{
    if a.len() != b.len() {
        return false;
    }
    let mut i: usize = 0;
    while i < a.len()
        invariant
            i <= a@.len(),
            a@.len() == b@.len(),
            forall|k: int| 0 <= k < i ==> a@[k] == b@[k],
        decreases a@.len() - i,
    {
        if a[i] != b[i] {
            return false;
        }
        i = i + 1;
    }
    assert(a@ =~= b@);
    true
}

/// An IPv6 address is link-local exactly if its first ten bits are those of
/// `fe80`; an IPv4 address loops back exactly if it begins with 127, whatever
/// follows.
pub proof fn addresses_are_told_by_their_prefix(a: u8, b: u8, c: u8, d: u8, x: u16, v6: IpAddr)
    requires
        v6 is V6,
        v6->segments@.len() == 8,
        v6->segments@[0] == x,
    ensures
        v6.link_local_v6() <==> x & 0xffc0 == 0xfe80,
        IpAddr::V4(a, b, c, d).loopback() <==> a == 127,
        IpAddr::V4(a, b, c, d).unspecified() <==> a == 0 && b == 0 && c == 0 && d == 0,
        !IpAddr::V4(a, b, c, d).link_local_v6(),
        v6.unspecified() <==> forall|i: int| 0 <= i < 8 ==> #[trigger] v6->segments@[i] == 0,
        v6.loopback() <==> v6->segments@[7] == 1 && forall|i: int| 0 <= i < 7 ==> #[trigger] v6->segments@[i] == 0,
{
    assert(x & 0xffc0 == 0xfe80 <==> 0xfe80 <= x <= 0xfebf) by (bit_vector);
    let s = v6->segments@;
    if forall|i: int| 0 <= i < 8 ==> #[trigger] s[i] == 0 {
        assert(s =~= seq![0u16, 0u16, 0u16, 0u16, 0u16, 0u16, 0u16, 0u16]);
    }
    if s[7] == 1 && forall|i: int| 0 <= i < 7 ==> #[trigger] s[i] == 0 {
        assert(s =~= seq![0u16, 0u16, 0u16, 0u16, 0u16, 0u16, 0u16, 1u16]);
    }
}

/// An address is the same as another exactly if all its parts are; the two
/// families have no address in common.
pub proof fn the_same_address_has_the_same_parts(a: IpAddr, b: IpAddr)
    ensures
        a.same_as(b) == b.same_as(a),
        a.same_as(a),
        a is V4 && b is V6 ==> !a.same_as(b),
        a is V6 && b is V6 ==> (a.same_as(b) <==> a->segments@ == b->segments@),
{
}

} // verus!
