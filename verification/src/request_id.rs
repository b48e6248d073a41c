//! The identity of a connection: a process-wide number and a random name.
use vstd::prelude::*;
use crate::table::Key;
use crate::text;

verus! {

#[derive(Debug, Clone, Hash, Eq, PartialEq)]
pub struct RequestId {
    pub _seq: usize,
    pub _uuid: String,
}

/// `short_uuid::ShortUuid::generate`: the short form of a fresh random UUID.
/// Nothing is claimed of it: two calls may differ.
#[verifier::external_body]
fn short_uuid_text() -> (r: String)
{
    short_uuid::ShortUuid::generate().to_string()
}

/// Hands out the next number and advances the counter, starting over at zero
/// behind the largest one.
pub fn next(counter: &mut usize) -> (r: usize)
    ensures
        r == *old(counter),
        *final(counter) == if *old(counter) == usize::MAX {
            0
        } else {
            *old(counter) + 1
        },
{
    let n = *counter;
    *counter = if n == usize::MAX {
        0
    } else {
        n + 1
    };
    n
}

impl RequestId {
    /// A fresh id: the next number and a random name.
    pub fn new(counter: &mut usize) -> (r: RequestId)
        ensures
            r._seq == *old(counter),
            *final(counter) == if *old(counter) == usize::MAX {
                0
            } else {
                *old(counter) + 1
            },
    {
        let name = short_uuid_text();
        RequestId::with_name(counter, name)
    }

    /// The id with the next number and the given name.
    pub fn with_name(counter: &mut usize, name: String) -> (r: RequestId)
        ensures
            r._seq == *old(counter),
            r._uuid@ == name@,
            *final(counter) == if *old(counter) == usize::MAX {
                0
            } else {
                *old(counter) + 1
            },
    {
        RequestId { _seq: next(counter), _uuid: name }
    }

    pub fn id(&self) -> (r: &str)
        ensures
            r@ == self._uuid@,
    {
        self._uuid.as_str()
    }

    pub fn seq(&self) -> (r: usize)
        ensures
            r == self._seq,
    {
        self._seq
    }

    pub open spec fn shown(self) -> Seq<char> {
        self._uuid@ + "("@ + text::decimal(self._seq as nat) + ")"@
    }

    /// The id as it appears in logs and records: `name(number)`.
    pub fn to_text(&self) -> (r: String)
        ensures
            r@ == self.shown(),
    {
        let mut out = self._uuid.clone();
        out.push_str("(");
        text::push_decimal(&mut out, self._seq as u64);
        out.push_str(")");
        out
    }

    pub fn copy(&self) -> (r: RequestId)
        ensures
            r == *self,
    {
        RequestId { _seq: self._seq, _uuid: self._uuid.clone() }
    }
}

impl Key for RequestId {
    type Id = (usize, Seq<char>);

    open spec fn id(&self) -> (usize, Seq<char>) {
        (self._seq, self._uuid@)
    }

    fn same_key(&self, other: &Self) -> (r: bool) {
        self._seq == other._seq && text::str_eq(self._uuid.as_str(), other._uuid.as_str())
    }
}

} // verus!
