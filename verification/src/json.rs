//! JSON documents as plain data. An object lists its members in the order in
//! which they are visited; numbers are kept in decimal notation.
use vstd::prelude::*;
use crate::text;

verus! {

pub enum Json {
    Null,
    Bool(bool),
    Number(String),
    Text(String),
    Array(Vec<Json>),
    Object(Vec<(String, Json)>),
}

/// What a JSON document says.
pub enum Document {
    Null,
    Bool(bool),
    Number(Seq<char>),
    Text(Seq<char>),
    Array(Seq<Document>),
    Object(Seq<(Seq<char>, Document)>),
}

/// The position of the first member with a name.
pub open spec fn member_at(members: Seq<(Seq<char>, Document)>, name: Seq<char>) -> Option<int>
    decreases members.len(),
{
    if members.len() == 0 {
        None
    } else if member_at(members.drop_last(), name) is Some {
        member_at(members.drop_last(), name)
    } else if members.last().0 == name {
        Some(members.len() - 1)
    } else {
        None
    }
}

impl Document {
    /// Whether the document is an object with a member of that name.
    pub open spec fn has(self, name: Seq<char>) -> bool {
        match self {
            Document::Object(members) => member_at(members, name) is Some,
            _ => false,
        }
    }

    /// The member of that name.
    pub open spec fn member(self, name: Seq<char>) -> Document {
        match self {
            Document::Object(members) => members[member_at(members, name)->0].1,
            _ => Document::Null,
        }
    }
}

impl Json {
    pub open spec fn view(self) -> Document
        decreases self,
    {
        match self {
            Json::Null => Document::Null,
            Json::Bool(b) => Document::Bool(b),
            Json::Number(s) => Document::Number(s@),
            Json::Text(s) => Document::Text(s@),
            Json::Array(items) => Document::Array(
                Seq::new(
                    items@.len(),
                    |i: int|
                        if 0 <= i < items@.len() {
                            items@[i].view()
                        } else {
                            Document::Null
                        },
                ),
            ),
            Json::Object(members) => Document::Object(
                Seq::new(
                    members@.len(),
                    |i: int|
                        if 0 <= i < members@.len() {
                            (members@[i].0@, members@[i].1.view())
                        } else {
                            (seq![], Document::Null)
                        },
                ),
            ),
        }
    }
}

/// The members of an object, as plain values.
pub open spec fn members_of(members: Seq<(String, Json)>) -> Seq<(Seq<char>, Document)> {
    Seq::new(members.len(), |i: int| (members[i].0@, members[i].1@))
}

/// The items of an array, as plain values.
pub open spec fn items_of(items: Seq<Json>) -> Seq<Document> {
    Seq::new(items.len(), |i: int| items[i]@)
}

/// What an object shows is what its members show.
pub proof fn an_object_shows_its_members(members: Vec<(String, Json)>)
    ensures
        Json::Object(members)@ == Document::Object(members_of(members@)),
{
    assert(Json::Object(members)@->Object_0 =~= members_of(members@));
}

/// What an array shows is what its items show.
pub proof fn an_array_shows_its_items(items: Vec<Json>)
    ensures
        Json::Array(items)@ == Document::Array(items_of(items@)),
{
    assert(Json::Array(items)@->Array_0 =~= items_of(items@));
}

impl Json {
    /// The member of an object with a name.
    pub fn get(&self, name: &str) -> (r: Option<&Json>)
        ensures
            r is Some <==> self@.has(name@),
            r is Some ==> (r->0)@ == self@.member(name@),
    {
        match self {
            Json::Object(members) => {
                let ghost all = members_of(members@);
                proof {
                    an_object_shows_its_members(*members);
                }
                let mut i: usize = 0;
                while i < members.len()
                    invariant
                        i <= members@.len(),
                        all == members_of(members@),
                        self@ == Document::Object(all),
                        member_at(all.take(i as int), name@) is None,
                    decreases members@.len() - i,
                {
                    assert(all.take(i + 1).drop_last() =~= all.take(i as int));
                    if text::str_eq(members[i].0.as_str(), name) {
                        proof {
                            lemma_member_at_prefix(all, i + 1, name@);
                        }
                        return Some(&members[i].1);
                    }
                    i = i + 1;
                }
                assert(all.take(i as int) =~= all);
                None
            },
            _ => None,
        }
    }
}

/// A member found in a prefix is the one found in the whole row.
proof fn lemma_member_at_prefix(members: Seq<(Seq<char>, Document)>, n: int, name: Seq<char>)
    requires
        0 <= n <= members.len(),
        member_at(members.take(n), name) is Some,
    ensures
        member_at(members, name) == member_at(members.take(n), name),
    decreases members.len() - n,
{
    if n == members.len() {
        assert(members.take(n) =~= members);
    } else {
        assert(members.take(n + 1).drop_last() =~= members.take(n));
        lemma_member_at_prefix(members, n + 1, name);
    }
}

#[verifier::external_type_specification]
#[verifier::external_body]
pub struct ExJsonValue(serde_json::Value);

/// What a parsed value holds.
pub uninterp spec fn held(value: serde_json::Value) -> Document;

/// The document that a text is the notation of, or what is wrong with it.
pub uninterp spec fn document_of(text: Seq<char>) -> Result<Document, Seq<char>>;

/// `serde_json::from_str` to `serde_json::Value`: the document that a text is
/// the notation of, or the text of the error. Either depends on the text alone.
#[verifier::external_body]
fn parsed(text: &str) -> (r: Result<serde_json::Value, String>)
    ensures
        match document_of(text@) {
            Ok(d) => r is Ok && held(r->Ok_0) == d,
            Err(e) => r is Err && r->Err_0@ == e,
        },
{
    serde_json::from_str(text).map_err(|cause: serde_json::Error| cause.to_string())
}

/// The variants of `serde_json::Value`, one for one: what the value holds. The
/// members of an object keep the order of `serde_json::Map`, and a number is
/// written as `serde_json::Number` shows it.
#[verifier::external_body]
fn plain(value: serde_json::Value) -> (r: Json)
    ensures
        r@ == held(value),
{
    match value {
        serde_json::Value::Null => Json::Null,
        serde_json::Value::Bool(b) => Json::Bool(b),
        serde_json::Value::Number(n) => Json::Number(n.to_string()),
        serde_json::Value::String(s) => Json::Text(s),
        serde_json::Value::Array(items) => Json::Array(items.into_iter().map(plain).collect()),
        serde_json::Value::Object(members) => {
            Json::Object(members.into_iter().map(|(name, member)| (name, plain(member))).collect())
        },
    }
}

/// Reads a document.
pub fn read(text: &str) -> (r: Result<Json, String>)
    ensures
        match document_of(text@) {
            Ok(d) => r is Ok && r->Ok_0@ == d,
            Err(e) => r is Err && r->Err_0@ == e,
        },
{
    match parsed(text) {
        Ok(value) => Ok(plain(value)),
        Err(cause) => Err(cause),
    }
}

/// A member is found by its name exactly if there is one: the first of them.
pub proof fn the_first_member_of_a_name_is_found(members: Seq<(Seq<char>, Document)>, name: Seq<char>, i: int)
    requires
        0 <= i < members.len(),
        members[i].0 == name,
        forall|k: int| 0 <= k < i ==> (#[trigger] members[k]).0 != name,
    ensures
        Document::Object(members).has(name),
        Document::Object(members).member(name) == members[i].1,
    decreases members.len(),
{
    lemma_member_at(members, name, i);
}

proof fn lemma_member_at(members: Seq<(Seq<char>, Document)>, name: Seq<char>, i: int)
    requires
        0 <= i < members.len(),
        members[i].0 == name,
        forall|k: int| 0 <= k < i ==> (#[trigger] members[k]).0 != name,
    ensures
        member_at(members, name) == Some(i),
    decreases members.len(),
{
    let t = members.drop_last();
    if i < t.len() {
        assert(t[i] == members[i]);
        assert forall|k: int| 0 <= k < i implies (#[trigger] t[k]).0 != name by {
            assert(t[k] == members[k]);
        }
        lemma_member_at(t, name, i);
    } else {
        assert forall|k: int| 0 <= k < t.len() implies (#[trigger] t[k]).0 != name by {
            assert(t[k] == members[k]);
        }
        a_name_that_no_member_has_is_missing(t, name);
    }
}

/// A name that no member has is not found.
pub proof fn a_name_that_no_member_has_is_missing(members: Seq<(Seq<char>, Document)>, name: Seq<char>)
    requires
        forall|k: int| 0 <= k < members.len() ==> (#[trigger] members[k]).0 != name,
    ensures
        member_at(members, name) is None,
        !Document::Object(members).has(name),
    decreases members.len(),
{
    if members.len() > 0 {
        let t = members.drop_last();
        assert forall|k: int| 0 <= k < t.len() implies (#[trigger] t[k]).0 != name by {
            assert(t[k] == members[k]);
        }
        a_name_that_no_member_has_is_missing(t, name);
        assert(members[members.len() - 1].0 != name);
    }
}

} // verus!
