//! A model of parsed JSON documents, and the lookups the proxy performs on them.

use vstd::prelude::*;
use crate::text::str_eq;

verus! {

/// A parsed JSON value. Each key occurs once in an object; numbers keep
/// their decimal text.
#[derive(Debug)]
pub enum Json {
    Null,
    Bool(bool),
    Number(String),
    Str(String),
    Array(Vec<Json>),
    Object(Vec<(String, Json)>),
}

/// A JSON document as serde_json parses it.
#[verifier::external_type_specification]
#[verifier::external_body]
pub struct ExJsonValue(serde_json::Value);

/// The document that `serde_json::from_slice` reads from `bytes`, as a
/// [`Json`]; `None` where the bytes are not one JSON document.
pub uninterp spec fn json_of_bytes(bytes: Seq<u8>) -> Option<Json>;

/// The document that `serde_json::from_str` reads from `text`, as a
/// [`Json`]; `None` where the text is not one JSON document.
pub uninterp spec fn json_of_text(text: Seq<char>) -> Option<Json>;

/// Turns a document of serde_json into a [`Json`], value for value: each
/// number by its decimal text, the members of an object in the order of
/// serde_json's map.
#[verifier::external_body]
fn json_from_value(v: serde_json::Value) -> (r: Json) {
    match v {
        serde_json::Value::Null => Json::Null,
        serde_json::Value::Bool(b) => Json::Bool(b),
        serde_json::Value::Number(n) => Json::Number(n.to_string()),
        serde_json::Value::String(s) => Json::Str(s),
        serde_json::Value::Array(items) => Json::Array(items.into_iter().map(json_from_value).collect()),
        serde_json::Value::Object(m) => Json::Object(m.into_iter().map(|(k, x)| (k, json_from_value(x))).collect()),
    }
}

/// `serde_json::from_slice` into a document, converted to a [`Json`].
/// Stated: the result is a function of the bytes alone (named
/// [`json_of_bytes`]); which bytes parse is left unsaid.
#[verifier::external_body]
pub(crate) fn parse_json_bytes(bytes: &[u8]) -> (r: Option<Json>)
    ensures
        r == json_of_bytes(bytes@),
{
    match serde_json::from_slice::<serde_json::Value>(bytes) {
        Ok(v) => Some(json_from_value(v)),
        Err(_) => None,
    }
}

/// `serde_json::from_str` into a document, converted to a [`Json`].
/// Stated: the result is a function of the text alone (named
/// [`json_of_text`]); which texts parse is left unsaid.
#[verifier::external_body]
pub(crate) fn parse_json_text(text: &str) -> (r: Option<Json>)
    ensures
        r == json_of_text(text@),
{
    match serde_json::from_str::<serde_json::Value>(text) {
        Ok(v) => Some(json_from_value(v)),
        Err(_) => None,
    }
}

/// The index of the first member of `members` whose key is `key`.
pub open spec fn member_index(members: Seq<(String, Json)>, key: Seq<char>) -> Option<int>
    decreases members.len(),
{
    if members.len() == 0 {
        None
    } else if members[0].0@ == key {
        Some(0)
    } else {
        match member_index(members.drop_first(), key) {
            Some(i) => Some(i + 1),
            None => None,
        }
    }
}

/// The member `key` of an object; `None` for a missing key or a non-object.
pub open spec fn json_get(j: Json, key: Seq<char>) -> Option<Json> {
    match j {
        Json::Object(members) => match member_index(members@, key) {
            Some(i) => Some(members@[i].1),
            None => None,
        },
        _ => None,
    }
}

/// The text of a JSON string; `None` for any other value.
pub open spec fn json_str(j: Json) -> Option<Seq<char>> {
    match j {
        Json::Str(s) => Some(s@),
        _ => None,
    }
}

/// The string found under `key`, if `j` is an object holding a string there.
pub open spec fn json_str_field(j: Json, key: Seq<char>) -> Option<Seq<char>> {
    match json_get(j, key) {
        Some(v) => json_str(v),
        None => None,
    }
}

proof fn lemma_member_index_bounds(members: Seq<(String, Json)>, key: Seq<char>)
    ensures
        member_index(members, key) matches Some(i) ==> 0 <= i < members.len() && members[i].0@ == key,
        member_index(members, key) is None ==> forall|k: int| 0 <= k < members.len() ==> members[k].0@ != key,
        member_index(members, key) matches Some(i) ==> forall|k: int| 0 <= k < i ==> members[k].0@ != key,
    decreases members.len(),
{
    if members.len() > 0 {
        lemma_member_index_bounds(members.drop_first(), key);
        assert forall|k: int| 1 <= k < members.len() implies members[k] == members.drop_first()[k - 1] by {}
    }
}

/// Two values hold the same JSON: the same scalar or text, or arrays and
/// objects of the same length whose members, in order, have the same keys
/// and hold the same JSON.
pub open spec fn same_json(a: Json, b: Json) -> bool
    decreases a,
{
    match a {
        Json::Null => b is Null,
        Json::Bool(x) => b matches Json::Bool(y) && x == y,
        Json::Number(x) => b matches Json::Number(y) && x@ == y@,
        Json::Str(x) => b matches Json::Str(y) && x@ == y@,
        Json::Array(xs) => b matches Json::Array(ys) && xs@.len() == ys@.len()
            && forall|i: int| 0 <= i < xs@.len() ==> #[trigger] same_json(xs@[i], ys@[i]),
        Json::Object(xs) => b matches Json::Object(ys) && xs@.len() == ys@.len()
            && forall|i: int| 0 <= i < xs@.len() ==> xs@[i].0@ == ys@[i].0@
                && #[trigger] same_json(xs@[i].1, ys@[i].1),
    }
}

impl Clone for Json {
    fn clone(&self) -> (r: Json)
        ensures
            same_json(*self, r),
    {
        self.deep_copy()
    }
}

impl Json {
    /// A copy of this value.
    fn deep_copy(&self) -> (r: Json)
        ensures
            same_json(*self, r),
        decreases self,
    {
        match self {
            Json::Null => Json::Null,
            Json::Bool(b) => Json::Bool(*b),
            Json::Number(n) => Json::Number(n.clone()),
            Json::Str(s) => Json::Str(s.clone()),
            Json::Array(items) => {
                let mut out: Vec<Json> = Vec::new();
                let mut i: usize = 0;
                while i < items.len()
                    invariant
                        *self == Json::Array(*items),
                        0 <= i <= items.len(),
                        out@.len() == i,
                        forall|k: int| 0 <= k < i ==> #[trigger] same_json(items@[k], out@[k]),
                    decreases items.len() - i,
                {
                    assert(decreases_to!(*self => (*self)->Array_0));
                    assert(decreases_to!(*items => items@));
                    assert(decreases_to!(items@ => items@[i as int]));
                    let c = items[i].deep_copy();
                    out.push(c);
                    i = i + 1;
                }
                let r = Json::Array(out);
                assert(forall|k: int| 0 <= k < items@.len() ==> same_json(items@[k], r->Array_0@[k]));
                assert(same_json(Json::Array(*items), r));
                r
            },
            Json::Object(members) => {
                let mut out: Vec<(String, Json)> = Vec::new();
                let mut i: usize = 0;
                while i < members.len()
                    invariant
                        *self == Json::Object(*members),
                        0 <= i <= members.len(),
                        out@.len() == i,
                        forall|k: int| 0 <= k < i ==> #[trigger] members@[k].0@ == out@[k].0@,
                        forall|k: int| 0 <= k < i ==> #[trigger] same_json(members@[k].1, out@[k].1),
                    decreases members.len() - i,
                {
                    assert(decreases_to!(*self => (*self)->Object_0));
                    assert(decreases_to!(*members => members@));
                    assert(decreases_to!(members@ => members@[i as int]));
                    assert(decreases_to!(members@[i as int] => members@[i as int].1));
                    let v = members[i].1.deep_copy();
                    let key = members[i].0.clone();
                    out.push((key, v));
                    i = i + 1;
                }
                let r = Json::Object(out);
                assert(forall|k: int| 0 <= k < members@.len() ==> members@[k].0@ == r->Object_0@[k].0@
                    && same_json(members@[k].1, r->Object_0@[k].1));
                assert(same_json(Json::Object(*members), r));
                r
            },
        }
    }

    /// `value.get(key)`: the member `key` of an object.
    pub fn get(&self, key: &str) -> (r: Option<&Json>)
        ensures
            r matches Some(v) ==> json_get(*self, key@) == Some(*v),
            r is None ==> json_get(*self, key@) is None,
    {
        match self {
            Json::Object(members) => {
                let mut i: usize = 0;
                while i < members.len()
                    invariant
                        *self == Json::Object(*members),
                        0 <= i <= members.len(),
                        forall|k: int| 0 <= k < i ==> members@[k].0@ != key@,
                    decreases members.len() - i,
                {
                    if str_eq(members[i].0.as_str(), key) {
                        proof {
                            lemma_index_is_first(members@, key@, i as int);
                        }
                        return Some(&members[i].1);
                    }
                    i = i + 1;
                }
                proof {
                    lemma_member_index_bounds(members@, key@);
                }
                None
            },
            _ => None,
        }
    }

    /// The member `key` of an object, taken out of it; `None` for a missing
    /// key or a non-object.
    pub fn into_member(self, key: &str) -> (r: Option<Json>)
        ensures
            r == json_get(self, key@),
    {
        let ghost whole = self;
        match self {
            Json::Object(members) => {
                let mut members = members;
                let ghost ms = members@;
                let mut i: usize = 0;
                while i < members.len()
                    invariant
                        whole == self,
                        whole == Json::Object(members),
                        members@ == ms,
                        0 <= i <= members.len(),
                        forall|k: int| 0 <= k < i ==> ms[k].0@ != key@,
                    decreases members.len() - i,
                {
                    if str_eq(members[i].0.as_str(), key) {
                        proof {
                            lemma_index_is_first(ms, key@, i as int);
                        }
                        let pair = members.remove(i);
                        return Some(pair.1);
                    }
                    i = i + 1;
                }
                proof {
                    lemma_member_index_bounds(ms, key@);
                }
                None
            },
            _ => None,
        }
    }

    /// `value.as_str()`: the text of a string value.
    pub fn as_str(&self) -> (r: Option<&String>)
        ensures
            r matches Some(s) ==> json_str(*self) == Some(s@),
            r is None ==> json_str(*self) is None,
    {
        match self {
            Json::Str(s) => Some(s),
            _ => None,
        }
    }

    /// `value.as_array()`: the elements of an array value.
    pub fn as_array(&self) -> (r: Option<&Vec<Json>>)
        ensures
            r matches Some(a) ==> *self == Json::Array(*a),
            r is None ==> !(*self is Array),
    {
        match self {
            Json::Array(a) => Some(a),
            _ => None,
        }
    }

    /// The string under `key`, when this is an object holding one there.
    pub fn str_field(&self, key: &str) -> (r: Option<&String>)
        ensures
            r matches Some(s) ==> json_str_field(*self, key@) == Some(s@),
            r is None ==> json_str_field(*self, key@) is None,
    {
        match self.get(key) {
            Some(v) => v.as_str(),
            None => None,
        }
    }
}

proof fn lemma_index_is_first(members: Seq<(String, Json)>, key: Seq<char>, i: int)
    requires
        0 <= i < members.len(),
        members[i].0@ == key,
        forall|k: int| 0 <= k < i ==> members[k].0@ != key,
    ensures
        member_index(members, key) == Some(i),
    decreases i,
{
    if i > 0 {
        lemma_index_is_first(members.drop_first(), key, i - 1);
    }
}

} // verus!
