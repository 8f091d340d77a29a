//! JSON documents as plain values, and the reads the tool decoders make of
//! them: an object's member by name, and a member taken as text, as an
//! unsigned integer, as a flag, or as a list.
use vstd::prelude::*;

use crate::paths::eq_str;
use crate::text::{chars_of, string_of};

verus! {

/// A parsed JSON document. Object members keep the order in which the parser
/// hands them over (each name once); a number is kept as its value when it is
/// an integer in `0..=u64::MAX`, and as `Num(None)` otherwise.
#[derive(Debug)]
pub enum Json {
    Null,
    Bool(bool),
    Num(Option<u64>),
    Str(String),
    Arr(Vec<Json>),
    Obj(Vec<(String, Json)>),
}

/// `serde_json::Value`, carried opaque through the conversion below.
#[verifier::external_type_specification]
#[verifier::external_body]
pub struct ExJsonValue(serde_json::Value);

/// The document that `serde_json` parses a text into, as [`Json`]; `None`
/// when the text is not one JSON value.
pub uninterp spec fn json_doc(text: Seq<char>) -> Option<Json>;

/// `serde_json::from_str::<serde_json::Value>`, converted to [`Json`]. The
/// claim is only that the result is a function of the text: the same text
/// always gives the same document. What that document is (the JSON grammar)
/// is left unsaid.
#[verifier::external_body]
fn decode_json(text: &str) -> (r: Option<Json>)
    ensures
        r == json_doc(text@),
{
    serde_json::from_str::<serde_json::Value>(text).ok().map(plain_json)
}

/// The variant-for-variant conversion that `decode_json` applies to what
/// `serde_json` parsed: each `serde_json::Value` variant to the [`Json`]
/// variant of the same name, a number through `serde_json::Number::as_u64`,
/// an object's members in the map's own order. Nothing is stated of it.
#[verifier::external_body]
fn plain_json(v: serde_json::Value) -> Json {
    match v {
        serde_json::Value::Null => Json::Null,
        serde_json::Value::Bool(b) => Json::Bool(b),
        serde_json::Value::Number(n) => Json::Num(n.as_u64()),
        serde_json::Value::String(s) => Json::Str(s),
        serde_json::Value::Array(a) => Json::Arr(a.into_iter().map(plain_json).collect()),
        serde_json::Value::Object(m) => Json::Obj(m.into_iter().map(|(k, x)| (k, plain_json(x))).collect()),
    }
}

/// The document a text parses to (`None` when it is not JSON).
pub fn parse_json(text: &str) -> (r: Option<Json>)
    ensures
        r == json_doc(text@),
{
    decode_json(text)
}

pub open spec fn un_ref(o: Option<&Json>) -> Option<Json> {
    match o {
        Some(x) => Some(*x),
        None => None,
    }
}

/// The first member named `key` of a member list.
pub open spec fn member_in(ms: Seq<(String, Json)>, key: Seq<char>) -> Option<Json>
    decreases ms.len(),
{
    if ms.len() == 0 {
        None
    } else if ms[0].0@ == key {
        Some(ms[0].1)
    } else {
        member_in(ms.drop_first(), key)
    }
}

/// The member `key` of an object; `None` for anything else.
pub open spec fn member_spec(j: Option<Json>, key: Seq<char>) -> Option<Json> {
    match j {
        Some(Json::Obj(ms)) => member_in(ms@, key),
        _ => None,
    }
}

/// A string's text (`Value::as_str`).
pub open spec fn text_spec(j: Option<Json>) -> Option<Seq<char>> {
    match j {
        Some(Json::Str(s)) => Some(s@),
        _ => None,
    }
}

/// An unsigned integer (`Value::as_u64`).
pub open spec fn u64_spec(j: Option<Json>) -> Option<u64> {
    match j {
        Some(Json::Num(n)) => n,
        _ => None,
    }
}

/// A flag (`Value::as_bool`).
pub open spec fn bool_spec(j: Option<Json>) -> Option<bool> {
    match j {
        Some(Json::Bool(b)) => Some(b),
        _ => None,
    }
}

/// A list's items; none for anything that is not a list.
pub open spec fn items_spec(j: Option<Json>) -> Seq<Json> {
    match j {
        Some(Json::Arr(v)) => v@,
        _ => Seq::empty(),
    }
}

/// The member `key` of `j`, when `j` is an object that has one.
pub fn member<'a>(j: Option<&'a Json>, key: &str) -> (r: Option<&'a Json>)
    ensures
        un_ref(r) == member_spec(un_ref(j), key@),
{
    match j {
        Some(Json::Obj(ms)) => {
            let mut i: usize = 0;
            assert(ms@.skip(0) =~= ms@);
            while i < ms.len()
                invariant
                    i <= ms@.len(),
                    member_spec(un_ref(j), key@) == member_in(ms@, key@),
                    member_in(ms@, key@) == member_in(ms@.skip(i as int), key@),
                decreases ms.len() - i,
            {
                assert(ms@.skip(i as int).drop_first() =~= ms@.skip(i + 1));
                let name = chars_of(ms[i].0.as_str());
                if eq_str(&name, key) {
                    let ghost rest = ms@.skip(i as int);
                    assert(rest[0] == ms@[i as int]);
                    assert(rest[0].0@ == key@);
                    assert(member_in(rest, key@) == Some(rest[0].1));
                    return Some(&ms[i].1);
                }
                i += 1;
            }
            assert(ms@.skip(i as int) =~= Seq::<(String, Json)>::empty());
            None
        },
        _ => None,
    }
}

/// The text of `j`, when it is a string.
pub fn text_of(j: Option<&Json>) -> (r: Option<String>)
    ensures
        match r {
            Some(s) => text_spec(un_ref(j)) == Some(s@),
            None => text_spec(un_ref(j)) is None,
        },
{
    match j {
        Some(Json::Str(s)) => Some(string_of(&chars_of(s.as_str()))),
        _ => None,
    }
}

/// The value of `j`, when it is an unsigned integer.
pub fn u64_of(j: Option<&Json>) -> (r: Option<u64>)
    ensures
        r == u64_spec(un_ref(j)),
{
    match j {
        Some(Json::Num(n)) => *n,
        _ => None,
    }
}

/// The value of `j`, when it is a flag.
pub fn bool_of(j: Option<&Json>) -> (r: Option<bool>)
    ensures
        r == bool_spec(un_ref(j)),
{
    match j {
        Some(Json::Bool(b)) => Some(*b),
        _ => None,
    }
}

/// The items of `j`, when it is a list.
pub fn items_of<'a>(j: Option<&'a Json>) -> (r: Option<&'a Vec<Json>>)
    ensures
        match r {
            Some(v) => un_ref(j) == Some(Json::Arr(*v)),
            None => !(un_ref(j) matches Some(Json::Arr(_))),
        },
{
    match j {
        Some(Json::Arr(v)) => Some(v),
        _ => None,
    }
}

} // verus!
