//! JSON values as the requests on the wire carry them.

use vstd::prelude::*;
use vstd::string::*;

verus! {

/// A JSON value. Of a number only this is kept: the unsigned integer that it
/// is, if it is one that fits 64 bits.
#[derive(Debug, PartialEq)]
pub enum Json {
    Null,
    Bool(bool),
    Number(Option<u64>),
    Text(String),
    Array(Vec<Json>),
    Object(Vec<(String, Json)>),
}

/// A JSON value as the parser hands it out.
#[verifier::external_type_specification]
#[verifier::external_body]
pub struct ExValue(serde_json::Value);

/// What the parser makes of a text: the value that the text denotes, or the
/// parser's words on why it denotes none.
pub uninterp spec fn parsed_json(text: Seq<char>) -> Result<Json, String>;

/// Copies a value of the parser into a value of this library, variant by
/// variant; `serde_json::Number::as_u64` tells what a number is. Nothing is
/// claimed of the result.
#[verifier::external_body]
fn json_of(value: &serde_json::Value) -> (json: Json) {
    match value {
        serde_json::Value::Null => Json::Null,
        serde_json::Value::Bool(b) => Json::Bool(*b),
        serde_json::Value::Number(n) => Json::Number(n.as_u64()),
        serde_json::Value::String(s) => Json::Text(s.clone()),
        serde_json::Value::Array(a) => Json::Array(a.iter().map(json_of).collect()),
        serde_json::Value::Object(o) => Json::Object(
            o.iter().map(|(k, v)| (k.clone(), json_of(v))).collect(),
        ),
    }
}

/// `serde_json::from_str`: reads a text as one JSON value. The result depends
/// on the text alone.
#[verifier::external_body]
pub(crate) fn parse_json(text: &str) -> (res: Result<Json, String>)
    ensures
        res == parsed_json(text@),
{
    serde_json::from_str::<serde_json::Value>(text).map(|value| json_of(&value)).map_err(
        |e| e.to_string(),
    )
}

/// The value is an object without members.
pub open spec fn is_empty_object(json: Json) -> bool {
    json matches Json::Object(fields) && fields@.len() == 0
}

/// The first value with the given name among the members of an object.
pub open spec fn member(fields: Seq<(String, Json)>, name: Seq<char>) -> Option<Json>
    decreases fields.len(),
{
    if fields.len() == 0 {
        None
    } else if fields[0].0@ == name {
        Some(fields[0].1)
    } else {
        member(fields.drop_first(), name)
    }
}

/// The place of the first member with the given name in an object.
pub fn find_member_index(fields: &Vec<(String, Json)>, name: &str) -> (found: Option<usize>)
    ensures
        match found {
            Some(i) => i < fields@.len() && member(fields@, name@) == Some(fields@[i as int].1),
            None => member(fields@, name@) is None,
        },
{
    let wanted = String::from_str(name);
    let mut i: usize = 0;
    assert(fields@.skip(0) =~= fields@);
    while i < fields.len()
        invariant
            i <= fields@.len(),
            wanted@ == name@,
            member(fields@.skip(i as int), name@) == member(fields@, name@),
        decreases fields@.len() - i,
    {
        proof {
            assert(fields@.skip(i as int)[0] == fields@[i as int]);
            assert(fields@.skip(i as int).drop_first() =~= fields@.skip(i + 1));
        }
        if fields[i].0 == wanted {
            return Some(i);
        }
        i += 1;
    }
    proof {
        assert(fields@.skip(i as int) =~= Seq::<(String, Json)>::empty());
    }
    None
}

/// The first value with the given name among the members of an object.
pub fn find_member<'a>(fields: &'a Vec<(String, Json)>, name: &str) -> (found: Option<&'a Json>)
    ensures
        match found {
            Some(json) => member(fields@, name@) == Some(*json),
            None => member(fields@, name@) is None,
        },
{
    match find_member_index(fields, name) {
        Some(i) => Some(&fields[i].1),
        None => None,
    }
}

} // verus!
