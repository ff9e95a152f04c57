//! JSON documents, as `serde_json` reads and writes them.

use vstd::prelude::*;

use crate::text::opt_text;
use vstd::utf8::encode_utf8;

verus! {

/// What a JSON value holds. A number is a whole number from zero up, a whole
/// number below zero, or else given by its bits.
pub enum Json {
    Null,
    Bool(bool),
    Whole(u64),
    Negative(i64),
    Fraction(u64),
    Text(Seq<char>),
    List(Seq<Json>),
    Object(Map<Seq<char>, Json>),
}

/// The members of a JSON object.
pub type Members = Map<Seq<char>, Json>;

/// A parsed JSON value.
#[verifier::external_type_specification]
#[verifier::external_body]
pub struct ExValue(serde_json::Value);

/// A JSON object.
#[verifier::external_type_specification]
#[verifier::external_body]
#[verifier::reject_recursive_types(K)]
#[verifier::reject_recursive_types(V)]
pub struct ExObject<K, V>(serde_json::Map<K, V>);

/// What a parsed value holds.
pub uninterp spec fn json_tree(v: serde_json::Value) -> Json;

/// The members that an object holds.
pub uninterp spec fn json_members(m: serde_json::Map<String, serde_json::Value>) -> Members;

/// What `serde_json::from_slice` reads from some bytes.
pub uninterp spec fn json_read(bytes: Seq<u8>) -> Option<Json>;

/// The text that `serde_json::to_string` writes for an object with these members.
pub uninterp spec fn json_written(members: Members) -> Option<Seq<char>>;

/// What an optional value holds.
pub open spec fn opt_tree(v: Option<serde_json::Value>) -> Option<Json> {
    match v {
        Some(x) => Some(json_tree(x)),
        None => None,
    }
}

/// The member `key` of a JSON value, where the value is an object that has it.
pub open spec fn member_of(v: Json, key: Seq<char>) -> Option<Json> {
    match v {
        Json::Object(m) => if m.contains_key(key) {
            Some(m[key])
        } else {
            None
        },
        _ => None,
    }
}

/// The text that a JSON value is, where it is one.
pub open spec fn text_of(v: Option<Json>) -> Option<Seq<char>> {
    match v {
        Some(Json::Text(t)) => Some(t),
        _ => None,
    }
}

/// The text member `key` of a JSON value.
pub open spec fn text_member(v: Json, key: Seq<char>) -> Option<Seq<char>> {
    text_of(member_of(v, key))
}

/// The object without members.
pub open spec fn no_members() -> Members {
    Map::empty()
}

/// No member is a list, an object or a fraction.
pub open spec fn is_flat(members: Members) -> bool {
    forall|k: Seq<char>| #[trigger]
        members.contains_key(k) ==> match members[k] {
            Json::Null | Json::Bool(_) | Json::Whole(_) | Json::Negative(_) | Json::Text(_) => true,
            _ => false,
        }
}

/// `serde_json::from_slice`: the value that the bytes spell, or none where
/// they are no JSON document.
#[verifier::external_body]
pub(crate) fn read_json(bytes: &[u8]) -> (r: Option<serde_json::Value>)
    ensures
        opt_tree(r) == json_read(bytes@),
{
    serde_json::from_slice::<serde_json::Value>(bytes).ok()
}

/// `serde_json::Value::get` with a text as its index: the member of that
/// name, where the value is an object that has it.
#[verifier::external_body]
pub(crate) fn get_member<'a>(v: &'a serde_json::Value, key: &str) -> (r: Option<
    &'a serde_json::Value,
>)
    ensures
        match r {
            Some(x) => member_of(json_tree(*v), key@) == Some(json_tree(*x)),
            None => member_of(json_tree(*v), key@) is None,
        },
{
    v.get(key)
}

/// `serde_json::Value::as_str`: the text that the value is, where it is one.
#[verifier::external_body]
pub(crate) fn as_text(v: &serde_json::Value) -> (r: Option<String>)
    ensures
        opt_text(r) == text_of(Some(json_tree(*v))),
{
    v.as_str().map(|s| s.to_string())
}

/// `serde_json::Value::as_array`: the values of the list that the value is,
/// where it is one.
#[verifier::external_body]
pub(crate) fn as_list(v: &serde_json::Value) -> (r: Option<&Vec<serde_json::Value>>)
    ensures
        match r {
            Some(items) => json_tree(*v) matches Json::List(l) && l.len() == items@.len() && (forall|
                i: int,
            |
                0 <= i < l.len() ==> json_tree(#[trigger] items@[i]) == l[i]),
            None => !(json_tree(*v) is List),
        },
{
    v.as_array()
}

/// The variant `serde_json::Value::Object` taken apart: the object that the
/// value is, where it is one.
#[verifier::external_body]
pub(crate) fn into_object(v: serde_json::Value) -> (r: Option<
    serde_json::Map<String, serde_json::Value>,
>)
    ensures
        match r {
            Some(m) => json_tree(v) == Json::Object(json_members(m)),
            None => !(json_tree(v) is Object),
        },
{
    match v {
        serde_json::Value::Object(m) => Some(m),
        _ => None,
    }
}

/// `serde_json::Map::new`: an object without members.
#[verifier::external_body]
pub(crate) fn new_object() -> (r: serde_json::Map<String, serde_json::Value>)
    ensures
        json_members(r) == no_members(),
{
    serde_json::Map::new()
}

/// `serde_json::Map::insert` of a text.
#[verifier::external_body]
pub(crate) fn put_text(
    m: &mut serde_json::Map<String, serde_json::Value>,
    key: &str,
    value: &str,
)
    ensures
        json_members(*final(m)) == json_members(*old(m)).insert(key@, Json::Text(value@)),
{
    m.insert(key.to_string(), serde_json::Value::String(value.to_string()));
}

/// `serde_json::Map::insert` of a whole number.
#[verifier::external_body]
pub(crate) fn put_whole(m: &mut serde_json::Map<String, serde_json::Value>, key: &str, value: u64)
    ensures
        json_members(*final(m)) == json_members(*old(m)).insert(key@, Json::Whole(value)),
{
    m.insert(key.to_string(), serde_json::Value::Number(value.into()));
}

/// `serde_json::Map::insert` of a truth value.
#[verifier::external_body]
pub(crate) fn put_bool(m: &mut serde_json::Map<String, serde_json::Value>, key: &str, value: bool)
    ensures
        json_members(*final(m)) == json_members(*old(m)).insert(key@, Json::Bool(value)),
{
    m.insert(key.to_string(), serde_json::Value::Bool(value));
}

/// `serde_json::Map::insert` of an object.
#[verifier::external_body]
pub(crate) fn put_object(
    m: &mut serde_json::Map<String, serde_json::Value>,
    key: &str,
    value: serde_json::Map<String, serde_json::Value>,
)
    ensures
        json_members(*final(m)) == json_members(*old(m)).insert(
            key@,
            Json::Object(json_members(value)),
        ),
{
    m.insert(key.to_string(), serde_json::Value::Object(value));
}

/// `serde_json::to_string` of an object: its text, from which an object that
/// is flat is read back as it was. There always is one, since the keys are
/// texts, the values are JSON, and it is written to memory.
#[verifier::external_body]
pub(crate) fn write_object(m: &serde_json::Map<String, serde_json::Value>) -> (r: Option<String>)
    ensures
        opt_text(r) == json_written(json_members(*m)),
        r is Some,
        r is Some && is_flat(json_members(*m)) ==> json_read(encode_utf8(r->0@)) == Some(
            Json::Object(json_members(*m)),
        ),
{
    serde_json::to_string(m).ok()
}

} // verus!
