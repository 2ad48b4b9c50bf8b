//! JSON text, through `serde_json`: parsing a document, reading its members, and writing one.
//! A parsed document is a `serde_json::Value`, held as it is; what it holds is named
//! [`json_content`], as a [`JsonValue`].

use vstd::prelude::*;
use crate::json::{lookup, integral, json_depth, JsonValue};

verus! {

#[verifier::external_type_specification]
#[verifier::external_body]
pub struct ExDocument(serde_json::Value);

/// What a `serde_json::Value` holds, as a [`JsonValue`]: objects with their members in
/// `serde_json`'s order (by key), numbers with their integer readings.
pub uninterp spec fn json_content(v: serde_json::Value) -> JsonValue;

/// What `serde_json` parses the text `text` into, `None` where the text is not JSON.
pub uninterp spec fn parse_json_text(text: Seq<char>) -> Option<JsonValue>;

/// `serde_json::from_str::<Value>`: the document `text` holds, `None` where the text is not JSON.
/// The result is named [`parse_json_text`].
#[verifier::external_body]
pub(crate) fn parse_json(text: &str) -> (r: Option<serde_json::Value>)
    ensures
        r is None <==> parse_json_text(text@) is None,
        r matches Some(v) ==> parse_json_text(text@) == Some(json_content(v)),
{
    serde_json::from_str::<serde_json::Value>(text).ok()
}

/// `Value::get` with a string key: the member of an object under `key`, `None` for a missing key
/// or a value that is not an object (keys are unique in a parsed object).
#[verifier::external_body]
pub(crate) fn member<'a>(v: &'a serde_json::Value, key: &str) -> (r: Option<&'a serde_json::Value>)
    ensures
        r is None <==> lookup(json_content(*v), key@) is None,
        r matches Some(x) ==> lookup(json_content(*v), key@) == Some(json_content(*x)),
{
    v.get(key)
}

/// `Value::as_bool`: a boolean's value.
#[verifier::external_body]
pub(crate) fn as_bool_of(v: &serde_json::Value) -> (r: Option<bool>)
    ensures
        r == crate::json::as_bool(json_content(*v)),
{
    v.as_bool()
}

/// `Value::as_u64`: a non-negative integer that fits a `u64`.
#[verifier::external_body]
pub(crate) fn as_u64_of(v: &serde_json::Value) -> (r: Option<u64>)
    ensures
        r == crate::json::as_u64(json_content(*v)),
{
    v.as_u64()
}

/// `Value::as_str`: a string's text.
#[verifier::external_body]
pub(crate) fn as_str_of<'a>(v: &'a serde_json::Value) -> (r: Option<&'a str>)
    ensures
        r is None <==> crate::json::as_str(json_content(*v)) is None,
        r matches Some(t) ==> crate::json::as_str(json_content(*v)) == Some(t@),
{
    v.as_str()
}

/// `Value::Null`.
#[verifier::external_body]
pub(crate) fn null_value() -> (r: serde_json::Value)
    ensures
        json_content(r) == JsonValue::Null,
{
    serde_json::Value::Null
}

/// `Value::from(bool)`.
#[verifier::external_body]
pub(crate) fn bool_value(b: bool) -> (r: serde_json::Value)
    ensures
        json_content(r) == JsonValue::Bool(b),
{
    serde_json::Value::from(b)
}

/// `Value::from(u64)`: a number whose integer readings are `n`.
#[verifier::external_body]
pub(crate) fn u64_value(n: u64) -> (r: serde_json::Value)
    ensures
        crate::json::as_u64(json_content(r)) == Some(n),
        crate::json::as_i64(json_content(r)) == (if n <= i64::MAX { Some(n as i64) } else { None }),
{
    serde_json::Value::from(n)
}

/// `Value::from(String)`.
#[verifier::external_body]
pub(crate) fn string_value(s: String) -> (r: serde_json::Value)
    ensures
        crate::json::as_str(json_content(r)) == Some(s@),
{
    serde_json::Value::from(s)
}

/// The content of the last of `members` under `key`.
pub open spec fn last_member(members: Seq<(String, serde_json::Value)>, key: Seq<char>) -> Option<JsonValue>
    decreases members.len(),
{
    if members.len() == 0 {
        None
    } else if members.last().0@ == key {
        Some(json_content(members.last().1))
    } else {
        last_member(members.drop_last(), key)
    }
}

/// No two of `members` share the key `key`.
pub open spec fn key_at_most_once(members: Seq<(String, serde_json::Value)>, key: Seq<char>) -> bool {
    forall|i: int, j: int| 0 <= i < j < members.len() && #[trigger] members[i].0@ == key ==> #[trigger] members[j].0@ != key
}

/// `Value::Object` of a `serde_json::Map` collected from `members`: an object with a member under
/// exactly the keys given, holding, for a key given once, the value given with it (which of two
/// values under one key survives is left unsaid). An object of scalars nests one level deep.
#[verifier::external_body]
pub(crate) fn object_value(members: Vec<(String, serde_json::Value)>) -> (r: serde_json::Value)
    ensures
        json_content(r) is Object,
        forall|k: Seq<char>| #[trigger] lookup(json_content(r), k) is None <==> last_member(members@, k) is None,
        forall|k: Seq<char>| key_at_most_once(members@, k) ==> #[trigger] lookup(json_content(r), k) == last_member(members@, k),
        (forall|i: int| 0 <= i < members@.len() ==> integral(json_content(#[trigger] members@[i].1)))
            ==> integral(json_content(r)),
        (forall|i: int| 0 <= i < members@.len() ==> json_depth(json_content(#[trigger] members@[i].1)) == 0)
            ==> json_depth(json_content(r)) == 1,
{
    serde_json::Value::Object(members.into_iter().collect())
}

/// `serde_json::to_string_pretty` of a value: it never fails on a `Value`, and where every number
/// in it is an integer and containers nest fewer than 128 levels deep (the most `from_str` reads
/// back), parsing the text gives the same value back. Which text it is beyond that (layout,
/// and the digits of a non-integer number) is left unsaid.
#[verifier::external_body]
pub(crate) fn pretty_text(v: &serde_json::Value) -> (r: Option<String>)
    ensures
        r is Some,
        r matches Some(t) ==> (integral(json_content(*v)) && json_depth(json_content(*v)) < 128
            ==> parse_json_text(t@) == Some(json_content(*v))),
{
    serde_json::to_string_pretty(v).ok()
}

} // verus!
