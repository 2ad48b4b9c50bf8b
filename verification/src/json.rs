//! A JSON document as values: what the backup file is read from and written as. Turning text
//! into such a value, and a value into text, is the caller's; looking things up in it is here,
//! with the same answers `serde_json::Value`'s accessors give.

use vstd::prelude::*;
use crate::text::chars_eq;

verus! {

/// A JSON number, as the readings a file makes of it.
#[derive(Debug, Clone, Copy, PartialEq, Eq)]
pub struct JsonNumber {
    /// The number as an `i64`, when it is an integer that fits one.
    pub int: Option<i64>,
    /// The number as a `u64`, when it is a non-negative integer that fits one.
    pub uint: Option<u64>,
    /// The bits of the `f32` nearest to the number (`None` when the number is not read as a
    /// float at all).
    pub float: Option<u32>,
}

/// A JSON value. An object keeps its members in order.
pub enum JsonValue {
    Null,
    Bool(bool),
    Number(JsonNumber),
    Str(String),
    Array(Vec<JsonValue>),
    Object(Vec<(String, JsonValue)>),
}

/// The value under `key` in the members `m` — the first member with that key — or `null`.
pub open spec fn member(m: Seq<(String, JsonValue)>, key: Seq<char>) -> JsonValue
    decreases m.len(),
{
    if m.len() == 0 {
        JsonValue::Null
    } else if m[0].0@ == key {
        m[0].1
    } else {
        member(m.drop_first(), key)
    }
}

/// `v[key]`: the member of an object, `null` for a missing key or a value that is not an object.
pub open spec fn get(v: JsonValue, key: Seq<char>) -> JsonValue {
    match v {
        JsonValue::Object(m) => member(m@, key),
        _ => JsonValue::Null,
    }
}

/// The text of a string value.
pub open spec fn as_str(v: JsonValue) -> Option<Seq<char>> {
    match v {
        JsonValue::Str(s) => Some(s@),
        _ => None,
    }
}

/// The value of an integer that fits an `i64`.
pub open spec fn as_i64(v: JsonValue) -> Option<i64> {
    match v {
        JsonValue::Number(n) => n.int,
        _ => None,
    }
}

/// A boolean's value.
pub open spec fn as_bool(v: JsonValue) -> Option<bool> {
    match v {
        JsonValue::Bool(b) => Some(b),
        _ => None,
    }
}

/// A number read as an `f32`, by its bits.
pub open spec fn as_f32_bits(v: JsonValue) -> Option<u32> {
    match v {
        JsonValue::Number(n) => n.float,
        _ => None,
    }
}

/// The elements of an array.
pub open spec fn as_array(v: JsonValue) -> Option<Seq<JsonValue>> {
    match v {
        JsonValue::Array(a) => Some(a@),
        _ => None,
    }
}

/// The null value every missing member reads as.
pub fn null_ref() -> (r: &'static JsonValue)
    ensures
        *r == JsonValue::Null,
{
    &JsonValue::Null
}

impl JsonValue {
    /// `self[key]` (exec form of [`get`]).
    pub fn get<'a>(&'a self, key: &str) -> (r: &'a JsonValue)
        ensures
            *r == get(*self, key@),
    {
        match self {
            JsonValue::Object(m) => {
                let k = crate::text::chars_of(key);
                let mut i: usize = 0;
                assert(m@.skip(0) =~= m@);
                while i < m.len()
                    invariant
                        i <= m@.len(),
                        k@ == key@,
                        get(*self, key@) == member(m@, key@),
                        member(m@, key@) == member(m@.skip(i as int), key@),
                    decreases m.len() - i,
                {
                    proof {
                        assert(m@.skip(i as int).drop_first() =~= m@.skip(i + 1));
                        assert(m@.skip(i as int)[0] == m@[i as int]);
                    }
                    if chars_eq(&crate::text::chars_of(m[i].0.as_str()), &k) {
                        assert(member(m@.skip(i as int), key@) == m@[i as int].1);
                        return &m[i].1;
                    }
                    i = i + 1;
                }
                proof {
                    assert(m@.skip(i as int) =~= Seq::<(String, JsonValue)>::empty());
                }
                null_ref()
            }
            _ => null_ref(),
        }
    }

    /// The text of a string value (exec form of [`as_str`]).
    pub fn as_str(&self) -> (r: Option<&str>)
        ensures
            r is None <==> as_str(*self) is None,
            r matches Some(s) ==> as_str(*self) == Some(s@),
    {
        match self {
            JsonValue::Str(s) => Some(s.as_str()),
            _ => None,
        }
    }

    /// An integer's value (exec form of [`as_i64`]).
    pub fn as_i64(&self) -> (r: Option<i64>)
        ensures
            r == as_i64(*self),
    {
        match self {
            JsonValue::Number(n) => n.int,
            _ => None,
        }
    }

    /// A boolean's value (exec form of [`as_bool`]).
    pub fn as_bool(&self) -> (r: Option<bool>)
        ensures
            r == as_bool(*self),
    {
        match self {
            JsonValue::Bool(b) => Some(*b),
            _ => None,
        }
    }

    /// A number read as an `f32`, by its bits (exec form of [`as_f32_bits`]).
    pub fn as_f32_bits(&self) -> (r: Option<u32>)
        ensures
            r == as_f32_bits(*self),
    {
        match self {
            JsonValue::Number(n) => n.float,
            _ => None,
        }
    }

    /// The elements of an array (exec form of [`as_array`]).
    pub fn as_array(&self) -> (r: Option<&Vec<JsonValue>>)
        ensures
            r is None <==> as_array(*self) is None,
            r matches Some(a) ==> as_array(*self) == Some(a@),
    {
        match self {
            JsonValue::Array(a) => Some(a),
            _ => None,
        }
    }
}

/// The value under `key` in the members `m` — the first member with that key — if there is one.
pub open spec fn lookup_member(m: Seq<(String, JsonValue)>, key: Seq<char>) -> Option<JsonValue>
    decreases m.len(),
{
    if m.len() == 0 {
        None
    } else if m[0].0@ == key {
        Some(m[0].1)
    } else {
        lookup_member(m.drop_first(), key)
    }
}

/// `v.get(key)` as `serde_json` answers it: the member of an object, `None` for a missing key or
/// a value that is not an object.
pub open spec fn lookup(v: JsonValue, key: Seq<char>) -> Option<JsonValue> {
    match v {
        JsonValue::Object(m) => lookup_member(m@, key),
        _ => None,
    }
}

impl JsonValue {
    /// The member under `key`, if this is an object that has one (exec form of [`lookup`]).
    pub fn lookup<'a>(&'a self, key: &str) -> (r: Option<&'a JsonValue>)
        ensures
            r is None <==> lookup(*self, key@) is None,
            r matches Some(x) ==> lookup(*self, key@) == Some(*x),
    {
        match self {
            JsonValue::Object(m) => {
                let k = crate::text::chars_of(key);
                let mut i: usize = 0;
                assert(m@.skip(0) =~= m@);
                while i < m.len()
                    invariant
                        i <= m@.len(),
                        k@ == key@,
                        lookup(*self, key@) == lookup_member(m@, key@),
                        lookup_member(m@, key@) == lookup_member(m@.skip(i as int), key@),
                    decreases m.len() - i,
                {
                    proof {
                        assert(m@.skip(i as int).drop_first() =~= m@.skip(i + 1));
                        assert(m@.skip(i as int)[0] == m@[i as int]);
                    }
                    if chars_eq(&crate::text::chars_of(m[i].0.as_str()), &k) {
                        return Some(&m[i].1);
                    }
                    i = i + 1;
                }
                proof {
                    assert(m@.skip(i as int) =~= Seq::<(String, JsonValue)>::empty());
                }
                None
            }
            _ => None,
        }
    }
}

/// An integer as a JSON number.
pub open spec fn integer_number(n: i64) -> JsonNumber {
    JsonNumber { int: Some(n), uint: if n >= 0 { Some(n as u64) } else { None }, float: None }
}

/// An integer as a JSON number (exec form of [`integer_number`]).
pub fn integer(n: i64) -> (x: JsonNumber)
    ensures
        x == integer_number(n),
{
    JsonNumber { int: Some(n), uint: if n >= 0 { Some(n as u64) } else { None }, float: None }
}

/// The value of a non-negative integer that fits a `u64`.
pub open spec fn as_u64(v: JsonValue) -> Option<u64> {
    match v {
        JsonValue::Number(n) => n.uint,
        _ => None,
    }
}

/// The number is an integer (every number in the value is, for an array or object).
pub open spec fn integral(v: JsonValue) -> bool
    decreases v,
{
    match v {
        JsonValue::Number(n) => n.int is Some || n.uint is Some,
        JsonValue::Array(a) => integral_items(a@),
        JsonValue::Object(m) => integral_members(m@),
        _ => true,
    }
}

/// [`integral`] over an array's items.
pub open spec fn integral_items(a: Seq<JsonValue>) -> bool
    decreases a,
{
    a.len() == 0 || (integral(a[0]) && integral_items(a.subrange(1, a.len() as int)))
}

/// [`integral`] over an object's members.
pub open spec fn integral_members(m: Seq<(String, JsonValue)>) -> bool
    decreases m,
{
    m.len() == 0 || (integral(m[0].1) && integral_members(m.subrange(1, m.len() as int)))
}

/// How deeply containers nest in `v`: 0 for a scalar, one more than its deepest item for an
/// array or object.
pub open spec fn json_depth(v: JsonValue) -> nat
    decreases v,
{
    match v {
        JsonValue::Array(a) => 1 + items_depth(a@),
        JsonValue::Object(m) => 1 + members_depth(m@),
        _ => 0,
    }
}

/// [`json_depth`] of the deepest of an array's items (0 for none).
pub open spec fn items_depth(a: Seq<JsonValue>) -> nat
    decreases a,
{
    if a.len() == 0 {
        0
    } else {
        let first = json_depth(a[0]);
        let rest = items_depth(a.subrange(1, a.len() as int));
        if first >= rest { first } else { rest }
    }
}

/// [`json_depth`] of the deepest of an object's member values (0 for none).
pub open spec fn members_depth(m: Seq<(String, JsonValue)>) -> nat
    decreases m,
{
    if m.len() == 0 {
        0
    } else {
        let first = json_depth(m[0].1);
        let rest = members_depth(m.subrange(1, m.len() as int));
        if first >= rest { first } else { rest }
    }
}

} // verus!
