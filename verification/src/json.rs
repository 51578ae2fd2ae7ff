//! JSON documents as plain values (what the map files and API replies hold).

use vstd::prelude::*;

verus! {

/// A JSON number, as `serde_json` keeps it: a non-negative integer, a
/// negative integer, or a float (whose value the library never reads).
#[derive(Debug, Clone, Copy, PartialEq, Eq, Structural)]
pub enum JsonNumber {
    PosInt(u64),
    NegInt(i64),
    Float,
}

/// A JSON value; an object keeps its members in order, one per key.
#[derive(Debug)]
pub enum JsonValue {
    Null,
    Bool(bool),
    Number(JsonNumber),
    Str(String),
    Array(Vec<JsonValue>),
    Object(Vec<(String, JsonValue)>),
}

/// The value of the first member named `key`.
pub open spec fn member_spec(members: Seq<(String, JsonValue)>, key: Seq<char>) -> Option<JsonValue>
    decreases members.len(),
{
    if members.len() == 0 {
        None
    } else if members[0].0@ == key {
        Some(members[0].1)
    } else {
        member_spec(members.drop_first(), key)
    }
}

/// `Value::as_u64`.
pub open spec fn as_u64_spec(v: JsonValue) -> Option<u64> {
    match v {
        JsonValue::Number(JsonNumber::PosInt(n)) => Some(n),
        _ => None,
    }
}

/// `Value::as_str`.
pub open spec fn as_str_spec(v: JsonValue) -> Option<Seq<char>> {
    match v {
        JsonValue::Str(s) => Some(s@),
        _ => None,
    }
}

/// The member named `key` of an object (`Map::get`).
pub fn member<'a>(members: &'a Vec<(String, JsonValue)>, key: &str) -> (r: Option<&'a JsonValue>)
    ensures
        match r {
            Some(v) => member_spec(members@, key@) == Some(*v),
            None => member_spec(members@, key@) is None,
        },
{
    let key_chars = crate::text::chars_of(key);
    let mut i: usize = 0;
    assert(members@.subrange(0, members@.len() as int) == members@);
    while i < members.len()
        invariant
            i <= members@.len(),
            key_chars@ == key@,
            member_spec(members@, key@) == member_spec(members@.subrange(i as int, members@.len() as int), key@),
        decreases members@.len() - i,
    {
        let ghost rest = members@.subrange(i as int, members@.len() as int);
        let name = crate::text::chars_of(members[i].0.as_str());
        if crate::text::eq_chars(&name, &key_chars) {
            assert(rest[0] == members@[i as int]);
            return Some(&members[i].1);
        }
        assert(rest.drop_first() == members@.subrange(i + 1, members@.len() as int));
        i = i + 1;
    }
    None
}

/// `Value::as_u64`.
pub fn as_u64(v: &JsonValue) -> (r: Option<u64>)
    ensures
        r == as_u64_spec(*v),
{
    match v {
        JsonValue::Number(JsonNumber::PosInt(n)) => Some(*n),
        _ => None,
    }
}

} // verus!
