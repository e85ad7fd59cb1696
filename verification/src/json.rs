//! JSON values as the client inspects them, and the recognition of
//! JSON-RPC error replies.

use vstd::prelude::*;
use crate::text::{chars_of, same_chars};

verus! {

/// A JSON value. Numbers are told apart as the JSON reader classifies
/// them: unsigned integers, negative integers, and other numbers (held as
/// their `f64` bit pattern). Object members keep their order.
#[derive(Debug)]
pub enum JsonValue {
    Null,
    Bool(bool),
    UInt(u64),
    Int(i64),
    Float(u64),
    Text(String),
    Array(Vec<JsonValue>),
    Object(Vec<(String, JsonValue)>),
}

/// The value of the first member of `members` named `key`.
pub open spec fn member(members: Seq<(String, JsonValue)>, key: Seq<char>) -> Option<JsonValue>
    decreases members.len(),
{
    if members.len() == 0 {
        None
    } else if members[0].0@ == key {
        Some(members[0].1)
    } else {
        member(members.drop_first(), key)
    }
}

/// Whether `v` is a JSON-RPC 2.0 error reply: an object with a `jsonrpc`
/// member and an `error` object whose `code` is an integer. A plain JSON
/// document that merely has an `error` member is not one.
pub open spec fn is_error_envelope(v: JsonValue) -> bool {
    match v {
        JsonValue::Object(members) => {
            &&& member(members@, "jsonrpc"@) is Some
            &&& match member(members@, "error"@) {
                Some(JsonValue::Object(err)) => match member(err@, "code"@) {
                    Some(JsonValue::UInt(_)) => true,
                    Some(JsonValue::Int(_)) => true,
                    _ => false,
                },
                _ => false,
            }
        },
        _ => false,
    }
}

/// The first member of `members` named `key`.
pub fn get_member<'a>(members: &'a Vec<(String, JsonValue)>, key: &str) -> (r: Option<&'a JsonValue>)
    ensures
        match member(members@, key@) {
            Some(v) => r == Some(&v),
            None => r is None,
        },
{
    let k = chars_of(key);
    let mut i: usize = 0;
    assert(members@.skip(0) =~= members@);
    while i < members.len()
        invariant
            i <= members.len(),
            k@ == key@,
            member(members@, key@) == member(members@.skip(i as int), key@),
        decreases members.len() - i,
    {
        assert(members@.skip(i as int)[0] == members@[i as int]);
        assert(members@.skip(i as int).drop_first() =~= members@.skip(i + 1));
        if same_chars(&chars_of(members[i].0.as_str()), &k) {
            return Some(&members[i].1);
        }
        i = i + 1;
    }
    None
}

/// Decide whether a JSON reply is a JSON-RPC error reply.
pub fn is_jsonrpc_error_envelope(v: &JsonValue) -> (b: bool)
    ensures
        b == is_error_envelope(*v),
{
    let members = match v {
        JsonValue::Object(m) => m,
        _ => {
            return false;
        },
    };
    if get_member(members, "jsonrpc").is_none() {
        return false;
    }
    let err = match get_member(members, "error") {
        Some(JsonValue::Object(e)) => e,
        _ => {
            return false;
        },
    };
    match get_member(err, "code") {
        Some(JsonValue::UInt(_)) => true,
        Some(JsonValue::Int(_)) => true,
        _ => false,
    }
}

} // verus!
