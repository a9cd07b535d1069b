//! A JSON document as plain values, with the lookups that the response and
//! plan readers use.

use vstd::prelude::*;
use crate::text::str_eq;

verus! {

/// A JSON value.
#[derive(Debug)]
pub enum JsonValue {
    Null,
    Bool(bool),
    /// A number; holds its value when it is a whole number from 0 to
    /// `u64::MAX`, else nothing.
    Number(Option<u64>),
    String(String),
    Array(Vec<JsonValue>),
    /// Members in document order; a key occurs at most once.
    Object(Vec<(String, JsonValue)>),
}

/// The value of the first member named `key` among `es`, from `i` on.
pub open spec fn member_from(es: Seq<(String, JsonValue)>, key: Seq<char>, i: int) -> Option<JsonValue>
    decreases es.len() - i,
{
    if i < 0 || i >= es.len() {
        None
    } else if es[i].0@ == key {
        Some(es[i].1)
    } else {
        member_from(es, key, i + 1)
    }
}

/// The member `key` of an object; nothing for other values.
pub open spec fn json_get(v: JsonValue, key: Seq<char>) -> Option<JsonValue> {
    match v {
        JsonValue::Object(es) => member_from(es@, key, 0),
        _ => None,
    }
}

/// What `serde_json::from_str::<serde_json::Value>` makes of `text`: the
/// document's value, or the text of serde_json's error.
pub uninterp spec fn json_of(text: Seq<char>) -> Result<JsonValue, Seq<char>>;

/// serde_json's document value, carried into [`to_json_value`].
#[verifier::external_type_specification]
#[verifier::external_body]
pub struct ExJsonDocument(serde_json::Value);

/// Converts a serde_json value one for one: null, booleans, strings, arrays
/// and objects keep their shape, and a number keeps its value where
/// `as_u64` gives one (object members come in serde_json's key order).
/// Nothing is claimed of the result here; [`parse_json`] states what a
/// parse gives.
#[verifier::external_body]
fn to_json_value(v: serde_json::Value) -> (res: JsonValue) {
    match v {
        serde_json::Value::Null => JsonValue::Null,
        serde_json::Value::Bool(b) => JsonValue::Bool(b),
        serde_json::Value::Number(n) => JsonValue::Number(n.as_u64()),
        serde_json::Value::String(t) => JsonValue::String(t),
        serde_json::Value::Array(a) => JsonValue::Array(a.into_iter().map(to_json_value).collect()),
        serde_json::Value::Object(o) => JsonValue::Object(o.into_iter().map(|(k, x)| (k, to_json_value(x))).collect()),
    }
}

/// Parses `text` with `serde_json::from_str::<serde_json::Value>`. The
/// result is named by [`json_of`]: the document converted one for one, or
/// the error's text (`Display` of `serde_json::Error`).
#[verifier::external_body]
pub(crate) fn parse_json(text: &str) -> (res: Result<JsonValue, String>)
    ensures
        match res {
            Ok(v) => json_of(text@) == Ok::<JsonValue, Seq<char>>(v),
            Err(e) => json_of(text@) == Err::<JsonValue, Seq<char>>(e@),
        },
{
    match serde_json::from_str::<serde_json::Value>(text) {
        Ok(v) => Ok(to_json_value(v)),
        Err(e) => Err(e.to_string()),
    }
}

/// The member `key` of `v`, when `v` is there.
pub open spec fn json_get_opt(v: Option<JsonValue>, key: Seq<char>) -> Option<JsonValue> {
    match v {
        Some(x) => json_get(x, key),
        None => None,
    }
}

/// The text of a string value.
pub open spec fn json_str(v: Option<JsonValue>) -> Option<Seq<char>> {
    match v {
        Some(JsonValue::String(s)) => Some(s@),
        _ => None,
    }
}

/// The value of a whole number that fits in 64 bits.
pub open spec fn json_u64(v: Option<JsonValue>) -> Option<u64> {
    match v {
        Some(JsonValue::Number(n)) => n,
        _ => None,
    }
}

/// The truth value of a boolean.
pub open spec fn json_bool(v: Option<JsonValue>) -> Option<bool> {
    match v {
        Some(JsonValue::Bool(b)) => Some(b),
        _ => None,
    }
}

/// The items of an array.
pub open spec fn json_items(v: Option<JsonValue>) -> Option<Seq<JsonValue>> {
    match v {
        Some(JsonValue::Array(items)) => Some(items@),
        _ => None,
    }
}

/// The value at a path of member names.
pub open spec fn json_path(v: JsonValue, path: Seq<Seq<char>>) -> Option<JsonValue>
    decreases path.len(),
{
    if path.len() == 0 {
        Some(v)
    } else {
        json_get_opt(json_path(v, path.drop_last()), path.last())
    }
}

impl JsonValue {
    /// The member `key`, when this is an object that has one.
    pub fn get(&self, key: &str) -> (res: Option<&JsonValue>)
        ensures
            match res {
                Some(x) => json_get(*self, key@) == Some(*x),
                None => json_get(*self, key@) is None,
            },
    {
        match self {
            JsonValue::Object(es) => {
                assert(json_get(*self, key@) == member_from(es@, key@, 0));
                let mut i: usize = 0;
                while i < es.len()
                    invariant
                        i <= es@.len(),
                        json_get(*self, key@) == member_from(es@, key@, 0),
                        member_from(es@, key@, 0) == member_from(es@, key@, i as int),
                    decreases es@.len() - i,
                {
                    if str_eq(es[i].0.as_str(), key) {
                        let x = &es[i].1;
                        assert(member_from(es@, key@, i as int) == Some(es@[i as int].1));
                        assert(*x == es@[i as int].1);
                        return Some(x);
                    }
                    i = i + 1;
                }
                None
            },
            _ => None,
        }
    }

    /// The text, when this is a string.
    pub fn as_str(&self) -> (res: Option<&str>)
        ensures
            match res {
                Some(s) => json_str(Some(*self)) == Some(s@),
                None => json_str(Some(*self)) is None,
            },
    {
        match self {
            JsonValue::String(s) => Some(s.as_str()),
            _ => None,
        }
    }

    /// The value, when this is a whole number that fits in 64 bits.
    pub fn as_u64(&self) -> (res: Option<u64>)
        ensures
            res == json_u64(Some(*self)),
    {
        match self {
            JsonValue::Number(n) => *n,
            _ => None,
        }
    }

    /// The truth value, when this is a boolean.
    pub fn as_bool(&self) -> (res: Option<bool>)
        ensures
            res == json_bool(Some(*self)),
    {
        match self {
            JsonValue::Bool(b) => Some(*b),
            _ => None,
        }
    }

    /// The items, when this is an array.
    pub fn as_array(&self) -> (res: Option<&Vec<JsonValue>>)
        ensures
            match res {
                Some(items) => json_items(Some(*self)) == Some(items@),
                None => json_items(Some(*self)) is None,
            },
    {
        match self {
            JsonValue::Array(items) => Some(items),
            _ => None,
        }
    }
}

/// Follows a path of member names.
pub fn get_path<'a>(v: &'a JsonValue, path: &[&str]) -> (res: Option<&'a JsonValue>)
    ensures
        match res {
            Some(x) => json_path(*v, path@.map_values(|p: &str| p@)) == Some(*x),
            None => json_path(*v, path@.map_values(|p: &str| p@)) is None,
        },
{
    let ghost names = path@.map_values(|p: &str| p@);
    let mut cur: Option<&JsonValue> = Some(v);
    let mut i: usize = 0;
    assert(names.take(0) =~= Seq::<Seq<char>>::empty());
    while i < path.len()
        invariant
            i <= path@.len(),
            names == path@.map_values(|p: &str| p@),
            match cur {
                Some(x) => json_path(*v, names.take(i as int)) == Some(*x),
                None => json_path(*v, names.take(i as int)) is None,
            },
        decreases path@.len() - i,
    {
        assert(names.take(i + 1).drop_last() =~= names.take(i as int));
        assert(names.take(i + 1).last() == path@[i as int]@);
        cur = match cur {
            Some(x) => x.get(path[i]),
            None => None,
        };
        i = i + 1;
    }
    assert(names.take(path@.len() as int) =~= names);
    cur
}

/// The text at a path of member names.
pub fn string_field(v: &JsonValue, path: &[&str]) -> (res: Option<String>)
    ensures
        match res {
            Some(s) => json_str(json_path(*v, path@.map_values(|p: &str| p@))) == Some(s@),
            None => json_str(json_path(*v, path@.map_values(|p: &str| p@))) is None,
        },
{
    match get_path(v, path) {
        Some(x) => match x.as_str() {
            Some(s) => Some(String::from_str(s)),
            None => None,
        },
        None => None,
    }
}

} // verus!
