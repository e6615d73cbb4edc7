//! JSON values as the mesh reads them: a plain tree of the values that the
//! message decoder inspects, the parser that produces it from a received line,
//! and the accessors (`get`, `as_str`, `as_u64`, ...) with their specifications.

use vstd::prelude::*;
use serde_json::Value;

verus! {

/// A parsed JSON value. Numbers keep what `serde_json` reports of them as a
/// `u64` and as an `i64`; objects keep their entries in the parser's order.
#[derive(Debug)]
pub enum JsonValue {
    Null,
    Bool(bool),
    Number { as_u64: Option<u64>, as_i64: Option<i64> },
    Str(String),
    Array(Vec<JsonValue>),
    Object(Vec<(String, JsonValue)>),
}

/// The value that `serde_json` parses from the text `line`, or `None` when the
/// text is not JSON. It depends on the text alone.
pub uninterp spec fn json_of(line: Seq<char>) -> Option<JsonValue>;

/// Copies a `serde_json::Value` into the library's tree, variant by variant.
#[verifier::external_body]
fn json_value_from(v: &Value) -> JsonValue {
    match v {
        Value::Null => JsonValue::Null,
        Value::Bool(b) => JsonValue::Bool(*b),
        Value::Number(n) => JsonValue::Number { as_u64: n.as_u64(), as_i64: n.as_i64() },
        Value::String(s) => JsonValue::Str(s.clone()),
        Value::Array(a) => JsonValue::Array(a.iter().map(json_value_from).collect()),
        Value::Object(o) => JsonValue::Object(o.iter().map(|(k, x)| (k.clone(), json_value_from(x))).collect()),
    }
}

/// Calls `serde_json::from_str::<serde_json::Value>` on `line`. Claimed: the result
/// is the parse of the text (`None` on a syntax error), named `json_of`; the value
/// itself is not stated.
#[verifier::external_body]
pub fn parse_json_line(line: &str) -> (v: Option<JsonValue>)
    ensures
        v == json_of(line@),
{
    serde_json::from_str::<Value>(line).ok().map(|v| json_value_from(&v))
}

/// The value of the first entry named `key` among `entries`.
pub open spec fn field(entries: Seq<(String, JsonValue)>, key: Seq<char>) -> Option<JsonValue>
    decreases entries.len(),
{
    if entries.len() == 0 {
        None
    } else {
        match field(entries.drop_last(), key) {
            Some(x) => Some(x),
            None => if entries.last().0@ == key {
                Some(entries.last().1)
            } else {
                None
            },
        }
    }
}

/// `v[key]` for an object `v`; `None` for a missing key or a value that is not an object.
pub open spec fn get(v: JsonValue, key: Seq<char>) -> Option<JsonValue> {
    match v {
        JsonValue::Object(entries) => field(entries@, key),
        _ => None,
    }
}

/// The text of a string value.
pub open spec fn as_str(v: Option<JsonValue>) -> Option<String> {
    match v {
        Some(JsonValue::Str(s)) => Some(s),
        _ => None,
    }
}

/// A number that is a `u64`.
pub open spec fn as_u64(v: Option<JsonValue>) -> Option<u64> {
    match v {
        Some(JsonValue::Number { as_u64, .. }) => as_u64,
        _ => None,
    }
}

/// A number that is an `i64`.
pub open spec fn as_i64(v: Option<JsonValue>) -> Option<i64> {
    match v {
        Some(JsonValue::Number { as_i64, .. }) => as_i64,
        _ => None,
    }
}

/// A boolean value.
pub open spec fn as_bool(v: Option<JsonValue>) -> Option<bool> {
    match v {
        Some(JsonValue::Bool(b)) => Some(b),
        _ => None,
    }
}

/// The elements of an array value.
pub open spec fn as_array(v: Option<JsonValue>) -> Option<Seq<JsonValue>> {
    match v {
        Some(JsonValue::Array(items)) => Some(items@),
        _ => None,
    }
}

/// The text of each string among `items`, in order (other values are skipped).
pub open spec fn strings_of(items: Seq<JsonValue>) -> Seq<String>
    decreases items.len(),
{
    if items.len() == 0 {
        Seq::empty()
    } else {
        let rest = strings_of(items.drop_last());
        match as_str(Some(items.last())) {
            Some(s) => rest.push(s),
            None => rest,
        }
    }
}

/// Each `u64` among `items`, in order (other values are skipped).
pub open spec fn u64s_of(items: Seq<JsonValue>) -> Seq<u64>
    decreases items.len(),
{
    if items.len() == 0 {
        Seq::empty()
    } else {
        let rest = u64s_of(items.drop_last());
        match as_u64(Some(items.last())) {
            Some(n) => rest.push(n),
            None => rest,
        }
    }
}

proof fn lemma_field_extends(entries: Seq<(String, JsonValue)>, key: Seq<char>, j: int)
    requires
        0 <= j <= entries.len(),
        field(entries.take(j), key) is Some,
    ensures
        field(entries, key) == field(entries.take(j), key),
    decreases entries.len(),
{
    if entries.len() == j {
        assert(entries.take(j) =~= entries);
    } else {
        assert(entries.drop_last().take(j) =~= entries.take(j));
        lemma_field_extends(entries.drop_last(), key, j);
    }
}

/// Whether the text `s` is exactly `lit`.
pub fn text_is(s: &String, lit: &str) -> (same: bool)
    ensures
        same == (s@ == lit@),
{
    *s == String::from_str(lit)
}

/// `v[key]`, if `v` is an object with an entry named `key`.
pub fn get_field<'a>(v: &'a JsonValue, key: &str) -> (r: Option<&'a JsonValue>)
    ensures
        match r {
            Some(x) => get(*v, key@) == Some(*x),
            None => get(*v, key@) is None,
        },
{
    match v {
        JsonValue::Object(entries) => {
            let k = String::from_str(key);
            let mut i: usize = 0;
            while i < entries.len()
                invariant
                    i <= entries@.len(),
                    k@ == key@,
                    get(*v, key@) == field(entries@, key@),
                    field(entries@.take(i as int), key@) is None,
                decreases entries@.len() - i,
            {
                proof {
                    assert(entries@.take(i as int + 1).drop_last() =~= entries@.take(i as int));
                }
                if entries[i].0 == k {
                    proof {
                        assert(entries@.take(i as int + 1).last() == entries@[i as int]);
                        assert(field(entries@.take(i as int + 1), key@) == Some(entries@[i as int].1));
                        lemma_field_extends(entries@, key@, i as int + 1);
                    }
                    let found = &entries[i].1;
                    return Some(found);
                }
                i = i + 1;
            }
            proof {
                assert(entries@.take(entries@.len() as int) =~= entries@);
            }
            None
        },
        _ => None,
    }
}

/// `v[key]` as text.
pub fn str_field(v: &JsonValue, key: &str) -> (r: Option<String>)
    ensures
        r == as_str(get(*v, key@)),
{
    match get_field(v, key) {
        Some(JsonValue::Str(s)) => Some(s.clone()),
        _ => None,
    }
}

/// `v[key]` as a `u64`.
pub fn u64_field(v: &JsonValue, key: &str) -> (r: Option<u64>)
    ensures
        r == as_u64(get(*v, key@)),
{
    match get_field(v, key) {
        Some(JsonValue::Number { as_u64, .. }) => *as_u64,
        _ => None,
    }
}

/// `v[key]` as a boolean.
pub fn bool_field(v: &JsonValue, key: &str) -> (r: Option<bool>)
    ensures
        r == as_bool(get(*v, key@)),
{
    match get_field(v, key) {
        Some(JsonValue::Bool(b)) => Some(*b),
        _ => None,
    }
}

/// `v[key]` as an array.
pub fn array_field<'a>(v: &'a JsonValue, key: &str) -> (r: Option<&'a Vec<JsonValue>>)
    ensures
        match r {
            Some(items) => as_array(get(*v, key@)) == Some(items@),
            None => as_array(get(*v, key@)) is None,
        },
{
    match get_field(v, key) {
        Some(JsonValue::Array(items)) => Some(items),
        _ => None,
    }
}

/// The strings among `items`, in order.
pub fn strings_in(items: &Vec<JsonValue>) -> (out: Vec<String>)
    ensures
        out@ == strings_of(items@),
{
    let mut out: Vec<String> = Vec::new();
    let mut i: usize = 0;
    while i < items.len()
        invariant
            i <= items@.len(),
            out@ == strings_of(items@.take(i as int)),
        decreases items@.len() - i,
    {
        proof {
            assert(items@.take(i as int + 1).drop_last() =~= items@.take(i as int));
        }
        match &items[i] {
            JsonValue::Str(s) => out.push(s.clone()),
            _ => {},
        }
        i = i + 1;
    }
    proof {
        assert(items@.take(items@.len() as int) =~= items@);
    }
    out
}

/// The `u64` numbers among `items`, in order.
pub fn u64s_in(items: &Vec<JsonValue>) -> (out: Vec<u64>)
    ensures
        out@ == u64s_of(items@),
{
    let mut out: Vec<u64> = Vec::new();
    let mut i: usize = 0;
    while i < items.len()
        invariant
            i <= items@.len(),
            out@ == u64s_of(items@.take(i as int)),
        decreases items@.len() - i,
    {
        proof {
            assert(items@.take(i as int + 1).drop_last() =~= items@.take(i as int));
        }
        match &items[i] {
            JsonValue::Number { as_u64: Some(n), .. } => out.push(*n),
            _ => {},
        }
        i = i + 1;
    }
    proof {
        assert(items@.take(items@.len() as int) =~= items@);
    }
    out
}

} // verus!
