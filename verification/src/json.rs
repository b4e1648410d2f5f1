//! JSON values as the GitHub events API returns them, and lookups in them.
//!
//! Bodies are parsed with `serde_json`; the parsed tree is held in a
//! [`JsonValue`] so that the logic reading it can be verified.
use vstd::prelude::*;
use crate::text::str_eq;

verus! {

/// The error `serde_json` reports for a body it cannot parse.
#[verifier::external_type_specification]
#[verifier::external_body]
pub struct ExJsonError(serde_json::Error);

/// A value as `serde_json` parses it.
#[verifier::external_type_specification]
#[verifier::external_body]
pub struct ExSerdeValue(serde_json::Value);

/// A JSON value. Numbers keep the text `serde_json` writes for them;
/// objects keep their entries in the order `serde_json` iterates them.
#[derive(Debug, PartialEq, Eq)]
pub enum JsonValue {
    Null,
    Bool(bool),
    Number(String),
    Str(String),
    Array(Vec<JsonValue>),
    Object(Vec<(String, JsonValue)>),
}

/// The position of the first entry of `es` with key `key` (-1 when none).
pub open spec fn entry_index(es: Seq<(String, JsonValue)>, key: Seq<char>) -> int
    decreases es.len(),
{
    if es.len() == 0 {
        -1
    } else {
        let p = entry_index(es.drop_last(), key);
        if p >= 0 {
            p
        } else if es.last().0@ == key {
            es.len() - 1
        } else {
            -1
        }
    }
}

/// The member `key` of `v` when `v` is an object that has it.
pub open spec fn field(v: Option<JsonValue>, key: Seq<char>) -> Option<JsonValue> {
    match v {
        Some(JsonValue::Object(es)) => {
            let i = entry_index(es@, key);
            if i >= 0 { Some(es@[i].1) } else { None }
        },
        _ => None,
    }
}

/// The text of `v` when it is a JSON string.
pub open spec fn text_of(v: Option<JsonValue>) -> Option<Seq<char>> {
    match v {
        Some(JsonValue::Str(s)) => Some(s@),
        _ => None,
    }
}

/// The value of `v` when it is a JSON boolean.
pub open spec fn flag_of(v: Option<JsonValue>) -> Option<bool> {
    match v {
        Some(JsonValue::Bool(b)) => Some(b),
        _ => None,
    }
}

/// The value an optional reference points to.
pub open spec fn deref_opt(o: Option<&JsonValue>) -> Option<JsonValue> {
    match o {
        Some(x) => Some(*x),
        None => None,
    }
}

/// The characters of an optional string slice.
pub open spec fn str_opt(o: Option<&str>) -> Option<Seq<char>> {
    match o {
        Some(s) => Some(s@),
        None => None,
    }
}

proof fn lemma_entry_index_bounds(es: Seq<(String, JsonValue)>, key: Seq<char>)
    ensures
        -1 <= entry_index(es, key) < es.len(),
        entry_index(es, key) >= 0 ==> es[entry_index(es, key)].0@ == key,
        entry_index(es, key) < 0 ==> forall|k: int| 0 <= k < es.len() ==> (#[trigger] es[k]).0@ != key,
    decreases es.len(),
{
    if es.len() > 0 {
        let d = es.drop_last();
        lemma_entry_index_bounds(d, key);
        assert forall|k: int| 0 <= k < d.len() implies d[k] == es[k] by {}
    }
}

/// The member `key` of `v`, when `v` is an object that has it.
pub fn member<'a>(v: Option<&'a JsonValue>, key: &str) -> (r: Option<&'a JsonValue>)
    ensures
        deref_opt(r) == field(deref_opt(v), key@),
{
    match v {
        Some(JsonValue::Object(es)) => {
            let n = es.len();
            let mut i: usize = 0;
            while i < n
                invariant
                    deref_opt(v) == Some(JsonValue::Object(*es)),
                    n == es@.len(),
                    i <= n,
                    forall|k: int| 0 <= k < i ==> (#[trigger] es@[k]).0@ != key@,
                decreases n - i,
            {
                if str_eq(es[i].0.as_str(), key) {
                    proof {
                        lemma_entry_index_bounds(es@, key@);
                        lemma_first_entry(es@, key@, i as int);
                    }
                    return Some(&es[i].1);
                }
                i = i + 1;
            }
            proof {
                lemma_no_entry(es@, key@);
            }
            None
        },
        _ => None,
    }
}

proof fn lemma_first_entry(es: Seq<(String, JsonValue)>, key: Seq<char>, i: int)
    requires
        0 <= i < es.len(),
        es[i].0@ == key,
        forall|k: int| 0 <= k < i ==> (#[trigger] es[k]).0@ != key,
    ensures
        entry_index(es, key) == i,
    decreases es.len(),
{
    if i < es.len() - 1 {
        let d = es.drop_last();
        assert forall|k: int| 0 <= k < i implies (#[trigger] d[k]).0@ != key by {
            assert(d[k] == es[k]);
        }
        lemma_first_entry(d, key, i);
    } else {
        let d = es.drop_last();
        assert forall|k: int| 0 <= k < d.len() implies (#[trigger] d[k]).0@ != key by {
            assert(d[k] == es[k]);
        }
        lemma_no_entry(d, key);
    }
}

proof fn lemma_no_entry(es: Seq<(String, JsonValue)>, key: Seq<char>)
    requires
        forall|k: int| 0 <= k < es.len() ==> (#[trigger] es[k]).0@ != key,
    ensures
        entry_index(es, key) == -1,
    decreases es.len(),
{
    if es.len() > 0 {
        let d = es.drop_last();
        assert forall|k: int| 0 <= k < d.len() implies (#[trigger] d[k]).0@ != key by {
            assert(d[k] == es[k]);
        }
        lemma_no_entry(d, key);
        assert(es[es.len() - 1].0@ != key);
    }
}

/// The text of `v` when it is a JSON string.
pub fn text<'a>(v: Option<&'a JsonValue>) -> (r: Option<&'a str>)
    ensures
        str_opt(r) == text_of(deref_opt(v)),
{
    match v {
        Some(JsonValue::Str(s)) => Some(s.as_str()),
        _ => None,
    }
}

/// The value of `v` when it is a JSON boolean.
pub fn flag(v: Option<&JsonValue>) -> (r: Option<bool>)
    ensures
        r == flag_of(deref_opt(v)),
{
    match v {
        Some(JsonValue::Bool(b)) => Some(*b),
        _ => None,
    }
}

/// What `serde_json` reads from `body` taken as a JSON array: the array's
/// values, or `None` when `body` is no JSON array.
pub uninterp spec fn json_array_of(body: Seq<char>) -> Option<Seq<JsonValue>>;

/// Converts a `serde_json::Value` into the library's [`JsonValue`], variant
/// by variant (a number as `serde_json` writes it). Nothing is claimed
/// here: what the values hold is stated by [`parse_json_array`] through
/// [`json_array_of`].
#[verifier::external_body]
fn value_of(v: serde_json::Value) -> JsonValue {
    match v {
        serde_json::Value::Null => JsonValue::Null,
        serde_json::Value::Bool(b) => JsonValue::Bool(b),
        serde_json::Value::Number(n) => JsonValue::Number(n.to_string()),
        serde_json::Value::String(s) => JsonValue::Str(s),
        serde_json::Value::Array(a) => JsonValue::Array(a.into_iter().map(value_of).collect()),
        serde_json::Value::Object(m) => JsonValue::Object(m.into_iter().map(|(k, x)| (k, value_of(x))).collect()),
    }
}

/// Parses `body` with `serde_json::from_str` as an array of values. The
/// contract claims that the result is the array [`json_array_of`] names
/// for `body`, and an error exactly when that name gives none.
#[verifier::external_body]
pub(crate) fn parse_json_array(body: &str) -> (r: Result<Vec<JsonValue>, serde_json::Error>)
    ensures
        match r {
            Ok(vs) => json_array_of(body@) == Some(vs@),
            Err(_) => json_array_of(body@) is None,
        },
{
    match serde_json::from_str::<Vec<serde_json::Value>>(body) {
        Ok(vs) => Ok(vs.into_iter().map(value_of).collect()),
        Err(e) => Err(e),
    }
}

/// The message `serde_json` gives for `e` (its `Display`). Nothing is
/// claimed of the text.
#[verifier::external_body]
pub(crate) fn json_error_text(e: &serde_json::Error) -> String {
    e.to_string()
}

} // verus!
