use vstd::prelude::*;

verus! {

/// Declares serde_json's value type so that parsed metadata objects can be
/// handed through this library.
#[verifier::external_type_specification]
#[verifier::external_body]
pub struct ExValue(serde_json::Value);

/// The model of one field of a metadata object: a string, an integer that
/// fits in `u64`, or anything else.
pub enum JVal {
    JStr(Seq<char>),
    JNum(u64),
    JOther,
}

/// The field map of the value that serde_json::from_str parses from `s`,
/// when it parses; `None` when `s` is not valid JSON.
pub uninterp spec fn json_root(s: Seq<char>) -> Option<Map<Seq<char>, JVal>>;

/// What a parsed JSON value holds when it is an object: its keys, each
/// mapped to the model of its member. Not an object: the empty map.
pub uninterp spec fn json_fields(v: serde_json::Value) -> Map<Seq<char>, JVal>;

/// The scalar model of a parsed JSON value: `JStr` for a string, `JNum` for
/// a number representable as `u64`, `JOther` for everything else.
pub uninterp spec fn field_model(v: serde_json::Value) -> JVal;

/// Relies on serde_json::from_str::<Value>: parses JSON text,
/// deterministically in the text.
#[verifier::external_body]
pub fn parse_json(s: &str) -> (r: Option<serde_json::Value>)
    ensures
        r is Some <==> json_root(s@) is Some,
        r matches Some(v) ==> json_root(s@) == Some(json_fields(v)),
{
    match serde_json::from_str::<serde_json::Value>(s) {
        Ok(v) => Some(v),
        Err(_) => None,
    }
}

/// Relies on serde_json::Value::get: looks a key up in a JSON object;
/// `None` when the key is absent or the value is not an object.
#[verifier::external_body]
pub fn value_get(v: &serde_json::Value, key: &str) -> (r: Option<serde_json::Value>)
    ensures
        r is Some <==> json_fields(*v).dom().contains(key@),
        r matches Some(f) ==> field_model(f) == json_fields(*v)[key@],
{
    match v.get(key) {
        Some(f) => Some(f.clone()),
        None => None,
    }
}

/// Relies on serde_json::Value::as_str: the string a JSON value holds, when
/// it is a string.
#[verifier::external_body]
pub fn value_as_str(v: &serde_json::Value) -> (r: Option<String>)
    ensures
        r is Some <==> field_model(*v) is JStr,
        r matches Some(s) ==> field_model(*v) == JVal::JStr(s@),
{
    match v.as_str() {
        Some(s) => Some(s.to_string()),
        None => None,
    }
}

/// Relies on serde_json::Value::as_u64: the integer a JSON value holds, when
/// it is a number representable as `u64`.
#[verifier::external_body]
pub fn value_as_u64(v: &serde_json::Value) -> (r: Option<u64>)
    ensures
        r is Some <==> field_model(*v) is JNum,
        r matches Some(n) ==> field_model(*v) == JVal::JNum(n),
{
    v.as_u64()
}

} // verus!
