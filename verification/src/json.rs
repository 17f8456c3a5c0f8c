use vstd::prelude::*;

verus! {

/// Whether `s` is the text of a JSON array.
pub uninterp spec fn json_is_array(s: Seq<char>) -> bool;

/// The compact JSON texts of the elements of the array text `s`.
pub uninterp spec fn json_items(s: Seq<char>) -> Seq<Seq<char>>;

/// The string value at `key` of the JSON object text `obj`, if that
/// text parses as an object holding a string there.
pub uninterp spec fn json_str_field(obj: Seq<char>, key: Seq<char>) -> Option<Seq<char>>;

/// The compact JSON text of the value at `key` of the JSON object
/// text `obj`, if that text parses as an object with that key.
pub uninterp spec fn json_field_text(obj: Seq<char>, key: Seq<char>) -> Option<Seq<char>>;

/// Relies on serde_json::from_str for `Vec<Value>`, which succeeds
/// exactly on JSON array texts, and on Value's Display, which renders
/// each element as its compact JSON text; both depend on the input
/// alone.
#[verifier::external_body]
pub fn json_array_items(s: &str) -> (r: Option<Vec<String>>)
    ensures
        r is Some <==> json_is_array(s@),
        r matches Some(v) ==> v.deep_view() == json_items(s@),
{
    match serde_json::from_str::<Vec<serde_json::Value>>(s) {
        Ok(vs) => Some(vs.iter().map(|v| v.to_string()).collect()),
        Err(_) => None,
    }
}

/// Relies on serde_json::from_str for `Value`, Value::get and
/// Value::as_str: yields the string value at `key` when `obj` is the
/// text of an object holding a string there, and nothing otherwise;
/// all three depend on the input alone.
#[verifier::external_body]
pub fn json_string_field(obj: &str, key: &str) -> (r: Option<String>)
    ensures
        r.deep_view() == json_str_field(obj@, key@),
{
    match serde_json::from_str::<serde_json::Value>(obj) {
        Ok(v) => v.get(key).and_then(|f| f.as_str()).map(|t| t.to_owned()),
        Err(_) => None,
    }
}

/// Relies on serde_json::from_str for `Value`, Value::get and Value's
/// Display: yields the compact JSON text of the value at `key` when
/// `obj` is the text of an object with that key, and nothing
/// otherwise; all three depend on the input alone.
#[verifier::external_body]
pub fn json_value_text(obj: &str, key: &str) -> (r: Option<String>)
    ensures
        r.deep_view() == json_field_text(obj@, key@),
{
    match serde_json::from_str::<serde_json::Value>(obj) {
        Ok(v) => v.get(key).map(|f| f.to_string()),
        Err(_) => None,
    }
}

} // verus!
