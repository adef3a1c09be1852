//! Items that reach outside crates (clock, random identifiers, CPU count, JSON values).
//! Every item here is trusted: its contract is believed, not proved.

use vstd::prelude::*;

verus! {

/// `serde_json::Value`, carried through the library as an opaque value.
#[verifier::external_type_specification]
#[verifier::external_body]
pub struct ExJsonValue(serde_json::Value);

/// `<serde_json::Value as Clone>::clone`: `Value` derives `Clone`, so the copy equals the value it was made from.
pub assume_specification[ <serde_json::Value as Clone>::clone ](v: &serde_json::Value) -> (res: serde_json::Value)
    ensures
        res == *v,
;

/// The lower and upper bounds of a millisecond timestamp that `chrono` can represent.
pub open spec fn timestamp_in_range(t: int) -> bool {
    -10_000_000_000_000_000 <= t <= 10_000_000_000_000_000
}

/// Calls `chrono::Utc::now().timestamp_millis()`. The value depends on the clock; what holds of
/// every outcome is that it lies within the range of dates `chrono` represents (years
/// -262143 to 262142), well inside the bound stated here.
#[verifier::external_body]
pub(crate) fn now_millis() -> (t: i64)
    ensures
        timestamp_in_range(t as int),
{
    chrono::Utc::now().timestamp_millis()
}

/// What `serde_json::Value::from` makes of an optional value: the value itself when there is
/// one, JSON `null` otherwise.
pub uninterp spec fn json_of_option(o: Option<serde_json::Value>) -> serde_json::Value;

/// The JSON object `serde_json` builds from key-value pairs taken in order, a later pair
/// replacing an earlier one with the same key.
pub uninterp spec fn json_object_of(entries: Seq<(Seq<char>, serde_json::Value)>) -> serde_json::Value;

/// The compact JSON text `serde_json` writes for a value.
pub uninterp spec fn json_text_of(v: serde_json::Value) -> Seq<char>;

/// Calls `serde_json::Value::from` on an `Option<Value>`. Its source maps `None` to
/// `Value::Null` and `Some(v)` to `v`; the first is left to the name, the second is stated.
#[verifier::external_body]
pub(crate) fn json_from_option(o: Option<serde_json::Value>) -> (v: serde_json::Value)
    ensures
        v == json_of_option(o),
        o matches Some(x) ==> v == x,
{
    serde_json::Value::from(o)
}

/// Calls `serde_json::Value::Object` on a `serde_json::Map` collected from the pairs in
/// order (`Map`'s `FromIterator` inserts each pair in turn).
#[verifier::external_body]
pub(crate) fn json_object(entries: Vec<(String, serde_json::Value)>) -> (v: serde_json::Value)
    ensures
        v == json_object_of(entries@.map_values(|e: (String, serde_json::Value)| (e.0@, e.1))),
{
    serde_json::Value::Object(entries.into_iter().collect())
}

/// Calls `serde_json::Value`'s `to_string` (its `Display`), which writes compact JSON.
#[verifier::external_body]
pub(crate) fn json_text(v: &serde_json::Value) -> (s: String)
    ensures
        s@ == json_text_of(*v),
{
    v.to_string()
}

/// Calls `uuid::Uuid::new_v4().to_string()`. The identifier is random; what holds of every
/// outcome is that its hyphenated form has 36 characters.
#[verifier::external_body]
pub(crate) fn new_uuid() -> (s: String)
    ensures
        s@.len() == 36,
{
    uuid::Uuid::new_v4().to_string()
}

} // verus!
