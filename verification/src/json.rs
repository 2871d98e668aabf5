//! JSON values as `serde_json` reads and prints them.

use crate::double::Double;
use crate::number::decimal;
use crate::text::bare;
use vstd::prelude::*;

verus! {

/// A JSON value, as the contracts speak of it. A number is given by the text
/// that it prints as, an object by its entries in the order of iteration.
pub enum Json {
    Null,
    Bool(bool),
    Number(Seq<char>),
    Text(Seq<char>),
    Array(Seq<Json>),
    Object(Seq<(Seq<char>, Json)>),
}

#[verifier::external_type_specification]
#[verifier::external_body]
pub struct ExValue(serde_json::Value);

/// What a `serde_json::Value` holds.
pub uninterp spec fn json_of(v: serde_json::Value) -> Json;

/// What `serde_json::from_str` reads from a text; nothing where it reports an
/// error.
pub uninterp spec fn json_read(text: Seq<char>) -> Option<Json>;

/// How a `serde_json::Value` prints: compact JSON.
pub uninterp spec fn json_printed(j: Json) -> Seq<char>;

/// The bit pattern of what `serde_json::Value::as_f64` makes of a number that
/// prints as `text`.
pub uninterp spec fn json_double(text: Seq<char>) -> Option<u64>;

/// `serde_json::from_str` into a `serde_json::Value`: the value that the text
/// describes, nothing where it reports an error. Which one depends on the text
/// alone, and carriage returns at its end make no difference: they are white
/// space that it skips after the value.
#[verifier::external_body]
pub(crate) fn read_json(text: &str) -> (r: Option<serde_json::Value>)
    ensures
        r is Some <==> json_read(text@) is Some,
        r is Some ==> json_read(text@) == Some(json_of(r->0)),
        r is Some <==> json_read(bare(text@)) is Some,
        r is Some ==> json_read(bare(text@)) == Some(json_of(r->0)),
{
    serde_json::from_str::<serde_json::Value>(text).ok()
}

/// `serde_json::Value::to_string` (through `Display`): the value as compact
/// JSON, which depends on what the value holds alone.
#[verifier::external_body]
pub(crate) fn print_json(v: &serde_json::Value) -> (r: String)
    ensures
        r@ == json_printed(json_of(*v)),
{
    v.to_string()
}

/// The entry of an object under the name `key`.
pub open spec fn entry(entries: Seq<(Seq<char>, Json)>, key: Seq<char>) -> Option<Json>
    decreases entries.len(),
{
    if entries.len() == 0 {
        None
    } else if entries.last().0 == key {
        Some(entries.last().1)
    } else {
        entry(entries.drop_last(), key)
    }
}

/// The member `key` of `j`; nothing where `j` is no object or has none.
pub open spec fn member(j: Json, key: Seq<char>) -> Option<Json> {
    match j {
        Json::Object(entries) => entry(entries, key),
        _ => None,
    }
}

/// The value of `j`, where that is an unsigned 64-bit integer.
pub open spec fn unsigned_value(j: Json) -> Option<u64> {
    match j {
        Json::Number(text) => if exists|n: u64| text == #[trigger] decimal(n as nat) {
            Some(choose|n: u64| text == #[trigger] decimal(n as nat))
        } else {
            None
        },
        _ => None,
    }
}

/// The value of `j` in double precision, where that is a number.
pub open spec fn double_value(j: Json) -> Option<Double> {
    match j {
        Json::Number(text) => match json_double(text) {
            Some(bits) => Some(Double { bits }),
            None => None,
        },
        _ => None,
    }
}

/// `serde_json::Value::get` with a string index: the member of an object under
/// that name, nothing where there is none or the value is no object.
#[verifier::external_body]
pub(crate) fn json_member<'a>(v: &'a serde_json::Value, key: &str) -> (r: Option<
    &'a serde_json::Value,
>)
    ensures
        r is Some <==> member(json_of(*v), key@) is Some,
        r is Some ==> member(json_of(*v), key@) == Some(json_of(*r->0)),
{
    v.get(key)
}

/// `serde_json::Value::as_str`: the text of a string, nothing for any other
/// value.
#[verifier::external_body]
pub(crate) fn json_str(v: &serde_json::Value) -> (r: Option<&str>)
    ensures
        r is Some <==> json_of(*v) is Text,
        r is Some ==> json_of(*v) == Json::Text(r->0@),
{
    v.as_str()
}

/// `serde_json::Value::as_array`: the elements of an array in order, nothing
/// for any other value.
#[verifier::external_body]
pub(crate) fn json_elements(v: &serde_json::Value) -> (r: Option<&Vec<serde_json::Value>>)
    ensures
        r is Some <==> json_of(*v) is Array,
        r is Some ==> json_of(*v) == Json::Array(
            r->0@.map_values(|e: serde_json::Value| json_of(e)),
        ),
{
    v.as_array()
}

/// `serde_json::Value::as_object` with `serde_json::Map::iter`: the entries of
/// an object in the order of iteration, nothing for any other value.
#[verifier::external_body]
pub(crate) fn json_entries(v: &serde_json::Value) -> (r: Option<Vec<(&String, &serde_json::Value)>>)
    ensures
        r is Some <==> json_of(*v) is Object,
        r is Some ==> json_of(*v) == Json::Object(
            r->0@.map_values(|e: (&String, &serde_json::Value)| (e.0@, json_of(*e.1))),
        ),
{
    v.as_object().map(|m| m.iter().collect())
}

/// `serde_json::Value::as_u64`: the value of an unsigned 64-bit integer, which
/// prints as its decimal digits; nothing for any other number or value.
#[verifier::external_body]
pub(crate) fn json_index(v: &serde_json::Value) -> (r: Option<u64>)
    ensures
        match json_of(*v) {
            Json::Number(text) => forall|n: u64|
                r == Some(n) <==> text == #[trigger] decimal(n as nat),
            _ => r is None,
        },
{
    v.as_u64()
}

/// The value of an unsigned 64-bit integer.
pub(crate) fn as_unsigned(v: &serde_json::Value) -> (r: Option<u64>)
    ensures
        r == unsigned_value(json_of(*v)),
{
    let r = json_index(v);
    proof {
        if let Json::Number(text) = json_of(*v) {
            if exists|n: u64| text == #[trigger] decimal(n as nat) {
                let n = choose|n: u64| text == #[trigger] decimal(n as nat);
                assert(r == Some(n));
            } else if let Some(n) = r {
                assert(text == decimal(n as nat));
            }
        }
    }
    r
}

/// The value of a number in double precision.
pub(crate) fn as_double(v: &serde_json::Value) -> (r: Option<Double>)
    ensures
        r == double_value(json_of(*v)),
{
    match json_double_bits(v) {
        Some(bits) => Some(Double { bits }),
        None => None,
    }
}

/// `serde_json::Value::as_f64`: the bit pattern of the double nearest to a
/// number, nothing for any other value.
#[verifier::external_body]
pub(crate) fn json_double_bits(v: &serde_json::Value) -> (r: Option<u64>)
    ensures
        match json_of(*v) {
            Json::Number(text) => r == json_double(text),
            _ => r is None,
        },
{
    v.as_f64().map(|x| x.to_bits())
}

} // verus!
