//! The boundary to the JSON parser and to two std conversions. Each trusted
//! item names the outside function it relies on; everything past this file
//! is verified against these contracts.
use vstd::prelude::*;

use crate::error::DscError;
use crate::value::{SpecValue, PropValue};

verus! {

/// The model a document text parses to, or nothing for text that is not
/// JSON. Naming the result makes re-parsing the same text deterministic.
pub uninterp spec fn json_of(s: Seq<char>) -> Option<SpecValue>;

/// The model of the tree a parsed JSON node holds.
pub uninterp spec fn model_of_json(j: serde_json::Value) -> SpecValue;

#[verifier::external_type_specification]
#[verifier::external_body]
pub struct ExJsonValue(serde_json::Value);

/// Relies on serde_json::from_str: parsing depends on the text alone; it
/// yields the text's tree, or an error for text it does not accept —
/// malformed JSON, or JSON nested beyond the parser's recursion limit.
#[verifier::external_body]
fn parse_json_text(s: &str) -> (r: Result<serde_json::Value, DscError>)
    ensures
        r matches Ok(j) ==> json_of(s@) == Some(model_of_json(j)),
        r matches Err(e) ==> json_of(s@) is None && e is Parser,
{
    match serde_json::from_str::<serde_json::Value>(s) {
        Ok(j) => Ok(j),
        Err(e) => Err(DscError::Parser(e.to_string())),
    }
}

/// Relies on serde_json::Value's shape: each node variant is moved, one arm
/// each, into the library's own value; an integer that fits 64 signed bits
/// stays an integer, any other number becomes serde_json's rendering of it,
/// and object fields come in the order serde_json's map iterates, by key.
#[verifier::external_body]
fn value_of_json(j: &serde_json::Value) -> (r: PropValue)
    ensures
        r@ == model_of_json(*j),
{
    match j {
        serde_json::Value::Null => PropValue::Null,
        serde_json::Value::Bool(b) => PropValue::Bool(*b),
        serde_json::Value::Number(n) => match n.as_i64() {
            Some(i) => PropValue::Int(i),
            None => PropValue::Number(n.to_string()),
        },
        serde_json::Value::String(s) => PropValue::String(s.clone()),
        serde_json::Value::Array(es) => PropValue::Array(es.iter().map(value_of_json).collect()),
        serde_json::Value::Object(fs) => PropValue::Object(
            fs.iter().map(|(k, v)| (k.clone(), value_of_json(v))).collect(),
        ),
    }
}

/// Parse a document text into the library's value model.
pub fn parse_document(s: &str) -> (r: Result<PropValue, DscError>)
    ensures
        r matches Ok(v) ==> json_of(s@) == Some(v@),
        r matches Err(e) ==> json_of(s@) is None && e is Parser,
{
    match parse_json_text(s) {
        Ok(j) => Ok(value_of_json(&j)),
        Err(e) => Err(e),
    }
}

/// The lower-cased form of a string, as the Unicode tables define it.
pub uninterp spec fn lower_of(s: Seq<char>) -> Seq<char>;

/// Relies on str::to_lowercase: the result depends on the characters alone.
#[verifier::external_body]
pub fn to_lowercase(s: &String) -> (r: String)
    ensures
        r@ == lower_of(s@),
{
    s.to_lowercase()
}

/// The decimal digit for one value below ten.
pub open spec fn digit_char(d: nat) -> char {
    if d == 0 {
        '0'
    } else if d == 1 {
        '1'
    } else if d == 2 {
        '2'
    } else if d == 3 {
        '3'
    } else if d == 4 {
        '4'
    } else if d == 5 {
        '5'
    } else if d == 6 {
        '6'
    } else if d == 7 {
        '7'
    } else if d == 8 {
        '8'
    } else {
        '9'
    }
}

/// The decimal writing of a number: most significant digit first, no sign,
/// no padding.
pub open spec fn spec_decimal(n: nat) -> Seq<char>
    decreases n,
{
    if n < 10 {
        seq![digit_char(n)]
    } else {
        spec_decimal(n / 10).push(digit_char(n % 10))
    }
}

/// Relies on std's Display for usize, documented as the plain decimal
/// digits of the value.
#[verifier::external_body]
pub fn usize_to_string(n: usize) -> (r: String)
    ensures
        r@ == spec_decimal(n as nat),
{
    n.to_string()
}

} // verus!
