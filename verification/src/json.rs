use vstd::prelude::*;
use serde_json::{Number, Value};

verus! {

/// A JSON number as the save analyser distinguishes it.
#[derive(Debug)]
pub enum JsonNumber {
    /// A non-negative integer.
    PosInt(u64),
    /// A negative integer.
    NegInt(i64),
    /// A number with a fraction or exponent, held as the decimal text that
    /// Rust's `Display` gives for its `f64` value (for example `1.5` or `2`).
    Float(String),
}

/// A JSON value: the library's model of a parsed JSON document.
///
/// An object holds its entries in the order in which they are visited; a
/// parsed document is [`json_wf`]: its keys come in strictly ascending
/// order.
#[derive(Debug)]
pub enum JsonValue {
    Null,
    Bool(bool),
    Number(JsonNumber),
    Str(String),
    Array(Vec<JsonValue>),
    Object(Vec<(String, JsonValue)>),
}

/// A lower bound on the length, in characters, of any JSON text of `v`:
/// one character for each literal and number, the quotes and content of
/// each string and key, the brackets of each array and object, and the
/// colon of each entry.
pub open spec fn json_weight(v: JsonValue) -> nat
    decreases v,
{
    match v {
        JsonValue::Null => 1,
        JsonValue::Bool(_) => 1,
        JsonValue::Number(_) => 1,
        JsonValue::Str(s) => s@.len() + 2,
        JsonValue::Array(items) => 2 + items_weight(items@),
        JsonValue::Object(fields) => 2 + fields_weight(fields@),
    }
}

pub open spec fn items_weight(items: Seq<JsonValue>) -> nat
    decreases items,
{
    if items.len() == 0 {
        0
    } else {
        items_weight(items.drop_last()) + json_weight(items.last())
    }
}

pub open spec fn fields_weight(fields: Seq<(String, JsonValue)>) -> nat
    decreases fields,
{
    if fields.len() == 0 {
        0
    } else {
        fields_weight(fields.drop_last()) + fields.last().0@.len() + 3 + json_weight(
            fields.last().1,
        )
    }
}

/// `a` comes before `b` in the order of Rust's `String` comparison: the
/// first differing character decides by code point, and a proper prefix
/// comes first.
pub open spec fn key_less(a: Seq<char>, b: Seq<char>) -> bool
    decreases a.len(),
{
    if a.len() == 0 {
        b.len() > 0
    } else if b.len() == 0 {
        false
    } else if a[0] != b[0] {
        (a[0] as int) < (b[0] as int)
    } else {
        key_less(a.drop_first(), b.drop_first())
    }
}

/// A value as a parsed document holds it: the keys of every object in
/// strictly ascending order (so no key twice), and every float text
/// non-empty.
pub open spec fn json_wf(v: JsonValue) -> bool
    decreases v,
{
    match v {
        JsonValue::Number(JsonNumber::Float(t)) => t@.len() > 0,
        JsonValue::Array(items) => items_wf(items@),
        JsonValue::Object(fields) => fields_wf(fields@),
        _ => true,
    }
}

pub open spec fn items_wf(items: Seq<JsonValue>) -> bool
    decreases items,
{
    if items.len() == 0 {
        true
    } else {
        items_wf(items.drop_last()) && json_wf(items.last())
    }
}

pub open spec fn fields_wf(fields: Seq<(String, JsonValue)>) -> bool
    decreases fields,
{
    if fields.len() == 0 {
        true
    } else {
        &&& fields_wf(fields.drop_last())
        &&& json_wf(fields.last().1)
        &&& forall|i: int|
            0 <= i < fields.len() - 1 ==> key_less(#[trigger] fields[i].0@, fields.last().0@)
    }
}

/// `serde_json::Value`, carried opaquely between the serde calls and the
/// conversions to and from [`JsonValue`].
#[verifier::external_type_specification]
#[verifier::external_body]
pub struct ExSerdeValue(Value);

/// What `serde_json::from_str::<serde_json::Value>` yields for a text,
/// taken into the library's model: `None` where the text is not JSON.
pub uninterp spec fn json_parse(text: Seq<char>) -> Option<JsonValue>;

/// What `serde_json::to_string_pretty` yields for a value, taken from the
/// library's model.
pub uninterp spec fn json_pretty(v: JsonValue) -> Seq<char>;

/// Converts a `serde_json::Value` into the library's model, variant for
/// variant; object entries keep the map's order (ascending keys).
#[verifier::external_body]
fn value_from_serde(v: Value) -> JsonValue {
    match v {
        Value::Null => JsonValue::Null,
        Value::Bool(b) => JsonValue::Bool(b),
        Value::Number(n) => JsonValue::Number(match (n.as_u64(), n.as_i64()) {
            (Some(u), _) => JsonNumber::PosInt(u),
            (None, Some(i)) => JsonNumber::NegInt(i),
            _ => JsonNumber::Float(n.as_f64().map(|f| f.to_string()).unwrap_or_default()),
        }),
        Value::String(s) => JsonValue::Str(s),
        Value::Array(a) => JsonValue::Array(a.into_iter().map(value_from_serde).collect()),
        Value::Object(m) => JsonValue::Object(m.into_iter().map(|(k, x)| (k, value_from_serde(x))).collect()),
    }
}

/// Converts the library's model back into a `Value`, variant
/// for variant; a float whose text is not a finite decimal becomes `null`.
#[verifier::external_body]
fn value_to_serde(v: &JsonValue) -> Value {
    match v {
        JsonValue::Null => Value::Null,
        JsonValue::Bool(b) => Value::Bool(*b),
        JsonValue::Number(JsonNumber::PosInt(u)) => Value::from(*u),
        JsonValue::Number(JsonNumber::NegInt(i)) => Value::from(*i),
        JsonValue::Number(JsonNumber::Float(t)) => t.parse().ok().and_then(Number::from_f64).map_or(Value::Null, Value::Number),
        JsonValue::Str(s) => Value::String(s.clone()),
        JsonValue::Array(a) => Value::Array(a.iter().map(value_to_serde).collect()),
        JsonValue::Object(m) => Value::Object(m.iter().map(|(k, x)| (k.clone(), value_to_serde(x))).collect()),
    }
}

/// Parses `text` with `serde_json::from_str` into a `serde_json::Value` and
/// takes the result into the library's model.
///
/// Claimed of the outside call: the result is [`json_parse`] of the text;
/// a parsed value is never heavier than its text: every string and key of
/// it stands in the text between two quotes and unescaping never lengthens
/// it, every literal and number takes at least one character, and every
/// array, object and entry takes its brackets and colon ([`json_weight`]);
/// and it is [`json_wf`]: serde_json keeps an object in a `BTreeMap`
/// (`preserve_order` is off), whose entries come in ascending key order
/// with no key twice, and `f64`'s `Display` never gives empty text.
#[verifier::external_body]
pub(crate) fn parse_json_text(text: &str) -> (r: Option<JsonValue>)
    ensures
        r == json_parse(text@),
        r matches Some(v) ==> json_weight(v) <= text@.len() && json_wf(v),
{
    serde_json::from_str::<Value>(text).ok().map(value_from_serde)
}

/// Serialises `v` with `serde_json::to_string_pretty`.
///
/// Claimed of the outside call: the result is [`json_pretty`] of the
/// value, and it is never empty: serialising a `serde_json::Value` into a
/// `Vec` cannot fail (its map keys are strings and writing to a `Vec` never
/// errs), and every value writes at least one character (`null`, a digit,
/// quotes, brackets). What the text is beyond that (indentation, escaping,
/// number formatting) is left to serde_json and not stated here.
#[verifier::external_body]
pub(crate) fn pretty_json_text(v: &JsonValue) -> (r: String)
    ensures
        r@ == json_pretty(*v),
        r@.len() > 0,
{
    serde_json::to_string_pretty(&value_to_serde(v)).unwrap_or_default()
}

} // verus!
