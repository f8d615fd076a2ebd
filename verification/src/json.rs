//! The trusted surface over the JSON parser.
//!
//! A status payload arrives as text; `serde_json` parses it and hands back
//! an opaque document value. The document is modeled by [`JsonValue`], a
//! tree of plain specification values: [`json_model_of`] names the model
//! that parsing a given text yields, [`json_model`] names the model a held
//! document value carries, and every wrapper states its result over that
//! model, so the verified decoder can pin each extracted field. Each
//! function here wraps exactly one call into the outside crate.

use vstd::prelude::*;

verus! {

#[verifier::external_type_specification]
#[verifier::external_body]
pub struct ExValue(serde_json::Value);

#[verifier::external_type_specification]
#[verifier::external_body]
pub struct ExJsonError(serde_json::Error);

/// A JSON document as a tree of plain specification values.
///
/// Object members are a map from member name to member value, as the
/// parser stores them (one entry per name, ordered by name when
/// serialized). A number is [`JsonValue::Int`] when the parser reports an
/// exact integer for it, else [`JsonValue::FloatBits`] carrying the bit
/// pattern of the floating-point value it became.
pub enum JsonValue {
    Null,
    Bool(bool),
    Int(int),
    FloatBits(u64),
    Text(Seq<char>),
    Array(Seq<JsonValue>),
    Object(Map<Seq<char>, JsonValue>),
}

/// The document that parsing `s` yields, or nothing where the parser
/// refuses `s`; a function of the text alone.
pub uninterp spec fn json_model_of(s: Seq<char>) -> Option<JsonValue>;

/// The document a held value carries.
pub uninterp spec fn json_model(v: serde_json::Value) -> JsonValue;

/// The text a document serializes back to; a function of the document
/// alone.
pub uninterp spec fn json_text_of(v: JsonValue) -> Seq<char>;

/// Whether the JSON parser accepts `s` as a well-formed document.
pub open spec fn json_well_formed(s: Seq<char>) -> bool {
    json_model_of(s) is Some
}

/// Relies on serde_json::from_str: whether a document parses, and what it
/// holds, is a function of the text alone.
#[verifier::external_body]
pub(crate) fn parse_json(s: &str) -> (r: Result<serde_json::Value, serde_json::Error>)
    ensures
        r is Ok <==> (json_model_of(s@) is Some),
        r matches Ok(v) ==> json_model(v) == json_model_of(s@)->Some_0,
{
    serde_json::from_str::<serde_json::Value>(s)
}

/// Relies on serde_json::Value::get: the member of an object under `key`,
/// or nothing when the value is no object or has no such member.
#[verifier::external_body]
pub(crate) fn json_get<'a>(v: &'a serde_json::Value, key: &str) -> (r: Option<
    &'a serde_json::Value,
>)
    ensures
        r is Some <==> (json_model(*v) matches JsonValue::Object(m) && m.contains_key(key@)),
        r matches Some(x) ==> json_model(*x) == json_model(*v)->Object_0[key@],
{
    v.get(key)
}

/// Relies on serde_json::Value::as_str: the content of a string value.
#[verifier::external_body]
pub(crate) fn json_as_str(v: &serde_json::Value) -> (r: Option<String>)
    ensures
        r is Some <==> (json_model(*v) is Text),
        r matches Some(st) ==> st@ == json_model(*v)->Text_0,
{
    v.as_str().map(str::to_string)
}

/// Relies on serde_json::Value::as_i64: the value of an integer that fits
/// a signed 64-bit word.
#[verifier::external_body]
pub(crate) fn json_as_i64(v: &serde_json::Value) -> (r: Option<i64>)
    ensures
        r is Some <==> (json_model(*v) matches JsonValue::Int(n) && i64::MIN <= n <= i64::MAX),
        r matches Some(x) ==> x as int == json_model(*v)->Int_0,
{
    v.as_i64()
}

/// Relies on serde_json::Value::as_u64: the value of an integer that fits
/// an unsigned 64-bit word.
#[verifier::external_body]
pub(crate) fn json_as_u64(v: &serde_json::Value) -> (r: Option<u64>)
    ensures
        r is Some <==> (json_model(*v) matches JsonValue::Int(n) && 0 <= n <= u64::MAX),
        r matches Some(x) ==> x as int == json_model(*v)->Int_0,
{
    v.as_u64()
}

/// Relies on serde_json::Value::as_bool: the content of a boolean value.
#[verifier::external_body]
pub(crate) fn json_as_bool(v: &serde_json::Value) -> (r: Option<bool>)
    ensures
        r is Some <==> (json_model(*v) is Bool),
        r matches Some(b) ==> b == json_model(*v)->Bool_0,
{
    v.as_bool()
}

/// Relies on serde_json::Value::is_null: whether the value is JSON null.
#[verifier::external_body]
pub(crate) fn json_is_null(v: &serde_json::Value) -> (r: bool)
    ensures
        r == (json_model(*v) is Null),
{
    v.is_null()
}

/// Relies on serde_json::Value::as_array: the elements of an array value,
/// each carrying its element of the model.
#[verifier::external_body]
pub(crate) fn json_as_array<'a>(v: &'a serde_json::Value) -> (r: Option<
    &'a Vec<serde_json::Value>,
>)
    ensures
        r is Some <==> (json_model(*v) is Array),
        r matches Some(a) ==> {
            &&& a@.len() == json_model(*v)->Array_0.len()
            &&& forall|i: int|
                0 <= i < a@.len() ==> #[trigger] json_model(a@[i]) == json_model(*v)->Array_0[i]
        },
{
    v.as_array()
}

/// Relies on the Display impl of serde_json::Value: the value serialized
/// back to compact JSON text, a function of the document alone.
#[verifier::external_body]
pub(crate) fn json_to_string(v: &serde_json::Value) -> (r: String)
    ensures
        r@ == json_text_of(json_model(*v)),
{
    v.to_string()
}

} // verus!
