use vstd::prelude::*;

verus! {

#[verifier::external_type_specification]
#[verifier::external_body]
pub struct ExValue(serde_json::Value);

#[verifier::external_type_specification]
#[verifier::external_body]
pub struct ExNumber(serde_json::Number);

#[verifier::external_type_specification]
#[verifier::external_body]
pub struct ExJsonErr(serde_json::Error);

/// Ghost model of a JSON value: what a document denotes, with numbers kept
/// as their literal tokens.
pub enum JsonModel {
    Null,
    Bool(bool),
    Num(Seq<char>),
    Text(Seq<char>),
    Arr(Seq<JsonModel>),
    Obj(Map<Seq<char>, JsonModel>),
}

/// What a text denotes as a JSON document, when it is well-formed JSON.
pub uninterp spec fn json_doc(s: Seq<char>) -> Option<JsonModel>;

/// What a parsed value holds.
pub uninterp spec fn json_model_of(v: serde_json::Value) -> JsonModel;

/// The literal token a parsed number holds.
pub uninterp spec fn json_number_model(n: serde_json::Number) -> Seq<char>;

/// The models of a parsed array's elements, in order.
pub open spec fn seq_model(vs: Seq<serde_json::Value>) -> Seq<JsonModel> {
    vs.map(|i: int, v: serde_json::Value| json_model_of(v))
}

/// Relies on serde_json::from_str::<Value>: parses a JSON document into its
/// dynamic representation exactly when the text is well-formed JSON, and
/// otherwise reports why it is not.
#[verifier::external_body]
pub(crate) fn json_from_str(s: &str) -> (r: Result<serde_json::Value, serde_json::Error>)
    ensures
        r matches Ok(v) ==> json_doc(s@) == Some(json_model_of(v)),
        r is Err ==> json_doc(s@) is None,
{
    serde_json::from_str(s)
}

/// Relies on serde_json::Error's Display implementation for the message
/// that the deserialization error carries to the caller.
#[verifier::external_body]
pub(crate) fn json_error_message(e: &serde_json::Error) -> (r: String) {
    format!("{e}")
}

/// Relies on serde_json::Value::get: looks a key up when the value is an
/// object, and yields nothing otherwise.
#[verifier::external_body]
pub(crate) fn json_get<'a>(v: &'a serde_json::Value, key: &str) -> (r: Option<
    &'a serde_json::Value,
>)
    ensures
        match json_model_of(*v) {
            JsonModel::Obj(fields) => match r {
                Some(w) => fields.contains_key(key@) && json_model_of(*w) == fields[key@],
                None => !fields.contains_key(key@),
            },
            _ => r is None,
        },
{
    v.get(key)
}

/// Relies on serde_json::Value::as_array.
#[verifier::external_body]
pub(crate) fn json_as_array(v: &serde_json::Value) -> (r: Option<&Vec<serde_json::Value>>)
    ensures
        match json_model_of(*v) {
            JsonModel::Arr(items) => (r matches Some(a) && seq_model(a@) == items),
            _ => r is None,
        },
{
    v.as_array()
}

/// Relies on serde_json::Value::as_str.
#[verifier::external_body]
pub(crate) fn json_as_str<'a>(v: &'a serde_json::Value) -> (r: Option<&'a str>)
    ensures
        match json_model_of(*v) {
            JsonModel::Text(t) => (r matches Some(s) && s@ == t),
            _ => r is None,
        },
{
    v.as_str()
}

/// Relies on serde_json::Value::as_number.
#[verifier::external_body]
pub(crate) fn json_as_number(v: &serde_json::Value) -> (r: Option<&serde_json::Number>)
    ensures
        match json_model_of(*v) {
            JsonModel::Num(tok) => (r matches Some(n) && json_number_model(*n) == tok),
            _ => r is None,
        },
{
    v.as_number()
}

/// Relies on serde_json::Value::is_object.
#[verifier::external_body]
pub(crate) fn json_is_object(v: &serde_json::Value) -> (r: bool)
    ensures
        r == (json_model_of(*v) is Obj),
{
    v.is_object()
}

/// Relies on serde_json::Number's Display implementation: with arbitrary
/// precision enabled, the token exactly as it stood in the document, so the
/// digits reach the decimal parser without any binary-float detour.
#[verifier::external_body]
pub(crate) fn json_number_token(n: &serde_json::Number) -> (r: String)
    ensures
        r@ == json_number_model(*n),
{
    format!("{n}")
}

} // verus!
