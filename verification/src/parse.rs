//! The parse boundary: raw bytes in, a JSON value or a batch-ending error out.

use vstd::prelude::*;
use crate::json::{JsonModel, JsonValue};
use crate::state::{LoadError, Msg};

verus! {

#[verifier::external_type_specification]
#[verifier::external_body]
pub struct ExSerdeValue(serde_json::Value);

/// What parsing a byte sequence as JSON yields: the parsed document's model,
/// or nothing when the bytes are not valid JSON. Parsing is a function of the
/// bytes alone.
pub uninterp spec fn parsed_doc(bytes: Seq<u8>) -> Option<JsonModel>;

/// Relies on serde_json::from_slice::<serde_json::Value>: whether the bytes
/// parse, and what they parse to, depend on the bytes alone; on failure the
/// returned text is the parser's diagnostic.
#[verifier::external_body]
fn parse_json_bytes(data: &[u8]) -> (r: Result<JsonValue, String>)
    ensures
        r matches Ok(v) ==> parsed_doc(data@) == Some(v@),
        r is Err ==> parsed_doc(data@) is None,
{
    match serde_json::from_slice::<serde_json::Value>(data) {
        Ok(v) => Ok(from_serde(&v)),
        Err(e) => Err(format!("{}", e)),
    }
}

/// Rebuilds a serde_json::Value as the library's own value, variant by
/// variant. Relies on serde_json::Value's six variants and on
/// serde_json::Number::to_string for a number's canonical decimal text.
#[verifier::external_body]
fn from_serde(v: &serde_json::Value) -> JsonValue {
    match v {
        serde_json::Value::Null => JsonValue::Null,
        serde_json::Value::Bool(b) => JsonValue::Bool(*b),
        serde_json::Value::Number(n) => JsonValue::Number(n.to_string()),
        serde_json::Value::String(s) => JsonValue::Text(s.clone()),
        serde_json::Value::Array(a) => JsonValue::Array(a.iter().map(from_serde).collect()),
        serde_json::Value::Object(o) => JsonValue::Object(
            o.iter().map(|(k, x)| (k.clone(), from_serde(x))).collect(),
        ),
    }
}

/// Parses one file's bytes; bytes that are not valid JSON yield a
/// `ParseError` naming the file and carrying the parser's diagnostic.
pub fn parse_document(file_name: &str, data: &[u8]) -> (r: Result<JsonValue, LoadError>)
    ensures
        parsed_doc(data@) matches Some(m) ==> (r matches Ok(v) && v@ == m),
        parsed_doc(data@) is None ==> (r matches Err(e) && e matches LoadError::ParseError(
            n, d) && n@ == file_name@),
{
    match parse_json_bytes(data) {
        Ok(v) => Ok(v),
        Err(diag) => Err(LoadError::ParseError(String::from_str(file_name), diag)),
    }
}

/// Decides the event for one completed read: bytes that parse load the file;
/// a parse failure or a failed read ends the batch with its message.
pub fn file_read_event(file_name: String, file_type: String, outcome: Result<Vec<u8>, ()>)
    -> (m: Msg)
    ensures
        outcome matches Ok(data) ==> {
            &&& (parsed_doc(data@) is Some ==> (m matches Msg::Loaded(n, t, v)
                && n == file_name && t == file_type && Some(v@) == parsed_doc(data@)))
            &&& (parsed_doc(data@) is None ==> (m matches Msg::Error(s)
                && exists|d: Seq<char>| s@ == "failed to parse file: "@ + file_name@
                    + ": "@ + d))
        },
        outcome is Err ==> (m matches Msg::Error(s) && s@ == "failed to read file"@),
{
    match outcome {
        Ok(data) => {
            match parse_document(file_name.as_str(), data.as_slice()) {
                Ok(v) => Msg::Loaded(file_name, file_type, v),
                Err(err) => {
                    let text = err.message();
                    proof {
                        match err {
                            LoadError::ParseError(n, d) => {
                                assert(text@ == "failed to parse file: "@ + file_name@
                                    + ": "@ + d@);
                            }
                            _ => {}
                        }
                    }
                    Msg::Error(text)
                }
            }
        }
        Err(_) => Msg::Error(LoadError::ReadError.message()),
    }
}

} // verus!
