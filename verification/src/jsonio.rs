//! The boundary to `serde_json`: parsing free-form JSON text and printing a
//! parsed document back in `serde_json`'s canonical form.
//!
//! Parsed documents pass through this tool untouched, so the library never
//! looks inside a `serde_json::Value`; it only needs to know that parsing and
//! printing are functions of the input text alone.
use vstd::prelude::*;

verus! {

#[verifier::external_type_specification]
#[verifier::external_body]
pub struct ExValue(serde_json::Value);

/// The canonical text that `serde_json` prints for a parsed document.
pub uninterp spec fn json_text(v: serde_json::Value) -> Seq<char>;

/// The canonical form of the JSON document written `s`: `None` when `s` is
/// not well-formed JSON, otherwise the text `serde_json` prints for it.
pub uninterp spec fn json_norm(s: Seq<char>) -> Option<Seq<char>>;

/// The parse-error message that `serde_json` reports for the text `s`.
pub uninterp spec fn json_err_of(s: Seq<char>) -> Seq<char>;

/// Relies on `serde_json::from_str::<Value>`: whether a string parses as
/// JSON, the document it denotes, and the error message otherwise are all
/// functions of the string alone.
#[verifier::external_body]
fn parse_json(s: &str) -> (r: Result<serde_json::Value, String>)
    ensures
        r is Ok <==> json_norm(s@) is Some,
        r matches Ok(v) ==> json_text(v) == json_norm(s@).unwrap(),
        r matches Err(m) ==> m@ == json_err_of(s@),
{
    match serde_json::from_str::<serde_json::Value>(s) {
        Ok(v) => Ok(v),
        Err(e) => Err(e.to_string()),
    }
}

/// Relies on `serde_json`'s `Display` for `Value`: printing a document is a
/// function of the document alone (object keys come out in their stored,
/// sorted order).
#[verifier::external_body]
fn value_to_text(v: &serde_json::Value) -> (r: String)
    ensures
        r@ == json_text(*v),
{
    v.to_string()
}

/// Parse `s` as JSON and give it back in canonical form, or report
/// `serde_json`'s parse-error message.
pub fn normalize_json(s: &str) -> (r: Result<String, String>)
    ensures
        r is Ok <==> json_norm(s@) is Some,
        r matches Ok(t) ==> json_norm(s@) == Some(t@),
        r matches Err(m) ==> m@ == json_err_of(s@),
{
    match parse_json(s) {
        Ok(v) => Ok(value_to_text(&v)),
        Err(m) => Err(m),
    }
}

} // verus!
