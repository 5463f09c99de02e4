//! What the library reads out of JSON texts: one string field of an object,
//! and whether a text is JSON at all.
use vstd::prelude::*;
use crate::console::opt_view;

verus! {

/// Whether the text parses as JSON (`serde_json::from_str::<Value>` succeeds).
pub uninterp spec fn json_is_valid(text: Seq<char>) -> bool;

/// The string stored under `key` when the text parses as a JSON object that
/// holds a string there; none otherwise.
pub uninterp spec fn json_string_at(text: Seq<char>, key: Seq<char>) -> Option<Seq<char>>;

/// The message serde_json gives for a text that does not parse.
pub uninterp spec fn json_error_text(text: Seq<char>) -> Seq<char>;

/// The string a JSON text, when there is one, holds under `key`.
pub open spec fn field_in(text: Option<Seq<char>>, key: Seq<char>) -> Option<Seq<char>> {
    match text {
        Some(t) => json_string_at(t, key),
        None => None,
    }
}

/// `serde_json::from_str::<Value>` on the text, then `get(key)` and the
/// string inside: the result is named [`json_string_at`] of the text and the
/// key, and nothing more is claimed of it.
#[verifier::external_body]
pub(crate) fn json_string_field(text: &str, key: &str) -> (r: Option<String>)
    ensures
        opt_view(r) == json_string_at(text@, key@),
{
    match serde_json::from_str::<serde_json::Value>(text) {
        Ok(value) => match value.get(key) {
            Some(serde_json::Value::String(s)) => Some(s.clone()),
            _ => None,
        },
        Err(_) => None,
    }
}

/// `serde_json::from_str::<Value>` on the text: none exactly when it parses,
/// else the error's message, named [`json_error_text`].
#[verifier::external_body]
pub(crate) fn json_syntax_error(text: &str) -> (r: Option<String>)
    ensures
        r is None <==> json_is_valid(text@),
        r matches Some(m) ==> m@ == json_error_text(text@),
{
    match serde_json::from_str::<serde_json::Value>(text) {
        Ok(_) => None,
        Err(e) => Some(e.to_string()),
    }
}

} // verus!
