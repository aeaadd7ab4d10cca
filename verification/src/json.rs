//! The JSON reading that the command bridge needs, done by `serde_json`.

use vstd::prelude::*;

verus! {

/// `serde_json::Error`, carried from the parser to the place where its
/// words are read; nothing inside it is looked at.
#[verifier::external_type_specification]
#[verifier::external_body]
pub struct ExJsonError(serde_json::Error);

/// What `serde_json` reads from a text as a JSON array of strings: the
/// strings in order, or nothing where the text is no such array.
pub uninterp spec fn json_string_array(text: Seq<char>) -> Option<Seq<Seq<char>>>;

/// `serde_json::from_str` at the type `Vec<String>`. The result is a function
/// of the text alone; it is named, not described.
#[verifier::external_body]
pub(crate) fn parse_string_array(text: &str) -> (r: Result<Vec<String>, serde_json::Error>)
    ensures
        match r {
            Ok(strings) => json_string_array(text@) == Some(strings.deep_view()),
            Err(_) => json_string_array(text@) is None,
        },
{
    serde_json::from_str::<Vec<String>>(text)
}

/// The text that `serde_json::Error` displays. Nothing is claimed of it.
#[verifier::external_body]
pub(crate) fn json_error_text(error: &serde_json::Error) -> (text: String) {
    error.to_string()
}

} // verus!
