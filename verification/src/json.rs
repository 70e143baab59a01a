//! JSON string literals, which `serde_json` writes. Nothing in this file is
//! proved.

use vstd::prelude::*;

verus! {

/// The JSON string literal for a text, as `serde_json` writes it: the text
/// between double quotes, with the characters escaped that JSON asks for.
pub uninterp spec fn json_string(text: Seq<char>) -> Seq<char>;

/// The `Display` of `serde_json::Value::String`: the JSON string literal
/// for `text`. It depends on the characters of `text` alone.
#[verifier::external_body]
pub(crate) fn json_quote(text: &str) -> (literal: String)
    ensures
        literal@ == json_string(text@),
{
    serde_json::Value::String(text.to_owned()).to_string()
}

} // verus!
