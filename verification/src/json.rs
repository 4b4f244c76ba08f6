use vstd::prelude::*;

verus! {

/// Whether a text is well-formed JSON. The JSON grammar is decided by the
/// parser the engine trusts; contracts speak of this name only.
pub uninterp spec fn is_json(s: Seq<char>) -> bool;

/// Relies on `serde_json::from_str::<serde_json::Value>`: whether the text
/// parses as JSON, a function of the text alone.
#[verifier::external_body]
pub(crate) fn check_json(s: &String) -> (r: bool)
    ensures
        r == is_json(s@),
{
    serde_json::from_str::<serde_json::Value>(s.as_str()).is_ok()
}

} // verus!
