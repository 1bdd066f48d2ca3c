//! String members of a JSON text.
use vstd::prelude::*;

verus! {

/// The string member `key` of the JSON value that `text` holds, if `text` is
/// one JSON object with such a member.
pub uninterp spec fn json_string_member_of(text: Seq<char>, key: Seq<char>) -> Option<Seq<char>>;

/// Relies on `serde_json::from_str` to read `text` as one JSON value, then on
/// `Value::get` and `Value::as_str` to take its member `key` where that member
/// is a string.
#[verifier::external_body]
pub(crate) fn json_string_member(text: &str, key: &str) -> (r: Option<String>)
    ensures
        match r {
            Some(m) => json_string_member_of(text@, key@) == Some(m@),
            None => json_string_member_of(text@, key@) is None,
        },
{
    let value: serde_json::Value = serde_json::from_str(text).ok()?;
    value.get(key)?.as_str().map(|m| m.to_string())
}

} // verus!
