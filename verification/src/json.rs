//! JSON string literals.

use vstd::prelude::*;
use vstd::string::StringExecFns;

verus! {

/// The JSON string literal that `serde_json` writes for a text, quotes and
/// escapes included; `None` where it reports an error instead.
pub uninterp spec fn json_string(s: Seq<char>) -> Option<Seq<char>>;

/// The text that `serde_json` reads from a JSON text as one string; `None`
/// where it reports an error instead.
pub uninterp spec fn json_string_value(json: Seq<char>) -> Option<Seq<char>>;

/// `serde_json::to_string` on a string slice: what comes back depends on the
/// characters of the slice alone. An error is handed on as `None`.
#[verifier::external_body]
pub(crate) fn quote(s: &str) -> (quoted: Option<String>)
    ensures
        json_string(s@) == match quoted {
            Some(t) => Some(t@),
            None => None,
        },
{
    serde_json::to_string(s).ok()
}

/// `serde_json::from_str` read as a `String`: what comes back depends on
/// the characters of the text alone. An error is handed on as `None`.
#[verifier::external_body]
pub(crate) fn unquote(json: &str) -> (value: Option<String>)
    ensures
        json_string_value(json@) == match value {
            Some(t) => Some(t@),
            None => None,
        },
{
    serde_json::from_str::<String>(json).ok()
}

/// The JSON string literal of a name, where there is one and it reads back
/// as the name.
pub open spec fn literal_of(name: Seq<char>) -> Option<Seq<char>> {
    match json_string(name) {
        Some(literal) => if json_string_value(literal) == Some(name) {
            Some(literal)
        } else {
            None
        },
        None => None,
    }
}

/// Two names with the same literal are the same name.
pub proof fn lemma_literal_tells_names_apart(a: Seq<char>, b: Seq<char>)
    requires
        literal_of(a) is Some,
        literal_of(a) == literal_of(b),
    ensures
        a == b,
{
}

/// Writes the JSON string literal of `name` and reads it back: the literal
/// is given only where the reading gives the name again.
pub fn checked_literal(name: &str) -> (literal: Option<String>)
    ensures
        literal_of(name@) == match literal {
            Some(t) => Some(t@),
            None => None,
        },
{
    let literal = match quote(name) {
        Some(literal) => literal,
        None => { return None; },
    };
    match unquote(literal.as_str()) {
        Some(value) => {
            if value == String::from_str(name) {
                Some(literal)
            } else {
                None
            }
        },
        None => None,
    }
}

} // verus!
