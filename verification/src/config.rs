//! The workspace configuration file.

use vstd::prelude::*;
use vstd::string::*;

use crate::json;
use crate::json::Json;
use crate::json::JsonV;

verus! {

/// The string that a JSON value has under a key.
pub open spec fn string_member(value: JsonV, key: Seq<char>) -> Option<Seq<char>> {
    match value.get(key) {
        Some(JsonV::Str(s)) => Some(s),
        _ => None,
    }
}

/// The string that the configuration has under a key. A file that is absent or no
/// JSON, and a value that is no string, give none.
pub open spec fn entry(config: Option<Seq<char>>, key: Seq<char>) -> Option<Seq<char>> {
    match config {
        None => None,
        Some(content) => match json::parsed(vstd::utf8::encode_utf8(content)) {
            Ok(value) => string_member(value, key),
            Err(_) => None,
        },
    }
}

/// The string that a JSON value has under a key.
pub fn string_of(value: &Json, key: &str) -> (found: Option<String>)
    ensures
        match found {
            Some(s) => string_member(value@, key@) == Some(s@),
            None => string_member(value@, key@) is None,
        },
{
    match value.get(key) {
        Some(Json::Str(s)) => Some(s.clone()),
        _ => None,
    }
}

/// The string that the configuration has under a key. `config` is the text of the
/// file, if there is one.
pub fn config_string(config: Option<&str>, key: &str) -> (found: Option<String>)
    ensures
        match found {
            Some(s) => entry(crate::logging::optional_text(config), key@) == Some(s@),
            None => entry(crate::logging::optional_text(config), key@) is None,
        },
{
    match config {
        None => None,
        Some(content) => match json::parse(content.as_bytes()) {
            Ok(value) => string_of(&value, key),
            Err(_) => None,
        },
    }
}

} // verus!
