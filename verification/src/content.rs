//! Content-aware filtering for plain-text files.
//!
//! Reading a file's text from disk is input/output and lives outside
//! this crate; which files support extraction, and whether extracted
//! text matches a pattern, are decided here.

use vstd::prelude::*;
use crate::metadata::path_ext_lower;
use crate::strutil::{chars_of, contains_seq, has_substring, lower, to_lower, vec_eq};

verus! {

/// An extension whose content can be extracted as text.
pub open spec fn is_extractable_ext(e: Seq<char>) -> bool {
    e == "txt"@ || e == "md"@ || e == "log"@ || e == "csv"@ || e == "json"@ || e == "xml"@
}

/// Whether text can be extracted from the file, by its extension.
pub fn is_content_extractable(path: &str) -> (r: bool)
    ensures
        r == match path_ext_lower(path@) {
            Option::Some(e) => is_extractable_ext(e),
            Option::None => false,
        },
{
    match crate::metadata::path_ext_lower_exec(path) {
        Some(e) => vec_eq(&e, &chars_of("txt")) || vec_eq(&e, &chars_of("md")) || vec_eq(
            &e,
            &chars_of("log"),
        ) || vec_eq(&e, &chars_of("csv")) || vec_eq(&e, &chars_of("json")) || vec_eq(
            &e,
            &chars_of("xml"),
        ),
        None => false,
    }
}

/// An extension read as plain text.
pub open spec fn is_plain_text_ext(e: Seq<char>) -> bool {
    ||| e == "txt"@
    ||| e == "md"@
    ||| e == "log"@
    ||| e == "csv"@
    ||| e == "json"@
    ||| e == "xml"@
    ||| e == "yaml"@
    ||| e == "yml"@
    ||| e == "toml"@
    ||| e == "ini"@
    ||| e == "cfg"@
}

/// Whether the file is read as plain text, by its extension.
pub fn is_plain_text(path: &str) -> (r: bool)
    ensures
        r == match path_ext_lower(path@) {
            Option::Some(e) => is_plain_text_ext(e),
            Option::None => false,
        },
{
    match crate::metadata::path_ext_lower_exec(path) {
        Some(e) => vec_eq(&e, &chars_of("txt")) || vec_eq(&e, &chars_of("md")) || vec_eq(
            &e,
            &chars_of("log"),
        ) || vec_eq(&e, &chars_of("csv")) || vec_eq(&e, &chars_of("json")) || vec_eq(
            &e,
            &chars_of("xml"),
        ) || vec_eq(&e, &chars_of("yaml")) || vec_eq(&e, &chars_of("yml")) || vec_eq(
            &e,
            &chars_of("toml"),
        ) || vec_eq(&e, &chars_of("ini")) || vec_eq(&e, &chars_of("cfg")),
        None => false,
    }
}

/// Whether extracted content contains the pattern, ASCII
/// case-insensitively.
pub fn matches_content(content: &str, pattern: &str) -> (r: bool)
    ensures
        r == has_substring(lower(content@), lower(pattern@)),
{
    let c = to_lower(&chars_of(content));
    let p = to_lower(&chars_of(pattern));
    contains_seq(&c, &p)
}

} // verus!
