//! File filters: name predicates, regular expressions, MIME types, and
//! glob patterns.

use vstd::prelude::*;
use crate::strutil::{
    chars_of, contains_seq, ends_with_vec, has_substring, lower, starts_with_vec, stem_of,
    stem_of_exec, string_of, subvec, to_lower,
};

verus! {

/// What a glob pattern match returns: glob's `Pattern::new` followed by
/// `Pattern::matches`, with an invalid pattern matching nothing.
pub uninterp spec fn glob_match_of(pattern: Seq<char>, text: Seq<char>) -> bool;

/// Relies on glob's `Pattern::new` and `Pattern::matches`: whether `text`
/// matches the glob `pattern`; an invalid pattern matches nothing.
#[verifier::external_body]
pub(crate) fn glob_match(pattern: &str, text: &str) -> (r: bool)
    ensures
        r == glob_match_of(pattern@, text@),
{
    match glob::Pattern::new(pattern) {
        Ok(p) => p.matches(text),
        Err(_) => false,
    }
}

/// What a regular-expression match returns: regex's `Regex::is_match`
/// on the compiled pattern.
pub uninterp spec fn regex_match_of(pattern: Seq<char>, text: Seq<char>) -> bool;

/// Whether regex's `Regex::new` accepts the pattern.
pub uninterp spec fn regex_valid_of(pattern: Seq<char>) -> bool;

/// Declares regex's `Error` type, carried opaquely through results.
#[verifier::external_type_specification]
#[verifier::external_body]
pub struct ExRegexError(regex::Error);

/// Relies on regex's `Regex::new` and `Regex::is_match`: whether
/// `filename` matches `pattern`; an invalid pattern is the error that
/// `Regex::new` reports.
#[verifier::external_body]
pub fn matches_regex(filename: &str, pattern: &str) -> (r: Result<bool, regex::Error>)
    ensures
        r is Ok <==> regex_valid_of(pattern@),
        match r {
            Ok(b) => b == regex_match_of(pattern@, filename@),
            Err(_) => true,
        },
{
    match regex::Regex::new(pattern) {
        Ok(re) => Ok(re.is_match(filename)),
        Err(e) => Err(e),
    }
}

/// What a MIME-type guess returns: mime_guess's `from_path`, by the
/// path's extension alone.
pub uninterp spec fn mime_of(path: Seq<char>) -> Option<Seq<char>>;

/// Relies on mime_guess's `MimeGuess::from_path` and `first_raw`: the
/// first guessed MIME type for the path, by its extension.
#[verifier::external_body]
fn guess_mime(path: &str) -> (r: Option<String>)
    ensures
        match r {
            Some(m) => mime_of(path@) == Option::Some(m@),
            None => mime_of(path@) == Option::<Seq<char>>::None,
        },
{
    match mime_guess::from_path(std::path::Path::new(path)).first_raw() {
        Some(m) => Some(m.to_string()),
        None => None,
    }
}

/// The first guessed MIME type for a path, if any mapping is known.
pub fn get_mime_type(path: &str) -> (r: Option<String>)
    ensures
        match r {
            Some(m) => mime_of(path@) == Option::Some(m@),
            None => mime_of(path@) == Option::<Seq<char>>::None,
        },
{
    guess_mime(path)
}

/// Whether the guessed MIME type `m` matches the filter: an exact match,
/// or a `prefix/*` wildcard matching by prefix.
pub open spec fn mime_filter_matches(m: Seq<char>, filter: Seq<char>) -> bool {
    if "/*"@.is_suffix_of(filter) {
        filter.subrange(0, filter.len() - 2).is_prefix_of(m)
    } else {
        m == filter
    }
}

/// What `matches_mime` returns for a path and a filter.
pub open spec fn spec_matches_mime(path: Seq<char>, filter: Seq<char>) -> bool {
    match mime_of(path) {
        Option::Some(m) => mime_filter_matches(m, filter),
        Option::None => false,
    }
}

/// Whether the file's guessed MIME type matches the filter; a file with
/// no known mapping matches nothing.
pub fn matches_mime(path: &str, mime_filter: &str) -> (r: bool)
    ensures
        r == spec_matches_mime(path@, mime_filter@),
{
    proof {
        reveal_strlit("/*");
    }
    match guess_mime(path) {
        Some(m) => {
            let f = chars_of(mime_filter);
            let mv = chars_of(m.as_str());
            if ends_with_vec(&f, &chars_of("/*")) {
                let prefix = subvec(&f, 0, f.len() - 2);
                starts_with_vec(&mv, &prefix)
            } else {
                crate::strutil::vec_eq(&mv, &f)
            }
        },
        None => false,
    }
}

/// Name-based file filters: prefix and suffix apply to the name without
/// its extension, the substring filter to the whole name.
#[derive(Debug, Clone, Default)]
pub struct NameFilter {
    /// The name (without extension) must start with this string.
    pub startswith: Option<String>,
    /// The name (without extension) must end with this string.
    pub endswith: Option<String>,
    /// The whole name must contain this string.
    pub contains: Option<String>,
    /// Compare ASCII case-insensitively.
    pub case_insensitive: bool,
}

/// What `NameFilter::matches` returns for a file name.
pub open spec fn name_filter_matches(f: NameFilter, filename: Seq<char>) -> bool {
    let name = if f.case_insensitive {
        lower(filename)
    } else {
        filename
    };
    let stem = stem_of(name);
    &&& match f.startswith {
        Option::Some(p) => (if f.case_insensitive {
            lower(p@)
        } else {
            p@
        }).is_prefix_of(stem),
        Option::None => true,
    }
    &&& match f.endswith {
        Option::Some(p) => (if f.case_insensitive {
            lower(p@)
        } else {
            p@
        }).is_suffix_of(stem),
        Option::None => true,
    }
    &&& match f.contains {
        Option::Some(p) => has_substring(
            name,
            if f.case_insensitive {
                lower(p@)
            } else {
                p@
            },
        ),
        Option::None => true,
    }
}

impl NameFilter {
    /// An empty filter, which matches every name.
    pub fn new() -> (r: Self)
        ensures
            r.startswith is None,
            r.endswith is None,
            r.contains is None,
            !r.case_insensitive,
    {
        NameFilter { startswith: None, endswith: None, contains: None, case_insensitive: false }
    }

    /// Whether a file name passes every active predicate of this filter.
    pub fn matches(&self, filename: &str) -> (r: bool)
        ensures
            r == name_filter_matches(*self, filename@),
    {
        let raw = chars_of(filename);
        let name = if self.case_insensitive {
            to_lower(&raw)
        } else {
            raw
        };
        let stem = stem_of_exec(&name);
        match &self.startswith {
            Some(p) => {
                let pc = chars_of(p.as_str());
                let pat = if self.case_insensitive {
                    to_lower(&pc)
                } else {
                    pc
                };
                if !starts_with_vec(&stem, &pat) {
                    return false;
                }
            },
            None => {},
        }
        match &self.endswith {
            Some(p) => {
                let pc = chars_of(p.as_str());
                let pat = if self.case_insensitive {
                    to_lower(&pc)
                } else {
                    pc
                };
                if !ends_with_vec(&stem, &pat) {
                    return false;
                }
            },
            None => {},
        }
        match &self.contains {
            Some(p) => {
                let pc = chars_of(p.as_str());
                let pat = if self.case_insensitive {
                    to_lower(&pc)
                } else {
                    pc
                };
                if !contains_seq(&name, &pat) {
                    return false;
                }
            },
            None => {},
        }
        true
    }

    /// Whether this filter has no active predicate.
    pub fn is_empty(&self) -> (r: bool)
        ensures
            r == (self.startswith is None && self.endswith is None && self.contains is None),
    {
        self.startswith.is_none() && self.endswith.is_none() && self.contains.is_none()
    }
}

} // verus!
