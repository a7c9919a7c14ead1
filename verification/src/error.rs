//! Error taxonomy for the library.

use vstd::prelude::*;
use crate::strutil::{append_vec, chars_of, string_of};

verus! {

/// Everything that can go wrong in a scan, a parse, or an execution run.
#[derive(Debug, Clone)]
pub enum NeatError {
    /// The given root path does not exist.
    PathNotFound(String),
    /// The given root path is not a directory.
    NotADirectory(String),
    /// A path could not be accessed.
    PermissionDenied(String),
    /// A file could not be moved.
    MoveError { from: String, to: String, reason: String },
    /// A file could not be read for hashing or comparison.
    ReadError(String),
    /// A destination directory could not be created.
    CreateDirError(String),
    /// A duration string could not be parsed.
    InvalidDuration(String),
    /// A size string could not be parsed.
    InvalidSize(String),
    /// A date string could not be parsed.
    InvalidDate(String),
    /// There is no recorded batch to undo.
    NoHistory,
    /// The user declined a confirmation prompt.
    Cancelled,
}

impl NeatError {
    /// The user-facing description of this error.
    pub open spec fn spec_message(self) -> Seq<char> {
        match self {
            NeatError::PathNotFound(p) => "Path does not exist: "@ + p@,
            NeatError::NotADirectory(p) => "Not a directory: "@ + p@,
            NeatError::PermissionDenied(p) => "Permission denied: "@ + p@,
            NeatError::MoveError { from, to, reason } => "Failed to move file from "@ + from@
                + " to "@ + to@ + ": "@ + reason@,
            NeatError::ReadError(p) => "Failed to read file: "@ + p@,
            NeatError::CreateDirError(p) => "Failed to create directory: "@ + p@,
            NeatError::InvalidDuration(s) => "Invalid duration format: "@ + s@
                + ". Use formats like 30d, 7d, 1w"@,
            NeatError::InvalidSize(s) => "Invalid size format: "@ + s@,
            NeatError::InvalidDate(s) => "Invalid date: "@ + s@,
            NeatError::NoHistory => "No history found. Nothing to undo."@,
            NeatError::Cancelled => "Operation cancelled by user"@,
        }
    }

    /// The user-facing description of this error.
    pub fn message(&self) -> (r: String)
        ensures
            r@ == self.spec_message(),
    {
        let mut out: Vec<char>;
        match self {
            NeatError::PathNotFound(p) => {
                out = chars_of("Path does not exist: ");
                append_vec(&mut out, &chars_of(p.as_str()));
            },
            NeatError::NotADirectory(p) => {
                out = chars_of("Not a directory: ");
                append_vec(&mut out, &chars_of(p.as_str()));
            },
            NeatError::PermissionDenied(p) => {
                out = chars_of("Permission denied: ");
                append_vec(&mut out, &chars_of(p.as_str()));
            },
            NeatError::MoveError { from, to, reason } => {
                out = chars_of("Failed to move file from ");
                append_vec(&mut out, &chars_of(from.as_str()));
                append_vec(&mut out, &chars_of(" to "));
                append_vec(&mut out, &chars_of(to.as_str()));
                append_vec(&mut out, &chars_of(": "));
                append_vec(&mut out, &chars_of(reason.as_str()));
            },
            NeatError::ReadError(p) => {
                out = chars_of("Failed to read file: ");
                append_vec(&mut out, &chars_of(p.as_str()));
            },
            NeatError::CreateDirError(p) => {
                out = chars_of("Failed to create directory: ");
                append_vec(&mut out, &chars_of(p.as_str()));
            },
            NeatError::InvalidDuration(s) => {
                out = chars_of("Invalid duration format: ");
                append_vec(&mut out, &chars_of(s.as_str()));
                append_vec(&mut out, &chars_of(". Use formats like 30d, 7d, 1w"));
            },
            NeatError::InvalidSize(s) => {
                out = chars_of("Invalid size format: ");
                append_vec(&mut out, &chars_of(s.as_str()));
            },
            NeatError::InvalidDate(s) => {
                out = chars_of("Invalid date: ");
                append_vec(&mut out, &chars_of(s.as_str()));
            },
            NeatError::NoHistory => {
                out = chars_of("No history found. Nothing to undo.");
            },
            NeatError::Cancelled => {
                out = chars_of("Operation cancelled by user");
            },
        }
        string_of(&out)
    }
}

} // verus!
