//! The error type of the editor core's fallible operations.
use crate::paths::{path_text, text_of};
use crate::text::{string_push_str, to_string};
use std::path::PathBuf;
use vstd::prelude::*;

verus! {

/// Errors of the editor core.
#[derive(Debug)]
pub enum AlfredError {
    /// Failed to read a file from disk; `message` is the I/O error's text.
    FileReadError { path: PathBuf, message: String },
    /// Failed to write a file to disk; `message` is the I/O error's text.
    FileWriteError { path: PathBuf, message: String },
    /// Command not found in the registry.
    CommandNotFound { name: String },
}

/// The text of an error.
pub open spec fn error_text(e: AlfredError) -> Seq<char> {
    match e {
        AlfredError::FileReadError { path, message } => "failed to read file '"@ + path_text(path) + "': "@
            + message@,
        AlfredError::FileWriteError { path, message } => "failed to write file '"@ + path_text(path) + "': "@
            + message@,
        AlfredError::CommandNotFound { name } => "command not found: '"@ + name@ + "'"@,
    }
}

impl AlfredError {
    /// The error's text, as it is displayed.
    pub fn message(&self) -> (s: String)
        ensures
            s@ == error_text(*self),
    {
        match self {
            AlfredError::FileReadError { path, message } => {
                let mut s = to_string("failed to read file '");
                string_push_str(&mut s, text_of(path).as_str());
                string_push_str(&mut s, "': ");
                string_push_str(&mut s, message.as_str());
                s
            },
            AlfredError::FileWriteError { path, message } => {
                let mut s = to_string("failed to write file '");
                string_push_str(&mut s, text_of(path).as_str());
                string_push_str(&mut s, "': ");
                string_push_str(&mut s, message.as_str());
                s
            },
            AlfredError::CommandNotFound { name } => {
                let mut s = to_string("command not found: '");
                string_push_str(&mut s, name.as_str());
                string_push_str(&mut s, "'");
                s
            },
        }
    }
}

} // verus!
