//! Error types reported to callers: snapshot import failures are the only
//! recoverable, reported errors of the library; everything else is either
//! silently dropped (bad frames) or fatal at the caller's side.
use vstd::prelude::*;

use crate::textfmt::{chars_to_string, push_str_chars};

verus! {

/// A reported, recoverable failure.
#[derive(Debug)]
pub enum AppError {
    /// The snapshot text is not a valid record encoding (malformed
    /// structure, bad escape, or a numeric field out of range).
    InvalidSnapshot,
}

/// The view of an error message, fixed here so callers can reason about it.
pub open spec fn spec_error_message(e: AppError) -> Seq<char> {
    "invalid snapshot data"@
}

impl AppError {
    /// A human-readable description of the failure.
    pub fn message(&self) -> (r: String)
        ensures
            r@ == spec_error_message(*self),
    {
        let mut out: Vec<char> = Vec::new();
        push_str_chars(&mut out, "invalid snapshot data");
        chars_to_string(&out)
    }
}

/// The error mirror handed to display layers: one variant wrapping the
/// already-rendered message.
pub enum ApiError {
    AppError(String),
}

impl ApiError {
    /// The message as a one-element list of lines.
    pub fn to_vec_string(&self) -> (r: Vec<String>)
        ensures
            r@.len() == 1,
            r@[0]@ == (self->0)@,
    {
        match self {
            ApiError::AppError(json) => {
                let mut v: Vec<String> = Vec::new();
                v.push(json.clone());
                v
            },
        }
    }
}

} // verus!
