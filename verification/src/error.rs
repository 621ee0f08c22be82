//! The library's error type. Only the rebase-todo parser constructs an
//! error itself; the file- and command-related variants are filled in by
//! callers that do I/O around the library.

use vstd::prelude::*;

use crate::text::dec_digits;
use crate::text::from_chars;
use crate::text::push_decimal_u64;
use crate::text::to_chars;

verus! {

#[derive(Debug, Clone, PartialEq)]
pub enum AppError {
    FileNotFound { path: String },
    PermissionDenied { path: String },
    ParseError { line: usize, message: String },
    IoError { message: String },
    CommandError { message: String },
}

/// The human-readable description of an error.
pub open spec fn spec_message(e: AppError) -> Seq<char> {
    match e {
        AppError::FileNotFound { path } => "File not found: "@ + path@,
        AppError::PermissionDenied { path } => "Permission denied: "@ + path@,
        AppError::ParseError { line, message } => "Parse error at line "@ + dec_digits(line as int)
            + ": "@ + message@,
        AppError::IoError { message } => "IO error: "@ + message@,
        AppError::CommandError { message } => "Command execution failed: "@ + message@,
    }
}

impl AppError {
    /// Render the error as text.
    pub fn message(&self) -> (r: String)
        ensures
            r@ == spec_message(*self),
    {
        match self {
            AppError::FileNotFound { path } => {
                let mut out = to_chars("File not found: ");
                let mut p = to_chars(path.as_str());
                out.append(&mut p);
                from_chars(&out)
            },
            AppError::PermissionDenied { path } => {
                let mut out = to_chars("Permission denied: ");
                let mut p = to_chars(path.as_str());
                out.append(&mut p);
                from_chars(&out)
            },
            AppError::ParseError { line, message } => {
                let mut out = to_chars("Parse error at line ");
                push_decimal_u64(&mut out, *line as u64);
                let mut sep = to_chars(": ");
                out.append(&mut sep);
                let mut m = to_chars(message.as_str());
                out.append(&mut m);
                assert(out@ =~= "Parse error at line "@ + dec_digits(*line as int) + ": "@
                    + message@);
                from_chars(&out)
            },
            AppError::IoError { message } => {
                let mut out = to_chars("IO error: ");
                let mut m = to_chars(message.as_str());
                out.append(&mut m);
                from_chars(&out)
            },
            AppError::CommandError { message } => {
                let mut out = to_chars("Command execution failed: ");
                let mut m = to_chars(message.as_str());
                out.append(&mut m);
                from_chars(&out)
            },
        }
    }
}

/// A wrapper kept distinct from `AppError` so that callers doing I/O can
/// attach their own serialization to it without touching the error itself.
#[derive(Debug, Clone, PartialEq)]
pub struct AppErrorWrapper(pub AppError);

impl From<AppError> for AppErrorWrapper {
    fn from(err: AppError) -> (r: AppErrorWrapper) {
        AppErrorWrapper(err)
    }
}

impl vstd::std_specs::convert::FromSpecImpl<AppError> for AppErrorWrapper {
    open spec fn obeys_from_spec() -> bool {
        true
    }

    open spec fn from_spec(err: AppError) -> AppErrorWrapper {
        AppErrorWrapper(err)
    }
}

} // verus!
