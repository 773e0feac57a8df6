//! Errors of the runner and the exit codes they map to.
use vstd::prelude::*;

use crate::text::push_str;

verus! {

#[verifier::external_type_specification]
#[verifier::external_body]
pub struct ExIoError(std::io::Error);

/// A failed run: bad usage, a missing game directory, or a failed
/// input/output operation with what was being done.
#[derive(Debug)]
pub enum HeadlessError {
    Usage(String),
    InvalidGameDir(String),
    Io { action: String, source: std::io::Error },
}

/// `<io::Error as Display>::fmt`, through `format!("{}")`.  Nothing is
/// claimed of the text: it comes from the operating system.
#[verifier::external_body]
fn io_error_text(e: &std::io::Error) -> String {
    format!("{}", e)
}

impl HeadlessError {
    /// The error of a failed input/output operation.
    pub fn io(action: String, source: std::io::Error) -> (r: Self)
        ensures
            r matches HeadlessError::Io { action: a, source: s } && a@ == action@ && s == source,
    {
        HeadlessError::Io { action, source }
    }

    /// The process exit code: 2 for usage errors and a missing game
    /// directory, 1 for input/output failures.
    pub fn exit_code(&self) -> (r: u8)
        ensures
            r == match self {
                HeadlessError::Usage(_) | HeadlessError::InvalidGameDir(_) => 2u8,
                HeadlessError::Io { .. } => 1u8,
            },
    {
        match self {
            HeadlessError::Usage(_) | HeadlessError::InvalidGameDir(_) => 2,
            HeadlessError::Io { .. } => 1,
        }
    }

    /// The input/output error behind the error, if there is one.
    pub fn source(&self) -> (r: Option<&std::io::Error>)
        ensures
            match self {
                HeadlessError::Io { source, .. } => r == Some(source),
                _ => r is None,
            },
    {
        match self {
            HeadlessError::Io { source, .. } => Some(source),
            _ => None,
        }
    }

    /// The message shown for the error: the usage message itself,
    /// `game directory does not exist: PATH`, or `ACTION: ` followed by the
    /// system's description of the failure.
    pub fn message(&self) -> (r: String)
        ensures
            self matches HeadlessError::Usage(m) ==> r@ == m@,
            self matches HeadlessError::InvalidGameDir(p) ==> r@ == "game directory does not exist: "@
                + p@,
            self matches HeadlessError::Io { action, .. } ==> r@.len() >= action@.len() + 2
                && r@.subrange(0, action@.len() + 2int) == action@ + ": "@,
    {
        match self {
            HeadlessError::Usage(m) => crate::text::copy_string(m),
            HeadlessError::InvalidGameDir(p) => {
                let mut out = String::new();
                push_str(&mut out, "game directory does not exist: ");
                push_str(&mut out, p.as_str());
                out
            },
            HeadlessError::Io { action, source } => {
                let mut out = String::new();
                push_str(&mut out, action.as_str());
                push_str(&mut out, ": ");
                let ghost prefix = out@;
                proof {
                    reveal_strlit(": ");
                }
                push_str(&mut out, io_error_text(source).as_str());
                assert(out@.subrange(0, prefix.len() as int) =~= prefix);
                out
            },
        }
    }
}

} // verus!
