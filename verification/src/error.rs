//! The editor's error values.

use vstd::prelude::*;

verus! {

/// What the surrounding editor can fail with.
#[derive(Debug, Clone)]
pub enum Error {
    /// Saving a buffer that was never given a file path.
    NeedFilePath,
    /// A command that needs an argument got none.
    MissingArg,
    /// A command word nothing answers to.
    UnknownCommand(String),
    /// A grammar that failed to build.
    BuildingSyntax,
    /// No grammar claims the requested file extension.
    UnknownSyntax,
}

impl Error {
    /// A short description, in place of a display implementation.
    pub fn message(&self) -> (r: &'static str)
        ensures
            match self {
                Error::NeedFilePath => r@ == "need a file path to save a new buffer"@,
                Error::MissingArg => r@ == "missing an argument"@,
                Error::UnknownCommand(_) => r@ == "unknown command"@,
                Error::BuildingSyntax => r@ == "failed to parse syntax"@,
                Error::UnknownSyntax => r@ == "no syntax for this file extension"@,
            },
    {
        match self {
            Error::NeedFilePath => "need a file path to save a new buffer",
            Error::MissingArg => "missing an argument",
            Error::UnknownCommand(_) => "unknown command",
            Error::BuildingSyntax => "failed to parse syntax",
            Error::UnknownSyntax => "no syntax for this file extension",
        }
    }
}

impl PartialEq for Error {
    fn eq(&self, other: &Error) -> (r: bool) {
        match (self, other) {
            (Error::NeedFilePath, Error::NeedFilePath) => true,
            (Error::MissingArg, Error::MissingArg) => true,
            (Error::UnknownCommand(a), Error::UnknownCommand(b)) => *a == *b,
            (Error::BuildingSyntax, Error::BuildingSyntax) => true,
            (Error::UnknownSyntax, Error::UnknownSyntax) => true,
            _ => false,
        }
    }
}

impl vstd::std_specs::cmp::PartialEqSpecImpl for Error {
    open spec fn obeys_eq_spec() -> bool {
        true
    }

    open spec fn eq_spec(&self, other: &Error) -> bool {
        match (self, other) {
            (Error::NeedFilePath, Error::NeedFilePath) => true,
            (Error::MissingArg, Error::MissingArg) => true,
            (Error::UnknownCommand(a), Error::UnknownCommand(b)) => a@ == b@,
            (Error::BuildingSyntax, Error::BuildingSyntax) => true,
            (Error::UnknownSyntax, Error::UnknownSyntax) => true,
            _ => false,
        }
    }
}

} // verus!
