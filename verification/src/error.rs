//! Errors of the analyzer.
use vstd::prelude::*;
use crate::analysis::{decimal, push_decimal};
use crate::text::push_str;

verus! {

/// Why an analysis could not be carried out.
#[derive(Debug)]
pub enum Error {
    /// An error from elsewhere, with its message.
    Wrapped(String),
    /// A display format name that is neither `text` nor `json`.
    InvalidDisplayFormat(String),
    /// A sorting name that is neither `line` nor `severity`.
    InvalidSorting(String),
    /// A file that could not be parsed.
    ParseFailed(String),
    /// A file whose lines were never loaded.
    FileNotFound(String),
    /// An offset that lies on no line of the file.
    LineNotFound(String, usize),
}

/// The message shown for an error.
pub open spec fn error_message(e: Error) -> Seq<char> {
    match e {
        Error::Wrapped(m) => m@,
        Error::InvalidDisplayFormat(f) => "Invalid display format: "@ + f@,
        Error::InvalidSorting(s) => "Invalid sorting: "@ + s@,
        Error::ParseFailed(p) => "Failed to parse file: \""@ + p@ + "\""@,
        Error::FileNotFound(p) => "File not found: \""@ + p@ + "\""@,
        Error::LineNotFound(p, o) => "Offset "@ + decimal(o as nat) + " not found in file: \""@ + p@ + "\""@,
    }
}

impl Error {
    /// The message shown for the error: the wrapped message itself, or the kind of error
    /// with the value it concerns, a path between double quotes.
    pub fn message(&self) -> (r: String)
        ensures
            r@ == error_message(*self),
    {
        let mut out = String::new();
        match self {
            Error::Wrapped(m) => {
                push_str(&mut out, m.as_str());
            },
            Error::InvalidDisplayFormat(f) => {
                push_str(&mut out, "Invalid display format: ");
                push_str(&mut out, f.as_str());
            },
            Error::InvalidSorting(s) => {
                push_str(&mut out, "Invalid sorting: ");
                push_str(&mut out, s.as_str());
            },
            Error::ParseFailed(p) => {
                push_str(&mut out, "Failed to parse file: \"");
                push_str(&mut out, p.as_str());
                push_str(&mut out, "\"");
            },
            Error::FileNotFound(p) => {
                push_str(&mut out, "File not found: \"");
                push_str(&mut out, p.as_str());
                push_str(&mut out, "\"");
            },
            Error::LineNotFound(p, o) => {
                push_str(&mut out, "Offset ");
                push_decimal(&mut out, *o);
                push_str(&mut out, " not found in file: \"");
                push_str(&mut out, p.as_str());
                push_str(&mut out, "\"");
            },
        }
        proof {
            assert(out@ =~= error_message(*self));
        }
        out
    }
}

} // verus!
