//! The errors that end a session.

use vstd::prelude::*;
use crate::text::push_text;

verus! {

/// Declares `std::io::Error`, the error of a failed read or write.
#[verifier::external_type_specification]
#[verifier::external_body]
pub struct ExIoError(std::io::Error);

/// Why a session could not go on.
#[derive(Debug)]
pub enum MouldError {
    /// Reading or writing failed.
    Io(std::io::Error),
    /// The named file does not exist.
    FileNotFound(String),
    /// The terminal could not be set up.
    Terminal(String),
}

/// Calls `std::io::Error`'s `Display`; the text comes from the operating
/// system and is not stated here.
#[verifier::external_body]
fn io_error_text(e: &std::io::Error) -> (r: String) {
    format!("{}", e)
}

impl MouldError {
    /// The message of an error, as it is shown to the user.
    pub fn message(&self) -> (r: String)
        ensures
            match self {
                MouldError::FileNotFound(p) => r@ == "File not found: "@ + p@,
                MouldError::Terminal(m) => r@ == "Terminal error: "@ + m@,
                MouldError::Io(_) => exists|t: Seq<char>| r@ == "IO error: "@ + t,
            },
    {
        match self {
            MouldError::Io(e) => {
                let mut s = String::from_str("IO error: ");
                let t = io_error_text(e);
                push_text(&mut s, t.as_str());
                s
            },
            MouldError::FileNotFound(p) => {
                let mut s = String::from_str("File not found: ");
                push_text(&mut s, p.as_str());
                s
            },
            MouldError::Terminal(m) => {
                let mut s = String::from_str("Terminal error: ");
                push_text(&mut s, m.as_str());
                s
            },
        }
    }
}

} // verus!
