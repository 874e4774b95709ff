//! The error a client stream or a command listener reports.

use vstd::prelude::*;

verus! {

/// An I/O failure, carried as it came.
#[verifier::external_type_specification]
#[verifier::external_body]
pub struct ExIoError(std::io::Error);

/// Why serving a client failed.
#[derive(Debug)]
pub enum ParserError {
    /// Reading or writing a socket failed.
    Io(std::io::Error),
    /// A message did not have the expected format.
    Format(String),
}

} // verus!
