//! Error types: the one failure the renderer can report.

use vstd::prelude::*;

verus! {

#[verifier::external_type_specification]
#[verifier::external_body]
pub struct ExIoError(std::io::Error);

/// The concrete type of an error.
#[derive(Debug)]
pub enum ErrorKind {
    /// Cannot write pixel color values into a writer.
    WriteColor(String),
    /// An underlying I/O error.
    Io(std::io::Error),
}

} // verus!
