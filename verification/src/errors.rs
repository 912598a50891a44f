//! The error type of a parse operation.
use vstd::prelude::*;

verus! {

/// Declares std::io::Error so that the `Io` variant can carry the
/// underlying read failure; nothing verified looks inside it.
#[verifier::external_type_specification]
#[verifier::external_body]
pub struct ExIoError(std::io::Error);

/// The two failure kinds of a parse operation: a line that does not
/// parse, carrying the offending text and a character offset into it,
/// or an I/O failure of the underlying line source.
#[derive(Debug)]
#[non_exhaustive]
pub enum Error {
    LineParse(String, usize),
    Io(std::io::Error),
}

} // verus!
