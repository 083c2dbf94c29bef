//! What reading a stored JSON file gave: nothing there, an unreadable file, a file
//! that does not parse, or the value it holds.
use vstd::prelude::*;

verus! {

/// `std::io::Error`, carried through as it is.
#[verifier::external_type_specification]
#[verifier::external_body]
pub struct ExIoError(std::io::Error);

/// `serde_json::Error`, carried through as it is.
#[verifier::external_type_specification]
#[verifier::external_body]
pub struct ExJsonError(serde_json::Error);

/// The outcome of reading and parsing one stored file.
pub enum Stored<T> {
    /// There is no such file.
    Missing,
    /// The file could not be read.
    Unreadable(std::io::Error),
    /// The file was read but does not hold a valid value.
    Malformed(serde_json::Error),
    /// The file holds this value.
    Found(T),
}

} // verus!
