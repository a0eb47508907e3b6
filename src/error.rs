//! Errors of the library.
use vstd::prelude::*;

verus! {

#[verifier::external_type_specification]
#[verifier::external_body]
pub struct ExIoError(std::io::Error);

/// Why a run stopped before the end of its source.
#[derive(Debug)]
pub enum DumpError {
    /// The source could not deliver the next chunk.
    Read(std::io::Error),
    /// The sink refused a line.
    Write(std::io::Error),
    /// The running offset would leave the range of `u64`.
    Overflow,
}

/// A failure that carries nothing but a message.
#[derive(Debug)]
pub struct MyError(pub String);

impl MyError {
    /// An error with the given message.
    pub fn new(msg: String) -> (r: Self)
        ensures
            r.0@ == msg@,
    {
        MyError(msg)
    }
}

} // verus!
