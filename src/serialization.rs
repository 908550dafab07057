//! Errors of reading and writing field elements as bytes.

use vstd::prelude::*;

verus! {

/// Why a value could not be written or read.
#[derive(Clone, Copy, Debug, PartialEq, Eq)]
pub enum Error {
    /// The write buffer has no room left.
    WriteBufferFull,
    /// The read buffer ends before the value does.
    NotEnoughBytes,
}

impl Error {
    /// The message of the error.
    pub fn message(&self) -> (r: &'static str)
        ensures
            *self is WriteBufferFull ==> r@ == "Write buffer is full"@,
            *self is NotEnoughBytes ==> r@ == "Not enough data in read buffer to deserialize"@,
    {
        match self {
            Error::WriteBufferFull => "Write buffer is full",
            Error::NotEnoughBytes => "Not enough data in read buffer to deserialize",
        }
    }
}

} // verus!
