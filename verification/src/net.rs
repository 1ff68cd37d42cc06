//! Errors of the peer-to-peer transport.
use vstd::prelude::*;
use vstd::string::StringExecFns;

verus! {

#[verifier::external_type_specification]
#[verifier::external_body]
pub struct ExIoError(std::io::Error);

/// A failed exchange with a peer: an I/O error or no answer in time.
pub enum NetError {
    IoError(std::io::Error),
    Timeout,
}

impl NetError {
    /// A description of the error: the I/O error's own text, or "Timed out".
    pub fn to_string(self) -> (s: String)
        ensures
            self is Timeout ==> s@ == "Timed out"@,
            self matches NetError::IoError(e) ==> vstd::string::to_string_from_display_ensures(&e, s),
    {
        match self {
            NetError::IoError(error) => error.to_string(),
            NetError::Timeout => {
                String::from_str("Timed out")
            },
        }
    }

    /// Wraps an I/O error.
    pub fn from_io(error: std::io::Error) -> (e: NetError)
        ensures
            e == NetError::IoError(error),
    {
        NetError::IoError(error)
    }
}

} // verus!
