//! The failures a recording can report.

use vstd::prelude::*;

verus! {

/// Why an operation on a recording failed.
#[derive(Clone, Copy, Debug, PartialEq, Eq, Structural)]
pub enum Error {
    /// The archive could not be written or closed.
    Io,
    /// An elapsed time or a payload length does not fit in 32 bits.
    SizeOverflow,
    /// The session metadata could not be put into JSON.
    Serialization,
}

impl Error {
    /// A short description, for logs.
    pub fn message(&self) -> (text: &'static str)
        ensures
            text@ == self.spec_message(),
    {
        match self {
            Error::Io => "the replay archive could not be written",
            Error::SizeOverflow => "elapsed time or payload length exceeds 32 bits",
            Error::Serialization => "the session metadata could not be serialized",
        }
    }

    /// The text that [`Error::message`] returns.
    pub open spec fn spec_message(&self) -> Seq<char> {
        match self {
            Error::Io => "the replay archive could not be written"@,
            Error::SizeOverflow => "elapsed time or payload length exceeds 32 bits"@,
            Error::Serialization => "the session metadata could not be serialized"@,
        }
    }
}

} // verus!
