//! The failures that the library reports.

use vstd::prelude::*;
use vstd::string::*;

verus! {

/// Why an operation of this library failed.
#[derive(Clone, Copy, Debug, PartialEq, Eq, Structural)]
pub enum Error {
    /// The bytes accumulated for a chunk are not valid UTF-8.
    Utf8Decode,
    /// A read, write or shutdown on the transport or the console failed.
    TransportIo,
    /// The session to the remote host could not be established.
    SessionEstablish,
    /// No executable name can be derived from the remote command text.
    InvalidExecutableName,
    /// No process id could be found for the process.
    ProcessNotFound,
    /// The process search answered with something that is not a process id.
    MalformedPid,
}

impl Error {
    /// The failure in words.
    pub open spec fn description(self) -> Seq<char> {
        match self {
            Error::Utf8Decode => "chunk is not valid UTF-8"@,
            Error::TransportIo => "transport failed"@,
            Error::SessionEstablish => "session could not be established"@,
            Error::InvalidExecutableName => "invalid executable name"@,
            Error::ProcessNotFound => "process not found"@,
            Error::MalformedPid => "process id is not a number"@,
        }
    }

    /// The failure in words.
    pub fn describe(&self) -> (r: String)
        ensures
            r@ == self.description(),
    {
        match self {
            Error::Utf8Decode => String::from_str("chunk is not valid UTF-8"),
            Error::TransportIo => String::from_str("transport failed"),
            Error::SessionEstablish => String::from_str("session could not be established"),
            Error::InvalidExecutableName => String::from_str("invalid executable name"),
            Error::ProcessNotFound => String::from_str("process not found"),
            Error::MalformedPid => String::from_str("process id is not a number"),
        }
    }
}

} // verus!
