//! What ends a connection.

use vstd::prelude::*;

verus! {

/// The I/O error of std, which is only carried.
#[verifier::external_type_specification]
#[verifier::external_body]
pub struct ExIoError(std::io::Error);

/// Why reading from a peer came to an end.
#[derive(Debug)]
pub enum Cause {
    /// A read returned zero bytes: the peer has closed its side.
    ReadZero,
    /// A read failed.
    Failed(std::io::Error),
}

/// What is wrong with an HTTP/2 frame.
#[derive(PartialEq, Eq, Structural, Debug, Clone, Copy)]
pub enum HttpError {
    InvalidFrame,
}

/// Why a connection is closed.
#[derive(Debug)]
pub enum Error {
    WrongPreface,
    WrongHeaders,
    Disconnected(Cause),
    WrongHttpFrame(HttpError),
}

impl Error {
    /// The text of the error.
    pub fn message(&self) -> (text: &'static str)
        ensures
            match self {
                Error::WrongPreface => text@ == "wrong preface string"@,
                Error::WrongHeaders => text@ == "wrong headers"@,
                Error::Disconnected(_) => text@ == "disconnected"@,
                Error::WrongHttpFrame(_) => text@ == "wrong http frame"@,
            },
    {
        match self {
            Error::WrongPreface => "wrong preface string",
            Error::WrongHeaders => "wrong headers",
            Error::Disconnected(_) => "disconnected",
            Error::WrongHttpFrame(_) => "wrong http frame",
        }
    }
}

/// What the server has no answer to. A worker that meets one of these gives up.
#[derive(PartialEq, Eq, Structural, Debug, Clone, Copy)]
pub enum Fault {
    /// A HEADERS frame is too short for its priority fields.
    ShortPriority,
    /// A header block does not decode.
    BadHeaderBlock,
    /// A DATA frame is too short for the prefix of a gRPC message.
    ShortData,
    /// A request does not decode.
    BadRequest,
    /// The ping counter would run over.
    PingOverflow,
    /// The flow-control window would run over.
    WindowOverflow,
}

/// Why a connection cannot go on.
#[derive(Debug)]
pub enum Stop {
    /// The connection is closed.
    Reject(Error),
    /// The worker gives up.
    Fault(Fault),
}

} // verus!
