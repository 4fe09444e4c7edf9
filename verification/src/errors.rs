//! Error taxonomy of the store.
//!
//! Storage-level faults (`Io`, `CorruptLog`, `KeyNotFound`) are returned to
//! the connection handler, which turns them into an error reply; frame-level
//! faults (`Protocol(..)`, `Encoding`) abort only the current exchange.

use vstd::prelude::*;

verus! {

/// The ways in which one frame can be rejected while it is read.
#[derive(Clone, Copy, Debug, PartialEq, Eq, Structural)]
pub enum ProtocolFault {
    /// The stream ended before the declared number of bytes arrived.
    Truncated,
    /// The declared payload length exceeds the frame size limit.
    Oversized,
    /// The message-type value is not one of the known kinds.
    UnknownType,
    /// The payload failed to parse as the declared kind of message.
    Malformed,
}

/// Every failure that the store or the wire codec can report.
#[derive(Clone, Copy, Debug, PartialEq, Eq, Structural)]
pub enum KvsError {
    /// A file or socket operation failed in the surrounding process.
    Io,
    /// A log record failed to parse while the log was replayed.
    CorruptLog,
    /// A removal named a key that holds no value.
    KeyNotFound,
    /// An inbound frame was rejected; the variant says why.
    Protocol(ProtocolFault),
    /// An outbound payload exceeds the frame size limit.
    Encoding,
    /// The engine's exclusive-access boundary is permanently broken.
    EngineUnavailable,
    /// The asked-for facility is a stub that is not implemented.
    Unsupported,
}

/// The text that describes each failure, as error replies carry it.
pub open spec fn spec_text(e: KvsError) -> Seq<char> {
    match e {
        KvsError::Io => "i/o failure"@,
        KvsError::CorruptLog => "corrupt log record"@,
        KvsError::KeyNotFound => "Key not found"@,
        KvsError::Protocol(_) => "invalid frame"@,
        KvsError::Encoding => "message too large"@,
        KvsError::EngineUnavailable => "engine unavailable"@,
        KvsError::Unsupported => "not implemented"@,
    }
}

impl KvsError {
    /// A short description, used as the text of error replies.
    pub fn text(&self) -> (s: String)
        ensures
            s@ == spec_text(*self),
    {
        match self {
            KvsError::Io => "i/o failure".to_owned(),
            KvsError::CorruptLog => "corrupt log record".to_owned(),
            KvsError::KeyNotFound => "Key not found".to_owned(),
            KvsError::Protocol(_) => "invalid frame".to_owned(),
            KvsError::Encoding => "message too large".to_owned(),
            KvsError::EngineUnavailable => "engine unavailable".to_owned(),
            KvsError::Unsupported => "not implemented".to_owned(),
        }
    }
}

} // verus!
