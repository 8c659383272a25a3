//! The kinds of failure that the file-transfer protocol tells apart.

use vstd::prelude::*;
use crate::parsers::Malformation;

verus! {

/// What went wrong on a channel.
#[derive(Copy, Clone, Debug, PartialEq, Eq)]
pub enum ErrorKind {
    /// Bytes that do not decode, or a message that announces a form and does not
    /// complete it.
    Malformed,
    /// A message that decodes and has none of the known forms.
    UnknownShape,
    /// A message that breaks the rules of a transfer: a chunk index out of range, a
    /// reserved channel id, a number of chunks that changes mid-transfer.
    ProtocolViolation,
    /// The assembled file does not hash to the announced hash.
    HashMismatch,
    /// Two different byte strings claim the same chunk of the same hash.
    HashCollision,
    /// The content store could not read or write.
    IoFault,
    /// No progress although every retry was spent.
    Timeout,
    /// The peer ended the channel with a failure report.
    PeerFailure,
    /// The channel was cancelled on this side.
    Canceled,
}

/// Why the content store turned a request down.
#[derive(Copy, Clone, Debug, PartialEq, Eq)]
pub enum StoreError {
    /// The chunk index is not below the number of chunks of the file.
    IndexOutOfRange,
    /// The number of chunks of a file would change although chunks of it are stored.
    CountChanged,
    /// The chunk is stored already, with other bytes.
    HashCollision,
    /// The digest of the assembled file is not the hash that names it.
    HashMismatch,
    /// The file is not known, or a chunk of it is not stored.
    MissingChunk,
    /// The file has more chunks than a 32-bit count holds.
    TooLarge,
}

impl StoreError {
    /// The kind of failure that this error is.
    pub open spec fn spec_kind(self) -> ErrorKind {
        match self {
            StoreError::IndexOutOfRange => ErrorKind::ProtocolViolation,
            StoreError::CountChanged => ErrorKind::ProtocolViolation,
            StoreError::HashCollision => ErrorKind::HashCollision,
            StoreError::HashMismatch => ErrorKind::HashMismatch,
            StoreError::MissingChunk => ErrorKind::IoFault,
            StoreError::TooLarge => ErrorKind::IoFault,
        }
    }

    /// The kind of failure that this error is.
    #[verifier::when_used_as_spec(spec_kind)]
    pub fn kind(self) -> (r: ErrorKind)
        ensures
            r == self.spec_kind(),
    {
        match self {
            StoreError::IndexOutOfRange => ErrorKind::ProtocolViolation,
            StoreError::CountChanged => ErrorKind::ProtocolViolation,
            StoreError::HashCollision => ErrorKind::HashCollision,
            StoreError::HashMismatch => ErrorKind::HashMismatch,
            StoreError::MissingChunk => ErrorKind::IoFault,
            StoreError::TooLarge => ErrorKind::IoFault,
        }
    }
}

/// Why this side ends a channel. The peer is told so in a failure report.
#[derive(Copy, Clone, Debug, PartialEq, Eq)]
pub enum Cause {
    /// A message on the channel announced a form and did not complete it.
    BadMessage(Malformation),
    /// A message broke the rules of the transfer.
    ProtocolViolation,
    /// The assembled file does not hash to the announced hash.
    HashMismatch,
    /// A chunk arrived that differs from the one stored under its index.
    HashCollision,
    /// The content store could not read or write.
    IoFault,
    /// Every retry was spent without progress.
    Timeout,
    /// The channel was cancelled on this side.
    Canceled,
}

impl Cause {
    /// The kind of failure that this cause is.
    pub open spec fn spec_kind(self) -> ErrorKind {
        match self {
            Cause::BadMessage(_) => ErrorKind::Malformed,
            Cause::ProtocolViolation => ErrorKind::ProtocolViolation,
            Cause::HashMismatch => ErrorKind::HashMismatch,
            Cause::HashCollision => ErrorKind::HashCollision,
            Cause::IoFault => ErrorKind::IoFault,
            Cause::Timeout => ErrorKind::Timeout,
            Cause::Canceled => ErrorKind::Canceled,
        }
    }

    /// The kind of failure that this cause is.
    #[verifier::when_used_as_spec(spec_kind)]
    pub fn kind(self) -> (r: ErrorKind)
        ensures
            r == self.spec_kind(),
    {
        match self {
            Cause::BadMessage(_) => ErrorKind::Malformed,
            Cause::ProtocolViolation => ErrorKind::ProtocolViolation,
            Cause::HashMismatch => ErrorKind::HashMismatch,
            Cause::HashCollision => ErrorKind::HashCollision,
            Cause::IoFault => ErrorKind::IoFault,
            Cause::Timeout => ErrorKind::Timeout,
            Cause::Canceled => ErrorKind::Canceled,
        }
    }

    /// The reason that the failure report gives.
    pub open spec fn text(self) -> Seq<char> {
        match self {
            Cause::BadMessage(Malformation::ChunkInvalidData) => "bad chunk"@,
            Cause::BadMessage(Malformation::NakInvalidIndex) => "bad nak"@,
            Cause::BadMessage(Malformation::NakUnpairedIndex) => "bad nak"@,
            Cause::BadMessage(_) => "bad message"@,
            Cause::ProtocolViolation => "protocol violation"@,
            Cause::HashMismatch => "hash mismatch"@,
            Cause::HashCollision => "hash collision"@,
            Cause::IoFault => "io fault"@,
            Cause::Timeout => "timeout"@,
            Cause::Canceled => "canceled"@,
        }
    }

    /// Writes out the reason that the failure report gives.
    pub fn reason(&self) -> (r: String)
        ensures
            r@ == self.text(),
    {
        match self {
            Cause::BadMessage(Malformation::ChunkInvalidData) => "bad chunk".to_owned(),
            Cause::BadMessage(Malformation::NakInvalidIndex) => "bad nak".to_owned(),
            Cause::BadMessage(Malformation::NakUnpairedIndex) => "bad nak".to_owned(),
            Cause::BadMessage(_) => "bad message".to_owned(),
            Cause::ProtocolViolation => "protocol violation".to_owned(),
            Cause::HashMismatch => "hash mismatch".to_owned(),
            Cause::HashCollision => "hash collision".to_owned(),
            Cause::IoFault => "io fault".to_owned(),
            Cause::Timeout => "timeout".to_owned(),
            Cause::Canceled => "canceled".to_owned(),
        }
    }
}

} // verus!
