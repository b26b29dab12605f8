//! What can go wrong, and of which kind it is.

use vstd::prelude::*;

verus! {

/// The kinds of failure that the broker tells apart.
#[derive(Clone, Copy, PartialEq, Eq, Structural, Debug)]
pub enum ErrorKind {
    /// Bytes ended before all that were asked for had come.
    UnexpectedEof,
    /// Fewer bytes were taken than were handed over.
    WriteZero,
    /// Any other failure of the operating system.
    Other,
}

/// A failed I/O operation: the kind that matters to the broker, and the
/// operating system's own error, which is passed through untouched.
#[derive(Debug)]
pub struct IoFailure<E> {
    pub kind: ErrorKind,
    pub cause: E,
}

/// An error of the broker.
#[derive(Debug)]
pub enum Error<E> {
    /// The I/O operation itself failed.
    Io(IoFailure<E>),
    /// The log file took only a part of a frame.
    ShortAppend,
    /// The log file ends inside a length prefix.
    ShortPrefix,
    /// The log file ends inside a message.
    ShortPayload,
    /// The peer closed the connection in the middle of a transfer.
    PeerClosed,
    /// The socket takes no more bytes.
    SocketStalled,
}

impl<E> Error<E> {
    /// The kind of an error.
    pub open spec fn spec_kind(self) -> ErrorKind {
        match self {
            Error::Io(failure) => failure.kind,
            Error::ShortAppend => ErrorKind::WriteZero,
            Error::ShortPrefix => ErrorKind::UnexpectedEof,
            Error::ShortPayload => ErrorKind::UnexpectedEof,
            Error::PeerClosed => ErrorKind::UnexpectedEof,
            Error::SocketStalled => ErrorKind::WriteZero,
        }
    }

    /// The kind of an error.
    pub fn kind(&self) -> (kind: ErrorKind)
        ensures
            kind == self.spec_kind(),
    {
        match self {
            Error::Io(failure) => failure.kind,
            Error::ShortAppend => ErrorKind::WriteZero,
            Error::ShortPrefix => ErrorKind::UnexpectedEof,
            Error::ShortPayload => ErrorKind::UnexpectedEof,
            Error::PeerClosed => ErrorKind::UnexpectedEof,
            Error::SocketStalled => ErrorKind::WriteZero,
        }
    }

    /// The text of an error that the broker raised itself; `None` for a failed I/O
    /// operation, which has a text of its own.
    pub fn message(&self) -> (text: Option<&'static str>)
        ensures
            match *self {
                Error::Io(_) => text is None,
                Error::ShortAppend => text is Some && text->0@
                    == "failed to write the entire frame to the WAL"@,
                Error::ShortPrefix => text is Some && text->0@
                    == "corrupted WAL: incomplete length prefix"@,
                Error::ShortPayload => text is Some && text->0@
                    == "corrupted WAL: incomplete payload read"@,
                Error::PeerClosed => text is Some && text->0@
                    == "connection closed by peer before full read"@,
                Error::SocketStalled => text is Some && text->0@
                    == "failed to write bytes to socket connection"@,
            },
    {
        match self {
            Error::Io(_) => None,
            Error::ShortAppend => Some("failed to write the entire frame to the WAL"),
            Error::ShortPrefix => Some("corrupted WAL: incomplete length prefix"),
            Error::ShortPayload => Some("corrupted WAL: incomplete payload read"),
            Error::PeerClosed => Some("connection closed by peer before full read"),
            Error::SocketStalled => Some("failed to write bytes to socket connection"),
        }
    }
}

/// Bytes that end too early are one kind of error, bytes that are not taken another, and a
/// failed operation is of the kind that the operating system gave it.
pub proof fn error_kinds<E>(failure: IoFailure<E>)
    ensures
        Error::<E>::Io(failure).spec_kind() == failure.kind,
        Error::<E>::ShortPrefix.spec_kind() == ErrorKind::UnexpectedEof,
        Error::<E>::ShortPayload.spec_kind() == ErrorKind::UnexpectedEof,
        Error::<E>::PeerClosed.spec_kind() == ErrorKind::UnexpectedEof,
        Error::<E>::ShortAppend.spec_kind() == ErrorKind::WriteZero,
        Error::<E>::SocketStalled.spec_kind() == ErrorKind::WriteZero,
{
}

} // verus!
