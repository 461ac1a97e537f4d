//! Errors of the transport, of the codec, and of sockets.

use vstd::prelude::*;

verus! {

/// The kinds of transport errors. Sockets tell a broken pipe from the others.
#[derive(Debug, Clone, Copy, PartialEq, Eq, Structural)]
pub enum ErrorKind {
    NotFound,
    PermissionDenied,
    ConnectionRefused,
    ConnectionReset,
    ConnectionAborted,
    NotConnected,
    AddrInUse,
    AddrNotAvailable,
    BrokenPipe,
    AlreadyExists,
    WouldBlock,
    InvalidInput,
    InvalidData,
    TimedOut,
    WriteZero,
    Interrupted,
    Unsupported,
    UnexpectedEof,
    OutOfMemory,
    Other,
}

/// A failed operation of the transport.
#[derive(Debug)]
pub struct IoError {
    pub kind: ErrorKind,
    /// The number of the error, where the operating system gave one.
    pub os_error: Option<i32>,
    pub message: String,
}

/// Why a message could not be read or written.
#[derive(Debug)]
pub enum CodecError {
    /// The transport failed.
    Io(IoError),
    /// The bytes or the message violate the protocol.
    Protocol(String),
}

/// Why an operation of a socket failed.
#[derive(Debug)]
pub enum ZmqError {
    Codec(CodecError),
    Socket(&'static str),
    Other(&'static str),
}

} // verus!
