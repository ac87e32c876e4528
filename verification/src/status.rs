//! The engine's status-code space and the error taxonomy built over it.
//!
//! Every component of the layer routes raw engine status codes through
//! [`Error::from_status`]; nothing else inspects raw codes. The in-progress
//! sentinel is not part of the taxonomy: it drives polling and is never
//! surfaced to a caller as an error.

use vstd::prelude::*;

verus! {

/// The engine reports success with this code.
pub const STATUS_OK: i32 = 0;
/// Sentinel for an operation that has not completed yet. Never an error.
pub const STATUS_IN_PROGRESS: i32 = 1;
/// Input/output failure inside the engine.
pub const STATUS_ERR_IO_ERROR: i32 = -3;
/// The engine could not allocate memory.
pub const STATUS_ERR_NO_MEMORY: i32 = -4;
/// A parameter block was rejected.
pub const STATUS_ERR_INVALID_PARAM: i32 = -5;
/// The remote address could not be reached.
pub const STATUS_ERR_UNREACHABLE: i32 = -6;
/// The address itself was malformed.
pub const STATUS_ERR_INVALID_ADDR: i32 = -7;
/// An arriving message was larger than the posted receive buffer.
pub const STATUS_ERR_MESSAGE_TRUNCATED: i32 = -9;
/// The resource is already in use, e.g. an address that is already bound.
pub const STATUS_ERR_BUSY: i32 = -15;
/// The operation was canceled before it completed.
pub const STATUS_ERR_CANCELED: i32 = -16;
/// The operation timed out inside the engine.
pub const STATUS_ERR_TIMED_OUT: i32 = -20;
/// The remote side rejected the connection.
pub const STATUS_ERR_REJECTED: i32 = -23;
/// The channel is not connected.
pub const STATUS_ERR_NOT_CONNECTED: i32 = -24;
/// The peer reset the connection.
pub const STATUS_ERR_CONNECTION_RESET: i32 = -25;

/// The closed set of failures an engine status code can map to.
///
/// `Other` carries any engine failure code that has no named variant, so
/// the mapping loses nothing.
#[derive(Clone, Copy, Debug, PartialEq, Eq, Structural)]
pub enum Error {
    IoError,
    NoMemory,
    InvalidParam,
    Unreachable,
    InvalidAddr,
    MessageTruncated,
    Busy,
    Canceled,
    TimedOut,
    Rejected,
    NotConnected,
    ConnectionReset,
    Other(i32),
}

/// Why an outbound connect failed: the engine rejected it, with the
/// mapped failure kind.
#[derive(Clone, Copy, Debug, PartialEq, Eq, Structural)]
pub enum ConnectError {
    Engine(Error),
}

/// Why binding a listener failed: the engine rejected it, with the
/// mapped failure kind.
#[derive(Clone, Copy, Debug, PartialEq, Eq, Structural)]
pub enum BindError {
    Engine(Error),
}

/// Why accepting an inbound connection failed: the connection request
/// was stale — already consumed, or orphaned when its listener was torn
/// down.
#[derive(Clone, Copy, Debug, PartialEq, Eq, Structural)]
pub enum AcceptError {
    Stale,
}

/// Why a send or receive failed, observable only by waiting on the
/// operation's request token.
#[derive(Clone, Copy, Debug, PartialEq, Eq, Structural)]
pub enum OpError {
    Engine(Error),
}

/// The failure kind a non-success, non-in-progress status code maps to.
pub open spec fn spec_error_of(code: i32) -> Error {
    if code == STATUS_ERR_IO_ERROR {
        Error::IoError
    } else if code == STATUS_ERR_NO_MEMORY {
        Error::NoMemory
    } else if code == STATUS_ERR_INVALID_PARAM {
        Error::InvalidParam
    } else if code == STATUS_ERR_UNREACHABLE {
        Error::Unreachable
    } else if code == STATUS_ERR_INVALID_ADDR {
        Error::InvalidAddr
    } else if code == STATUS_ERR_MESSAGE_TRUNCATED {
        Error::MessageTruncated
    } else if code == STATUS_ERR_BUSY {
        Error::Busy
    } else if code == STATUS_ERR_CANCELED {
        Error::Canceled
    } else if code == STATUS_ERR_TIMED_OUT {
        Error::TimedOut
    } else if code == STATUS_ERR_REJECTED {
        Error::Rejected
    } else if code == STATUS_ERR_NOT_CONNECTED {
        Error::NotConnected
    } else if code == STATUS_ERR_CONNECTION_RESET {
        Error::ConnectionReset
    } else {
        Error::Other(code)
    }
}

/// What translating a final status code yields: success for the success
/// code, otherwise the mapped failure kind.
pub open spec fn spec_from_status(code: i32) -> Result<(), Error> {
    if code == STATUS_OK {
        Ok(())
    } else {
        Err(spec_error_of(code))
    }
}

impl Error {
    /// The status code this failure kind stands for.
    pub open spec fn spec_code(self) -> i32 {
        match self {
            Error::IoError => STATUS_ERR_IO_ERROR,
            Error::NoMemory => STATUS_ERR_NO_MEMORY,
            Error::InvalidParam => STATUS_ERR_INVALID_PARAM,
            Error::Unreachable => STATUS_ERR_UNREACHABLE,
            Error::InvalidAddr => STATUS_ERR_INVALID_ADDR,
            Error::MessageTruncated => STATUS_ERR_MESSAGE_TRUNCATED,
            Error::Busy => STATUS_ERR_BUSY,
            Error::Canceled => STATUS_ERR_CANCELED,
            Error::TimedOut => STATUS_ERR_TIMED_OUT,
            Error::Rejected => STATUS_ERR_REJECTED,
            Error::NotConnected => STATUS_ERR_NOT_CONNECTED,
            Error::ConnectionReset => STATUS_ERR_CONNECTION_RESET,
            Error::Other(code) => code,
        }
    }

    /// The status code this failure kind stands for.
    pub fn code(&self) -> (r: i32)
        ensures
            r == self.spec_code(),
    {
        match *self {
            Error::IoError => STATUS_ERR_IO_ERROR,
            Error::NoMemory => STATUS_ERR_NO_MEMORY,
            Error::InvalidParam => STATUS_ERR_INVALID_PARAM,
            Error::Unreachable => STATUS_ERR_UNREACHABLE,
            Error::InvalidAddr => STATUS_ERR_INVALID_ADDR,
            Error::MessageTruncated => STATUS_ERR_MESSAGE_TRUNCATED,
            Error::Busy => STATUS_ERR_BUSY,
            Error::Canceled => STATUS_ERR_CANCELED,
            Error::TimedOut => STATUS_ERR_TIMED_OUT,
            Error::Rejected => STATUS_ERR_REJECTED,
            Error::NotConnected => STATUS_ERR_NOT_CONNECTED,
            Error::ConnectionReset => STATUS_ERR_CONNECTION_RESET,
            Error::Other(code) => code,
        }
    }

    /// The single point translating a final engine status code into an
    /// outcome. The in-progress sentinel is not a final status: callers
    /// poll it away before translating.
    pub fn from_status(code: i32) -> (r: Result<(), Error>)
        requires
            code != STATUS_IN_PROGRESS,
        ensures
            r == spec_from_status(code),
    {
        if code == STATUS_OK {
            Ok(())
        } else if code == STATUS_ERR_IO_ERROR {
            Err(Error::IoError)
        } else if code == STATUS_ERR_NO_MEMORY {
            Err(Error::NoMemory)
        } else if code == STATUS_ERR_INVALID_PARAM {
            Err(Error::InvalidParam)
        } else if code == STATUS_ERR_UNREACHABLE {
            Err(Error::Unreachable)
        } else if code == STATUS_ERR_INVALID_ADDR {
            Err(Error::InvalidAddr)
        } else if code == STATUS_ERR_MESSAGE_TRUNCATED {
            Err(Error::MessageTruncated)
        } else if code == STATUS_ERR_BUSY {
            Err(Error::Busy)
        } else if code == STATUS_ERR_CANCELED {
            Err(Error::Canceled)
        } else if code == STATUS_ERR_TIMED_OUT {
            Err(Error::TimedOut)
        } else if code == STATUS_ERR_REJECTED {
            Err(Error::Rejected)
        } else if code == STATUS_ERR_NOT_CONNECTED {
            Err(Error::NotConnected)
        } else if code == STATUS_ERR_CONNECTION_RESET {
            Err(Error::ConnectionReset)
        } else {
            Err(Error::Other(code))
        }
    }
}

} // verus!
