//! The failures that the core reports.

use vstd::prelude::*;

verus! {

/// What can go wrong in the core, by kind.
#[derive(Clone, Copy, Debug, PartialEq, Eq, Structural)]
pub enum Error {
    /// A key or an initialisation vector is not 16 bytes long.
    InvalidKeyOrIvLength,
    /// The padding of a decrypted message is malformed.
    Unpad,
    /// An authentication tag does not match.
    MacMismatch,
    /// An exchange envelope is malformed or lacks a field.
    BadExchange,
    /// The user dismissed the prompt.
    Cancelled,
    /// A reply came out of order or is not part of the reply alphabet.
    ProtocolViolation,
    /// A cryptographic primitive failed.
    Crypto,
    /// The bus transport failed.
    Bus,
}

/// The exit code of a run without failure.
pub const EXIT_SUCCESS: u8 = 0;

/// The exit code that belongs to a failure, where one is assigned: 2 for a
/// bad exchange, 3 for an incorrect secret, which malformed padding and a
/// tag mismatch stand for, 4 for a crypto failure and 5 for a bus failure.
pub open spec fn spec_exit_code(kind: Error) -> Option<u8> {
    match kind {
        Error::BadExchange => Some(2u8),
        Error::Unpad => Some(3u8),
        Error::MacMismatch => Some(3u8),
        Error::Crypto => Some(4u8),
        Error::Bus => Some(5u8),
        Error::InvalidKeyOrIvLength => None,
        Error::Cancelled => None,
        Error::ProtocolViolation => None,
    }
}

/// The short description of each failure.
pub open spec fn spec_message(kind: Error) -> Seq<char> {
    match kind {
        Error::InvalidKeyOrIvLength => "invalid key or iv length"@,
        Error::Unpad => "malformed padding"@,
        Error::MacMismatch => "authentication tag mismatch"@,
        Error::BadExchange => "malformed secret exchange"@,
        Error::Cancelled => "cancelled"@,
        Error::ProtocolViolation => "protocol violation"@,
        Error::Crypto => "cryptographic failure"@,
        Error::Bus => "bus failure"@,
    }
}

impl Error {
    /// Whether the failure means that the secret was not the right one.
    pub fn is_incorrect_secret(&self) -> (incorrect: bool)
        ensures
            incorrect == (*self == Error::Unpad || *self == Error::MacMismatch),
    {
        match self {
            Error::Unpad => true,
            Error::MacMismatch => true,
            _ => false,
        }
    }

    /// The exit code that a program ends with on this failure, where one is
    /// assigned to it.
    pub fn exit_code(&self) -> (code: Option<u8>)
        ensures
            code == spec_exit_code(*self),
    {
        match self {
            Error::BadExchange => Some(2),
            Error::Unpad => Some(3),
            Error::MacMismatch => Some(3),
            Error::Crypto => Some(4),
            Error::Bus => Some(5),
            Error::InvalidKeyOrIvLength => None,
            Error::Cancelled => None,
            Error::ProtocolViolation => None,
        }
    }

    /// A short description of the failure.
    pub fn message(&self) -> (text: &'static str)
        ensures
            text@ == spec_message(*self),
    {
        match self {
            Error::InvalidKeyOrIvLength => "invalid key or iv length",
            Error::Unpad => "malformed padding",
            Error::MacMismatch => "authentication tag mismatch",
            Error::BadExchange => "malformed secret exchange",
            Error::Cancelled => "cancelled",
            Error::ProtocolViolation => "protocol violation",
            Error::Crypto => "cryptographic failure",
            Error::Bus => "bus failure",
        }
    }
}

} // verus!
