//! Connection-level errors.

use vstd::prelude::*;

use crate::protocol::error::{ProtoErrModel, ProtocolError};

verus! {

/// Mathematical model of an [`Error`].
pub enum ErrorModel {
    /// A socket read or write failed; carries a diagnostic text.
    Io(Seq<char>),
    /// The byte stream violated the protocol.
    Protocol(ProtoErrModel),
    /// The device closed the connection.
    ConnectionClosed,
    /// The login handshake was not confirmed.
    LoginFailed,
}

/// An error that ends the connection. Every variant is broadcast once to
/// each outstanding command before the session terminates.
#[derive(Debug, Clone, PartialEq)]
pub enum Error {
    /// A socket read or write failed; carries a diagnostic text.
    Io(String),
    /// The byte stream violated the protocol.
    Protocol(ProtocolError),
    /// The device closed the connection.
    ConnectionClosed,
    /// The login handshake was not confirmed.
    LoginFailed,
}

impl View for Error {
    type V = ErrorModel;

    open spec fn view(&self) -> ErrorModel {
        match self {
            Error::Io(s) => ErrorModel::Io(s@),
            Error::Protocol(p) => ErrorModel::Protocol(p@),
            Error::ConnectionClosed => ErrorModel::ConnectionClosed,
            Error::LoginFailed => ErrorModel::LoginFailed,
        }
    }
}

} // verus!
