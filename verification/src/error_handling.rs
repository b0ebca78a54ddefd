//! Pre-read error classification and client disconnect handling.
//!
//! Tells errors of a client that went away while its request body was read
//! (408, 499) from faults of the proxy (500).

use vstd::prelude::*;

verus! {

/// The kinds of error that are told apart.
#[derive(Clone, Copy, Debug, PartialEq, Eq, Structural)]
pub enum ErrorType {
    /// The connection to the upstream was refused.
    ConnectRefused,
    /// The connection was closed.
    ConnectionClosed,
    /// An HTTP/2 error.
    H2Error,
    /// The proxy failed.
    InternalError,
    /// Reading failed.
    ReadError,
    /// Reading took too long.
    ReadTimedout,
    /// Writing failed.
    WriteError,
    /// Any other error.
    Other,
}

/// A response by which a request is turned down.
#[derive(Clone, Copy, Debug, PartialEq, Eq, Structural)]
pub struct Rejection {
    /// The status of the response.
    pub status: u16,
}

impl Rejection {
    /// The rejection with `status`.
    pub fn status(status: u16) -> (res: Rejection)
        ensures
            res.status == status,
    {
        Rejection { status }
    }
}

/// The status that a client is told which went away while its request body
/// was read: 408 where it stalled, 499 where it reset or closed the connection.
pub open spec fn disconnect_status(etype: ErrorType) -> Option<u16> {
    match etype {
        ErrorType::ReadTimedout => Some(408),
        ErrorType::ReadError | ErrorType::ConnectionClosed => Some(499),
        _ => None,
    }
}

/// The client-facing status of an error on reading the request body, or `None`
/// where the error is not the client's and is to surface as 500.
pub fn client_disconnect_status(etype: &ErrorType) -> (res: Option<u16>)
    ensures
        res == disconnect_status(*etype),
{
    match etype {
        ErrorType::ReadTimedout => Some(408),
        ErrorType::ReadError => Some(499),
        ErrorType::ConnectionClosed => Some(499),
        _ => None,
    }
}

/// What is to be done about an error on reading the request body.
#[derive(Clone, Copy, Debug, PartialEq, Eq, Structural)]
pub enum PreReadError {
    /// Hand the error on.
    Propagate,
    /// Count the error as the downstream's and answer with the rejection; the
    /// request is then done.
    ClientGone(Rejection),
}

/// Decides what is to be done about an error on reading the request body.
///
/// Reading the body takes bytes from the client, so a reset, a premature close
/// or a stalled upload is the client's doing and stays out of the rate of
/// server errors.
pub fn handle_pre_read_io_error(etype: &ErrorType) -> (res: PreReadError)
    ensures
        res == match disconnect_status(*etype) {
            Some(status) => PreReadError::ClientGone(Rejection { status }),
            None => PreReadError::Propagate,
        },
        res matches PreReadError::ClientGone(rejection) ==> 400 <= rejection.status < 500,
{
    match client_disconnect_status(etype) {
        Some(status) => PreReadError::ClientGone(Rejection::status(status)),
        None => PreReadError::Propagate,
    }
}

// -----------------------------------------------------------------------------
// Laws
// -----------------------------------------------------------------------------

/// A client that stalled is told 408, and one that reset or closed the
/// connection 499; no other error is put down to the client.
pub proof fn only_clients_that_went_away_are_told(etype: ErrorType)
    ensures
        disconnect_status(etype) == Some(408u16) <==> etype == ErrorType::ReadTimedout,
        disconnect_status(etype) == Some(499u16) <==> etype == ErrorType::ReadError || etype
            == ErrorType::ConnectionClosed,
        disconnect_status(etype) is None <==> etype == ErrorType::ConnectRefused || etype
            == ErrorType::H2Error || etype == ErrorType::InternalError || etype
            == ErrorType::WriteError || etype == ErrorType::Other,
{
}

} // verus!
