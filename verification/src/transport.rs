//! The handles that a live connection is held by: the transport's connection
//! and the token by which its task is cancelled.

use quinn::Connection;
use quinn::ConnectionError;
use quinn_proto::VarInt;
use quinn_proto::VarIntBoundsExceeded;
use tokio_util::sync::CancellationToken;
use tokio_util::sync::DropGuard;
use vstd::prelude::*;

verus! {

/// `quinn::Connection`: a live connection of the transport. Its inside is
/// not looked into.
#[verifier::external_type_specification]
#[verifier::external_body]
pub struct ExConnection(Connection);

/// `tokio_util::sync::CancellationToken`: the token by which the task of a
/// connection is told to end.
#[verifier::external_type_specification]
#[verifier::external_body]
pub struct ExCancellationToken(CancellationToken);

/// `tokio_util::sync::DropGuard`: cancels its token when it is dropped.
#[verifier::external_type_specification]
#[verifier::external_body]
pub struct ExDropGuard(DropGuard);

/// `quinn_proto::VarInt`: an integer that the transport can encode.
#[verifier::external_type_specification]
#[verifier::external_body]
pub struct ExVarInt(VarInt);

/// `quinn_proto::VarIntBoundsExceeded`: the error for an integer that the
/// transport cannot encode.
#[verifier::external_type_specification]
#[verifier::external_body]
pub struct ExVarIntBoundsExceeded(VarIntBoundsExceeded);

/// `quinn::ConnectionError`: why a connection was lost.
#[verifier::external_type_specification]
#[verifier::external_body]
pub struct ExConnectionError(ConnectionError);

/// The ways in which the setup of a connection fails, as the server counts
/// them.
#[derive(Clone, Copy, Debug, PartialEq, Eq, Structural)]
pub enum ConnectionErrorKind {
    TimedOut,
    ConnectionClosed,
    TransportError,
    ApplicationClosed,
    Reset,
    LocallyClosed,
    Other,
}

/// The kind of a `ConnectionError`: which of its variants it is. The
/// variants that the server does not count apart are one kind.
#[verifier::external_body]
pub(crate) fn connection_error_kind(error: &ConnectionError) -> ConnectionErrorKind {
    match error {
        ConnectionError::TimedOut => ConnectionErrorKind::TimedOut,
        ConnectionError::ConnectionClosed(_) => ConnectionErrorKind::ConnectionClosed,
        ConnectionError::TransportError(_) => ConnectionErrorKind::TransportError,
        ConnectionError::ApplicationClosed(_) => ConnectionErrorKind::ApplicationClosed,
        ConnectionError::Reset => ConnectionErrorKind::Reset,
        ConnectionError::LocallyClosed => ConnectionErrorKind::LocallyClosed,
        _ => ConnectionErrorKind::Other,
    }
}

/// The integer that a `VarInt` holds: what `VarInt::into_inner` returns.
pub uninterp spec fn varint_value(v: VarInt) -> u64;

/// One more than the largest integer that the transport can encode.
pub const VARINT_LIMIT: u64 = 0x4000_0000_0000_0000;

/// `VarInt::from_u64`: succeeds exactly for integers below 2^62, and the
/// result then holds the integer.
#[verifier::external_body]
pub(crate) fn varint_from_u64(x: u64) -> (r: Result<VarInt, VarIntBoundsExceeded>)
    ensures
        r is Ok <==> x < VARINT_LIMIT,
        r is Ok ==> varint_value(r->Ok_0) == x,
{
    VarInt::from_u64(x)
}

/// `Connection::stable_id`: an identifier that stays the same while the
/// connection lives. Nothing is claimed of its value.
#[verifier::external_body]
pub(crate) fn connection_stable_id(connection: &Connection) -> usize {
    connection.stable_id()
}

/// `Connection::close` with the given code and reason.
#[verifier::external_body]
pub(crate) fn close_connection(connection: &Connection, code: u32, reason: &str) {
    connection.close(VarInt::from_u32(code), reason.as_bytes())
}

/// `CancellationToken::new`.
#[verifier::external_body]
pub(crate) fn new_cancellation_token() -> CancellationToken {
    CancellationToken::new()
}

/// `CancellationToken::clone`: a second handle on the same token.
#[verifier::external_body]
pub(crate) fn clone_cancellation_token(token: &CancellationToken) -> CancellationToken {
    token.clone()
}

/// `CancellationToken::drop_guard`: a guard that cancels the token when it
/// is dropped.
#[verifier::external_body]
pub(crate) fn cancel_on_drop(token: CancellationToken) -> DropGuard {
    token.drop_guard()
}

} // verus!
