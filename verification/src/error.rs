//! The ways in which the protocol can decline to do something.

use vstd::prelude::*;

verus! {

/// Why a message was dropped or a request not carried out. None of these is
/// fatal: the server goes on to the next datagram, and a client treats a
/// failed send as an input that was lost.
#[derive(Clone, Copy, Debug, PartialEq, Eq, Structural)]
pub enum GameError {
    /// The bytes are no command: there is no `:`, or what stands before the
    /// first one is no sequence number. Nothing is acknowledged.
    MalformedMessage,
    /// The bytes are no snapshot: they have fewer than four segments.
    MalformedSnapshot,
    /// The sequence number is not above the last one accepted from the same
    /// sender. Nothing is acknowledged and nothing changes.
    DuplicateOrStale,
    /// A command other than the handshake came from an endpoint that has no
    /// session. Nothing is acknowledged and nothing changes.
    UnknownSender,
    /// Every place in the game is taken. Nothing is acknowledged and no
    /// player is created.
    CapacityExceeded,
    /// A send was given up after the last attempt went unanswered.
    SendTimeout,
}

} // verus!
