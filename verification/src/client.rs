//! The peer session's translation rules.
//!
//! A running peer session multiplexes two directions: aggregate updates
//! arriving from the relay, and locally observed hosting transitions going
//! out to it. Both directions are pure translations; the session loop around
//! them (socket, channels, gates) lives with the process.

use crate::address::HostAddress;
use crate::log_reader::ClientChange;
use crate::messages::{ClientMessage, ServerMessage};
use vstd::prelude::*;

verus! {

/// A command for the external status sink, which presents the aggregate to
/// the local player: clear the entry, point it at the one open game, or
/// mark that several are open.
#[derive(Clone, Copy, PartialEq, Eq, Structural, Debug)]
pub enum NbtInstruction {
    SetToNoHost,
    SetToOneHost(HostAddress),
    SetToManyHosts,
}

/// What one inbound aggregate message means for the peer: the count of open
/// games it displays (zero, one, or two for "many") and the command for the
/// status sink.
pub open spec fn spec_from_server(message: ServerMessage) -> (usize, NbtInstruction) {
    match message {
        ServerMessage::NoHost => (0usize, NbtInstruction::SetToNoHost),
        ServerMessage::OneHost(addr) => (1usize, NbtInstruction::SetToOneHost(addr)),
        ServerMessage::ManyHosts => (2usize, NbtInstruction::SetToManyHosts),
    }
}

/// Translates an aggregate update from the relay into its local effects.
pub fn from_server(message: ServerMessage) -> (r: (usize, NbtInstruction))
    ensures
        r == spec_from_server(message),
{
    match message {
        ServerMessage::NoHost => (0, NbtInstruction::SetToNoHost),
        ServerMessage::OneHost(addr) => (1, NbtInstruction::SetToOneHost(addr)),
        ServerMessage::ManyHosts => (2, NbtInstruction::SetToManyHosts),
    }
}

/// Translates a locally observed hosting transition into the message the
/// session sends to the relay.
pub fn to_server(change: ClientChange) -> (r: ClientMessage)
    ensures
        r == match change {
            ClientChange::StartedHosting(port) => ClientMessage::StartedHosting(port),
            ClientChange::StoppedHosting => ClientMessage::StoppedHosting,
        },
{
    change.into_message()
}

} // verus!
