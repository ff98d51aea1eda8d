//! Network communication standards.
//!
//! These are the two message vocabularies of the wire protocol: what a peer
//! tells the relay about its own hosting status, and what the relay tells
//! every peer about the aggregate. The process boundary frames and encodes
//! them; the logic here only builds, inspects and compares them.

use crate::address::HostAddress;
use vstd::prelude::*;

verus! {

/// Messages generated by clients for the server.
#[derive(Clone, Copy, PartialEq, Eq, Structural, Debug)]
pub enum ClientMessage {
    StartedHosting(u16),
    StoppedHosting,
    Joined,
}

/// Messages generated by the server for clients: the tri-state aggregate.
#[derive(Clone, Copy, PartialEq, Eq, Structural, Debug)]
pub enum ServerMessage {
    NoHost,
    OneHost(HostAddress),
    ManyHosts,
}

} // verus!
