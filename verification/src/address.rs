//! Network addresses as the aggregation logic sees them.
//!
//! The relay only ever stores, compares and forwards addresses, so they are
//! modelled as plain values: an IP (the four bytes of a v4 address or the
//! sixteen of a v6 address, packed into an integer) together with a port.
//! The process boundary converts between these and the operating system's
//! socket addresses.

use vstd::prelude::*;

verus! {

/// An IP address, v4 or v6, as a packed big-endian integer.
#[derive(Clone, Copy, PartialEq, Eq, Structural, Debug)]
pub enum Ip {
    V4(u32),
    V6(u128),
}

/// Where a hosting peer can be reached: its IP plus the port it serves on.
#[derive(Clone, Copy, PartialEq, Eq, Structural, Debug)]
pub struct HostAddress {
    pub ip: Ip,
    pub port: u16,
}

} // verus!
