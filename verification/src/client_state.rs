//! The peer's own view of whether it is hosting.

use vstd::prelude::*;

verus! {

/// What the peer currently does: running normally, or hosting its own
/// session on a port.
#[derive(Clone, Copy, PartialEq, Eq, Structural, Debug)]
pub enum ClientStates {
    NotHosting,
    Hosting(u16),
}

/// Holder for the peer's current state.
pub struct ClientState {
    state: ClientStates,
}

impl ClientState {
    pub closed spec fn spec_state(&self) -> ClientStates {
        self.state
    }

    /// A fresh peer is not hosting.
    pub fn new() -> (r: ClientState)
        ensures
            r.spec_state() == ClientStates::NotHosting,
    {
        ClientState { state: ClientStates::NotHosting }
    }

    pub fn set(&mut self, new: ClientStates)
        ensures
            final(self).spec_state() == new,
    {
        self.state = new;
    }

    pub fn get(self) -> (r: ClientStates)
        ensures
            r == self.spec_state(),
    {
        self.state
    }
}

} // verus!
