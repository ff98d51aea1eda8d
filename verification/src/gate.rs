//! The cooperative two-state gate that every task of a session races on.
//!
//! A gate is either open or closed. `wait` returns at once on an open gate;
//! on a closed gate the caller suspends and is released by the next `open`,
//! which releases every waiter at once. `close` merely flips the flag and
//! wakes nobody. One gate instance is used as a stop signal (closed once,
//! never reopened — by caller discipline, not by the type) and another as a
//! pause signal (toggled freely).
//!
//! This type is the state of the primitive: the flag plus how many callers
//! are currently suspended. The surrounding process owns the actual blocking
//! (a lock and a condition variable around this state); `wait` here records
//! the suspension decision, and its contract is exactly the release rule.

use vstd::prelude::*;

verus! {

/// A Gate's state: its flag, and the callers suspended on it.
pub struct Gate {
    flag: bool,
    waiters: u64,
}

impl Gate {
    /// Whether this Gate is currently open.
    pub closed spec fn spec_is_open(&self) -> bool {
        self.flag
    }

    /// How many callers are suspended, waiting for an `open`.
    pub closed spec fn spec_waiters(&self) -> u64 {
        self.waiters
    }

    /// A fresh gate starts closed, with nobody waiting.
    pub fn new() -> (g: Gate)
        ensures
            !g.spec_is_open(),
            g.spec_waiters() == 0,
    {
        Gate { flag: false, waiters: 0 }
    }

    /// Opens this Gate and releases every waiter at once; returns how many
    /// were released.
    pub fn open(&mut self) -> (released: u64)
        ensures
            final(self).spec_is_open(),
            final(self).spec_waiters() == 0,
            released == old(self).spec_waiters(),
    {
        let released = self.waiters;
        self.flag = true;
        self.waiters = 0;
        released
    }

    /// Closes this Gate. Nobody is woken and nobody is released: callers
    /// already suspended stay suspended.
    pub fn close(&mut self)
        ensures
            !final(self).spec_is_open(),
            final(self).spec_waiters() == old(self).spec_waiters(),
    {
        self.flag = false;
    }

    /// How many callers are currently suspended.
    pub fn waiting(&self) -> (r: u64)
        ensures
            r == self.spec_waiters(),
    {
        self.waiters
    }

    /// Non-blocking read of the flag.
    pub fn is_open(&self) -> (r: bool)
        ensures
            r == self.spec_is_open(),
    {
        self.flag
    }

    /// One caller arrives at this Gate. When it stands open the caller passes straight
    /// through: nothing changes and it does not block. On a closed gate it
    /// suspends, joining the waiters until a later `open` releases them all.
    /// Returns whether the caller blocked.
    pub fn wait(&mut self) -> (blocked: bool)
        requires
            old(self).spec_waiters() < u64::MAX,
        ensures
            blocked == !old(self).spec_is_open(),
            old(self).spec_is_open() ==> *final(self) == *old(self),
            !old(self).spec_is_open() ==> final(self).spec_waiters() == old(self).spec_waiters()
                + 1,
            final(self).spec_is_open() == old(self).spec_is_open(),
    {
        if self.flag {
            false
        } else {
            self.waiters = self.waiters + 1;
            true
        }
    }
}

} // verus!
