//! Relay-based discovery of which peer, if any, is hosting a local
//! multiplayer session.
//!
//! Peers watch a growing log file for host-start and host-stop lines,
//! report changes to a central relay, and the relay aggregates every
//! peer's status into a tri-state summary (no host / one host, with its
//! address / many hosts) that it broadcasts back whenever it changes.
//!
//! This crate holds the verified core: the message types, the log-polling
//! cursor and line grammar, the signal used to pause and stop tasks, and the
//! relay's authoritative state aggregation. The surrounding process
//! (sockets, threads, timers, the status sink) drives these functions and
//! performs the I/O they decide on.

pub mod address;
pub mod assoc;
pub mod client;
pub mod client_state;
pub mod gate;
pub mod log_reader;
pub mod messages;
pub mod server_state;
