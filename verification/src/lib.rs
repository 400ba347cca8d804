//! Core of the Raft consensus protocol: leader election, log
//! replication, commit advancement and the safety arguments behind
//! them, over an in-memory model of a server's state.
//!
//! The network transport, the durable store and the application state
//! machine are external collaborators: this crate produces the
//! messages to send and the commands to apply, and consumes the
//! replies and timer events that a driver loop delivers.

pub mod config;
pub mod election;
pub mod error;
pub mod log;
pub mod replication;
pub mod rpc;
pub mod safety;
pub mod state;
