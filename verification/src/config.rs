//! Configuration of a single Raft server.

use vstd::prelude::*;

verus! {

/// Configuration of a Raft server.
pub struct Config {
    /// Identifier of this server.  Identifiers must be unique across
    /// the cluster; how they are drawn (for instance from freshly
    /// generated UUIDs) is the embedding application's concern.
    pub this_id: u64,
    /// Directory in which the persistent state (term, vote, log) is
    /// kept by the external durable store.
    pub state_directory: String,
}

} // verus!
