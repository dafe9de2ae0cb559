//! Inter-node messages: the commands one node sends another on the peer
//! port, and their responses.
//!
//! Address maps and bucket maps travel as pair lists; when two pairs name
//! the same key, the later one wins, as in the mappings they are read into
//! (`crate::table::map_of`, `crate::buckets::bucket_map_of`).

use vstd::prelude::*;

verus! {

/// A command received on the peer port.
pub enum CommandsEnum {
    /// A node asks to join the cluster it reaches through this connection.
    JoinCluster { node_id: String },
    /// A node announces its departure.  Accepted and acknowledged, but not
    /// acted on: no buckets are reassigned and no connection is torn down.
    LeaveCluster { node_id: String },
    /// A read of the recipient's directory: its peer addresses and bucket
    /// ownership.
    GetClusterState,
    /// A complete directory state, pushed after a membership change.
    UpdateClusterState {
        nodes_to_ips: Vec<(String, String)>,
        buckets_to_nodes: Vec<(u64, String)>,
    },
}

/// The response to a peer-port command.
pub enum CmdResponseEnum {
    /// The command was applied.  (The variant cannot carry the wire name
    /// `Ok`, a reserved word of the verifier.)
    Acknowledged,
    /// The recipient's directory: its peer addresses and bucket ownership.
    ClusterState {
        nodes_to_ips: Vec<(String, String)>,
        buckets_to_nodes: Vec<(u64, String)>,
    },
    /// A list of keys; reserved, sent by no current flow.
    KeysList { keys: Vec<String> },
    /// The command could not be processed.
    ErrorProcessingCommand,
}

} // verus!
