//! The membership protocol, as seen by a node receiving a peer-port
//! command.
//!
//! A join is coordinated by whichever member receives it: that node
//! registers the joining node's connection, recomputes bucket ownership
//! over the grown member set, pushes the complete new state to every other
//! connected node, and replies to the joining node with the same state.
//! The pushing and replying are I/O and are the caller's: this module
//! computes the new directory state, the response, and the actions.

use crate::buckets::copy_bucket_pairs;
use crate::cluster::{
    chunk_owner, is_member_ranking, merged_peers, upserted_owners, Cluster,
};
use crate::commands::{CmdResponseEnum, CommandsEnum};
use crate::table::{copy_pairs, map_of, table_insert, unique_keys};
use vstd::prelude::*;

verus! {

/// What the caller must do after a processed peer-port command.
pub struct ClusterCommandOutcome {
    /// The response to write back on the command's connection.
    pub response: CmdResponseEnum,
    /// A state update to send, fire-and-forget, to every other connected
    /// node.
    pub broadcast: Option<CommandsEnum>,
    /// Connections to open: one pair, node id and address, per node newly
    /// named in an applied state update.
    pub connect: Vec<(String, String)>,
}

/// A bucket-ownership snapshot, as carried in responses: one pair per
/// bucket, in bucket order.
pub open spec fn is_bucket_snapshot(pairs: Seq<(u64, String)>, owners: Seq<Seq<char>>) -> bool {
    &&& pairs.len() == owners.len()
    &&& forall|i: int| 0 <= i < pairs.len()
        ==> (#[trigger] pairs[i]).0 == i as u64 && pairs[i].1@ == owners[i]
}

/// Handles one peer-port command against the directory.
///
/// `self_addr` is the local address of the command's connection — how the
/// sender reaches this node — and `peer_addr` the connection's remote
/// address.  A `JoinCluster` must name a node other than the local one,
/// and must leave the member count within the bucket count, or ownership
/// could not be redistributed; the caller checks both before calling.
/// `LeaveCluster` is acknowledged but deliberately not acted on.
pub fn process_cluster_command(
    command: CommandsEnum,
    cluster: &mut Cluster,
    self_addr: String,
    peer_addr: String,
) -> (outcome: ClusterCommandOutcome)
    requires
        old(cluster).wf(),
        (command matches CommandsEnum::JoinCluster { ref node_id } ==> node_id@ != old(
            cluster,
        )@.self_id && old(cluster)@.peers.dom().insert(node_id@).len() + 1 <= old(
            cluster,
        )@.num_buckets),
    ensures
        final(cluster).wf(),
        final(cluster)@.self_id == old(cluster)@.self_id,
        final(cluster)@.num_buckets == old(cluster)@.num_buckets,
        match command {
            CommandsEnum::JoinCluster { ref node_id } => {
                &&& final(cluster)@.peers == old(cluster)@.peers.insert(node_id@, peer_addr@)
                &&& (exists|nodes: Seq<Seq<char>>|
                    #[trigger] is_member_ranking(final(cluster)@, nodes)
                    && forall|b: int| 0 <= b < final(cluster)@.num_buckets
                        ==> final(cluster)@.owners[b] == chunk_owner(
                            nodes,
                            final(cluster)@.num_buckets,
                            b,
                        ))
                &&& (outcome.response matches CmdResponseEnum::ClusterState {
                    ref nodes_to_ips,
                    ref buckets_to_nodes,
                } && unique_keys(nodes_to_ips@) && map_of(nodes_to_ips@) == final(cluster)@.peers.insert(old(cluster)@.self_id, self_addr@) && is_bucket_snapshot(
                    buckets_to_nodes@,
                    final(cluster)@.owners,
                ))
                &&& (outcome.broadcast matches Some(CommandsEnum::UpdateClusterState {
                    ref nodes_to_ips,
                    ref buckets_to_nodes,
                }) && unique_keys(nodes_to_ips@) && map_of(nodes_to_ips@) == final(cluster)@.peers.insert(old(cluster)@.self_id, self_addr@) && is_bucket_snapshot(
                    buckets_to_nodes@,
                    final(cluster)@.owners,
                ))
                &&& outcome.connect@.len() == 0
            },
            CommandsEnum::GetClusterState => {
                &&& *final(cluster) == *old(cluster)
                &&& (outcome.response matches CmdResponseEnum::ClusterState {
                    ref nodes_to_ips,
                    ref buckets_to_nodes,
                } && unique_keys(nodes_to_ips@) && map_of(nodes_to_ips@) == final(cluster)@.peers && is_bucket_snapshot(buckets_to_nodes@, final(cluster)@.owners))
                &&& outcome.broadcast is None
                &&& outcome.connect@.len() == 0
            },
            CommandsEnum::UpdateClusterState { ref nodes_to_ips, ref buckets_to_nodes } => {
                &&& final(cluster)@.peers == merged_peers(
                    old(cluster)@.peers,
                    map_of(nodes_to_ips@),
                    old(cluster)@.self_id,
                )
                &&& final(cluster)@.owners == upserted_owners(
                    old(cluster)@.owners,
                    crate::buckets::bucket_map_of(buckets_to_nodes@),
                )
                &&& outcome.response == CmdResponseEnum::Acknowledged
                &&& outcome.broadcast is None
                &&& map_of(outcome.connect@) == map_of(nodes_to_ips@).remove(
                    old(cluster)@.self_id,
                ).remove_keys(old(cluster)@.peers.dom())
            },
            CommandsEnum::LeaveCluster { .. } => {
                &&& *final(cluster) == *old(cluster)
                &&& outcome.response == CmdResponseEnum::Acknowledged
                &&& outcome.broadcast is None
                &&& outcome.connect@.len() == 0
            },
        },
{
    match command {
        CommandsEnum::JoinCluster { node_id } => {
            cluster.add_node_connection(node_id, peer_addr);
            let mut nodes_to_ips = cluster.get_cluster_node_ips();
            let local_id = cluster.self_id().clone();
            table_insert(&mut nodes_to_ips, &local_id, self_addr);
            let ghost before_redist = cluster@;
            cluster.redistribute_buckets();
            proof {
                let nodes = choose|nodes: Seq<Seq<char>>|
                    #[trigger] is_member_ranking(before_redist, nodes)
                    && 1 <= nodes.len() <= before_redist.num_buckets
                    && forall|b: int| 0 <= b < before_redist.num_buckets
                        ==> cluster@.owners[b] == chunk_owner(nodes, before_redist.num_buckets, b);
                assert(is_member_ranking(cluster@, nodes)) by {
                    assert(cluster@.peers == before_redist.peers);
                    assert(cluster@.self_id == before_redist.self_id);
                }
            }
            let buckets_to_nodes = cluster.get_bucket_node_assignments();
            let broadcast = CommandsEnum::UpdateClusterState {
                nodes_to_ips: copy_pairs(&nodes_to_ips),
                buckets_to_nodes: copy_bucket_pairs(&buckets_to_nodes),
            };
            ClusterCommandOutcome {
                response: CmdResponseEnum::ClusterState { nodes_to_ips, buckets_to_nodes },
                broadcast: Some(broadcast),
                connect: Vec::new(),
            }
        },
        CommandsEnum::GetClusterState => {
            proof {
                cluster.lemma_wf_model();
            }
            let nodes_to_ips = cluster.get_cluster_node_ips();
            let buckets_to_nodes = cluster.get_bucket_node_assignments();
            ClusterCommandOutcome {
                response: CmdResponseEnum::ClusterState { nodes_to_ips, buckets_to_nodes },
                broadcast: None,
                connect: Vec::new(),
            }
        },
        CommandsEnum::UpdateClusterState { nodes_to_ips, buckets_to_nodes } => {
            let connect = cluster.update_cluster_state(&nodes_to_ips, &buckets_to_nodes);
            ClusterCommandOutcome {
                response: CmdResponseEnum::Acknowledged,
                broadcast: None,
                connect,
            }
        },
        CommandsEnum::LeaveCluster { node_id: _ } => {
            ClusterCommandOutcome {
                response: CmdResponseEnum::Acknowledged,
                broadcast: None,
                connect: Vec::new(),
            }
        },
    }
}

} // verus!
