use dcache::cluster::Cluster;
use dcache::cluster_command_processing::process_cluster_command;
use dcache::{CmdResponseEnum, CommandsEnum};

fn owner_counts(assignments: &[(u64, String)], node: &str) -> usize {
    assignments.iter().filter(|(_, owner)| owner == node).count()
}

#[test]
fn two_node_join_splits_buckets_evenly() {
    // Node A stands alone with 16 buckets; node B joins with A as leader.
    let mut node_a = Cluster::new(16, "node-a".to_string());
    let outcome = process_cluster_command(
        CommandsEnum::JoinCluster { node_id: "node-b".to_string() },
        &mut node_a,
        "127.0.0.1:7101".to_string(),
        "127.0.0.1:7201".to_string(),
    );

    // A now owns half the buckets, B the other half, and A is connected
    // to B.
    let assignments_a = node_a.get_bucket_node_assignments();
    assert_eq!(owner_counts(&assignments_a, "node-a"), 8);
    assert_eq!(owner_counts(&assignments_a, "node-b"), 8);
    assert_eq!(
        node_a.get_node_connection(&"node-b".to_string()),
        Some("127.0.0.1:7201".to_string())
    );

    // B applies the join reply: the same split, and a connection to A.
    let broadcast = outcome.broadcast.expect("the leader broadcasts the new state");
    let mut node_b = Cluster::new(16, "node-b".to_string());
    let to_connect = node_b
        .apply_join_response(&broadcast)
        .expect("the reply is a cluster-state update");
    assert_eq!(to_connect, vec![("node-a".to_string(), "127.0.0.1:7101".to_string())]);
    assert_eq!(node_b.get_bucket_node_assignments(), assignments_a);
    assert_eq!(
        node_b.get_node_connection(&"node-a".to_string()),
        Some("127.0.0.1:7101".to_string())
    );

    // The reply to the joining node carries the same state.
    match outcome.response {
        CmdResponseEnum::ClusterState { nodes_to_ips, buckets_to_nodes } => {
            assert_eq!(buckets_to_nodes, assignments_a);
            assert_eq!(nodes_to_ips.len(), 2);
        }
        _ => panic!("expected a cluster-state reply"),
    }
}

#[test]
fn third_join_gives_remainder_to_last_node() {
    // 16 buckets over three nodes: chunks of five, and the remainder
    // bucket goes to the last node in id order rather than being left
    // unowned.
    let mut node_a = Cluster::new(16, "node-a".to_string());
    process_cluster_command(
        CommandsEnum::JoinCluster { node_id: "node-b".to_string() },
        &mut node_a,
        "127.0.0.1:7101".to_string(),
        "127.0.0.1:7201".to_string(),
    );
    process_cluster_command(
        CommandsEnum::JoinCluster { node_id: "node-c".to_string() },
        &mut node_a,
        "127.0.0.1:7101".to_string(),
        "127.0.0.1:7301".to_string(),
    );
    let assignments = node_a.get_bucket_node_assignments();
    assert_eq!(owner_counts(&assignments, "node-a"), 5);
    assert_eq!(owner_counts(&assignments, "node-b"), 5);
    assert_eq!(owner_counts(&assignments, "node-c"), 6);
    // Chunks are contiguous in bucket order, ranked by node id.
    for (bucket, owner) in assignments.iter() {
        let expected = if *bucket < 5 {
            "node-a"
        } else if *bucket < 10 {
            "node-b"
        } else {
            "node-c"
        };
        assert_eq!(owner, expected, "bucket {bucket}");
    }
}

#[test]
fn get_cluster_state_reports_peers_and_buckets() {
    let mut node_a = Cluster::new(16, "node-a".to_string());
    node_a.add_node_connection("node-b".to_string(), "127.0.0.1:7201".to_string());
    let outcome = process_cluster_command(
        CommandsEnum::GetClusterState,
        &mut node_a,
        "127.0.0.1:7101".to_string(),
        "127.0.0.1:7201".to_string(),
    );
    assert!(outcome.broadcast.is_none());
    match outcome.response {
        CmdResponseEnum::ClusterState { nodes_to_ips, buckets_to_nodes } => {
            assert_eq!(
                nodes_to_ips,
                vec![("node-b".to_string(), "127.0.0.1:7201".to_string())]
            );
            assert_eq!(buckets_to_nodes.len(), 16);
        }
        _ => panic!("expected a cluster-state reply"),
    }
}

#[test]
fn leave_cluster_is_acknowledged_but_not_acted_on() {
    let mut node_a = Cluster::new(16, "node-a".to_string());
    node_a.add_node_connection("node-b".to_string(), "127.0.0.1:7201".to_string());
    let before = node_a.get_bucket_node_assignments();
    let outcome = process_cluster_command(
        CommandsEnum::LeaveCluster { node_id: "node-b".to_string() },
        &mut node_a,
        "127.0.0.1:7101".to_string(),
        "127.0.0.1:7201".to_string(),
    );
    assert!(matches!(outcome.response, CmdResponseEnum::Acknowledged));
    assert!(outcome.broadcast.is_none());
    assert_eq!(node_a.get_bucket_node_assignments(), before);
    assert!(node_a.get_node_connection(&"node-b".to_string()).is_some());
}

#[test]
fn update_command_applies_state_and_reports_connections() {
    let mut node_c = Cluster::new(16, "node-c".to_string());
    let buckets: Vec<(u64, String)> =
        (0..16).map(|b| (b, if b < 8 { "node-a" } else { "node-b" }.to_string())).collect();
    let outcome = process_cluster_command(
        CommandsEnum::UpdateClusterState {
            nodes_to_ips: vec![
                ("node-a".to_string(), "127.0.0.1:7101".to_string()),
                ("node-b".to_string(), "127.0.0.1:7201".to_string()),
                ("node-c".to_string(), "127.0.0.1:7301".to_string()),
            ],
            buckets_to_nodes: buckets.clone(),
        },
        &mut node_c,
        "127.0.0.1:7301".to_string(),
        "127.0.0.1:7101".to_string(),
    );
    assert!(matches!(outcome.response, CmdResponseEnum::Acknowledged));
    let mut connect = outcome.connect.clone();
    connect.sort();
    assert_eq!(
        connect,
        vec![
            ("node-a".to_string(), "127.0.0.1:7101".to_string()),
            ("node-b".to_string(), "127.0.0.1:7201".to_string()),
        ]
    );
    assert_eq!(node_c.get_bucket_node_assignments(), buckets);
}
