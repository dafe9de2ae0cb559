use dcache::buckets::bucket_lookup;
use dcache::calculate_hash;
use dcache::cluster::Cluster;
use dcache::order::{sort_node_ids, str_lt};
use dcache::table::{table_get, table_insert, table_remove};

#[test]
fn standalone_node_owns_all_buckets() {
    let cluster = Cluster::new(16, "node-a".to_string());
    let assignments = cluster.get_bucket_node_assignments();
    assert_eq!(assignments.len(), 16);
    for (bucket, owner) in assignments.iter().enumerate() {
        assert_eq!(owner.0, bucket as u64);
        assert_eq!(owner.1, "node-a");
    }
    assert!(cluster.is_key_local(&"any key at all".to_string()));
}

#[test]
fn bucket_for_key_is_in_range_and_stable() {
    let cluster = Cluster::new(16, "node-a".to_string());
    let b1 = cluster.get_bucket_for_key(&"some key".to_string());
    let b2 = cluster.get_bucket_for_key(&"some key".to_string());
    assert!(b1 < 16);
    assert_eq!(b1, b2);
}

#[test]
fn calculate_hash_is_deterministic() {
    let key = "a key".to_string();
    assert_eq!(calculate_hash(&key), calculate_hash(&key.clone()));
    assert_eq!(calculate_hash(&key), calculate_hash(&"a key".to_string()));
}

#[test]
fn deterministic_routing_across_nodes() {
    // Two directories sharing the same bucket assignments route every key
    // to the same owner.
    let node_a = Cluster::new(16, "node-a".to_string());
    let mut node_b = Cluster::new(16, "node-b".to_string());
    let assignments = node_a.get_bucket_node_assignments();
    node_b.update_cluster_state(
        &vec![("node-a".to_string(), "127.0.0.1:7000".to_string())],
        &assignments,
    );
    for key in ["x", "another", "third key", ""] {
        assert_eq!(
            node_a.get_node_for_key(&key.to_string()),
            node_b.get_node_for_key(&key.to_string())
        );
    }
}

#[test]
fn update_keeps_existing_connection_address() {
    let mut cluster = Cluster::new(16, "node-a".to_string());
    cluster.add_node_connection("node-b".to_string(), "127.0.0.1:1".to_string());
    let to_connect = cluster.update_cluster_state(
        &vec![
            ("node-b".to_string(), "127.0.0.1:2".to_string()),
            ("node-c".to_string(), "127.0.0.1:3".to_string()),
        ],
        &Vec::new(),
    );
    // The live connection to node-b stays as it is; only node-c is new.
    assert_eq!(
        cluster.get_node_connection(&"node-b".to_string()),
        Some("127.0.0.1:1".to_string())
    );
    assert_eq!(
        cluster.get_node_connection(&"node-c".to_string()),
        Some("127.0.0.1:3".to_string())
    );
    assert_eq!(to_connect, vec![("node-c".to_string(), "127.0.0.1:3".to_string())]);
}

#[test]
fn update_drops_peers_absent_from_the_map() {
    let mut cluster = Cluster::new(16, "node-a".to_string());
    cluster.add_node_connection("node-b".to_string(), "127.0.0.1:1".to_string());
    cluster.update_cluster_state(
        &vec![("node-c".to_string(), "127.0.0.1:3".to_string())],
        &Vec::new(),
    );
    assert_eq!(cluster.get_node_connection(&"node-b".to_string()), None);
}

#[test]
fn update_never_connects_to_self() {
    let mut cluster = Cluster::new(16, "node-a".to_string());
    let to_connect = cluster.update_cluster_state(
        &vec![("node-a".to_string(), "127.0.0.1:9".to_string())],
        &Vec::new(),
    );
    assert!(to_connect.is_empty());
    assert_eq!(cluster.get_node_connection(&"node-a".to_string()), None);
}

#[test]
fn update_ignores_out_of_range_buckets() {
    let mut cluster = Cluster::new(16, "node-a".to_string());
    cluster.update_cluster_state(
        &Vec::new(),
        &vec![(99, "node-b".to_string()), (3, "node-b".to_string())],
    );
    let assignments = cluster.get_bucket_node_assignments();
    assert_eq!(assignments.len(), 16);
    assert_eq!(assignments[3].1, "node-b");
    assert_eq!(assignments[4].1, "node-a");
}

#[test]
fn remove_node_forgets_the_connection() {
    let mut cluster = Cluster::new(16, "node-a".to_string());
    cluster.add_node_connection("node-b".to_string(), "127.0.0.1:1".to_string());
    cluster.remove_node(&"node-b".to_string());
    assert_eq!(cluster.get_node_connection(&"node-b".to_string()), None);
}

#[test]
fn node_ids_sort_lexicographically() {
    let ids = vec!["node-b".to_string(), "node-a".to_string(), "node-c".to_string()];
    let sorted = sort_node_ids(&ids);
    assert_eq!(
        sorted,
        vec!["node-a".to_string(), "node-b".to_string(), "node-c".to_string()]
    );
}

#[test]
fn str_lt_orders_strings() {
    assert!(str_lt(&"abc".to_string(), &"abd".to_string()));
    assert!(str_lt(&"ab".to_string(), &"abc".to_string()));
    assert!(str_lt(&"".to_string(), &"a".to_string()));
    assert!(!str_lt(&"abc".to_string(), &"abc".to_string()));
    assert!(!str_lt(&"b".to_string(), &"ab".to_string()));
}

#[test]
fn bucket_lookup_takes_the_last_pair() {
    let pairs = vec![(1u64, "x".to_string()), (1u64, "y".to_string())];
    assert_eq!(bucket_lookup(&pairs, 1), Some("y".to_string()));
    assert_eq!(bucket_lookup(&pairs, 2), None);
}

#[test]
fn table_upserts_and_removes() {
    let mut table: Vec<(String, String)> = Vec::new();
    table_insert(&mut table, &"k".to_string(), "v1".to_string());
    table_insert(&mut table, &"k".to_string(), "v2".to_string());
    assert_eq!(table.len(), 1);
    assert_eq!(table_get(&table, &"k".to_string()), Some("v2".to_string()));
    table_remove(&mut table, &"k".to_string());
    assert_eq!(table_get(&table, &"k".to_string()), None);
}
