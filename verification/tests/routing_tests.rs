use dcache::cache::Cache;
use dcache::cluster::Cluster;
use dcache::user_request_processing::{process_client_request, RequestOutcome};
use dcache::{ReqResponseEnum, RequestsEnum};

fn put(key: &str, value: &str, ttl: u64) -> RequestsEnum {
    RequestsEnum::Put { key: key.to_string(), value: value.to_string(), ttl }
}

fn get(key: &str) -> RequestsEnum {
    RequestsEnum::Get { key: key.to_string() }
}

fn exists_req(key: &str) -> RequestsEnum {
    RequestsEnum::Exists { key: key.to_string() }
}

/// A directory that believes every bucket is owned by `owner`, with a live
/// connection to it when `connected`.
fn all_remote(self_id: &str, owner: &str, connected: bool) -> Cluster {
    let mut cluster = Cluster::new(16, self_id.to_string());
    let buckets: Vec<(u64, String)> = (0..16).map(|b| (b, owner.to_string())).collect();
    let nodes = if connected {
        vec![(owner.to_string(), "127.0.0.1:7000".to_string())]
    } else {
        Vec::new()
    };
    cluster.update_cluster_state(&nodes, &buckets);
    cluster
}

#[test]
fn standalone_put_get_expire() {
    // A single standalone node with 16 buckets serves every key locally:
    // a put is readable at once, and the entry lapses after its
    // time-to-live has passed and a sweep has run.
    let mut cache = Cache::new();
    let cluster = Cluster::new(16, "node-a".to_string());
    let outcome = process_client_request(&put("a", "1", 60), &mut cache, &cluster, 1000);
    assert!(matches!(
        outcome,
        RequestOutcome::Respond(ReqResponseEnum::Put)
    ));
    match process_client_request(&get("a"), &mut cache, &cluster, 1000) {
        RequestOutcome::Respond(ReqResponseEnum::Get { key, value }) => {
            assert_eq!(key, "a");
            assert_eq!(value, Some("1".to_string()));
        }
        _ => panic!("expected a local get response"),
    }
    cache.reap_expired(1061);
    match process_client_request(&exists_req("a"), &mut cache, &cluster, 1061) {
        RequestOutcome::Respond(ReqResponseEnum::Exists { present }) => assert!(!present),
        _ => panic!("expected a local exists response"),
    }
}

#[test]
fn remote_key_is_forwarded_one_hop() {
    let mut cache = Cache::new();
    let cluster = all_remote("node-b", "node-a", true);
    match process_client_request(&get("k"), &mut cache, &cluster, 0) {
        RequestOutcome::Forward { target_node } => assert_eq!(target_node, "node-a"),
        _ => panic!("expected a forward to the owner"),
    }
    match process_client_request(&put("k", "v", 60), &mut cache, &cluster, 0) {
        RequestOutcome::Forward { target_node } => assert_eq!(target_node, "node-a"),
        _ => panic!("expected a forward to the owner"),
    }
    // Nothing was stored locally.
    assert!(!cache.key_exists(&"k".to_string()));
}

#[test]
fn forwarded_request_gets_the_owner_response() {
    // Node B forwards verbatim and relays the owner's response verbatim,
    // so the client receives through B exactly what the owner A would
    // answer directly.
    let mut cache_b = Cache::new();
    let cluster_b = all_remote("node-b", "node-a", true);
    let mut cache_a = Cache::new();
    let cluster_a = Cluster::new(16, "node-a".to_string());

    // Store on A directly.
    process_client_request(&put("k", "v", 60), &mut cache_a, &cluster_a, 0);

    // B's router decides to forward the get to A ...
    let request = get("k");
    match process_client_request(&request, &mut cache_b, &cluster_b, 0) {
        RequestOutcome::Forward { target_node } => assert_eq!(target_node, "node-a"),
        _ => panic!("expected a forward to the owner"),
    }
    // ... and the response relayed back is A's own.
    let direct = process_client_request(&request, &mut cache_a, &cluster_a, 0);
    match direct {
        RequestOutcome::Respond(ReqResponseEnum::Get { key, value }) => {
            assert_eq!(key, "k");
            assert_eq!(value, Some("v".to_string()));
        }
        _ => panic!("expected the owner to serve locally"),
    }
}

#[test]
fn unreachable_owner_returns_error_response() {
    let mut cache = Cache::new();
    let cluster = all_remote("node-b", "node-a", false);
    for request in [get("k"), put("k", "v", 60), exists_req("k")] {
        assert!(matches!(
            process_client_request(&request, &mut cache, &cluster, 0),
            RequestOutcome::Respond(ReqResponseEnum::ErrorProcessingCommand)
        ));
    }
}

#[test]
fn removed_owner_connection_makes_key_unreachable() {
    let mut cache = Cache::new();
    let mut cluster = all_remote("node-b", "node-a", true);
    cluster.remove_node(&"node-a".to_string());
    assert!(matches!(
        process_client_request(&get("k"), &mut cache, &cluster, 0),
        RequestOutcome::Respond(ReqResponseEnum::ErrorProcessingCommand)
    ));
}

#[test]
fn exit_closes_only_the_connection() {
    let mut cache = Cache::new();
    let cluster = Cluster::new(16, "node-a".to_string());
    assert!(matches!(
        process_client_request(&RequestsEnum::Exit, &mut cache, &cluster, 0),
        RequestOutcome::CloseConnection
    ));
}
