//! A distributed, in-memory key-value cache node, verified with Verus.
//!
//! Several cooperating nodes each own a disjoint part of the keyspace:
//! a key is hashed to a bucket, and every bucket is owned by exactly one
//! node.  This crate holds the verified core of one node: the cache engine
//! with time-to-live expiry, the cluster directory that maps buckets to
//! nodes, the membership protocol that rebalances ownership when a node
//! joins, and the router that decides whether a client request is served
//! locally or forwarded one hop to its owner.  All networking, framing and
//! time-keeping live outside this crate; the functions here take plain
//! values (keys, node ids, addresses, clock readings) and return values
//! and actions.

pub mod buckets;
pub mod cache;
pub mod cluster;
pub mod cluster_command_processing;
pub mod commands;
pub mod hashing;
pub mod order;
pub mod requests;
pub mod table;
pub mod user_request_processing;

pub use cache::Cache;
pub use cluster::Cluster;
pub use commands::CmdResponseEnum;
pub use commands::CommandsEnum;
pub use hashing::calculate_hash;
pub use hashing::hash_of;
pub use requests::ReqResponseEnum;
pub use requests::RequestsEnum;
