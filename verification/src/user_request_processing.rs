//! The request router: serve a client request locally, or decide its
//! single-hop forward.
//!
//! For each request the router asks the cluster directory who owns the
//! key.  The local node serves its own keys from the cache engine.  A key
//! owned elsewhere is relayed verbatim to its owner over that node's
//! connection — exactly one hop — and the owner's one response line goes
//! back to the client verbatim; when the owner has no live connection the
//! client gets an explicit failure response instead, with no retry and no
//! queueing.  The relaying itself is I/O and is the caller's: the router
//! returns the decision.

use crate::cache::{cache_put, Cache};
use crate::cluster::{lemma_deterministic_routing, owner_of, Cluster, ClusterModel};
use crate::requests::{ReqResponseEnum, RequestsEnum};
use vstd::prelude::*;

verus! {

/// Where a key's request is handled.
pub enum RouteDecision {
    /// The local node owns the key.
    Local,
    /// The key's owner is this connected peer.
    Forward(Seq<char>),
    /// The key's owner has no live connection.
    Unreachable,
}

/// How a directory state routes a key.
pub open spec fn route_of(m: ClusterModel, key: Seq<char>) -> RouteDecision {
    if owner_of(m, key) == m.self_id {
        RouteDecision::Local
    } else if m.peers.dom().contains(owner_of(m, key)) {
        RouteDecision::Forward(owner_of(m, key))
    } else {
        RouteDecision::Unreachable
    }
}

/// What the caller must do with a processed request.
pub enum RequestOutcome {
    /// Answer the client with this response.
    Respond(ReqResponseEnum),
    /// Relay the request, verbatim, over the connection to this peer;
    /// read one response line and answer the client with it verbatim.
    Forward { target_node: String },
    /// Close this client's connection; the node keeps running.
    CloseConnection,
}

/// The forwarding decision of the single-hop redirector: relay to the
/// owner when its connection is live, else answer that the request cannot
/// be processed — it is dropped, not retried, not queued.
fn redirect_request(cluster: &Cluster, target_node: String) -> (outcome: RequestOutcome)
    requires
        cluster.wf(),
    ensures
        match outcome {
            RequestOutcome::Forward { target_node: t } => t == target_node
                && cluster@.peers.dom().contains(target_node@),
            RequestOutcome::Respond(resp) => resp == ReqResponseEnum::ErrorProcessingCommand
                && !cluster@.peers.dom().contains(target_node@),
            RequestOutcome::CloseConnection => false,
        },
{
    match cluster.get_node_connection(&target_node) {
        None => RequestOutcome::Respond(ReqResponseEnum::ErrorProcessingCommand),
        Some(_) => RequestOutcome::Forward { target_node },
    }
}

/// Routes one client request at clock reading `now`: a locally owned key
/// is served from the cache engine; any other is forwarded to its owner,
/// or answered with a failure when the owner is unreachable.  `Exit`
/// closes only this client's connection.
pub fn process_client_request(
    request: &RequestsEnum,
    cache: &mut Cache,
    cluster: &Cluster,
    now: u64,
) -> (outcome: RequestOutcome)
    requires
        old(cache).wf(),
        cluster.wf(),
        ((*request) matches RequestsEnum::Put { ttl, .. } ==> now + ttl <= u64::MAX),
    ensures
        final(cache).wf(),
        match *request {
            RequestsEnum::Put { ref key, ref value, ttl } => match route_of(cluster@, key@) {
                RouteDecision::Local => final(cache)@ == cache_put(
                    old(cache)@,
                    key@,
                    value@,
                    (now + ttl) as u64,
                ) && outcome == RequestOutcome::Respond(ReqResponseEnum::Put),
                RouteDecision::Forward(target) => *final(cache) == *old(cache) && (outcome matches
                    RequestOutcome::Forward { target_node } && target_node@ == target),
                RouteDecision::Unreachable => *final(cache) == *old(cache) && outcome
                    == RequestOutcome::Respond(ReqResponseEnum::ErrorProcessingCommand),
            },
            RequestsEnum::Get { ref key } => *final(cache) == *old(cache) && match route_of(
                cluster@,
                key@,
            ) {
                RouteDecision::Local => outcome matches RequestOutcome::Respond(resp) && (resp
                    matches ReqResponseEnum::Get { key: ref k, ref value } && k@ == key@ && (match
                    value {
                    Some(v) => old(cache)@.values.dom().contains(key@) && v@ == old(
                        cache,
                    )@.values[key@],
                    None => !old(cache)@.values.dom().contains(key@),
                })),
                RouteDecision::Forward(target) => outcome matches RequestOutcome::Forward {
                    target_node,
                } && target_node@ == target,
                RouteDecision::Unreachable => outcome == RequestOutcome::Respond(
                    ReqResponseEnum::ErrorProcessingCommand,
                ),
            },
            RequestsEnum::Exists { ref key } => *final(cache) == *old(cache) && match route_of(
                cluster@,
                key@,
            ) {
                RouteDecision::Local => outcome == RequestOutcome::Respond(
                    ReqResponseEnum::Exists {
                        present: old(cache)@.values.dom().contains(key@),
                    },
                ),
                RouteDecision::Forward(target) => outcome matches RequestOutcome::Forward {
                    target_node,
                } && target_node@ == target,
                RouteDecision::Unreachable => outcome == RequestOutcome::Respond(
                    ReqResponseEnum::ErrorProcessingCommand,
                ),
            },
            RequestsEnum::Exit => *final(cache) == *old(cache) && outcome
                == RequestOutcome::CloseConnection,
        },
{
    match request {
        RequestsEnum::Put { key, value, ttl } => {
            if cluster.is_key_local(key) {
                cache.put(key, value, *ttl, now);
                RequestOutcome::Respond(ReqResponseEnum::Put)
            } else {
                let target_node = cluster.get_node_for_key(key);
                redirect_request(cluster, target_node)
            }
        },
        RequestsEnum::Get { key } => {
            if cluster.is_key_local(key) {
                let value = cache.get(key);
                RequestOutcome::Respond(ReqResponseEnum::Get { key: key.clone(), value })
            } else {
                let target_node = cluster.get_node_for_key(key);
                redirect_request(cluster, target_node)
            }
        },
        RequestsEnum::Exists { key } => {
            if cluster.is_key_local(key) {
                let present = cache.key_exists(key);
                RequestOutcome::Respond(ReqResponseEnum::Exists { present })
            } else {
                let target_node = cluster.get_node_for_key(key);
                redirect_request(cluster, target_node)
            }
        },
        RequestsEnum::Exit => RequestOutcome::CloseConnection,
    }
}

/// Single-hop forward correctness.  Two nodes share the same bucket
/// assignments; a key's owner is node `a`, and node `b` — not the owner —
/// holds a live connection to it.  Then `b` routes the key's request as a
/// forward to `a`, and `a` routes it as a local serve: the forwarder
/// relays the request and the owner's response verbatim, so the client
/// receives through `b` exactly what `a` would have answered it directly.
pub proof fn lemma_single_hop_forward(b_node: ClusterModel, a_node: ClusterModel, key: Seq<char>)
    requires
        b_node.owners == a_node.owners,
        b_node.num_buckets == a_node.num_buckets,
        owner_of(b_node, key) == a_node.self_id,
        a_node.self_id != b_node.self_id,
        b_node.peers.dom().contains(a_node.self_id),
    ensures
        route_of(b_node, key) == RouteDecision::Forward(a_node.self_id),
        route_of(a_node, key) == RouteDecision::Local,
{
    lemma_deterministic_routing(b_node, a_node, key);
}

/// Unreachable-owner forward: a key owned by a node the directory has no
/// connection to routes to the explicit failure response — never a hang,
/// never a crash (`process_client_request` answers
/// `ErrorProcessingCommand` on this route).
pub proof fn lemma_unreachable_owner(m: ClusterModel, key: Seq<char>)
    requires
        owner_of(m, key) != m.self_id,
        !m.peers.dom().contains(owner_of(m, key)),
    ensures
        route_of(m, key) == RouteDecision::Unreachable,
{
}

} // verus!
