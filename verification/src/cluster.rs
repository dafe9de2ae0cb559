//! The cluster directory: bucket ownership, peer connections, and the hash
//! that routes a key to its bucket.
//!
//! Every bucket in `[0, num_buckets)` is owned by exactly one node at all
//! times; `num_buckets` is fixed when the cluster is created and never
//! renegotiated.  The directory also keeps one entry per connected peer —
//! the peer's node id with the address its connection reaches — never one
//! for the local node itself: self-ownership is implicit.  The connections
//! themselves are sockets held by the caller; the directory records which
//! peers are reachable and hands back, as plain values, which connections
//! to open.

use crate::buckets::{bucket_lookup, bucket_map_of};
use crate::commands::CmdResponseEnum;
use crate::commands::CommandsEnum;
use crate::hashing::{calculate_hash, hash_of};
use crate::order::{lemma_lex_le_total_ordering, lex_le_rel, sort_node_ids, views_of};
use crate::table::{
    has_key, lemma_map_of_dom, lemma_map_of_last_occurrence, lemma_map_of_push,
    lemma_map_of_unique_len, map_of, table_contains, table_get, table_insert, table_keys,
    table_remove, unique_keys,
};
use vstd::prelude::*;
use vstd::relations::sorted_by;

verus! {

/// The directory's mathematical state.
pub struct ClusterModel {
    /// The local node's id.
    pub self_id: Seq<char>,
    /// How many buckets the keyspace is split into.
    pub num_buckets: int,
    /// The owner of each bucket; the sequence's length is `num_buckets`.
    pub owners: Seq<Seq<char>>,
    /// Connected peers: each peer's node id with its connection's address.
    pub peers: Map<Seq<char>, Seq<char>>,
}

/// The bucket that a key hashes to: the shared hash, reduced modulo the
/// bucket count.  Every node of a cluster computes this identically.
pub open spec fn bucket_of(key: Seq<char>, num_buckets: int) -> int {
    hash_of(key) as int % num_buckets
}

/// The node that owns a key under a directory state.
pub open spec fn owner_of(m: ClusterModel, key: Seq<char>) -> Seq<char> {
    m.owners[bucket_of(key, m.num_buckets)]
}

/// A ranking of a directory's members: the local node and every connected
/// peer, each exactly once, sorted lexicographically.  A directory state
/// has exactly one ranking (`lemma_member_ranking_unique`).
pub open spec fn is_member_ranking(m: ClusterModel, nodes: Seq<Seq<char>>) -> bool {
    &&& sorted_by(nodes, lex_le_rel())
    &&& nodes.no_duplicates()
    &&& forall|k: Seq<char>| #[trigger] nodes.contains(k)
        <==> (m.peers.dom().contains(k) || k == m.self_id)
}

/// The member that redistribution assigns to bucket `b`: the buckets are
/// split into contiguous chunks of `num_buckets / nodes.len()`, chunk `i`
/// going to member `i`, and every remainder bucket to the last member.
pub open spec fn chunk_owner(nodes: Seq<Seq<char>>, num_buckets: int, b: int) -> Seq<char> {
    let per = num_buckets / nodes.len() as int;
    if b / per >= nodes.len() {
        nodes[nodes.len() - 1]
    } else {
        nodes[b / per]
    }
}

/// The first bucket of member `i`'s chunk.
pub open spec fn chunk_first(nodes: Seq<Seq<char>>, num_buckets: int, i: int) -> int {
    i * (num_buckets / nodes.len() as int)
}

/// Member `i` owns the first bucket of its chunk.
pub open spec fn owns_first_chunk_bucket(
    owners: Seq<Seq<char>>,
    nodes: Seq<Seq<char>>,
    num_buckets: int,
    i: int,
) -> bool {
    &&& 0 <= chunk_first(nodes, num_buckets, i) < num_buckets
    &&& owners[chunk_first(nodes, num_buckets, i)] == nodes[i]
}

/// One directory state has one member ranking: sorted, duplicate-free
/// lists over the same members are equal.
pub proof fn lemma_member_ranking_unique(m: ClusterModel, n1: Seq<Seq<char>>, n2: Seq<Seq<char>>)
    requires
        is_member_ranking(m, n1),
        is_member_ranking(m, n2),
    ensures
        n1 == n2,
{
    broadcast use vstd::seq_lib::group_to_multiset_ensures;

    lemma_lex_le_total_ordering();
    n1.lemma_multiset_has_no_duplicates();
    n2.lemma_multiset_has_no_duplicates();
    assert(n1.to_multiset() =~= n2.to_multiset()) by {
        assert forall|x: Seq<char>| n1.to_multiset().count(x) == n2.to_multiset().count(x) by {
            assert(n1.contains(x) <==> n2.contains(x));
            if n1.contains(x) {
                assert(n1.to_multiset().count(x) == 1);
                assert(n2.to_multiset().count(x) == 1);
            } else {
                assert(n1.to_multiset().count(x) == 0);
                assert(n2.to_multiset().count(x) == 0);
            }
        }
    }
    vstd::seq_lib::lemma_sorted_unique(n1, n2, lex_le_rel());
}

/// Total bucket coverage.  After a redistribution over a member ranking —
/// with at most as many members as buckets — every bucket is owned by a
/// member, and every member owns at least one bucket.
pub proof fn lemma_bucket_coverage(owners: Seq<Seq<char>>, nodes: Seq<Seq<char>>, num_buckets: int)
    requires
        1 <= nodes.len() <= num_buckets,
        owners.len() == num_buckets,
        forall|b: int| 0 <= b < num_buckets
            ==> #[trigger] owners[b] == chunk_owner(nodes, num_buckets, b),
    ensures
        forall|b: int| 0 <= b < num_buckets ==> nodes.contains(#[trigger] owners[b]),
        forall|i: int| 0 <= i < nodes.len()
            ==> #[trigger] owns_first_chunk_bucket(owners, nodes, num_buckets, i),
{
    let n = nodes.len() as int;
    let per = num_buckets / n;
    vstd::arithmetic::div_mod::lemma_div_non_zero(num_buckets, n);
    assert forall|b: int| 0 <= b < num_buckets implies nodes.contains(#[trigger] owners[b]) by {
        vstd::arithmetic::div_mod::lemma_div_pos_is_pos(b, per);
        if b / per >= n {
            assert(owners[b] == nodes[n - 1]);
        } else {
            assert(owners[b] == nodes[b / per]);
        }
    }
    assert forall|i: int| 0 <= i < n implies
        #[trigger] owns_first_chunk_bucket(owners, nodes, num_buckets, i) by {
        assert(chunk_first(nodes, num_buckets, i) == i * per);
        let b = i * per;
        vstd::arithmetic::div_mod::lemma_fundamental_div_mod(num_buckets, n);
        assert(n * per <= num_buckets);
        assert((i + 1) * per <= n * per) by (nonlinear_arith)
            requires
                i + 1 <= n,
                per >= 1,
        ;
        assert(i * per + per == (i + 1) * per) by (nonlinear_arith);
        assert(i * per >= 0) by (nonlinear_arith)
            requires
                0 <= i,
                per >= 1,
        ;
        assert(0 <= b < num_buckets);
        vstd::arithmetic::div_mod::lemma_div_multiples_vanish(i, per);
        assert(b / per == i);
        assert(owners[b] == nodes[i]);
    }
}

/// What the peer table becomes when a complete address map arrives: peers
/// absent from the map are dropped, peers named in it keep the connection
/// (and recorded address) they already have, nodes not yet connected come
/// in under the map's address, and the local node never gets an entry.
pub open spec fn merged_peers(
    old_peers: Map<Seq<char>, Seq<char>>,
    incoming: Map<Seq<char>, Seq<char>>,
    self_id: Seq<char>,
) -> Map<Seq<char>, Seq<char>> {
    Map::new(
        |k: Seq<char>| incoming.dom().contains(k) && k != self_id,
        |k: Seq<char>| if old_peers.dom().contains(k) {
            old_peers[k]
        } else {
            incoming[k]
        },
    )
}

/// What a bucket-map update does to ownership: every pair of the incoming
/// map is upserted, buckets it does not mention keep their owner.
pub open spec fn upserted_owners(
    owners: Seq<Seq<char>>,
    incoming: Map<u64, Seq<char>>,
) -> Seq<Seq<char>> {
    Seq::new(
        owners.len(),
        |b: int| if incoming.dom().contains(b as u64) {
            incoming[b as u64]
        } else {
            owners[b]
        },
    )
}

/// Deterministic routing: two directories sharing the same bucket
/// assignments and bucket count route every key to the same owner.
pub proof fn lemma_deterministic_routing(m1: ClusterModel, m2: ClusterModel, key: Seq<char>)
    requires
        m1.owners == m2.owners,
        m1.num_buckets == m2.num_buckets,
    ensures
        owner_of(m1, key) == owner_of(m2, key),
{
}

/// The cluster directory.
pub struct Cluster {
    /// The local node's id.
    pub self_node_id: String,
    num_buckets: u64,
    bucket_owners: Vec<String>,
    node_connections: Vec<(String, String)>,
}

impl View for Cluster {
    type V = ClusterModel;

    closed spec fn view(&self) -> ClusterModel {
        ClusterModel {
            self_id: self.self_node_id@,
            num_buckets: self.num_buckets as int,
            owners: views_of(self.bucket_owners@),
            peers: map_of(self.node_connections@),
        }
    }
}

impl Cluster {
    /// The directory's invariant: at least one bucket, every bucket owned,
    /// one entry per peer, and never an entry for the local node.
    pub closed spec fn wf(self) -> bool {
        &&& 1 <= self.num_buckets
        &&& self.bucket_owners@.len() == self.num_buckets
        &&& unique_keys(self.node_connections@)
        &&& !has_key(self.node_connections@, self.self_node_id@)
    }

    /// The invariant, seen through the model.
    pub proof fn lemma_wf_model(self)
        requires
            self.wf(),
        ensures
            self@.owners.len() == self@.num_buckets,
            self@.num_buckets >= 1,
            self@.peers.dom().finite(),
            !self@.peers.dom().contains(self@.self_id),
    {
        lemma_map_of_dom(self.node_connections@);
    }

    /// A standalone directory: no peers, every bucket owned by the local
    /// node.  A node started without a leader address begins here; a
    /// joining node also begins here and then applies the cluster state it
    /// is sent.
    pub fn new(num_buckets: u64, self_node_id: String) -> (c: Cluster)
        requires
            1 <= num_buckets <= usize::MAX as u64,
        ensures
            c.wf(),
            c@.self_id == self_node_id@,
            c@.num_buckets == num_buckets as int,
            forall|b: int| 0 <= b < num_buckets as int ==> #[trigger] c@.owners[b] == self_node_id@,
            c@.peers == Map::<Seq<char>, Seq<char>>::empty(),
    {
        let mut bucket_owners: Vec<String> = Vec::new();
        let mut b: u64 = 0;
        while b < num_buckets
            invariant
                b <= num_buckets,
                bucket_owners@.len() == b,
                forall|i: int| 0 <= i < b as int ==> (#[trigger] bucket_owners@[i])@ == self_node_id@,
            decreases num_buckets - b,
        {
            bucket_owners.push(self_node_id.clone());
            b = b + 1;
        }
        let c = Cluster {
            self_node_id,
            num_buckets,
            bucket_owners,
            node_connections: Vec::new(),
        };
        proof {
            assert(map_of(c.node_connections@) =~= Map::<Seq<char>, Seq<char>>::empty());
        }
        c
    }

    /// The local node's id, as the directory knows it.
    pub fn self_id(&self) -> (r: &String)
        ensures
            r@ == self@.self_id,
    {
        &self.self_node_id
    }

    /// The bucket that `key` belongs to.
    pub fn get_bucket_for_key(&self, key: &String) -> (b: u64)
        requires
            self.wf(),
        ensures
            b as int == bucket_of(key@, self@.num_buckets),
            0 <= b as int && (b as int) < self@.num_buckets,
    {
        calculate_hash(key) % self.num_buckets
    }

    /// The id of the node that owns `key`.
    pub fn get_node_for_key(&self, key: &String) -> (r: String)
        requires
            self.wf(),
        ensures
            r@ == owner_of(self@, key@),
    {
        let bucket = self.get_bucket_for_key(key);
        let n: usize = self.bucket_owners.len();
        proof {
            assert((bucket as int) < (n as int));
        }
        self.bucket_owners[bucket as usize].clone()
    }

    /// Whether `key` is owned by the local node.
    pub fn is_key_local(&self, key: &String) -> (r: bool)
        requires
            self.wf(),
        ensures
            r == (owner_of(self@, key@) == self@.self_id),
    {
        self.get_node_for_key(key) == self.self_node_id
    }

    /// Records a live connection to a peer: the peer's id with the address
    /// the connection reaches.  The local node never gets an entry.
    pub fn add_node_connection(&mut self, node_id: String, address: String)
        requires
            old(self).wf(),
            node_id@ != old(self)@.self_id,
        ensures
            final(self).wf(),
            final(self)@ == (ClusterModel {
                peers: old(self)@.peers.insert(node_id@, address@),
                ..old(self)@
            }),
    {
        table_insert(&mut self.node_connections, &node_id, address);
        proof {
            lemma_map_of_dom(old(self).node_connections@);
            lemma_map_of_dom(self.node_connections@);
        }
    }

    /// Forgets the connection to a peer; a node the directory does not
    /// know is left as it is.
    pub fn remove_node(&mut self, node_id: &String)
        requires
            old(self).wf(),
        ensures
            final(self).wf(),
            final(self)@ == (ClusterModel { peers: old(self)@.peers.remove(node_id@), ..old(self)@ }),
    {
        table_remove(&mut self.node_connections, node_id);
        proof {
            lemma_map_of_dom(old(self).node_connections@);
            lemma_map_of_dom(self.node_connections@);
        }
    }

    /// The address recorded for a peer's connection, or `None` if the peer
    /// is not connected.
    pub fn get_node_connection(&self, target_node: &String) -> (r: Option<String>)
        requires
            self.wf(),
        ensures
            match r {
                Some(address) => self@.peers.dom().contains(target_node@)
                    && address@ == self@.peers[target_node@],
                None => !self@.peers.dom().contains(target_node@),
            },
    {
        table_get(&self.node_connections, target_node)
    }

    /// A snapshot of bucket ownership, one pair per bucket, in bucket
    /// order.
    pub fn get_bucket_node_assignments(&self) -> (r: Vec<(u64, String)>)
        requires
            self.wf(),
        ensures
            r@.len() == self@.num_buckets,
            forall|i: int| 0 <= i < r@.len()
                ==> (#[trigger] r@[i]).0 == i as u64 && r@[i].1@ == self@.owners[i],
    {
        let mut r: Vec<(u64, String)> = Vec::new();
        let mut b: usize = 0;
        while b < self.bucket_owners.len()
            invariant
                b <= self.bucket_owners@.len(),
                r@.len() == b,
                forall|i: int| 0 <= i < b as int
                    ==> (#[trigger] r@[i]).0 == i as u64
                        && r@[i].1@ == views_of(self.bucket_owners@)[i],
            decreases self.bucket_owners@.len() - b,
        {
            r.push((b as u64, self.bucket_owners[b].clone()));
            b = b + 1;
        }
        r
    }

    /// Recomputes bucket ownership over the current member set: the local
    /// node and every connected peer.  Members are ranked by sorting their
    /// ids lexicographically; the buckets, in numeric order, are split into
    /// contiguous chunks of `num_buckets / member_count`, chunk `i` going
    /// to member `i`.  The remainder buckets, when the count does not
    /// divide evenly, go to the last member, so that no bucket is left
    /// unowned.
    pub fn redistribute_buckets(&mut self)
        requires
            old(self).wf(),
            old(self)@.peers.dom().len() + 1 <= old(self)@.num_buckets,
        ensures
            final(self).wf(),
            final(self)@.self_id == old(self)@.self_id,
            final(self)@.num_buckets == old(self)@.num_buckets,
            final(self)@.peers == old(self)@.peers,
            final(self)@.owners.len() == final(self)@.num_buckets,
            exists|nodes: Seq<Seq<char>>|
                #[trigger] is_member_ranking(old(self)@, nodes)
                && 1 <= nodes.len() <= old(self)@.num_buckets
                && forall|b: int| 0 <= b < old(self)@.num_buckets
                    ==> final(self)@.owners[b] == chunk_owner(nodes, old(self)@.num_buckets, b),
    {
        let mut members: Vec<String> = table_keys(&self.node_connections);
        let ghost keys0 = members@;
        let ghost key_count = members@.len();
        members.push(self.self_node_id.clone());
        let sorted = sort_node_ids(&members);
        let ghost ranking = views_of(sorted@);
        proof {
            broadcast use vstd::seq_lib::group_to_multiset_ensures;

            lemma_lex_le_total_ordering();
            lemma_map_of_dom(self.node_connections@);
            lemma_map_of_unique_len(self.node_connections@);
            let mv = views_of(members@);
            views_of(members@).lemma_sort_by_ensures(lex_le_rel());
            assert(ranking.to_multiset() == mv.to_multiset());
            assert(mv.no_duplicates()) by {
                assert forall|p: int, q: int|
                    0 <= p < mv.len() && 0 <= q < mv.len() && p != q implies
                    mv[p] != mv[q] by {
                    let (a, b) = if p < q { (p, q) } else { (q, p) };
                    if b == mv.len() - 1 {
                        assert(members@[a] == keys0[a]);
                        assert(mv[a] == self.node_connections@[a].0@);
                        assert(mv[b] == self.self_node_id@);
                        if mv[a] == mv[b] {
                            assert(has_key(self.node_connections@, self.self_node_id@));
                        }
                    } else {
                        assert(members@[a] == keys0[a]);
                        assert(members@[b] == keys0[b]);
                        assert(mv[a] == self.node_connections@[a].0@);
                        assert(mv[b] == self.node_connections@[b].0@);
                    }
                }
            }
            mv.lemma_multiset_has_no_duplicates();
            assert forall|x: Seq<char>| ranking.to_multiset().contains(x)
                implies ranking.to_multiset().count(x) == 1 by {}
            ranking.lemma_multiset_has_no_duplicates_conv();
            assert forall|k: Seq<char>| #[trigger] ranking.contains(k)
                <==> (map_of(self.node_connections@).dom().contains(k)
                    || k == self.self_node_id@) by {
                if ranking.contains(k) {
                    assert(ranking.to_multiset().count(k) > 0);
                    assert(mv.to_multiset().count(k) > 0);
                    assert(mv.contains(k));
                    let i = choose|i: int| 0 <= i < mv.len() && mv[i] == k;
                    if i < mv.len() - 1 {
                        assert(mv[i] == self.node_connections@[i].0@);
                        assert(has_key(self.node_connections@, k));
                    } else {
                        assert(mv[i] == self.self_node_id@);
                    }
                }
                if map_of(self.node_connections@).dom().contains(k) {
                    assert(has_key(self.node_connections@, k));
                    let i = choose|i: int| 0 <= i < self.node_connections@.len()
                        && (#[trigger] self.node_connections@[i]).0@ == k;
                    assert(members@[i] == keys0[i]);
                    assert(keys0[i]@ == self.node_connections@[i].0@);
                    assert(mv[i] == k);
                    assert(mv.contains(k));
                    assert(mv.to_multiset().count(k) > 0);
                    assert(ranking.to_multiset().count(k) > 0);
                    assert(ranking.contains(k));
                }
                if k == self.self_node_id@ {
                    assert(mv[mv.len() - 1] == k);
                    assert(mv.contains(k));
                    assert(mv.to_multiset().count(k) > 0);
                    assert(ranking.to_multiset().count(k) > 0);
                    assert(ranking.contains(k));
                }
            }
            assert(is_member_ranking(self@, ranking));
            assert(ranking.to_multiset().len() == mv.to_multiset().len());
            assert(ranking.len() == mv.len());
            assert(mv.len() == members@.len());
            assert(ranking.len() == key_count + 1);
            assert(map_of(self.node_connections@).dom().len() == key_count);
            assert(ranking.len() <= self@.num_buckets);
        }
        let member_count: usize = sorted.len();
        let per: u64 = self.num_buckets / (member_count as u64);
        proof {
            assert(member_count as int == ranking.len());
            assert(1 <= member_count as int <= self.num_buckets as int);
            vstd::arithmetic::div_mod::lemma_fundamental_div_mod(
                self.num_buckets as int,
                member_count as int,
            );
            assert(per as int == self.num_buckets as int / member_count as int);
            vstd::arithmetic::div_mod::lemma_div_non_zero(
                self.num_buckets as int,
                member_count as int,
            );
            assert(per >= 1);
        }
        let ghost m0 = self@;
        let total: usize = self.bucket_owners.len();
        let mut b: u64 = 0;
        while b < self.num_buckets
            invariant
                self.wf(),
                total == self.num_buckets,
                b <= self.num_buckets,
                self.self_node_id == old(self).self_node_id,
                self.num_buckets == old(self).num_buckets,
                self.node_connections == old(self).node_connections,
                self.bucket_owners@.len() == self.num_buckets,
                member_count == ranking.len(),
                views_of(sorted@) == ranking,
                sorted@.len() == member_count,
                1 <= member_count <= self.num_buckets,
                per == self.num_buckets as int / member_count as int,
                per >= 1,
                forall|t: int| 0 <= t < b as int
                    ==> #[trigger] views_of(self.bucket_owners@)[t]
                        == chunk_owner(ranking, self.num_buckets as int, t),
            decreases self.num_buckets - b,
        {
            let q: u64 = b / per;
            let r: usize = if q >= member_count as u64 {
                member_count - 1
            } else {
                q as usize
            };
            let owner = sorted[r].clone();
            proof {
                assert((b as int) < self.bucket_owners@.len());
                assert(owner@ == ranking[r as int]);
                assert((q as int) == (b as int) / (per as int));
                assert(owner@ == chunk_owner(ranking, self.num_buckets as int, b as int));
                assert(views_of(self.bucket_owners@.update(b as int, owner))
                    =~= views_of(self.bucket_owners@).update(b as int, owner@));
            }
            self.bucket_owners.set(b as usize, owner);
            b = b + 1;
        }
        proof {
            assert(is_member_ranking(old(self)@, ranking));
            assert(map_of(self.node_connections@) == map_of(old(self).node_connections@));
        }
    }

    /// Applies a complete cluster state: syncs the peer table with the
    /// incoming address map and upserts every incoming bucket assignment.
    /// Returns the connections the caller must open — one pair per node
    /// that is named in the map but not yet connected.  Incoming buckets
    /// outside `[0, num_buckets)` are ignored: the count is fixed at
    /// cluster creation, so such a pair can only be a malformed message.
    pub fn update_cluster_state(
        &mut self,
        nodes_to_ips: &Vec<(String, String)>,
        buckets_to_nodes: &Vec<(u64, String)>,
    ) -> (to_connect: Vec<(String, String)>)
        requires
            old(self).wf(),
        ensures
            final(self).wf(),
            final(self)@.self_id == old(self)@.self_id,
            final(self)@.num_buckets == old(self)@.num_buckets,
            final(self)@.peers == merged_peers(
                old(self)@.peers,
                map_of(nodes_to_ips@),
                old(self)@.self_id,
            ),
            final(self)@.owners == upserted_owners(
                old(self)@.owners,
                bucket_map_of(buckets_to_nodes@),
            ),
            unique_keys(to_connect@),
            map_of(to_connect@) == map_of(nodes_to_ips@).remove(old(self)@.self_id).remove_keys(
                old(self)@.peers.dom(),
            ),
    {
        let ghost pairs = nodes_to_ips@;
        let ghost incoming = map_of(nodes_to_ips@);
        let ghost selfv = self.self_node_id@;
        let ghost old_peers = map_of(self.node_connections@);
        proof {
            lemma_map_of_dom(pairs);
            lemma_map_of_dom(self.node_connections@);
        }
        let mut next: Vec<(String, String)> = Vec::new();
        let mut to_connect: Vec<(String, String)> = Vec::new();
        let mut i: usize = nodes_to_ips.len();
        while i > 0
            invariant
                i <= pairs.len(),
                pairs == nodes_to_ips@,
                incoming == map_of(pairs),
                selfv == self.self_node_id@,
                old_peers == map_of(self.node_connections@),
                self == old(self),
                old(self).wf(),
                unique_keys(next@),
                unique_keys(to_connect@),
                forall|j: int| i as int <= j < pairs.len() && (#[trigger] pairs[j]).0@ != selfv
                    ==> map_of(next@).dom().contains(pairs[j].0@),
                forall|k: Seq<char>| #[trigger] map_of(next@).dom().contains(k)
                    ==> k != selfv && incoming.dom().contains(k),
                forall|k: Seq<char>| #[trigger] map_of(next@).dom().contains(k)
                    ==> map_of(next@)[k] == (if old_peers.dom().contains(k) {
                        old_peers[k]
                    } else {
                        incoming[k]
                    }),
                forall|k: Seq<char>| #[trigger] map_of(to_connect@).dom().contains(k)
                    ==> map_of(next@).dom().contains(k) && !old_peers.dom().contains(k)
                        && map_of(to_connect@)[k] == incoming[k],
                forall|k: Seq<char>| #[trigger] map_of(next@).dom().contains(k)
                    && !old_peers.dom().contains(k)
                    ==> map_of(to_connect@).dom().contains(k),
            decreases i,
        {
            i = i - 1;
            let ghost next0 = next@;
            let ghost connect0 = to_connect@;
            if nodes_to_ips[i].0 == self.self_node_id {
            } else if table_contains(&next, &nodes_to_ips[i].0) {
            } else {
                proof {
                    lemma_map_of_dom(next0);
                    assert forall|j: int| (i as int) < j < pairs.len()
                        implies (#[trigger] pairs[j]).0@ != pairs[i as int].0@ by {
                        if pairs[j].0@ == pairs[i as int].0@ && pairs[j].0@ != selfv {
                            assert(map_of(next0).dom().contains(pairs[j].0@));
                        }
                    }
                    lemma_map_of_last_occurrence(pairs, i as int);
                    assert(incoming.dom().contains(pairs[i as int].0@));
                    assert(incoming[pairs[i as int].0@] == pairs[i as int].1@);
                }
                match table_get(&self.node_connections, &nodes_to_ips[i].0) {
                    Some(old_address) => {
                        let pair = (nodes_to_ips[i].0.clone(), old_address);
                        proof {
                            lemma_map_of_push(next0, pair);
                        }
                        next.push(pair);
                    },
                    None => {
                        let pair = (nodes_to_ips[i].0.clone(), nodes_to_ips[i].1.clone());
                        let pair2 = (nodes_to_ips[i].0.clone(), nodes_to_ips[i].1.clone());
                        proof {
                            lemma_map_of_push(next0, pair);
                            lemma_map_of_dom(connect0);
                            assert(!has_key(connect0, pair2.0@)) by {
                                if has_key(connect0, pair2.0@) {
                                    assert(map_of(connect0).dom().contains(pair2.0@));
                                    assert(map_of(next0).dom().contains(pair2.0@));
                                }
                            }
                            lemma_map_of_push(connect0, pair2);
                        }
                        next.push(pair);
                        to_connect.push(pair2);
                    },
                }
            }
            proof {
                lemma_map_of_dom(next@);
                lemma_map_of_dom(to_connect@);
            }
        }
        proof {
            lemma_map_of_dom(next@);
            assert(map_of(next@) =~= merged_peers(old_peers, incoming, selfv)) by {
                assert forall|k: Seq<char>| incoming.dom().contains(k) && k != selfv
                    implies map_of(next@).dom().contains(k) by {
                    assert(has_key(pairs, k));
                    let j = choose|j: int| 0 <= j < pairs.len() && (#[trigger] pairs[j]).0@ == k;
                    assert(map_of(next@).dom().contains(pairs[j].0@));
                }
            }
            assert(map_of(to_connect@) =~= incoming.remove(selfv).remove_keys(old_peers.dom())) by {
                assert forall|k: Seq<char>|
                    incoming.remove(selfv).remove_keys(old_peers.dom()).dom().contains(k)
                    implies map_of(to_connect@).dom().contains(k) by {
                    assert(map_of(next@).dom().contains(k));
                }
            }
        }
        self.node_connections = next;
        let ghost bmap = bucket_map_of(buckets_to_nodes@);
        let total: usize = self.bucket_owners.len();
        let mut b: u64 = 0;
        while b < self.num_buckets
            invariant
                self.wf(),
                total == self.num_buckets,
                b <= self.num_buckets,
                bmap == bucket_map_of(buckets_to_nodes@),
                self.self_node_id == old(self).self_node_id,
                self.num_buckets == old(self).num_buckets,
                self.node_connections@ == next@,
                self.bucket_owners@.len() == self.num_buckets,
                views_of(old(self).bucket_owners@).len() == self.num_buckets as int,
                forall|t: int| 0 <= t < b as int
                    ==> #[trigger] views_of(self.bucket_owners@)[t]
                        == upserted_owners(views_of(old(self).bucket_owners@), bmap)[t],
                forall|t: int| b as int <= t < self.num_buckets as int
                    ==> #[trigger] views_of(self.bucket_owners@)[t]
                        == views_of(old(self).bucket_owners@)[t],
            decreases self.num_buckets - b,
        {
            match bucket_lookup(buckets_to_nodes, b) {
                Some(owner) => {
                    proof {
                        assert((b as int) < self.bucket_owners@.len());
                        assert(views_of(self.bucket_owners@.update(b as int, owner))
                            =~= views_of(self.bucket_owners@).update(b as int, owner@));
                    }
                    self.bucket_owners.set(b as usize, owner);
                },
                None => {},
            }
            b = b + 1;
        }
        proof {
            assert(views_of(self.bucket_owners@)
                =~= upserted_owners(views_of(old(self).bucket_owners@), bmap));
        }
        to_connect
    }

    /// Seeds a directory from a cluster-state snapshot, as a joining node
    /// does with what the leader sends back: the snapshot is applied as a
    /// complete state.  Any other response leaves the directory unchanged.
    /// Returns the connections the caller must open.
    pub fn init_bucket_nodes(&mut self, state: &CmdResponseEnum) -> (to_connect: Vec<(String, String)>)
        requires
            old(self).wf(),
        ensures
            final(self).wf(),
            final(self)@.self_id == old(self)@.self_id,
            final(self)@.num_buckets == old(self)@.num_buckets,
            match *state {
                CmdResponseEnum::ClusterState { ref nodes_to_ips, ref buckets_to_nodes } => {
                    &&& final(self)@.peers == merged_peers(
                        old(self)@.peers,
                        map_of(nodes_to_ips@),
                        old(self)@.self_id,
                    )
                    &&& final(self)@.owners == upserted_owners(
                        old(self)@.owners,
                        bucket_map_of(buckets_to_nodes@),
                    )
                    &&& unique_keys(to_connect@)
                    &&& map_of(to_connect@) == map_of(nodes_to_ips@).remove(
                        old(self)@.self_id,
                    ).remove_keys(old(self)@.peers.dom())
                },
                _ => final(self)@ == old(self)@ && to_connect@.len() == 0,
            },
    {
        match state {
            CmdResponseEnum::ClusterState { nodes_to_ips, buckets_to_nodes } => {
                self.update_cluster_state(nodes_to_ips, buckets_to_nodes)
            },
            _ => Vec::new(),
        }
    }

    /// Applies the reply to a `JoinCluster` command.  The reply carries the
    /// complete post-redistribution state, so the joining node applies it
    /// whole: this records its own buckets and also the leader's
    /// connection.  `None` — with the directory unchanged — means the reply
    /// was not a cluster-state update; otherwise the connections to open
    /// come back.
    pub fn apply_join_response(&mut self, response: &CommandsEnum) -> (r: Option<
        Vec<(String, String)>,
    >)
        requires
            old(self).wf(),
        ensures
            final(self).wf(),
            final(self)@.self_id == old(self)@.self_id,
            final(self)@.num_buckets == old(self)@.num_buckets,
            match *response {
                CommandsEnum::UpdateClusterState { ref nodes_to_ips, ref buckets_to_nodes } => {
                    &&& final(self)@.peers == merged_peers(
                        old(self)@.peers,
                        map_of(nodes_to_ips@),
                        old(self)@.self_id,
                    )
                    &&& final(self)@.owners == upserted_owners(
                        old(self)@.owners,
                        bucket_map_of(buckets_to_nodes@),
                    )
                    &&& r matches Some(to_connect) && unique_keys(to_connect@) && map_of(
                        to_connect@,
                    ) == map_of(nodes_to_ips@).remove(old(self)@.self_id).remove_keys(
                        old(self)@.peers.dom(),
                    )
                },
                _ => final(self)@ == old(self)@ && r is None,
            },
    {
        match response {
            CommandsEnum::UpdateClusterState { nodes_to_ips, buckets_to_nodes } => {
                Some(self.update_cluster_state(nodes_to_ips, buckets_to_nodes))
            },
            _ => None,
        }
    }

    /// A snapshot of the peer table: each connected node's id with its
    /// address.
    pub fn get_cluster_node_ips(&self) -> (r: Vec<(String, String)>)
        requires
            self.wf(),
        ensures
            unique_keys(r@),
            map_of(r@) == self@.peers,
    {
        let mut r: Vec<(String, String)> = Vec::new();
        let mut i: usize = 0;
        while i < self.node_connections.len()
            invariant
                i <= self.node_connections@.len(),
                r@ =~= self.node_connections@.subrange(0, i as int),
            decreases self.node_connections@.len() - i,
        {
            let node_id = self.node_connections[i].0.clone();
            let address = self.node_connections[i].1.clone();
            r.push((node_id, address));
            i = i + 1;
        }
        proof {
            assert(r@ =~= self.node_connections@);
        }
        r
    }
}

} // verus!
