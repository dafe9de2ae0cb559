//! Bucket-to-node pair lists, as they travel in state-sync messages.
//!
//! A cluster-state message carries bucket ownership as a list of
//! `(bucket, node)` pairs.  This module gives such a list its reading as a
//! `Map<u64, Seq<char>>` — a later pair wins over an earlier one with the
//! same bucket — and a verified lookup.

use vstd::prelude::*;

verus! {

/// The bucket mapping that a pair list denotes; a later pair wins.
pub open spec fn bucket_map_of(s: Seq<(u64, String)>) -> Map<u64, Seq<char>>
    decreases s.len(),
{
    if s.len() == 0 {
        Map::empty()
    } else {
        bucket_map_of(s.drop_last()).insert(s.last().0, s.last().1@)
    }
}

/// Pairs at and after index `i` say nothing about bucket `b`, so the prefix
/// before `i` decides it.
proof fn lemma_bucket_map_prefix(s: Seq<(u64, String)>, i: int, b: u64)
    requires
        0 <= i <= s.len(),
        forall|j: int| i <= j < s.len() ==> (#[trigger] s[j]).0 != b,
    ensures
        bucket_map_of(s).dom().contains(b) == bucket_map_of(s.subrange(0, i)).dom().contains(b),
        bucket_map_of(s).dom().contains(b) ==> bucket_map_of(s)[b] == bucket_map_of(s.subrange(0, i))[b],
    decreases s.len() - i,
{
    if i == s.len() {
        assert(s.subrange(0, i) =~= s);
    } else {
        assert(s.last().0 != b);
        lemma_bucket_map_prefix(s.drop_last(), i, b);
        assert(s.drop_last() =~= s.subrange(0, s.len() - 1));
        assert(s.drop_last().subrange(0, i) =~= s.subrange(0, i));
    }
}

/// The last pair that names a bucket decides its node.
pub proof fn lemma_bucket_map_last_occurrence(s: Seq<(u64, String)>, i: int)
    requires
        0 <= i < s.len(),
        forall|j: int| i < j < s.len() ==> (#[trigger] s[j]).0 != s[i].0,
    ensures
        bucket_map_of(s).dom().contains(s[i].0),
        bucket_map_of(s)[s[i].0] == s[i].1@,
{
    lemma_bucket_map_prefix(s, i + 1, s[i].0);
    let p = s.subrange(0, i + 1);
    assert(p.last() == s[i]);
}

/// A copy of a bucket pair list.
pub fn copy_bucket_pairs(v: &Vec<(u64, String)>) -> (r: Vec<(u64, String)>)
    ensures
        r@ == v@,
{
    let mut r: Vec<(u64, String)> = Vec::new();
    let mut i: usize = 0;
    while i < v.len()
        invariant
            i <= v@.len(),
            r@ =~= v@.subrange(0, i as int),
        decreases v@.len() - i,
    {
        r.push((v[i].0, v[i].1.clone()));
        i = i + 1;
    }
    proof {
        assert(r@ =~= v@);
    }
    r
}

/// The node that the message assigns to bucket `b`, or `None` if the
/// message does not mention it.
pub fn bucket_lookup(pairs: &Vec<(u64, String)>, b: u64) -> (r: Option<String>)
    ensures
        match r {
            Some(node) => bucket_map_of(pairs@).dom().contains(b)
                && node@ == bucket_map_of(pairs@)[b],
            None => !bucket_map_of(pairs@).dom().contains(b),
        },
{
    let mut i: usize = pairs.len();
    while i > 0
        invariant
            i <= pairs@.len(),
            forall|j: int| i <= j < pairs@.len() ==> (#[trigger] pairs@[j]).0 != b,
        decreases i,
    {
        i = i - 1;
        if pairs[i].0 == b {
            proof {
                lemma_bucket_map_last_occurrence(pairs@, i as int);
            }
            return Some(pairs[i].1.clone());
        }
    }
    proof {
        lemma_bucket_map_prefix(pairs@, 0, b);
        assert(pairs@.subrange(0, 0) =~= Seq::empty());
    }
    None
}

} // verus!
