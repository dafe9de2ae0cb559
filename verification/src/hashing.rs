//! The hash that maps a key to its bucket.
//!
//! Every node of a cluster must hash a key to the same value, or the same
//! key would route to different owners on different nodes.  The standard
//! library documents that every `DefaultHasher` made by `DefaultHasher::new`
//! computes the same function, so the result depends on the key's
//! characters alone and may be given a name.

use std::hash::{DefaultHasher, Hash, Hasher};
use vstd::prelude::*;

verus! {

/// The value that `DefaultHasher` assigns to a string key.
pub uninterp spec fn hash_of(key: Seq<char>) -> u64;

/// The hash of a string key.
pub fn calculate_hash(key: &String) -> (r: u64)
    ensures
        r == hash_of(key@),
{
    default_hash(key)
}

/// Relies on `std::hash::DefaultHasher`: per its documentation, hashers
/// created by `DefaultHasher::new` all compute the same function, so the
/// result is a function of the key's characters alone.
#[verifier::external_body]
fn default_hash(key: &String) -> (r: u64)
    ensures
        r == hash_of(key@),
{
    let mut s = DefaultHasher::new();
    key.hash(&mut s);
    s.finish()
}

} // verus!
