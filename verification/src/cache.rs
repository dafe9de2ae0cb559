//! The cache engine: the key-to-value mapping and the time-to-live queue
//! for locally owned keys.
//!
//! `put` always succeeds, overwriting both the prior value and the prior
//! expiry of the key.  Expiry is lazy: `get` and `exists` answer from the
//! value mapping alone, and a periodic sweep (`reap_expired`) removes every
//! entry whose expiry lies strictly before the sweep's clock reading, so a
//! key can stay visible for up to one sweep interval past its nominal
//! time-to-live.  The clock is handed in by the caller as seconds; the
//! engine itself never reads the time.
//!
//! The expiry queue is `priority_queue::PriorityQueue`, used through trusted
//! declarations below: priorities are `Reverse`d expiry times, so the
//! queue's greatest priority is the earliest expiry.

use std::cmp::Reverse;
use priority_queue::PriorityQueue;
use crate::table::{map_of, unique_keys, table_contains, table_get, table_insert, table_remove};
use vstd::prelude::*;

verus! {

#[verifier::external_type_specification]
#[verifier::external_body]
#[verifier::reject_recursive_types(I)]
#[verifier::reject_recursive_types(P)]
#[verifier::reject_recursive_types(H)]
pub struct ExPriorityQueue<I, P, H>(PriorityQueue<I, P, H>);

#[verifier::external_type_specification]
#[verifier::external_body]
#[verifier::reject_recursive_types(T)]
pub struct ExReverse<T>(Reverse<T>);

/// The expiry queue: each queued key with the time, in seconds, at which it
/// falls due.
pub type TtlQueue = PriorityQueue<String, Reverse<u64>>;

/// What a `TtlQueue` holds: each queued key with its expiry time.
pub uninterp spec fn expiry_of(q: TtlQueue) -> Map<Seq<char>, u64>;

/// Relies on `priority_queue::PriorityQueue::new`: the queue starts empty.
#[verifier::external_body]
fn ttl_queue_new() -> (queue: TtlQueue)
    ensures
        forall|k: Seq<char>| !expiry_of(queue).dom().contains(k),
{
    PriorityQueue::new()
}

/// Relies on `priority_queue::PriorityQueue::push`: it inserts the item
/// with the given priority, and if an equal item is already queued it
/// updates that item's priority instead of queueing a duplicate.
#[verifier::external_body]
fn ttl_queue_push(q: &mut TtlQueue, key: &String, expiry: u64)
    ensures
        expiry_of(*final(q)) == expiry_of(*old(q)).insert(key@, expiry),
{
    q.push(key.clone(), Reverse(expiry));
}

/// Relies on `priority_queue::PriorityQueue::pop`: it removes and returns
/// an entry with the greatest priority — under `Reverse`, one whose expiry
/// is no later than any other queued entry's — and returns `None` exactly
/// when the queue is empty.
#[verifier::external_body]
fn ttl_queue_pop(q: &mut TtlQueue) -> (r: Option<(String, u64)>)
    ensures
        match r {
            None => {
                &&& expiry_of(*old(q)) == Map::<Seq<char>, u64>::empty()
                &&& expiry_of(*final(q)) == expiry_of(*old(q))
            },
            Some(entry) => {
                &&& expiry_of(*old(q)).dom().contains(entry.0@)
                &&& expiry_of(*old(q))[entry.0@] == entry.1
                &&& forall|k: Seq<char>| expiry_of(*old(q)).dom().contains(k)
                    ==> entry.1 <= #[trigger] expiry_of(*old(q))[k]
                &&& expiry_of(*final(q)) == expiry_of(*old(q)).remove(entry.0@)
            },
        },
{
    q.pop().map(|entry: (String, Reverse<u64>)| (entry.0, entry.1.0))
}

/// The cache engine's mathematical state: the value mapping and the expiry
/// queue's contents.  The two always cover the same keys, so every live key
/// has exactly one expiry entry.
pub struct CacheModel {
    pub values: Map<Seq<char>, Seq<char>>,
    pub expiries: Map<Seq<char>, u64>,
}

/// What `put` does to the model: value and expiry of the key are both set,
/// overwriting what the key had before.
pub open spec fn cache_put(m: CacheModel, key: Seq<char>, value: Seq<char>, expiry: u64) -> CacheModel {
    CacheModel { values: m.values.insert(key, value), expiries: m.expiries.insert(key, expiry) }
}

/// The keys not yet due at time `now`: an entry expires only once its
/// expiry lies strictly before the clock.
pub open spec fn live_keys(m: CacheModel, now: u64) -> Set<Seq<char>> {
    Set::new(|k: Seq<char>| m.expiries.dom().contains(k) && m.expiries[k] >= now)
}

/// What a sweep at time `now` does to the model: exactly the entries no
/// longer live are removed from both mappings.
pub open spec fn cache_reap(m: CacheModel, now: u64) -> CacheModel {
    CacheModel {
        values: m.values.restrict(live_keys(m, now)),
        expiries: m.expiries.restrict(live_keys(m, now)),
    }
}

/// Time-to-live expiry: a key put with time-to-live `ttl` at clock reading
/// `t_put` has a live entry immediately after the put, and one sweep whose
/// clock reading lies past `t_put + ttl` removes it, with no further
/// writes.
pub proof fn lemma_ttl_expiry(
    m: CacheModel,
    key: Seq<char>,
    value: Seq<char>,
    ttl: u64,
    t_put: u64,
    t_sweep: u64,
)
    requires
        t_put + ttl <= u64::MAX,
        t_put + ttl < t_sweep,
    ensures
        cache_put(m, key, value, (t_put + ttl) as u64).values.dom().contains(key),
        !cache_reap(cache_put(m, key, value, (t_put + ttl) as u64), t_sweep).values.dom().contains(
            key,
        ),
{
    let put = cache_put(m, key, value, (t_put + ttl) as u64);
    assert(!live_keys(put, t_sweep).contains(key));
}

/// Overwrite refreshes the time-to-live: putting the same key twice leaves
/// exactly one entry for it — the key's single slot in both mappings —
/// whose value and expiry are the second put's.
pub proof fn lemma_overwrite_refreshes_ttl(
    m: CacheModel,
    key: Seq<char>,
    v1: Seq<char>,
    v2: Seq<char>,
    e1: u64,
    e2: u64,
)
    ensures
        cache_put(cache_put(m, key, v1, e1), key, v2, e2) == cache_put(m, key, v2, e2),
        cache_put(cache_put(m, key, v1, e1), key, v2, e2).expiries[key] == e2,
        cache_put(cache_put(m, key, v1, e1), key, v2, e2).expiries.dom() == m.expiries.dom().insert(
            key,
        ),
{
    let twice = cache_put(cache_put(m, key, v1, e1), key, v2, e2);
    let once = cache_put(m, key, v2, e2);
    assert(twice.values =~= once.values);
    assert(twice.expiries =~= once.expiries);
    assert(twice.expiries.dom() =~= m.expiries.dom().insert(key));
}

/// The cache engine.  It owns the value mapping and the expiry queue; a key
/// is present in the value mapping iff it has a queued expiry.
pub struct Cache {
    entries: Vec<(String, String)>,
    ttl_queue: TtlQueue,
}

impl View for Cache {
    type V = CacheModel;

    closed spec fn view(&self) -> CacheModel {
        CacheModel { values: map_of(self.entries@), expiries: expiry_of(self.ttl_queue) }
    }
}

impl Cache {
    /// The engine's invariant: distinct keys in the value table, and value
    /// mapping and expiry queue covering the same keys.
    pub closed spec fn wf(self) -> bool {
        &&& unique_keys(self.entries@)
        &&& map_of(self.entries@).dom() == expiry_of(self.ttl_queue).dom()
        &&& expiry_of(self.ttl_queue).dom().finite()
    }

    /// The invariant, seen through the model: both mappings cover the same
    /// keys, so a key never has more than one live expiry entry.
    pub proof fn lemma_wf_model(self)
        requires
            self.wf(),
        ensures
            self@.values.dom() == self@.expiries.dom(),
            self@.expiries.dom().finite(),
    {
    }

    /// An empty cache.  The reaping sweep is not started here: the caller
    /// owns the clock and calls `reap_expired` on its own schedule.
    pub fn new() -> (c: Cache)
        ensures
            c.wf(),
            c@.values == Map::<Seq<char>, Seq<char>>::empty(),
            c@.expiries == Map::<Seq<char>, u64>::empty(),
    {
        let c = Cache { entries: Vec::new(), ttl_queue: ttl_queue_new() };
        proof {
            assert(map_of(c.entries@).dom() =~= expiry_of(c.ttl_queue).dom());
        }
        c
    }

    /// Inserts or overwrites the value of `key` and sets its expiry to
    /// `now + ttl` seconds, refreshing any expiry the key had.
    pub fn put(&mut self, key: &String, value: &String, ttl: u64, now: u64)
        requires
            old(self).wf(),
            now + ttl <= u64::MAX,
        ensures
            final(self).wf(),
            final(self)@ == cache_put(old(self)@, key@, value@, (now + ttl) as u64),
    {
        table_insert(&mut self.entries, key, value.clone());
        ttl_queue_push(&mut self.ttl_queue, key, now + ttl);
        proof {
            assert(map_of(self.entries@).dom() =~= expiry_of(self.ttl_queue).dom());
        }
    }

    /// A copy of the current value of `key`; absence is a valid outcome,
    /// not an error.  A key already due but not yet swept is still
    /// returned.
    pub fn get(&self, key: &String) -> (r: Option<String>)
        requires
            self.wf(),
        ensures
            match r {
                Some(value) => self@.values.dom().contains(key@) && value@ == self@.values[key@],
                None => !self@.values.dom().contains(key@),
            },
    {
        table_get(&self.entries, key)
    }

    /// Whether `key` currently has a live entry.  (The name `exists` is a
    /// reserved word of the verifier, so the method carries this one.)
    pub fn key_exists(&self, key: &String) -> (r: bool)
        requires
            self.wf(),
        ensures
            r == self@.values.dom().contains(key@),
    {
        table_contains(&self.entries, key)
    }

    /// One reaping sweep at time `now`: repeatedly removes the entry with
    /// the earliest expiry while that expiry lies strictly before `now`,
    /// from the value mapping and the queue both, and stops as soon as the
    /// earliest remaining entry is still due in the future.
    pub fn reap_expired(&mut self, now: u64)
        requires
            old(self).wf(),
        ensures
            final(self).wf(),
            final(self)@ == cache_reap(old(self)@, now),
    {
        let ghost m0 = self@;
        loop
            invariant
                self.wf(),
                self@.expiries.dom().subset_of(m0.expiries.dom()),
                forall|k: Seq<char>| self@.expiries.dom().contains(k)
                    ==> #[trigger] self@.expiries[k] == m0.expiries[k],
                forall|k: Seq<char>| self@.values.dom().contains(k)
                    ==> #[trigger] self@.values[k] == m0.values[k],
                forall|k: Seq<char>| m0.expiries.dom().contains(k) && m0.expiries[k] >= now
                    ==> #[trigger] self@.expiries.dom().contains(k),
            ensures
                self@.expiries.dom() =~= live_keys(m0, now),
            decreases self@.expiries.dom().len(),
        {
            let ghost prev = self@;
            let ghost pre = self@.expiries;
            let due = ttl_queue_pop(&mut self.ttl_queue);
            match due {
                None => {
                    proof {
                        assert forall|k: Seq<char>| live_keys(m0, now).contains(k)
                            implies self@.expiries.dom().contains(k) by {
                            assert(pre.dom().contains(k));
                        }
                        assert(self@.expiries.dom() =~= live_keys(m0, now));
                    }
                    break;
                },
                Some(entry) => {
                    if entry.1 >= now {
                        ttl_queue_push(&mut self.ttl_queue, &entry.0, entry.1);
                        proof {
                            assert(self@.expiries =~= pre.remove(entry.0@).insert(entry.0@, entry.1));
                            assert(self@.expiries =~= pre);
                            assert forall|k: Seq<char>| self@.expiries.dom().contains(k)
                                implies live_keys(m0, now).contains(k) by {
                                assert(pre.dom().contains(k));
                                assert(entry.1 <= pre[k]);
                                assert(m0.expiries.dom().contains(k));
                                assert(prev.expiries[k] == m0.expiries[k]);
                            }
                            assert forall|k: Seq<char>| live_keys(m0, now).contains(k)
                                implies self@.expiries.dom().contains(k) by {
                                assert(pre.dom().contains(k));
                            }
                            assert(self@.expiries.dom() =~= live_keys(m0, now));
                        }
                        break;
                    } else {
                        table_remove(&mut self.entries, &entry.0);
                        proof {
                            assert(map_of(self.entries@).dom() =~= expiry_of(self.ttl_queue).dom());
                            assert(m0.expiries[entry.0@] == entry.1);
                            assert(self@.expiries == pre.remove(entry.0@));
                            assert(self@.values == prev.values.remove(entry.0@));
                            assert forall|k: Seq<char>| self@.values.dom().contains(k)
                                implies #[trigger] self@.values[k] == m0.values[k] by {
                                assert(self@.values[k] == prev.values[k]);
                            }
                            vstd::set::axiom_set_remove_len(pre.dom(), entry.0@);
                            assert(self@.expiries.dom().len() < pre.dom().len());
                        }
                    }
                },
            }
        }
        proof {
            assert(self@.expiries =~= m0.expiries.restrict(live_keys(m0, now)));
            assert(self@.values =~= m0.values.restrict(live_keys(m0, now)));
        }
    }
}

} // verus!
