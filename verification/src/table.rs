//! A small string-to-string table, kept as a vector of key-value pairs
//! with pairwise distinct keys.
//!
//! The cache's value mapping and the cluster directory's peer table are both
//! keyed by opaque strings, compared character for character.  This module
//! gives the pair list its mathematical reading as a `Map<Seq<char>,
//! Seq<char>>` and the verified lookup, upsert and removal that the rest of
//! the crate builds on.

use vstd::prelude::*;

verus! {

/// The mapping that a pair list denotes; a later pair wins over an earlier
/// one with the same key.
pub open spec fn map_of(s: Seq<(String, String)>) -> Map<Seq<char>, Seq<char>>
    decreases s.len(),
{
    if s.len() == 0 {
        Map::empty()
    } else {
        map_of(s.drop_last()).insert(s.last().0@, s.last().1@)
    }
}

/// Some pair of the list has key `k`.
pub open spec fn has_key(s: Seq<(String, String)>, k: Seq<char>) -> bool {
    exists|i: int| 0 <= i < s.len() && (#[trigger] s[i]).0@ == k
}

/// No two pairs of the list share a key.
pub open spec fn unique_keys(s: Seq<(String, String)>) -> bool {
    forall|i: int, j: int| 0 <= i < j < s.len() ==> (#[trigger] s[i]).0@ != (#[trigger] s[j]).0@
}

/// The domain of the denoted mapping is finite and holds exactly the keys of
/// the list.
pub proof fn lemma_map_of_dom(s: Seq<(String, String)>)
    ensures
        map_of(s).dom().finite(),
        forall|k: Seq<char>| map_of(s).dom().contains(k) <==> has_key(s, k),
    decreases s.len(),
{
    if s.len() == 0 {
    } else {
        lemma_map_of_dom(s.drop_last());
        assert forall|k: Seq<char>| map_of(s).dom().contains(k) implies has_key(s, k) by {
            if k == s.last().0@ {
                assert((s[s.len() - 1]).0@ == k);
            } else {
                assert(map_of(s.drop_last()).dom().contains(k));
                assert(has_key(s.drop_last(), k));
                let i = choose|i: int| 0 <= i < s.drop_last().len() && (#[trigger] s.drop_last()[i]).0@ == k;
                assert(s.drop_last()[i] == s[i]);
                assert((s[i]).0@ == k);
            }
        }
        assert forall|k: Seq<char>| has_key(s, k) implies map_of(s).dom().contains(k) by {
            let i = choose|i: int| 0 <= i < s.len() && (#[trigger] s[i]).0@ == k;
            if i < s.len() - 1 {
                assert((s.drop_last()[i]).0@ == k);
                assert(has_key(s.drop_last(), k));
                assert(map_of(s.drop_last()).dom().contains(k));
            } else {
                assert(k == s.last().0@);
            }
        }
    }
}

/// Under distinct keys, the pair at any index gives the mapping's value at
/// its key.
pub proof fn lemma_map_of_index(s: Seq<(String, String)>, i: int)
    requires
        unique_keys(s),
        0 <= i < s.len(),
    ensures
        map_of(s).dom().contains(s[i].0@),
        map_of(s)[s[i].0@] == s[i].1@,
    decreases s.len(),
{
    lemma_map_of_dom(s);
    if i == s.len() - 1 {
    } else {
        assert(unique_keys(s.drop_last())) by {
            assert forall|p: int, q: int| 0 <= p < q < s.drop_last().len() implies
                (#[trigger] s.drop_last()[p]).0@ != (#[trigger] s.drop_last()[q]).0@ by {
                assert(s[p] == s.drop_last()[p]);
                assert(s[q] == s.drop_last()[q]);
            }
        }
        lemma_map_of_index(s.drop_last(), i);
        assert(s[i].0@ != s.last().0@);
        assert(s.drop_last()[i] == s[i]);
    }
}

/// Distinct keys survive dropping the last pair.
pub proof fn lemma_unique_drop_last(s: Seq<(String, String)>)
    requires
        unique_keys(s),
        s.len() > 0,
    ensures
        unique_keys(s.drop_last()),
{
    assert forall|p: int, q: int| 0 <= p < q < s.drop_last().len() implies
        (#[trigger] s.drop_last()[p]).0@ != (#[trigger] s.drop_last()[q]).0@ by {
        assert(s[p] == s.drop_last()[p]);
        assert(s[q] == s.drop_last()[q]);
    }
}

/// Replacing the pair at index `i` by one with the same key view rewrites
/// the mapping at that key.
pub proof fn lemma_map_of_update(s: Seq<(String, String)>, i: int, p: (String, String))
    requires
        unique_keys(s),
        0 <= i < s.len(),
        p.0@ == s[i].0@,
    ensures
        unique_keys(s.update(i, p)),
        map_of(s.update(i, p)) == map_of(s).insert(p.0@, p.1@),
    decreases s.len(),
{
    let t = s.update(i, p);
    assert forall|a: int, b: int| 0 <= a < b < t.len() implies
        (#[trigger] t[a]).0@ != (#[trigger] t[b]).0@ by {
        assert(s[a].0@ != s[b].0@);
    }
    if i == s.len() - 1 {
        assert(t.drop_last() =~= s.drop_last());
        assert(map_of(t) =~= map_of(s).insert(p.0@, p.1@));
    } else {
        lemma_unique_drop_last(s);
        assert(t.drop_last() =~= s.drop_last().update(i, p));
        assert(s.drop_last()[i] == s[i]);
        lemma_map_of_update(s.drop_last(), i, p);
        assert(t.last() == s.last());
        assert(s[i].0@ != s.last().0@);
        assert(map_of(t) =~= map_of(s).insert(p.0@, p.1@));
    }
}

/// Appending a pair with a fresh key extends the mapping.
pub proof fn lemma_map_of_push(s: Seq<(String, String)>, p: (String, String))
    requires
        unique_keys(s),
        !has_key(s, p.0@),
    ensures
        unique_keys(s.push(p)),
        map_of(s.push(p)) == map_of(s).insert(p.0@, p.1@),
{
    let t = s.push(p);
    assert forall|a: int, b: int| 0 <= a < b < t.len() implies
        (#[trigger] t[a]).0@ != (#[trigger] t[b]).0@ by {
        if b < t.len() - 1 {
            assert(s[a].0@ != s[b].0@);
        } else {
            assert((s[a]).0@ == t[a].0@);
        }
    }
    assert(t.drop_last() =~= s);
}

/// Removing the pair at index `i` removes its key from the mapping.
pub proof fn lemma_map_of_remove(s: Seq<(String, String)>, i: int)
    requires
        unique_keys(s),
        0 <= i < s.len(),
    ensures
        unique_keys(s.remove(i)),
        map_of(s.remove(i)) == map_of(s).remove(s[i].0@),
    decreases s.len(),
{
    let t = s.remove(i);
    assert forall|a: int, b: int| 0 <= a < b < t.len() implies
        (#[trigger] t[a]).0@ != (#[trigger] t[b]).0@ by {
        let a0 = if a < i { a } else { a + 1 };
        let b0 = if b < i { b } else { b + 1 };
        assert(t[a] == s[a0]);
        assert(t[b] == s[b0]);
        assert(s[a0].0@ != s[b0].0@);
    }
    lemma_unique_drop_last(s);
    lemma_map_of_dom(s.drop_last());
    if i == s.len() - 1 {
        assert(t =~= s.drop_last());
        assert(!has_key(s.drop_last(), s[i].0@)) by {
            if has_key(s.drop_last(), s[i].0@) {
                let j = choose|j: int| 0 <= j < s.drop_last().len()
                    && (#[trigger] s.drop_last()[j]).0@ == s[i].0@;
                assert(s[j].0@ == s[i].0@);
            }
        }
        assert(map_of(t) =~= map_of(s).remove(s[i].0@));
    } else {
        assert(t.drop_last() =~= s.drop_last().remove(i));
        assert(s.drop_last()[i] == s[i]);
        lemma_map_of_remove(s.drop_last(), i);
        assert(t.last() == s.last());
        assert(s[i].0@ != s.last().0@);
        assert(map_of(t) =~= map_of(s).remove(s[i].0@));
    }
}

/// Under distinct keys, the denoted mapping has one entry per pair.
pub proof fn lemma_map_of_unique_len(s: Seq<(String, String)>)
    requires
        unique_keys(s),
    ensures
        map_of(s).dom().len() == s.len(),
    decreases s.len(),
{
    lemma_map_of_dom(s);
    if s.len() > 0 {
        lemma_unique_drop_last(s);
        lemma_map_of_unique_len(s.drop_last());
        lemma_map_of_dom(s.drop_last());
        assert(!has_key(s.drop_last(), s.last().0@)) by {
            if has_key(s.drop_last(), s.last().0@) {
                let j = choose|j: int| 0 <= j < s.drop_last().len()
                    && (#[trigger] s.drop_last()[j]).0@ == s.last().0@;
                assert(s[j].0@ == s[s.len() - 1].0@);
            }
        }
        assert(map_of(s).dom() =~= map_of(s.drop_last()).dom().insert(s.last().0@));
    }
}

/// Pairs at and after index `i` say nothing about key `k`, so the prefix
/// before `i` decides it.
pub proof fn lemma_map_of_prefix(s: Seq<(String, String)>, i: int, k: Seq<char>)
    requires
        0 <= i <= s.len(),
        forall|j: int| i <= j < s.len() ==> (#[trigger] s[j]).0@ != k,
    ensures
        map_of(s).dom().contains(k) == map_of(s.subrange(0, i)).dom().contains(k),
        map_of(s).dom().contains(k) ==> map_of(s)[k] == map_of(s.subrange(0, i))[k],
    decreases s.len() - i,
{
    if i == s.len() {
        assert(s.subrange(0, i) =~= s);
    } else {
        assert(s.last().0@ != k);
        lemma_map_of_prefix(s.drop_last(), i, k);
        assert(s.drop_last() =~= s.subrange(0, s.len() - 1));
        assert(s.drop_last().subrange(0, i) =~= s.subrange(0, i));
    }
}

/// The last pair that holds a key decides its value.
pub proof fn lemma_map_of_last_occurrence(s: Seq<(String, String)>, i: int)
    requires
        0 <= i < s.len(),
        forall|j: int| i < j < s.len() ==> (#[trigger] s[j]).0@ != s[i].0@,
    ensures
        map_of(s).dom().contains(s[i].0@),
        map_of(s)[s[i].0@] == s[i].1@,
{
    lemma_map_of_prefix(s, i + 1, s[i].0@);
    let p = s.subrange(0, i + 1);
    assert(p.last() == s[i]);
}

/// The index of the pair holding `key`, if the table has one.
pub fn table_find(v: &Vec<(String, String)>, key: &String) -> (r: Option<usize>)
    ensures
        match r {
            Some(i) => i < v@.len() && v@[i as int].0@ == key@,
            None => !has_key(v@, key@),
        },
{
    let mut i: usize = 0;
    while i < v.len()
        invariant
            i <= v@.len(),
            forall|j: int| 0 <= j < i ==> (#[trigger] v@[j]).0@ != key@,
        decreases v@.len() - i,
    {
        if v[i].0 == *key {
            return Some(i);
        }
        i = i + 1;
    }
    None
}

/// Whether the table maps `key`.
pub fn table_contains(v: &Vec<(String, String)>, key: &String) -> (r: bool)
    ensures
        r == map_of(v@).dom().contains(key@),
{
    proof {
        lemma_map_of_dom(v@);
    }
    match table_find(v, key) {
        Some(i) => {
            proof {
                assert(has_key(v@, key@)) by {
                    assert((v@[i as int]).0@ == key@);
                }
            }
            true
        },
        None => false,
    }
}

/// A copy of the value at `key`, or `None` if the table does not map it.
pub fn table_get(v: &Vec<(String, String)>, key: &String) -> (r: Option<String>)
    requires
        unique_keys(v@),
    ensures
        match r {
            Some(value) => map_of(v@).dom().contains(key@) && value@ == map_of(v@)[key@],
            None => !map_of(v@).dom().contains(key@),
        },
{
    proof {
        lemma_map_of_dom(v@);
    }
    match table_find(v, key) {
        Some(i) => {
            proof {
                lemma_map_of_index(v@, i as int);
            }
            Some(v[i].1.clone())
        },
        None => None,
    }
}

/// Maps `key` to `value`, overwriting the pair that held `key` before, if
/// any.
pub fn table_insert(v: &mut Vec<(String, String)>, key: &String, value: String)
    requires
        unique_keys(old(v)@),
    ensures
        unique_keys(final(v)@),
        map_of(final(v)@) == map_of(old(v)@).insert(key@, value@),
{
    let pair = (key.clone(), value);
    match table_find(v, key) {
        Some(i) => {
            proof {
                lemma_map_of_update(v@, i as int, pair);
            }
            v.set(i, pair);
        },
        None => {
            proof {
                lemma_map_of_push(v@, pair);
            }
            v.push(pair);
        },
    }
}

/// Removes the pair holding `key`; a key the table does not map is left as
/// it is.
pub fn table_remove(v: &mut Vec<(String, String)>, key: &String)
    requires
        unique_keys(old(v)@),
    ensures
        unique_keys(final(v)@),
        map_of(final(v)@) == map_of(old(v)@).remove(key@),
{
    proof {
        lemma_map_of_dom(v@);
    }
    match table_find(v, key) {
        Some(i) => {
            proof {
                lemma_map_of_remove(v@, i as int);
            }
            v.remove(i);
        },
        None => {
            proof {
                assert(map_of(v@) =~= map_of(v@).remove(key@));
            }
        },
    }
}

/// A copy of a pair list.
pub fn copy_pairs(v: &Vec<(String, String)>) -> (r: Vec<(String, String)>)
    ensures
        r@ == v@,
{
    let mut r: Vec<(String, String)> = Vec::new();
    let mut i: usize = 0;
    while i < v.len()
        invariant
            i <= v@.len(),
            r@ =~= v@.subrange(0, i as int),
        decreases v@.len() - i,
    {
        r.push((v[i].0.clone(), v[i].1.clone()));
        i = i + 1;
    }
    proof {
        assert(r@ =~= v@);
    }
    r
}

/// A copy of the table's keys, in table order.
pub fn table_keys(v: &Vec<(String, String)>) -> (r: Vec<String>)
    ensures
        r@.len() == v@.len(),
        forall|i: int| 0 <= i < r@.len() ==> (#[trigger] r@[i])@ == v@[i].0@,
{
    let mut r: Vec<String> = Vec::new();
    let mut i: usize = 0;
    while i < v.len()
        invariant
            i <= v@.len(),
            r@.len() == i,
            forall|j: int| 0 <= j < i ==> (#[trigger] r@[j])@ == v@[j].0@,
        decreases v@.len() - i,
    {
        r.push(v[i].0.clone());
        i = i + 1;
    }
    r
}

} // verus!
