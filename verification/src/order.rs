//! Lexicographic order on node ids.
//!
//! When bucket ownership is redistributed, the member nodes are ranked by
//! sorting their ids lexicographically, exactly as the standard library
//! orders strings: character by character by scalar value, a strict prefix
//! ordering before its extensions.  This module defines that order on
//! character sequences, proves it total, and provides a verified sort.

use vstd::prelude::*;
use vstd::relations::{sorted_by, total_ordering};
use vstd::seq_lib::group_to_multiset_ensures;
use vstd::seq_lib::lemma_sorted_unique;

verus! {

/// Strict lexicographic order on character sequences.
pub open spec fn lex_lt(a: Seq<char>, b: Seq<char>) -> bool
    decreases a.len(),
{
    if b.len() == 0 {
        false
    } else if a.len() == 0 {
        true
    } else if a[0] != b[0] {
        a[0] < b[0]
    } else {
        lex_lt(a.skip(1), b.skip(1))
    }
}

/// Lexicographic order, allowing equality.
pub open spec fn lex_le(a: Seq<char>, b: Seq<char>) -> bool {
    lex_lt(a, b) || a == b
}

/// The order as a binary relation, for use with the sequence library.
pub open spec fn lex_le_rel() -> spec_fn(Seq<char>, Seq<char>) -> bool {
    |a: Seq<char>, b: Seq<char>| lex_le(a, b)
}

/// The views of a list of strings.
pub open spec fn views_of(s: Seq<String>) -> Seq<Seq<char>> {
    s.map_values(|x: String| x@)
}

/// The strict order never holds both ways.
pub proof fn lemma_lex_lt_asymmetric(a: Seq<char>, b: Seq<char>)
    requires
        lex_lt(a, b),
    ensures
        !lex_lt(b, a),
    decreases a.len(),
{
    if b.len() == 0 {
    } else if a.len() == 0 {
    } else if a[0] != b[0] {
    } else {
        lemma_lex_lt_asymmetric(a.skip(1), b.skip(1));
    }
}

/// The strict order is transitive.
pub proof fn lemma_lex_lt_transitive(a: Seq<char>, b: Seq<char>, c: Seq<char>)
    requires
        lex_lt(a, b),
        lex_lt(b, c),
    ensures
        lex_lt(a, c),
    decreases a.len(),
{
    if c.len() == 0 {
    } else if b.len() == 0 {
    } else if a.len() == 0 {
    } else if a[0] == b[0] && b[0] == c[0] {
        lemma_lex_lt_transitive(a.skip(1), b.skip(1), c.skip(1));
    }
}

/// Any two sequences are ordered one way or the other.
pub proof fn lemma_lex_connected(a: Seq<char>, b: Seq<char>)
    ensures
        lex_le(a, b) || lex_le(b, a),
    decreases a.len(),
{
    if b.len() == 0 {
        if a.len() == 0 {
            assert(a =~= b);
        } else {
            assert(lex_lt(b, a));
        }
    } else if a.len() == 0 {
        assert(lex_lt(a, b));
    } else if a[0] != b[0] {
        if a[0] < b[0] {
            assert(lex_lt(a, b));
        } else {
            assert(lex_lt(b, a));
        }
    } else {
        lemma_lex_connected(a.skip(1), b.skip(1));
        if a.skip(1) == b.skip(1) {
            assert(a.skip(1).len() == a.len() - 1);
            assert(b.skip(1).len() == b.len() - 1);
            assert(a.len() == b.len());
            assert forall|i: int| 0 <= i < a.len() implies a[i] == b[i] by {
                if i > 0 {
                    assert(a[i] == a.skip(1)[i - 1]);
                    assert(b[i] == b.skip(1)[i - 1]);
                }
            }
            assert(a =~= b);
        }
    }
}

/// Lexicographic order, equality allowed, is a total ordering.
pub proof fn lemma_lex_le_total_ordering()
    ensures
        total_ordering(lex_le_rel()),
{
    let leq = lex_le_rel();
    assert forall|x: Seq<char>| #[trigger] leq(x, x) by {}
    assert forall|x: Seq<char>, y: Seq<char>| #[trigger] leq(x, y) && #[trigger] leq(y, x)
        implies x == y by {
        if x != y {
            lemma_lex_lt_asymmetric(x, y);
        }
    }
    assert forall|x: Seq<char>, y: Seq<char>, z: Seq<char>|
        #[trigger] leq(x, y) && #[trigger] leq(y, z) implies leq(x, z) by {
        if x != y && y != z {
            lemma_lex_lt_transitive(x, y, z);
        }
    }
    assert forall|x: Seq<char>, y: Seq<char>| #[trigger] leq(x, y) || #[trigger] leq(y, x) by {
        lemma_lex_connected(x, y);
    }
}

/// With equal prefixes of length `i`, the order is decided by the tails.
proof fn lemma_lex_lt_skip(a: Seq<char>, b: Seq<char>, i: int)
    requires
        0 <= i <= a.len(),
        i <= b.len(),
        forall|j: int| 0 <= j < i ==> a[j] == b[j],
    ensures
        lex_lt(a, b) == lex_lt(a.skip(i), b.skip(i)),
    decreases i,
{
    if i > 0 {
        assert(a[0] == b[0]);
        assert(a.len() > 0 && b.len() > 0);
        assert(lex_lt(a, b) == lex_lt(a.skip(1), b.skip(1)));
        assert forall|j: int| 0 <= j < i - 1 implies a.skip(1)[j] == b.skip(1)[j] by {
            assert(a[j + 1] == b[j + 1]);
        }
        lemma_lex_lt_skip(a.skip(1), b.skip(1), i - 1);
        assert(a.skip(1).skip(i - 1) =~= a.skip(i));
        assert(b.skip(1).skip(i - 1) =~= b.skip(i));
    } else {
        assert(a.skip(0) =~= a);
        assert(b.skip(0) =~= b);
    }
}

/// Whether `a` comes strictly before `b` in lexicographic order.
pub fn str_lt(a: &String, b: &String) -> (r: bool)
    ensures
        r == lex_lt(a@, b@),
{
    let a_len = a.as_str().unicode_len();
    let b_len = b.as_str().unicode_len();
    let mut i: usize = 0;
    loop
        invariant
            i <= a_len,
            i <= b_len,
            a_len == a@.len(),
            b_len == b@.len(),
            forall|j: int| 0 <= j < i ==> a@[j] == b@[j],
        decreases a_len - i,
    {
        proof {
            lemma_lex_lt_skip(a@, b@, i as int);
        }
        if i >= b_len {
            return false;
        }
        if i >= a_len {
            return true;
        }
        let ca = a.as_str().get_char(i);
        let cb = b.as_str().get_char(i);
        if ca != cb {
            return ca < cb;
        }
        i = i + 1;
    }
}

/// The member ids, sorted lexicographically: the rank order that bucket
/// redistribution assigns chunks by.
pub fn sort_node_ids(v: &Vec<String>) -> (r: Vec<String>)
    ensures
        views_of(r@) == views_of(v@).sort_by(lex_le_rel()),
{
    broadcast use group_to_multiset_ensures;

    let mut out: Vec<String> = Vec::new();
    let mut idx: usize = 0;
    while idx < v.len()
        invariant
            idx <= v@.len(),
            sorted_by(views_of(out@), lex_le_rel()),
            views_of(out@).to_multiset() == views_of(v@.subrange(0, idx as int)).to_multiset(),
        decreases v@.len() - idx,
    {
        let x = v[idx].clone();
        let mut j: usize = 0;
        while j < out.len() && str_lt(&out[j], &x)
            invariant
                j <= out@.len(),
                forall|t: int| 0 <= t < j ==> lex_lt(#[trigger] views_of(out@)[t], x@),
            decreases out@.len() - j,
        {
            j = j + 1;
        }
        proof {
            let outv = views_of(out@);
            let newv = outv.insert(j as int, x@);
            if (j as int) < outv.len() {
                lemma_lex_connected(x@, outv[j as int]);
                assert(lex_le(x@, outv[j as int]));
            }
            assert forall|t: int| j <= t < outv.len() implies lex_le(x@, #[trigger] outv[t]) by {
                if t > j {
                    assert(lex_le_rel()(outv[j as int], outv[t]));
                    if x@ != outv[j as int] && outv[j as int] != outv[t] {
                        lemma_lex_lt_transitive(x@, outv[j as int], outv[t]);
                    }
                }
            }
            assert forall|p: int, q: int| 0 <= p < q < newv.len() implies
                #[trigger] lex_le_rel()(newv[p], newv[q]) by {
                if q < j {
                    assert(lex_le_rel()(outv[p], outv[q]));
                } else if p > j {
                    assert(lex_le_rel()(outv[p - 1], outv[q - 1]));
                } else if q == j {
                    assert(newv[q] == x@ && newv[p] == outv[p]);
                    assert(lex_lt(outv[p], x@));
                } else if p == j {
                    assert(newv[p] == x@ && newv[q] == outv[q - 1]);
                    assert(lex_le(x@, outv[q - 1]));
                } else {
                    assert(p < j && j < q);
                    assert(newv[p] == outv[p] && newv[q] == outv[q - 1]);
                    assert(lex_lt(outv[p], x@));
                    assert(lex_le(x@, outv[q - 1]));
                    if x@ != outv[q - 1] {
                        lemma_lex_lt_transitive(outv[p], x@, outv[q - 1]);
                    }
                }
            }
            assert(sorted_by(newv, lex_le_rel()));
            assert(views_of(out@.insert(j as int, x)) =~= newv);
            vstd::seq_lib::to_multiset_insert(outv, j as int, x@);
            assert(newv.to_multiset() =~= outv.to_multiset().insert(x@));
            assert(views_of(v@.subrange(0, idx as int + 1))
                =~= views_of(v@.subrange(0, idx as int)).push(v@[idx as int]@));
            vstd::seq_lib::to_multiset_build(views_of(v@.subrange(0, idx as int)), x@);
            assert(views_of(v@.subrange(0, idx as int)).push(x@).to_multiset()
                =~= views_of(v@.subrange(0, idx as int)).to_multiset().insert(x@));
        }
        out.insert(j, x);
        idx = idx + 1;
    }
    proof {
        assert(v@.subrange(0, v@.len() as int) =~= v@);
        lemma_lex_le_total_ordering();
        views_of(v@).lemma_sort_by_ensures(lex_le_rel());
        lemma_sorted_unique(views_of(out@), views_of(v@).sort_by(lex_le_rel()), lex_le_rel());
    }
    out
}

} // verus!
