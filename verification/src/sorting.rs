//! Merge sort of values tagged with their positions.
//!
//! The pairs are ordered by value, and by position among equal values, so
//! that equal values keep the order in which they stood.
use vstd::prelude::*;
use vstd::seq_lib::lemma_multiset_commutative;

verus! {

/// The pairs ascend by value, and by position among equal values.
pub open spec fn ascending_pairs(p: Seq<(i64, usize)>) -> bool {
    forall|a: int, b: int|
        0 <= a < b < p.len() ==> (#[trigger] p[a]).0 < (#[trigger] p[b]).0 || (p[a].0 == p[b].0
            && p[a].1 <= p[b].1)
}

/// Every pair of `p` may stand before `e` in an ascending sequence.
pub open spec fn all_up_to(p: Seq<(i64, usize)>, e: (i64, usize)) -> bool {
    forall|q: int|
        0 <= q < p.len() ==> (#[trigger] p[q]).0 < e.0 || (p[q].0 == e.0 && p[q].1 <= e.1)
}

fn precedes(a: (i64, usize), b: (i64, usize)) -> (r: bool)
    ensures
        r == (a.0 < b.0 || (a.0 == b.0 && a.1 <= b.1)),
{
    a.0 < b.0 || (a.0 == b.0 && a.1 <= b.1)
}

/// Merges two ascending sequences into one.
fn merge(left: &Vec<(i64, usize)>, right: &Vec<(i64, usize)>) -> (out: Vec<(i64, usize)>)
    requires
        ascending_pairs(left@),
        ascending_pairs(right@),
    ensures
        out@.to_multiset() == left@.to_multiset().add(right@.to_multiset()),
        ascending_pairs(out@),
{
    let mut out: Vec<(i64, usize)> = Vec::new();
    let mut i: usize = 0;
    let mut j: usize = 0;
    proof {
        let none = Seq::<(i64, usize)>::empty();
        lemma_multiset_commutative(none, none);
        assert(none + none =~= none);
        assert(out@ =~= none);
        assert(left@.take(0) =~= none);
        assert(right@.take(0) =~= none);
    }
    while i < left.len() || j < right.len()
        invariant
            i <= left@.len(),
            j <= right@.len(),
            ascending_pairs(left@),
            ascending_pairs(right@),
            ascending_pairs(out@),
            out@.to_multiset() == left@.take(i as int).to_multiset().add(
                right@.take(j as int).to_multiset(),
            ),
            i < left@.len() ==> all_up_to(out@, left@[i as int]),
            j < right@.len() ==> all_up_to(out@, right@[j as int]),
        decreases left@.len() - i + right@.len() - j,
    {
        let from_left: bool = if i >= left.len() {
            false
        } else if j >= right.len() {
            true
        } else {
            precedes(left[i], right[j])
        };
        if from_left {
            let e: (i64, usize) = left[i];
            proof {
                broadcast use vstd::multiset::group_multiset_axioms;
                broadcast use vstd::seq_lib::to_multiset_build;

                assert(left@.take(i + 1) =~= left@.take(i as int).push(e));
                assert(out@.push(e).to_multiset() =~= left@.take(i + 1).to_multiset().add(
                    right@.take(j as int).to_multiset(),
                ));
            }
            out.push(e);
            i = i + 1;
        } else {
            let e: (i64, usize) = right[j];
            proof {
                broadcast use vstd::multiset::group_multiset_axioms;
                broadcast use vstd::seq_lib::to_multiset_build;

                assert(right@.take(j + 1) =~= right@.take(j as int).push(e));
                assert(out@.push(e).to_multiset() =~= left@.take(i as int).to_multiset().add(
                    right@.take(j + 1).to_multiset(),
                ));
            }
            out.push(e);
            j = j + 1;
        }
    }
    proof {
        assert(left@.take(i as int) =~= left@);
        assert(right@.take(j as int) =~= right@);
    }
    out
}

/// Sorts positions `lo..hi` of `pairs` into a new vector.
fn sort_range(pairs: &Vec<(i64, usize)>, lo: usize, hi: usize) -> (out: Vec<(i64, usize)>)
    requires
        lo <= hi <= pairs@.len(),
    ensures
        out@.to_multiset() == pairs@.subrange(lo as int, hi as int).to_multiset(),
        ascending_pairs(out@),
    decreases hi - lo,
{
    if hi - lo <= 1 {
        let mut out: Vec<(i64, usize)> = Vec::new();
        if lo < hi {
            out.push(pairs[lo]);
        }
        proof {
            assert(out@ =~= pairs@.subrange(lo as int, hi as int));
        }
        out
    } else {
        let mid: usize = lo + (hi - lo) / 2;
        let left = sort_range(pairs, lo, mid);
        let right = sort_range(pairs, mid, hi);
        proof {
            let a = pairs@.subrange(lo as int, mid as int);
            let b = pairs@.subrange(mid as int, hi as int);
            assert(pairs@.subrange(lo as int, hi as int) =~= a + b);
            lemma_multiset_commutative(a, b);
        }
        merge(&left, &right)
    }
}

/// The pairs in ascending order: by value, and by position among equal
/// values. Every pair is kept, as often as it stood in `pairs`.
pub fn sort_pairs(pairs: &Vec<(i64, usize)>) -> (out: Vec<(i64, usize)>)
    ensures
        out@.to_multiset() == pairs@.to_multiset(),
        out@.len() == pairs@.len(),
        ascending_pairs(out@),
{
    let out = sort_range(pairs, 0, pairs.len());
    proof {
        assert(pairs@.subrange(0, pairs@.len() as int) =~= pairs@);
        out@.to_multiset_ensures();
        pairs@.to_multiset_ensures();
    }
    out
}

} // verus!
