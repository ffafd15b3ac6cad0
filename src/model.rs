//! The mathematical meaning of a version: a sequence of segments, compared
//! after padding the shorter one with zeros on the right.

use std::cmp::Ordering;
use vstd::prelude::*;

verus! {

/// Segment `i` of `s`, reading every position past the end as zero.
pub open spec fn segment_at(s: Seq<u64>, i: int) -> u64 {
    if 0 <= i < s.len() {
        s[i]
    } else {
        0
    }
}

/// `s` extended on the right with zeros to length `n` (for `n >= s.len()`).
pub open spec fn padded(s: Seq<u64>, n: nat) -> Seq<u64> {
    Seq::new(n, |i: int| segment_at(s, i))
}

/// The length that both sides are padded to before a comparison.
pub open spec fn common_len(a: Seq<u64>, b: Seq<u64>) -> nat {
    if a.len() >= b.len() {
        a.len()
    } else {
        b.len()
    }
}

/// `k` is the first position at which `x` and `y` differ.
pub open spec fn is_first_difference(x: Seq<u64>, y: Seq<u64>, k: int) -> bool {
    &&& 0 <= k < x.len()
    &&& k < y.len()
    &&& x[k] != y[k]
    &&& forall|j: int| 0 <= j < k ==> x[j] == y[j]
}

/// Lexicographic comparison of two sequences of the same length: the first
/// position where they differ decides; with none, they are equal.
pub open spec fn lex_cmp(x: Seq<u64>, y: Seq<u64>) -> Ordering {
    if exists|k: int| is_first_difference(x, y, k) {
        let k = choose|k: int| is_first_difference(x, y, k);
        if x[k] < y[k] {
            Ordering::Less
        } else {
            Ordering::Greater
        }
    } else {
        Ordering::Equal
    }
}

/// How version `a` orders against version `b`: both padded with zeros to the
/// longer length, then compared lexicographically.
pub open spec fn compare_versions(a: Seq<u64>, b: Seq<u64>) -> Ordering {
    lex_cmp(padded(a, common_len(a, b)), padded(b, common_len(a, b)))
}

/// Versions `a` and `b` are equal: after padding to the longer length, they
/// agree at every position.
pub open spec fn same_version(a: Seq<u64>, b: Seq<u64>) -> bool {
    padded(a, common_len(a, b)) == padded(b, common_len(a, b))
}

/// There is only one first difference.
pub proof fn lemma_first_difference_unique(x: Seq<u64>, y: Seq<u64>, k1: int, k2: int)
    requires
        is_first_difference(x, y, k1),
        is_first_difference(x, y, k2),
    ensures
        k1 == k2,
{
    if k1 < k2 {
        assert(x[k1] == y[k1]);
    } else if k2 < k1 {
        assert(x[k2] == y[k2]);
    }
}

/// `lex_cmp` is decided by a known first difference.
pub proof fn lemma_lex_cmp_at(x: Seq<u64>, y: Seq<u64>, k: int)
    requires
        is_first_difference(x, y, k),
    ensures
        lex_cmp(x, y) == (if x[k] < y[k] { Ordering::Less } else { Ordering::Greater }),
{
    let c = choose|c: int| is_first_difference(x, y, c);
    lemma_first_difference_unique(x, y, k, c);
}

/// Without a difference in range, `lex_cmp` finds the sequences equal.
pub proof fn lemma_lex_cmp_none(x: Seq<u64>, y: Seq<u64>)
    requires
        x.len() == y.len(),
        forall|j: int| 0 <= j < x.len() ==> x[j] == y[j],
    ensures
        lex_cmp(x, y) == Ordering::Equal,
{
}

} // verus!
