//! What holds of every version: equality and ordering form a total order that
//! ignores trailing zeros, and a piece of text that is not a numeral counts
//! as a `0` segment.

use crate::model::{
    common_len, compare_versions, is_first_difference, lemma_lex_cmp_at, lemma_lex_cmp_none,
    padded, same_version, segment_at,
};
use crate::text::{
    digits_value, is_numeral, lemma_split_append, lemma_split_first_empty,
    lemma_split_last_empty, lemma_split_no_dots, lemma_split_nonempty, parse_segments,
    segment_value, split_on_dots,
};
use crate::version::Version;
use std::cmp::Ordering;
use vstd::prelude::*;

verus! {

/// `k` is the first position at which versions `a` and `b` differ, reading
/// positions past either end as zero.
pub open spec fn is_first_segment_difference(a: Seq<u64>, b: Seq<u64>, k: int) -> bool {
    &&& 0 <= k
    &&& segment_at(a, k) != segment_at(b, k)
    &&& forall|j: int| 0 <= j < k ==> segment_at(a, j) == segment_at(b, j)
}

/// A first differing segment decides the comparison.
proof fn lemma_compare_at(a: Seq<u64>, b: Seq<u64>, k: int)
    requires
        is_first_segment_difference(a, b, k),
    ensures
        compare_versions(a, b) == (if segment_at(a, k) < segment_at(b, k) {
            Ordering::Less
        } else {
            Ordering::Greater
        }),
        !same_version(a, b),
{
    let n = common_len(a, b);
    let x = padded(a, n);
    let y = padded(b, n);
    assert(k < n);
    assert forall|j: int| 0 <= j < k implies x[j] == y[j] by {
        assert(segment_at(a, j) == segment_at(b, j));
    }
    assert(is_first_difference(x, y, k));
    lemma_lex_cmp_at(x, y, k);
    assert(x[k] != y[k]);
}

/// Versions that agree at every position are equal.
proof fn lemma_compare_none(a: Seq<u64>, b: Seq<u64>)
    requires
        forall|i: int| 0 <= i ==> segment_at(a, i) == segment_at(b, i),
    ensures
        compare_versions(a, b) == Ordering::Equal,
        same_version(a, b),
{
    let n = common_len(a, b);
    let x = padded(a, n);
    let y = padded(b, n);
    assert forall|j: int| 0 <= j < x.len() implies x[j] == y[j] by {
        assert(segment_at(a, j) == segment_at(b, j));
    }
    lemma_lex_cmp_none(x, y);
    assert(x =~= y);
}

/// Where two versions differ, they differ first at or before that position.
proof fn lemma_first_segment_difference(a: Seq<u64>, b: Seq<u64>, k: int)
    requires
        0 <= k,
        segment_at(a, k) != segment_at(b, k),
    ensures
        exists|m: int| m <= k && #[trigger] is_first_segment_difference(a, b, m),
    decreases k,
{
    if forall|j: int| 0 <= j < k ==> segment_at(a, j) == segment_at(b, j) {
        assert(is_first_segment_difference(a, b, k));
    } else {
        let j = choose|j: int| 0 <= j < k && segment_at(a, j) != segment_at(b, j);
        lemma_first_segment_difference(a, b, j);
    }
}

/// Every version equals itself: text read twice gives equal versions.
pub proof fn lemma_parse_reflexive(s: Seq<char>)
    ensures
        same_version(parse_segments(s), parse_segments(s)),
        compare_versions(parse_segments(s), parse_segments(s)) == Ordering::Equal,
{
    lemma_compare_none(parse_segments(s), parse_segments(s));
}

/// Appending zero segments to a version gives an equal version.
pub proof fn lemma_trailing_zeros(v: Seq<u64>, k: nat)
    ensures
        same_version(v, v + Seq::new(k, |i: int| 0u64)),
        compare_versions(v, v + Seq::new(k, |i: int| 0u64)) == Ordering::Equal,
{
    let w = v + Seq::new(k, |i: int| 0u64);
    assert forall|i: int| 0 <= i implies segment_at(v, i) == segment_at(w, i) by {
        if i < v.len() {
            assert(w[i] == v[i]);
        } else if i < w.len() {
            assert(w[i] == 0u64);
        }
    }
    lemma_compare_none(v, w);
}

/// Any two versions compare in exactly one way: `a == b` holds exactly when
/// the comparison says equal, and `a < b` exactly when `b > a`.
pub proof fn lemma_total_order(a: Version, b: Version)
    ensures
        same_version(a@, b@) <==> compare_versions(a@, b@) == Ordering::Equal,
        same_version(a@, b@) <==> same_version(b@, a@),
        compare_versions(a@, b@) == Ordering::Less <==> compare_versions(b@, a@)
            == Ordering::Greater,
        compare_versions(a@, b@) == Ordering::Greater <==> compare_versions(b@, a@)
            == Ordering::Less,
{
    let (x, y) = (a@, b@);
    if forall|i: int| 0 <= i ==> segment_at(x, i) == segment_at(y, i) {
        lemma_compare_none(x, y);
        lemma_compare_none(y, x);
    } else {
        let i = choose|i: int| 0 <= i && segment_at(x, i) != segment_at(y, i);
        lemma_first_segment_difference(x, y, i);
        let k = choose|k: int| k <= i && is_first_segment_difference(x, y, k);
        lemma_compare_at(x, y, k);
        assert(is_first_segment_difference(y, x, k));
        lemma_compare_at(y, x, k);
    }
}

/// The order is transitive: `a <= b` and `b <= c` give `a <= c`.
pub proof fn lemma_transitive(a: Version, b: Version, c: Version)
    requires
        compare_versions(a@, b@) != Ordering::Greater,
        compare_versions(b@, c@) != Ordering::Greater,
    ensures
        compare_versions(a@, c@) != Ordering::Greater,
{
    let (x, y, z) = (a@, b@, c@);
    if compare_versions(x, z) == Ordering::Greater {
        if forall|i: int| 0 <= i ==> segment_at(x, i) == segment_at(z, i) {
            lemma_compare_none(x, z);
        } else {
            let i = choose|i: int| 0 <= i && segment_at(x, i) != segment_at(z, i);
            lemma_first_segment_difference(x, z, i);
            let k = choose|k: int| k <= i && is_first_segment_difference(x, z, k);
            lemma_compare_at(x, z, k);
            if exists|j: int| 0 <= j <= k && segment_at(x, j) != segment_at(y, j) {
                let j = choose|j: int| 0 <= j <= k && segment_at(x, j) != segment_at(y, j);
                lemma_first_segment_difference(x, y, j);
                let m = choose|m: int| m <= j && is_first_segment_difference(x, y, m);
                lemma_compare_at(x, y, m);
                assert(is_first_segment_difference(y, z, m));
                lemma_compare_at(y, z, m);
            } else {
                assert(is_first_segment_difference(y, z, k));
                lemma_compare_at(y, z, k);
            }
        }
    }
}

/// A segment that is not a numeral fitting in a `u64` (such as `1-rc1`,
/// `beta`, `+3` or an empty one) reads exactly as a literal `0` segment in
/// its place: the two texts give the same segments.
pub proof fn lemma_unparsable_segment(pre: Seq<char>, piece: Seq<char>, post: Seq<char>)
    requires
        pre.len() == 0 || pre.last() == '.',
        post.len() == 0 || post[0] == '.',
        forall|i: int| 0 <= i < piece.len() ==> piece[i] != '.',
        !is_numeral(piece) || digits_value(piece) > u64::MAX,
    ensures
        parse_segments(pre + piece + post) == parse_segments(pre + seq!['0'] + post),
{
    let zero = seq!['0'];
    assert(zero.drop_last() =~= Seq::<char>::empty());
    assert(zero.last() == '0');
    assert(digits_value(Seq::<char>::empty()) == 0);
    assert(digits_value(zero) == 0);
    assert(segment_value(zero) == 0);
    assert(segment_value(piece) == 0);
    lemma_split_nonempty(pre);
    lemma_split_last_empty(pre);
    lemma_split_first_empty(post);
    lemma_split_nonempty(post);
    let head = split_on_dots(pre).drop_last();
    let tail = split_on_dots(post).drop_first();
    assert forall|p: Seq<char>| p == piece || p == zero implies split_on_dots(pre + p + post)
        == head + seq![p] + tail by {
        lemma_split_no_dots(piece);
        assert forall|i: int| 0 <= i < zero.len() implies zero[i] != '.' by {}
        lemma_split_no_dots(zero);
        lemma_split_append(pre, p);
        assert(Seq::<char>::empty() + p =~= p);
        assert(seq![p].drop_first() =~= Seq::<Seq<char>>::empty());
        assert(split_on_dots(pre + p) =~= head + seq![p]);
        lemma_split_append(pre + p, post);
        assert(p + Seq::<char>::empty() =~= p);
        assert((head + seq![p]).drop_last() =~= head);
    }
    let f = |q: Seq<char>| segment_value(q);
    let with_piece = head + seq![piece] + tail;
    let with_zero = head + seq![zero] + tail;
    assert(with_piece.map_values(f) =~= with_zero.map_values(f)) by {
        assert forall|i: int| 0 <= i < with_piece.len() implies with_piece.map_values(f)[i]
            == with_zero.map_values(f)[i] by {
            if i != head.len() {
                assert(with_piece[i] == with_zero[i]);
            }
        }
    }
}

} // verus!
