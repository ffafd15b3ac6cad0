//! The `Version` type.

use crate::model::{
    common_len, compare_versions, is_first_difference, lemma_lex_cmp_at, lemma_lex_cmp_none,
    lex_cmp, padded, same_version,
};
use crate::storage::{segments_as_slice, segments_from_vec, segments_held, Segments};
use crate::text::{parse_segments, parse_text};
use std::cmp::Ordering;
use vstd::prelude::*;

verus! {

/// A version identifier: its numeric segments, most significant first.
pub struct Version(Segments);

impl View for Version {
    type V = Seq<u64>;

    closed spec fn view(&self) -> Seq<u64> {
        segments_held(self.0)
    }
}

impl Version {
    /// The segments of both versions, each padded with zeros on the right to
    /// the longer of the two lengths. Neither version changes.
    fn normalize(left: &Self, right: &Self) -> (r: (Segments, Segments))
        ensures
            segments_held(r.0) == padded(left@, common_len(left@, right@)),
            segments_held(r.1) == padded(right@, common_len(left@, right@)),
    {
        let left_items = segments_as_slice(&left.0);
        let right_items = segments_as_slice(&right.0);
        let length = if left_items.len() >= right_items.len() {
            left_items.len()
        } else {
            right_items.len()
        };
        let left_padded = Self::with_padding(left_items, length);
        let right_padded = Self::with_padding(right_items, length);
        (left_padded, right_padded)
    }

    /// `items` followed by zeros, `total_length` segments in all.
    fn with_padding(items: &[u64], total_length: usize) -> (r: Segments)
        requires
            items@.len() <= total_length,
        ensures
            segments_held(r) == padded(items@, total_length as nat),
    {
        let mut out: Vec<u64> = Vec::new();
        let mut i: usize = 0;
        while i < total_length
            invariant
                items@.len() <= total_length,
                i <= total_length,
                out@ == padded(items@, i as nat),
            decreases total_length - i,
        {
            if i < items.len() {
                out.push(items[i]);
            } else {
                out.push(0);
            }
            assert(out@ =~= padded(items@, (i + 1) as nat));
            i = i + 1;
        }
        segments_from_vec(out)
    }

    /// Lexicographic comparison of two sequences of one length.
    fn compare_padded(x: &[u64], y: &[u64]) -> (r: Ordering)
        requires
            x@.len() == y@.len(),
        ensures
            r == lex_cmp(x@, y@),
    {
        let mut i: usize = 0;
        while i < x.len()
            invariant
                x@.len() == y@.len(),
                i <= x@.len(),
                forall|j: int| 0 <= j < i ==> x@[j] == y@[j],
            decreases x@.len() - i,
        {
            if x[i] != y[i] {
                proof {
                    assert(is_first_difference(x@, y@, i as int));
                    lemma_lex_cmp_at(x@, y@, i as int);
                }
                if x[i] < y[i] {
                    return Ordering::Less;
                } else {
                    return Ordering::Greater;
                }
            }
            i = i + 1;
        }
        proof {
            lemma_lex_cmp_none(x@, y@);
        }
        Ordering::Equal
    }

    /// How this version orders against `other`: both are padded with zeros to
    /// the longer length, and the first segment that differs decides.
    pub fn cmp(&self, other: &Self) -> (r: Ordering)
        ensures
            r == compare_versions(self@, other@),
    {
        let (this, that) = Self::normalize(self, other);
        Self::compare_padded(segments_as_slice(&this), segments_as_slice(&that))
    }

    /// Builds a version directly from its numeric segments.
    pub fn from_segments(segments: Vec<u64>) -> (r: Version)
        ensures
            r@ == segments@,
    {
        Version(segments_from_vec(segments))
    }

    /// Reads a version from text. This never fails: the text is split on `.`,
    /// and each piece that is not a plain decimal numeral fitting in a `u64`
    /// (a suffix such as `rc1`, a sign, an empty piece) counts as zero.
    pub fn parse(text: &str) -> (r: Version)
        ensures
            r@ == parse_segments(text@),
    {
        Self::from_segments(parse_text(text))
    }

    /// The stored segments, in order, without padding.
    pub fn segments(&self) -> (r: Vec<u64>)
        ensures
            r@ == self@,
    {
        let items = segments_as_slice(&self.0);
        let mut out: Vec<u64> = Vec::new();
        let mut i: usize = 0;
        while i < items.len()
            invariant
                i <= items@.len(),
                out@ == items@.take(i as int),
            decreases items@.len() - i,
        {
            out.push(items[i]);
            assert(out@ =~= items@.take(i + 1));
            i = i + 1;
        }
        assert(out@ =~= items@);
        out
    }

    /// The number of segments stored (no padding).
    pub fn len(&self) -> (r: usize)
        ensures
            r == self@.len(),
    {
        segments_as_slice(&self.0).len()
    }
}

impl std::str::FromStr for Version {
    type Err = std::convert::Infallible;

    /// Same as `Version::parse`; never an error.
    fn from_str(version: &str) -> (r: Result<Self, Self::Err>)
        ensures
            r is Ok,
            r->Ok_0@ == parse_segments(version@),
    {
        Ok(Self::parse(version))
    }
}

impl PartialEq for Version {
    /// Equal when, padded with zeros to the longer length, both versions
    /// agree at every segment.
    fn eq(&self, other: &Self) -> (r: bool) {
        let (this, that) = Self::normalize(self, other);
        let x = segments_as_slice(&this);
        let y = segments_as_slice(&that);
        let mut i: usize = 0;
        while i < x.len()
            invariant
                x@.len() == y@.len(),
                x@ == padded(self@, common_len(self@, other@)),
                y@ == padded(other@, common_len(self@, other@)),
                i <= x@.len(),
                forall|j: int| 0 <= j < i ==> x@[j] == y@[j],
            decreases x@.len() - i,
        {
            if x[i] != y[i] {
                return false;
            }
            i = i + 1;
        }
        assert(x@ =~= y@);
        true
    }
}

impl vstd::std_specs::cmp::PartialEqSpecImpl for Version {
    open spec fn obeys_eq_spec() -> bool {
        true
    }

    open spec fn eq_spec(&self, other: &Version) -> bool {
        same_version(self@, other@)
    }
}

impl Eq for Version {
}

impl PartialOrd for Version {
    /// Always `Some`: every two versions are comparable.
    fn partial_cmp(&self, other: &Self) -> (r: Option<Ordering>) {
        Some(self.cmp(other))
    }
}

impl vstd::std_specs::cmp::PartialOrdSpecImpl for Version {
    open spec fn obeys_partial_cmp_spec() -> bool {
        true
    }

    open spec fn partial_cmp_spec(&self, other: &Version) -> Option<Ordering> {
        Some(compare_versions(self@, other@))
    }
}

} // verus!
