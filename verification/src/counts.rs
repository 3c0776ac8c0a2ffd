//! Counting values in sequences, and the fact that a permutation (stated as
//! multiset equality, which is all the sorting network guarantees) preserves
//! every such count. This carries the fixed-weight property of the HPS
//! sampler through the oblivious sort.

use vstd::prelude::*;
use vstd::multiset::Multiset;

verus! {

broadcast use
    vstd::seq_lib::group_to_multiset_ensures,
    vstd::multiset::group_multiset_axioms,
    vstd::multiset::lemma_insert_len,
;

/// How many entries of s equal v.
pub open spec fn count16(s: Seq<u16>, v: u16) -> int
    decreases s.len(),
{
    if s.len() == 0 {
        0
    } else {
        count16(s.drop_last(), v) + if s.last() == v {
            1int
        } else {
            0int
        }
    }
}

/// How many entries of s have low two bits equal to v.
pub open spec fn count_tag(s: Seq<i32>, v: i32) -> int
    decreases s.len(),
{
    if s.len() == 0 {
        0
    } else {
        count_tag(s.drop_last(), v) + if s.last() & 3 == v {
            1int
        } else {
            0int
        }
    }
}

/// The tag count of a sequence is the size of the filtered multiset, so it
/// only depends on the sequence's multiset.
pub proof fn lemma_count_tag_is_filter(s: Seq<i32>, v: i32)
    ensures
        count_tag(s, v) == s.to_multiset().filter(|x: i32| x & 3 == v).len(),
    decreases s.len(),
{
    let p = |x: i32| x & 3 == v;
    if s.len() == 0 {
        assert(s.to_multiset() =~= Multiset::<i32>::empty());
        assert(s.to_multiset().filter(p) =~= Multiset::<i32>::empty());
    } else {
        let d = s.drop_last();
        let x = s.last();
        lemma_count_tag_is_filter(d, v);
        assert(s =~= d.push(x));
        assert(d.push(x).to_multiset() =~= d.to_multiset().insert(x));
        if p(x) {
            assert(s.to_multiset().filter(p) =~= d.to_multiset().filter(p).insert(x));
        } else {
            assert(s.to_multiset().filter(p) =~= d.to_multiset().filter(p));
        }
    }
}

/// Sequences with equal multisets have equal tag counts.
pub proof fn lemma_count_tag_permutation(s1: Seq<i32>, s2: Seq<i32>, v: i32)
    requires
        s1.to_multiset() == s2.to_multiset(),
    ensures
        count_tag(s1, v) == count_tag(s2, v),
{
    lemma_count_tag_is_filter(s1, v);
    lemma_count_tag_is_filter(s2, v);
}

/// A sequence whose entries are classified by position - tag 1 up to c1,
/// tag 2 up to c2, tag 0 beyond - has tag counts c1, c2 - c1 and len - c2.
pub proof fn lemma_count_tag_classified(s: Seq<i32>, c1: int, c2: int)
    requires
        0 <= c1 <= c2 <= s.len(),
        forall|i: int| 0 <= i < s.len() && i < c1 ==> (#[trigger] s[i]) & 3 == 1,
        forall|i: int| c1 <= i < s.len() && i < c2 ==> (#[trigger] s[i]) & 3 == 2,
        forall|i: int| c2 <= i < s.len() ==> (#[trigger] s[i]) & 3 == 0,
    ensures
        count_tag(s, 1) == c1,
        count_tag(s, 2) == c2 - c1,
        count_tag(s, 0) == s.len() - c2,
    decreases s.len(),
{
    if s.len() == 0 {
    } else {
        let d = s.drop_last();
        let n = s.len() - 1;
        let d1 = if c1 <= n { c1 } else { n };
        let d2 = if c2 <= n { c2 } else { n };
        lemma_count_tag_classified(d, d1, d2);
        assert(s.last() == s[n]);
        assert(s.last() & 3 == 1 || s.last() & 3 == 2 || s.last() & 3 == 0);
    }
}

/// If c is the element-wise low-two-bits image of s, every count of a
/// nonzero trinary value in c equals the matching tag count of s.
pub proof fn lemma_count_of_masked(s: Seq<i32>, c: Seq<u16>, v: u16)
    requires
        c.len() == s.len(),
        v <= 3,
        forall|i: int| 0 <= i < s.len() ==> 0 <= (#[trigger] s[i]) & 3 <= 3,
        forall|i: int| 0 <= i < s.len() ==> c[i] == ((#[trigger] s[i]) & 3) as u16,
    ensures
        count16(c, v) == count_tag(s, v as i32),
    decreases s.len(),
{
    if s.len() > 0 {
        lemma_count_of_masked(s.drop_last(), c.drop_last(), v);
        assert(c.last() == c[c.len() - 1]);
        assert(s.last() == s[s.len() - 1]);
    }
}

/// Counts are never negative.
pub proof fn lemma_count16_nonneg_pub(s: Seq<u16>, v: u16)
    ensures
        count16(s, v) >= 0,
    decreases s.len(),
{
    if s.len() > 0 {
        lemma_count16_nonneg_pub(s.drop_last(), v);
    }
}

/// Dropping the last element of a take is taking one fewer.
pub proof fn lemma_take_drop_last(s: Seq<u16>, n: int)
    requires
        0 < n <= s.len(),
    ensures
        s.take(n).drop_last() =~= s.take(n - 1),
        s.take(n).last() == s[n - 1],
{
}

} // verus!
