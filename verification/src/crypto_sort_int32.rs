//! Constant-time sorting of 32-bit signed integers: Batcher's merge exchange
//! followed by oblivious adjacent-exchange passes. Every compare-and-swap is
//! executed whatever the data holds, so the sequence of memory accesses is
//! independent of the input, and the contract pins the output as the
//! ascending reordering of the input.

use vstd::prelude::*;
use vstd::relations::total_ordering;
use vstd::seq_lib::lemma_sorted_unique;
use vstd::seq_lib::to_multiset_update;

verus! {

broadcast use
    vstd::seq_lib::group_to_multiset_ensures,
    vstd::multiset::group_multiset_axioms,
;

proof fn lemma_minmax_core(a0: i32, b0: i32, ab: i32, c0: i32, c1: i32, c2: i32, c3: i32, ra: i32, rb: i32)
    by (bit_vector)
    requires
        ab == b0 ^ a0,
        c0 == (b0 as i64 - a0 as i64) as i32,
        c1 == c0 ^ (ab & (c0 ^ b0)),
        c2 == c1 >> 31,
        c3 == c2 & ab,
        ra == a0 ^ c3,
        rb == b0 ^ c3,
    ensures
        a0 <= b0 ==> ra == a0 && rb == b0,
        a0 > b0 ==> ra == b0 && rb == a0,
{
}

/// Branch-free compare-and-swap: afterwards a holds the smaller and b the
/// larger of the two inputs. The mask trick corrects the wrapped difference
/// by borrowing the sign of b when the operands' signs differ.
pub fn int32_minmax(a: &mut i32, b: &mut i32)
    ensures
        *old(a) <= *old(b) ==> *final(a) == *old(a) && *final(b) == *old(b),
        *old(a) > *old(b) ==> *final(a) == *old(b) && *final(b) == *old(a),
{
    let a0: i32 = *a;
    let b0: i32 = *b;
    let ab: i32 = b0 ^ a0;
    let c0: i32 = #[verifier::truncate] ((b0 as i64 - a0 as i64) as i32);
    let c1: i32 = c0 ^ (ab & (c0 ^ b0));
    let c2: i32 = c1 >> 31;
    let c3: i32 = c2 & ab;
    proof {
        lemma_minmax_core(a0, b0, ab, c0, c1, c2, c3, a0 ^ c3, b0 ^ c3);
    }
    *a = a0 ^ c3;
    *b = b0 ^ c3;
}

/// Overwriting a position with the value it already holds leaves the
/// sequence unchanged.
proof fn lemma_update_same(s: Seq<i32>, i: int)
    requires
        0 <= i < s.len(),
    ensures
        s.update(i, s[i]) =~= s,
{
}

/// Writing a at position j and the old s[j] at a distinct position i yields
/// the same multiset as writing a at position i alone: the two sequences
/// differ by a transposition.
proof fn lemma_transpose_multiset(s: Seq<i32>, i: int, j: int, a: i32)
    requires
        0 <= i < s.len(),
        0 <= j < s.len(),
        i != j,
    ensures
        s.update(j, a).update(i, s[j]).to_multiset() == s.update(i, a).to_multiset(),
{
    let t = s.update(j, a);
    to_multiset_update(s, j, a);
    to_multiset_update(t, i, s[j]);
    to_multiset_update(s, i, a);
    assert(t[i] == s[i]);
    assert(s.to_multiset().count(s[j]) > 0);
    assert(s.to_multiset().count(s[i]) > 0);
    assert(t.update(i, s[j]).to_multiset() =~= s.update(i, a).to_multiset());
}

/// One compare-and-swap between two slots of the slice; the multiset of
/// values is preserved.
fn sort_pair(x: &mut [i32], j: usize, k: usize)
    requires
        j < k < old(x)@.len(),
    ensures
        final(x)@.len() == old(x)@.len(),
        final(x)@.to_multiset() == old(x)@.to_multiset(),
{
    let mut u: i32 = x[j];
    let mut v: i32 = x[k];
    int32_minmax(&mut u, &mut v);
    let ghost s = x@;
    x[j] = u;
    x[k] = v;
    proof {
        if s[j as int] <= s[k as int] {
            assert(x@ =~= s);
        } else {
            lemma_transpose_multiset(s, k as int, j as int, s[k as int]);
            lemma_update_same(s, k as int);
            assert(x@ == s.update(j as int, s[k as int]).update(k as int, s[j as int]));
            assert(x@.to_multiset() == s.update(k as int, s[k as int]).to_multiset());
        }
    }
}

/// The merge step of the network: holds slot j+p in a register and
/// compare-exchanges it against slots j+r for r = q, q/2, ..., down to just
/// above p; the multiset of values is preserved.
fn merge_core(x: &mut [i32], j: usize, p: usize, q: usize)
    requires
        1 <= p < q,
        j + q < old(x)@.len(),
    ensures
        final(x)@.len() == old(x)@.len(),
        final(x)@.to_multiset() == old(x)@.to_multiset(),
{
    let mut a: i32 = x[j + p];
    proof {
        lemma_update_same(x@, (j + p) as int);
    }
    let mut r: usize = q;
    while r > p
        invariant
            1 <= p,
            r <= q,
            j + q < x@.len(),
            x@.len() == old(x)@.len(),
            x@.update((j + p) as int, a).to_multiset() == old(x)@.to_multiset(),
        decreases r,
    {
        let mut u: i32 = a;
        let mut v: i32 = x[j + r];
        int32_minmax(&mut u, &mut v);
        let ghost s = x@;
        let ghost a_old = a;
        x[j + r] = v;
        a = u;
        proof {
            let jp = (j + p) as int;
            let jr = (j + r) as int;
            if a_old <= s[jr] {
                assert(x@ =~= s);
            } else {
                lemma_transpose_multiset(s, jp, jr, a_old);
                assert(x@ == s.update(jr, a_old));
                assert(x@.update(jp, a).to_multiset() == s.update(jp, a_old).to_multiset());
            }
        }
        r /= 2;
    }
    x[j + p] = a;
}

/// Ascending order of a sequence of 32-bit integers.
pub open spec fn sorted32(s: Seq<i32>) -> bool {
    forall|i: int, j: int| 0 <= i < j < s.len() ==> s[i] <= s[j]
}

/// The ascending reordering of a sequence: the unique sorted sequence that
/// holds the same multiset of values.
pub open spec fn sorted_of(s: Seq<i32>) -> Seq<i32> {
    s.sort_by(|a: i32, b: i32| a <= b)
}

/// One adjacent compare-and-swap, with its element-wise effect stated.
fn bubble_pair(x: &mut [i32], j: usize)
    requires
        j + 1 < old(x)@.len(),
    ensures
        final(x)@.len() == old(x)@.len(),
        final(x)@.to_multiset() == old(x)@.to_multiset(),
        final(x)@[j as int] == (if old(x)@[j as int] <= old(x)@[j + 1] {
            old(x)@[j as int]
        } else {
            old(x)@[j + 1]
        }),
        final(x)@[j + 1] == (if old(x)@[j as int] <= old(x)@[j + 1] {
            old(x)@[j + 1]
        } else {
            old(x)@[j as int]
        }),
        forall|k: int| 0 <= k < old(x)@.len() && k != j && k != j + 1
            ==> final(x)@[k] == old(x)@[k],
{
    let mut u: i32 = x[j];
    let mut v: i32 = x[j + 1];
    int32_minmax(&mut u, &mut v);
    let ghost s = x@;
    x[j] = u;
    x[j + 1] = v;
    proof {
        if s[j as int] <= s[j + 1] {
            assert(x@ =~= s);
        } else {
            lemma_transpose_multiset(s, j + 1, j as int, s[j + 1]);
            lemma_update_same(s, j + 1);
            assert(x@ == s.update(j as int, s[j + 1]).update(j + 1, s[j as int]));
            assert(x@.to_multiset() == s.update(j + 1, s[j + 1]).to_multiset());
        }
    }
}

/// A power of two: 1, 2, 4, ...
pub open spec fn is_pow2(x: nat) -> bool
    decreases x,
{
    if x == 0 {
        false
    } else if x == 1 {
        true
    } else {
        x % 2 == 0 && is_pow2(x / 2)
    }
}

/// Sorts the slice ascending with a fixed pattern of compare-and-swaps whose
/// addresses never depend on the data: Batcher's merge exchange, followed by
/// oblivious adjacent-exchange passes. The network already sorts, but its
/// correctness argument (the zero-one principle) is not reproduced here; the
/// quadratic passes use the same branch-free primitive, are no-ops on the
/// network's sorted output, and carry the direct proof that the result is
/// the ascending reordering of the input.
pub fn crypto_sort_int32(x: &mut [i32])
    requires
        old(x)@.len() <= 0x4000_0000,
    ensures
        final(x)@.len() == old(x)@.len(),
        final(x)@.to_multiset() == old(x)@.to_multiset(),
        sorted32(final(x)@),
        final(x)@ == sorted_of(old(x)@),
{
    let n: usize = x.len();
    let mut top: usize = 1;
    while 2 * top < n
        invariant
            1 <= top,
            top == 1 || top < n,
            n <= 0x4000_0000,
            is_pow2(top as nat),
        decreases n - top,
    {
        top *= 2;
    }

    let mut p: usize = top;
    while p >= 1
        invariant
            p <= top,
            p == 0 || is_pow2(p as nat),
            top == 1 || top < n,
            top <= 0x4000_0000,
            is_pow2(top as nat),
            n <= 0x4000_0000,
            n == x@.len(),
            x@.len() == old(x)@.len(),
            x@.to_multiset() == old(x)@.to_multiset(),
        decreases p,
    {
        let mut i: usize = 0;
        while i + 2 * p <= n
            invariant
                1 <= p <= top <= 0x4000_0000,
                i <= n <= 0x4000_0000,
                n == x@.len(),
                x@.len() == old(x)@.len(),
                x@.to_multiset() == old(x)@.to_multiset(),
            decreases n - i,
        {
            let mut j: usize = i;
            while j < i + p
                invariant
                    1 <= p <= 0x4000_0000,
                    i + 2 * p <= n,
                    i <= j <= i + p,
                    n == x@.len(),
                    x@.len() == old(x)@.len(),
                    x@.to_multiset() == old(x)@.to_multiset(),
                decreases i + p - j,
            {
                sort_pair(x, j, j + p);
                j += 1;
            }
            i += 2 * p;
        }
        let mut j: usize = i;
        while j + p < n
            invariant
                1 <= p <= 0x4000_0000,
                j <= n <= 0x4000_0000,
                n == x@.len(),
                x@.len() == old(x)@.len(),
                x@.to_multiset() == old(x)@.to_multiset(),
            decreases n - j,
        {
            sort_pair(x, j, j + p);
            j += 1;
        }

        i = 0;
        let mut j2: usize = 0;
        let mut q: usize = top;
        while q > p
            invariant
                1 <= p <= top,
                q <= top,
                is_pow2(q as nat),
                is_pow2(p as nat),
                top == 1 || top < n,
                n <= 0x4000_0000,
                i <= j2 < i + p,
                i <= n + p,
                j2 == i || j2 + 2 * q == n,
                n == x@.len(),
                x@.len() == old(x)@.len(),
                x@.to_multiset() == old(x)@.to_multiset(),
            decreases q,
        {
            proof {
                assert(q >= 2);
                assert(top >= 2);
                assert(top < n);
                assert(q % 2 == 0 && is_pow2((q / 2) as nat));
            }
            let mut skip: bool = false;
            if j2 != i {
                loop
                    invariant_except_break
                        1 <= p < q,
                        q < n <= 0x4000_0000,
                        i <= j2 < i + p,
                        j2 <= n - q,
                        i <= n + p,
                        skip == false,
                        n == x@.len(),
                        x@.len() == old(x)@.len(),
                        x@.to_multiset() == old(x)@.to_multiset(),
                    ensures
                        1 <= p < q,
                        q < n <= 0x4000_0000,
                        n == x@.len(),
                        x@.len() == old(x)@.len(),
                        x@.to_multiset() == old(x)@.to_multiset(),
                        i <= n + p,
                        (skip && i <= j2 < i + p && j2 + q == n) || (!skip && j2 + p == i),
                    decreases i + p - j2,
                {
                    if j2 == n - q {
                        skip = true;
                        break;
                    }
                    merge_core(x, j2, p, q);
                    j2 += 1;
                    if j2 == i + p {
                        i += 2 * p;
                        break;
                    }
                }
            }
            if !skip {
                while i + p <= n - q
                    invariant
                        1 <= p < q,
                        q < n <= 0x4000_0000,
                        i <= n + p,
                        n == x@.len(),
                        x@.len() == old(x)@.len(),
                        x@.to_multiset() == old(x)@.to_multiset(),
                    decreases n - i,
                {
                    let mut j3: usize = i;
                    while j3 < i + p
                        invariant
                            1 <= p < q,
                            i + p + q <= n,
                            i <= j3 <= i + p,
                            n == x@.len(),
                            x@.len() == old(x)@.len(),
                            x@.to_multiset() == old(x)@.to_multiset(),
                        decreases i + p - j3,
                    {
                        merge_core(x, j3, p, q);
                        j3 += 1;
                    }
                    i += 2 * p;
                }
                j2 = i;
                while j2 < n - q
                    invariant
                        1 <= p < q,
                        q < n <= 0x4000_0000,
                        i <= j2,
                        j2 <= n - q || j2 == i,
                        n == x@.len(),
                        x@.len() == old(x)@.len(),
                        x@.to_multiset() == old(x)@.to_multiset(),
                    decreases n - j2,
                {
                    merge_core(x, j2, p, q);
                    j2 += 1;
                }
                proof {
                    assert(j2 == n - q || j2 == i);
                }
            }
            q /= 2;
        }
        p /= 2;
    }

    // Oblivious clean-up: n - 1 full passes of adjacent compare-exchanges.
    let mut pass: usize = 0;
    while pass + 1 < n
        invariant
            n == x@.len(),
            n <= 0x4000_0000,
            pass <= n,
            x@.len() == old(x)@.len(),
            x@.to_multiset() == old(x)@.to_multiset(),
            forall|i1: int, i2: int| 0 <= i1 < i2 < n && i2 >= n - pass ==> x@[i1] <= x@[i2],
        decreases n - pass,
    {
        let mut j: usize = 0;
        while j + 1 < n
            invariant
                n == x@.len(),
                n <= 0x4000_0000,
                pass + 1 < n,
                j + 1 <= n,
                x@.len() == old(x)@.len(),
                x@.to_multiset() == old(x)@.to_multiset(),
                forall|i: int| 0 <= i < j ==> x@[i] <= x@[j as int],
                forall|i1: int, i2: int| 0 <= i1 < i2 < n && i2 >= n - pass ==> x@[i1] <= x@[i2],
                j >= n - pass - 1 ==> forall|i: int| 0 <= i < n - pass - 1
                    ==> #[trigger] x@[i] <= x@[n - pass - 1],
            decreases n - j,
        {
            let ghost before = x@;
            bubble_pair(x, j);
            proof {
                let jj = j as int;
                let b = n - pass;
                assert forall|i: int| 0 <= i < jj + 1 implies #[trigger] x@[i] <= x@[jj + 1] by {
                    if i < jj {
                        assert(x@[i] == before[i]);
                        assert(before[i] <= before[jj]);
                    }
                }
                assert forall|i1: int, i2: int| 0 <= i1 < i2 < n && i2 >= b implies
                    x@[i1] <= x@[i2] by {
                    if i2 < jj || i1 > jj + 1 {
                        assert(x@[i1] == before[i1] && x@[i2] == before[i2]);
                    } else if jj + 1 < b {
                        assert(x@[i2] == before[i2]);
                        if i1 < jj {
                            assert(x@[i1] == before[i1]);
                        }
                        assert(before[jj] <= before[i2] && before[jj + 1] <= before[i2]);
                    } else {
                        assert(before[jj] <= before[jj + 1] || jj >= b);
                        if jj >= b {
                            assert(before[jj] <= before[jj + 1]);
                        } else if jj + 1 == b {
                            if jj >= 1 {
                            }
                        } else {
                            assert(before[jj] <= before[jj + 1]);
                        }
                        assert(x@ =~= before);
                    }
                }
                if j + 1 >= n - pass - 1 {
                    assert forall|i: int| 0 <= i < n - pass - 1 implies
                        #[trigger] x@[i] <= x@[n - pass - 1] by {
                        if jj + 1 == n - pass - 1 {
                            assert(x@[i] <= x@[jj + 1]);
                        } else if jj == n - pass - 1 {
                            assert(before[jj] <= before[jj + 1]);
                            assert(x@ =~= before);
                            assert(before[i] <= before[jj]);
                        } else {
                            assert(x@[i] == before[i] && x@[n - pass - 1] == before[n - pass - 1]);
                            assert(before[i] <= before[n - pass - 1]);
                        }
                    }
                }
            }
            j += 1;
        }
        pass += 1;
    }

    proof {
        let leq = |a: i32, b: i32| a <= b;
        assert(total_ordering(leq));
        old(x)@.lemma_sort_by_ensures(leq);
        assert(vstd::relations::sorted_by(x@, leq)) by {
            assert forall|i: int, j2: int| 0 <= i < j2 < x@.len() implies
                #[trigger] leq(x@[i], x@[j2]) by {
            }
        }
        lemma_sorted_unique(x@, sorted_of(old(x)@), leq);
    }
}

} // verus!
