//! Schoolbook cyclic convolution modulo x^N - 1 over Z/2^16, the ring that
//! contains Z_q for every supported q. Callers reduce mod q afterwards when
//! they need canonical coefficients.

use vstd::prelude::*;
use vstd::arithmetic::div_mod::lemma_add_mod_noop_right;
use crate::poly::Poly;
use crate::poly::rq_mul_seq;

verus! {

/// The j-th summand of the cyclic convolution of a and b at degree k:
/// a[(k - j) mod N] * b[j].
pub open spec fn conv_term(a: Seq<u16>, b: Seq<u16>, k: int, j: int) -> int {
    a[(k - j) % 509] * b[j]
}

/// The summands of the cyclic convolution at degree k with index j in [lo, hi).
pub open spec fn conv_range(a: Seq<u16>, b: Seq<u16>, k: int, lo: int, hi: int) -> int
    decreases hi - lo,
{
    if hi <= lo {
        0
    } else {
        conv_range(a, b, k, lo, hi - 1) + conv_term(a, b, k, hi - 1)
    }
}

/// The full cyclic convolution of a and b at degree k, as an unbounded integer:
/// the coefficient of x^k in a(x) * b(x) mod x^N - 1.
pub open spec fn conv(a: Seq<u16>, b: Seq<u16>, k: int) -> int {
    conv_range(a, b, k, 0, 509)
}

/// Every summand is a product of unsigned values, so a partial convolution is
/// never negative.
pub proof fn lemma_conv_range_nonneg(a: Seq<u16>, b: Seq<u16>, k: int, lo: int, hi: int)
    ensures
        0 <= conv_range(a, b, k, lo, hi),
    decreases hi - lo,
{
    if hi > lo {
        lemma_conv_range_nonneg(a, b, k, lo, hi - 1);
        assert(0 <= conv_term(a, b, k, hi - 1)) by {
            let x = a[(k - (hi - 1)) % 509];
            let y = b[hi - 1];
            assert(x * y >= 0) by (nonlinear_arith)
                requires x >= 0 && y >= 0;
        }
    }
}

/// A partial convolution splits at any midpoint.
pub proof fn lemma_conv_range_concat(a: Seq<u16>, b: Seq<u16>, k: int, lo: int, mid: int, hi: int)
    requires
        lo <= mid <= hi,
    ensures
        conv_range(a, b, k, lo, hi) == conv_range(a, b, k, lo, mid) + conv_range(a, b, k, mid, hi),
    decreases hi - mid,
{
    if hi > mid {
        lemma_conv_range_concat(a, b, k, lo, mid, hi - 1);
    }
}

/// Cyclic convolution: r[k] = sum over i + j == k (mod N) of a[i] * b[j],
/// carried out in Z/2^16. Schoolbook, O(N^2), no data-dependent branches.
pub fn poly_rq_mul(r: &mut Poly, a: &Poly, b: &Poly)
    ensures
        forall|k: int| 0 <= k < 509 ==>
            final(r).coeffs@[k] == conv(a.coeffs@, b.coeffs@, k) % 0x10000,
{
    broadcast use crate::arith::lemma_wadd16, crate::arith::lemma_wmul16;

    let ghost av = a.coeffs@;
    let ghost bv = b.coeffs@;
    let mut k: usize = 0;
    while k < 509
        invariant
            k <= 509,
            forall|k2: int| 0 <= k2 < k ==> r.coeffs@[k2] == conv(av, bv, k2) % 0x10000,
            av == a.coeffs@,
            bv == b.coeffs@,
        decreases 509 - k,
    {
        r.coeffs[k] = 0;
        let mut i: usize = 1;
        while i < 509 - k
            invariant
                k < 509,
                1 <= i <= 509 - k,
                r.coeffs@[k as int] == conv_range(av, bv, k as int, 510 - i, 509) % 0x10000,
                forall|k2: int| 0 <= k2 < k ==> r.coeffs@[k2] == conv(av, bv, k2) % 0x10000,
                av == a.coeffs@,
                bv == b.coeffs@,
            decreases 509 - k - i,
        {
            let ghost old_rk = r.coeffs@[k as int];
            let term: u16 = a.coeffs[k + i].wrapping_mul(b.coeffs[509 - i]);
            r.coeffs[k] = r.coeffs[k].wrapping_add(term);
            proof {
                let ki = k as int;
                let j = 509 - i as int;
                assert((ki - j) % 509 == ki + i) by {
                    vstd::arithmetic::div_mod::lemma_mod_multiples_vanish(1, ki - j, 509);
                    vstd::arithmetic::div_mod::lemma_small_mod((ki + i) as nat, 509nat);
                }
                assert(term == conv_term(av, bv, ki, j) % 0x10000);
                lemma_conv_range_nonneg(av, bv, ki, j, 509);
                lemma_conv_range_nonneg(av, bv, ki, j + 1, 509);
                assert(conv_range(av, bv, ki, j, 509)
                    == conv_term(av, bv, ki, j) + conv_range(av, bv, ki, j + 1, 509)) by {
                    lemma_conv_range_concat(av, bv, ki, j, j + 1, 509);
                    assert(conv_range(av, bv, ki, j, j) == 0);
                    assert(conv_range(av, bv, ki, j, j + 1)
                        == conv_range(av, bv, ki, j, j) + conv_term(av, bv, ki, j));
                }
                assert(r.coeffs@[ki] == (old_rk + term) % 0x10000);
                lemma_add_mod_noop_right(
                    conv_range(av, bv, ki, j + 1, 509),
                    conv_term(av, bv, ki, j),
                    0x10000,
                );
                lemma_add_mod_noop_right(
                    conv_term(av, bv, ki, j),
                    conv_range(av, bv, ki, j + 1, 509),
                    0x10000,
                );
                assert((old_rk + term) % 0x10000 == conv_range(av, bv, ki, j, 509) % 0x10000) by {
                    assert(old_rk == conv_range(av, bv, ki, j + 1, 509) % 0x10000);
                    assert(term == conv_term(av, bv, ki, j) % 0x10000);
                    vstd::arithmetic::div_mod::lemma_add_mod_noop(
                        conv_range(av, bv, ki, j + 1, 509),
                        conv_term(av, bv, ki, j),
                        0x10000,
                    );
                }
            }
            i += 1;
        }
        let mut i2: usize = 0;
        while i2 < k + 1
            invariant
                k < 509,
                i2 <= k + 1,
                r.coeffs@[k as int] == (conv_range(av, bv, k as int, 0, i2 as int)
                    + conv_range(av, bv, k as int, k + 1, 509)) % 0x10000,
                forall|k2: int| 0 <= k2 < k ==> r.coeffs@[k2] == conv(av, bv, k2) % 0x10000,
                av == a.coeffs@,
                bv == b.coeffs@,
            decreases k + 1 - i2,
        {
            let ghost old_rk = r.coeffs@[k as int];
            let term: u16 = a.coeffs[k - i2].wrapping_mul(b.coeffs[i2]);
            r.coeffs[k] = r.coeffs[k].wrapping_add(term);
            proof {
                let ki = k as int;
                let j = i2 as int;
                assert((ki - j) % 509 == ki - j) by {
                    vstd::arithmetic::div_mod::lemma_small_mod((ki - j) as nat, 509nat);
                }
                assert(term == conv_term(av, bv, ki, j) % 0x10000);
                lemma_conv_range_nonneg(av, bv, ki, 0, j);
                lemma_conv_range_nonneg(av, bv, ki, ki + 1, 509);
                assert(r.coeffs@[ki] == (old_rk + term) % 0x10000);
                let s1 = conv_range(av, bv, ki, 0, j);
                let s2 = conv_range(av, bv, ki, ki + 1, 509);
                let t = conv_term(av, bv, ki, j);
                assert(conv_range(av, bv, ki, 0, j + 1) == s1 + t);
                assert(((s1 + s2) % 0x10000 + t % 0x10000) % 0x10000 == (s1 + s2 + t) % 0x10000) by {
                    vstd::arithmetic::div_mod::lemma_add_mod_noop(s1 + s2, t, 0x10000);
                }
                assert(r.coeffs@[ki] == (conv_range(av, bv, ki, 0, j + 1) + s2) % 0x10000);
            }
            i2 += 1;
        }
        proof {
            let ki = k as int;
            lemma_conv_range_concat(av, bv, ki, 0, ki + 1, 509);
            assert(r.coeffs@[ki] == conv(av, bv, ki) % 0x10000);
        }
        k += 1;
    }
}

/// The sum f(0) + ... + f(n-1).
pub open spec fn csum(f: spec_fn(int) -> int, n: int) -> int
    decreases n,
{
    if n <= 0 {
        0
    } else {
        csum(f, n - 1) + f(n - 1)
    }
}

/// Sums of pointwise-equal functions are equal.
pub proof fn lemma_csum_congruence(f: spec_fn(int) -> int, g: spec_fn(int) -> int, n: int)
    requires
        forall|j: int| 0 <= j < n ==> #[trigger] f(j) == g(j),
    ensures
        csum(f, n) == csum(g, n),
    decreases n,
{
    if n > 0 {
        lemma_csum_congruence(f, g, n - 1);
    }
}

/// The sum of the zero function vanishes.
pub proof fn lemma_csum_zero(f: spec_fn(int) -> int, n: int)
    requires
        forall|j: int| 0 <= j < n ==> #[trigger] f(j) == 0,
    ensures
        csum(f, n) == 0,
    decreases n,
{
    if n > 0 {
        lemma_csum_zero(f, n - 1);
    }
}

/// A sum whose terms vanish except at one index equals that term.
pub proof fn lemma_csum_single(f: spec_fn(int) -> int, n: int, j0: int)
    requires
        0 <= j0 < n,
        forall|j: int| 0 <= j < n && j != j0 ==> #[trigger] f(j) == 0,
    ensures
        csum(f, n) == f(j0),
    decreases n,
{
    if j0 == n - 1 {
        lemma_csum_zero(f, n - 1);
    } else {
        lemma_csum_single(f, n - 1, j0);
    }
}

/// Sums add termwise.
pub proof fn lemma_csum_add(f: spec_fn(int) -> int, g: spec_fn(int) -> int, h: spec_fn(int) -> int, n: int)
    requires
        forall|j: int| 0 <= j < n ==> #[trigger] h(j) == f(j) + g(j),
    ensures
        csum(h, n) == csum(f, n) + csum(g, n),
    decreases n,
{
    if n > 0 {
        lemma_csum_add(f, g, h, n - 1);
    }
}

/// A common factor moves out of a sum.
pub proof fn lemma_csum_scale(f: spec_fn(int) -> int, g: spec_fn(int) -> int, v: int, n: int)
    requires
        forall|j: int| 0 <= j < n ==> #[trigger] g(j) == f(j) * v,
    ensures
        csum(g, n) == csum(f, n) * v,
    decreases n,
{
    if n <= 0 {
    } else {
        lemma_csum_scale(f, g, v, n - 1);
        assert((csum(f, n - 1) + f(n - 1)) * v == csum(f, n - 1) * v + f(n - 1) * v)
            by (nonlinear_arith);
    }
}

/// Sums reduce mod m termwise.
pub proof fn lemma_csum_mod_congruence(f: spec_fn(int) -> int, g: spec_fn(int) -> int, n: int, m: int)
    requires
        m > 0,
        forall|j: int| 0 <= j < n ==> #[trigger] f(j) % m == g(j) % m,
    ensures
        csum(f, n) % m == csum(g, n) % m,
    decreases n,
{
    if n > 0 {
        lemma_csum_mod_congruence(f, g, n - 1, m);
        vstd::arithmetic::div_mod::lemma_add_mod_noop(csum(f, n - 1), f(n - 1), m);
        vstd::arithmetic::div_mod::lemma_add_mod_noop(csum(g, n - 1), g(n - 1), m);
    }
}

/// A finite double sum can be taken in either order.
pub proof fn lemma_csum_swap(t: spec_fn(int, int) -> int, n: int, m: int)
    ensures
        csum(|i: int| csum(|j: int| t(i, j), m), n)
            == csum(|j: int| csum(|i: int| t(i, j), n), m),
    decreases n,
{
    let rows = |i: int| csum(|j: int| t(i, j), m);
    let cols_n = |j: int| csum(|i: int| t(i, j), n);
    if n <= 0 {
        lemma_csum_zero(cols_n, m);
    } else {
        lemma_csum_swap(t, n - 1, m);
        let cols_prev = |j: int| csum(|i: int| t(i, j), n - 1);
        let last_row = |j: int| t(n - 1, j);
        assert forall|j: int| 0 <= j < m implies #[trigger] cols_n(j)
            == cols_prev(j) + last_row(j) by {
        }
        lemma_csum_add(cols_prev, last_row, cols_n, m);
        assert(csum(rows, n) == csum(rows, n - 1) + rows(n - 1));
    }
}

/// The prefix of a convolution is the running sum of its terms.
pub proof fn lemma_conv_is_csum(a: Seq<u16>, b: Seq<u16>, k: int, n: int)
    ensures
        conv_range(a, b, k, 0, n) == csum(|j: int| conv_term(a, b, k, j), n),
    decreases n,
{
    if n > 0 {
        lemma_conv_is_csum(a, b, k, n - 1);
    }
}

/// For indices below N, the cyclic pairing is a bijection: i + j lands on k
/// mod N exactly when j is the cyclic difference k - i.
pub proof fn lemma_mod_idx(i: int, j: int, k: int)
    requires
        0 <= i < 509,
        0 <= j < 509,
        0 <= k < 509,
    ensures
        ((i + j) % 509 == k) <==> (j == (k - i) % 509),
{
    vstd::arithmetic::div_mod::lemma_small_mod(j as nat, 509nat);
    if (i + j) % 509 == k {
        vstd::arithmetic::div_mod::lemma_fundamental_div_mod(i + j, 509);
        let q = (i + j) / 509;
        assert(j == k - i + 509 * q);
        vstd::arithmetic::div_mod::lemma_mod_multiples_vanish(q, k - i, 509);
        assert(j % 509 == (k - i) % 509);
    }
    if j == (k - i) % 509 {
        vstd::arithmetic::div_mod::lemma_fundamental_div_mod(k - i, 509);
        let q = (k - i) / 509;
        assert(i + j == k - 509 * q);
        vstd::arithmetic::div_mod::lemma_mod_multiples_vanish(-q, k, 509);
        vstd::arithmetic::div_mod::lemma_small_mod(k as nat, 509nat);
    }
}

/// Cyclic convolution is commutative: at every degree, the convolution of a
/// with b equals that of b with a.
pub proof fn lemma_conv_comm(a: Seq<u16>, b: Seq<u16>, k: int)
    requires
        0 <= k < 509,
    ensures
        conv(a, b, k) == conv(b, a, k),
{
    let t = |i: int, j: int| if (i + j) % 509 == k {
        a[i] * b[j]
    } else {
        0
    };
    let rows = |i: int| csum(|j: int| t(i, j), 509);
    let cols = |j: int| csum(|i: int| t(i, j), 509);

    // Row i sums to a[i] * b[(k - i) % 509].
    assert forall|i: int| 0 <= i < 509 implies #[trigger] rows(i)
        == a[i] * b[(k - i) % 509] by {
        let j0 = (k - i) % 509;
        vstd::arithmetic::div_mod::lemma_mod_bound(k - i, 509);
        assert forall|j: int| 0 <= j < 509 && j != j0 implies #[trigger] t(i, j) == 0 by {
            lemma_mod_idx(i, j, k);
        }
        lemma_mod_idx(i, j0, k);
        lemma_csum_single(|j: int| t(i, j), 509, j0);
    }
    // Column j sums to a[(k - j) % 509] * b[j].
    assert forall|j: int| 0 <= j < 509 implies #[trigger] cols(j)
        == a[(k - j) % 509] * b[j] by {
        let i0 = (k - j) % 509;
        vstd::arithmetic::div_mod::lemma_mod_bound(k - j, 509);
        assert forall|i: int| 0 <= i < 509 && i != i0 implies #[trigger] t(i, j) == 0 by {
            lemma_mod_idx(i, j, k);
        }
        lemma_mod_idx(i0, j, k);
        lemma_csum_single(|i: int| t(i, j), 509, i0);
    }
    lemma_csum_swap(t, 509, 509);
    lemma_conv_is_csum(a, b, k, 509);
    lemma_conv_is_csum(b, a, k, 509);
    lemma_csum_congruence(|j: int| conv_term(a, b, k, j), cols, 509);
    lemma_csum_congruence(|i: int| conv_term(b, a, k, i), rows, 509);
    assert(csum(|i: int| csum(|j: int| t(i, j), 509), 509) == csum(rows, 509)) by {
        lemma_csum_congruence(|i: int| csum(|j: int| t(i, j), 509), rows, 509);
    }
    assert(csum(|j: int| csum(|i: int| t(i, j), 509), 509) == csum(cols, 509)) by {
        lemma_csum_congruence(|j: int| csum(|i: int| t(i, j), 509), cols, 509);
    }
}

/// The multiplicative unit of the ring: the constant polynomial 1.
pub open spec fn unit_poly() -> Seq<u16> {
    Seq::new(509, |i: int| if i == 0 {
        1u16
    } else {
        0u16
    })
}

/// The zero polynomial.
pub open spec fn zero_poly() -> Seq<u16> {
    Seq::new(509, |i: int| 0u16)
}

/// Element-wise sum mod 2^16.
pub open spec fn add_seq(a: Seq<u16>, b: Seq<u16>) -> Seq<u16> {
    Seq::new(509, |k: int| vstd::wrapping::u16_specs::wrapping_add(a[k], b[k]))
}

/// Element-wise difference mod 2^16.
pub open spec fn sub_seq(a: Seq<u16>, b: Seq<u16>) -> Seq<u16> {
    Seq::new(509, |k: int| vstd::wrapping::u16_specs::wrapping_sub(a[k], b[k]))
}

/// Convolving with the unit polynomial returns the input coefficient: r * 1 = r.
pub proof fn lemma_conv_unit(a: Seq<u16>, k: int)
    requires
        0 <= k < 509,
    ensures
        conv(a, unit_poly(), k) == a[k],
{
    let f = |j: int| conv_term(a, unit_poly(), k, j);
    lemma_conv_is_csum(a, unit_poly(), k, 509);
    assert forall|j: int| 0 <= j < 509 && j != 0 implies #[trigger] f(j) == 0 by {
        assert(unit_poly()[j] == 0);
        assert(a[(k - j) % 509] * 0 == 0) by (nonlinear_arith);
    }
    lemma_csum_single(f, 509, 0);
    vstd::arithmetic::div_mod::lemma_small_mod(k as nat, 509nat);
    assert(f(0) == a[k] * 1);
}

/// Convolving with the zero polynomial vanishes: r * 0 = 0.
pub proof fn lemma_conv_zero(a: Seq<u16>, k: int)
    ensures
        conv(a, zero_poly(), k) == 0,
{
    let f = |j: int| conv_term(a, zero_poly(), k, j);
    lemma_conv_is_csum(a, zero_poly(), k, 509);
    assert forall|j: int| 0 <= j < 509 implies #[trigger] f(j) == 0 by {
        assert(zero_poly()[j] == 0);
        assert(a[(k - j) % 509] * 0 == 0) by (nonlinear_arith);
    }
    lemma_csum_zero(f, 509);
}

/// Convolution distributes over element-wise addition, mod 2^16.
pub proof fn lemma_conv_distrib_range(a: Seq<u16>, b: Seq<u16>, c: Seq<u16>, k: int, n: int)
    requires
        n <= 509,
    ensures
        conv_range(a, add_seq(b, c), k, 0, n) % 0x10000
            == (conv_range(a, b, k, 0, n) + conv_range(a, c, k, 0, n)) % 0x10000,
    decreases n,
{
    broadcast use crate::arith::lemma_wadd16;

    if n > 0 {
        lemma_conv_distrib_range(a, b, c, k, n - 1);
        let j = n - 1;
        let x = a[(k - j) % 509];
        if 0 <= j < 509 {
            assert(add_seq(b, c)[j] == (b[j] + c[j]) % 0x10000);
            assert(conv_term(a, add_seq(b, c), k, j) % 0x10000
                == (conv_term(a, b, k, j) + conv_term(a, c, k, j)) % 0x10000) by {
                vstd::arithmetic::div_mod::lemma_mul_mod_noop_right(
                    x as int, b[j] + c[j], 0x10000);
                assert(x * (b[j] + c[j]) == x * b[j] + x * c[j]) by (nonlinear_arith);
            }
        }
        let sl = conv_range(a, add_seq(b, c), k, 0, n - 1);
        let sb = conv_range(a, b, k, 0, n - 1);
        let sc = conv_range(a, c, k, 0, n - 1);
        let tl = conv_term(a, add_seq(b, c), k, j);
        let tb = conv_term(a, b, k, j);
        let tc = conv_term(a, c, k, j);
        assert((sl + tl) % 0x10000 == (sb + sc + tb + tc) % 0x10000) by {
            vstd::arithmetic::div_mod::lemma_add_mod_noop(sl, tl, 0x10000);
            vstd::arithmetic::div_mod::lemma_add_mod_noop(sb + sc, tb + tc, 0x10000);
        }
    }
}

/// Distributivity at full degree: conv(a, b + c) = conv(a, b) + conv(a, c)
/// mod 2^16, for every coefficient.
pub proof fn lemma_conv_distrib(a: Seq<u16>, b: Seq<u16>, c: Seq<u16>, k: int)
    ensures
        conv(a, add_seq(b, c), k) % 0x10000
            == (conv(a, b, k) + conv(a, c, k)) % 0x10000,
{
    lemma_conv_distrib_range(a, b, c, k, 509);
}

proof fn lemma_reindex_shift(bv: Seq<u16>, x: int, av: Seq<u16>, k: int, u: int)
    requires
        0 <= u < 509,
    ensures
        csum(|j: int| bv[(j - u) % 509] * x * av[(k - j) % 509], 509)
            == csum(|w: int| bv[w] * x * av[(k - w - u) % 509], 509),
{
    let d = |j: int, w: int| if (w + u) % 509 == j {
        bv[w] * x * av[(k - w - u) % 509]
    } else {
        0
    };
    let lhs_f = |j: int| bv[(j - u) % 509] * x * av[(k - j) % 509];
    let rhs_f = |w: int| bv[w] * x * av[(k - w - u) % 509];

    let drow = |j: int| csum(|w: int| d(j, w), 509);
    let dcol = |w: int| csum(|j: int| d(j, w), 509);
    assert forall|j: int| 0 <= j < 509 implies #[trigger] drow(j) == lhs_f(j) by {
        let w0 = (j - u) % 509;
        vstd::arithmetic::div_mod::lemma_mod_bound(j - u, 509);
        assert forall|w: int| 0 <= w < 509 && w != w0 implies #[trigger] d(j, w) == 0 by {
            lemma_mod_idx(u, w, j);
        }
        lemma_mod_idx(u, w0, j);
        lemma_csum_single(|w: int| d(j, w), 509, w0);
        assert((k - w0 - u) % 509 == (k - j) % 509) by {
            vstd::arithmetic::div_mod::lemma_fundamental_div_mod(j - u, 509);
            let q = (j - u) / 509;
            assert(k - w0 - u == k - j + 509 * q);
            vstd::arithmetic::div_mod::lemma_mod_multiples_vanish(q, k - j, 509);
        }
    }
    assert forall|w: int| 0 <= w < 509 implies #[trigger] dcol(w) == rhs_f(w) by {
        let j0 = (w + u) % 509;
        vstd::arithmetic::div_mod::lemma_mod_bound(w + u, 509);
        assert forall|j: int| 0 <= j < 509 && j != j0 implies #[trigger] d(j, w) == 0 by {
        }
        lemma_csum_single(|j: int| d(j, w), 509, j0);
    }
    lemma_csum_swap(d, 509, 509);
    lemma_csum_congruence(lhs_f, drow, 509);
    lemma_csum_congruence(rhs_f, dcol, 509);
    assert(csum(|i: int| csum(|j: int| d(i, j), 509), 509) == csum(drow, 509)) by {
        lemma_csum_congruence(|i: int| csum(|j: int| d(i, j), 509), drow, 509);
    }
    assert(csum(|j: int| csum(|i: int| d(i, j), 509), 509) == csum(dcol, 509)) by {
        lemma_csum_congruence(|j: int| csum(|i: int| d(i, j), 509), dcol, 509);
    }
}


/// Cyclic convolution is associative mod 2^16: multiplying a * b first and
/// then by c gives the same coefficients as multiplying a by b * c.
pub proof fn lemma_conv_assoc(a: Seq<u16>, b: Seq<u16>, c: Seq<u16>, k: int)
    requires
        0 <= k < 509,
    ensures
        conv(rq_mul_seq(a, b), c, k) % 0x10000 == conv(a, rq_mul_seq(b, c), k) % 0x10000,
{
    let m = 0x10000int;
    // The common middle form: the triple sum of b[w] c[u] a[i] over
    // w + u + i = k mod N, with the b index outside and the c index inside.
    let mid = |w: int, u: int| b[w] * c[u] * a[(k - w - u) % 509];
    let mid_sum = csum(|w: int| csum(|u: int| mid(w, u), 509), 509);

    // Left side: expand ab = a * b inside the outer convolution.
    let x_ab = rq_mul_seq(a, b);
    lemma_conv_is_csum(x_ab, c, k, 509);
    let f1 = |j: int| conv_term(x_ab, c, k, j);
    let g1 = |j: int| conv(a, b, (k - j) % 509) * (c[j] as int);
    assert forall|j: int| 0 <= j < 509 implies #[trigger] f1(j) % m == g1(j) % m by {
        let kj = (k - j) % 509;
        vstd::arithmetic::div_mod::lemma_mod_bound(k - j, 509);
        assert(x_ab[kj] == (conv(a, b, kj) % m) as u16);
        lemma_conv_range_nonneg(a, b, kj, 0, 509);
        vstd::arithmetic::div_mod::lemma_mod_bound(conv(a, b, kj), m);
        vstd::arithmetic::div_mod::lemma_mul_mod_noop_left(conv(a, b, kj), c[j] as int, m);
    }
    lemma_csum_mod_congruence(f1, g1, 509, m);

    let p1 = |j: int, u: int| a[(k - j - u) % 509] * b[u] * (c[j] as int);
    let p1row = |j: int| csum(|u: int| p1(j, u), 509);
    let p1col = |u: int| csum(|j: int| p1(j, u), 509);
    assert forall|j: int| 0 <= j < 509 implies #[trigger] g1(j) == p1row(j) by {
        let kj = (k - j) % 509;
        lemma_conv_is_csum(a, b, kj, 509);
        lemma_csum_scale(
            |u: int| conv_term(a, b, kj, u),
            |u: int| conv_term(a, b, kj, u) * (c[j] as int),
            c[j] as int,
            509,
        );
        assert forall|u: int| 0 <= u < 509 implies
            (#[trigger] conv_term(a, b, kj, u)) * (c[j] as int) == p1(j, u) by {
            assert((kj - u) % 509 == (k - j - u) % 509) by {
                vstd::arithmetic::div_mod::lemma_small_mod(u as nat, 509nat);
                vstd::arithmetic::div_mod::lemma_sub_mod_noop(k - j, u, 509);
                vstd::arithmetic::div_mod::lemma_mod_twice(k - j, 509);
            }
        }
        lemma_csum_congruence(
            |u: int| conv_term(a, b, kj, u) * (c[j] as int),
            |u: int| p1(j, u),
            509,
        );
    }
    lemma_csum_congruence(g1, p1row, 509);
    lemma_csum_swap(p1, 509, 509);
    let midrow = |w: int| csum(|v: int| mid(w, v), 509);
    assert forall|u: int| 0 <= u < 509 implies #[trigger] p1col(u) == midrow(u) by {
        assert forall|j: int| 0 <= j < 509 implies #[trigger] p1(j, u) == mid(u, j) by {
            assert(a[(k - j - u) % 509] * b[u] * (c[j] as int)
                == b[u] * c[j] * a[(k - u - j) % 509]) by (nonlinear_arith);
        }
        lemma_csum_congruence(|j: int| p1(j, u), |v: int| mid(u, v), 509);
    }
    lemma_csum_congruence(p1col, midrow, 509);
    assert(csum(|i: int| csum(|j: int| p1(i, j), 509), 509) == csum(p1row, 509)) by {
        lemma_csum_congruence(|i: int| csum(|j: int| p1(i, j), 509), p1row, 509);
    }
    assert(csum(|j: int| csum(|i: int| p1(i, j), 509), 509) == csum(p1col, 509)) by {
        lemma_csum_congruence(|j: int| csum(|i: int| p1(i, j), 509), p1col, 509);
    }
    assert(csum(|w: int| csum(|u: int| mid(w, u), 509), 509) == csum(midrow, 509)) by {
        lemma_csum_congruence(|w: int| csum(|u: int| mid(w, u), 509), midrow, 509);
    }
    assert(conv(x_ab, c, k) % m == mid_sum % m);

    // Right side: expand bc = b * c inside the outer convolution.
    let y_bc = rq_mul_seq(b, c);
    lemma_conv_is_csum(a, y_bc, k, 509);
    let f2 = |j: int| conv_term(a, y_bc, k, j);
    let g2 = |j: int| conv(b, c, j) * (a[(k - j) % 509] as int);
    assert forall|j: int| 0 <= j < 509 implies #[trigger] f2(j) % m == g2(j) % m by {
        assert(y_bc[j] == (conv(b, c, j) % m) as u16);
        lemma_conv_range_nonneg(b, c, j, 0, 509);
        vstd::arithmetic::div_mod::lemma_mod_bound(conv(b, c, j), m);
        vstd::arithmetic::div_mod::lemma_mul_mod_noop_general(
            a[(k - j) % 509] as int, conv(b, c, j), m);
        assert(a[(k - j) % 509] * (conv(b, c, j) % m)
            == (conv(b, c, j) % m) * (a[(k - j) % 509] as int)) by (nonlinear_arith);
        assert(conv(b, c, j) * (a[(k - j) % 509] as int)
            == a[(k - j) % 509] * conv(b, c, j)) by (nonlinear_arith);
    }
    lemma_csum_mod_congruence(f2, g2, 509, m);

    let p2 = |j: int, u: int| b[(j - u) % 509] * (c[u] as int) * (a[(k - j) % 509] as int);
    let p2row = |j: int| csum(|u: int| p2(j, u), 509);
    let p2col = |u: int| csum(|j: int| p2(j, u), 509);
    assert forall|j: int| 0 <= j < 509 implies #[trigger] g2(j) == p2row(j) by {
        lemma_conv_is_csum(b, c, j, 509);
        lemma_csum_scale(
            |u: int| conv_term(b, c, j, u),
            |u: int| conv_term(b, c, j, u) * (a[(k - j) % 509] as int),
            a[(k - j) % 509] as int,
            509,
        );
        lemma_csum_congruence(
            |u: int| conv_term(b, c, j, u) * (a[(k - j) % 509] as int),
            |u: int| p2(j, u),
            509,
        );
    }
    lemma_csum_congruence(g2, p2row, 509);
    lemma_csum_swap(p2, 509, 509);
    let q2 = |u: int, w: int| b[w] * (c[u] as int) * a[(k - w - u) % 509];
    let q2row = |u: int| csum(|w: int| q2(u, w), 509);
    let q2col = |w: int| csum(|u: int| q2(u, w), 509);
    // For a fixed c index u, reindex the inner sum by the b index.
    assert forall|u: int| 0 <= u < 509 implies #[trigger] p2col(u) == q2row(u) by {
        lemma_reindex_shift(b, c[u] as int, a, k, u);
        assert forall|j: int| 0 <= j < 509 implies #[trigger] p2(j, u)
            == b[(j - u) % 509] * (c[u] as int) * a[(k - j) % 509] by {
        }
        lemma_csum_congruence(
            |j: int| p2(j, u),
            |j: int| b[(j - u) % 509] * (c[u] as int) * a[(k - j) % 509],
            509,
        );
        assert(csum(|w: int| b[w] * (c[u] as int) * a[(k - w - u) % 509], 509)
            == q2row(u)) by {
            lemma_csum_congruence(
                |w: int| b[w] * (c[u] as int) * a[(k - w - u) % 509],
                |w: int| q2(u, w),
                509,
            );
        }
    }
    lemma_csum_congruence(p2col, q2row, 509);
    lemma_csum_swap(q2, 509, 509);
    assert forall|w: int| 0 <= w < 509 implies #[trigger] q2col(w) == midrow(w) by {
        assert forall|u: int| 0 <= u < 509 implies #[trigger] q2(u, w) == mid(w, u) by {
            assert(b[w] * (c[u] as int) * a[(k - w - u) % 509]
                == b[w] * c[u] * a[(k - w - u) % 509]) by (nonlinear_arith);
        }
        lemma_csum_congruence(|u: int| q2(u, w), |v: int| mid(w, v), 509);
    }
    lemma_csum_congruence(q2col, midrow, 509);
    assert(csum(|i: int| csum(|j: int| p2(i, j), 509), 509) == csum(p2row, 509)) by {
        lemma_csum_congruence(|i: int| csum(|j: int| p2(i, j), 509), p2row, 509);
    }
    assert(csum(|j: int| csum(|i: int| p2(i, j), 509), 509) == csum(p2col, 509)) by {
        lemma_csum_congruence(|j: int| csum(|i: int| p2(i, j), 509), p2col, 509);
    }
    assert(csum(|i: int| csum(|j: int| q2(i, j), 509), 509) == csum(q2row, 509)) by {
        lemma_csum_congruence(|i: int| csum(|j: int| q2(i, j), 509), q2row, 509);
    }
    assert(csum(|j: int| csum(|i: int| q2(i, j), 509), 509) == csum(q2col, 509)) by {
        lemma_csum_congruence(|j: int| csum(|i: int| q2(i, j), 509), q2col, 509);
    }
    assert(conv(a, y_bc, k) % m == mid_sum % m);
}

/// The R_q product does not depend on the order of its factors.
pub proof fn lemma_rq_mul_comm(a: Seq<u16>, b: Seq<u16>)
    ensures
        rq_mul_seq(a, b) == rq_mul_seq(b, a),
{
    assert forall|k: int| 0 <= k < 509 implies
        #[trigger] rq_mul_seq(a, b)[k] == rq_mul_seq(b, a)[k] by {
        lemma_conv_comm(a, b, k);
    }
    assert(rq_mul_seq(a, b) =~= rq_mul_seq(b, a));
}

/// Multiplying by the constant polynomial 1 is the identity.
pub proof fn lemma_rq_mul_unit(a: Seq<u16>)
    requires
        a.len() == 509,
    ensures
        rq_mul_seq(a, unit_poly()) == a,
{
    assert forall|k: int| 0 <= k < 509 implies #[trigger] rq_mul_seq(a, unit_poly())[k]
        == a[k] by {
        lemma_conv_unit(a, k);
        vstd::arithmetic::div_mod::lemma_small_mod(a[k] as nat, 0x10000nat);
    }
    assert(rq_mul_seq(a, unit_poly()) =~= a);
}

/// Multiplying by the zero polynomial yields zero.
pub proof fn lemma_rq_mul_zero(a: Seq<u16>)
    ensures
        rq_mul_seq(a, zero_poly()) == zero_poly(),
{
    assert forall|k: int| 0 <= k < 509 implies #[trigger] rq_mul_seq(a, zero_poly())[k]
        == zero_poly()[k] by {
        lemma_conv_zero(a, k);
    }
    assert(rq_mul_seq(a, zero_poly()) =~= zero_poly());
}

/// The R_q product is associative.
pub proof fn lemma_rq_mul_assoc(a: Seq<u16>, b: Seq<u16>, c: Seq<u16>)
    ensures
        rq_mul_seq(rq_mul_seq(a, b), c) == rq_mul_seq(a, rq_mul_seq(b, c)),
{
    assert forall|k: int| 0 <= k < 509 implies #[trigger] rq_mul_seq(rq_mul_seq(a, b), c)[k]
        == rq_mul_seq(a, rq_mul_seq(b, c))[k] by {
        lemma_conv_assoc(a, b, c, k);
    }
    assert(rq_mul_seq(rq_mul_seq(a, b), c) =~= rq_mul_seq(a, rq_mul_seq(b, c)));
}

/// The R_q product distributes over element-wise addition.
pub proof fn lemma_rq_mul_distrib(a: Seq<u16>, b: Seq<u16>, c: Seq<u16>)
    ensures
        rq_mul_seq(a, add_seq(b, c)) == add_seq(rq_mul_seq(a, b), rq_mul_seq(a, c)),
{
    broadcast use crate::arith::lemma_wadd16;

    assert forall|k: int| 0 <= k < 509 implies #[trigger] rq_mul_seq(a, add_seq(b, c))[k]
        == add_seq(rq_mul_seq(a, b), rq_mul_seq(a, c))[k] by {
        lemma_conv_distrib(a, b, c, k);
        lemma_conv_range_nonneg(a, b, k, 0, 509);
        lemma_conv_range_nonneg(a, c, k, 0, 509);
        vstd::arithmetic::div_mod::lemma_mod_bound(conv(a, b, k), 0x10000);
        vstd::arithmetic::div_mod::lemma_mod_bound(conv(a, c, k), 0x10000);
        vstd::arithmetic::div_mod::lemma_add_mod_noop(conv(a, b, k), conv(a, c, k), 0x10000);
    }
    assert(rq_mul_seq(a, add_seq(b, c)) =~= add_seq(rq_mul_seq(a, b), rq_mul_seq(a, c)));
}

} // verus!
