//! The dense polynomial type: N unsigned 16-bit coefficients indexed by
//! degree, together with the element-wise conversions between the trinary
//! convention {0, 1, 2} and its image {0, 1, q-1} in R_q, the multiplications
//! in S_q and S_3, and the Newton lift of an R_2 inverse to an R_q inverse.

use vstd::prelude::*;
use crate::poly_rq_mul::conv;
use crate::poly_rq_mul::conv_range;
use crate::poly_rq_mul::conv_term;
use crate::poly_rq_mul::poly_rq_mul;
use crate::poly_mod::poly_mod_3_phi_n;
use crate::poly_mod::poly_mod_q_phi_n;

verus! {

/// A polynomial of the ring R_q (or of S_3, depending on the coefficient
/// convention in force): coefficient i is the factor of x^i.
#[derive(Clone, Debug, PartialEq, Eq)]
pub struct Poly {
    pub coeffs: [u16; 509],
}

impl Poly {
    /// The zero polynomial.
    pub fn new() -> (r: Poly)
        ensures
            forall|i: int| 0 <= i < 509 ==> r.coeffs@[i] == 0,
    {
        Poly { coeffs: [0u16; 509] }
    }

    /// The polynomial with every coefficient equal to `value`.
    pub fn build(value: u16) -> (r: Poly)
        ensures
            forall|i: int| 0 <= i < 509 ==> r.coeffs@[i] == value,
    {
        Poly { coeffs: [value; 509] }
    }
}

impl Default for Poly {
    /// The zero polynomial.
    fn default() -> (r: Poly)
        ensures
            forall|i: int| 0 <= i < 509 ==> r.coeffs@[i] == 0,
    {
        Poly::new()
    }
}

/// Reduction of one coefficient to its canonical mod-q representative.
pub fn modq(x: u16) -> (r: u16)
    ensures
        r == x % 2048,
{
    proof {
        assert((x & 2047) == x % 2048) by (bit_vector);
    }
    x & 2047
}

/// The image of one trinary coefficient {0, 1, 2} in R_q: {0, 1, q-1}.
pub open spec fn z3_to_zq_map(c: u16) -> u16 {
    if c == 2 {
        2047u16
    } else {
        c
    }
}

/// The image of one R_q coefficient under the trinary read-back: reduce mod q,
/// then fold {0, 1, q-1} onto {0, 1, 2} with a shift and a mask.
pub open spec fn trin_map(c: u16) -> u16 {
    3u16 & ((c & 2047) ^ ((c & 2047) >> 10))
}

proof fn lemma_z3_zq_elem(c: u16, res: u16)
    by (bit_vector)
    requires
        c <= 2,
        res == (c as i16 | (((-((c >> 1) as i16)) as i16) & 2047i16)) as u16,
    ensures
        res == z3_to_zq_map(c),
{
}

proof fn lemma_trin_elem(c: u16, m: u16, res: u16)
    by (bit_vector)
    requires
        m == c % 2048,
        res == 3 & (m ^ (m >> 10)),
    ensures
        res == trin_map(c),
        res <= 3,
{
}

/// The two element-wise conversions invert each other on the values that a
/// valid trinary-in-R_q coefficient can take: {0, 1, q-1} maps to {0, 1, 2}
/// and back, and {0, 1, 2} maps to {0, 1, q-1} and back.
pub proof fn lemma_trinary_round_trip(c: u16)
    by (bit_vector)
    ensures
        (c == 0 || c == 1 || c == 2047) ==> z3_to_zq_map(trin_map(c)) == c,
        c <= 2 ==> trin_map(z3_to_zq_map(c)) == c,
{
}

/// Element-wise map of the trinary convention {0, 1, 2} onto its image
/// {0, 1, q-1} in R_q, computed branch-free.
pub fn poly_z3_to_zq(r: &mut Poly)
    requires
        forall|i: int| 0 <= i < 509 ==> #[trigger] old(r).coeffs@[i] <= 2,
    ensures
        forall|i: int| 0 <= i < 509 ==>
            final(r).coeffs@[i] == z3_to_zq_map(old(r).coeffs@[i]),
{
    let mut i: usize = 0;
    while i < 509
        invariant
            i <= 509,
            forall|i2: int| 0 <= i2 < 509 ==> #[trigger] old(r).coeffs@[i2] <= 2,
            forall|i2: int| 0 <= i2 < i ==> r.coeffs@[i2] == z3_to_zq_map(old(r).coeffs@[i2]),
            forall|i2: int| i <= i2 < 509 ==> r.coeffs@[i2] == old(r).coeffs@[i2],
        decreases 509 - i,
    {
        let c: u16 = r.coeffs[i];
        let res: u16 = (c as i16 | ((-((c >> 1) as i16)) & 2047)) as u16;
        proof {
            lemma_z3_zq_elem(c, res);
        }
        r.coeffs[i] = res;
        i += 1;
    }
}

/// Element-wise map of {0, 1, q-1} (mod q) back onto {0, 1, 2}, computed
/// branch-free; on other mod-q values it yields the masked fold, which is
/// always at most 3.
pub fn poly_trinary_zq_to_z3(r: &mut Poly)
    ensures
        forall|i: int| 0 <= i < 509 ==>
            final(r).coeffs@[i] == trin_map(old(r).coeffs@[i]),
        forall|i: int| 0 <= i < 509 ==> final(r).coeffs@[i] <= 3,
{
    let mut i: usize = 0;
    while i < 509
        invariant
            i <= 509,
            forall|i2: int| 0 <= i2 < i ==>
                r.coeffs@[i2] == trin_map(old(r).coeffs@[i2]) && r.coeffs@[i2] <= 3,
            forall|i2: int| i <= i2 < 509 ==> r.coeffs@[i2] == old(r).coeffs@[i2],
        decreases 509 - i,
    {
        let m: u16 = modq(r.coeffs[i]);
        let res: u16 = 3 & (m ^ (m >> 10));
        proof {
            lemma_trin_elem(old(r).coeffs@[i as int], m, res);
        }
        r.coeffs[i] = res;
        i += 1;
    }
}

/// Multiplication in S_q: cyclic convolution followed by the mod-Phi_N
/// reduction; coefficient k of the result is conv(k) - conv(508) mod 2^16.
pub fn poly_sq_mul(r: &mut Poly, a: &Poly, b: &Poly)
    ensures
        forall|k: int| 0 <= k < 509 ==> final(r).coeffs@[k]
            == (conv(a.coeffs@, b.coeffs@, k) - conv(a.coeffs@, b.coeffs@, 508)) % 0x10000,
{
    poly_rq_mul(r, a, b);
    poly_mod_q_phi_n(r);
    proof {
        assert forall|k: int| 0 <= k < 509 implies r.coeffs@[k]
            == (conv(a.coeffs@, b.coeffs@, k) - conv(a.coeffs@, b.coeffs@, 508)) % 0x10000 by {
            vstd::arithmetic::div_mod::lemma_sub_mod_noop(
                conv(a.coeffs@, b.coeffs@, k),
                conv(a.coeffs@, b.coeffs@, 508),
                0x10000,
            );
        }
    }
}

/// A partial convolution of two polynomials with coefficients at most `m`
/// is bounded by m * m * (number of summands).
pub proof fn lemma_conv_range_bound(a: Seq<u16>, b: Seq<u16>, k: int, lo: int, hi: int, m: int)
    requires
        0 <= m,
        forall|i: int| 0 <= i < 509 ==> #[trigger] a[i] <= m,
        forall|i: int| 0 <= i < 509 ==> #[trigger] b[i] <= m,
        0 <= lo <= hi <= 509,
    ensures
        conv_range(a, b, k, lo, hi) <= m * m * (hi - lo),
    decreases hi - lo,
{
    if hi <= lo {
        assert(m * m * (hi - lo) >= 0) by (nonlinear_arith)
            requires 0 <= m && hi - lo == 0;
    } else {
        lemma_conv_range_bound(a, b, k, lo, hi - 1, m);
        let j = hi - 1;
        let idx = (k - j) % 509;
        assert(0 <= idx < 509) by {
            vstd::arithmetic::div_mod::lemma_mod_bound(k - j, 509);
        }
        assert(conv_term(a, b, k, j) <= m * m) by (nonlinear_arith)
            requires
                a[idx] <= m,
                b[j] <= m,
                0 <= a[idx],
                0 <= b[j],
                0 <= m,
                conv_term(a, b, k, j) == a[idx] * b[j],
        ;
        assert(m * m * (hi - lo) == m * m * (hi - 1 - lo) + m * m) by (nonlinear_arith);
    }
}

/// Multiplication in S_3: cyclic convolution (which cannot wrap, because both
/// factors are trinary) followed by the mod-(3, Phi_N) reduction.
pub fn poly_s3_mul(r: &mut Poly, a: &Poly, b: &Poly)
    requires
        forall|i: int| 0 <= i < 509 ==> #[trigger] a.coeffs@[i] <= 2,
        forall|i: int| 0 <= i < 509 ==> #[trigger] b.coeffs@[i] <= 2,
    ensures
        forall|k: int| 0 <= k < 509 ==> final(r).coeffs@[k]
            == (conv(a.coeffs@, b.coeffs@, k) + 2 * conv(a.coeffs@, b.coeffs@, 508)) % 3,
        forall|k: int| 0 <= k < 509 ==> final(r).coeffs@[k] < 3,
{
    poly_rq_mul(r, a, b);
    proof {
        assert forall|k: int| 0 <= k < 509 implies r.coeffs@[k] == conv(a.coeffs@, b.coeffs@, k)
            && conv(a.coeffs@, b.coeffs@, k) <= 2036 by {
            crate::poly_rq_mul::lemma_conv_range_nonneg(a.coeffs@, b.coeffs@, k, 0, 509);
            lemma_conv_range_bound(a.coeffs@, b.coeffs@, k, 0, 509, 2);
            vstd::arithmetic::div_mod::lemma_small_mod(
                conv(a.coeffs@, b.coeffs@, k) as nat,
                0x10000nat,
            );
        }
    }
    poly_mod_3_phi_n(r);
}

/// The sequence-level image of one R_q multiplication: coefficient k is the
/// cyclic convolution at k, reduced mod 2^16.
pub open spec fn rq_mul_seq(x: Seq<u16>, y: Seq<u16>) -> Seq<u16> {
    Seq::new(509, |k: int| ((conv(x, y, k) % 0x10000) as u16))
}

/// Element-wise bitwise complement.
pub open spec fn bitnot_seq(x: Seq<u16>) -> Seq<u16> {
    Seq::new(509, |i: int| !x[i])
}

/// Adds 2 to the constant coefficient, wrapping in 16 bits.
pub open spec fn plus2_seq(x: Seq<u16>) -> Seq<u16> {
    x.update(0, vstd::wrapping::u16_specs::wrapping_add(x[0], 2))
}

/// One Newton step of the inverse lift: r <- r * (2 - a * r) in R_q, with
/// b = -a - 1 standing in for the negation (2 - a*r = 2 + (b+1)*r computed
/// as conv with the complement).
pub open spec fn newton_step(b: Seq<u16>, rr: Seq<u16>) -> Seq<u16> {
    rq_mul_seq(plus2_seq(rq_mul_seq(rr, b)), rr)
}

/// Four Newton steps lifting an R_2 inverse of a to an R_q inverse; four
/// squarings of the error suffice for q up to 2^16.
pub open spec fn rq_newton4(ai: Seq<u16>, a: Seq<u16>) -> Seq<u16> {
    newton_step(bitnot_seq(a), newton_step(bitnot_seq(a), newton_step(bitnot_seq(a),
        newton_step(bitnot_seq(a), ai))))
}

/// Lifts an inverse of a in R_2 to an inverse in R_q by four Newton
/// iterations r <- r * (2 - a * r) mod (q, x^N - 1).
pub fn poly_r2_inv_to_rq_inv(r: &mut Poly, ai: Poly, a: &Poly)
    ensures
        final(r).coeffs@ == rq_newton4(ai.coeffs@, a.coeffs@),
{
    let mut b = Poly::new();
    let mut c = Poly::new();
    let mut s = Poly::new();

    let mut i: usize = 0;
    while i < 509
        invariant
            i <= 509,
            forall|k: int| 0 <= k < i ==> #[trigger] b.coeffs@[k] == !a.coeffs@[k],
        decreases 509 - i,
    {
        b.coeffs[i] = !a.coeffs[i];
        i += 1;
    }
    let mut i: usize = 0;
    while i < 509
        invariant
            i <= 509,
            forall|k: int| 0 <= k < i ==> #[trigger] r.coeffs@[k] == ai.coeffs@[k],
            forall|k: int| 0 <= k < 509 ==> #[trigger] b.coeffs@[k] == !a.coeffs@[k],
        decreases 509 - i,
    {
        r.coeffs[i] = ai.coeffs[i];
        i += 1;
    }
    let ghost bn = bitnot_seq(a.coeffs@);
    proof {
        assert(b.coeffs@ =~= bn);
        assert(r.coeffs@ =~= ai.coeffs@);
    }
    let ghost r0 = ai.coeffs@;

    // First step: s = r0 * (2 - a * r0).
    poly_rq_mul(&mut c, r, &b);
    proof {
        assert(c.coeffs@ =~= rq_mul_seq(r0, bn));
    }
    c.coeffs[0] = c.coeffs[0].wrapping_add(2);
    proof {
        assert(c.coeffs@ =~= plus2_seq(rq_mul_seq(r0, bn)));
    }
    poly_rq_mul(&mut s, &c, r);
    let ghost st1 = newton_step(bn, r0);
    proof {
        assert(s.coeffs@ =~= st1);
    }

    // Second step: r = s * (2 - a * s).
    poly_rq_mul(&mut c, &s, &b);
    proof {
        assert(c.coeffs@ =~= rq_mul_seq(st1, bn));
    }
    c.coeffs[0] = c.coeffs[0].wrapping_add(2);
    poly_rq_mul(r, &c, &s);
    let ghost st2 = newton_step(bn, st1);
    proof {
        assert(c.coeffs@ =~= plus2_seq(rq_mul_seq(st1, bn)));
        assert(r.coeffs@ =~= st2);
    }

    // Third step: s = r * (2 - a * r).
    poly_rq_mul(&mut c, r, &b);
    proof {
        assert(c.coeffs@ =~= rq_mul_seq(st2, bn));
    }
    c.coeffs[0] = c.coeffs[0].wrapping_add(2);
    poly_rq_mul(&mut s, &c, r);
    let ghost st3 = newton_step(bn, st2);
    proof {
        assert(c.coeffs@ =~= plus2_seq(rq_mul_seq(st2, bn)));
        assert(s.coeffs@ =~= st3);
    }

    // Fourth step: r = s * (2 - a * s).
    poly_rq_mul(&mut c, &s, &b);
    proof {
        assert(c.coeffs@ =~= rq_mul_seq(st3, bn));
    }
    c.coeffs[0] = c.coeffs[0].wrapping_add(2);
    poly_rq_mul(r, &c, &s);
    proof {
        assert(c.coeffs@ =~= plus2_seq(rq_mul_seq(st3, bn)));
        assert(r.coeffs@ =~= newton_step(bn, st3));
    }
}

/// Computes the inverse of a in S_q: an almost-inverse over F_2 followed by
/// the Newton lift. The result is the four-step lift of some bit polynomial
/// with zero top coefficient; when a is invertible the lifted value inverts
/// a mod (q, Phi_N).
pub fn poly_rq_inv(r: &mut Poly, a: &Poly)
    ensures
        final(r).coeffs@
            == rq_newton4(crate::poly_r2_inv::r2_inv_spec(a.coeffs@), a.coeffs@),
{
    let mut ai2 = Poly::new();
    crate::poly_r2_inv::poly_r2_inv(&mut ai2, a);
    poly_r2_inv_to_rq_inv(r, ai2, a);
}

} // verus!

