//! Packing of R_q and S_q polynomials: 508 coefficients of 11 bits each,
//! laid out as little-endian bit fields over 699 bytes. The top coefficient
//! is not stored; the sum-zero codec reconstructs it so that the coefficient
//! sum vanishes mod q.

use vstd::prelude::*;
use vstd::arithmetic::div_mod::lemma_small_mod;
use vstd::arithmetic::div_mod::lemma_mod_multiples_vanish;
use crate::poly::Poly;

verus! {

/// Coefficient i reduced to its 11-bit field.
pub open spec fn sq_field(a: Seq<u16>, i: int) -> u16 {
    a[i] & 2047
}

/// Byte j < 693 of the packed form: the eight coefficients of group j / 11
/// contribute the bits of lane j % 11.
pub open spec fn sq_byte(a: Seq<u16>, j: int) -> u8 {
    let g = j / 11;
    let k = j % 11;
    let t0 = sq_field(a, 8 * g);
    let t1 = sq_field(a, 8 * g + 1);
    let t2 = sq_field(a, 8 * g + 2);
    let t3 = sq_field(a, 8 * g + 3);
    let t4 = sq_field(a, 8 * g + 4);
    let t5 = sq_field(a, 8 * g + 5);
    let t6 = sq_field(a, 8 * g + 6);
    let t7 = sq_field(a, 8 * g + 7);
    (if k == 0 {
        t0 & 0xff
    } else if k == 1 {
        (t0 >> 8) | ((t1 & 0x1f) << 3)
    } else if k == 2 {
        (t1 >> 5) | ((t2 & 0x03) << 6)
    } else if k == 3 {
        (t2 >> 2) & 0xff
    } else if k == 4 {
        (t2 >> 10) | ((t3 & 0x7f) << 1)
    } else if k == 5 {
        (t3 >> 7) | ((t4 & 0x0f) << 4)
    } else if k == 6 {
        (t4 >> 4) | ((t5 & 0x01) << 7)
    } else if k == 7 {
        (t5 >> 1) & 0xff
    } else if k == 8 {
        (t5 >> 9) | ((t6 & 0x3f) << 2)
    } else if k == 9 {
        (t6 >> 6) | ((t7 & 0x07) << 5)
    } else {
        t7 >> 3
    }) as u8
}

/// Byte 693 + k of the packed form: the four remaining coefficients 504..507
/// fill 44 bits; the top four bits of the final byte stay clear.
pub open spec fn sq_tail_byte(a: Seq<u16>, k: int) -> u8 {
    let t0 = sq_field(a, 504);
    let t1 = sq_field(a, 505);
    let t2 = sq_field(a, 506);
    let t3 = sq_field(a, 507);
    (if k == 0 {
        t0 & 0xff
    } else if k == 1 {
        (t0 >> 8) | ((t1 & 0x1f) << 3)
    } else if k == 2 {
        (t1 >> 5) | ((t2 & 0x03) << 6)
    } else if k == 3 {
        (t2 >> 2) & 0xff
    } else if k == 4 {
        (t2 >> 10) | ((t3 & 0x7f) << 1)
    } else {
        t3 >> 7
    }) as u8
}

/// Coefficient i < 508 read back from the packed bytes.
pub open spec fn sq_coeff(m: Seq<u8>, i: int) -> u16 {
    let g = i / 8;
    let k = i % 8;
    let b0 = m[11 * g] as u16;
    let b1 = m[11 * g + 1] as u16;
    let b2 = m[11 * g + 2] as u16;
    let b3 = m[11 * g + 3] as u16;
    let b4 = m[11 * g + 4] as u16;
    if i >= 504 {
        let k4 = i - 504;
        if k4 == 0 {
            b0 | ((b1 & 0x07) << 8)
        } else if k4 == 1 {
            (b1 >> 3) | ((b2 & 0x3f) << 5)
        } else if k4 == 2 {
            (b2 >> 6) | (b3 << 2) | ((b4 & 0x01) << 10)
        } else {
            (b4 >> 1) | ((m[698] as u16 & 0x0f) << 7)
        }
    } else {
        let b5 = m[11 * g + 5] as u16;
        let b6 = m[11 * g + 6] as u16;
        let b7 = m[11 * g + 7] as u16;
        let b8 = m[11 * g + 8] as u16;
        let b9 = m[11 * g + 9] as u16;
        let b10 = m[11 * g + 10] as u16;
        if k == 0 {
            b0 | ((b1 & 0x07) << 8)
        } else if k == 1 {
            (b1 >> 3) | ((b2 & 0x3f) << 5)
        } else if k == 2 {
            (b2 >> 6) | (b3 << 2) | ((b4 & 0x01) << 10)
        } else if k == 3 {
            (b4 >> 1) | ((b5 & 0x0f) << 7)
        } else if k == 4 {
            (b5 >> 4) | ((b6 & 0x7f) << 4)
        } else if k == 5 {
            (b6 >> 7) | (b7 << 1) | ((b8 & 0x03) << 9)
        } else if k == 6 {
            (b8 >> 2) | ((b9 & 0x1f) << 6)
        } else {
            (b9 >> 5) | (b10 << 3)
        }
    }
}

proof fn lemma_sq_unpack_bounds(
    b0: u16, b1: u16, b2: u16, b3: u16, b4: u16, b5: u16,
    b6: u16, b7: u16, b8: u16, b9: u16, b10: u16,
)
    by (bit_vector)
    requires
        b0 <= 255 && b1 <= 255 && b2 <= 255 && b3 <= 255 && b4 <= 255 && b5 <= 255,
        b6 <= 255 && b7 <= 255 && b8 <= 255 && b9 <= 255 && b10 <= 255,
    ensures
        (b0 | ((b1 & 0x07) << 8)) < 2048,
        ((b1 >> 3) | ((b2 & 0x3f) << 5)) < 2048,
        ((b2 >> 6) | (b3 << 2) | ((b4 & 0x01) << 10)) < 2048,
        ((b4 >> 1) | ((b5 & 0x0f) << 7)) < 2048,
        ((b5 >> 4) | ((b6 & 0x7f) << 4)) < 2048,
        ((b6 >> 7) | (b7 << 1) | ((b8 & 0x03) << 9)) < 2048,
        ((b8 >> 2) | ((b9 & 0x1f) << 6)) < 2048,
        ((b9 >> 5) | (b10 << 3)) < 2048,
{
}

/// Packs the 508 low coefficients of a, each reduced mod q, as contiguous
/// little-endian 11-bit fields.
pub fn poly_sq_tobytes(msg: &mut [u8; 699], a: &Poly)
    ensures
        forall|j: int| 0 <= j < 693 ==> final(msg)@[j] == sq_byte(a.coeffs@, j),
        forall|k: int| 0 <= k < 6 ==> final(msg)@[693 + k] == sq_tail_byte(a.coeffs@, k),
{
    let mut g: usize = 0;
    while g < 63
        invariant
            g <= 63,
            forall|j: int| 0 <= j < 11 * g ==> msg@[j] == sq_byte(a.coeffs@, j),
        decreases 63 - g,
    {
        let t0: u16 = a.coeffs[8 * g] & 2047;
        let t1: u16 = a.coeffs[8 * g + 1] & 2047;
        let t2: u16 = a.coeffs[8 * g + 2] & 2047;
        let t3: u16 = a.coeffs[8 * g + 3] & 2047;
        let t4: u16 = a.coeffs[8 * g + 4] & 2047;
        let t5: u16 = a.coeffs[8 * g + 5] & 2047;
        let t6: u16 = a.coeffs[8 * g + 6] & 2047;
        let t7: u16 = a.coeffs[8 * g + 7] & 2047;
        msg[11 * g] = #[verifier::truncate] ((t0 & 0xff) as u8);
        msg[11 * g + 1] = #[verifier::truncate] (((t0 >> 8) | ((t1 & 0x1f) << 3)) as u8);
        msg[11 * g + 2] = #[verifier::truncate] (((t1 >> 5) | ((t2 & 0x03) << 6)) as u8);
        msg[11 * g + 3] = #[verifier::truncate] (((t2 >> 2) & 0xff) as u8);
        msg[11 * g + 4] = #[verifier::truncate] (((t2 >> 10) | ((t3 & 0x7f) << 1)) as u8);
        msg[11 * g + 5] = #[verifier::truncate] (((t3 >> 7) | ((t4 & 0x0f) << 4)) as u8);
        msg[11 * g + 6] = #[verifier::truncate] (((t4 >> 4) | ((t5 & 0x01) << 7)) as u8);
        msg[11 * g + 7] = #[verifier::truncate] (((t5 >> 1) & 0xff) as u8);
        msg[11 * g + 8] = #[verifier::truncate] (((t5 >> 9) | ((t6 & 0x3f) << 2)) as u8);
        msg[11 * g + 9] = #[verifier::truncate] (((t6 >> 6) | ((t7 & 0x07) << 5)) as u8);
        msg[11 * g + 10] = #[verifier::truncate] ((t7 >> 3) as u8);
        proof {
            assert forall|j: int| 11 * g <= j < 11 * g + 11 implies
                (#[trigger] (j / 11)) == g && j % 11 == j - 11 * g by {
                vstd::arithmetic::div_mod::lemma_fundamental_div_mod_converse(
                    j, 11, g as int, j - 11 * g);
            }
        }
        g += 1;
    }
    let t0: u16 = a.coeffs[504] & 2047;
    let t1: u16 = a.coeffs[505] & 2047;
    let t2: u16 = a.coeffs[506] & 2047;
    let t3: u16 = a.coeffs[507] & 2047;
    msg[693] = #[verifier::truncate] ((t0 & 0xff) as u8);
    msg[694] = #[verifier::truncate] (((t0 >> 8) | ((t1 & 0x1f) << 3)) as u8);
    msg[695] = #[verifier::truncate] (((t1 >> 5) | ((t2 & 0x03) << 6)) as u8);
    msg[696] = #[verifier::truncate] (((t2 >> 2) & 0xff) as u8);
    msg[697] = #[verifier::truncate] (((t2 >> 10) | ((t3 & 0x7f) << 1)) as u8);
    msg[698] = #[verifier::truncate] ((t3 >> 7) as u8);
}

/// Unpacks 699 bytes into the 508 low coefficients, each below 2048; the top
/// coefficient is set to zero.
pub fn poly_sq_frombytes(r: &mut Poly, a: &[u8; 699])
    ensures
        forall|i: int| 0 <= i < 508 ==> final(r).coeffs@[i] == sq_coeff(a@, i),
        final(r).coeffs@[508] == 0,
        forall|i: int| 0 <= i < 509 ==> final(r).coeffs@[i] < 2048,
{
    let ghost m = a@;
    let mut g: usize = 0;
    while g < 63
        invariant
            g <= 63,
            m == a@,
            forall|i: int| 0 <= i < 8 * g ==>
                #[trigger] r.coeffs@[i] == sq_coeff(m, i) && r.coeffs@[i] < 2048,
        decreases 63 - g,
    {
        let b0: u16 = a[11 * g] as u16;
        let b1: u16 = a[11 * g + 1] as u16;
        let b2: u16 = a[11 * g + 2] as u16;
        let b3: u16 = a[11 * g + 3] as u16;
        let b4: u16 = a[11 * g + 4] as u16;
        let b5: u16 = a[11 * g + 5] as u16;
        let b6: u16 = a[11 * g + 6] as u16;
        let b7: u16 = a[11 * g + 7] as u16;
        let b8: u16 = a[11 * g + 8] as u16;
        let b9: u16 = a[11 * g + 9] as u16;
        let b10: u16 = a[11 * g + 10] as u16;
        proof {
            lemma_sq_unpack_bounds(b0, b1, b2, b3, b4, b5, b6, b7, b8, b9, b10);
        }
        r.coeffs[8 * g] = b0 | ((b1 & 0x07) << 8);
        r.coeffs[8 * g + 1] = (b1 >> 3) | ((b2 & 0x3f) << 5);
        r.coeffs[8 * g + 2] = (b2 >> 6) | (b3 << 2) | ((b4 & 0x01) << 10);
        r.coeffs[8 * g + 3] = (b4 >> 1) | ((b5 & 0x0f) << 7);
        r.coeffs[8 * g + 4] = (b5 >> 4) | ((b6 & 0x7f) << 4);
        r.coeffs[8 * g + 5] = (b6 >> 7) | (b7 << 1) | ((b8 & 0x03) << 9);
        r.coeffs[8 * g + 6] = (b8 >> 2) | ((b9 & 0x1f) << 6);
        r.coeffs[8 * g + 7] = (b9 >> 5) | (b10 << 3);
        proof {
            assert forall|i: int| 8 * g <= i < 8 * g + 8 implies
                (#[trigger] (i / 8)) == g && i % 8 == i - 8 * g by {
                vstd::arithmetic::div_mod::lemma_fundamental_div_mod_converse(
                    i, 8, g as int, i - 8 * g);
            }
        }
        g += 1;
    }
    let b0: u16 = a[693] as u16;
    let b1: u16 = a[694] as u16;
    let b2: u16 = a[695] as u16;
    let b3: u16 = a[696] as u16;
    let b4: u16 = a[697] as u16;
    let b5: u16 = a[698] as u16;
    proof {
        lemma_sq_unpack_bounds(b0, b1, b2, b3, b4, b5, 0, 0, 0, 0, 0);
    }
    r.coeffs[504] = b0 | ((b1 & 0x07) << 8);
    r.coeffs[505] = (b1 >> 3) | ((b2 & 0x3f) << 5);
    r.coeffs[506] = (b2 >> 6) | (b3 << 2) | ((b4 & 0x01) << 10);
    r.coeffs[507] = (b4 >> 1) | ((b5 & 0x0f) << 7);
    r.coeffs[508] = 0;
}

/// The sum of the unpacked coefficients below n.
pub open spec fn sq_sum(m: Seq<u8>, n: int) -> int
    decreases n,
{
    if n <= 0 {
        0
    } else {
        sq_sum(m, n - 1) + sq_coeff(m, n - 1)
    }
}

/// The sum of the coefficients below n.
pub open spec fn coeff_sum(a: Seq<u16>, n: int) -> int
    decreases n,
{
    if n <= 0 {
        0
    } else {
        coeff_sum(a, n - 1) + a[n - 1]
    }
}

/// Packs an R_q polynomial with the sum-zero convention: identical to the
/// plain S_q packing, since the top coefficient is implicit.
pub fn poly_rq_sum_zero_tobytes(msg: &mut [u8; 699], a: &Poly)
    ensures
        forall|j: int| 0 <= j < 693 ==> final(msg)@[j] == sq_byte(a.coeffs@, j),
        forall|k: int| 0 <= k < 6 ==> final(msg)@[693 + k] == sq_tail_byte(a.coeffs@, k),
{
    poly_sq_tobytes(msg, a);
}

/// Unpacks an R_q polynomial with the sum-zero convention: the stored 508
/// coefficients, and a top coefficient that makes the sum vanish (computed
/// mod 2^16, which contains mod q).
pub fn poly_rq_sum_zero_frombytes(r: &mut Poly, a: &[u8; 699])
    ensures
        forall|i: int| 0 <= i < 508 ==> final(r).coeffs@[i] == sq_coeff(a@, i),
        forall|i: int| 0 <= i < 508 ==> final(r).coeffs@[i] < 2048,
        final(r).coeffs@[508] == (0 - sq_sum(a@, 508)) % 0x10000,
{
    broadcast use crate::arith::lemma_wsub16;

    poly_sq_frombytes(r, a);
    let ghost m = a@;
    let mut t: u16 = 0;
    let mut i: usize = 0;
    while i < 508
        invariant
            i <= 508,
            t == (0 - sq_sum(m, i as int)) % 0x10000,
            forall|k: int| 0 <= k < 508 ==>
                #[trigger] r.coeffs@[k] == sq_coeff(m, k) && r.coeffs@[k] < 2048,
        decreases 508 - i,
    {
        let ghost t_old = t;
        let c: u16 = r.coeffs[i];
        t = t.wrapping_sub(c);
        proof {
            let s_i = sq_sum(m, i as int);
            lemma_small_mod(c as nat, 0x10000nat);
            vstd::arithmetic::div_mod::lemma_sub_mod_noop(0 - s_i, c as int, 0x10000);
            assert(sq_sum(m, i + 1) == s_i + c);
            assert(t == ((0 - s_i) % 0x10000 - (c as int) % 0x10000) % 0x10000);
            assert(t == (0 - sq_sum(m, i + 1)) % 0x10000);
        }
        i += 1;
    }
    r.coeffs[508] = t;
}

proof fn lemma_sq_group_recover(
    t0: u16, t1: u16, t2: u16, t3: u16, t4: u16, t5: u16, t6: u16, t7: u16,
    b0: u8, b1: u8, b2: u8, b3: u8, b4: u8, b5: u8, b6: u8, b7: u8, b8: u8, b9: u8, b10: u8,
)
    by (bit_vector)
    requires
        t0 < 2048 && t1 < 2048 && t2 < 2048 && t3 < 2048,
        t4 < 2048 && t5 < 2048 && t6 < 2048 && t7 < 2048,
        b0 == (t0 & 0xff) as u8,
        b1 == ((t0 >> 8) | ((t1 & 0x1f) << 3)) as u8,
        b2 == ((t1 >> 5) | ((t2 & 0x03) << 6)) as u8,
        b3 == ((t2 >> 2) & 0xff) as u8,
        b4 == ((t2 >> 10) | ((t3 & 0x7f) << 1)) as u8,
        b5 == ((t3 >> 7) | ((t4 & 0x0f) << 4)) as u8,
        b6 == ((t4 >> 4) | ((t5 & 0x01) << 7)) as u8,
        b7 == ((t5 >> 1) & 0xff) as u8,
        b8 == ((t5 >> 9) | ((t6 & 0x3f) << 2)) as u8,
        b9 == ((t6 >> 6) | ((t7 & 0x07) << 5)) as u8,
        b10 == (t7 >> 3) as u8,
    ensures
        (b0 as u16) | (((b1 as u16) & 0x07) << 8) == t0,
        ((b1 as u16) >> 3) | (((b2 as u16) & 0x3f) << 5) == t1,
        ((b2 as u16) >> 6) | ((b3 as u16) << 2) | (((b4 as u16) & 0x01) << 10) == t2,
        ((b4 as u16) >> 1) | (((b5 as u16) & 0x0f) << 7) == t3,
        ((b5 as u16) >> 4) | (((b6 as u16) & 0x7f) << 4) == t4,
        ((b6 as u16) >> 7) | ((b7 as u16) << 1) | (((b8 as u16) & 0x03) << 9) == t5,
        ((b8 as u16) >> 2) | (((b9 as u16) & 0x1f) << 6) == t6,
        ((b9 as u16) >> 5) | ((b10 as u16) << 3) == t7,
{
}

proof fn lemma_sq_tail_recover(
    t0: u16, t1: u16, t2: u16, t3: u16,
    b0: u8, b1: u8, b2: u8, b3: u8, b4: u8, b5: u8,
)
    by (bit_vector)
    requires
        t0 < 2048 && t1 < 2048 && t2 < 2048 && t3 < 2048,
        b0 == (t0 & 0xff) as u8,
        b1 == ((t0 >> 8) | ((t1 & 0x1f) << 3)) as u8,
        b2 == ((t1 >> 5) | ((t2 & 0x03) << 6)) as u8,
        b3 == ((t2 >> 2) & 0xff) as u8,
        b4 == ((t2 >> 10) | ((t3 & 0x7f) << 1)) as u8,
        b5 == (t3 >> 7) as u8,
    ensures
        (b0 as u16) | (((b1 as u16) & 0x07) << 8) == t0,
        ((b1 as u16) >> 3) | (((b2 as u16) & 0x3f) << 5) == t1,
        ((b2 as u16) >> 6) | ((b3 as u16) << 2) | (((b4 as u16) & 0x01) << 10) == t2,
        ((b4 as u16) >> 1) | (((b5 as u16) & 0x0f) << 7) == t3,
        b5 < 16,
{
}

proof fn lemma_field_is_value(x: u16)
    by (bit_vector)
    requires
        x < 2048,
    ensures
        (x & 2047) == x,
{
}

/// Unpacking after packing recovers every stored coefficient exactly.
proof fn lemma_sq_coeff_recover(a: Seq<u16>, m: Seq<u8>, i: int)
    requires
        a.len() == 509,
        m.len() == 699,
        forall|k: int| 0 <= k < 509 ==> #[trigger] a[k] < 2048,
        forall|j: int| 0 <= j < 693 ==> #[trigger] m[j] == sq_byte(a, j),
        forall|k: int| 0 <= k < 6 ==> #[trigger] m[693 + k] == sq_tail_byte(a, k),
        0 <= i < 508,
    ensures
        sq_coeff(m, i) == a[i],
{
    let g = i / 8;
    let k = i % 8;
    vstd::arithmetic::div_mod::lemma_fundamental_div_mod(i, 8);
    vstd::arithmetic::div_mod::lemma_mod_bound(i, 8);
    assert(0 <= g <= 63) by {
        vstd::arithmetic::div_mod::lemma_div_is_ordered(i, 507, 8);
    }
    assert forall|x: int| 0 <= x < 509 && a[x] < 2048 implies (#[trigger] sq_field(a, x)) == a[x] by {
        lemma_field_is_value(a[x]);
    }
    if i < 504 {
        assert(g < 63);
        assert forall|j: int| 11 * g <= j < 11 * g + 11 implies
            (#[trigger] (j / 11)) == g && j % 11 == j - 11 * g by {
            vstd::arithmetic::div_mod::lemma_fundamental_div_mod_converse(
                j, 11, g, j - 11 * g);
        }
        lemma_sq_group_recover(
            a[8 * g], a[8 * g + 1], a[8 * g + 2], a[8 * g + 3],
            a[8 * g + 4], a[8 * g + 5], a[8 * g + 6], a[8 * g + 7],
            m[11 * g], m[11 * g + 1], m[11 * g + 2], m[11 * g + 3], m[11 * g + 4],
            m[11 * g + 5], m[11 * g + 6], m[11 * g + 7], m[11 * g + 8], m[11 * g + 9],
            m[11 * g + 10],
        );
    } else {
        assert(g == 63);
        assert(m[693 + 0int] == sq_tail_byte(a, 0));
        assert(m[693 + 1int] == sq_tail_byte(a, 1));
        assert(m[693 + 2int] == sq_tail_byte(a, 2));
        assert(m[693 + 3int] == sq_tail_byte(a, 3));
        assert(m[693 + 4int] == sq_tail_byte(a, 4));
        assert(m[693 + 5int] == sq_tail_byte(a, 5));
        lemma_sq_tail_recover(
            a[504], a[505], a[506], a[507],
            m[693], m[694], m[695], m[696], m[697], m[698],
        );
    }
}

/// Unpacked coefficients that agree with a pointwise have the same sum.
proof fn lemma_sq_sum_matches(a: Seq<u16>, m: Seq<u8>, n: int)
    requires
        forall|i: int| 0 <= i < n ==> #[trigger] sq_coeff(m, i) == a[i],
    ensures
        sq_sum(m, n) == coeff_sum(a, n),
    decreases n,
{
    if n > 0 {
        lemma_sq_sum_matches(a, m, n - 1);
    }
}

/// Packing an R_q polynomial with the sum-zero convention and unpacking it
/// again is the identity: the 508 stored coefficients return exactly, and
/// the reconstructed top coefficient agrees mod q whenever the input's
/// coefficient sum vanished mod q.
pub proof fn lemma_sq_pack_round_trip(a: Seq<u16>, m: Seq<u8>, r: Seq<u16>)
    requires
        a.len() == 509,
        m.len() == 699,
        r.len() == 509,
        forall|k: int| 0 <= k < 509 ==> #[trigger] a[k] < 2048,
        forall|j: int| 0 <= j < 693 ==> #[trigger] m[j] == sq_byte(a, j),
        forall|k: int| 0 <= k < 6 ==> #[trigger] m[693 + k] == sq_tail_byte(a, k),
        forall|i: int| 0 <= i < 508 ==> #[trigger] r[i] == sq_coeff(m, i),
        r[508] == (0 - sq_sum(m, 508)) % 0x10000,
        coeff_sum(a, 509) % 2048 == 0,
    ensures
        forall|i: int| 0 <= i < 508 ==> #[trigger] r[i] == a[i],
        r[508] % 2048 == a[508],
{
    assert forall|i: int| 0 <= i < 508 implies #[trigger] sq_coeff(m, i) == a[i] by {
        lemma_sq_coeff_recover(a, m, i);
    }
    lemma_sq_sum_matches(a, m, 508);
    let s = coeff_sum(a, 508);
    assert(coeff_sum(a, 509) == s + a[508]);
    let q508 = (0 - s) % 0x10000;
    // Reduce the mod-2^16 value mod 2048: multiples of 2^16 vanish mod 2048.
    vstd::arithmetic::div_mod::lemma_fundamental_div_mod(0 - s, 0x10000);
    let quo = (0 - s) / 0x10000;
    assert(q508 == (0 - s) - 0x10000 * quo);
    assert(q508 % 2048 == ((0 - s) + 2048 * ((-32) * quo)) % 2048) by {
        assert((0 - s) - 0x10000 * quo == (0 - s) + 2048 * ((-32) * quo)) by (nonlinear_arith);
    }
    lemma_mod_multiples_vanish((-32) * quo, 0 - s, 2048);
    // The sum condition turns -s into a[508] mod 2048.
    let quo2 = (s + a[508]) / 2048;
    vstd::arithmetic::div_mod::lemma_fundamental_div_mod(s + a[508], 2048);
    assert(s + a[508] == 2048 * quo2);
    assert(0 - s == a[508] - 2048 * quo2);
    lemma_mod_multiples_vanish(-quo2, a[508] as int, 2048);
    assert((0 - s) % 2048 == a[508] % 2048);
    lemma_small_mod(a[508] as nat, 2048nat);
}

} // verus!
