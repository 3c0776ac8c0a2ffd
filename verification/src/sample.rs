//! Sampling of the secret polynomials from uniform bytes: the split of the
//! (f, g) and (r, m) seed buffers, the HPS fixed-weight sampler built on the
//! oblivious sort, and the HRSS sign-adjusted IID sampler.

use vstd::prelude::*;
use crate::counts::count16;
use crate::counts::count_tag;
use crate::counts::lemma_count_of_masked;
use crate::counts::lemma_count_tag_classified;
use crate::counts::lemma_count_tag_permutation;
use crate::crypto_sort_int32::crypto_sort_int32;
use crate::crypto_sort_int32::sorted_of;
use crate::poly::Poly;
use crate::sample_iid::sample_iid;

verus! {

broadcast use crate::arith::lemma_i32_low2;

/// The 30-bit sort key gathered for coefficient t: 15 input bytes fill four
/// keys, little-endian within each lane, with the low two bits left clear.
pub open spec fn raw_tag(u: Seq<u8>, t: int) -> i32 {
    let i = t / 4;
    (if t % 4 == 0 {
        vstd::wrapping::u32_specs::wrapping_add(
            vstd::wrapping::u32_specs::wrapping_add(
                vstd::wrapping::u32_specs::wrapping_add(
                    (u[15 * i] as u32) << 2, (u[15 * i + 1] as u32) << 10),
                (u[15 * i + 2] as u32) << 18),
            (u[15 * i + 3] as u32) << 26)
    } else if t % 4 == 1 {
        vstd::wrapping::u32_specs::wrapping_add(
            vstd::wrapping::u32_specs::wrapping_add(
                vstd::wrapping::u32_specs::wrapping_add(
                    vstd::wrapping::u32_specs::wrapping_add(
                        ((u[15 * i + 3] as u32) & 0xc0) >> 4, (u[15 * i + 4] as u32) << 4),
                    (u[15 * i + 5] as u32) << 12),
                (u[15 * i + 6] as u32) << 20),
            (u[15 * i + 7] as u32) << 28)
    } else if t % 4 == 2 {
        vstd::wrapping::u32_specs::wrapping_add(
            vstd::wrapping::u32_specs::wrapping_add(
                vstd::wrapping::u32_specs::wrapping_add(
                    vstd::wrapping::u32_specs::wrapping_add(
                        ((u[15 * i + 7] as u32) & 0xf0) >> 2, (u[15 * i + 8] as u32) << 6),
                    (u[15 * i + 9] as u32) << 14),
                (u[15 * i + 10] as u32) << 22),
            (u[15 * i + 11] as u32) << 30)
    } else {
        vstd::wrapping::u32_specs::wrapping_add(
            vstd::wrapping::u32_specs::wrapping_add(
                vstd::wrapping::u32_specs::wrapping_add(
                    (u[15 * i + 11] as u32) & 0xfc, (u[15 * i + 12] as u32) << 8),
                (u[15 * i + 13] as u32) << 16),
            (u[15 * i + 14] as u32) << 24)
    }) as i32
}

/// The finished sort key: the value 1 is OR'd into the first weight/2 keys
/// and the value 2 into the next weight/2, so that the low two bits carry
/// the coefficient through the sort.
pub open spec fn tag_of(u: Seq<u8>, t: int) -> i32 {
    if t < 127 {
        raw_tag(u, t) | 1
    } else if t < 254 {
        raw_tag(u, t) | 2
    } else {
        raw_tag(u, t)
    }
}

/// All 508 sort keys of a fixed-type draw.
pub open spec fn tags_of(u: Seq<u8>) -> Seq<i32> {
    Seq::new(508, |t: int| tag_of(u, t))
}

/// The fixed-weight polynomial that the sampler derives from its input: the
/// low two bits of the ascending reordering of the keys, and a zero top
/// coefficient.
pub open spec fn fixed_type_poly(u: Seq<u8>) -> Seq<u16> {
    Seq::new(509, |i: int| if i < 508 {
        (sorted_of(tags_of(u))[i] & 3) as u16
    } else {
        0u16
    })
}

proof fn lemma_tag_low2(
    u0: u8, u1: u8, u2: u8, u3: u8, u4: u8, u5: u8, u6: u8, u7: u8, u8v: u8, u9: u8,
    u10: u8, u11: u8, u12: u8, u13: u8, u14: u8,
    s0: i32, s1: i32, s2: i32, s3: i32,
)
    by (bit_vector)
    requires
        s0 == vstd::wrapping::u32_specs::wrapping_add(
            vstd::wrapping::u32_specs::wrapping_add(
                vstd::wrapping::u32_specs::wrapping_add(
                    (u0 as u32) << 2, (u1 as u32) << 10), (u2 as u32) << 18),
            (u3 as u32) << 26) as i32,
        s1 == vstd::wrapping::u32_specs::wrapping_add(
            vstd::wrapping::u32_specs::wrapping_add(
                vstd::wrapping::u32_specs::wrapping_add(
                    vstd::wrapping::u32_specs::wrapping_add(
                        ((u3 as u32) & 0xc0) >> 4, (u4 as u32) << 4), (u5 as u32) << 12),
                (u6 as u32) << 20), (u7 as u32) << 28) as i32,
        s2 == vstd::wrapping::u32_specs::wrapping_add(
            vstd::wrapping::u32_specs::wrapping_add(
                vstd::wrapping::u32_specs::wrapping_add(
                    vstd::wrapping::u32_specs::wrapping_add(
                        ((u7 as u32) & 0xf0) >> 2, (u8v as u32) << 6), (u9 as u32) << 14),
                (u10 as u32) << 22), (u11 as u32) << 30) as i32,
        s3 == vstd::wrapping::u32_specs::wrapping_add(
            vstd::wrapping::u32_specs::wrapping_add(
                vstd::wrapping::u32_specs::wrapping_add(
                    (u11 as u32) & 0xfc, (u12 as u32) << 8), (u13 as u32) << 16),
            (u14 as u32) << 24) as i32,
    ensures
        s0 & 3 == 0,
        s1 & 3 == 0,
        s2 & 3 == 0,
        s3 & 3 == 0,
{
}

/// Produces a trinary polynomial with exactly 127 coefficients equal to 1,
/// 127 equal to 2, the rest 0, and the top coefficient 0. 30 entropy bits of
/// the input select each coefficient's position: the bits become sort keys
/// whose low two bits carry the value, and the oblivious sort permutes them
/// without revealing which key went where.
fn sample_fixed_type(r: &mut Poly, u: [u8; 1905])
    ensures
        final(r).coeffs@ == fixed_type_poly(u@),
        final(r).coeffs@[508] == 0,
        forall|i: int| 0 <= i < 509 ==> final(r).coeffs@[i] <= 2,
        count16(final(r).coeffs@.take(508), 1) == 127,
        count16(final(r).coeffs@.take(508), 2) == 127,
        count16(final(r).coeffs@.take(508), 0) == 254,
{
    let mut s: [i32; 508] = [0i32; 508];

    let mut i: usize = 0;
    while i < 127
        invariant
            i <= 127,
            forall|k: int| 0 <= k < 4 * i ==> (#[trigger] s@[k]) & 3 == 0,
            forall|k: int| 0 <= k < 4 * i ==> #[trigger] s@[k] == raw_tag(u@, k),
        decreases 127 - i,
    {
        let base: usize = 15 * i;
        let t0: u32 = ((u[base] as u32) << 2)
            .wrapping_add((u[base + 1] as u32) << 10)
            .wrapping_add((u[base + 2] as u32) << 18)
            .wrapping_add((u[base + 3] as u32) << 26);
        let t1: u32 = (((u[base + 3] as u32) & 0xc0) >> 4)
            .wrapping_add((u[base + 4] as u32) << 4)
            .wrapping_add((u[base + 5] as u32) << 12)
            .wrapping_add((u[base + 6] as u32) << 20)
            .wrapping_add((u[base + 7] as u32) << 28);
        let t2: u32 = (((u[base + 7] as u32) & 0xf0) >> 2)
            .wrapping_add((u[base + 8] as u32) << 6)
            .wrapping_add((u[base + 9] as u32) << 14)
            .wrapping_add((u[base + 10] as u32) << 22)
            .wrapping_add((u[base + 11] as u32) << 30);
        let t3: u32 = ((u[base + 11] as u32) & 0xfc)
            .wrapping_add((u[base + 12] as u32) << 8)
            .wrapping_add((u[base + 13] as u32) << 16)
            .wrapping_add((u[base + 14] as u32) << 24);
        let v0: i32 = #[verifier::truncate] (t0 as i32);
        let v1: i32 = #[verifier::truncate] (t1 as i32);
        let v2: i32 = #[verifier::truncate] (t2 as i32);
        let v3: i32 = #[verifier::truncate] (t3 as i32);
        proof {
            lemma_tag_low2(
                u@[base as int], u@[base + 1], u@[base + 2], u@[base + 3], u@[base + 4],
                u@[base + 5], u@[base + 6], u@[base + 7], u@[base + 8], u@[base + 9],
                u@[base + 10], u@[base + 11], u@[base + 12], u@[base + 13], u@[base + 14],
                v0, v1, v2, v3,
            );
        }
        s[4 * i] = v0;
        s[4 * i + 1] = v1;
        s[4 * i + 2] = v2;
        s[4 * i + 3] = v3;
        proof {
            assert forall|t: int| 4 * i <= t < 4 * i + 4 implies
                (#[trigger] (t / 4)) == i && t % 4 == t - 4 * i by {
                vstd::arithmetic::div_mod::lemma_fundamental_div_mod_converse(
                    t, 4, i as int, t - 4 * i);
            }
            assert(s@[4 * i as int] == raw_tag(u@, 4 * i as int));
            assert(s@[4 * i as int + 1] == raw_tag(u@, 4 * i as int + 1));
            assert(s@[4 * i as int + 2] == raw_tag(u@, 4 * i as int + 2));
            assert(s@[4 * i as int + 3] == raw_tag(u@, 4 * i as int + 3));
        }
        i += 1;
    }

    let mut i: usize = 0;
    while i < 127
        invariant
            i <= 127,
            forall|k: int| 0 <= k < i ==> (#[trigger] s@[k]) & 3 == 1,
            forall|k: int| i <= k < 508 ==> (#[trigger] s@[k]) & 3 == 0,
            forall|k: int| 0 <= k < i ==> #[trigger] s@[k] == tag_of(u@, k),
            forall|k: int| i <= k < 508 ==> #[trigger] s@[k] == raw_tag(u@, k),
        decreases 127 - i,
    {
        s[i] = s[i] | 1;
        i += 1;
    }
    let mut i: usize = 127;
    while i < 254
        invariant
            127 <= i <= 254,
            forall|k: int| 0 <= k < 127 ==> (#[trigger] s@[k]) & 3 == 1,
            forall|k: int| 127 <= k < i ==> (#[trigger] s@[k]) & 3 == 2,
            forall|k: int| i <= k < 508 ==> (#[trigger] s@[k]) & 3 == 0,
            forall|k: int| 0 <= k < i ==> #[trigger] s@[k] == tag_of(u@, k),
            forall|k: int| i <= k < 508 ==> #[trigger] s@[k] == raw_tag(u@, k),
        decreases 254 - i,
    {
        s[i] = s[i] | 2;
        i += 1;
    }

    let ghost tags = s@;
    proof {
        lemma_count_tag_classified(tags, 127, 254);
        assert(tags =~= tags_of(u@));
    }

    crypto_sort_int32(&mut s);
    proof {
        lemma_count_tag_permutation(tags, s@, 1);
        lemma_count_tag_permutation(tags, s@, 2);
        lemma_count_tag_permutation(tags, s@, 0);
        assert(s@ == sorted_of(tags_of(u@)));
    }

    let ghost sorted = s@;
    let mut i: usize = 0;
    while i < 508
        invariant
            i <= 508,
            sorted == s@,
            forall|k: int| 0 <= k < i ==>
                (#[trigger] r.coeffs@[k]) == (sorted[k] & 3) as u16 && r.coeffs@[k] <= 3,
        decreases 508 - i,
    {
        r.coeffs[i] = (s[i] & 3) as u16;
        i += 1;
    }
    r.coeffs[508] = 0;
    proof {
        lemma_count_of_masked(sorted, r.coeffs@.take(508), 1);
        lemma_count_of_masked(sorted, r.coeffs@.take(508), 2);
        lemma_count_of_masked(sorted, r.coeffs@.take(508), 0);
        assert(count_tag(sorted, 0) == 254 && count_tag(sorted, 1) == 127
            && count_tag(sorted, 2) == 127);
        assert forall|i2: int| 0 <= i2 < 509 implies r.coeffs@[i2] <= 2 by {
            if i2 < 508 && r.coeffs@[i2] == 3 {
                lemma_count16_total(r.coeffs@.take(508));
                lemma_count16_in_range(r.coeffs@.take(508), i2);
            }
        }
        assert(r.coeffs@ =~= fixed_type_poly(u@));
    }
}

/// The three trinary counts of a sequence of values at most 3 sum to the
/// length exactly when no entry is 3.
proof fn lemma_count16_total(s: Seq<u16>)
    requires
        forall|i: int| 0 <= i < s.len() ==> (#[trigger] s[i]) <= 3,
    ensures
        count16(s, 0) + count16(s, 1) + count16(s, 2) + count16(s, 3) == s.len(),
    decreases s.len(),
{
    if s.len() > 0 {
        lemma_count16_total(s.drop_last());
        assert(s.last() == s[s.len() - 1]);
    }
}

/// A value present in the sequence is counted at least once.
proof fn lemma_count16_in_range(s: Seq<u16>, i: int)
    requires
        0 <= i < s.len(),
    ensures
        count16(s, s[i]) >= 1,
    decreases s.len(),
{
    if i == s.len() - 1 {
        assert(s.last() == s[i]);
        lemma_count16_nonneg(s.drop_last(), s[i]);
    } else {
        lemma_count16_in_range(s.drop_last(), i);
    }
}

/// Counts are never negative.
proof fn lemma_count16_nonneg(s: Seq<u16>, v: u16)
    ensures
        count16(s, v) >= 0,
    decreases s.len(),
{
    if s.len() > 0 {
        lemma_count16_nonneg(s.drop_last(), v);
    }
}

/// Samples the key-pair polynomials: f from an IID draw on the first 508
/// bytes, g fixed-weight from the remaining 1905.
pub fn sample_fg(f: &mut Poly, g: &mut Poly, uniformbytes: [u8; 2413])
    ensures
        forall|i: int| 0 <= i < 508 ==> final(f).coeffs@[i] == uniformbytes@[i] % 3,
        final(f).coeffs@[508] == 0,
        forall|i: int| 0 <= i < 509 ==> final(f).coeffs@[i] < 3,
        final(g).coeffs@ == fixed_type_poly(uniformbytes@.skip(508)),
        final(g).coeffs@[508] == 0,
        forall|i: int| 0 <= i < 509 ==> final(g).coeffs@[i] <= 2,
        count16(final(g).coeffs@.take(508), 1) == 127,
        count16(final(g).coeffs@.take(508), 2) == 127,
{
    let mut bytes = [0u8; 508];
    let mut k: usize = 0;
    while k < 508
        invariant
            k <= 508,
            forall|k2: int| 0 <= k2 < k ==> bytes@[k2] == uniformbytes@[k2],
        decreases 508 - k,
    {
        bytes[k] = uniformbytes[k];
        k += 1;
    }
    sample_iid(f, bytes);

    let mut ft_bytes = [0u8; 1905];
    let mut k: usize = 0;
    while k < 1905
        invariant
            k <= 1905,
            forall|k2: int| 0 <= k2 < k ==> ft_bytes@[k2] == uniformbytes@[508 + k2],
        decreases 1905 - k,
    {
        ft_bytes[k] = uniformbytes[508 + k];
        k += 1;
    }
    proof {
        assert(ft_bytes@ =~= uniformbytes@.skip(508));
    }
    sample_fixed_type(g, ft_bytes);
}

/// Samples the message polynomials: r from an IID draw on the first 508
/// bytes, m fixed-weight from the remaining 1905.
pub fn sample_rm(r: &mut Poly, m: &mut Poly, uniformbytes: [u8; 2413])
    ensures
        forall|i: int| 0 <= i < 508 ==> final(r).coeffs@[i] == uniformbytes@[i] % 3,
        final(r).coeffs@[508] == 0,
        forall|i: int| 0 <= i < 509 ==> final(r).coeffs@[i] < 3,
        final(m).coeffs@ == fixed_type_poly(uniformbytes@.skip(508)),
        final(m).coeffs@[508] == 0,
        forall|i: int| 0 <= i < 509 ==> final(m).coeffs@[i] <= 2,
        count16(final(m).coeffs@.take(508), 1) == 127,
        count16(final(m).coeffs@.take(508), 2) == 127,
{
    sample_fg(r, m, uniformbytes);
}

/// The image of one trinary digit in the signed-lift convention
/// {0, 1, 2} -> {0, 1, 2^16 - 1}.
pub open spec fn lift3(d: u16) -> u16 {
    if d == 2 {
        0xffffu16
    } else {
        d
    }
}

/// Negation of a lifted value in Z/2^16: fixes 0 and exchanges 1 and -1.
pub open spec fn neg16(l: u16) -> u16 {
    if l == 1 {
        0xffffu16
    } else if l == 0xffff {
        1u16
    } else {
        0u16
    }
}

/// Negation of a trinary digit: fixes 0 and exchanges 1 and 2.
pub open spec fn neg3(d: u16) -> u16 {
    if d == 1 {
        2u16
    } else if d == 2 {
        1u16
    } else {
        0u16
    }
}

/// The trinary digit that the IID sampler derives from byte i; zero at and
/// beyond the top coefficient.
pub open spec fn iid_digit(b: Seq<u8>, i: int) -> u16 {
    if 0 <= i < 508 {
        (b[i] % 3) as u16
    } else {
        0u16
    }
}

/// The running inner product <x*r, r> of the lifted IID polynomial with its
/// own shift, over the first n terms, in Z/2^16.
pub open spec fn hrss_dot(b: Seq<u8>, n: int) -> int
    decreases n,
{
    if n <= 0 {
        0
    } else {
        (hrss_dot(b, n - 1) + (lift3(iid_digit(b, n)) * lift3(iid_digit(b, n - 1))) % 0x10000)
            % 0x10000
    }
}

/// Whether the full inner product has its top bit set, which makes the
/// sampler flip the sign of every even-indexed coefficient.
pub open spec fn hrss_sign_neg(b: Seq<u8>) -> bool {
    hrss_dot(b, 508) >= 0x8000
}

proof fn lemma_lift_elem(d: u16, res: u16)
    by (bit_vector)
    requires
        d <= 2,
        res == d | vstd::wrapping::u16_specs::wrapping_sub(0, d >> 1),
    ensures
        res == lift3(d),
{
}

proof fn lemma_dot_step(l1: u16, l0: u16, prod: u32, t: u16, s0: u16, s1: u16)
    by (bit_vector)
    requires
        prod == vstd::wrapping::u32_specs::wrapping_mul(l1 as u32, l0 as u32),
        t == prod as u16,
        s1 == vstd::wrapping::u16_specs::wrapping_add(s0, t),
    ensures
        s1 == (s0 + (l1 * l0) % 0x10000) % 0x10000,
{
}

proof fn lemma_sign_extract(s: u16, sg: u16)
    by (bit_vector)
    requires
        sg == 1 | vstd::wrapping::u16_specs::wrapping_sub(0, s >> 15),
    ensures
        s < 0x8000 ==> sg == 1,
        s >= 0x8000 ==> sg == 0xffff,
{
}

proof fn lemma_sign_mul(sg: u16, l: u16, prod: u32, res: u16)
    by (bit_vector)
    requires
        sg == 1 || sg == 0xffff,
        l == 0 || l == 1 || l == 0xffff,
        prod == vstd::wrapping::u32_specs::wrapping_mul(sg as u32, l as u32),
        res == prod as u16,
    ensures
        sg == 1 ==> res == l,
        sg == 0xffff ==> res == neg16(l),
{
}

proof fn lemma_unlift_elem(c: u16, res: u16)
    by (bit_vector)
    requires
        c == 0 || c == 1 || c == 0xffff,
        res == 3 & (c ^ (c >> 15)),
    ensures
        res == (if c == 0xffff {
            2u16
        } else {
            c
        }),
{
}

/// Samples r by the IID rule, then conditionally flips the sign of every
/// even-indexed coefficient so that the inner product <x*r, r> is
/// non-negative; the decision is one arithmetic mask, never a branch.
pub fn sample_iid_plus(r: &mut Poly, uniformbytes: [u8; 508])
    ensures
        forall|i: int| 0 <= i < 509 ==> final(r).coeffs@[i]
            == (if i % 2 == 0 && hrss_sign_neg(uniformbytes@) {
                neg3(iid_digit(uniformbytes@, i))
            } else {
                iid_digit(uniformbytes@, i)
            }),
        forall|i: int| 0 <= i < 509 ==> final(r).coeffs@[i] <= 2,
        final(r).coeffs@[508] == 0,
{
    let ghost b = uniformbytes@;
    let mut s: u16 = 0;
    sample_iid(r, uniformbytes);

    // Map {0, 1, 2} onto {0, 1, 2^16 - 1}.
    let mut i: usize = 0;
    while i < 508
        invariant
            i <= 508,
            forall|k: int| 0 <= k < i ==> #[trigger] r.coeffs@[k] == lift3(iid_digit(b, k)),
            forall|k: int| i <= k < 508 ==> #[trigger] r.coeffs@[k] == iid_digit(b, k)
                && r.coeffs@[k] < 3,
            r.coeffs@[508] == 0,
        decreases 508 - i,
    {
        let c: u16 = r.coeffs[i];
        let res: u16 = c | 0u16.wrapping_sub(c >> 1);
        proof {
            assert(r.coeffs@[i as int] == iid_digit(b, i as int) && r.coeffs@[i as int] < 3);
            lemma_lift_elem(c, res);
        }
        r.coeffs[i] = res;
        proof {
            assert(r.coeffs@[i as int] == lift3(iid_digit(b, i as int)));
        }
        i += 1;
    }

    // s = <x*r, r>, using r[508] = 0.
    let mut i: usize = 0;
    while i < 508
        invariant
            i <= 508,
            s == hrss_dot(b, i as int),
            forall|k: int| 0 <= k < 508 ==> r.coeffs@[k] == lift3(iid_digit(b, k)),
            r.coeffs@[508] == 0,
        decreases 508 - i,
    {
        let prod: u32 = (r.coeffs[i + 1] as u32).wrapping_mul(r.coeffs[i] as u32);
        let t: u16 = #[verifier::truncate] (prod as u16);
        let s1: u16 = s.wrapping_add(t);
        proof {
            assert(r.coeffs@[i + 1] == lift3(iid_digit(b, i + 1)));
            lemma_dot_step(
                lift3(iid_digit(b, i + 1)),
                lift3(iid_digit(b, i as int)),
                prod,
                t,
                s,
                s1,
            );
        }
        s = s1;
        i += 1;
    }

    // Extract the sign of s, with sign(0) = 1.
    let sign: u16 = 1 | 0u16.wrapping_sub(s >> 15);
    proof {
        lemma_sign_extract(s, sign);
    }

    // Multiply the even-indexed coefficients by the sign.
    let ghost flip = hrss_sign_neg(b);
    let mut i: usize = 0;
    while i < 509
        invariant
            i <= 510,
            i % 2 == 0,
            sign == (if flip {
                0xffffu16
            } else {
                1u16
            }),
            forall|k: int| 0 <= k < i && k % 2 == 0 ==> r.coeffs@[k] == (if flip {
                neg16(lift3(iid_digit(b, k)))
            } else {
                lift3(iid_digit(b, k))
            }),
            forall|k: int| 0 <= k < 509 && (k % 2 == 1 || k >= i) ==>
                r.coeffs@[k] == lift3(iid_digit(b, k)),
        decreases 510 - i,
    {
        let c: u16 = r.coeffs[i];
        let prod: u32 = (sign as u32).wrapping_mul(c as u32);
        let res: u16 = #[verifier::truncate] (prod as u16);
        proof {
            assert(c == lift3(iid_digit(b, i as int)));
            assert(c == 0 || c == 1 || c == 0xffff);
            lemma_sign_mul(sign, c, prod, res);
        }
        r.coeffs[i] = res;
        i += 2;
    }

    // Map {0, 1, 2^16 - 1} back onto {0, 1, 2}.
    let mut i: usize = 0;
    while i < 509
        invariant
            i <= 509,
            forall|k: int| i <= k < 509 && k % 2 == 0 ==> r.coeffs@[k] == (if flip {
                neg16(lift3(iid_digit(b, k)))
            } else {
                lift3(iid_digit(b, k))
            }),
            forall|k: int| i <= k < 509 && k % 2 == 1 ==> r.coeffs@[k] == lift3(iid_digit(b, k)),
            forall|k: int| 0 <= k < i ==> r.coeffs@[k] == (if k % 2 == 0 && flip {
                neg3(iid_digit(b, k))
            } else {
                iid_digit(b, k)
            }) && r.coeffs@[k] <= 2,
        decreases 509 - i,
    {
        let c: u16 = r.coeffs[i];
        let res: u16 = 3 & (c ^ (c >> 15));
        proof {
            assert(c == 0 || c == 1 || c == 0xffff);
            lemma_unlift_elem(c, res);
        }
        r.coeffs[i] = res;
        i += 1;
    }
}

} // verus!
