//! The OW-CPA trapdoor: key generation, encryption and decryption over the
//! packed byte formats, together with the three branch-free validity checks
//! that the CCA wrapper folds into its implicit-rejection decision.

use vstd::prelude::*;
use crate::counts::count16;
use crate::counts::lemma_take_drop_last;
use crate::pack3::poly_s3_frombytes;
use crate::pack3::poly_s3_tobytes;
use crate::pack3::s3_digit;
use crate::pack3::s3_full_byte;
use crate::pack3::s3_tail_byte;
use crate::packq::poly_rq_sum_zero_frombytes;
use crate::packq::poly_rq_sum_zero_tobytes;
use crate::packq::poly_sq_frombytes;
use crate::packq::poly_sq_tobytes;
use crate::packq::sq_byte;
use crate::packq::sq_coeff;
use crate::packq::sq_sum;
use crate::packq::sq_tail_byte;
use crate::poly::Poly;
use crate::poly::poly_rq_inv;
use crate::poly::poly_s3_mul;
use crate::poly::poly_sq_mul;
use crate::poly::poly_trinary_zq_to_z3;
use crate::poly::poly_z3_to_zq;
use crate::poly::rq_mul_seq;
use crate::poly::trin_map;
use crate::poly::z3_to_zq_map;
use crate::poly_lift::poly_lift;
use crate::poly_mod::center_pre;
use crate::poly_mod::poly_rq_to_s3;
use crate::poly_rq_mul::add_seq;
use crate::poly_rq_mul::conv;
use crate::poly_rq_mul::sub_seq;
use crate::poly_rq_mul::poly_rq_mul;
use crate::poly_s3_inv::poly_s3_inv;
use crate::sample::sample_fg;

verus! {

/// The polynomial stored in a sum-zero packed buffer: 508 explicit
/// coefficients and the top one chosen so that the sum vanishes.
pub open spec fn rq_unpack(m: Seq<u8>) -> Seq<u16> {
    Seq::new(509, |i: int| if i < 508 {
        sq_coeff(m, i)
    } else {
        (((0 - sq_sum(m, 508)) % 0x10000) as u16)
    })
}

/// The polynomial stored in an S_q packed buffer: top coefficient zero.
pub open spec fn sq_unpack(m: Seq<u8>) -> Seq<u16> {
    Seq::new(509, |i: int| if i < 508 {
        sq_coeff(m, i)
    } else {
        0u16
    })
}

/// The trinary polynomial stored in a base-3 packed buffer.
pub open spec fn s3_unpack(msg: Seq<u8>) -> Seq<u16> {
    Seq::new(509, |i: int| if i < 508 {
        s3_digit(msg[i / 5], i % 5) as u16
    } else {
        0u16
    })
}

/// Element-wise lift of trinary coefficients into R_q.
pub open spec fn zq_of(s: Seq<u16>) -> Seq<u16> {
    Seq::new(509, |i: int| z3_to_zq_map(s[i]))
}

/// Element-wise trinary read-back from R_q.
pub open spec fn trin_seq(s: Seq<u16>) -> Seq<u16> {
    Seq::new(509, |i: int| trin_map(s[i]))
}

/// The mod-(3, Phi_N) reduction of an R_q polynomial, coefficient by
/// coefficient through the centered representative.
pub open spec fn rq_to_s3_seq(s: Seq<u16>) -> Seq<u16> {
    Seq::new(509, |i: int| (((center_pre(s[i]) + 2 * center_pre(s[508])) % 3) as u16))
}

/// Multiplication in S_3 at the sequence level.
pub open spec fn s3_mul_seq(a: Seq<u16>, b: Seq<u16>) -> Seq<u16> {
    Seq::new(509, |k: int| (((conv(a, b, k) + 2 * conv(a, b, 508)) % 3) as u16))
}

/// Multiplication in S_q at the sequence level.
pub open spec fn sq_mul_seq(a: Seq<u16>, b: Seq<u16>) -> Seq<u16> {
    Seq::new(509, |k: int| (((conv(a, b, k) - conv(a, b, 508)) % 0x10000) as u16))
}

/// The ciphertext polynomial of the OW-CPA encryption: r * h + Lift(m).
pub open spec fn enc_poly(rv: Seq<u16>, mv: Seq<u16>, pkb: Seq<u8>) -> Seq<u16> {
    add_seq(rq_mul_seq(rv, rq_unpack(pkb)), zq_of(mv))
}

/// The message polynomial recovered by decryption: (c * f mod (3, Phi_N))
/// times the stored inverse of f in S_3.
pub open spec fn dec_m_poly(ct: Seq<u8>, sk: Seq<u8>) -> Seq<u16> {
    s3_mul_seq(
        rq_to_s3_seq(rq_mul_seq(rq_unpack(ct), zq_of(s3_unpack(sk)))),
        s3_unpack(sk.skip(102)),
    )
}

/// The blinding polynomial recovered by decryption: (c - Lift(m)) times the
/// stored inverse of h in S_q.
pub open spec fn dec_r_poly(ct: Seq<u8>, sk: Seq<u8>) -> Seq<u16> {
    sq_mul_seq(
        sub_seq(rq_unpack(ct), zq_of(dec_m_poly(ct, sk))),
        sq_unpack(sk.skip(204)),
    )
}

/// One recovered blinding coefficient is valid when it is 0, 1 or -1 mod q.
pub open spec fn r_coeff_ok(c: u16) -> bool {
    c % 2048 == 0 || c % 2048 == 1 || c % 2048 == 2047
}

/// A valid blinding polynomial: every stored coefficient in {0, 1, -1} mod q
/// and the top coefficient exactly zero.
pub open spec fn r_valid(s: Seq<u16>) -> bool {
    (forall|i: int| 0 <= i < 508 ==> r_coeff_ok(#[trigger] s[i])) && s[508] == 0
}

/// A valid message polynomial: exactly weight/2 coefficients equal to 1 and
/// weight/2 equal to 2.
pub open spec fn m_valid(s: Seq<u16>) -> bool {
    count16(s, 1) == 127 && count16(s, 2) == 127
}

proof fn lemma_check_ct(c: u8, t: u16, res: u16)
    by (bit_vector)
    requires
        t == (c as u16) & (0xffu16 << 4),
        res == 1 & (vstd::wrapping::u16_specs::wrapping_add(!t, 1) >> 15),
    ensures
        res == 0 || res == 1,
        res == 0 <==> c < 16,
{
}

/// Checks that the four unused top bits of the final ciphertext byte are
/// zero: returns 0 on success, 1 on failure, branch-free.
pub fn owcpa_check_ciphertext(ciphertext: &[u8]) -> (res: u16)
    requires
        ciphertext@.len() >= 699,
    ensures
        res == 0 || res == 1,
        res == 0 <==> ciphertext@[698] < 16,
{
    // A ciphertext is 11 * 508 bits packed into bytes; 8 - (7 & (11 * 508))
    // leaves the top four bits of the last byte unused.
    let mut t: u16 = ciphertext[698] as u16;
    t = t & (0xff << 4);
    let res: u16 = 1 & ((!t).wrapping_add(1) >> 15);
    proof {
        lemma_check_ct(ciphertext@[698], t, res);
    }
    res
}

proof fn lemma_check_r_elem(c: u16, c1: u32, c2: u32)
    by (bit_vector)
    requires
        c1 == (((c + 1) as u32) & 2044),
        c2 == (((c + 2) as u32) & 4),
    ensures
        c1 <= 2044,
        c2 <= 4,
        (c1 == 0 && c2 == 0) <==> (c % 2048 == 0 || c % 2048 == 1 || c % 2048 == 2047),
{
}

proof fn lemma_or32(a: u32, b: u32)
    by (bit_vector)
    ensures
        ((a | b) == 0) <==> (a == 0 && b == 0),
        a <= 2047 && b <= 2047 ==> (a | b) <= 2047,
        (a | b) < 0x80000000 || a >= 0x80000000 || b >= 0x80000000,
{
}

proof fn lemma_flag32(t: u32, res: u32)
    by (bit_vector)
    requires
        t < 0x80000000,
        res == 1 & (vstd::wrapping::u32_specs::wrapping_add(!t, 1) >> 31),
    ensures
        res == 0 || res == 1,
        res == 0 <==> t == 0,
{
}

/// Checks that a recovered blinding polynomial lies in the sample space:
/// every coefficient in {0, 1, q-1} mod q and the top coefficient zero.
/// Returns 0 on success, 1 on failure; the verdict is OR-accumulated and
/// never short-circuits.
pub fn owcpa_check_r(r: &Poly) -> (res: u32)
    ensures
        res == 0 || res == 1,
        res == 0 <==> r_valid(r.coeffs@),
{
    let mut t: u32 = 0;
    let mut i: usize = 0;
    while i < 508
        invariant
            i <= 508,
            t <= 2047,
            (t == 0) <==> (forall|k: int| 0 <= k < i ==> r_coeff_ok(#[trigger] r.coeffs@[k])),
        decreases 508 - i,
    {
        let c: u16 = r.coeffs[i];
        let c1: u32 = (c as u32 + 1) & 2044;
        let c2: u32 = (c as u32 + 2) & 4;
        proof {
            lemma_check_r_elem(c, c1, c2);
            lemma_or32(t, c1);
            lemma_or32(t | c1, c2);
        }
        t = t | c1;
        t = t | c2;
        i += 1;
    }
    proof {
        lemma_or32(t, r.coeffs@[508] as u32);
    }
    t = t | r.coeffs[508] as u32;
    let res: u32 = 1 & ((!t).wrapping_add(1) >> 31);
    proof {
        lemma_flag32(t, res);
    }
    res
}

proof fn lemma_check_m_elem(c: u16)
    by (bit_vector)
    requires
        c <= 2,
    ensures
        (c & 1) == (if c == 1 { 1u16 } else { 0u16 }),
        (c & 2) == (if c == 2 { 2u16 } else { 0u16 }),
{
}

proof fn lemma_check_m_final(ps: u16, ms: u16, t: u32, res: u32)
    by (bit_vector)
    requires
        ms % 2 == 0,
        t == ((ps ^ (ms >> 1)) as u32) | ((ms as u32) ^ 254),
        res == 1 & (vstd::wrapping::u32_specs::wrapping_add(!t, 1) >> 31),
    ensures
        res == 0 || res == 1,
        res == 0 <==> (ps == 127 && ms == 254),
{
}

/// Checks that a message polynomial lies in the fixed-weight message space:
/// exactly weight/2 coefficients 1 and weight/2 coefficients 2. Returns 0 on
/// success, 1 on failure, branch-free.
pub fn owcpa_check_m(m: &Poly) -> (res: u32)
    requires
        forall|i: int| 0 <= i < 509 ==> #[trigger] m.coeffs@[i] <= 2,
    ensures
        res == 0 || res == 1,
        res == 0 <==> m_valid(m.coeffs@),
{
    let mut ps: u16 = 0;
    let mut ms: u16 = 0;
    let mut i: usize = 0;
    while i < 509
        invariant
            i <= 509,
            forall|k: int| 0 <= k < 509 ==> #[trigger] m.coeffs@[k] <= 2,
            ps == count16(m.coeffs@.take(i as int), 1),
            ms == 2 * count16(m.coeffs@.take(i as int), 2),
            ps <= i,
            ms <= 2 * i,
        decreases 509 - i,
    {
        let c: u16 = m.coeffs[i];
        proof {
            lemma_check_m_elem(c);
            crate::counts::lemma_count16_nonneg_pub(m.coeffs@.take(i as int), 1);
            crate::counts::lemma_count16_nonneg_pub(m.coeffs@.take(i as int), 2);
            lemma_take_drop_last(m.coeffs@, i + 1);
            assert(count16(m.coeffs@.take(i + 1), 1)
                == count16(m.coeffs@.take(i as int), 1) + if c == 1 { 1int } else { 0int });
            assert(count16(m.coeffs@.take(i + 1), 2)
                == count16(m.coeffs@.take(i as int), 2) + if c == 2 { 1int } else { 0int });
        }
        ps = ps + (c & 1);
        ms = ms + (c & 2);
        i += 1;
    }
    let t: u32 = ((ps ^ (ms >> 1)) as u32) | ((ms as u32) ^ 254);
    let res: u32 = 1 & ((!t).wrapping_add(1) >> 31);
    proof {
        assert(m.coeffs@.take(509) =~= m.coeffs@);
        assert(ms % 2 == 0) by {
            crate::counts::lemma_count16_nonneg_pub(m.coeffs@, 2);
        }
        lemma_check_m_final(ps, ms, t, res);
        crate::counts::lemma_count16_nonneg_pub(m.coeffs@, 1);
        crate::counts::lemma_count16_nonneg_pub(m.coeffs@, 2);
    }
    res
}

/// The trinary polynomial that the IID sampler derives from a seed prefix.
pub open spec fn iid_poly(seed: Seq<u8>) -> Seq<u16> {
    Seq::new(509, |i: int| if i < 508 {
        (seed[i] % 3) as u16
    } else {
        0u16
    })
}

/// The preconditioned g of key generation: the fixed-weight draw of the
/// seed's tail, lifted into R_q and multiplied by 3 coefficient-wise.
pub open spec fn keypair_g3(seed: Seq<u8>) -> Seq<u16> {
    Seq::new(509, |i: int| vstd::wrapping::u16_specs::wrapping_mul(
        z3_to_zq_map(crate::sample::fixed_type_poly(seed.skip(508))[i]), 3))
}

/// The inverse of g * f in S_q that key generation computes: the divstep
/// almost-inverse over F_2, lifted by four Newton steps.
pub open spec fn keypair_invgf(seed: Seq<u8>) -> Seq<u16> {
    let gf = rq_mul_seq(keypair_g3(seed), zq_of(iid_poly(seed)));
    crate::poly::rq_newton4(crate::poly_r2_inv::r2_inv_spec(gf), gf)
}

/// The polynomial packed into the third section of the secret key:
/// h^-1 = (g f)^-1 * f * f in S_q.
pub open spec fn keypair_skq(seed: Seq<u8>) -> Seq<u16> {
    sq_mul_seq(rq_mul_seq(keypair_invgf(seed), zq_of(iid_poly(seed))), zq_of(iid_poly(seed)))
}

/// The public polynomial: h = (g f)^-1 * g * g with the preconditioned g,
/// packed sum-zero into the public key.
pub open spec fn keypair_h(seed: Seq<u8>) -> Seq<u16> {
    rq_mul_seq(rq_mul_seq(keypair_invgf(seed), keypair_g3(seed)), keypair_g3(seed))
}

/// Generates an OW-CPA key pair from sampling bytes. The first packed
/// trinary polynomial of the secret key is exactly the IID sample f drawn
/// from the seed prefix, and the second is exactly the divstep inverse of f
/// in S_3; the remaining parts are the packed inverse of h in S_q and the
/// public key packing h = 3 * g * g * (g * f)^-1, whose values depend on
/// the fixed-weight draw g. The implicit-rejection key bytes at the tail of
/// the secret key are left untouched.
pub fn owcpa_keypair(pk: &mut [u8; 699], sk: &mut [u8; 935], seed: [u8; 2413])
    ensures
        forall|j: int| 0 <= j < 101 ==> final(sk)@[j] == s3_full_byte(iid_poly(seed@), j),
        final(sk)@[101] == s3_tail_byte(iid_poly(seed@)),
        forall|j: int| 0 <= j < 101 ==> final(sk)@[102 + j]
            == s3_full_byte(crate::poly_s3_inv::s3_inv_spec(iid_poly(seed@)), j),
        final(sk)@[203] == s3_tail_byte(crate::poly_s3_inv::s3_inv_spec(iid_poly(seed@))),
        forall|j: int| 0 <= j < 693 ==> final(sk)@[204 + j] == sq_byte(keypair_skq(seed@), j),
        forall|k: int| 0 <= k < 6 ==> final(sk)@[897 + k] == sq_tail_byte(keypair_skq(seed@), k),
        forall|j: int| 0 <= j < 693 ==> final(pk)@[j] == sq_byte(keypair_h(seed@), j),
        forall|k: int| 0 <= k < 6 ==> final(pk)@[693 + k] == sq_tail_byte(keypair_h(seed@), k),
        forall|j: int| 903 <= j < 935 ==> final(sk)@[j] == old(sk)@[j],
{
    let mut x3 = Poly::new();
    let mut f = Poly::new();
    let mut g = Poly::new();
    let mut invgf = Poly::new();
    let mut tmp = Poly::new();

    sample_fg(&mut f, &mut g, seed);
    proof {
        assert(f.coeffs@ =~= iid_poly(seed@));
    }
    let ghost gv = g.coeffs@;
    poly_s3_inv(&mut x3, &mut f);
    proof {
        assert(x3.coeffs@ == crate::poly_s3_inv::s3_inv_spec(iid_poly(seed@)));
    }

    let mut buf3 = [0u8; 102];
    poly_s3_tobytes(&mut buf3, &f);
    let mut j: usize = 0;
    while j < 102
        invariant
            j <= 102,
            forall|k: int| 0 <= k < j ==> sk@[k] == buf3@[k],
            forall|k: int| j <= k < 935 ==> sk@[k] == old(sk)@[k],
        decreases 102 - j,
    {
        sk[j] = buf3[j];
        j += 1;
    }
    let ghost sk_f_bytes = buf3@;

    poly_s3_tobytes(&mut buf3, &x3);
    let mut j: usize = 0;
    while j < 102
        invariant
            j <= 102,
            forall|k: int| 0 <= k < 102 ==> sk@[k] == sk_f_bytes[k],
            forall|k: int| 102 <= k < 102 + j ==> sk@[k] == buf3@[k - 102],
            forall|k: int| 102 + j <= k < 935 ==> sk@[k] == old(sk)@[k],
        decreases 102 - j,
    {
        sk[102 + j] = buf3[j];
        j += 1;
    }
    let ghost sk_fi_bytes = buf3@;

    // Lift f and g from S_3 into R_q, precondition g with the factor 3.
    poly_z3_to_zq(&mut f);
    proof {
        assert(f.coeffs@ =~= zq_of(iid_poly(seed@)));
    }
    poly_z3_to_zq(&mut g);
    let ghost g_zq = g.coeffs@;
    let mut i: usize = 0;
    while i < 509
        invariant
            i <= 509,
            g_zq.len() == 509,
            forall|k: int| 0 <= k < i ==> #[trigger] g.coeffs@[k]
                == vstd::wrapping::u16_specs::wrapping_mul(g_zq[k], 3),
            forall|k: int| i <= k < 509 ==> #[trigger] g.coeffs@[k] == g_zq[k],
        decreases 509 - i,
    {
        g.coeffs[i] = g.coeffs[i].wrapping_mul(3);
        i += 1;
    }
    proof {
        assert(g.coeffs@ =~= keypair_g3(seed@));
    }

    let ghost fq = zq_of(iid_poly(seed@));
    let ghost g3 = keypair_g3(seed@);
    poly_rq_mul(&mut x3, &g, &f);
    proof {
        assert(x3.coeffs@ =~= rq_mul_seq(g3, fq));
    }
    poly_rq_inv(&mut invgf, &x3);
    proof {
        assert(invgf.coeffs@ == keypair_invgf(seed@));
    }
    poly_rq_mul(&mut tmp, &invgf, &f);
    proof {
        assert(tmp.coeffs@ =~= rq_mul_seq(keypair_invgf(seed@), fq));
    }
    poly_sq_mul(&mut x3, &tmp, &f);
    proof {
        assert(x3.coeffs@ =~= keypair_skq(seed@));
    }

    let mut bufq = [0u8; 699];
    poly_sq_tobytes(&mut bufq, &x3);
    let mut j: usize = 0;
    while j < 699
        invariant
            j <= 699,
            forall|k: int| 0 <= k < 102 ==> sk@[k] == sk_f_bytes[k],
            forall|k: int| 102 <= k < 204 ==> sk@[k] == sk_fi_bytes[k - 102],
            forall|k: int| 204 <= k < 204 + j ==> sk@[k] == bufq@[k - 204],
            forall|k: int| 204 + j <= k < 935 ==> sk@[k] == old(sk)@[k],
        decreases 699 - j,
    {
        sk[204 + j] = bufq[j];
        j += 1;
    }

    poly_rq_mul(&mut tmp, &invgf, &g);
    proof {
        assert(tmp.coeffs@ =~= rq_mul_seq(keypair_invgf(seed@), g3));
    }
    poly_rq_mul(&mut x3, &tmp, &g);
    proof {
        assert(x3.coeffs@ =~= keypair_h(seed@));
    }
    poly_rq_sum_zero_tobytes(pk, &x3);
}

/// Encrypts the pair (r, m) under the packed public key: the ciphertext
/// packs r * h + Lift(m), with r already lifted into R_q and m trinary.
pub fn owcpa_enc(c: &mut [u8; 699], r: &Poly, m: &Poly, pk: &[u8; 699])
    requires
        forall|i: int| 0 <= i < 509 ==> #[trigger] m.coeffs@[i] <= 2,
    ensures
        forall|j: int| 0 <= j < 693 ==> final(c)@[j]
            == sq_byte(enc_poly(r.coeffs@, m.coeffs@, pk@), j),
        forall|k: int| 0 <= k < 6 ==> final(c)@[693 + k]
            == sq_tail_byte(enc_poly(r.coeffs@, m.coeffs@, pk@), k),
{
    broadcast use crate::arith::lemma_wadd16;

    let mut x1 = Poly::new();
    let mut x2 = Poly::new();

    poly_rq_sum_zero_frombytes(&mut x1, pk);
    proof {
        assert(x1.coeffs@ =~= rq_unpack(pk@));
    }
    poly_rq_mul(&mut x2, r, &x1);
    proof {
        assert(x2.coeffs@ =~= rq_mul_seq(r.coeffs@, rq_unpack(pk@)));
    }
    poly_lift(&mut x1, m);
    proof {
        assert(x1.coeffs@ =~= zq_of(m.coeffs@));
    }
    let ghost rh = x2.coeffs@;
    let mut i: usize = 0;
    while i < 509
        invariant
            i <= 509,
            x1.coeffs@ == zq_of(m.coeffs@),
            forall|k: int| 0 <= k < i ==> x2.coeffs@[k]
                == vstd::wrapping::u16_specs::wrapping_add(rh[k], x1.coeffs@[k]),
            forall|k: int| i <= k < 509 ==> x2.coeffs@[k] == rh[k],
        decreases 509 - i,
    {
        x2.coeffs[i] = x2.coeffs[i].wrapping_add(x1.coeffs[i]);
        i += 1;
    }
    proof {
        assert(x2.coeffs@ =~= enc_poly(r.coeffs@, m.coeffs@, pk@));
    }
    poly_rq_sum_zero_tobytes(c, &x2);
}

/// Decrypts a ciphertext with the packed secret key: writes the recovered
/// (r, m) pair into rm (r packed first, m second), and returns a 16-bit flag
/// that is 0 exactly when all three validity checks pass. All three checks
/// are evaluated and OR-accumulated whatever the data holds.
pub fn owcpa_dec(rm: &mut [u8], ciphertext: &[u8], secretkey: &[u8; 935]) -> (fail: u16)
    requires
        old(rm)@.len() == 204,
        ciphertext@.len() >= 699,
    ensures
        final(rm)@.len() == 204,
        forall|j: int| 0 <= j < 101 ==> final(rm)@[102 + j]
            == s3_full_byte(dec_m_poly(ciphertext@.take(699), secretkey@), j),
        final(rm)@[203] == s3_tail_byte(dec_m_poly(ciphertext@.take(699), secretkey@)),
        forall|j: int| 0 <= j < 101 ==> final(rm)@[j]
            == s3_full_byte(trin_seq(dec_r_poly(ciphertext@.take(699), secretkey@)), j),
        final(rm)@[101] == s3_tail_byte(trin_seq(dec_r_poly(ciphertext@.take(699), secretkey@))),
        fail == 0 || fail == 1,
        fail == 0 <==> (ciphertext@[698] < 16
            && m_valid(dec_m_poly(ciphertext@.take(699), secretkey@))
            && r_valid(dec_r_poly(ciphertext@.take(699), secretkey@))),
{
    broadcast use crate::arith::lemma_wsub16;

    let ghost ctb = ciphertext@.take(699);
    let ghost skb = secretkey@;

    let mut x1 = Poly::new();
    let mut x2 = Poly::new();
    let mut x3 = Poly::new();
    let mut x4 = Poly::new();

    let mut ct_buf = [0u8; 699];
    let mut j: usize = 0;
    while j < 699
        invariant
            j <= 699,
            ciphertext@.len() >= 699,
            forall|k: int| 0 <= k < j ==> ct_buf@[k] == ciphertext@[k],
        decreases 699 - j,
    {
        ct_buf[j] = ciphertext[j];
        j += 1;
    }
    proof {
        assert(ct_buf@ =~= ctb);
    }
    poly_rq_sum_zero_frombytes(&mut x1, &ct_buf);
    proof {
        assert(x1.coeffs@ =~= rq_unpack(ctb));
    }

    let mut sk_msg = [0u8; 204];
    let mut j: usize = 0;
    while j < 204
        invariant
            j <= 204,
            forall|k: int| 0 <= k < j ==> sk_msg@[k] == secretkey@[k],
        decreases 204 - j,
    {
        sk_msg[j] = secretkey[j];
        j += 1;
    }
    poly_s3_frombytes(&mut x2, sk_msg);
    proof {
        assert(x2.coeffs@ =~= s3_unpack(skb));
    }
    poly_z3_to_zq(&mut x2);
    proof {
        assert(x2.coeffs@ =~= zq_of(s3_unpack(skb)));
    }

    poly_rq_mul(&mut x3, &x1, &x2);
    proof {
        assert(x3.coeffs@ =~= rq_mul_seq(rq_unpack(ctb), zq_of(s3_unpack(skb))));
    }
    poly_rq_to_s3(&mut x2, &x3);
    let ghost mf = rq_to_s3_seq(rq_mul_seq(rq_unpack(ctb), zq_of(s3_unpack(skb))));
    proof {
        assert(x2.coeffs@ =~= mf);
    }

    let mut sk_tri = [0u8; 204];
    let mut j: usize = 0;
    while j < 204
        invariant
            j <= 204,
            forall|k: int| 0 <= k < j ==> sk_tri@[k] == secretkey@[102 + k],
        decreases 204 - j,
    {
        sk_tri[j] = secretkey[102 + j];
        j += 1;
    }
    poly_s3_frombytes(&mut x3, sk_tri);
    proof {
        assert forall|k: int| 0 <= k < 204 implies sk_tri@[k] == #[trigger] skb.skip(102)[k] by {
        }
        assert forall|i: int| 0 <= i < 508 implies
            #[trigger] sk_tri@[i / 5] == skb.skip(102)[i / 5] by {
            assert(0 <= i / 5 < 204) by {
                vstd::arithmetic::div_mod::lemma_div_is_ordered(i, 507, 5);
                vstd::arithmetic::div_mod::lemma_div_pos_is_pos(i, 5);
            }
        }
        assert(x3.coeffs@ =~= s3_unpack(skb.skip(102)));
    }
    poly_s3_mul(&mut x4, &x2, &x3);
    let ghost m_rec = dec_m_poly(ctb, skb);
    proof {
        assert(x4.coeffs@ =~= m_rec);
    }

    let mut buf3 = [0u8; 102];
    poly_s3_tobytes(&mut buf3, &x4);
    let mut j: usize = 0;
    while j < 102
        invariant
            j <= 102,
            rm@.len() == 204,
            forall|k: int| 0 <= k < j ==> rm@[102 + k] == buf3@[k],
            forall|k: int| 0 <= k < 102 ==> rm@[k] == old(rm)@[k],
        decreases 102 - j,
    {
        rm[102 + j] = buf3[j];
        j += 1;
    }
    let ghost rm_m_part = rm@;

    // Check that the unused bits of the last ciphertext byte are zero.
    let mut fail: u16 = owcpa_check_ciphertext(ciphertext);

    // For the CCA transform, m must lie in the fixed-weight message space.
    let cm: u32 = owcpa_check_m(&x4);
    proof {
        lemma_or_flags(fail, cm);
    }
    fail = fail | (cm as u16);

    // b = c - Lift(m) mod (q, x^N - 1).
    poly_lift(&mut x2, &x4);
    proof {
        assert(x2.coeffs@ =~= zq_of(m_rec));
    }
    let ghost b_before = x1.coeffs@;
    let mut i: usize = 0;
    while i < 509
        invariant
            i <= 509,
            x2.coeffs@ == zq_of(m_rec),
            forall|k: int| 0 <= k < i ==> x1.coeffs@[k]
                == vstd::wrapping::u16_specs::wrapping_sub(b_before[k], x2.coeffs@[k]),
            forall|k: int| i <= k < 509 ==> x1.coeffs@[k] == b_before[k],
        decreases 509 - i,
    {
        x1.coeffs[i] = x1.coeffs[i].wrapping_sub(x2.coeffs[i]);
        i += 1;
    }
    proof {
        assert(x1.coeffs@ =~= sub_seq(rq_unpack(ctb), zq_of(m_rec)));
    }

    // r = b / h mod (q, Phi_N), using the stored inverse of h.
    let mut sk_q = [0u8; 699];
    let mut j: usize = 0;
    while j < 699
        invariant
            j <= 699,
            forall|k: int| 0 <= k < j ==> sk_q@[k] == secretkey@[204 + k],
        decreases 699 - j,
    {
        sk_q[j] = secretkey[204 + j];
        j += 1;
    }
    poly_sq_frombytes(&mut x3, &sk_q);
    proof {
        assert forall|k: int| 0 <= k < 699 implies sk_q@[k] == #[trigger] skb.skip(204)[k] by {
        }
        assert forall|i2: int| 0 <= i2 < 508 implies
            #[trigger] sq_coeff(sk_q@, i2) == sq_coeff(skb.skip(204), i2) by {
        }
        assert forall|i2: int| 0 <= i2 < 509 implies
            x3.coeffs@[i2] == #[trigger] sq_unpack(skb.skip(204))[i2] by {
            if i2 < 508 {
                assert(x3.coeffs@[i2] == sq_coeff(sk_q@, i2));
            }
        }
        assert(x3.coeffs@ =~= sq_unpack(skb.skip(204)));
    }
    poly_sq_mul(&mut x4, &x1, &x3);
    let ghost r_rec = dec_r_poly(ctb, skb);
    proof {
        assert(x4.coeffs@ =~= r_rec);
    }

    let cr: u32 = owcpa_check_r(&x4);
    proof {
        lemma_or_flags(fail, cr);
    }
    fail = fail | (cr as u16);

    poly_trinary_zq_to_z3(&mut x4);
    proof {
        assert(x4.coeffs@ =~= trin_seq(r_rec));
    }
    poly_s3_tobytes(&mut buf3, &x4);
    let mut j: usize = 0;
    while j < 102
        invariant
            j <= 102,
            rm@.len() == 204,
            forall|k: int| 0 <= k < j ==> rm@[k] == buf3@[k],
            forall|k: int| j <= k < 204 ==> rm@[k] == rm_m_part[k],
        decreases 102 - j,
    {
        rm[j] = buf3[j];
        j += 1;
    }

    fail
}

/// The element-wise conversions invert each other at the polynomial level:
/// reading a valid trinary-in-R_q polynomial back to {0, 1, 2} and lifting
/// it again returns the original.
pub proof fn lemma_trinary_poly_round_trip(s: Seq<u16>)
    requires
        s.len() == 509,
        forall|i: int| 0 <= i < 509 ==> #[trigger] s[i] == 0 || s[i] == 1 || s[i] == 2047,
    ensures
        zq_of(trin_seq(s)) == s,
{
    assert forall|i: int| 0 <= i < 509 implies #[trigger] zq_of(trin_seq(s))[i] == s[i] by {
        crate::poly::lemma_trinary_round_trip(s[i]);
    }
    assert(zq_of(trin_seq(s)) =~= s);
}

proof fn lemma_or_flags(a: u16, b: u32)
    by (bit_vector)
    requires
        a == 0 || a == 1,
        b == 0 || b == 1,
    ensures
        (a | (b as u16)) == 0 || (a | (b as u16)) == 1,
        ((a | (b as u16)) == 0) <==> (a == 0 && b == 0),
{
}

} // verus!
