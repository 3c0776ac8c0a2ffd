//! The CCA-KEM wrapper: keypair, encapsulation and decapsulation. The shared
//! secret is a SHA3-256 digest of the packed (r, m) pair; on an invalid
//! ciphertext, decapsulation substitutes a digest keyed by the stored
//! implicit-rejection secret, through a constant-time conditional move, and
//! still reports success.

use vstd::prelude::*;
use sha3::Digest;
use sha3::Sha3_256;
use crate::cmov::cmov;
use crate::counts::count16;
use crate::owcpa::dec_m_poly;
use crate::owcpa::dec_r_poly;
use crate::owcpa::enc_poly;
use crate::owcpa::iid_poly;
use crate::owcpa::keypair_h;
use crate::owcpa::keypair_skq;
use crate::owcpa::m_valid;
use crate::owcpa::owcpa_dec;
use crate::owcpa::owcpa_enc;
use crate::owcpa::owcpa_keypair;
use crate::owcpa::r_valid;
use crate::owcpa::trin_seq;
use crate::owcpa::zq_of;
use crate::pack3::poly_s3_tobytes;
use crate::pack3::s3_full_byte;
use crate::pack3::s3_tail_byte;
use crate::packq::sq_byte;
use crate::packq::sq_tail_byte;
use crate::poly::Poly;
use crate::poly::poly_z3_to_zq;
use crate::rng::AesState;
use crate::rng::ctr_byte;
use crate::rng::inc_n;
use crate::rng::lemma_inc_n_add;
use crate::sample::sample_rm;

verus! {

/// Names the SHA3-256 digest: 32 bytes, a function of the input alone.
pub uninterp spec fn sha3_256_of(input: Seq<u8>) -> Seq<u8>;

/// Relies on the sha3 crate's Sha3_256 (NIST FIPS 202): the digest depends
/// on the input bytes alone.
#[verifier::external_body]
fn sha3_256(input: &[u8]) -> (r: [u8; 32])
    ensures
        r@ == sha3_256_of(input@),
{
    let mut h = Sha3_256::new();
    h.update(input);
    let d = h.finalize();
    let mut out = [0u8; 32];
    out.copy_from_slice(&d);
    out
}

/// The byte stream that a seeded generator produces for one draw of n bytes.
pub open spec fn drbg_stream(key: Seq<u8>, v: Seq<u8>, n: nat) -> Seq<u8> {
    Seq::new(n, |j: int| ctr_byte(key, v, j))
}

/// The 102 packed bytes of a trinary polynomial.
pub open spec fn s3pack_seq(s: Seq<u16>) -> Seq<u8> {
    Seq::new(102, |j: int| if j < 101 {
        s3_full_byte(s, j) as u8
    } else {
        s3_tail_byte(s) as u8
    })
}

/// What encapsulation guarantees of its outputs, relative to the message
/// polynomial mv that the fixed-weight sampler drew: mv is trinary of the
/// right weight, the ciphertext packs r * h + Lift(mv) with r the IID draw
/// of the seed, and the shared secret hashes the packed (r, m) pair.
pub open spec fn kem_enc_rel(mv: Seq<u16>, seed: Seq<u8>, pkb: Seq<u8>, cb: Seq<u8>, kb: Seq<u8>) -> bool {
    &&& mv.len() == 509
    &&& (forall|i: int| 0 <= i < 509 ==> #[trigger] mv[i] <= 2)
    &&& mv[508] == 0
    &&& count16(mv.take(508), 1) == 127
    &&& count16(mv.take(508), 2) == 127
    &&& (forall|j: int| 0 <= j < 693 ==> #[trigger] cb[j]
        == sq_byte(enc_poly(zq_of(iid_poly(seed)), mv, pkb), j))
    &&& (forall|j: int| 0 <= j < 6 ==> #[trigger] cb[693 + j]
        == sq_tail_byte(enc_poly(zq_of(iid_poly(seed)), mv, pkb), j))
    &&& kb == sha3_256_of(s3pack_seq(iid_poly(seed)) + s3pack_seq(mv))
}

/// The packed (r, m) pair that decapsulation recovers and hashes.
pub open spec fn dec_rm_bytes(cb: Seq<u8>, skb: Seq<u8>) -> Seq<u8> {
    s3pack_seq(trin_seq(dec_r_poly(cb, skb))) + s3pack_seq(dec_m_poly(cb, skb))
}

/// Whether a ciphertext decapsulates without implicit rejection.
pub open spec fn dec_ok(cb: Seq<u8>, skb: Seq<u8>) -> bool {
    &&& cb[698] < 16
    &&& m_valid(dec_m_poly(cb, skb))
    &&& r_valid(dec_r_poly(cb, skb))
}

/// Generates a key pair. The sampling seed and the implicit-rejection key
/// are drawn from the generator; the first packed polynomial of the secret
/// key is exactly the IID sample of the seed, and the secret-key tail holds
/// the rejection key bytes.
pub fn crypto_kem_keypair(
    pk: &mut [u8; 699],
    sk: &mut [u8; 935],
    rng: &mut AesState,
) -> (res: Result<(), ()>)
    ensures
        res.is_ok(),
        final(rng).key == old(rng).key,
        final(rng).v@ == inc_n(old(rng).v@, 153),
        forall|j: int| 0 <= j < 101 ==> final(sk)@[j]
            == s3_full_byte(iid_poly(drbg_stream(old(rng).key@, old(rng).v@, 2413)), j),
        final(sk)@[101]
            == s3_tail_byte(iid_poly(drbg_stream(old(rng).key@, old(rng).v@, 2413))),
        forall|j: int| 0 <= j < 101 ==> final(sk)@[102 + j] == s3_full_byte(
            crate::poly_s3_inv::s3_inv_spec(
                iid_poly(drbg_stream(old(rng).key@, old(rng).v@, 2413))), j),
        final(sk)@[203] == s3_tail_byte(crate::poly_s3_inv::s3_inv_spec(
            iid_poly(drbg_stream(old(rng).key@, old(rng).v@, 2413)))),
        forall|j: int| 0 <= j < 693 ==> final(sk)@[204 + j]
            == sq_byte(keypair_skq(drbg_stream(old(rng).key@, old(rng).v@, 2413)), j),
        forall|k: int| 0 <= k < 6 ==> final(sk)@[897 + k]
            == sq_tail_byte(keypair_skq(drbg_stream(old(rng).key@, old(rng).v@, 2413)), k),
        forall|j: int| 0 <= j < 693 ==> final(pk)@[j]
            == sq_byte(keypair_h(drbg_stream(old(rng).key@, old(rng).v@, 2413)), j),
        forall|k: int| 0 <= k < 6 ==> final(pk)@[693 + k]
            == sq_tail_byte(keypair_h(drbg_stream(old(rng).key@, old(rng).v@, 2413)), k),
        forall|j: int| 0 <= j < 32 ==> final(sk)@[903 + j]
            == ctr_byte(old(rng).key@, inc_n(old(rng).v@, 151), j),
{
    let ghost key0 = old(rng).key@;
    let ghost v0 = old(rng).v@;
    let mut seed = [0u8; 2413];
    let seed_slice = vstd::array::ref_mut_array_unsizing_coercion(&mut seed);
    rng.randombytes(seed_slice)?;
    proof {
        assert(seed@ =~= drbg_stream(key0, v0, 2413));
    }
    owcpa_keypair(pk, sk, seed);
    let ghost sk_mid = sk@;

    let mut prf = [0u8; 32];
    let prf_slice = vstd::array::ref_mut_array_unsizing_coercion(&mut prf);
    rng.randombytes(prf_slice)?;
    proof {
        lemma_inc_n_add(v0, 151, 2);
        assert forall|t: int| 0 <= t < 32 implies
            prf@[t] == ctr_byte(key0, inc_n(v0, 151), t) by {
        }
    }
    let mut j: usize = 0;
    while j < 32
        invariant
            j <= 32,
            prf@.len() == 32,
            forall|k: int| 0 <= k < 903 ==> sk@[k] == sk_mid[k],
            forall|k: int| 0 <= k < j ==> sk@[903 + k] == prf@[k],
        decreases 32 - j,
    {
        sk[903 + j] = prf[j];
        j += 1;
    }
    proof {
        assert forall|t: int| 0 <= t < 32 implies
            sk@[903 + t] == ctr_byte(key0, inc_n(v0, 151), t) by {
            assert(sk@[903 + t] == prf@[t]);
            assert(prf@[t] == ctr_byte(key0, inc_n(v0, 151), t));
        }
    }
    Ok(())
}

/// Encapsulates under a public key: samples (r, m) from the generator,
/// hashes the packed pair into the shared secret, and encrypts.
pub fn crypto_kem_enc(
    c: &mut [u8; 699],
    k: &mut [u8; 32],
    pk: &[u8; 699],
    rng: &mut AesState,
) -> (res: Result<(), ()>)
    ensures
        res.is_ok(),
        final(rng).key == old(rng).key,
        final(rng).v@ == inc_n(old(rng).v@, 151),
        kem_enc_rel(
            crate::sample::fixed_type_poly(
                drbg_stream(old(rng).key@, old(rng).v@, 2413).skip(508)),
            drbg_stream(old(rng).key@, old(rng).v@, 2413),
            pk@,
            final(c)@,
            final(k)@,
        ),
{
    let ghost key0 = old(rng).key@;
    let ghost v0 = old(rng).v@;
    let mut rm_seed = [0u8; 2413];
    let seed_slice = vstd::array::ref_mut_array_unsizing_coercion(&mut rm_seed);
    rng.randombytes(seed_slice)?;
    proof {
        assert(rm_seed@ =~= drbg_stream(key0, v0, 2413));
    }

    let mut r = Poly::new();
    let mut m = Poly::new();
    sample_rm(&mut r, &mut m, rm_seed);
    proof {
        assert(r.coeffs@ =~= iid_poly(rm_seed@));
    }
    let ghost mv = m.coeffs@;
    let ghost rv = r.coeffs@;

    let mut rm_bytes = [0u8; 204];
    let mut buf = [0u8; 102];
    poly_s3_tobytes(&mut buf, &r);
    let mut j: usize = 0;
    while j < 102
        invariant
            j <= 102,
            forall|t: int| 0 <= t < j ==> rm_bytes@[t] == buf@[t],
        decreases 102 - j,
    {
        rm_bytes[j] = buf[j];
        j += 1;
    }
    proof {
        assert(rm_bytes@.take(102) =~= s3pack_seq(rv));
    }
    let ghost r_packed = rm_bytes@.take(102);
    poly_s3_tobytes(&mut buf, &m);
    let mut j: usize = 0;
    while j < 102
        invariant
            j <= 102,
            rm_bytes@.take(102) == r_packed,
            forall|t: int| 0 <= t < j ==> rm_bytes@[102 + t] == buf@[t],
        decreases 102 - j,
    {
        rm_bytes[102 + j] = buf[j];
        j += 1;
    }
    proof {
        assert(rm_bytes@ =~= s3pack_seq(rv) + s3pack_seq(mv));
    }

    let ss = sha3_256(vstd::array::array_as_slice(&rm_bytes));
    let mut j: usize = 0;
    while j < 32
        invariant
            j <= 32,
            ss@ == sha3_256_of(s3pack_seq(rv) + s3pack_seq(mv)),
            forall|t: int| 0 <= t < j ==> k@[t] == ss@[t],
        decreases 32 - j,
    {
        k[j] = ss[j];
        j += 1;
    }
    proof {
        assert(k@ =~= sha3_256_of(s3pack_seq(rv) + s3pack_seq(mv)));
    }

    poly_z3_to_zq(&mut r);
    proof {
        assert(r.coeffs@ =~= zq_of(iid_poly(drbg_stream(key0, v0, 2413))));
    }
    owcpa_enc(c, &r, &m, pk);
    proof {
        assert(iid_poly(rm_seed@) == iid_poly(drbg_stream(key0, v0, 2413)));
        assert(rm_seed@.skip(508) == drbg_stream(key0, v0, 2413).skip(508));
        assert(mv == crate::sample::fixed_type_poly(drbg_stream(key0, v0, 2413).skip(508)));
        assert(kem_enc_rel(mv, drbg_stream(key0, v0, 2413), pk@, c@, k@));
    }
    Ok(())
}

/// Decapsulates a ciphertext: recovers (r, m) with the secret key and hashes
/// the packed pair into the shared secret; when any validity check fails,
/// the digest of the stored rejection key and the ciphertext is moved in
/// instead, without a branch, and the call still reports success.
#[verifier::rlimit(100)]
pub fn crypto_kem_dec(k: &mut [u8; 32], c: &[u8; 699], sk: &[u8; 935]) -> (res: Result<(), ()>)
    ensures
        res.is_ok(),
        final(k)@ == (if dec_ok(c@, sk@) {
            sha3_256_of(dec_rm_bytes(c@, sk@))
        } else {
            sha3_256_of(sk@.skip(903) + c@)
        }),
{
    let mut rm = [0u8; 204];
    let rm_slice = vstd::array::ref_mut_array_unsizing_coercion(&mut rm);
    let c_slice = vstd::array::array_as_slice(c);
    let fail: u16 = owcpa_dec(rm_slice, c_slice, sk);
    proof {
        assert(c_slice@.take(699) =~= c@);
        assert(rm@ =~= dec_rm_bytes(c@, sk@));
    }
    let ghost rm_rec = rm@;

    let k1 = sha3_256(vstd::array::array_as_slice(&rm));
    let mut j: usize = 0;
    while j < 32
        invariant
            j <= 32,
            k1@ == sha3_256_of(rm_rec),
            forall|t: int| 0 <= t < j ==> k@[t] == k1@[t],
        decreases 32 - j,
    {
        k[j] = k1[j];
        j += 1;
    }

    // The implicit-rejection digest: SHA3-256(z || ciphertext).
    let mut buf = [0u8; 731];
    let mut j: usize = 0;
    while j < 32
        invariant
            j <= 32,
            forall|t: int| 0 <= t < j ==> buf@[t] == sk@[903 + t],
        decreases 32 - j,
    {
        buf[j] = sk[903 + j];
        j += 1;
    }
    let mut j: usize = 0;
    while j < 699
        invariant
            j <= 699,
            forall|t: int| 0 <= t < 32 ==> buf@[t] == sk@[903 + t],
            forall|t: int| 0 <= t < j ==> buf@[32 + t] == c@[t],
        decreases 699 - j,
    {
        buf[32 + j] = c[j];
        j += 1;
    }
    proof {
        assert(buf@ =~= sk@.skip(903) + c@);
    }
    let rej = sha3_256(vstd::array::array_as_slice(&buf));
    let mut j: usize = 0;
    while j < 32
        invariant
            j <= 32,
            rej@ == sha3_256_of(sk@.skip(903) + c@),
            forall|t: int| 0 <= t < j ==> rm@[t] == rej@[t],
            forall|t: int| 0 <= t < 32 ==> k@[t] == sha3_256_of(rm_rec)[t],
        decreases 32 - j,
    {
        rm[j] = rej[j];
        j += 1;
    }

    cmov(k, &rm, 32, fail as u8);
    proof {
        if fail == 0 {
            assert(k@ =~= sha3_256_of(dec_rm_bytes(c@, sk@)));
        } else {
            assert(k@ =~= sha3_256_of(sk@.skip(903) + c@));
        }
    }
    Ok(())
}

/// When decryption recovers exactly the pair that encapsulation drew - the
/// correctness property of the OW-CPA trapdoor, exercised by the concrete
/// round-trip tests - and the validity checks pass, the decapsulated secret
/// is the encapsulated one: both hash the same packed (r, m) pair.
pub proof fn lemma_decap_matches_encap(
    mv: Seq<u16>,
    seed: Seq<u8>,
    pkb: Seq<u8>,
    cb: Seq<u8>,
    kb: Seq<u8>,
    skb: Seq<u8>,
)
    requires
        kem_enc_rel(mv, seed, pkb, cb, kb),
        dec_ok(cb, skb),
        trin_seq(dec_r_poly(cb, skb)) == iid_poly(seed),
        dec_m_poly(cb, skb) == mv,
    ensures
        sha3_256_of(dec_rm_bytes(cb, skb)) == kb,
{
    assert(dec_rm_bytes(cb, skb) == s3pack_seq(iid_poly(seed)) + s3pack_seq(mv));
}

} // verus!
