use ntrust_native::api::CRYPTO_BYTES;
use ntrust_native::api::CRYPTO_CIPHERTEXTBYTES;
use ntrust_native::api::CRYPTO_PUBLICKEYBYTES;
use ntrust_native::api::CRYPTO_SECRETKEYBYTES;
use ntrust_native::kem::crypto_kem_dec;
use ntrust_native::kem::crypto_kem_enc;
use ntrust_native::kem::crypto_kem_keypair;
use ntrust_native::owcpa::owcpa_check_ciphertext;
use ntrust_native::poly::Poly;
use ntrust_native::rng::AesState;
use ntrust_native::sample::sample_fg;
use ntrust_native::sample::sample_iid_plus;

fn seeded_rng() -> AesState {
    let mut entropy = [0u8; 48];
    for i in 0..48 {
        entropy[i] = i as u8;
    }
    let mut rng = AesState::new();
    rng.randombytes_init(entropy);
    rng
}

#[test]
fn drbg_is_deterministic() {
    let mut rng1 = seeded_rng();
    let mut rng2 = seeded_rng();
    let mut a = [0u8; 48];
    let mut b = [0u8; 48];
    rng1.randombytes(&mut a).unwrap();
    rng2.randombytes(&mut b).unwrap();
    assert_eq!(a, b);
    // A further draw continues the stream rather than repeating it.
    let mut c = [0u8; 48];
    rng1.randombytes(&mut c).unwrap();
    assert_ne!(a, c);
    // A different seed yields a different stream.
    let mut entropy = [0u8; 48];
    entropy[0] = 0xaa;
    let mut rng3 = AesState::new();
    rng3.randombytes_init(entropy);
    let mut d = [0u8; 48];
    rng3.randombytes(&mut d).unwrap();
    assert_ne!(a, d);
    // The stream is an encryption of the counter, not the counter itself:
    // with the canonical seed the first block's counter would be the bytes
    // 16..31 incremented once at the end.
    let mut counter_plus_one = [0u8; 16];
    for i in 0..16 {
        counter_plus_one[i] = (16 + i) as u8;
    }
    counter_plus_one[15] = 32;
    assert_ne!(&a[..16], &counter_plus_one[..]);
}

#[test]
fn fixed_weight_sampler_counts() {
    let mut rng = seeded_rng();
    let mut bytes = [0u8; 2413];
    rng.randombytes(&mut bytes).unwrap();
    let mut f = Poly::new();
    let mut g = Poly::new();
    sample_fg(&mut f, &mut g, bytes);
    let mut counts = [0usize; 3];
    for i in 0..509 {
        assert!(g.coeffs[i] <= 2);
        counts[g.coeffs[i] as usize] += 1;
    }
    assert_eq!(counts[1], 127);
    assert_eq!(counts[2], 127);
    assert_eq!(counts[0], 509 - 254);
    assert_eq!(g.coeffs[508], 0);
    for i in 0..509 {
        assert!(f.coeffs[i] <= 2);
    }
    assert_eq!(f.coeffs[508], 0);
}

#[test]
fn iid_plus_sampler_is_trinary() {
    let mut bytes = [0u8; 508];
    for i in 0..508 {
        bytes[i] = (i as u8).wrapping_mul(3).wrapping_add(1);
    }
    let mut r = Poly::new();
    sample_iid_plus(&mut r, bytes);
    for i in 0..509 {
        assert!(r.coeffs[i] <= 2);
    }
    assert_eq!(r.coeffs[508], 0);
    // The inner product <x*r, r> of the lifted polynomial is non-negative.
    let mut s: i64 = 0;
    for i in 0..508 {
        let lift = |c: u16| -> i64 {
            match c {
                2 => -1,
                v => v as i64,
            }
        };
        s += lift(r.coeffs[i + 1]) * lift(r.coeffs[i]);
    }
    assert!(s >= 0);
}

#[test]
fn kem_round_trip_shared_secret_matches() {
    let mut rng = seeded_rng();
    let mut pk = [0u8; CRYPTO_PUBLICKEYBYTES];
    let mut sk = [0u8; CRYPTO_SECRETKEYBYTES];
    crypto_kem_keypair(&mut pk, &mut sk, &mut rng).unwrap();

    let mut ct = [0u8; CRYPTO_CIPHERTEXTBYTES];
    let mut ss_bob = [0u8; CRYPTO_BYTES];
    crypto_kem_enc(&mut ct, &mut ss_bob, &pk, &mut rng).unwrap();

    let mut ss_alice = [0u8; CRYPTO_BYTES];
    crypto_kem_dec(&mut ss_alice, &ct, &sk).unwrap();
    assert_eq!(ss_alice, ss_bob);
}

#[test]
fn kem_keypair_is_deterministic_for_a_seed() {
    let mut rng1 = seeded_rng();
    let mut pk1 = [0u8; CRYPTO_PUBLICKEYBYTES];
    let mut sk1 = [0u8; CRYPTO_SECRETKEYBYTES];
    crypto_kem_keypair(&mut pk1, &mut sk1, &mut rng1).unwrap();

    let mut rng2 = seeded_rng();
    let mut pk2 = [0u8; CRYPTO_PUBLICKEYBYTES];
    let mut sk2 = [0u8; CRYPTO_SECRETKEYBYTES];
    crypto_kem_keypair(&mut pk2, &mut sk2, &mut rng2).unwrap();

    assert_eq!(&pk1[..], &pk2[..]);
    assert_eq!(&sk1[..], &sk2[..]);

    // Feeding the public key back into encapsulation on identically seeded
    // generators reproduces ciphertext and shared secret bit for bit.
    let mut ct1 = [0u8; CRYPTO_CIPHERTEXTBYTES];
    let mut ss1 = [0u8; CRYPTO_BYTES];
    crypto_kem_enc(&mut ct1, &mut ss1, &pk1, &mut rng1).unwrap();
    let mut ct2 = [0u8; CRYPTO_CIPHERTEXTBYTES];
    let mut ss2 = [0u8; CRYPTO_BYTES];
    crypto_kem_enc(&mut ct2, &mut ss2, &pk2, &mut rng2).unwrap();
    assert_eq!(&ct1[..], &ct2[..]);
    assert_eq!(ss1, ss2);
}

#[test]
fn kem_ciphertext_bit_flip_changes_secret() {
    let mut rng = seeded_rng();
    let mut pk = [0u8; CRYPTO_PUBLICKEYBYTES];
    let mut sk = [0u8; CRYPTO_SECRETKEYBYTES];
    crypto_kem_keypair(&mut pk, &mut sk, &mut rng).unwrap();
    let mut ct = [0u8; CRYPTO_CIPHERTEXTBYTES];
    let mut ss_bob = [0u8; CRYPTO_BYTES];
    crypto_kem_enc(&mut ct, &mut ss_bob, &pk, &mut rng).unwrap();

    let mut rejected = Vec::new();
    for &pos in &[0usize, 1, 350, CRYPTO_CIPHERTEXTBYTES - 2] {
        let mut mutated = ct;
        mutated[pos] ^= 0x01;
        let mut ss = [0u8; CRYPTO_BYTES];
        crypto_kem_dec(&mut ss, &mutated, &sk).unwrap();
        assert_ne!(ss, ss_bob, "bit flip at byte {} left the secret unchanged", pos);
        // Implicit rejection is deterministic.
        let mut ss_again = [0u8; CRYPTO_BYTES];
        crypto_kem_dec(&mut ss_again, &mutated, &sk).unwrap();
        assert_eq!(ss, ss_again);
        rejected.push(ss);
    }
    // The rejection secret hashes the whole (z || ciphertext) input, so it
    // differs between differently mutated ciphertexts.
    for i in 0..rejected.len() {
        for j in 0..i {
            assert_ne!(rejected[i], rejected[j]);
        }
    }
}

#[test]
fn kem_final_byte_top_bit_triggers_ciphertext_check() {
    let mut rng = seeded_rng();
    let mut pk = [0u8; CRYPTO_PUBLICKEYBYTES];
    let mut sk = [0u8; CRYPTO_SECRETKEYBYTES];
    crypto_kem_keypair(&mut pk, &mut sk, &mut rng).unwrap();
    let mut ct = [0u8; CRYPTO_CIPHERTEXTBYTES];
    let mut ss_bob = [0u8; CRYPTO_BYTES];
    crypto_kem_enc(&mut ct, &mut ss_bob, &pk, &mut rng).unwrap();

    assert_eq!(owcpa_check_ciphertext(&ct), 0);
    let mut mutated = ct;
    mutated[CRYPTO_CIPHERTEXTBYTES - 1] ^= 0x80;
    assert_eq!(owcpa_check_ciphertext(&mutated), 1);

    let mut ss = [0u8; CRYPTO_BYTES];
    crypto_kem_dec(&mut ss, &mutated, &sk).unwrap();
    assert_ne!(ss, ss_bob);
    let mut ss_again = [0u8; CRYPTO_BYTES];
    crypto_kem_dec(&mut ss_again, &mutated, &sk).unwrap();
    assert_eq!(ss, ss_again);
}

#[test]
fn kem_consecutive_records_reproduce() {
    // The known-answer harness draws one 48-byte sub-seed per record from a
    // master generator and runs each record on a fresh generator. Every
    // record must reproduce bit-exact on a second run.
    let mut master = seeded_rng();
    let mut records = Vec::new();
    for _ in 0..3 {
        let mut seed = [0u8; 48];
        master.randombytes(&mut seed).unwrap();
        let mut rng = AesState::new();
        rng.randombytes_init(seed);

        let mut pk = [0u8; CRYPTO_PUBLICKEYBYTES];
        let mut sk = [0u8; CRYPTO_SECRETKEYBYTES];
        crypto_kem_keypair(&mut pk, &mut sk, &mut rng).unwrap();
        let mut ct = [0u8; CRYPTO_CIPHERTEXTBYTES];
        let mut ss = [0u8; CRYPTO_BYTES];
        crypto_kem_enc(&mut ct, &mut ss, &pk, &mut rng).unwrap();
        let mut ss_dec = [0u8; CRYPTO_BYTES];
        crypto_kem_dec(&mut ss_dec, &ct, &sk).unwrap();
        assert_eq!(ss, ss_dec);
        records.push((seed, pk.to_vec(), sk.to_vec(), ct.to_vec(), ss));
    }

    // Re-run every record from its stored seed: byte-exact reproduction.
    for (seed, pk0, sk0, ct0, ss0) in &records {
        let mut rng = AesState::new();
        rng.randombytes_init(*seed);
        let mut pk = [0u8; CRYPTO_PUBLICKEYBYTES];
        let mut sk = [0u8; CRYPTO_SECRETKEYBYTES];
        crypto_kem_keypair(&mut pk, &mut sk, &mut rng).unwrap();
        let mut ct = [0u8; CRYPTO_CIPHERTEXTBYTES];
        let mut ss = [0u8; CRYPTO_BYTES];
        crypto_kem_enc(&mut ct, &mut ss, &pk, &mut rng).unwrap();
        assert_eq!(&pk[..], &pk0[..]);
        assert_eq!(&sk[..], &sk0[..]);
        assert_eq!(&ct[..], &ct0[..]);
        assert_eq!(&ss, ss0);
    }
}
