use ntrust_native::poly::Poly;
use ntrust_native::poly::poly_rq_inv;
use ntrust_native::poly::poly_s3_mul;
use ntrust_native::poly::poly_trinary_zq_to_z3;
use ntrust_native::poly::poly_z3_to_zq;
use ntrust_native::poly_mod::mod3;
use ntrust_native::poly_mod::poly_rq_to_s3;
use ntrust_native::poly_r2_inv::poly_r2_inv;
use ntrust_native::poly_rq_mul::poly_rq_mul;
use ntrust_native::poly_s3_inv::poly_s3_inv;
use ntrust_native::sample_iid::sample_iid;

#[test]
fn mod3_exact_values() {
    assert_eq!(mod3(0), 0);
    assert_eq!(mod3(1), 1);
    assert_eq!(mod3(2), 2);
    assert_eq!(mod3(3), 0);
    assert_eq!(mod3(2047), 1);
    assert_eq!(mod3(2048), 2);
    assert_eq!(mod3(65535), 0);
    for a in 0..=65535u16 {
        assert_eq!(mod3(a), a % 3);
    }
}

#[test]
fn mod3_byte_frequencies() {
    // Over uniformly random bytes the outputs 0, 1, 2 occur 86, 85 and 85
    // times out of 256.
    let mut counts = [0u32; 3];
    for b in 0..=255u16 {
        counts[mod3(b) as usize] += 1;
    }
    assert_eq!(counts, [86, 85, 85]);
}

#[test]
fn trinary_conversion_round_trip() {
    let mut p = Poly::new();
    for i in 0..509 {
        p.coeffs[i] = (i % 3) as u16;
    }
    let before = p.coeffs;
    poly_z3_to_zq(&mut p);
    for i in 0..509 {
        let expected = match before[i] {
            2 => 2047,
            v => v,
        };
        assert_eq!(p.coeffs[i], expected);
    }
    poly_trinary_zq_to_z3(&mut p);
    assert_eq!(p.coeffs, before);
}

#[test]
fn rq_mul_commutative_and_units() {
    let mut a = Poly::new();
    let mut b = Poly::new();
    for i in 0..509 {
        a.coeffs[i] = ((i * 31 + 7) % 2048) as u16;
        b.coeffs[i] = ((i * i + 3) % 2048) as u16;
    }
    let mut ab = Poly::new();
    let mut ba = Poly::new();
    poly_rq_mul(&mut ab, &a, &b);
    poly_rq_mul(&mut ba, &b, &a);
    assert_eq!(ab.coeffs, ba.coeffs);

    // r * 1 = r and r * 0 = 0 in Z/2^16.
    let mut one = Poly::new();
    one.coeffs[0] = 1;
    let zero = Poly::new();
    let mut out = Poly::new();
    poly_rq_mul(&mut out, &a, &one);
    assert_eq!(out.coeffs, a.coeffs);
    poly_rq_mul(&mut out, &a, &zero);
    assert_eq!(out.coeffs, zero.coeffs);
}

#[test]
fn rq_mul_associative_distributive() {
    let mut a = Poly::new();
    let mut b = Poly::new();
    let mut c = Poly::new();
    for i in 0..509 {
        a.coeffs[i] = ((i * 131 + 17) % 65536) as u16;
        b.coeffs[i] = ((i * 7 + 29) % 65536) as u16;
        c.coeffs[i] = ((i * 11 + 5) % 65536) as u16;
    }
    let mut ab = Poly::new();
    let mut bc = Poly::new();
    let mut ab_c = Poly::new();
    let mut a_bc = Poly::new();
    poly_rq_mul(&mut ab, &a, &b);
    poly_rq_mul(&mut ab_c, &ab, &c);
    poly_rq_mul(&mut bc, &b, &c);
    poly_rq_mul(&mut a_bc, &a, &bc);
    assert_eq!(ab_c.coeffs, a_bc.coeffs);

    let mut b_plus_c = Poly::new();
    for i in 0..509 {
        b_plus_c.coeffs[i] = b.coeffs[i].wrapping_add(c.coeffs[i]);
    }
    let mut a_bpc = Poly::new();
    let mut ac = Poly::new();
    poly_rq_mul(&mut a_bpc, &a, &b_plus_c);
    poly_rq_mul(&mut ac, &a, &c);
    for i in 0..509 {
        assert_eq!(a_bpc.coeffs[i], ab.coeffs[i].wrapping_add(ac.coeffs[i]));
    }
}

#[test]
fn r2_inverse_times_input_is_one() {
    // a = 1 + x + x^2, coprime to x^509 - 1 over F_2.
    let mut a = Poly::new();
    a.coeffs[0] = 1;
    a.coeffs[1] = 1;
    a.coeffs[2] = 1;
    let mut inv = Poly::new();
    poly_r2_inv(&mut inv, &a);
    let mut prod = Poly::new();
    poly_rq_mul(&mut prod, &inv, &a);
    // The almost-inverse inverts a modulo (2, Phi_N): reduce the product mod
    // Phi_N over F_2 by folding in the top coefficient.
    let top = prod.coeffs[508];
    assert_eq!((prod.coeffs[0] ^ top) & 1, 1);
    for i in 1..509 {
        assert_eq!((prod.coeffs[i] ^ top) & 1, 0, "coefficient {} not zero mod (2, Phi)", i);
    }
}

#[test]
fn s3_inverse_times_input_is_one() {
    let mut bytes = [0u8; 508];
    for i in 0..508 {
        bytes[i] = (i as u8).wrapping_mul(89).wrapping_add(41);
    }
    let mut f = Poly::new();
    sample_iid(&mut f, bytes);
    let mut inv = Poly::new();
    poly_s3_inv(&mut inv, &mut f);
    let mut prod = Poly::new();
    poly_s3_mul(&mut prod, &inv, &f);
    assert_eq!(prod.coeffs[0], 1);
    for i in 1..509 {
        assert_eq!(prod.coeffs[i], 0, "coefficient {} not zero in S_3", i);
    }
}

#[test]
fn rq_inverse_times_input_is_one_mod_q() {
    // Lift the same trinary polynomial used by the key generator: an
    // invertible element of R_q.
    let mut bytes = [0u8; 508];
    for i in 0..508 {
        bytes[i] = (i as u8).wrapping_mul(89).wrapping_add(41);
    }
    let mut f = Poly::new();
    sample_iid(&mut f, bytes);
    poly_z3_to_zq(&mut f);
    let mut inv = Poly::new();
    poly_rq_inv(&mut inv, &f);
    let mut prod = Poly::new();
    poly_rq_mul(&mut prod, &inv, &f);
    // The lifted inverse inverts f modulo (q, Phi_N).
    let top = prod.coeffs[508];
    assert_eq!(prod.coeffs[0].wrapping_sub(top) % 2048, 1);
    for i in 1..509 {
        assert_eq!(
            prod.coeffs[i].wrapping_sub(top) % 2048,
            0,
            "coefficient {} not zero mod (q, Phi)",
            i
        );
    }
}

#[test]
fn rq_to_s3_reduces_centered() {
    let mut a = Poly::new();
    a.coeffs[0] = 1;
    a.coeffs[1] = 2047; // -1 mod q maps to 2 mod 3
    a.coeffs[2] = 1024; // q/2 maps to (1024 + 1) mod 3 = 2
    let mut r = Poly::new();
    poly_rq_to_s3(&mut r, &a);
    assert_eq!(r.coeffs[0], 1);
    assert_eq!(r.coeffs[1], 2);
    assert_eq!(r.coeffs[2], 2);
    assert_eq!(r.coeffs[3], 0);
}
