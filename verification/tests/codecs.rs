use ntrust_native::pack3::poly_s3_frombytes;
use ntrust_native::pack3::poly_s3_tobytes;
use ntrust_native::packq::poly_rq_sum_zero_frombytes;
use ntrust_native::packq::poly_rq_sum_zero_tobytes;
use ntrust_native::packq::poly_sq_frombytes;
use ntrust_native::packq::poly_sq_tobytes;
use ntrust_native::poly::Poly;

#[test]
fn s3_pack_round_trip() {
    let mut a = Poly::new();
    for i in 0..508 {
        a.coeffs[i] = ((i * 7 + 1) % 3) as u16;
    }
    a.coeffs[508] = 0;

    let mut msg = [0u8; 102];
    poly_s3_tobytes(&mut msg, &a);

    let mut padded = [0u8; 204];
    padded[..102].copy_from_slice(&msg);
    let mut back = Poly::new();
    poly_s3_frombytes(&mut back, padded);
    assert_eq!(back.coeffs, a.coeffs);
}

#[test]
fn s3_pack_known_bytes() {
    // Coefficients 0, 1, 2, 0, 1 pack as 0 + 3*1 + 9*2 + 27*0 + 81*1 = 102.
    let mut a = Poly::new();
    a.coeffs[0] = 0;
    a.coeffs[1] = 1;
    a.coeffs[2] = 2;
    a.coeffs[3] = 0;
    a.coeffs[4] = 1;
    let mut msg = [0u8; 102];
    poly_s3_tobytes(&mut msg, &a);
    assert_eq!(msg[0], 102);
    assert_eq!(msg[1], 0);
}

#[test]
fn sq_pack_round_trip_low_coeffs() {
    let mut a = Poly::new();
    for i in 0..508 {
        a.coeffs[i] = ((i * 97 + 13) % 2048) as u16;
    }
    a.coeffs[508] = 0;

    let mut msg = [0u8; 699];
    poly_sq_tobytes(&mut msg, &a);
    let mut back = Poly::new();
    poly_sq_frombytes(&mut back, &msg);
    for i in 0..508 {
        assert_eq!(back.coeffs[i], a.coeffs[i], "coefficient {}", i);
    }
    assert_eq!(back.coeffs[508], 0);
}

#[test]
fn sq_pack_known_bytes() {
    // Coefficient 0 = 0x7ff, coefficient 1 = 1: the first two bytes hold
    // 0xff and the three top bits of 0x7ff next to the low bits of 1.
    let mut a = Poly::new();
    a.coeffs[0] = 0x7ff;
    a.coeffs[1] = 1;
    let mut msg = [0u8; 699];
    poly_sq_tobytes(&mut msg, &a);
    assert_eq!(msg[0], 0xff);
    assert_eq!(msg[1], 0x07 | (1 << 3));
    assert_eq!(msg[2], 0);
    // The unused top four bits of the final byte stay clear.
    assert_eq!(msg[698] & 0xf0, 0);
}

#[test]
fn rq_sum_zero_round_trip() {
    let mut a = Poly::new();
    let mut sum: u32 = 0;
    for i in 0..508 {
        a.coeffs[i] = ((i * 29 + 5) % 2048) as u16;
        sum += a.coeffs[i] as u32;
    }
    // Choose the top coefficient so that the sum vanishes mod q.
    a.coeffs[508] = ((2048 - (sum % 2048)) % 2048) as u16;

    let mut msg = [0u8; 699];
    poly_rq_sum_zero_tobytes(&mut msg, &a);
    let mut back = Poly::new();
    poly_rq_sum_zero_frombytes(&mut back, &msg);
    for i in 0..508 {
        assert_eq!(back.coeffs[i], a.coeffs[i], "coefficient {}", i);
    }
    assert_eq!(back.coeffs[508] % 2048, a.coeffs[508] % 2048);
}
