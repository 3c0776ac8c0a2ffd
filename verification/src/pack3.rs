//! Packing of trinary polynomials: five base-3 coefficients per byte, the
//! final byte holding the remaining three, and the inverse unpacking that
//! divides by powers of 3 through fixed-point reciprocals.

use vstd::prelude::*;
use crate::poly::Poly;
use crate::poly_mod::poly_mod_3_phi_n;

verus! {

broadcast use crate::arith::lemma_and255;

/// 3^j for the five digit positions of one packed byte.
pub open spec fn pow3_digit(j: int) -> int {
    if j == 0 {
        1int
    } else if j == 1 {
        3int
    } else if j == 2 {
        9int
    } else if j == 3 {
        27int
    } else {
        81int
    }
}

/// Byte i < 101 of the packed form: the base-3 value of coefficients
/// 5i .. 5i+4, reduced mod 256.
pub open spec fn s3_full_byte(a: Seq<u16>, i: int) -> int {
    (a[5 * i] + 3 * a[5 * i + 1] + 9 * a[5 * i + 2] + 27 * a[5 * i + 3] + 81 * a[5 * i + 4]) % 256
}

/// The final byte of the packed form: the base-3 value of coefficients
/// 505 .. 507, reduced mod 256.
pub open spec fn s3_tail_byte(a: Seq<u16>) -> int {
    (a[505] + 3 * a[506] + 9 * a[507]) % 256
}

/// Base-3 digit j of a packed byte.
pub open spec fn s3_digit(c: u8, j: int) -> int {
    (c as int / pow3_digit(j)) % 3
}

proof fn lemma_s3_unpack_byte(c: u16, q1: u16, q2: u16, q3: u16, q4: u16)
    by (bit_vector)
    requires
        c <= 255,
        q1 == vstd::wrapping::u16_specs::wrapping_mul(c, 171) >> 9,
        q2 == vstd::wrapping::u16_specs::wrapping_mul(c, 57) >> 9,
        q3 == vstd::wrapping::u16_specs::wrapping_mul(c, 19) >> 9,
        q4 == vstd::wrapping::u16_specs::wrapping_mul(c, 203) >> 14,
    ensures
        q1 == c / 3,
        q2 == c / 9,
        q3 == c / 27,
        q4 == c / 81,
{
}

/// Recovering the base-3 digits of a byte built from digits at most 2: the
/// packed value is below 243, and dividing by powers of 3 and reducing mod 3
/// gives each digit back.
pub proof fn lemma_s3_digits_recover(d0: u16, d1: u16, d2: u16, d3: u16, d4: u16, s: u16)
    by (bit_vector)
    requires
        d0 <= 2 && d1 <= 2 && d2 <= 2 && d3 <= 2 && d4 <= 2,
        s == d0 + 3 * d1 + 9 * d2 + 27 * d3 + 81 * d4,
    ensures
        s < 243,
        s % 3 == d0,
        (s / 3) % 3 == d1,
        (s / 9) % 3 == d2,
        (s / 27) % 3 == d3,
        (s / 81) % 3 == d4,
{
}

/// Packs a polynomial with coefficients at most 3 (canonically, trinary
/// coefficients in {0, 1, 2}) into 102 bytes, five coefficients per byte in
/// base 3; the top coefficient is not packed.
pub fn poly_s3_tobytes(msg: &mut [u8; 102], a: &Poly)
    requires
        forall|i: int| 0 <= i < 508 ==> #[trigger] a.coeffs@[i] <= 3,
    ensures
        forall|i: int| 0 <= i < 101 ==> final(msg)@[i] == s3_full_byte(a.coeffs@, i),
        final(msg)@[101] == s3_tail_byte(a.coeffs@),
{
    let mut i: usize = 0;
    while i < 101
        invariant
            i <= 101,
            forall|i2: int| 0 <= i2 < 508 ==> #[trigger] a.coeffs@[i2] <= 3,
            forall|i2: int| 0 <= i2 < i ==> msg@[i2] == s3_full_byte(a.coeffs@, i2),
        decreases 101 - i,
    {
        let mut c: u16 = a.coeffs[5 * i + 4];
        c = 3 * c + a.coeffs[5 * i + 3];
        c = 3 * c + a.coeffs[5 * i + 2];
        c = 3 * c + a.coeffs[5 * i + 1];
        c = 3 * c + a.coeffs[5 * i];
        msg[i] = (c & 255) as u8;
        i += 1;
    }
    // The last byte packs the three coefficients 505, 506 and 507.
    let mut c: u16 = a.coeffs[507];
    c = 3 * c + a.coeffs[506];
    c = 3 * c + a.coeffs[505];
    msg[101] = (c & 255) as u8;
}

/// Unpacks the 102 leading bytes of a packed message into a trinary
/// polynomial: coefficient i is base-3 digit i mod 5 of byte i / 5, and the
/// top coefficient is zero.
pub fn poly_s3_frombytes(r: &mut Poly, msg: [u8; 204])
    ensures
        forall|i: int| 0 <= i < 508 ==> final(r).coeffs@[i] == s3_digit(msg@[i / 5], i % 5),
        final(r).coeffs@[508] == 0,
        forall|i: int| 0 <= i < 509 ==> final(r).coeffs@[i] < 3,
{
    let mut i: usize = 0;
    while i < 101
        invariant
            i <= 101,
            forall|i2: int| 0 <= i2 < 5 * i ==> #[trigger] r.coeffs@[i2]
                == msg@[i2 / 5] as int / pow3_digit(i2 % 5),
            forall|i2: int| 0 <= i2 < 5 * i ==> #[trigger] r.coeffs@[i2] <= 255,
        decreases 101 - i,
    {
        let c: u16 = msg[i] as u16;
        let q1: u16 = c.wrapping_mul(171) >> 9;
        let q2: u16 = c.wrapping_mul(57) >> 9;
        let q3: u16 = c.wrapping_mul(19) >> 9;
        let q4: u16 = c.wrapping_mul(203) >> 14;
        proof {
            lemma_s3_unpack_byte(c, q1, q2, q3, q4);
        }
        r.coeffs[5 * i] = c;
        r.coeffs[5 * i + 1] = q1;
        r.coeffs[5 * i + 2] = q2;
        r.coeffs[5 * i + 3] = q3;
        r.coeffs[5 * i + 4] = q4;
        proof {
            assert forall|j: int| 5 * i <= j < 5 * i + 5 implies
                (#[trigger] (j / 5)) == i && j % 5 == j - 5 * i by {
                vstd::arithmetic::div_mod::lemma_fundamental_div_mod_converse(
                    j, 5, i as int, j - 5 * i);
            }
        }
        i += 1;
    }
    // The last byte carries the three coefficients 505, 506 and 507: repeated
    // fixed-point division by 3 peels its digits.
    let c: u16 = msg[101] as u16;
    let q1: u16 = c.wrapping_mul(171) >> 9;
    let q2: u16 = q1.wrapping_mul(171) >> 9;
    proof {
        lemma_s3_unpack_byte(c, q1,
            vstd::wrapping::u16_specs::wrapping_mul(c, 57) >> 9,
            vstd::wrapping::u16_specs::wrapping_mul(c, 19) >> 9,
            vstd::wrapping::u16_specs::wrapping_mul(c, 203) >> 14);
        lemma_s3_unpack_byte(q1, q2,
            vstd::wrapping::u16_specs::wrapping_mul(q1, 57) >> 9,
            vstd::wrapping::u16_specs::wrapping_mul(q1, 19) >> 9,
            vstd::wrapping::u16_specs::wrapping_mul(q1, 203) >> 14);
        assert((c / 3) / 3 == c / 9) by {
            vstd::arithmetic::div_mod::lemma_div_denominator(c as int, 3, 3);
        }
        assert forall|j: int| 505 <= j < 508 implies
            (#[trigger] (j / 5)) == 101 && j % 5 == j - 505 by {
            vstd::arithmetic::div_mod::lemma_fundamental_div_mod_converse(j, 5, 101, j - 505);
        }
    }
    r.coeffs[505] = c;
    r.coeffs[506] = q1;
    r.coeffs[507] = q2;
    r.coeffs[508] = 0;
    proof {
        assert(forall|i2: int| 0 <= i2 < 509 ==>
            #[trigger] r.coeffs@[i2] + 2 * r.coeffs@[508] < 0x10000);
    }
    poly_mod_3_phi_n(r);
}

/// Packing a canonical trinary polynomial (coefficients in {0, 1, 2}, top
/// coefficient zero) and unpacking the bytes again is the identity.
pub proof fn lemma_s3_pack_round_trip(a: Seq<u16>, msg: Seq<u8>, r: Seq<u16>)
    requires
        a.len() == 509,
        msg.len() >= 102,
        r.len() == 509,
        forall|i: int| 0 <= i < 508 ==> #[trigger] a[i] <= 2,
        a[508] == 0,
        forall|j: int| 0 <= j < 101 ==> #[trigger] msg[j] == s3_full_byte(a, j),
        msg[101] == s3_tail_byte(a),
        forall|i: int| 0 <= i < 508 ==> #[trigger] r[i] == s3_digit(msg[i / 5], i % 5),
        r[508] == 0,
    ensures
        forall|i: int| 0 <= i < 509 ==> #[trigger] r[i] == a[i],
{
    assert forall|i: int| 0 <= i < 509 implies #[trigger] r[i] == a[i] by {
        if i < 508 {
            let g = i / 5;
            let j = i % 5;
            vstd::arithmetic::div_mod::lemma_fundamental_div_mod(i, 5);
            vstd::arithmetic::div_mod::lemma_mod_bound(i, 5);
            assert(0 <= g <= 101) by {
                vstd::arithmetic::div_mod::lemma_div_is_ordered(i, 507, 5);
                vstd::arithmetic::div_mod::lemma_div_pos_is_pos(i, 5);
            }
            if g < 101 {
                let d0 = a[5 * g];
                let d1 = a[5 * g + 1];
                let d2 = a[5 * g + 2];
                let d3 = a[5 * g + 3];
                let d4 = a[5 * g + 4];
                let sum = d0 + 3 * d1 + 9 * d2 + 27 * d3 + 81 * d4;
                lemma_s3_digits_recover(d0, d1, d2, d3, d4, sum as u16);
                assert(s3_full_byte(a, g) == sum % 256);
                vstd::arithmetic::div_mod::lemma_small_mod(sum as nat, 256nat);
                assert(msg[g] == sum);
            } else {
                let d0 = a[505];
                let d1 = a[506];
                let d2 = a[507];
                let sum = d0 + 3 * d1 + 9 * d2;
                lemma_s3_digits_recover(d0, d1, d2, 0, 0, sum as u16);
                assert(s3_tail_byte(a) == sum % 256);
                vstd::arithmetic::div_mod::lemma_small_mod(sum as nat, 256nat);
                assert(msg[101] == sum);
            }
        }
    }
}

} // verus!
