//! Branch-free modular reduction helpers: reduction mod 3 of a 16-bit value,
//! and the reductions modulo Phi_N = 1 + x + ... + x^(N-1) used to move
//! between R_q, S_q and S_3.

use vstd::prelude::*;
use crate::poly::Poly;

verus! {

proof fn lemma_mod3_core(a: u16, r1: u16, r2: u16, r3: u16, r4: u16, t: i16, c: i16, res: u16)
    by (bit_vector)
    requires
        r1 == vstd::wrapping::u16_specs::wrapping_add(a >> 8, a & 0xff),
        r2 == vstd::wrapping::u16_specs::wrapping_add(r1 >> 4, r1 & 0xf),
        r3 == vstd::wrapping::u16_specs::wrapping_add(r2 >> 2, r2 & 0x3),
        r4 == vstd::wrapping::u16_specs::wrapping_add(r3 >> 2, r3 & 0x3),
        t == vstd::wrapping::i16_specs::wrapping_sub(r4 as i16, 3),
        c == t >> 15,
        res == ((c as u16) & r4) ^ ((!c & t) as u16),
    ensures
        res == a % 3,
        res < 3,
{
}

/// Reduces any 16-bit value modulo 3 using only shifts, masks and one
/// masked subtraction; no branch depends on the input.
pub fn mod3(a: u16) -> (r: u16)
    ensures
        r == a % 3,
        r < 3,
{
    let r1: u16 = (a >> 8).wrapping_add(a & 0xff);
    let r2: u16 = (r1 >> 4).wrapping_add(r1 & 0xf);
    let r3: u16 = (r2 >> 2).wrapping_add(r2 & 0x3);
    let r4: u16 = (r3 >> 2).wrapping_add(r3 & 0x3);

    let t: i16 = (r4 as i16).wrapping_sub(3);
    let c: i16 = t >> 15;

    let res: u16 = ((c as u16) & r4) ^ (#[verifier::truncate] (((!c) & t) as u16));
    proof {
        lemma_mod3_core(a, r1, r2, r3, r4, t, c, res);
    }
    res
}

/// Reduction modulo Phi_N in S_q: subtracting the top coefficient from every
/// coefficient (mod 2^16) maps a representative of R_q to the representative
/// of the same class mod Phi_N whose top coefficient is zero.
pub fn poly_mod_q_phi_n(r: &mut Poly)
    ensures
        forall|i: int| 0 <= i < 509 ==>
            final(r).coeffs@[i] == (old(r).coeffs@[i] - old(r).coeffs@[508]) % 0x10000,
{
    broadcast use crate::arith::lemma_wsub16;

    let mut i: usize = 0;
    while i < 509
        invariant
            i <= 509,
            forall|i2: int| 0 <= i2 < i ==>
                r.coeffs@[i2] == (old(r).coeffs@[i2] - old(r).coeffs@[508]) % 0x10000,
            forall|i2: int| i <= i2 < 509 ==> r.coeffs@[i2] == old(r).coeffs@[i2],
        decreases 509 - i,
    {
        r.coeffs[i] = r.coeffs[i].wrapping_sub(r.coeffs[508]);
        i += 1;
    }
}

/// The value whose reduction mod 3 is coefficient i of the mod-3-Phi_N
/// reduction of a: the coefficient plus twice the top coefficient.
pub open spec fn phi3_pre(a: Seq<u16>, i: int) -> int {
    a[i] + 2 * a[508]
}

/// Reduction modulo (3, Phi_N): adds twice the top coefficient to every
/// coefficient, then reduces each mod 3. Requires room in 16 bits.
pub fn poly_mod_3_phi_n(r: &mut Poly)
    requires
        forall|i: int| 0 <= i < 509 ==> #[trigger] old(r).coeffs@[i] + 2 * old(r).coeffs@[508] < 0x10000,
    ensures
        forall|i: int| 0 <= i < 509 ==> final(r).coeffs@[i] == phi3_pre(old(r).coeffs@, i) % 3,
        forall|i: int| 0 <= i < 509 ==> final(r).coeffs@[i] < 3,
{
    let mut i: usize = 0;
    while i < 509
        invariant
            i <= 509,
            forall|i2: int| 0 <= i2 < 509 ==> #[trigger] old(r).coeffs@[i2] + 2 * old(r).coeffs@[508] < 0x10000,
            forall|i2: int| 0 <= i2 < i ==>
                r.coeffs@[i2] == phi3_pre(old(r).coeffs@, i2) % 3 && r.coeffs@[i2] < 3,
            forall|i2: int| i <= i2 < 509 ==> r.coeffs@[i2] == old(r).coeffs@[i2],
        decreases 509 - i,
    {
        let v: u16 = r.coeffs[i] + 2 * r.coeffs[508];
        r.coeffs[i] = mod3(v);
        i += 1;
    }
}

/// The canonical mod-q value of c shifted toward the centered representative:
/// adds one exactly when the representative lies in [q/2, q), matching the
/// congruence class of the centered value mod 3 (since -q is 1 mod 3).
pub open spec fn center_pre(c: u16) -> int {
    (c % 2048) + if c % 2048 >= 1024 { 1int } else { 0int }
}

proof fn lemma_flag_shift(c: u16, f: u16)
    by (bit_vector)
    requires
        c < 2048,
        f == c >> 10,
    ensures
        f == if c >= 1024 { 1u16 } else { 0u16 },
{
}

/// Maps a polynomial of R_q to its reduction in S_3: each coefficient is
/// reduced mod q, translated to the congruence class of its centered
/// representative, and the whole is reduced mod (3, Phi_N).
pub fn poly_rq_to_s3(r: &mut Poly, a: &Poly)
    ensures
        forall|i: int| 0 <= i < 509 ==> final(r).coeffs@[i]
            == (center_pre(a.coeffs@[i]) + 2 * center_pre(a.coeffs@[508])) % 3,
        forall|i: int| 0 <= i < 509 ==> final(r).coeffs@[i] < 3,
{
    let mut i: usize = 0;
    while i < 509
        invariant
            i <= 509,
            forall|i2: int| 0 <= i2 < i ==> r.coeffs@[i2] == center_pre(a.coeffs@[i2]),
        decreases 509 - i,
    {
        let c: u16 = crate::poly::modq(a.coeffs[i]);
        let flag: u16 = c >> 10;
        proof {
            lemma_flag_shift(c, flag);
        }
        // The translation adds (-q) mod 3 = 1 << (1 - (log2(q) & 1)); with
        // log2(q) = 11 the shift is zero, so the flag is added as it is.
        r.coeffs[i] = c + flag;
        i += 1;
    }
    proof {
        assert(forall|i2: int| 0 <= i2 < 509 ==> r.coeffs@[i2] <= 2048);
        assert(forall|i2: int| 0 <= i2 < 509 ==>
            #[trigger] r.coeffs@[i2] + 2 * r.coeffs@[508] < 0x10000);
    }
    poly_mod_3_phi_n(r);
}

/// How many values below n reduce to v mod 3.
pub open spec fn count_mod3(n: int, v: int) -> int
    decreases n,
{
    if n <= 0 {
        0
    } else {
        count_mod3(n - 1, v) + if (n - 1) % 3 == v {
            1int
        } else {
            0int
        }
    }
}

proof fn lemma_count_mod3_closed(n: int, v: int)
    requires
        n >= 0,
        0 <= v < 3,
    ensures
        count_mod3(n, v) == n / 3 + if v < n % 3 {
            1int
        } else {
            0int
        },
    decreases n,
{
    if n > 0 {
        lemma_count_mod3_closed(n - 1, v);
        vstd::arithmetic::div_mod::lemma_fundamental_div_mod(n, 3);
        let q = n / 3;
        let r = n % 3;
        vstd::arithmetic::div_mod::lemma_mod_bound(n, 3);
        if r == 0 {
            vstd::arithmetic::div_mod::lemma_fundamental_div_mod_converse(n - 1, 3, q - 1, 2);
        } else {
            vstd::arithmetic::div_mod::lemma_fundamental_div_mod_converse(n - 1, 3, q, r - 1);
        }
    }
}

/// Over the 256 byte values, reduction mod 3 yields 0 on 86 of them and 1
/// and 2 on 85 each: the slight bias of the IID sampler.
pub proof fn lemma_mod3_frequencies()
    ensures
        count_mod3(256, 0) == 86,
        count_mod3(256, 1) == 85,
        count_mod3(256, 2) == 85,
{
    lemma_count_mod3_closed(256, 0);
    lemma_count_mod3_closed(256, 1);
    lemma_count_mod3_closed(256, 2);
}

} // verus!

