//! Small arithmetic lemmas shared by the proofs: wrapping operations of the
//! 16-bit integers restated as Euclidean remainders mod 2^16.

use vstd::prelude::*;
use vstd::arithmetic::div_mod::lemma_small_mod;
use vstd::arithmetic::div_mod::lemma_mod_multiples_vanish;

verus! {

/// Wrapping addition of two u16 is addition followed by reduction mod 2^16.
pub broadcast proof fn lemma_wadd16(x: u16, y: u16)
    ensures
        #[trigger] vstd::wrapping::u16_specs::wrapping_add(x, y) == (x + y) % 0x10000,
{
    if x + y <= 0xffff {
        lemma_small_mod((x + y) as nat, 0x10000nat);
    } else {
        lemma_mod_multiples_vanish(1, x + y - 0x10000, 0x10000);
        lemma_small_mod((x + y - 0x10000) as nat, 0x10000nat);
    }
}

/// Wrapping subtraction of two u16 is subtraction followed by Euclidean
/// reduction mod 2^16.
pub broadcast proof fn lemma_wsub16(x: u16, y: u16)
    ensures
        #[trigger] vstd::wrapping::u16_specs::wrapping_sub(x, y) == (x - y) % 0x10000,
{
    if x - y >= 0 {
        lemma_small_mod((x - y) as nat, 0x10000nat);
    } else {
        lemma_mod_multiples_vanish(1, x - y, 0x10000);
        lemma_small_mod((x - y + 0x10000) as nat, 0x10000nat);
    }
}

/// Wrapping multiplication of two u16 is multiplication followed by reduction
/// mod 2^16.
pub broadcast proof fn lemma_wmul16(x: u16, y: u16)
    ensures
        #[trigger] vstd::wrapping::u16_specs::wrapping_mul(x, y) == (x * y) % 0x10000,
{
    assert(x as nat * y as nat == (x * y) as nat);
}

/// Masking a u16 with 255 is reduction mod 256.
pub broadcast proof fn lemma_and255(x: u16)
    by (bit_vector)
    ensures
        #[trigger] (x & 255) == x % 256,
{
}

/// The low two bits of an i32 lie in [0, 3]; OR-ing 1 or 2 into a value
/// whose low two bits are clear sets exactly that tag.
pub broadcast proof fn lemma_i32_low2(x: i32)
    by (bit_vector)
    ensures
        0 <= #[trigger] (x & 3) <= 3,
        x & 3 == 0 ==> (x | 1) & 3 == 1,
        x & 3 == 0 ==> (x | 2) & 3 == 2,
{
}

/// XOR-select on u16: with an all-ones mask the result is y, with a zero
/// mask it is x.
pub proof fn lemma_select16(sw: u16, x: u16, y: u16, r: u16)
    by (bit_vector)
    requires
        sw == 0 || sw == 0xffff,
        r == x ^ (sw & (x ^ y)),
    ensures
        sw == 0 ==> r == x,
        sw == 0xffff ==> r == y,
{
}

/// XOR-select on i16, as produced by an arithmetic shift mask.
pub proof fn lemma_select16i(sw: i16, x: i16, y: i16, r: i16)
    by (bit_vector)
    requires
        sw == 0 || sw == -1i16,
        r == x ^ (sw & (x ^ y)),
    ensures
        sw == 0 ==> r == x,
        sw == -1i16 ==> r == y,
{
}

/// An arithmetic right shift of an i16 by 15 yields its sign mask.
pub broadcast proof fn lemma_i16_sign_mask(z: i16)
    by (bit_vector)
    ensures
        #[trigger] (z >> 15) == (if z < 0 { -1i16 } else { 0i16 }),
{
}

/// Bitwise facts of single-bit values.
pub broadcast proof fn lemma_u16_bit_bounds(x: u16, y: u16)
    by (bit_vector)
    ensures
        #[trigger] (x & y) <= x,
        (x & y) <= y,
        x <= 3 && y == 3 ==> (x & y) == x,
        x <= 1 && y <= 1 ==> #[trigger] (x ^ y) <= 1,
{
}

/// The divstep swap mask: the sign of the AND of two negations is all ones
/// exactly when delta is positive and the leading coefficient nonzero.
pub proof fn lemma_swap_mask(delta: i16, g0: u16, nd: i16, ng: i16, sw: i16)
    by (bit_vector)
    requires
        -1016 <= delta <= 1016,
        g0 <= 2,
        nd == (0 - delta) as i16,
        ng == (0 - g0) as i16,
        sw == (nd & ng) >> 15,
    ensures
        sw == 0 || sw == -1i16,
        (sw == -1i16) <==> (delta > 0 && g0 > 0),
{
}

} // verus!
