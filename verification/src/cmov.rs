//! Constant-time conditional overwrite of the shared-secret buffer, used by
//! the CCA wrapper to substitute the implicit-rejection key without a branch.

use vstd::prelude::*;

verus! {

proof fn lemma_cmov_elem(b: u8, bt: u8, r0: u8, x0: u8, res: u8)
    by (bit_vector)
    requires
        b == 0 || b == 1,
        bt == vstd::wrapping::u8_specs::wrapping_add(!b, 1),
        res == r0 ^ (bt & (x0 ^ r0)),
    ensures
        res == if b == 1 {
            x0
        } else {
            r0
        },
{
}

/// Overwrites the first `len` bytes of r with those of x exactly when b is 1,
/// and leaves r unchanged when b is 0; every byte is processed the same way
/// whatever b is.
pub fn cmov(r: &mut [u8; 32], x: &[u8; 204], len: isize, b: u8)
    requires
        b == 0 || b == 1,
        0 <= len <= 32,
    ensures
        forall|i: int| 0 <= i < len ==> final(r)@[i] == (if b == 1 {
            x@[i]
        } else {
            old(r)@[i]
        }),
        forall|i: int| len <= i < 32 ==> final(r)@[i] == old(r)@[i],
{
    let b_temp: u8 = (!b).wrapping_add(1);

    let n: usize = len as usize;
    let mut i: usize = 0;
    while i < n
        invariant
            i <= n <= 32,
            b == 0 || b == 1,
            b_temp == vstd::wrapping::u8_specs::wrapping_add(!b, 1),
            forall|i2: int| 0 <= i2 < i ==> r@[i2] == (if b == 1 {
                x@[i2]
            } else {
                old(r)@[i2]
            }),
            forall|i2: int| i <= i2 < 32 ==> r@[i2] == old(r)@[i2],
        decreases n - i,
    {
        let res: u8 = r[i] ^ (b_temp & (x[i] ^ r[i]));
        proof {
            lemma_cmov_elem(b, b_temp, r@[i as int], x@[i as int], res);
        }
        r[i] = res;
        i += 1;
    }
}

} // verus!
