//! IID trinary sampling: one uniform byte per coefficient, reduced mod 3.
//! The distribution over {0, 1, 2} is 86/256, 85/256, 85/256; the slight
//! bias toward 0 is acceptable to the scheme.

use vstd::prelude::*;
use crate::poly::Poly;
use crate::poly_mod::mod3;

verus! {

/// Fills the low N-1 coefficients with byte mod 3 and zeroes the top one.
pub fn sample_iid(r: &mut Poly, uniformbytes: [u8; 508])
    ensures
        forall|i: int| 0 <= i < 508 ==> final(r).coeffs@[i] == uniformbytes@[i] % 3,
        final(r).coeffs@[508] == 0,
        forall|i: int| 0 <= i < 509 ==> final(r).coeffs@[i] < 3,
{
    let mut i: usize = 0;
    while i < 508
        invariant
            i <= 508,
            forall|i2: int| 0 <= i2 < i ==>
                r.coeffs@[i2] == uniformbytes@[i2] % 3 && r.coeffs@[i2] < 3,
        decreases 508 - i,
    {
        r.coeffs[i] = mod3(uniformbytes[i] as u16);
        i += 1;
    }
    r.coeffs[508] = 0;
}

} // verus!
