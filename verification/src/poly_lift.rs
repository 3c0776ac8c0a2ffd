//! The Lift operator mapping a message polynomial of S_3 into R_q. For the
//! HPS parameter sets it is the identity on S_3 viewed in R_q: the trinary
//! coefficients {0, 1, 2} become their mod-q representatives {0, 1, q-1}.

use vstd::prelude::*;
use crate::poly::Poly;
use crate::poly::poly_z3_to_zq;
use crate::poly::z3_to_zq_map;

verus! {

/// Lifts a trinary polynomial into R_q coefficient by coefficient.
pub fn poly_lift(r: &mut Poly, a: &Poly)
    requires
        forall|i: int| 0 <= i < 509 ==> #[trigger] a.coeffs@[i] <= 2,
    ensures
        forall|i: int| 0 <= i < 509 ==>
            final(r).coeffs@[i] == z3_to_zq_map(a.coeffs@[i]),
{
    let mut i: usize = 0;
    while i < 509
        invariant
            i <= 509,
            forall|i2: int| 0 <= i2 < 509 ==> #[trigger] a.coeffs@[i2] <= 2,
            forall|i2: int| 0 <= i2 < i ==> #[trigger] r.coeffs@[i2] == a.coeffs@[i2],
        decreases 509 - i,
    {
        r.coeffs[i] = a.coeffs[i];
        i += 1;
    }
    poly_z3_to_zq(r);
}

} // verus!
