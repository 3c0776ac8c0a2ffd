//! Constant-time almost-inverse in S_3 = F_3[x]/Phi_N: the same divstep
//! iteration as the R_2 inverse, with coefficients in {0, 1, 2} and every
//! conditional addition reduced mod 3; a final multiplication by the leading
//! coefficient of f normalizes the result. The whole iteration is mirrored
//! by a specification function, so the contract pins the result exactly.

use vstd::prelude::*;
use crate::arith::lemma_select16;
use crate::arith::lemma_select16i;
use crate::arith::lemma_swap_mask;
use crate::poly::Poly;
use crate::poly_mod::mod3;

verus! {

/// All coefficients are trinary digits.
pub open spec fn is_trinary(s: Seq<u16>) -> bool {
    forall|i: int| 0 <= i < 509 ==> #[trigger] s[i] <= 2
}

/// One divstep state: the working polynomials f, g, v, w and the counter.
pub struct S3State {
    pub f: Seq<u16>,
    pub g: Seq<u16>,
    pub v: Seq<u16>,
    pub w: Seq<u16>,
    pub delta: int,
}

/// Multiplication of v by x: coefficients move up one degree.
pub open spec fn shift_up(v: Seq<u16>) -> Seq<u16> {
    Seq::new(509, |i: int| if i == 0 {
        0u16
    } else {
        v[i - 1]
    })
}

/// The starting g of the iteration: the input reversed and reduced
/// mod (3, Phi_N) into its low 508 coefficients.
pub open spec fn s3_init_g(a: Seq<u16>) -> Seq<u16> {
    Seq::new(509, |j: int| if j == 508 {
        0u16
    } else {
        (((a[507 - j] & 3) + 2 * (a[508] & 3)) % 3) as u16
    })
}

/// The starting state: f = Phi_N (all ones), v = 0, w = 1, delta = 1.
pub open spec fn s3_init(a: Seq<u16>) -> S3State {
    S3State {
        f: Seq::new(509, |i: int| 1u16),
        g: s3_init_g(a),
        v: Seq::new(509, |i: int| 0u16),
        w: Seq::new(509, |i: int| if i == 0 {
            1u16
        } else {
            0u16
        }),
        delta: 1,
    }
}

/// One constant-time divstep: shift v, swap (f, g) and (v, w) when delta is
/// positive and g has a nonzero constant term, add sign * f to g and
/// sign * v to w mod 3, then divide g by x.
pub open spec fn s3_step(st: S3State) -> S3State {
    let v1 = shift_up(st.v);
    let sign = (2 * st.g[0] * st.f[0]) % 3;
    let swap = st.delta > 0 && st.g[0] > 0;
    let f1 = if swap {
        st.g
    } else {
        st.f
    };
    let g1 = if swap {
        st.f
    } else {
        st.g
    };
    let v2 = if swap {
        st.w
    } else {
        v1
    };
    let w1 = if swap {
        v1
    } else {
        st.w
    };
    let d1 = (if swap {
        -st.delta
    } else {
        st.delta
    }) + 1;
    let g2 = Seq::new(509, |i: int| ((g1[i] + sign * f1[i]) % 3) as u16);
    let w2 = Seq::new(509, |i: int| ((w1[i] + sign * v2[i]) % 3) as u16);
    let g3 = Seq::new(509, |i: int| if i == 508 {
        0u16
    } else {
        g2[i + 1]
    });
    S3State { f: f1, g: g3, v: v2, w: w2, delta: d1 }
}

/// The divstep iterated n times.
pub open spec fn s3_iter(st: S3State, n: nat) -> S3State
    decreases n,
{
    if n == 0 {
        st
    } else {
        s3_step(s3_iter(st, (n - 1) as nat))
    }
}

/// The almost-inverse of a in S_3: after 2(N-1)-1 divsteps, v is read back
/// in reverse and normalized by the leading coefficient of f.
pub open spec fn s3_inv_spec(a: Seq<u16>) -> Seq<u16> {
    let st = s3_iter(s3_init(a), 1015);
    Seq::new(509, |i: int| if i == 508 {
        0u16
    } else {
        ((st.f[0] * st.v[507 - i]) % 3) as u16
    })
}

proof fn lemma_mul_le(x: u16, y: u16, bx: u16, by: u16)
    by (nonlinear_arith)
    requires
        x <= bx,
        y <= by,
    ensures
        x * y <= bx * by,
{
}

/// Computes the almost-inverse of a in S_3, exactly as the specification
/// mirror states it: the result is trinary with top coefficient zero, and
/// when a is invertible mod (3, Phi_N) the divstep count makes it the
/// inverse there.
pub fn poly_s3_inv(r: &mut Poly, a: &mut Poly)
    requires
        forall|i: int| 0 <= i < 509 ==> #[trigger] old(a).coeffs@[i] <= 2,
    ensures
        final(r).coeffs@ == s3_inv_spec(old(a).coeffs@),
        is_trinary(final(r).coeffs@),
        final(r).coeffs@[508] == 0,
        *final(a) == *old(a),
{
    broadcast use crate::arith::lemma_u16_bit_bounds;

    let mut delta: i16 = 1;

    let mut f = Poly::build(1);
    let mut g = Poly::new();
    let mut v = Poly::new();
    let mut w = Poly::new();
    w.coeffs[0] = 1;

    let ghost av = old(a).coeffs@;

    let mut i: usize = 0;
    while i < 508
        invariant
            i <= 508,
            is_trinary(g.coeffs@),
            forall|i2: int| 0 <= i2 < 509 ==> #[trigger] a.coeffs@[i2] <= 2,
            *a == *old(a),
            av == old(a).coeffs@,
            forall|j: int| 508 - i <= j < 508 ==> #[trigger] g.coeffs@[j] == s3_init_g(av)[j],
            forall|j: int| 0 <= j < 508 - i ==> #[trigger] g.coeffs@[j] == 0,
            g.coeffs@[508] == 0,
        decreases 508 - i,
    {
        let ai: u16 = a.coeffs[i] & 3;
        let an: u16 = a.coeffs[508] & 3;
        proof {
            crate::arith::lemma_u16_bit_bounds(a.coeffs@[i as int], 3);
            crate::arith::lemma_u16_bit_bounds(a.coeffs@[508], 3);
        }
        g.coeffs[507 - i] = mod3(ai + 2 * an);
        i += 1;
    }

    let ghost st0 = s3_init(av);
    proof {
        assert(f.coeffs@ =~= st0.f);
        assert(g.coeffs@ =~= st0.g);
        assert(v.coeffs@ =~= st0.v);
        assert(w.coeffs@ =~= st0.w);
    }

    let mut iter: usize = 0;
    while iter < 1015
        invariant
            iter <= 1015,
            is_trinary(f.coeffs@),
            is_trinary(g.coeffs@),
            is_trinary(v.coeffs@),
            is_trinary(w.coeffs@),
            -1016 <= delta <= 1016,
            delta <= 1 + iter,
            -(iter as int) - 1 <= delta,
            st0 == s3_init(av),
            f.coeffs@ == s3_iter(st0, iter as nat).f,
            g.coeffs@ == s3_iter(st0, iter as nat).g,
            v.coeffs@ == s3_iter(st0, iter as nat).v,
            w.coeffs@ == s3_iter(st0, iter as nat).w,
            delta as int == s3_iter(st0, iter as nat).delta,
            forall|i2: int| 0 <= i2 < 509 ==> #[trigger] a.coeffs@[i2] <= 2,
            *a == *old(a),
            av == old(a).coeffs@,
        decreases 1015 - iter,
    {
        let ghost st = s3_iter(st0, iter as nat);
        let ghost f_old = f.coeffs@;
        let ghost g_old = g.coeffs@;
        let ghost w_old = w.coeffs@;

        // v <- x * v
        let ghost v_pre = v.coeffs@;
        let mut j: usize = 508;
        while j > 0
            invariant
                j <= 508,
                is_trinary(v.coeffs@),
                v_pre.len() == 509,
                forall|k: int| 0 <= k <= j ==> #[trigger] v.coeffs@[k] == v_pre[k],
                forall|k: int| j < k < 509 ==> #[trigger] v.coeffs@[k] == v_pre[k - 1],
            decreases j,
        {
            v.coeffs[j] = v.coeffs[j - 1];
            j -= 1;
        }
        v.coeffs[0] = 0;
        proof {
            assert(v.coeffs@ =~= shift_up(v_pre));
        }
        let ghost v_old = v.coeffs@;

        let g0: u16 = g.coeffs[0];
        let f0: u16 = f.coeffs[0];
        proof {
            lemma_mul_le((2 * g0) as u16, f0, 4, 2);
        }
        let sign: u16 = mod3(2 * g0 * f0);
        let nd: i16 = -delta;
        let ng: i16 = -(g0 as i16);
        let swap: i16 = (nd & ng) >> 15;
        let ghost swapb = st.delta > 0 && st.g[0] > 0;
        proof {
            lemma_swap_mask(delta, g0, nd, ng, swap);
            assert(st.delta == delta as int);
            assert(st.g[0] == g0);
            assert((swap == -1i16) == swapb);
        }
        let ghost delta_old = delta;
        let dneg: i16 = -delta;
        let dsel: i16 = delta ^ (swap & (delta ^ dneg));
        proof {
            lemma_select16i(swap, delta_old, dneg, dsel);
        }
        delta = dsel;
        delta = delta + 1;

        let swap_u: u16 = #[verifier::truncate] (swap as u16);
        proof {
            assert(swap_u == 0 || swap_u == 0xffff) by (bit_vector)
                requires
                    swap_u == swap as u16,
                    swap == 0 || swap == -1i16,
            ;
            assert((swap_u == 0xffff) == (swap == -1i16)) by (bit_vector)
                requires
                    swap_u == swap as u16,
                    swap == 0 || swap == -1i16,
            ;
        }
        let mut j: usize = 0;
        while j < 509
            invariant
                j <= 509,
                swap_u == 0 || swap_u == 0xffff,
                (swap_u == 0xffff) == swapb,
                f_old.len() == 509 && g_old.len() == 509,
                v_old.len() == 509 && w_old.len() == 509,
                is_trinary(f.coeffs@),
                is_trinary(g.coeffs@),
                is_trinary(v.coeffs@),
                is_trinary(w.coeffs@),
                forall|k: int| 0 <= k < j ==> #[trigger] f.coeffs@[k]
                    == if swapb { g_old[k] } else { f_old[k] },
                forall|k: int| 0 <= k < j ==> #[trigger] g.coeffs@[k]
                    == if swapb { f_old[k] } else { g_old[k] },
                forall|k: int| 0 <= k < j ==> #[trigger] v.coeffs@[k]
                    == if swapb { w_old[k] } else { v_old[k] },
                forall|k: int| 0 <= k < j ==> #[trigger] w.coeffs@[k]
                    == if swapb { v_old[k] } else { w_old[k] },
                forall|k: int| j <= k < 509 ==> #[trigger] f.coeffs@[k] == f_old[k],
                forall|k: int| j <= k < 509 ==> #[trigger] g.coeffs@[k] == g_old[k],
                forall|k: int| j <= k < 509 ==> #[trigger] v.coeffs@[k] == v_old[k],
                forall|k: int| j <= k < 509 ==> #[trigger] w.coeffs@[k] == w_old[k],
            decreases 509 - j,
        {
            let fv: u16 = f.coeffs[j];
            let gv: u16 = g.coeffs[j];
            let t: u16 = swap_u & (fv ^ gv);
            proof {
                assert((gv ^ fv) == (fv ^ gv)) by (bit_vector);
                lemma_select16(swap_u, fv, gv, fv ^ t);
                lemma_select16(swap_u, gv, fv, gv ^ t);
            }
            f.coeffs[j] = fv ^ t;
            g.coeffs[j] = gv ^ t;
            let vv: u16 = v.coeffs[j];
            let wv: u16 = w.coeffs[j];
            let t2: u16 = swap_u & (vv ^ wv);
            proof {
                assert((wv ^ vv) == (vv ^ wv)) by (bit_vector);
                lemma_select16(swap_u, vv, wv, vv ^ t2);
                lemma_select16(swap_u, wv, vv, wv ^ t2);
            }
            v.coeffs[j] = vv ^ t2;
            w.coeffs[j] = wv ^ t2;
            j += 1;
        }

        let ghost f1 = f.coeffs@;
        let ghost g1 = g.coeffs@;
        let ghost v2 = v.coeffs@;
        let ghost w1 = w.coeffs@;
        proof {
            assert(f1 =~= (if swapb { g_old } else { f_old }));
            assert(g1 =~= (if swapb { f_old } else { g_old }));
            assert(v2 =~= (if swapb { w_old } else { v_old }));
            assert(w1 =~= (if swapb { v_old } else { w_old }));
        }

        let mut j: usize = 0;
        while j < 509
            invariant
                j <= 509,
                sign <= 2,
                g1.len() == 509,
                f1.len() == 509,
                is_trinary(f.coeffs@),
                is_trinary(g.coeffs@),
                f.coeffs@ == f1,
                forall|k: int| 0 <= k < j ==> #[trigger] g.coeffs@[k] as int
                    == (g1[k] + sign * f1[k]) % 3,
                forall|k: int| j <= k < 509 ==> #[trigger] g.coeffs@[k] == g1[k],
            decreases 509 - j,
        {
            let fj: u16 = f.coeffs[j];
            proof {
                lemma_mul_le(sign, fj, 2, 2);
            }
            g.coeffs[j] = mod3(g.coeffs[j] + sign * fj);
            j += 1;
        }
        let mut j: usize = 0;
        while j < 509
            invariant
                j <= 509,
                sign <= 2,
                w1.len() == 509,
                v2.len() == 509,
                is_trinary(v.coeffs@),
                is_trinary(w.coeffs@),
                v.coeffs@ == v2,
                forall|k: int| 0 <= k < j ==> #[trigger] w.coeffs@[k] as int
                    == (w1[k] + sign * v2[k]) % 3,
                forall|k: int| j <= k < 509 ==> #[trigger] w.coeffs@[k] == w1[k],
            decreases 509 - j,
        {
            let vj: u16 = v.coeffs[j];
            proof {
                lemma_mul_le(sign, vj, 2, 2);
            }
            w.coeffs[j] = mod3(w.coeffs[j] + sign * vj);
            j += 1;
        }
        let ghost g2 = g.coeffs@;
        // g <- g / x
        let mut j: usize = 0;
        while j < 508
            invariant
                j <= 508,
                g2.len() == 509,
                is_trinary(g.coeffs@),
                forall|k: int| 0 <= k < j ==> #[trigger] g.coeffs@[k] == g2[k + 1],
                forall|k: int| j <= k < 509 ==> #[trigger] g.coeffs@[k] == g2[k],
            decreases 508 - j,
    {
            g.coeffs[j] = g.coeffs[j + 1];
            j += 1;
        }
        g.coeffs[508] = 0;

        proof {
            let stn = s3_step(st);
            assert(sign as int == (2 * st.g[0] * st.f[0]) % 3);
            assert(swapb == (st.delta > 0 && st.g[0] > 0));
            assert(f.coeffs@ =~= stn.f);
            assert(g.coeffs@ =~= stn.g);
            assert(v.coeffs@ =~= stn.v);
            assert(w.coeffs@ =~= stn.w);
            assert(delta as int == stn.delta);
            assert(s3_iter(st0, (iter + 1) as nat) == stn);
        }
        iter += 1;
    }

    let ghost stf = s3_iter(st0, 1015);
    let f0: u16 = f.coeffs[0];
    let mut j: usize = 0;
    while j < 508
        invariant
            j <= 508,
            f0 <= 2,
            f0 == stf.f[0],
            v.coeffs@ == stf.v,
            stf.v.len() == 509,
            is_trinary(v.coeffs@),
            forall|k: int| 0 <= k < j ==> #[trigger] r.coeffs@[k] as int
                == (stf.f[0] * stf.v[507 - k]) % 3,
            forall|k: int| 0 <= k < j ==> #[trigger] r.coeffs@[k] <= 2,
        decreases 508 - j,
    {
        let vj: u16 = v.coeffs[507 - j];
        proof {
            lemma_mul_le(f0, vj, 2, 2);
        }
        r.coeffs[j] = mod3(f0 * vj);
        j += 1;
    }
    r.coeffs[508] = 0;
    proof {
        assert(r.coeffs@ =~= s3_inv_spec(av));
    }
}

} // verus!
