//! Constant-time almost-inverse over F_2, in the Bernstein-Yang style:
//! 2(N-1)-1 divstep iterations, each deciding a swap and a conditional
//! addition purely through arithmetic masks, so that the control flow never
//! depends on the secret polynomial. The whole iteration is mirrored by a
//! specification function, so the contract pins the result exactly.

use vstd::prelude::*;
use crate::arith::lemma_select16;
use crate::arith::lemma_select16i;
use crate::arith::lemma_swap_mask;
use crate::poly::Poly;
use crate::poly_s3_inv::shift_up;

verus! {

/// All coefficients are bits.
pub open spec fn is_bits(s: Seq<u16>) -> bool {
    forall|i: int| 0 <= i < 509 ==> #[trigger] s[i] <= 1
}

/// One divstep state over F_2: the working polynomials and the counter.
pub struct R2State {
    pub f: Seq<u16>,
    pub g: Seq<u16>,
    pub v: Seq<u16>,
    pub w: Seq<u16>,
    pub delta: int,
}

/// The starting g of the iteration: the input reversed and reduced mod 2
/// into its low 508 coefficients.
pub open spec fn r2_init_g(a: Seq<u16>) -> Seq<u16> {
    Seq::new(509, |j: int| if j == 508 {
        0u16
    } else {
        (a[507 - j] ^ a[508]) & 1
    })
}

/// The starting state: f = Phi_N (all ones), v = 0, w = 1, delta = 1.
pub open spec fn r2_init(a: Seq<u16>) -> R2State {
    R2State {
        f: Seq::new(509, |i: int| 1u16),
        g: r2_init_g(a),
        v: Seq::new(509, |i: int| 0u16),
        w: Seq::new(509, |i: int| if i == 0 {
            1u16
        } else {
            0u16
        }),
        delta: 1,
    }
}

/// One constant-time divstep over F_2: shift v, swap (f, g) and (v, w) when
/// delta is positive and g has constant term 1, XOR f into g and v into w
/// when both constant terms are 1, then divide g by x.
pub open spec fn r2_step(st: R2State) -> R2State {
    let v1 = shift_up(st.v);
    let sign = if st.g[0] == 1 && st.f[0] == 1 {
        1u16
    } else {
        0u16
    };
    let swap = st.delta > 0 && st.g[0] > 0;
    let f1 = if swap {
        st.g
    } else {
        st.f
    };
    let g1 = if swap {
        st.f
    } else {
        st.g
    };
    let v2 = if swap {
        st.w
    } else {
        v1
    };
    let w1 = if swap {
        v1
    } else {
        st.w
    };
    let d1 = (if swap {
        -st.delta
    } else {
        st.delta
    }) + 1;
    let g2 = Seq::new(509, |i: int| g1[i] ^ (sign & f1[i]));
    let w2 = Seq::new(509, |i: int| w1[i] ^ (sign & v2[i]));
    let g3 = Seq::new(509, |i: int| if i == 508 {
        0u16
    } else {
        g2[i + 1]
    });
    R2State { f: f1, g: g3, v: v2, w: w2, delta: d1 }
}

/// The divstep iterated n times.
pub open spec fn r2_iter(st: R2State, n: nat) -> R2State
    decreases n,
{
    if n == 0 {
        st
    } else {
        r2_step(r2_iter(st, (n - 1) as nat))
    }
}

/// The almost-inverse of a over F_2: after 2(N-1)-1 divsteps, v is read
/// back in reverse.
pub open spec fn r2_inv_spec(a: Seq<u16>) -> Seq<u16> {
    let st = r2_iter(r2_init(a), 1015);
    Seq::new(509, |i: int| if i == 508 {
        0u16
    } else {
        st.v[507 - i]
    })
}

/// Computes the almost-inverse of a over F_2, exactly as the specification
/// mirror states it: the result has bit coefficients and top coefficient
/// zero, and when gcd(a(x), x^N - 1) = 1 the divstep count makes it invert
/// a mod (2, Phi_N).
pub fn poly_r2_inv(r: &mut Poly, a: &Poly)
    ensures
        final(r).coeffs@ == r2_inv_spec(a.coeffs@),
        is_bits(final(r).coeffs@),
        final(r).coeffs@[508] == 0,
{
    let mut v = Poly::new();
    let mut w = Poly::new();
    let mut f = Poly::build(1);
    let mut g = Poly::new();

    let mut delta: i16 = 1;

    w.coeffs[0] = 1;

    let ghost av = a.coeffs@;

    let mut i: usize = 0;
    while i < 508
        invariant
            i <= 508,
            is_bits(g.coeffs@),
            av == a.coeffs@,
            forall|j: int| 508 - i <= j < 508 ==> #[trigger] g.coeffs@[j] == r2_init_g(av)[j],
            forall|j: int| 0 <= j < 508 - i ==> #[trigger] g.coeffs@[j] == 0,
            g.coeffs@[508] == 0,
        decreases 508 - i,
    {
        let x: u16 = a.coeffs[i] ^ a.coeffs[508];
        let bit: u16 = x & 1;
        proof {
            crate::arith::lemma_u16_bit_bounds(x, 1);
        }
        g.coeffs[507 - i] = bit;
        i += 1;
    }

    let ghost st0 = r2_init(av);
    proof {
        assert(f.coeffs@ =~= st0.f);
        assert(g.coeffs@ =~= st0.g);
        assert(v.coeffs@ =~= st0.v);
        assert(w.coeffs@ =~= st0.w);
    }

    let mut iter: usize = 0;
    while iter < 1015
        invariant
            iter <= 1015,
            is_bits(f.coeffs@),
            is_bits(g.coeffs@),
            is_bits(v.coeffs@),
            is_bits(w.coeffs@),
            -1016 <= delta <= 1016,
            delta <= 1 + iter,
            -(iter as int) - 1 <= delta,
            st0 == r2_init(av),
            f.coeffs@ == r2_iter(st0, iter as nat).f,
            g.coeffs@ == r2_iter(st0, iter as nat).g,
            v.coeffs@ == r2_iter(st0, iter as nat).v,
            w.coeffs@ == r2_iter(st0, iter as nat).w,
            delta as int == r2_iter(st0, iter as nat).delta,
        decreases 1015 - iter,
    {
        let ghost st = r2_iter(st0, iter as nat);
        let ghost f_old = f.coeffs@;
        let ghost g_old = g.coeffs@;
        let ghost w_old = w.coeffs@;

        // v <- x * v
        let ghost v_pre = v.coeffs@;
        let mut j: usize = 508;
        while j > 0
            invariant
                j <= 508,
                is_bits(v.coeffs@),
                v_pre.len() == 509,
                forall|k: int| 0 <= k <= j ==> #[trigger] v.coeffs@[k] == v_pre[k],
                forall|k: int| j < k < 509 ==> #[trigger] v.coeffs@[k] == v_pre[k - 1],
            decreases j,
        {
            v.coeffs[j] = v.coeffs[j - 1];
            j -= 1;
        }
        v.coeffs[0] = 0;
        proof {
            assert(v.coeffs@ =~= shift_up(v_pre));
        }
        let ghost v_old = v.coeffs@;

        let g0: u16 = g.coeffs[0];
        let f0: u16 = f.coeffs[0];
        let sign: i16 = g0 as i16 & f0 as i16;
        let nd: i16 = -delta;
        let ng: i16 = -(g0 as i16);
        let swap: i16 = (nd & ng) >> 15;
        let ghost swapb = st.delta > 0 && st.g[0] > 0;
        proof {
            lemma_swap_mask(delta, g0, nd, ng, swap);
            assert(st.delta == delta as int);
            assert(st.g[0] == g0);
            assert((swap == -1i16) == swapb);
        }
        let ghost delta_old = delta;
        let dneg: i16 = -delta;
        let dsel: i16 = delta ^ (swap & (delta ^ dneg));
        proof {
            lemma_select16i(swap, delta_old, dneg, dsel);
        }
        delta = dsel;
        delta = delta + 1;

        let swap_u: u16 = #[verifier::truncate] (swap as u16);
        proof {
            assert(swap_u == 0 || swap_u == 0xffff) by (bit_vector)
                requires
                    swap_u == swap as u16,
                    swap == 0 || swap == -1i16,
            ;
            assert((swap_u == 0xffff) == (swap == -1i16)) by (bit_vector)
                requires
                    swap_u == swap as u16,
                    swap == 0 || swap == -1i16,
            ;
        }
        let mut j: usize = 0;
        while j < 509
            invariant
                j <= 509,
                swap_u == 0 || swap_u == 0xffff,
                (swap_u == 0xffff) == swapb,
                f_old.len() == 509 && g_old.len() == 509,
                v_old.len() == 509 && w_old.len() == 509,
                is_bits(f.coeffs@),
                is_bits(g.coeffs@),
                is_bits(v.coeffs@),
                is_bits(w.coeffs@),
                forall|k: int| 0 <= k < j ==> #[trigger] f.coeffs@[k]
                    == if swapb { g_old[k] } else { f_old[k] },
                forall|k: int| 0 <= k < j ==> #[trigger] g.coeffs@[k]
                    == if swapb { f_old[k] } else { g_old[k] },
                forall|k: int| 0 <= k < j ==> #[trigger] v.coeffs@[k]
                    == if swapb { w_old[k] } else { v_old[k] },
                forall|k: int| 0 <= k < j ==> #[trigger] w.coeffs@[k]
                    == if swapb { v_old[k] } else { w_old[k] },
                forall|k: int| j <= k < 509 ==> #[trigger] f.coeffs@[k] == f_old[k],
                forall|k: int| j <= k < 509 ==> #[trigger] g.coeffs@[k] == g_old[k],
                forall|k: int| j <= k < 509 ==> #[trigger] v.coeffs@[k] == v_old[k],
                forall|k: int| j <= k < 509 ==> #[trigger] w.coeffs@[k] == w_old[k],
            decreases 509 - j,
        {
            let fv: u16 = f.coeffs[j];
            let gv: u16 = g.coeffs[j];
            let t: u16 = swap_u & (fv ^ gv);
            proof {
                assert((gv ^ fv) == (fv ^ gv)) by (bit_vector);
                lemma_select16(swap_u, fv, gv, fv ^ t);
                lemma_select16(swap_u, gv, fv, gv ^ t);
            }
            f.coeffs[j] = fv ^ t;
            g.coeffs[j] = gv ^ t;
            let vv: u16 = v.coeffs[j];
            let wv: u16 = w.coeffs[j];
            let t2: u16 = swap_u & (vv ^ wv);
            proof {
                assert((wv ^ vv) == (vv ^ wv)) by (bit_vector);
                lemma_select16(swap_u, vv, wv, vv ^ t2);
                lemma_select16(swap_u, wv, vv, wv ^ t2);
            }
            v.coeffs[j] = vv ^ t2;
            w.coeffs[j] = wv ^ t2;
            j += 1;
        }

        let ghost f1 = f.coeffs@;
        let ghost g1 = g.coeffs@;
        let ghost v2 = v.coeffs@;
        let ghost w1 = w.coeffs@;
        proof {
            assert(f1 =~= (if swapb { g_old } else { f_old }));
            assert(g1 =~= (if swapb { f_old } else { g_old }));
            assert(v2 =~= (if swapb { w_old } else { v_old }));
            assert(w1 =~= (if swapb { v_old } else { w_old }));
        }

        let sign_u: u16 = sign as u16;
        let ghost sign_spec = if st.g[0] == 1 && st.f[0] == 1 {
            1u16
        } else {
            0u16
        };
        proof {
            assert(st.f[0] == f0);
            assert(sign_u == (if g0 == 1 && f0 == 1 { 1u16 } else { 0u16 })) by (bit_vector)
                requires
                    sign_u == (g0 as i16 & f0 as i16) as u16,
                    g0 <= 1,
                    f0 <= 1,
            ;
            assert(sign_u == sign_spec);
        }
        let mut j: usize = 0;
        while j < 509
            invariant
                j <= 509,
                sign_u <= 1,
                sign_u == sign_spec,
                g1.len() == 509,
                f1.len() == 509,
                is_bits(f.coeffs@),
                is_bits(g.coeffs@),
                f.coeffs@ == f1,
                forall|k: int| 0 <= k < j ==> #[trigger] g.coeffs@[k]
                    == (g1[k] ^ (sign_spec & f1[k])),
                forall|k: int| j <= k < 509 ==> #[trigger] g.coeffs@[k] == g1[k],
            decreases 509 - j,
        {
            let gj: u16 = g.coeffs[j];
            let fj: u16 = f.coeffs[j];
            let t: u16 = sign_u & fj;
            proof {
                crate::arith::lemma_u16_bit_bounds(sign_u, fj);
                crate::arith::lemma_u16_bit_bounds(gj, t);
            }
            g.coeffs[j] = gj ^ t;
            j += 1;
        }
        let mut j: usize = 0;
        while j < 509
            invariant
                j <= 509,
                sign_u <= 1,
                sign_u == sign_spec,
                w1.len() == 509,
                v2.len() == 509,
                is_bits(v.coeffs@),
                is_bits(w.coeffs@),
                v.coeffs@ == v2,
                forall|k: int| 0 <= k < j ==> #[trigger] w.coeffs@[k]
                    == (w1[k] ^ (sign_spec & v2[k])),
                forall|k: int| j <= k < 509 ==> #[trigger] w.coeffs@[k] == w1[k],
            decreases 509 - j,
    {
            let wj: u16 = w.coeffs[j];
            let vj: u16 = v.coeffs[j];
            let t: u16 = sign_u & vj;
            proof {
                crate::arith::lemma_u16_bit_bounds(sign_u, vj);
                crate::arith::lemma_u16_bit_bounds(wj, t);
            }
            w.coeffs[j] = wj ^ t;
            j += 1;
        }
        let ghost g2 = g.coeffs@;
        // g <- g / x
        let mut j: usize = 0;
        while j < 508
            invariant
                j <= 508,
                g2.len() == 509,
                is_bits(g.coeffs@),
                forall|k: int| 0 <= k < j ==> #[trigger] g.coeffs@[k] == g2[k + 1],
                forall|k: int| j <= k < 509 ==> #[trigger] g.coeffs@[k] == g2[k],
            decreases 508 - j,
        {
            g.coeffs[j] = g.coeffs[j + 1];
            j += 1;
        }
        g.coeffs[508] = 0;

        proof {
            let stn = r2_step(st);
            assert(f.coeffs@ =~= stn.f);
            assert(g.coeffs@ =~= stn.g);
            assert(v.coeffs@ =~= stn.v);
            assert(w.coeffs@ =~= stn.w);
            assert(delta as int == stn.delta);
            assert(r2_iter(st0, (iter + 1) as nat) == stn);
        }
        iter += 1;
    }

    let ghost stf = r2_iter(st0, 1015);
    let mut j: usize = 0;
    while j < 508
        invariant
            j <= 508,
            v.coeffs@ == stf.v,
            stf.v.len() == 509,
            is_bits(v.coeffs@),
            forall|k: int| 0 <= k < j ==> #[trigger] r.coeffs@[k] == stf.v[507 - k],
            forall|k: int| 0 <= k < j ==> #[trigger] r.coeffs@[k] <= 1,
        decreases 508 - j,
    {
        r.coeffs[j] = v.coeffs[507 - j];
        j += 1;
    }
    r.coeffs[508] = 0;
    proof {
        assert(r.coeffs@ =~= r2_inv_spec(av));
    }
}

} // verus!
