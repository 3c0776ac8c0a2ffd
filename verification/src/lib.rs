//! An NTRU key-encapsulation mechanism over the rings Z_q[x]/(x^N - 1) and
//! Z_3[x]/(1 + x + ... + x^(N-1)), for the parameter set with N = 509 and
//! q = 2048 (the HPS variant): polynomial arithmetic, constant-time inverses,
//! trinary sampling, packed byte codecs, the OW-CPA trapdoor and the CCA-KEM
//! wrapper built on it, and the AES-128-CTR deterministic byte generator that
//! feeds them.
//!
//! Every conditional that touches secret data is expressed as an arithmetic
//! mask, never as a branch; validity checks accumulate their verdict and do
//! not short-circuit.

pub mod api;
pub mod arith;
pub mod cmov;
pub mod counts;
pub mod crypto_sort_int32;
pub mod kem;
pub mod owcpa;
pub mod pack3;
pub mod packq;
pub mod params;
pub mod poly;
pub mod poly_lift;
pub mod poly_mod;
pub mod poly_r2_inv;
pub mod poly_rq_mul;
pub mod poly_s3_inv;
pub mod rng;
pub mod sample;
pub mod sample_iid;
