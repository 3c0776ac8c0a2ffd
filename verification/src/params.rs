//! Global parameters of the scheme, fixed at build time to the
//! hps2048509 parameter set: N = 509, q = 2048 (11 bits), fixed weight 254.

use vstd::prelude::*;

verus! {

/// Degree bound N of the rings R_q = Z_q[x]/(x^N - 1) and S_3 = Z_3[x]/Phi_N.
pub const NTRU_N: usize = 509;

/// log2 of the modulus q.
pub const NTRU_LOGQ: usize = 11;

/// The modulus q = 2^11.
pub const NTRU_Q: usize = 2048;

/// Fixed weight of the sampled message polynomial: q/8 - 2.
pub const NTRU_WEIGHT: usize = 254;

/// Bytes consumed by one IID trinary sample: one byte per coefficient below N-1.
pub const NTRU_SAMPLE_IID_BYTES: usize = 508;

/// Bytes consumed by one fixed-type sample: 30 entropy bits per coefficient.
pub const NTRU_SAMPLE_FT_BYTES: usize = 1905;

/// Bytes consumed when sampling the key pair (f, g): one IID plus one fixed-type draw.
pub const NTRU_SAMPLE_FG_BYTES: usize = 2413;

/// Bytes consumed when sampling the message pair (r, m).
pub const NTRU_SAMPLE_RM_BYTES: usize = 2413;

/// Bytes of the implicit-rejection PRF key stored at the tail of the secret key.
pub const NTRU_PRFKEYBYTES: usize = 32;

/// Bytes of the negotiated shared key.
pub const NTRU_SHAREDKEYBYTES: usize = 32;

/// Number of packed coefficients: the degree N-1 polynomial part.
pub const NTRU_PACK_DEG: usize = 508;

/// Bytes of one packed trinary polynomial: five coefficients per byte.
pub const NTRU_PACK_TRINARY_BYTES: usize = 102;

/// Bytes of the packed (r, m) message pair: two trinary polynomials.
pub const NTRU_OWCPA_MSGBYTES: usize = 204;

/// Bytes of one packed R_q polynomial: 11 bits per coefficient.
pub const NTRU_OWCPA_BYTES: usize = 699;

/// Bytes of the ciphertext: one packed R_q polynomial.
pub const NTRU_CIPHERTEXTBYTES: usize = 699;

/// Bytes of the OW-CPA public key: one packed R_q polynomial.
pub const NTRU_OWCPA_PUBLICKEYBYTES: usize = 699;

/// Bytes of the OW-CPA secret key: two packed trinary polynomials and one packed
/// R_q polynomial.
pub const NTRU_OWCPA_SECRETKEYBYTES: usize = 903;

} // verus!
