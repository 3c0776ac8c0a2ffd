//! Array sizes and the algorithm name exported to users of the KEM.

use vstd::prelude::*;

verus! {

/// The number of bytes required to store the public key.
pub const CRYPTO_PUBLICKEYBYTES: usize = 699;

/// The number of bytes required to store the secret key.
pub const CRYPTO_SECRETKEYBYTES: usize = 935;

/// The number of bytes required to store the ciphertext resulting from the encryption.
pub const CRYPTO_CIPHERTEXTBYTES: usize = 699;

/// The number of bytes required to store the negotiated/shared key.
pub const CRYPTO_BYTES: usize = 32;

/// Name of the active parameter set.
pub const CRYPTO_ALGNAME: &'static str = "ntruhps2048509";

} // verus!
