//! Core transforms of a TFHE-style lattice cryptography library: LWE, GLWE and
//! CRSGLWE encryption over a configurable ciphertext modulus, signed radix
//! decomposition, key switching (direct, seeded, and trace packing), and the
//! programmable bootstrap.
//!
//! Every coefficient container is an owned flat vector of `u64` words; each
//! entity records the shape metadata (dimension, codimension, polynomial size,
//! ciphertext modulus) that pins down how the vector is read. Randomness comes
//! from one deterministic AES-based byte stream per seed, so every generation
//! procedure is a mathematical function of its seeds — which is what the
//! seeded/direct key-generation equivalence results state.

use vstd::prelude::*;

pub mod boolean;
pub mod bootstrap;
pub mod crs_glwe_ciphertext;
pub mod crs_glwe_encryption;
pub mod crs_glwe_secret_key;
pub mod crs_lwe_ciphertext;
pub mod crs_lwe_linear_algebra;
pub mod crs_lwe_secret_key;
pub mod decomposition;
pub mod glwe;
pub mod lwe;
pub mod lwe_keyswitch;
pub mod lwe_trace_packing_keyswitch;
pub mod modulus_switch;
pub mod numeric;
pub mod parameters;
pub mod polynomial;
pub mod random;

verus! {

} // verus!
