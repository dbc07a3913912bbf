//! Packed-circuit extension of a Marlin-style argument over BLS12-381:
//! transcript-bound randomisation of designated witness slots, in-place
//! patching of an indexed constraint matrix, and the zero-test that ties
//! prover and verifier to the same randomness.

pub mod commit;
pub mod domain;
pub mod encoding;
pub mod error;
pub mod field;
pub mod patch;
pub mod poly;
pub mod poso;
pub mod prove;
pub mod setup;
pub mod transcript;
pub mod verify;
pub mod witness;
pub mod zerotest;
