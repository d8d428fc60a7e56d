//! Checking of a claimed sequence alignment over the scalar field of BLS12-381.
//!
//! Two symbol sequences and an alignment trace are packed into field blocks,
//! committed to with a Poseidon sponge, and tied together by a fingerprint
//! argument and a step-wise score accumulation. The claim can be evaluated
//! directly, or written out as a program of gates for a constraint system.

pub mod bits;
pub mod circuit;
pub mod encoding;
pub mod field;
pub mod memcheck;
pub mod program;
pub mod sponge;
pub mod synth;
pub mod trace;
