//! In-circuit ECDSA verification over an emulated ("foreign") field.
//!
//! The crate models, at the level of the values a constraint system would
//! carry, the verification equation of ECDSA for a curve whose base and
//! scalar fields differ from the proof system's native field.  Foreign-field
//! elements are represented as limbed integers with an overflow bound tracked
//! per operation; affine points are pairs of such integers; the verification
//! protocol issues the same fixed sequence of field and curve instructions
//! that the circuit would, and reports as an error any instruction whose
//! constraint no witness could satisfy.

pub mod ecc;
pub mod ecdsa;
pub mod error;
pub mod modular;
pub mod rns;
