//! Constraint-system compilation and proof-backend layer for an
//! R1CS-style arithmetic-circuit program over the bn254 scalar field.
//!
//! The library canonicalizes circuit-level linear combinations, allocates
//! backend variables with public/private visibility mirroring the circuit's
//! classification, synthesizes the backend's constraint system, and encodes
//! field elements and curve points into the fixed hex interchange format.

use vstd::prelude::*;

pub mod field;
pub mod ir;
pub mod lincomb;
pub mod scheme;
pub mod serialize;
pub mod synthesis;

verus! {

/// Marker for the arkworks proving backend.
pub struct Ark;

/// Failures of synthesis and of the proof-system protocol.
#[derive(Clone, Copy, Debug, PartialEq, Eq, Structural)]
pub enum Error {
    /// The witness lacks a value for a variable referenced during synthesis.
    MissingAssignment,
    /// The backend synthesis context was never initialized.
    MissingConstraintSystem,
    /// The circuit is below the scheme's minimum size; a reportable outcome.
    SetupTooSmall,
    /// A freshly produced proof failed its own verification.
    ProofInconsistency,
}

} // verus!
