//! The size gate of a size-parameterized universal scheme: such a scheme's
//! setup is rejected on circuits below its minimum constraint count, a
//! normal, reportable outcome rather than an error.

use vstd::prelude::*;

use crate::Error;

verus! {

/// A size-parameterized universal scheme, described by the smallest circuit
/// (in constraints) its setup accepts.
pub struct UniversalScheme {
    pub min_constraints: usize,
}

impl UniversalScheme {
    /// Gate a circuit's setup by size: a circuit below the scheme's minimum
    /// constraint count is rejected with `SetupTooSmall` rather than given a
    /// key pair; any other circuit passes.
    pub fn check_circuit_size(&self, constraint_count: usize) -> (r: Result<(), Error>)
        ensures
            r is Ok <==> constraint_count >= self.min_constraints,
            r is Err ==> r->Err_0 == Error::SetupTooSmall,
    {
        if constraint_count < self.min_constraints {
            Err(Error::SetupTooSmall)
        } else {
            Ok(())
        }
    }
}

/// The prover's mandatory self-check: a freshly produced proof is verified
/// against its own verifying key before it is returned, and a failure is the
/// fatal internal inconsistency `ProofInconsistency`, never a proof handed
/// to a caller.
pub fn confirm_self_verified(verified: bool) -> (r: Result<(), Error>)
    ensures
        r is Ok <==> verified,
        r is Err ==> r->Err_0 == Error::ProofInconsistency,
{
    if verified {
        Ok(())
    } else {
        Err(Error::ProofInconsistency)
    }
}


} // verus!
