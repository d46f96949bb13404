use vstd::prelude::*;

verus! {

/// Terminal state of a prover: notarization finished, nothing retained.
#[derive(Clone, Copy, Debug, PartialEq, Eq, Structural)]
pub struct Finalized {}

/// Restricts which types can stand as prover states.
pub trait Sealed {
}

/// Marker for the states a prover can be in.
pub trait ProverState: Sealed {
}

impl Sealed for Finalized {
}

impl ProverState for Finalized {
}

} // verus!
