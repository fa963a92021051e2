//! The demonstration circuit's data. The circuit synthesis itself —
//! allocating variables and enforcing constraints through a proving
//! system — is an external collaborator's concern; the core only carries
//! the circuit's witness input, here in the model scalar type.

use vstd::prelude::*;

verus! {

use crate::group::Scalar;

/// The demonstration circuit: a long chain of squarings starting from a
/// known witness value, present when proving and absent when only the
/// circuit's shape is needed (as in parameter generation).
pub struct DummyDemo {
    /// The witness input, absent for shape-only synthesis.
    pub xx: Option<Scalar>,
}

} // verus!
