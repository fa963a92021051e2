//! Error taxonomy of the accelerator subsystem.

use vstd::prelude::*;

verus! {

/// Errors surfaced by the accelerator subsystem. Contention is recoverable
/// (fall back to the CPU path); a message carries a build or dispatch
/// failure, which is fatal for the request that observed it.
#[derive(Debug, Clone)]
pub enum GPUError {
    /// The device is currently claimed by a higher-priority actor.
    GPUTaken,
    /// A device build or dispatch failure, with a description.
    Msg(String),
}

pub type GPUResult<T> = Result<T, GPUError>;

impl GPUError {
    /// The error rendered as text, as it would be displayed.
    pub fn message(&self) -> (r: String)
        ensures
            self is Msg ==> r@ == self->Msg_0@,
            self is GPUTaken ==> r@ == "GPU taken by a high priority process!"@,
    {
        match self {
            GPUError::Msg(e) => e.clone(),
            GPUError::GPUTaken => "GPU taken by a high priority process!".to_owned(),
        }
    }
}

} // verus!
