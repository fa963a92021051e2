//! The kernel interfaces as they stand when no accelerator is enabled:
//! every build fails with an error (never a panic), every cache stays
//! empty, and callers fall back to the CPU worker pool.

use vstd::prelude::*;

verus! {

use crate::error::GPUError;
use crate::error::GPUResult;
use crate::group::Point;
use crate::group::Scalar;
use crate::multiexp::Worker;

/// FFT kernel of the no-accelerator build: it can never be created.
pub struct FFTKernel {}

impl FFTKernel {
    /// Always fails: the accelerator is not enabled.
    pub fn create(_log_d: u32, _priority: bool) -> (r: GPUResult<FFTKernel>)
        ensures
            r is Err,
    {
        Err(GPUError::Msg("GPU accelerator is not enabled!".to_owned()))
    }

    /// Always fails; the coefficients are left untouched.
    pub fn radix_fft(&mut self, a: &mut Vec<Scalar>, _omega: &Scalar, _log_n: u32) -> (r: GPUResult<
        (),
    >)
        ensures
            r is Err,
            final(a)@ == old(a)@,
    {
        Err(GPUError::Msg("GPU accelerator is not enabled!".to_owned()))
    }
}

/// Multiexp kernel of the no-accelerator build: it can never be created.
pub struct MultiexpKernel {}

impl MultiexpKernel {
    /// Always fails: the accelerator is not enabled.
    pub fn create(_priority: bool) -> (r: GPUResult<MultiexpKernel>)
        ensures
            r is Err,
    {
        Err(GPUError::Msg("GPU accelerator is not enabled!".to_owned()))
    }

    /// Always fails: with no accelerator the caller must use the pool.
    pub fn multiexp(
        &mut self,
        _pool: &Worker,
        _bases: &Vec<Point>,
        _exps: &Vec<Scalar>,
        _skip: usize,
        _n: usize,
    ) -> (r: GPUResult<Point>)
        ensures
            r is Err,
    {
        Err(GPUError::Msg("GPU accelerator is not enabled!".to_owned()))
    }
}

/// Cache stub around the FFT kernel: the factory always fails, so the
/// slot never fills.
pub struct LockedFFTKernel {
    /// The cached kernel slot; it stays empty in this build.
    pub kernel: Option<FFTKernel>,
}

impl LockedFFTKernel {
    /// A fresh cache; no kernel.
    pub fn new(_priority: bool, _log_d: u32) -> (r: LockedFFTKernel)
        ensures
            r.kernel is None,
    {
        LockedFFTKernel { kernel: None }
    }

    /// The observation step of the no-accelerator build: nothing to drop,
    /// nothing to build.
    pub fn get(&mut self) -> (available: bool)
        ensures
            final(self).kernel == old(self).kernel,
            available == (final(self).kernel is Some),
    {
        self.kernel.is_some()
    }
}

/// Cache stub around the multiexp kernel: the factory always fails, so
/// the slot never fills.
pub struct LockedMultiexpKernel {
    /// The cached kernel slot; it stays empty in this build.
    pub kernel: Option<MultiexpKernel>,
}

impl LockedMultiexpKernel {
    /// A fresh cache; no kernel.
    pub fn new(_priority: bool) -> (r: LockedMultiexpKernel)
        ensures
            r.kernel is None,
    {
        LockedMultiexpKernel { kernel: None }
    }

    /// The observation step of the no-accelerator build: nothing to drop,
    /// nothing to build.
    pub fn get(&mut self) -> (available: bool)
        ensures
            final(self).kernel == old(self).kernel,
            available == (final(self).kernel is Some),
    {
        self.kernel.is_some()
    }
}

} // verus!
