//! Priority-aware accelerator arbitration and a heterogeneous multiexp
//! scheduler, modelled over a concrete commutative group and verified.
//!
//! The library covers two coupled subsystems: a cross-process, priority-aware
//! mutual-exclusion protocol with a lazy, self-healing kernel cache
//! (`locks`), and a scheduler that partitions one multi-scalar
//! multiplication between a CPU worker pool and a set of device kernels and
//! combines the partial results (`multiexp`). Curve and field arithmetic is
//! an external capability; the group is modelled here as the integers modulo
//! 2^64 so that every scheduling and combination step carries an exact
//! contract.

pub mod dummy;
pub mod error;
pub mod group;
pub mod locks;
pub mod multiexp;
pub mod nogpu;
pub mod split;
pub mod windows;
