//! Core of a user-space block storage data plane: the per-child
//! error-attribution and child-faulting subsystem of a nexus (a logical
//! volume replicating writes over a set of backing block devices), and the
//! NVMe-oF target lifecycle that exports the nexus to remote initiators.

use vstd::prelude::*;

pub mod dispatch;
pub mod err_store;
pub mod initiator;
pub mod lookup;
pub mod nexus;
pub mod nvmf;
pub mod strutil;

verus! {

/// Process-wide configuration consumed by the error store, the assessor and
/// the fault controller. Immutable after initialisation.
pub struct ErrorMonitoringOptions {
    pub enable_err_store: bool,
    pub err_store_size: usize,
    pub fault_child_on_error: bool,
    pub max_retry_errors: u32,
    pub max_error_age_ns: u64,
}

} // verus!
