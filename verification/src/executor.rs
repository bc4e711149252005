//! What an execution backend reports.

use crate::regions::RegionCycles;
use vstd::prelude::*;

verus! {

/// The cost of one execution. A backend that cannot tell regions apart
/// reports an empty breakdown.
#[derive(Debug, Clone, PartialEq)]
pub struct ExecutionReport {
    /// Total number of cycles.
    pub total_num_cycles: u64,
    /// Cycles by region.
    pub region_cycles: RegionCycles,
}

/// Why a backend did not report.
#[derive(Debug, Clone, PartialEq, Eq)]
pub enum ExecutorError {
    /// The program could not be built or loaded.
    Setup(String),
    /// The execution of one input failed.
    Execution(String),
    /// The execution of one input did not end in time.
    Timeout(String),
}

} // verus!
