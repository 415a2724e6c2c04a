//! Run configuration as the command line hands it over: node endpoints, the
//! target account, input file names, protocol parameters, parallelism and
//! the dry-run switch.

use vstd::prelude::*;

verus! {

/// Which parts of a run may fan out over worker threads.
#[derive(Debug, Clone, PartialEq, Eq, Structural)]
pub enum ParallelMode {
    NoParallel,
    ParallelSeeds,
    ParallelSearch,
    ParallelAll,
}

impl ParallelMode {
    /// Whether each seed's task may run on its own worker.
    pub fn is_parallel_seed(&self) -> (r: bool)
        ensures
            r == (*self == ParallelMode::ParallelSeeds || *self == ParallelMode::ParallelAll),
    {
        *self == ParallelMode::ParallelSeeds || *self == ParallelMode::ParallelAll
    }

    /// Whether the work inside one seed's task may fan out.
    pub fn is_parallel_search(&self) -> (r: bool)
        ensures
            r == (*self == ParallelMode::ParallelSearch || *self == ParallelMode::ParallelAll),
    {
        *self == ParallelMode::ParallelSearch || *self == ParallelMode::ParallelAll
    }
}

/// Everything a run is configured with.  Command-line parsing itself happens
/// outside the crate and hands over this plain value.
#[derive(Debug, Clone)]
pub struct Args {
    pub legacy_node: String,
    pub chrysalis_node: String,
    pub permanode: String,
    pub mnemonic: Option<String>,
    pub target_account: usize,
    pub target_address: usize,
    pub seeds: String,
    pub addresses: Option<String>,
    pub security_level: u8,
    pub minimum_weight_magnitude: u8,
    pub parallel_mode: ParallelMode,
    pub dry_run: bool,
    pub yes: bool,
}

} // verus!
