//! Process-table sampling core: parses kernel-interface text records,
//! derives CPU/memory utilization percentages from cumulative counters,
//! and reconstructs a parent-child process hierarchy from an unordered
//! snapshot.
//!
//! All percentages are fixed-point integers in hundredths of a percent
//! (10000 = 100%), which keeps the arithmetic exact and verifiable.

pub mod metrics;
pub mod parse;
pub mod system;
pub mod tree;

pub use system::{Process, ProcError, RawProcessRecord, RawSystemCounters, System};
pub use tree::{build_process_tree, ProcessTree, ProcessTreeNode};
