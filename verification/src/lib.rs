//! Verified building blocks of a collection of small dataflow programs:
//! per-batch aggregation operators (sum, product, maximum, minimum, mode,
//! average, take-while), a per-timestamp summing stash that releases its
//! totals when a timestamp completes, a keyed average accumulator, and a few
//! arithmetic helpers used by the programs.

pub mod math;
pub mod collections;
pub mod aggregates;
pub mod mode;
pub mod frontier_sum;
pub mod orders;
pub mod shapes;
pub mod collatz;

pub use collections::largest;
pub use orders::hash_str;
