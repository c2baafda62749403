//! Virtual-region bookkeeping for circuit assembly: builders that append
//! witness values and selector flags to a column, and a store of the equality
//! constraints that they record between cells.
pub mod cell;
pub mod context;
pub mod copy_constraints;
pub mod laws;

pub use cell::{Assigned, AssignedValue, ContextCell, ContextTag, QuantumCell};
pub use context::{Context, ContextView};
pub use copy_constraints::{CopyConstraintManager, CopyConstraintView};
