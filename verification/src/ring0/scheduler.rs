//! Ring 0 scheduler: the round-robin scheduler of the kernel core.
pub use crate::scheduler::Scheduler;
