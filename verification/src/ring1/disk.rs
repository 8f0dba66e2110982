//! Ring 1 block storage: the disk controller of the kernel core.
pub use crate::disk::DiskController;
