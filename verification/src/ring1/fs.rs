//! Ring 1 filesystem: the one of the kernel core.
pub use crate::fs::{FileSystem, Node};
