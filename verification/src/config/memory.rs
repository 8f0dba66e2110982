//! Heap parameters.
use vstd::prelude::*;

verus! {

/// Size of the kernel heap pool (5 MiB).
pub const HEAP_SIZE: usize = 5 * 1024 * 1024;

} // verus!
