//! Scheduler parameters.
use vstd::prelude::*;

verus! {

/// Time slice in timer ticks (10 ticks = 100 ms).
pub const TIME_SLICE_TICKS: u64 = 10;
/// Default thread priority.
pub const DEFAULT_PRIORITY: u8 = 1;

} // verus!
