//! Resource manager quotas.
use vstd::prelude::*;

verus! {

/// Most threads the process manages.
pub const MAX_THREADS: usize = 16;
/// Stack size of each thread (64 KiB).
pub const THREAD_STACK_SIZE: usize = 64 * 1024;
/// Primary memory quota (4 MiB).
pub const RAM_QUOTA_BYTES: usize = 4 * 1024 * 1024;
/// Secondary storage quota (2 MiB).
pub const DISK_QUOTA_BYTES: usize = 2 * 1024 * 1024;
/// Network bandwidth per second (1 MB/s).
pub const NET_BANDWIDTH_LIMIT_BYTES_PER_SEC: u64 = 1_000_000;

} // verus!
