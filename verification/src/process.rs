//! The single process of the system, acting purely as a resource manager:
//! quotas of primary memory and secondary storage, a network bandwidth token
//! bucket, and the registry of threads.
use vstd::prelude::*;
use crate::config::process::{DISK_QUOTA_BYTES, MAX_THREADS, NET_BANDWIDTH_LIMIT_BYTES_PER_SEC, RAM_QUOTA_BYTES, THREAD_STACK_SIZE};
use crate::thread::{stats_of, ThreadAction, ThreadControlBlock, ThreadResult, ThreadState, ThreadStats, CpuContext, empty_context};

verus! {

/// Bytes held after a request for `bytes` more: granted only within the quota.
pub open spec fn after_allocate(allocated: int, quota: int, bytes: int) -> int {
    if allocated + bytes <= quota { allocated + bytes } else { allocated }
}

/// Bytes held after returning `bytes`, never below zero.
pub open spec fn after_free(allocated: int, bytes: int) -> int {
    if allocated >= bytes { allocated - bytes } else { 0 }
}

/// Returning what was just granted restores the previous amount.
pub proof fn lemma_free_undoes_allocate(allocated: int, quota: int, bytes: int)
    requires
        0 <= allocated,
        0 <= bytes,
        allocated + bytes <= quota,
    ensures
        after_free(after_allocate(allocated, quota, bytes), bytes) == allocated,
{
}

/// Neither granting nor returning takes the amount held beyond the quota.
pub proof fn lemma_quota_respected(allocated: int, quota: int, bytes: int)
    requires
        0 <= allocated <= quota,
        0 <= bytes,
    ensures
        0 <= after_allocate(allocated, quota, bytes) <= quota,
        0 <= after_free(allocated, bytes) <= quota,
{
}

/// Primary memory (RAM) quota manager.
#[derive(Debug, Clone)]
pub struct PrimaryMemoryManager {
    pub total_quota_bytes: usize,
    pub allocated_bytes: usize,
}

impl PrimaryMemoryManager {
    /// Nothing allocated, quota `RAM_QUOTA_BYTES`.
    pub fn new() -> (r: Self)
        ensures
            r.total_quota_bytes == RAM_QUOTA_BYTES,
            r.allocated_bytes == 0,
    {
        PrimaryMemoryManager { total_quota_bytes: RAM_QUOTA_BYTES, allocated_bytes: 0 }
    }

    /// Grants `bytes` when they fit in the remaining quota.
    pub fn allocate(&mut self, bytes: usize) -> (r: Result<(), &'static str>)
        requires
            old(self).allocated_bytes + bytes <= usize::MAX,
        ensures
            final(self).total_quota_bytes == old(self).total_quota_bytes,
            final(self).allocated_bytes == after_allocate(
                old(self).allocated_bytes as int,
                old(self).total_quota_bytes as int,
                bytes as int,
            ),
            old(self).allocated_bytes + bytes <= old(self).total_quota_bytes ==> r is Ok,
            old(self).allocated_bytes + bytes > old(self).total_quota_bytes ==> r == Err::<(), &'static str>("Primary memory quota exceeded"),
    {
        if self.allocated_bytes + bytes > self.total_quota_bytes {
            Err("Primary memory quota exceeded")
        } else {
            self.allocated_bytes = self.allocated_bytes + bytes;
            Ok(())
        }
    }

    /// Returns `bytes`, never going below zero.
    pub fn deallocate(&mut self, bytes: usize)
        ensures
            final(self).total_quota_bytes == old(self).total_quota_bytes,
            final(self).allocated_bytes == after_free(old(self).allocated_bytes as int, bytes as int),
    {
        self.allocated_bytes = self.allocated_bytes.saturating_sub(bytes);
    }
}

/// Secondary storage (disk) quota manager.
#[derive(Debug, Clone)]
pub struct SecondaryStorageManager {
    pub total_quota_bytes: usize,
    pub allocated_bytes: usize,
}

impl SecondaryStorageManager {
    /// Nothing allocated, quota `DISK_QUOTA_BYTES`.
    pub fn new() -> (r: Self)
        ensures
            r.total_quota_bytes == DISK_QUOTA_BYTES,
            r.allocated_bytes == 0,
    {
        SecondaryStorageManager { total_quota_bytes: DISK_QUOTA_BYTES, allocated_bytes: 0 }
    }

    /// Grants `bytes` when they fit in the remaining quota.
    pub fn allocate(&mut self, bytes: usize) -> (r: Result<(), &'static str>)
        requires
            old(self).allocated_bytes + bytes <= usize::MAX,
        ensures
            final(self).total_quota_bytes == old(self).total_quota_bytes,
            final(self).allocated_bytes == after_allocate(
                old(self).allocated_bytes as int,
                old(self).total_quota_bytes as int,
                bytes as int,
            ),
            old(self).allocated_bytes + bytes <= old(self).total_quota_bytes ==> r is Ok,
            old(self).allocated_bytes + bytes > old(self).total_quota_bytes ==> r == Err::<(), &'static str>("Secondary storage quota exceeded"),
    {
        if self.allocated_bytes + bytes > self.total_quota_bytes {
            Err("Secondary storage quota exceeded")
        } else {
            self.allocated_bytes = self.allocated_bytes + bytes;
            Ok(())
        }
    }

    /// Returns `bytes`, never going below zero.
    pub fn deallocate(&mut self, bytes: usize)
        ensures
            final(self).total_quota_bytes == old(self).total_quota_bytes,
            final(self).allocated_bytes == after_free(old(self).allocated_bytes as int, bytes as int),
    {
        self.allocated_bytes = self.allocated_bytes.saturating_sub(bytes);
    }
}

/// Network bandwidth token bucket.
#[derive(Debug, Clone)]
pub struct NetworkBandwidthManager {
    pub rate_limit_bytes_per_sec: u64,
    pub available_tokens: u64,
}

impl NetworkBandwidthManager {
    /// A full bucket of `NET_BANDWIDTH_LIMIT_BYTES_PER_SEC` tokens.
    pub fn new() -> (r: Self)
        ensures
            r.rate_limit_bytes_per_sec == NET_BANDWIDTH_LIMIT_BYTES_PER_SEC,
            r.available_tokens == NET_BANDWIDTH_LIMIT_BYTES_PER_SEC,
    {
        NetworkBandwidthManager {
            rate_limit_bytes_per_sec: NET_BANDWIDTH_LIMIT_BYTES_PER_SEC,
            available_tokens: NET_BANDWIDTH_LIMIT_BYTES_PER_SEC,
        }
    }

    /// Takes `bytes` tokens when that many are available; tells whether it did.
    pub fn consume_bandwidth(&mut self, bytes: u64) -> (r: bool)
        ensures
            final(self).rate_limit_bytes_per_sec == old(self).rate_limit_bytes_per_sec,
            r == (old(self).available_tokens >= bytes),
            r ==> final(self).available_tokens == old(self).available_tokens - bytes,
            !r ==> final(self).available_tokens == old(self).available_tokens,
    {
        if self.available_tokens >= bytes {
            self.available_tokens = self.available_tokens - bytes;
            true
        } else {
            false
        }
    }

    /// Refills the bucket to the rate limit.
    pub fn replenish(&mut self)
        ensures
            final(self).rate_limit_bytes_per_sec == old(self).rate_limit_bytes_per_sec,
            final(self).available_tokens == old(self).rate_limit_bytes_per_sec,
    {
        self.available_tokens = self.rate_limit_bytes_per_sec;
    }
}

/// Requests to the resource manager.
#[derive(Debug, Clone)]
pub enum ProcessResourceRequest {
    AllocateRam(usize),
    FreeRam(usize),
    AllocateDisk(usize),
    FreeDisk(usize),
    RequestNetBandwidth(u64),
    GetSystemResourceStats,
}

/// Summary of every resource of the process.
#[derive(Debug, Clone)]
pub struct ProcessResourceSummary {
    pub process_id: usize,
    pub ram_allocated: usize,
    pub ram_quota: usize,
    pub disk_allocated: usize,
    pub disk_quota: usize,
    pub net_bandwidth_limit: u64,
    pub net_tokens_available: u64,
    pub active_thread_count: usize,
    pub thread_stats: Vec<ThreadStats>,
}

/// Answers of the resource manager.
#[derive(Debug, Clone)]
pub enum ProcessResourceResponse {
    Success,
    Granted(bool),
    Stats(ProcessResourceSummary),
    Error(&'static str),
}

/// The process control block: the resource manager of the system.
pub struct ProcessControlBlock {
    pub pid: usize,
    pub ram_mgr: PrimaryMemoryManager,
    pub disk_mgr: SecondaryStorageManager,
    pub net_mgr: NetworkBandwidthManager,
    pub threads: Vec<ThreadControlBlock>,
}

/// Whether a request can be handled without an arithmetic overflow.
pub open spec fn request_in_range(pcb: ProcessControlBlock, request: ProcessResourceRequest) -> bool {
    match request {
        ProcessResourceRequest::AllocateRam(bytes) => pcb.ram_mgr.allocated_bytes + bytes <= usize::MAX,
        ProcessResourceRequest::AllocateDisk(bytes) => pcb.disk_mgr.allocated_bytes + bytes <= usize::MAX,
        _ => true,
    }
}

/// Whether a summary describes the process.
pub open spec fn summary_of(pcb: ProcessControlBlock, s: ProcessResourceSummary) -> bool {
    &&& s.process_id == pcb.pid
    &&& s.ram_allocated == pcb.ram_mgr.allocated_bytes
    &&& s.ram_quota == pcb.ram_mgr.total_quota_bytes
    &&& s.disk_allocated == pcb.disk_mgr.allocated_bytes
    &&& s.disk_quota == pcb.disk_mgr.total_quota_bytes
    &&& s.net_bandwidth_limit == pcb.net_mgr.rate_limit_bytes_per_sec
    &&& s.net_tokens_available == pcb.net_mgr.available_tokens
    &&& s.active_thread_count == pcb.threads@.len()
    &&& s.thread_stats@.len() == pcb.threads@.len()
    &&& forall|i: int| 0 <= i < pcb.threads@.len() ==> stats_of(#[trigger] pcb.threads@[i], s.thread_stats@[i])
}

impl ProcessControlBlock {
    /// Process 1 with fresh managers and no thread.
    pub fn new() -> (r: Self)
        ensures
            r.pid == 1,
            r.ram_mgr.total_quota_bytes == RAM_QUOTA_BYTES && r.ram_mgr.allocated_bytes == 0,
            r.disk_mgr.total_quota_bytes == DISK_QUOTA_BYTES && r.disk_mgr.allocated_bytes == 0,
            r.net_mgr.rate_limit_bytes_per_sec == NET_BANDWIDTH_LIMIT_BYTES_PER_SEC,
            r.net_mgr.available_tokens == NET_BANDWIDTH_LIMIT_BYTES_PER_SEC,
            r.threads@.len() == 0,
    {
        ProcessControlBlock {
            pid: 1,
            ram_mgr: PrimaryMemoryManager::new(),
            disk_mgr: SecondaryStorageManager::new(),
            net_mgr: NetworkBandwidthManager::new(),
            threads: Vec::new(),
        }
    }

    /// The single entry point for resource requests.
    pub fn handle(&mut self, request: ProcessResourceRequest) -> (r: ProcessResourceResponse)
        requires
            request_in_range(*old(self), request),
        ensures
            final(self).pid == old(self).pid,
            final(self).threads@ == old(self).threads@,
            match request {
                ProcessResourceRequest::AllocateRam(bytes) => {
                    &&& final(self).disk_mgr == old(self).disk_mgr
                    &&& final(self).net_mgr == old(self).net_mgr
                    &&& final(self).ram_mgr.total_quota_bytes == old(self).ram_mgr.total_quota_bytes
                    &&& if old(self).ram_mgr.allocated_bytes + bytes <= old(self).ram_mgr.total_quota_bytes {
                        r == ProcessResourceResponse::Success
                            && final(self).ram_mgr.allocated_bytes == old(self).ram_mgr.allocated_bytes + bytes
                    } else {
                        r == ProcessResourceResponse::Error("Primary memory quota exceeded")
                            && final(self).ram_mgr == old(self).ram_mgr
                    }
                },
                ProcessResourceRequest::FreeRam(bytes) => {
                    &&& r == ProcessResourceResponse::Success
                    &&& final(self).disk_mgr == old(self).disk_mgr
                    &&& final(self).net_mgr == old(self).net_mgr
                    &&& final(self).ram_mgr.total_quota_bytes == old(self).ram_mgr.total_quota_bytes
                    &&& final(self).ram_mgr.allocated_bytes == if old(self).ram_mgr.allocated_bytes >= bytes {
                        old(self).ram_mgr.allocated_bytes - bytes
                    } else {
                        0
                    }
                },
                ProcessResourceRequest::AllocateDisk(bytes) => {
                    &&& final(self).ram_mgr == old(self).ram_mgr
                    &&& final(self).net_mgr == old(self).net_mgr
                    &&& final(self).disk_mgr.total_quota_bytes == old(self).disk_mgr.total_quota_bytes
                    &&& if old(self).disk_mgr.allocated_bytes + bytes <= old(self).disk_mgr.total_quota_bytes {
                        r == ProcessResourceResponse::Success
                            && final(self).disk_mgr.allocated_bytes == old(self).disk_mgr.allocated_bytes + bytes
                    } else {
                        r == ProcessResourceResponse::Error("Secondary storage quota exceeded")
                            && final(self).disk_mgr == old(self).disk_mgr
                    }
                },
                ProcessResourceRequest::FreeDisk(bytes) => {
                    &&& r == ProcessResourceResponse::Success
                    &&& final(self).ram_mgr == old(self).ram_mgr
                    &&& final(self).net_mgr == old(self).net_mgr
                    &&& final(self).disk_mgr.total_quota_bytes == old(self).disk_mgr.total_quota_bytes
                    &&& final(self).disk_mgr.allocated_bytes == if old(self).disk_mgr.allocated_bytes >= bytes {
                        old(self).disk_mgr.allocated_bytes - bytes
                    } else {
                        0
                    }
                },
                ProcessResourceRequest::RequestNetBandwidth(bytes) => {
                    &&& r == ProcessResourceResponse::Granted(old(self).net_mgr.available_tokens >= bytes)
                    &&& final(self).ram_mgr == old(self).ram_mgr
                    &&& final(self).disk_mgr == old(self).disk_mgr
                    &&& final(self).net_mgr.rate_limit_bytes_per_sec == old(self).net_mgr.rate_limit_bytes_per_sec
                    &&& final(self).net_mgr.available_tokens == if old(self).net_mgr.available_tokens >= bytes {
                        (old(self).net_mgr.available_tokens - bytes) as u64
                    } else {
                        old(self).net_mgr.available_tokens
                    }
                },
                ProcessResourceRequest::GetSystemResourceStats => {
                    &&& final(self).ram_mgr == old(self).ram_mgr
                    &&& final(self).disk_mgr == old(self).disk_mgr
                    &&& final(self).net_mgr == old(self).net_mgr
                    &&& (r matches ProcessResourceResponse::Stats(s) && summary_of(*old(self), s))
                },
            },
    {
        match request {
            ProcessResourceRequest::AllocateRam(bytes) => match self.ram_mgr.allocate(bytes) {
                Ok(_) => ProcessResourceResponse::Success,
                Err(e) => ProcessResourceResponse::Error(e),
            },
            ProcessResourceRequest::FreeRam(bytes) => {
                self.ram_mgr.deallocate(bytes);
                ProcessResourceResponse::Success
            },
            ProcessResourceRequest::AllocateDisk(bytes) => match self.disk_mgr.allocate(bytes) {
                Ok(_) => ProcessResourceResponse::Success,
                Err(e) => ProcessResourceResponse::Error(e),
            },
            ProcessResourceRequest::FreeDisk(bytes) => {
                self.disk_mgr.deallocate(bytes);
                ProcessResourceResponse::Success
            },
            ProcessResourceRequest::RequestNetBandwidth(bytes) => {
                let granted = self.net_mgr.consume_bandwidth(bytes);
                ProcessResourceResponse::Granted(granted)
            },
            ProcessResourceRequest::GetSystemResourceStats => {
                let mut thread_stats: Vec<ThreadStats> = Vec::new();
                let n = self.threads.len();
                for i in 0..n
                    invariant
                        n == self.threads@.len(),
                        self.threads@ == old(self).threads@,
                        self.pid == old(self).pid,
                        self.ram_mgr == old(self).ram_mgr,
                        self.disk_mgr == old(self).disk_mgr,
                        self.net_mgr == old(self).net_mgr,
                        thread_stats@.len() == i,
                        forall|j: int| 0 <= j < i ==> stats_of(#[trigger] self.threads@[j], thread_stats@[j]),
                {
                    if let ThreadResult::Info(stats) = self.threads[i].handle_request(ThreadAction::GetStats) {
                        thread_stats.push(stats);
                    }
                    assert(self.threads@ =~= old(self).threads@);
                }
                ProcessResourceResponse::Stats(
                    ProcessResourceSummary {
                        process_id: self.pid,
                        ram_allocated: self.ram_mgr.allocated_bytes,
                        ram_quota: self.ram_mgr.total_quota_bytes,
                        disk_allocated: self.disk_mgr.allocated_bytes,
                        disk_quota: self.disk_mgr.total_quota_bytes,
                        net_bandwidth_limit: self.net_mgr.rate_limit_bytes_per_sec,
                        net_tokens_available: self.net_mgr.available_tokens,
                        active_thread_count: self.threads.len(),
                        thread_stats,
                    },
                )
            },
        }
    }

    /// Registers a thread: it gets the next thread id and its stack is taken
    /// from the primary memory quota.
    pub fn register_thread(&mut self, name: &str, entry_point: u64, stack_top: u64) -> (r: Result<usize, &'static str>)
        requires
            old(self).threads@.len() < MAX_THREADS ==> old(self).ram_mgr.allocated_bytes + THREAD_STACK_SIZE <= usize::MAX,
        ensures
            final(self).pid == old(self).pid,
            final(self).disk_mgr == old(self).disk_mgr,
            final(self).net_mgr == old(self).net_mgr,
            final(self).ram_mgr.total_quota_bytes == old(self).ram_mgr.total_quota_bytes,
            old(self).threads@.len() >= MAX_THREADS ==> r == Err::<usize, &'static str>("Max threads limit reached")
                && final(self).ram_mgr == old(self).ram_mgr && final(self).threads@ == old(self).threads@,
            old(self).threads@.len() < MAX_THREADS && old(self).ram_mgr.allocated_bytes + THREAD_STACK_SIZE > old(self).ram_mgr.total_quota_bytes
                ==> r == Err::<usize, &'static str>("Primary memory quota exceeded")
                && final(self).ram_mgr == old(self).ram_mgr && final(self).threads@ == old(self).threads@,
            old(self).threads@.len() < MAX_THREADS && old(self).ram_mgr.allocated_bytes + THREAD_STACK_SIZE <= old(self).ram_mgr.total_quota_bytes
                ==> {
                    let t = final(self).threads@.last();
                    &&& r == Ok::<usize, &'static str>(old(self).threads@.len() as usize)
                    &&& final(self).ram_mgr.allocated_bytes == old(self).ram_mgr.allocated_bytes + THREAD_STACK_SIZE
                    &&& final(self).threads@.len() == old(self).threads@.len() + 1
                    &&& final(self).threads@.drop_last() == old(self).threads@
                    &&& t.tid == old(self).threads@.len()
                    &&& t.name@ == name@
                    &&& t.state == ThreadState::Ready
                    &&& t.context == (CpuContext { rip: entry_point, rsp: stack_top, ..empty_context() })
                    &&& t.stack_size == THREAD_STACK_SIZE
                },
    {
        let tid = self.threads.len();
        if tid >= MAX_THREADS {
            return Err("Max threads limit reached");
        }
        match self.ram_mgr.allocate(THREAD_STACK_SIZE) {
            Ok(_) => {},
            Err(e) => return Err(e),
        }
        let tcb = ThreadControlBlock::new(tid, name, entry_point, stack_top);
        self.threads.push(tcb);
        assert(self.threads@.drop_last() =~= old(self).threads@);
        Ok(tid)
    }

    /// Sets the state of thread `tid`; an unknown thread id is ignored.
    pub fn set_thread_state(&mut self, tid: usize, state: ThreadState)
        ensures
            final(self).pid == old(self).pid,
            final(self).ram_mgr == old(self).ram_mgr,
            final(self).disk_mgr == old(self).disk_mgr,
            final(self).net_mgr == old(self).net_mgr,
            tid < old(self).threads@.len() ==> final(self).threads@ == old(self).threads@.update(
                tid as int,
                ThreadControlBlock { state, ..old(self).threads@[tid as int] },
            ),
            tid >= old(self).threads@.len() ==> final(self).threads@ == old(self).threads@,
    {
        if tid < self.threads.len() {
            let _ = self.threads[tid].handle_request(ThreadAction::SetState(state));
        }
    }
}

} // verus!
