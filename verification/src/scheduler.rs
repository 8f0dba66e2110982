//! Preemptive round-robin scheduler driven by timer ticks.
use vstd::prelude::*;
use crate::config::scheduler::TIME_SLICE_TICKS;
use crate::process::ProcessControlBlock;
use crate::thread::{CpuContext, ThreadControlBlock, ThreadState};

verus! {

/// A thread that may be given the CPU.
pub open spec fn runnable(s: ThreadState) -> bool {
    s == ThreadState::Ready || s == ThreadState::Running
}

/// Scanning cyclically from `pos` for at most `remaining` threads: the first
/// runnable one, or where the scan stopped.
pub open spec fn scan_from(threads: Seq<ThreadControlBlock>, pos: int, remaining: nat) -> int
    decreases remaining,
{
    if remaining == 0 {
        pos
    } else if runnable(threads[pos].state) {
        pos
    } else {
        scan_from(threads, (pos + 1) % (threads.len() as int), (remaining - 1) as nat)
    }
}

/// The threads once the interrupted thread `prev` got `ctx` saved and, if it
/// was running, was put back to ready.
pub open spec fn saved_threads(threads: Seq<ThreadControlBlock>, prev: int, ctx: CpuContext) -> Seq<ThreadControlBlock> {
    if 0 <= prev < threads.len() {
        let t = threads[prev];
        threads.update(
            prev,
            ThreadControlBlock {
                context: ctx,
                state: if t.state == ThreadState::Running { ThreadState::Ready } else { t.state },
                ..t
            },
        )
    } else {
        threads
    }
}

/// Where the round-robin scan after `prev` stops: the first runnable thread
/// in cyclic order after it, or (when none is runnable) the one right after it.
pub open spec fn next_thread(threads: Seq<ThreadControlBlock>, prev: int) -> int {
    let n = threads.len() as int;
    scan_from(threads, (prev + 1) % n, n as nat)
}

pub proof fn lemma_scan_in_range(threads: Seq<ThreadControlBlock>, pos: int, remaining: nat)
    requires
        0 <= pos < threads.len(),
    ensures
        0 <= scan_from(threads, pos, remaining) < threads.len(),
    decreases remaining,
{
    if remaining > 0 && !runnable(threads[pos].state) {
        lemma_scan_in_range(threads, (pos + 1) % (threads.len() as int), (remaining - 1) as nat);
    }
}

/// The scheduler never hands the CPU to a blocked or terminated thread while
/// some thread is ready or running: whenever any thread is runnable, the
/// thread it picks is runnable.
pub proof fn lemma_next_thread_runnable(threads: Seq<ThreadControlBlock>, prev: int, some: int)
    requires
        threads.len() > 0,
        0 <= some < threads.len(),
        runnable(threads[some].state),
    ensures
        0 <= next_thread(threads, prev) < threads.len(),
        runnable(threads[next_thread(threads, prev)].state),
{
    let n = threads.len() as int;
    let start = (prev + 1) % n;
    lemma_scan_in_range(threads, start, n as nat);
    lemma_scan_finds(threads, start, n as nat, some);
}

proof fn lemma_mod_below_twice(x: int, n: int)
    requires
        n > 0,
        0 <= x < 2 * n,
    ensures
        x % n == if x < n { x } else { x - n },
{
    if x < n {
        vstd::arithmetic::div_mod::lemma_small_mod(x as nat, n as nat);
    } else {
        vstd::arithmetic::div_mod::lemma_mod_add_multiples_vanish(x - n, n);
        vstd::arithmetic::div_mod::lemma_small_mod((x - n) as nat, n as nat);
    }
}

proof fn lemma_scan_finds(threads: Seq<ThreadControlBlock>, pos: int, remaining: nat, some: int)
    requires
        0 <= pos < threads.len(),
        0 <= some < threads.len(),
        runnable(threads[some].state),
        remaining <= threads.len(),
        (some - pos + threads.len()) % (threads.len() as int) < remaining,
    ensures
        runnable(threads[scan_from(threads, pos, remaining)].state),
    decreases remaining,
{
    let n = threads.len() as int;
    if !runnable(threads[pos].state) {
        assert(some != pos);
        let next = (pos + 1) % n;
        lemma_mod_below_twice(pos + 1, n);
        lemma_mod_below_twice(some - pos + n, n);
        lemma_mod_below_twice(some - next + n, n);
        lemma_scan_finds(threads, next, (remaining - 1) as nat, some);
    }
}

/// Scheduler state.
pub struct Scheduler {
    pub current_tid: usize,
    pub ticks_remaining: u64,
    pub initialized: bool,
}

impl Scheduler {
    /// An idle scheduler with a full time slice.
    pub fn new() -> (r: Self)
        ensures
            r.current_tid == 0,
            r.ticks_remaining == TIME_SLICE_TICKS,
            !r.initialized,
    {
        Scheduler { current_tid: 0, ticks_remaining: TIME_SLICE_TICKS, initialized: false }
    }

    /// Starts scheduling with the shell thread (thread 1) as the current one; later calls do nothing.
    pub fn init(&mut self)
        ensures
            old(self).initialized ==> *final(self) == *old(self),
            !old(self).initialized ==> final(self).initialized && final(self).current_tid == 1
                && final(self).ticks_remaining == old(self).ticks_remaining,
    {
        if !self.initialized {
            self.initialized = true;
            self.current_tid = 1;
        }
    }

    /// One timer tick. While the slice lasts it only counts down; when it
    /// expires the interrupted context is saved into the current thread and
    /// the next runnable thread in round-robin order is switched in. When no
    /// thread is ready or running, no thread is switched in.
    pub fn tick_and_schedule(&mut self, pm: &mut ProcessControlBlock, ctx: &mut CpuContext)
        requires
            old(self).current_tid < usize::MAX,
        ensures
            final(pm).pid == old(pm).pid,
            final(pm).ram_mgr == old(pm).ram_mgr,
            final(pm).disk_mgr == old(pm).disk_mgr,
            final(pm).net_mgr == old(pm).net_mgr,
            final(self).initialized == old(self).initialized,
            !old(self).initialized ==> *final(self) == *old(self) && final(pm).threads@ == old(pm).threads@ && *final(ctx) == *old(ctx),
            old(self).initialized && old(self).ticks_remaining > 1 ==> {
                &&& final(self).ticks_remaining == old(self).ticks_remaining - 1
                &&& final(self).current_tid == old(self).current_tid
                &&& final(pm).threads@ == old(pm).threads@
                &&& *final(ctx) == *old(ctx)
            },
            old(self).initialized && old(self).ticks_remaining <= 1 ==> final(self).ticks_remaining == TIME_SLICE_TICKS,
            old(self).initialized && old(self).ticks_remaining <= 1 && old(pm).threads@.len() == 0 ==> {
                &&& final(self).current_tid == old(self).current_tid
                &&& final(pm).threads@ == old(pm).threads@
                &&& *final(ctx) == *old(ctx)
            },
            old(self).initialized && old(self).ticks_remaining <= 1 && old(pm).threads@.len() > 0 ==> {
                let saved = saved_threads(old(pm).threads@, old(self).current_tid as int, *old(ctx));
                let next = next_thread(saved, old(self).current_tid as int);
                &&& 0 <= next < saved.len()
                &&& runnable(saved[next].state) ==> {
                    &&& final(self).current_tid == next
                    &&& final(pm).threads@ == saved.update(next, ThreadControlBlock { state: ThreadState::Running, ..saved[next] })
                    &&& *final(ctx) == saved[next].context
                }
                &&& !runnable(saved[next].state) ==> {
                    &&& final(self).current_tid == old(self).current_tid
                    &&& final(pm).threads@ == saved
                    &&& *final(ctx) == *old(ctx)
                }
            },
    {
        if !self.initialized {
            return;
        }
        if self.ticks_remaining > 1 {
            self.ticks_remaining = self.ticks_remaining - 1;
            return;
        }
        self.ticks_remaining = TIME_SLICE_TICKS;
        let total_threads = pm.threads.len();
        if total_threads == 0 {
            return;
        }
        let prev_tid = self.current_tid;
        if prev_tid < total_threads {
            pm.threads[prev_tid].context = *ctx;
            if pm.threads[prev_tid].state == ThreadState::Running {
                pm.threads[prev_tid].state = ThreadState::Ready;
            }
        }
        let ghost saved = pm.threads@;
        assert(saved =~= saved_threads(old(pm).threads@, prev_tid as int, *old(ctx)));
        let mut next_tid = (prev_tid + 1) % total_threads;
        let ghost start = next_tid as int;
        let mut k: usize = 0;
        while k < total_threads
            invariant
                total_threads == saved.len(),
                pm.threads@ == saved,
                k <= total_threads,
                next_tid < total_threads,
                0 <= start < total_threads,
                scan_from(saved, start, total_threads as nat) == scan_from(saved, next_tid as int, (total_threads - k) as nat),
            ensures
                next_tid < total_threads,
                scan_from(saved, start, total_threads as nat) == next_tid,
            decreases total_threads - k,
        {
            let st = pm.threads[next_tid].state;
            if st == ThreadState::Ready || st == ThreadState::Running {
                break;
            }
            next_tid = (next_tid + 1) % total_threads;
            k = k + 1;
        }
        let st = pm.threads[next_tid].state;
        if st == ThreadState::Ready || st == ThreadState::Running {
            self.current_tid = next_tid;
            pm.threads[next_tid].state = ThreadState::Running;
            *ctx = pm.threads[next_tid].context;
        }
    }
}

} // verus!
