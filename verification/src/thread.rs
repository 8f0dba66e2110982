//! Thread control blocks: execution state, saved CPU registers and the
//! resources granted to each thread, behind one request handler.
use vstd::prelude::*;
use crate::config::process::THREAD_STACK_SIZE;

verus! {

/// Lifecycle state of a thread.
#[derive(Debug, Clone, Copy, PartialEq, Eq, Structural)]
pub enum ThreadState {
    Ready,
    Running,
    Blocked,
    Terminated,
}

/// Saved x86_64 register context of a thread.
#[derive(Debug, Clone, Copy)]
pub struct CpuContext {
    pub r15: u64,
    pub r14: u64,
    pub r13: u64,
    pub r12: u64,
    pub r11: u64,
    pub r10: u64,
    pub r9: u64,
    pub r8: u64,
    pub rbp: u64,
    pub rdi: u64,
    pub rsi: u64,
    pub rdx: u64,
    pub rcx: u64,
    pub rbx: u64,
    pub rax: u64,
    pub rip: u64,
    pub cs: u64,
    pub rflags: u64,
    pub rsp: u64,
    pub ss: u64,
}

/// The context of a thread that has not run yet: every general register zero,
/// kernel code and data selectors, interrupts enabled.
pub open spec fn empty_context() -> CpuContext {
    CpuContext {
        r15: 0, r14: 0, r13: 0, r12: 0, r11: 0, r10: 0, r9: 0, r8: 0,
        rbp: 0, rdi: 0, rsi: 0, rdx: 0, rcx: 0, rbx: 0, rax: 0,
        rip: 0, cs: 0x08, rflags: 0x202, rsp: 0, ss: 0x10,
    }
}

impl CpuContext {
    pub fn empty() -> (r: Self)
        ensures
            r == empty_context(),
    {
        CpuContext {
            r15: 0, r14: 0, r13: 0, r12: 0, r11: 0, r10: 0, r9: 0, r8: 0,
            rbp: 0, rdi: 0, rsi: 0, rdx: 0, rcx: 0, rbx: 0, rax: 0,
            rip: 0, cs: 0x08, rflags: 0x202, rsp: 0, ss: 0x10,
        }
    }
}

/// Requests understood by a thread's handler.
#[derive(Debug, Clone)]
pub enum ThreadAction {
    QueryState,
    SetState(ThreadState),
    UpdateResources { ram_bytes: usize, disk_blocks: usize, net_tokens: u64 },
    GetStats,
}

/// Snapshot of a thread.
#[derive(Debug, Clone)]
pub struct ThreadStats {
    pub tid: usize,
    pub name: String,
    pub state: ThreadState,
    pub priority: u8,
    pub stack_size: usize,
    pub allocated_ram: usize,
    pub allocated_disk_blocks: usize,
    pub net_bandwidth_tokens: u64,
}

/// Answers of a thread's handler.
#[derive(Debug, Clone)]
pub enum ThreadResult {
    State(ThreadState),
    Info(ThreadStats),
    Success,
    Error(&'static str),
}

/// Thread control block.
pub struct ThreadControlBlock {
    pub tid: usize,
    pub name: String,
    pub state: ThreadState,
    pub priority: u8,
    pub context: CpuContext,
    pub stack_base: u64,
    pub stack_size: usize,
    pub allocated_ram: usize,
    pub allocated_disk_blocks: usize,
    pub net_bandwidth_tokens: u64,
}

/// Whether a snapshot describes a thread.
pub open spec fn stats_of(t: ThreadControlBlock, s: ThreadStats) -> bool {
    &&& s.tid == t.tid
    &&& s.name@ == t.name@
    &&& s.state == t.state
    &&& s.priority == t.priority
    &&& s.stack_size == t.stack_size
    &&& s.allocated_ram == t.allocated_ram
    &&& s.allocated_disk_blocks == t.allocated_disk_blocks
    &&& s.net_bandwidth_tokens == t.net_bandwidth_tokens
}

impl ThreadControlBlock {
    /// A ready thread that starts at `entry_point` with its stack ending at `stack_top`.
    pub fn new(tid: usize, name: &str, entry_point: u64, stack_top: u64) -> (r: Self)
        ensures
            r.tid == tid,
            r.name@ == name@,
            r.state == ThreadState::Ready,
            r.priority == 1,
            r.context == (CpuContext { rip: entry_point, rsp: stack_top, ..empty_context() }),
            r.stack_base == (if stack_top >= THREAD_STACK_SIZE { stack_top - THREAD_STACK_SIZE } else { 0 }),
            r.stack_size == THREAD_STACK_SIZE,
            r.allocated_ram == THREAD_STACK_SIZE,
            r.allocated_disk_blocks == 0,
            r.net_bandwidth_tokens == 1000,
    {
        let mut ctx = CpuContext::empty();
        ctx.rip = entry_point;
        ctx.rsp = stack_top;
        ThreadControlBlock {
            tid,
            name: name.to_owned(),
            state: ThreadState::Ready,
            priority: 1,
            context: ctx,
            stack_base: stack_top.saturating_sub(THREAD_STACK_SIZE as u64),
            stack_size: THREAD_STACK_SIZE,
            allocated_ram: THREAD_STACK_SIZE,
            allocated_disk_blocks: 0,
            net_bandwidth_tokens: 1000,
        }
    }

    /// The single entry point for inspecting and updating a thread.
    pub fn handle_request(&mut self, action: ThreadAction) -> (r: ThreadResult)
        ensures
            match action {
                ThreadAction::QueryState => r == ThreadResult::State(old(self).state) && *final(self) == *old(self),
                ThreadAction::SetState(s) => r == ThreadResult::Success
                    && *final(self) == (ThreadControlBlock { state: s, ..*old(self) }),
                ThreadAction::UpdateResources { ram_bytes, disk_blocks, net_tokens } => r == ThreadResult::Success
                    && *final(self) == (ThreadControlBlock {
                        allocated_ram: ram_bytes,
                        allocated_disk_blocks: disk_blocks,
                        net_bandwidth_tokens: net_tokens,
                        ..*old(self)
                    }),
                ThreadAction::GetStats => *final(self) == *old(self)
                    && (r matches ThreadResult::Info(s) && stats_of(*old(self), s)),
            },
    {
        match action {
            ThreadAction::QueryState => ThreadResult::State(self.state),
            ThreadAction::SetState(new_state) => {
                self.state = new_state;
                ThreadResult::Success
            },
            ThreadAction::UpdateResources { ram_bytes, disk_blocks, net_tokens } => {
                self.allocated_ram = ram_bytes;
                self.allocated_disk_blocks = disk_blocks;
                self.net_bandwidth_tokens = net_tokens;
                ThreadResult::Success
            },
            ThreadAction::GetStats => ThreadResult::Info(
                ThreadStats {
                    tid: self.tid,
                    name: self.name.clone(),
                    state: self.state,
                    priority: self.priority,
                    stack_size: self.stack_size,
                    allocated_ram: self.allocated_ram,
                    allocated_disk_blocks: self.allocated_disk_blocks,
                    net_bandwidth_tokens: self.net_bandwidth_tokens,
                },
            ),
        }
    }
}

} // verus!
