//! The kernel's top level for the privilege-ring layout: the boot sequence
//! (console, keyboard, filesystem, the eleven boot threads, the scheduler),
//! the boot banner, and the routing of key presses to the shell.
use vstd::prelude::*;
use crate::config::process::{MAX_THREADS, THREAD_STACK_SIZE};
use crate::fs::FileSystem;
use crate::kernel::key_press_effect;
use crate::keyboard::{Key, KeyEvent, modifiers_reset};
use crate::process::ProcessControlBlock;
use crate::ring0::keyboard::Keyboard;
use crate::ring2::game::GameEngine;
use crate::ring2::shell::{Shell, ShellView, pcb_unchanged};
use crate::scheduler::Scheduler;
use crate::thread::{CpuContext, ThreadState, empty_context};
use crate::vga::{Color, Screen, VGA};

verus! {

/// Top of the stack of the first boot thread; the others sit above it.
pub const BOOT_STACK_TOP: u64 = 0x4444_5000_0000;

/// Number of threads registered at boot.
pub const BOOT_THREADS: usize = 11;

/// Name of boot thread `i`, in registration order.
pub open spec fn boot_thread_name(i: int) -> Seq<char> {
    if i == 0 {
        "idle_thread"@
    } else if i == 1 {
        "watchdog_thread"@
    } else if i == 2 {
        "deadlock_monitor_thread"@
    } else if i == 3 {
        "mutex_manager_thread"@
    } else if i == 4 {
        "vat_syncer_thread"@
    } else if i == 5 {
        "net_worker_thread"@
    } else if i == 6 {
        "log_flush_thread"@
    } else if i == 7 {
        "ipc_router_thread"@
    } else if i == 8 {
        "shell_cli_thread"@
    } else if i == 9 {
        "crypto_worker_thread"@
    } else {
        "sensor_poll_thread"@
    }
}

/// Offset of boot thread `i`'s stack top above `BOOT_STACK_TOP`.
pub open spec fn boot_stack_offset(i: int) -> u64 {
    if i == 0 {
        0
    } else if i == 1 {
        0x50000
    } else if i == 2 {
        0x90000
    } else if i == 3 {
        0xA0000
    } else if i == 4 {
        0x20000
    } else if i == 5 {
        0x30000
    } else if i == 6 {
        0x40000
    } else if i == 7 {
        0x70000
    } else if i == 8 {
        0x10000
    } else if i == 9 {
        0x60000
    } else {
        0x80000
    }
}

fn boot_thread(i: usize) -> (r: (&'static str, u64))
    requires
        i < BOOT_THREADS,
    ensures
        r.0@ == boot_thread_name(i as int),
        r.1 == boot_stack_offset(i as int),
{
    if i == 0 {
        ("idle_thread", 0)
    } else if i == 1 {
        ("watchdog_thread", 0x50000)
    } else if i == 2 {
        ("deadlock_monitor_thread", 0x90000)
    } else if i == 3 {
        ("mutex_manager_thread", 0xA0000)
    } else if i == 4 {
        ("vat_syncer_thread", 0x20000)
    } else if i == 5 {
        ("net_worker_thread", 0x30000)
    } else if i == 6 {
        ("log_flush_thread", 0x40000)
    } else if i == 7 {
        ("ipc_router_thread", 0x70000)
    } else if i == 8 {
        ("shell_cli_thread", 0x10000)
    } else if i == 9 {
        ("crypto_worker_thread", 0x60000)
    } else {
        ("sensor_poll_thread", 0x80000)
    }
}

/// Whether no further thread can be registered.
pub open spec fn registration_blocked(p: ProcessControlBlock) -> bool {
    p.threads@.len() >= MAX_THREADS || p.ram_mgr.allocated_bytes + THREAD_STACK_SIZE > p.ram_mgr.total_quota_bytes
}

/// `new` is `old` with the first `k` boot threads registered, in order,
/// starting at `entries[i]`.
pub open spec fn boot_prefix(pre: ProcessControlBlock, post: ProcessControlBlock, entries: Seq<u64>, k: int) -> bool {
    let n = pre.threads@.len();
    &&& post.pid == pre.pid
    &&& post.disk_mgr == pre.disk_mgr
    &&& post.net_mgr == pre.net_mgr
    &&& post.ram_mgr.total_quota_bytes == pre.ram_mgr.total_quota_bytes
    &&& post.ram_mgr.allocated_bytes == pre.ram_mgr.allocated_bytes + k * THREAD_STACK_SIZE
    &&& post.threads@.len() == n + k
    &&& post.threads@.take(n as int) == pre.threads@
    &&& forall|j: int| 0 <= j < k ==> {
        let t = #[trigger] post.threads@[n + j];
        &&& t.tid == n + j
        &&& t.name@ == boot_thread_name(j)
        &&& t.state == ThreadState::Ready
        &&& t.context == (CpuContext { rip: entries[j], rsp: (BOOT_STACK_TOP + boot_stack_offset(j)) as u64, ..empty_context() })
        &&& t.stack_size == THREAD_STACK_SIZE
    }
}

/// The boot threads are registered in order until one can no longer be.
pub open spec fn boot_threads_registered(pre: ProcessControlBlock, post: ProcessControlBlock, entries: Seq<u64>) -> bool {
    exists|k: int| 0 <= k <= BOOT_THREADS && #[trigger] boot_prefix(pre, post, entries, k)
        && (k < BOOT_THREADS ==> registration_blocked(post))
}

/// The boot banner written over screen `s`.
pub open spec fn banner_screen(s: Screen) -> Screen {
    s.with_colors(Color::LightGreen, Color::Black).println("========================================"@).println(
        "          Welcome to AliluOS"@,
    ).println("========================================"@).with_colors(Color::White, Color::Black).println(""@).println(
        "Kernel Initialized Successfully (Ring 0, Ring 1, Ring 2 Segregation)."@,
    ).println(""@).write("> "@)
}

/// The kernel: the keyboard driver and the shell.
pub struct Kernel {
    pub keyboard: Keyboard,
    pub shell: Shell,
}

impl Kernel {
    /// A kernel with a fresh keyboard driver and shell.
    pub fn new() -> (r: Self)
        ensures
            r.keyboard@ == modifiers_reset(),
            r.shell@ == Shell::new_view(),
    {
        Kernel { keyboard: Keyboard::new(), shell: Shell::new() }
    }

    /// Boot sequence: clears the console, resets the keyboard, brings up the
    /// filesystem, registers the boot threads (thread `i` starting at
    /// `entries[i]`), starts the scheduler, and shows the banner and prompt.
    pub fn initialize(
        &mut self,
        vga: &mut VGA,
        fs: &mut FileSystem,
        pm: &mut ProcessControlBlock,
        sched: &mut Scheduler,
        entries: &Vec<u64>,
    )
        requires
            old(vga).inv(),
            old(fs).wf(),
            entries@.len() == BOOT_THREADS,
            old(pm).ram_mgr.allocated_bytes + BOOT_THREADS * THREAD_STACK_SIZE <= usize::MAX,
        ensures
            final(vga).inv(),
            final(fs).wf(),
            final(self).keyboard@ == modifiers_reset(),
            final(self).shell@ == old(self).shell@,
            final(vga)@ == banner_screen(old(vga)@.cleared()),
            old(fs).is_initialized() ==> *final(fs) == *old(fs),
            !old(fs).is_initialized() ==> final(fs).is_initialized() && final(fs).disk.is_initialized(),
            boot_threads_registered(*old(pm), *final(pm), entries@),
            old(sched).initialized ==> *final(sched) == *old(sched),
            !old(sched).initialized ==> final(sched).initialized && final(sched).current_tid == 1
                && final(sched).ticks_remaining == old(sched).ticks_remaining,
    {
        vga.init();
        self.keyboard.init();
        fs.init();
        let ghost start = *pm;
        let ghost n = start.threads@.len();
        let ghost mut k: int = 0;
        assert(pm.threads@.take(n as int) =~= start.threads@);
        assert(boot_prefix(start, *pm, entries@, 0));
        let mut i: usize = 0;
        while i < BOOT_THREADS
            invariant
                i <= BOOT_THREADS,
                entries@.len() == BOOT_THREADS,
                n == start.threads@.len(),
                start.ram_mgr.allocated_bytes + BOOT_THREADS * THREAD_STACK_SIZE <= usize::MAX,
                0 <= k <= i,
                boot_prefix(start, *pm, entries@, k),
                k < i ==> registration_blocked(*pm),
            decreases BOOT_THREADS - i,
        {
            let (name, offset) = boot_thread(i);
            let ghost before = *pm;
            assert(k * THREAD_STACK_SIZE + THREAD_STACK_SIZE <= BOOT_THREADS * THREAD_STACK_SIZE) by (nonlinear_arith)
                requires
                    0 <= k < BOOT_THREADS,
            ;
            assert((k + 1) * THREAD_STACK_SIZE == k * THREAD_STACK_SIZE + THREAD_STACK_SIZE) by (nonlinear_arith);
            let r = pm.register_thread(name, entries[i], BOOT_STACK_TOP + offset);
            proof {
                if k == i && !registration_blocked(before) {
                    assert(pm.threads@.take(n as int) =~= start.threads@) by {
                        assert(pm.threads@.drop_last() == before.threads@);
                        assert forall|j: int| 0 <= j < n implies pm.threads@[j] == start.threads@[j] by {
                            assert(pm.threads@.drop_last()[j] == pm.threads@[j]);
                            assert(before.threads@.take(n as int)[j] == before.threads@[j]);
                        }
                    }
                    assert forall|j: int| 0 <= j < k + 1 implies {
                        let t = #[trigger] pm.threads@[n + j];
                        &&& t.tid == n + j
                        &&& t.name@ == boot_thread_name(j)
                        &&& t.state == ThreadState::Ready
                        &&& t.context == (CpuContext { rip: entries@[j], rsp: (BOOT_STACK_TOP + boot_stack_offset(j)) as u64, ..empty_context() })
                        &&& t.stack_size == THREAD_STACK_SIZE
                    } by {
                        if j < k {
                            assert(pm.threads@.drop_last()[n + j] == pm.threads@[n + j]);
                            assert(before.threads@[n + j] == pm.threads@[n + j]);
                        }
                    }
                    k = k + 1;
                    assert(boot_prefix(start, *pm, entries@, k));
                }
            }
            i = i + 1;
        }
        assert(boot_prefix(start, *pm, entries@, k));
        sched.init();
        self.boot_banner(vga);
    }

    fn boot_banner(&mut self, vga: &mut VGA)
        requires
            old(vga).inv(),
        ensures
            final(vga).inv(),
            final(vga)@ == banner_screen(old(vga)@),
            *final(self) == *old(self),
    {
        vga.set_color(Color::LightGreen, Color::Black);
        vga.println("========================================");
        vga.println("          Welcome to AliluOS");
        vga.println("========================================");
        vga.set_color(Color::White, Color::Black);
        vga.println("");
        vga.println("Kernel Initialized Successfully (Ring 0, Ring 1, Ring 2 Segregation).");
        vga.println("");
        vga.write("> ");
    }

    /// A key event: presses go to the shell, releases are ignored.
    pub fn handle_key_event(
        &mut self,
        event: KeyEvent,
        vga: &mut VGA,
        fs: &mut FileSystem,
        pm: &mut ProcessControlBlock,
        game: &mut GameEngine,
        ticks: u64,
    )
        requires
            old(vga).inv(),
            old(fs).wf(),
        ensures
            final(vga).inv(),
            final(fs).wf(),
            pcb_unchanged(*old(pm), *final(pm)),
            final(self).keyboard@ == old(self).keyboard@,
            match event {
                KeyEvent::Press(key) => key_press_effect(old(self).keyboard@.ctrl, key, old(self).shell@, final(self).shell@,
                    *old(fs), *final(fs), *old(pm), *old(game), *final(game), ticks, old(vga)@, final(vga)@),
                KeyEvent::Release(_) => final(self).shell@ == old(self).shell@ && *final(fs) == *old(fs)
                    && *final(game) == *old(game) && final(vga)@ == old(vga)@,
            },
    {
        match event {
            KeyEvent::Press(key) => self.handle_key_press(key, vga, fs, pm, game, ticks),
            KeyEvent::Release(_) => {},
        }
    }

    fn handle_key_press(
        &mut self,
        key: Key,
        vga: &mut VGA,
        fs: &mut FileSystem,
        pm: &mut ProcessControlBlock,
        game: &mut GameEngine,
        ticks: u64,
    )
        requires
            old(vga).inv(),
            old(fs).wf(),
        ensures
            final(vga).inv(),
            final(fs).wf(),
            pcb_unchanged(*old(pm), *final(pm)),
            final(self).keyboard@ == old(self).keyboard@,
            key_press_effect(old(self).keyboard@.ctrl, key, old(self).shell@, final(self).shell@, *old(fs), *final(fs),
                *old(pm), *old(game), *final(game), ticks, old(vga)@, final(vga)@),
    {
        let is_ctrl = self.keyboard.is_ctrl_pressed();
        match key {
            Key::Character(c) => {
                if is_ctrl {
                    self.shell.handle_ctrl_char(vga, fs, c, ticks);
                } else {
                    self.shell.handle_char(vga, c);
                }
            },
            Key::Space => self.shell.handle_space(vga),
            Key::Enter => self.shell.handle_enter(vga, fs, pm, game, ticks),
            Key::Backspace => self.shell.handle_backspace(vga),
            Key::Escape => self.shell.handle_escape(vga),
            _ => {},
        }
    }
}

} // verus!
