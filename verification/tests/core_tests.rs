use alilu_os::interrupts::{pop_scancode, IdtEntry, ScancodeBuffer};
use alilu_os::keyboard::{letter_on_key, symbol_on_key, to_ascii_upper, Key, KeyEvent, Keyboard};
use alilu_os::process::{
    NetworkBandwidthManager, PrimaryMemoryManager, ProcessControlBlock, ProcessResourceRequest,
    ProcessResourceResponse, SecondaryStorageManager,
};
use alilu_os::scheduler::Scheduler;
use alilu_os::thread::{CpuContext, ThreadAction, ThreadControlBlock, ThreadResult, ThreadState};
use alilu_os::vga::{color_number, Color, VGA};

#[test]
fn console_writes_and_wraps() {
    let mut vga = VGA::new();
    assert_eq!(vga.get_cursor_position(), (0, 0));
    vga.write("Hi");
    assert_eq!(vga.glyph_at(0, 0), b'H');
    assert_eq!(vga.glyph_at(0, 1), b'i');
    assert_eq!(vga.attribute_at(0, 0), 0x0F);
    assert_eq!(vga.get_cursor_position(), (0, 2));
    vga.println("");
    assert_eq!(vga.get_cursor_position(), (1, 0));
    vga.set_color(Color::LightGreen, Color::Blue);
    vga.put_char('x');
    assert_eq!(vga.attribute_at(1, 0), 0x1A);
    vga.backspace();
    assert_eq!(vga.glyph_at(1, 0), b' ');
    assert_eq!(vga.get_cursor_position(), (1, 0));
}

#[test]
fn console_wraps_long_lines_and_scrolls() {
    let mut vga = VGA::new();
    let line: String = std::iter::repeat('a').take(81).collect();
    vga.write(&line);
    assert_eq!(vga.get_cursor_position(), (1, 1));
    assert_eq!(vga.glyph_at(1, 0), b'a');
    for _ in 0..30 {
        vga.println("z");
    }
    assert_eq!(vga.get_cursor_position(), (24, 0));
    assert_eq!(vga.glyph_at(23, 0), b'z');
    assert_eq!(vga.glyph_at(24, 0), b' ');
}

#[test]
fn console_clear_and_cursor() {
    let mut vga = VGA::new();
    vga.write("abc");
    vga.clear();
    assert_eq!(vga.glyph_at(0, 0), b' ');
    assert_eq!(vga.get_cursor_position(), (0, 0));
    vga.set_cursor_position(30, 100);
    assert_eq!(vga.get_cursor_position(), (24, 79));
    assert_eq!(vga.hardware_cursor(), (24 * 80 + 79, true));
    vga.hide_cursor();
    assert_eq!(vga.hardware_cursor().1, false);
    vga.put_char_at(3, 4, 'Q');
    assert_eq!(vga.glyph_at(3, 4), b'Q');
    vga.write("12");
    vga.clear_line();
    assert_eq!(vga.glyph_at(24, 79), b' ');
    assert_eq!(vga.get_cursor_position(), (24, 0));
}

#[test]
fn palette_numbers() {
    assert_eq!(color_number(Color::Black), 0);
    assert_eq!(color_number(Color::LightCyan), 11);
    assert_eq!(color_number(Color::White), 15);
}

#[test]
fn scancode_queue_is_fifo_and_bounded() {
    let mut q = ScancodeBuffer::new();
    assert_eq!(q.pop(), None);
    q.push(1);
    q.push(2);
    assert_eq!(pop_scancode(&mut q), Some(1));
    assert_eq!(q.pop(), Some(2));
    assert_eq!(q.pop(), None);
    for i in 0..300u32 {
        q.push((i % 256) as u8);
    }
    let mut n = 0;
    while let Some(c) = q.pop() {
        assert_eq!(c as u32, n % 256);
        n += 1;
    }
    assert_eq!(n, 255);
}

#[test]
fn descriptor_entries() {
    let e = IdtEntry::missing();
    let mut f = e;
    f.set_handler(0x1234_5678_9ABC);
    let text = format!("{:?}", f);
    assert!(text.contains("pointer_low: 39612"));
    assert!(text.contains("options: 36352"));
    assert_eq!(e.descriptor_bytes(), [0u8; 16]);
    assert_eq!(
        f.descriptor_bytes(),
        [0xBC, 0x9A, 0x08, 0x00, 0x00, 0x8E, 0x78, 0x56, 0x34, 0x12, 0x00, 0x00, 0x00, 0x00, 0x00, 0x00]
    );
    let mut g = IdtEntry::missing();
    g.set_user_syscall_handler(0x10);
    assert_eq!(g.descriptor_bytes()[4..6], [0x00, 0xCE]);
}

#[test]
fn keyboard_letters_shift_and_caps() {
    let mut kb = Keyboard::new();
    assert_eq!(kb.translate(0x1E), KeyEvent::Press(Key::Character('a')));
    assert_eq!(kb.translate(0x9E), KeyEvent::Release(Key::Character('a')));
    kb.translate(0x2A);
    assert!(kb.is_shift_pressed());
    assert_eq!(kb.translate(0x1E), KeyEvent::Press(Key::Character('A')));
    assert_eq!(kb.translate(0x02), KeyEvent::Press(Key::Character('!')));
    kb.translate(0xAA);
    assert!(!kb.is_shift_pressed());
    kb.translate(0x3A);
    kb.translate(0xBA);
    assert_eq!(kb.translate(0x1E), KeyEvent::Press(Key::Character('A')));
    kb.translate(0x1D);
    assert!(kb.is_ctrl_pressed());
    kb.translate(0x38);
    assert!(kb.is_alt_pressed());
    kb.reset();
    assert!(!kb.is_ctrl_pressed() && !kb.is_alt_pressed());
    assert_eq!(kb.translate(0x1C), KeyEvent::Press(Key::Enter));
    assert_eq!(kb.translate(0x3B), KeyEvent::Press(Key::Function(1)));
    assert_eq!(kb.translate(0x58), KeyEvent::Press(Key::Function(12)));
}

#[test]
fn caps_lock_toggles_once_per_press() {
    let mut kb = Keyboard::new();
    kb.translate(0x3A);
    kb.translate(0x3A);
    kb.translate(0xBA);
    assert_eq!(kb.translate(0x1F), KeyEvent::Press(Key::Character('S')));
    kb.translate(0x3A);
    kb.translate(0xBA);
    assert_eq!(kb.translate(0x1F), KeyEvent::Press(Key::Character('s')));
}

#[test]
fn keyboard_reads_from_queue() {
    let mut kb = Keyboard::new();
    let mut q = ScancodeBuffer::new();
    assert_eq!(kb.read_key(&mut q), None);
    q.push(0x10);
    assert_eq!(kb.read_key(&mut q), Some(KeyEvent::Press(Key::Character('q'))));
    assert_eq!(kb.read_key(&mut q), None);
}

#[test]
fn key_tables() {
    assert_eq!(symbol_on_key(0x0C, false), Some('-'));
    assert_eq!(symbol_on_key(0x0C, true), Some('_'));
    assert_eq!(letter_on_key(0x2C), Some('z'));
    assert_eq!(letter_on_key(0x01), None);
    assert_eq!(to_ascii_upper('k'), 'K');
}

#[test]
fn thread_requests() {
    let mut t = ThreadControlBlock::new(3, "worker", 0x1000, 0x20000);
    assert_eq!(t.state, ThreadState::Ready);
    assert_eq!(t.context.rip, 0x1000);
    assert_eq!(t.context.rsp, 0x20000);
    assert_eq!(t.stack_base, 0x20000 - 64 * 1024);
    assert!(matches!(t.handle_request(ThreadAction::QueryState), ThreadResult::State(ThreadState::Ready)));
    t.handle_request(ThreadAction::SetState(ThreadState::Blocked));
    assert_eq!(t.state, ThreadState::Blocked);
    t.handle_request(ThreadAction::UpdateResources { ram_bytes: 5, disk_blocks: 6, net_tokens: 7 });
    assert_eq!((t.allocated_ram, t.allocated_disk_blocks, t.net_bandwidth_tokens), (5, 6, 7));
    match t.handle_request(ThreadAction::GetStats) {
        ThreadResult::Info(s) => assert_eq!(s.tid, 3),
        _ => panic!("stats expected"),
    }
    let c = CpuContext::empty();
    assert_eq!((c.cs, c.rflags, c.ss), (0x08, 0x202, 0x10));
}

#[test]
fn quota_managers() {
    let mut ram = PrimaryMemoryManager::new();
    assert_eq!(ram.allocate(4 * 1024 * 1024), Ok(()));
    assert_eq!(ram.allocate(1), Err("Primary memory quota exceeded"));
    ram.deallocate(100);
    assert_eq!(ram.allocated_bytes, 4 * 1024 * 1024 - 100);
    ram.deallocate(usize::MAX);
    assert_eq!(ram.allocated_bytes, 0);
    let mut disk = SecondaryStorageManager::new();
    assert_eq!(disk.allocate(2 * 1024 * 1024 + 1), Err("Secondary storage quota exceeded"));
    assert_eq!(disk.allocate(10), Ok(()));
    disk.deallocate(10);
    assert_eq!(disk.allocated_bytes, 0);
    let mut net = NetworkBandwidthManager::new();
    assert!(net.consume_bandwidth(999_999));
    assert!(!net.consume_bandwidth(2));
    assert_eq!(net.available_tokens, 1);
    net.replenish();
    assert_eq!(net.available_tokens, 1_000_000);
}

#[test]
fn resource_requests() {
    let mut pcb = ProcessControlBlock::new();
    assert!(matches!(pcb.handle(ProcessResourceRequest::AllocateRam(1024)), ProcessResourceResponse::Success));
    assert!(matches!(
        pcb.handle(ProcessResourceRequest::AllocateDisk(3 * 1024 * 1024)),
        ProcessResourceResponse::Error("Secondary storage quota exceeded")
    ));
    assert!(matches!(pcb.handle(ProcessResourceRequest::RequestNetBandwidth(10)), ProcessResourceResponse::Granted(true)));
    assert!(matches!(pcb.handle(ProcessResourceRequest::FreeRam(24)), ProcessResourceResponse::Success));
    assert_eq!(pcb.register_thread("idle", 0x10, 0x8000), Ok(0));
    match pcb.handle(ProcessResourceRequest::GetSystemResourceStats) {
        ProcessResourceResponse::Stats(s) => {
            assert_eq!(s.process_id, 1);
            assert_eq!(s.ram_allocated, 1000 + 64 * 1024);
            assert_eq!(s.net_tokens_available, 999_990);
            assert_eq!(s.active_thread_count, 1);
        }
        _ => panic!("stats expected"),
    }
}

#[test]
fn thread_registry_limits() {
    let mut pcb = ProcessControlBlock::new();
    for i in 0..16 {
        assert_eq!(pcb.register_thread("t", 0, 0x10_0000), Ok(i));
    }
    assert_eq!(pcb.register_thread("t", 0, 0x10_0000), Err("Max threads limit reached"));
    pcb.set_thread_state(2, ThreadState::Terminated);
    assert_eq!(pcb.threads[2].state, ThreadState::Terminated);
    pcb.set_thread_state(99, ThreadState::Terminated);
}

#[test]
fn round_robin_switches_after_slice() {
    let mut pcb = ProcessControlBlock::new();
    pcb.register_thread("a", 0x100, 0x10000).unwrap();
    pcb.register_thread("b", 0x200, 0x20000).unwrap();
    pcb.register_thread("c", 0x300, 0x30000).unwrap();
    pcb.set_thread_state(2, ThreadState::Blocked);
    let mut s = Scheduler::new();
    let mut ctx = CpuContext::empty();
    s.tick_and_schedule(&mut pcb, &mut ctx);
    assert_eq!(s.current_tid, 0);
    s.init();
    assert_eq!(s.current_tid, 1);
    for _ in 0..9 {
        s.tick_and_schedule(&mut pcb, &mut ctx);
    }
    assert_eq!(s.current_tid, 1);
    assert_eq!(s.ticks_remaining, 1);
    ctx.rax = 77;
    s.tick_and_schedule(&mut pcb, &mut ctx);
    assert_eq!(s.current_tid, 0);
    assert_eq!(s.ticks_remaining, 10);
    assert_eq!(pcb.threads[1].context.rax, 77);
    assert_eq!(pcb.threads[0].state, ThreadState::Running);
    assert_eq!(ctx.rip, 0x100);
}

#[test]
fn clear_line_keeps_text_left_of_cursor() {
    let mut vga = VGA::new();
    vga.clear();
    vga.write("hello");
    vga.set_cursor_position(0, 2);
    vga.clear_line();
    assert_eq!(vga.glyph_at(0, 0), b'h');
    assert_eq!(vga.glyph_at(0, 1), b'e');
    assert_eq!(vga.glyph_at(0, 2), b' ');
    assert_eq!(vga.glyph_at(0, 4), b' ');
    assert_eq!(vga.get_cursor_position(), (0, 0));
}

#[test]
fn scheduler_never_runs_blocked_threads() {
    let mut pcb = ProcessControlBlock::new();
    pcb.register_thread("a", 0x100, 0x10000).unwrap();
    pcb.register_thread("b", 0x200, 0x20000).unwrap();
    pcb.set_thread_state(0, ThreadState::Blocked);
    pcb.set_thread_state(1, ThreadState::Terminated);
    let mut s = Scheduler::new();
    s.init();
    let mut ctx = CpuContext::empty();
    ctx.rax = 5;
    for _ in 0..10 {
        s.tick_and_schedule(&mut pcb, &mut ctx);
    }
    assert_eq!(s.current_tid, 1);
    assert_eq!(pcb.threads[0].state, ThreadState::Blocked);
    assert_eq!(pcb.threads[1].state, ThreadState::Terminated);
    assert_eq!(ctx.rax, 5);
    assert_eq!(pcb.threads[1].context.rax, 5);
}

#[test]
fn two_writes_equal_one() {
    let mut a = VGA::new();
    a.write("ab");
    a.write("cd");
    a.write("");
    let mut b = VGA::new();
    b.write("abcd");
    for c in 0..6 {
        assert_eq!(a.glyph_at(0, c), b.glyph_at(0, c));
    }
    assert_eq!(a.get_cursor_position(), b.get_cursor_position());
    assert_eq!(a.get_cursor_position(), (0, 4));
}
