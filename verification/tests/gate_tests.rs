use alilu_os::fs::FileSystem;
use alilu_os::interrupts::ScancodeBuffer;
use alilu_os::process::ProcessControlBlock;
use alilu_os::ring1::network::{http_get, resolve_domain_name};
use alilu_os::ring2::syscall::{
    syscall_dispatch, SYS_ALLOCATE_DISK, SYS_ALLOCATE_RAM, SYS_FS_DELETE, SYS_FS_OPEN, SYS_FS_READ, SYS_FS_WRITE,
    SYS_GET_SYS_STATS, SYS_IPC_SEND, SYS_MUTEX_LOCK, SYS_READ_KEYBOARD, SYS_REQUEST_NET, SYS_THREAD_YIELD,
    SYS_UNKNOWN, SYS_WRITE_CONSOLE,
};
use alilu_os::vga::VGA;

struct Machine {
    vga: VGA,
    fs: FileSystem,
    pcb: ProcessControlBlock,
    keys: ScancodeBuffer,
}

impl Machine {
    fn new() -> Machine {
        let mut fs = FileSystem::new();
        fs.init();
        Machine { vga: VGA::new(), fs, pcb: ProcessControlBlock::new(), keys: ScancodeBuffer::new() }
    }

    fn call(&mut self, num: u64, a1: u64, a2: u64, bytes: &[u8]) -> u64 {
        syscall_dispatch(num, a1, a2, 0, bytes, &mut self.vga, &mut self.fs, &mut self.pcb, &mut self.keys, 42)
    }
}

#[test]
fn syscall_console_output() {
    let mut m = Machine::new();
    assert_eq!(m.call(SYS_WRITE_CONSOLE, 0x1000, 2, b"hi"), 0);
    assert_eq!(m.vga.glyph_at(0, 0), b'h');
    assert_eq!(m.call(SYS_WRITE_CONSOLE, 0, 2, b"hi"), 1);
    assert_eq!(m.call(SYS_WRITE_CONSOLE, 0x1000, 0, b""), 1);
    assert_eq!(m.call(SYS_WRITE_CONSOLE, 0x1000, 1, &[0xFF]), 1);
    assert_eq!(m.vga.get_cursor_position(), (0, 2));
}

#[test]
fn syscall_keyboard() {
    let mut m = Machine::new();
    assert_eq!(m.call(SYS_READ_KEYBOARD, 0, 0, &[]), 0);
    m.keys.push(0x1E);
    assert_eq!(m.call(SYS_READ_KEYBOARD, 0, 0, &[]), 0x1E);
    assert_eq!(m.keys.pop(), None);
}

#[test]
fn syscall_resources() {
    let mut m = Machine::new();
    assert_eq!(m.call(SYS_ALLOCATE_RAM, 4096, 0, &[]), 0);
    assert_eq!(m.pcb.ram_mgr.allocated_bytes, 4096);
    assert_eq!(m.call(SYS_ALLOCATE_RAM, 8 * 1024 * 1024, 0, &[]), 1);
    assert_eq!(m.call(SYS_ALLOCATE_DISK, 100, 0, &[]), 0);
    assert_eq!(m.pcb.disk_mgr.allocated_bytes, 100);
    assert_eq!(m.call(SYS_REQUEST_NET, 1_000, 0, &[]), 0);
    assert_eq!(m.call(SYS_REQUEST_NET, 1_000_000, 0, &[]), 1);
    assert_eq!(m.pcb.net_mgr.available_tokens, 999_000);
    assert_eq!(m.call(SYS_GET_SYS_STATS, 0, 0, &[]), 0);
}

#[test]
fn syscall_files() {
    let mut m = Machine::new();
    assert_eq!(m.call(SYS_FS_OPEN, 0x2000, 6, b"/x.txt"), 1);
    assert_eq!(m.call(SYS_FS_WRITE, 0x2000, 6, b"/x.txt"), 0);
    assert_eq!(m.call(SYS_FS_OPEN, 0x2000, 6, b"/x.txt"), 0);
    assert_eq!(m.call(SYS_FS_READ, 0x2000, 5, b"x.txt"), 0);
    assert_eq!(m.fs.read_file(&[], "x.txt"), Ok(String::new()));
    assert_eq!(m.call(SYS_FS_DELETE, 0x2000, 6, b"/x.txt"), 0);
    assert_eq!(m.call(SYS_FS_DELETE, 0x2000, 6, b"/x.txt"), 1);
    assert_eq!(m.call(SYS_FS_READ, 0, 6, b"/x.txt"), 1);
}

#[test]
fn syscall_misc_numbers() {
    let mut m = Machine::new();
    assert_eq!(m.call(SYS_THREAD_YIELD, 0, 0, &[]), 0);
    assert_eq!(m.call(SYS_IPC_SEND, 0, 0, &[]), 0);
    assert_eq!(m.call(SYS_MUTEX_LOCK, 0, 0, &[]), 0);
    assert_eq!(m.call(0, 0, 0, &[]), SYS_UNKNOWN);
    assert_eq!(m.call(0x10, 0, 0, &[]), 0xFFFF_FFFF);
}

#[test]
fn ring1_name_table_falls_back_to_gateway() {
    assert_eq!(resolve_domain_name("duckduckgo.com").unwrap().0, [52, 142, 124, 215]);
    assert_eq!(resolve_domain_name("elsewhere.net").unwrap().0, [10, 0, 2, 2]);
}

#[test]
fn ring1_http_serves_built_in_pages() {
    let r = http_get("https://html.duckduckgo.com/html").unwrap();
    assert_eq!(r.status_code, 200);
    assert_eq!(r.headers, vec![("Content-Type".to_string(), "text/html".to_string())]);
    assert!(r.body.contains("GitHub Software"));
    let n = http_get("http://text.npr.org").unwrap();
    assert!(n.body.contains("NPR News Feed"));
    let e = http_get("example.com/page").unwrap();
    assert!(e.body.contains("Example Domain"));
}
