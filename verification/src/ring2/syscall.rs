//! The system call gate of the user ring: the call numbers and the
//! dispatcher that turns a call into console output, a key from the
//! scancode queue, a resource request or a filesystem operation, answered
//! with 0 for success and 1 for failure.
use vstd::prelude::*;
use vstd::utf8::{decode_utf8, valid_utf8};
use crate::fs::{
    FileSystem, delete_result, file_read, file_text, file_written, node_deleted, path_text, resolved, segs_view, write_result,
};
use crate::interrupts::ScancodeBuffer;
use crate::process::{ProcessControlBlock, ProcessResourceRequest, ProcessResourceResponse};
use crate::ring2::shell::pcb_unchanged;
use crate::vga::VGA;

verus! {

pub const SYS_WRITE_CONSOLE: u64 = 0x01;
pub const SYS_READ_KEYBOARD: u64 = 0x02;
pub const SYS_ALLOCATE_RAM: u64 = 0x03;
pub const SYS_ALLOCATE_DISK: u64 = 0x04;
pub const SYS_REQUEST_NET: u64 = 0x05;
pub const SYS_GET_SYS_STATS: u64 = 0x06;
pub const SYS_FS_OPEN: u64 = 0x07;
pub const SYS_FS_READ: u64 = 0x08;
pub const SYS_FS_WRITE: u64 = 0x09;
pub const SYS_FS_DELETE: u64 = 0x0A;
pub const SYS_THREAD_YIELD: u64 = 0x0B;
pub const SYS_IPC_SEND: u64 = 0x0C;
pub const SYS_IPC_RECV: u64 = 0x0D;
pub const SYS_MUTEX_LOCK: u64 = 0x0E;
pub const SYS_MUTEX_UNLOCK: u64 = 0x0F;

/// Answer to an unknown call number.
pub const SYS_UNKNOWN: u64 = 0xFFFFFFFF;

/// Whether a call passes text: a non-null address, a positive length and
/// bytes that are valid UTF-8.
pub open spec fn text_argument(addr: u64, len: u64, bytes: Seq<u8>) -> bool {
    addr != 0 && len > 0 && valid_utf8(bytes)
}

/// The path a call names, resolved from the root; the root itself is
/// addressed as a parent with an empty name.
pub open spec fn call_path(text: Seq<char>) -> Seq<char> {
    let segs = resolved(Seq::empty(), text);
    if segs.len() == 0 {
        path_text(seq![Seq::<char>::empty()])
    } else {
        path_text(segs)
    }
}

/// Whether a resource call can be served without overflowing the counters.
pub open spec fn call_in_range(pcb: ProcessControlBlock, sys_num: u64, arg1: u64) -> bool {
    &&& sys_num == SYS_ALLOCATE_RAM ==> pcb.ram_mgr.allocated_bytes + (arg1 as usize) <= usize::MAX
    &&& sys_num == SYS_ALLOCATE_DISK ==> pcb.disk_mgr.allocated_bytes + (arg1 as usize) <= usize::MAX
}

/// The segments of the path text, resolved from the root.
fn resolve_call_path(fs: &FileSystem, path: &str) -> (r: Vec<String>)
    ensures
        segs_view(r@) == resolved(Seq::empty(), path@),
{
    let root: Vec<String> = Vec::new();
    proof {
        lemma_segs_view_empty(root@);
    }
    fs.resolve_path(root.as_slice(), path)
}

/// Parent and name split off resolved segments name the call's path.
proof fn lemma_split_target(segs: Seq<String>, parent: Seq<String>, name: Seq<char>, text: Seq<char>)
    requires
        segs_view(segs) == resolved(Seq::empty(), text),
        segs.len() == 0 ==> parent.len() == 0 && name == Seq::<char>::empty(),
        segs.len() > 0 ==> parent == segs.drop_last() && name == segs.last()@,
    ensures
        path_text(segs_view(parent).push(name)) == call_path(text),
{
    crate::fs::lemma_segs_view(segs);
    crate::fs::lemma_segs_view(parent);
    if segs.len() == 0 {
        assert(segs_view(parent).push(name) =~= seq![Seq::<char>::empty()]);
    } else {
        assert(segs_view(parent).push(name) =~= segs_view(segs));
    }
}

proof fn lemma_segs_view_empty(v: Seq<String>)
    requires
        v.len() == 0,
    ensures
        segs_view(v) == Seq::<Seq<char>>::empty(),
{
    crate::fs::lemma_segs_view(v);
    assert(segs_view(v) =~= Seq::<Seq<char>>::empty());
}

/// Dispatches a system call. `user_bytes` are the `arg2` bytes of user
/// memory at address `arg1`, read by the caller for the calls that pass
/// text (console output and the filesystem calls).
pub fn syscall_dispatch(
    sys_num: u64,
    arg1: u64,
    arg2: u64,
    arg3: u64,
    user_bytes: &[u8],
    vga: &mut VGA,
    fs: &mut FileSystem,
    pcb: &mut ProcessControlBlock,
    scancodes: &mut ScancodeBuffer,
    ticks: u64,
) -> (r: u64)
    requires
        old(vga).inv(),
        old(fs).wf(),
        old(scancodes).inv(),
        call_in_range(*old(pcb), sys_num, arg1),
    ensures
        final(vga).inv(),
        final(fs).wf(),
        final(scancodes).inv(),
        sys_num != SYS_WRITE_CONSOLE ==> final(vga)@ == old(vga)@,
        sys_num != SYS_READ_KEYBOARD ==> final(scancodes)@ == old(scancodes)@,
        sys_num != SYS_FS_WRITE && sys_num != SYS_FS_DELETE && sys_num != SYS_FS_OPEN && sys_num != SYS_FS_READ
            ==> *final(fs) == *old(fs),
        sys_num != SYS_ALLOCATE_RAM && sys_num != SYS_ALLOCATE_DISK && sys_num != SYS_REQUEST_NET ==> pcb_unchanged(
            *old(pcb),
            *final(pcb),
        ),
        sys_num == SYS_WRITE_CONSOLE ==> if text_argument(arg1, arg2, user_bytes@) {
            r == 0 && final(vga)@ == old(vga)@.write(decode_utf8(user_bytes@))
        } else {
            r == 1 && final(vga)@ == old(vga)@
        },
        sys_num == SYS_READ_KEYBOARD ==> if old(scancodes)@.len() > 0 {
            r == old(scancodes)@[0] as u64 && final(scancodes)@ == old(scancodes)@.drop_first()
        } else {
            r == 0 && final(scancodes)@ == old(scancodes)@
        },
        sys_num == SYS_ALLOCATE_RAM ==> {
            let bytes = arg1 as usize;
            let ok = old(pcb).ram_mgr.allocated_bytes + bytes <= old(pcb).ram_mgr.total_quota_bytes;
            &&& r == if ok { 0u64 } else { 1u64 }
            &&& final(pcb).ram_mgr.allocated_bytes == if ok {
                old(pcb).ram_mgr.allocated_bytes + bytes
            } else {
                old(pcb).ram_mgr.allocated_bytes as int
            }
            &&& final(pcb).ram_mgr.total_quota_bytes == old(pcb).ram_mgr.total_quota_bytes
            &&& final(pcb).disk_mgr == old(pcb).disk_mgr
            &&& final(pcb).net_mgr == old(pcb).net_mgr
            &&& final(pcb).threads@ == old(pcb).threads@
            &&& final(pcb).pid == old(pcb).pid
        },
        sys_num == SYS_ALLOCATE_DISK ==> {
            let bytes = arg1 as usize;
            let ok = old(pcb).disk_mgr.allocated_bytes + bytes <= old(pcb).disk_mgr.total_quota_bytes;
            &&& r == if ok { 0u64 } else { 1u64 }
            &&& final(pcb).disk_mgr.allocated_bytes == if ok {
                old(pcb).disk_mgr.allocated_bytes + bytes
            } else {
                old(pcb).disk_mgr.allocated_bytes as int
            }
            &&& final(pcb).disk_mgr.total_quota_bytes == old(pcb).disk_mgr.total_quota_bytes
            &&& final(pcb).ram_mgr == old(pcb).ram_mgr
            &&& final(pcb).net_mgr == old(pcb).net_mgr
            &&& final(pcb).threads@ == old(pcb).threads@
            &&& final(pcb).pid == old(pcb).pid
        },
        sys_num == SYS_REQUEST_NET ==> {
            let ok = old(pcb).net_mgr.available_tokens >= arg1;
            &&& r == if ok { 0u64 } else { 1u64 }
            &&& final(pcb).net_mgr.available_tokens == if ok {
                old(pcb).net_mgr.available_tokens - arg1
            } else {
                old(pcb).net_mgr.available_tokens as int
            }
            &&& final(pcb).net_mgr.rate_limit_bytes_per_sec == old(pcb).net_mgr.rate_limit_bytes_per_sec
            &&& final(pcb).ram_mgr == old(pcb).ram_mgr
            &&& final(pcb).disk_mgr == old(pcb).disk_mgr
            &&& final(pcb).threads@ == old(pcb).threads@
            &&& final(pcb).pid == old(pcb).pid
        },
        sys_num == SYS_GET_SYS_STATS ==> r == 0,
        sys_num == SYS_FS_OPEN || sys_num == SYS_FS_READ ==> {
            &&& r == if text_argument(arg1, arg2, user_bytes@) && file_text(*old(fs), call_path(decode_utf8(user_bytes@))) is Ok {
                0u64
            } else {
                1u64
            }
            &&& if text_argument(arg1, arg2, user_bytes@) {
                file_read(*old(fs), *final(fs), call_path(decode_utf8(user_bytes@)))
            } else {
                *final(fs) == *old(fs)
            }
        },
        sys_num == SYS_FS_WRITE ==> if text_argument(arg1, arg2, user_bytes@) {
            let p = call_path(decode_utf8(user_bytes@));
            &&& r == if write_result(*old(fs), p, Seq::empty()) is Ok { 0u64 } else { 1u64 }
            &&& file_written(*old(fs), *final(fs), p, Seq::empty(), ticks)
        } else {
            r == 1 && *final(fs) == *old(fs)
        },
        sys_num == SYS_FS_DELETE ==> if text_argument(arg1, arg2, user_bytes@) {
            let p = call_path(decode_utf8(user_bytes@));
            &&& r == if delete_result(*old(fs), p) is Ok { 0u64 } else { 1u64 }
            &&& node_deleted(*old(fs), *final(fs), p)
        } else {
            r == 1 && *final(fs) == *old(fs)
        },
        sys_num == SYS_THREAD_YIELD || sys_num == SYS_IPC_SEND || sys_num == SYS_IPC_RECV || sys_num
            == SYS_MUTEX_LOCK || sys_num == SYS_MUTEX_UNLOCK ==> r == 0,
        sys_num == 0 || sys_num > SYS_MUTEX_UNLOCK ==> r == SYS_UNKNOWN,
{
    if sys_num == SYS_WRITE_CONSOLE {
        if arg1 != 0 && arg2 > 0 {
            if let Some(text) = crate::text::decode_utf8_strict(vstd::slice::slice_to_vec(user_bytes)) {
                vga.write(text.as_str());
                return 0;
            }
        }
        1
    } else if sys_num == SYS_READ_KEYBOARD {
        match crate::interrupts::pop_scancode(scancodes) {
            Some(event) => event as u64,
            None => 0,
        }
    } else if sys_num == SYS_ALLOCATE_RAM {
        #[verifier::truncate]
        let bytes = arg1 as usize;
        match pcb.handle(ProcessResourceRequest::AllocateRam(bytes)) {
            ProcessResourceResponse::Success => 0,
            _ => 1,
        }
    } else if sys_num == SYS_ALLOCATE_DISK {
        #[verifier::truncate]
        let bytes = arg1 as usize;
        match pcb.handle(ProcessResourceRequest::AllocateDisk(bytes)) {
            ProcessResourceResponse::Success => 0,
            _ => 1,
        }
    } else if sys_num == SYS_REQUEST_NET {
        match pcb.handle(ProcessResourceRequest::RequestNetBandwidth(arg1)) {
            ProcessResourceResponse::Granted(true) => 0,
            _ => 1,
        }
    } else if sys_num == SYS_GET_SYS_STATS {
        match pcb.handle(ProcessResourceRequest::GetSystemResourceStats) {
            ProcessResourceResponse::Stats(_stats) => 0,
            _ => 1,
        }
    } else if sys_num == SYS_FS_OPEN || sys_num == SYS_FS_READ {
        if arg1 != 0 && arg2 > 0 {
            if let Some(path) = crate::text::decode_utf8_strict(vstd::slice::slice_to_vec(user_bytes)) {
                let segs = resolve_call_path(fs, path.as_str());
                let (parent, name) = fs.split_parent_and_name(segs.as_slice());
                proof {
                    lemma_split_target(segs@, parent@, name@, path@);
                }
                if fs.read_file(parent, name).is_ok() {
                    return 0;
                }
            }
        }
        1
    } else if sys_num == SYS_FS_WRITE {
        if arg1 != 0 && arg2 > 0 {
            if let Some(path) = crate::text::decode_utf8_strict(vstd::slice::slice_to_vec(user_bytes)) {
                let segs = resolve_call_path(fs, path.as_str());
                let (parent, name) = fs.split_parent_and_name(segs.as_slice());
                proof {
                    lemma_split_target(segs@, parent@, name@, path@);
                }
                proof {
                    reveal_strlit("");
                }
                if fs.write_file(parent, name, "", ticks).is_ok() {
                    return 0;
                }
                return 1;
            }
        }
        1
    } else if sys_num == SYS_FS_DELETE {
        if arg1 != 0 && arg2 > 0 {
            if let Some(path) = crate::text::decode_utf8_strict(vstd::slice::slice_to_vec(user_bytes)) {
                let segs = resolve_call_path(fs, path.as_str());
                let (parent, name) = fs.split_parent_and_name(segs.as_slice());
                proof {
                    lemma_split_target(segs@, parent@, name@, path@);
                }
                if fs.delete_node(parent, name).is_ok() {
                    return 0;
                }
                return 1;
            }
        }
        1
    } else if sys_num == SYS_THREAD_YIELD {
        0
    } else if sys_num == SYS_IPC_SEND || sys_num == SYS_IPC_RECV {
        0
    } else if sys_num == SYS_MUTEX_LOCK || sys_num == SYS_MUTEX_UNLOCK {
        0
    } else {
        SYS_UNKNOWN
    }
}

} // verus!
