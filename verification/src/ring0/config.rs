//! Ring 0 view of the architecture parameters (shared with the kernel core).
pub use crate::config::{ata, gdt, interrupts, keyboard, memory, network, process, scheduler, storage, vga};
