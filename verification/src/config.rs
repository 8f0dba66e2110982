//! Architecture, port, memory-layout, storage and scheduling parameters.
pub mod ata;
pub mod gdt;
pub mod interrupts;
pub mod keyboard;
pub mod memory;
pub mod network;
pub mod process;
pub mod scheduler;
pub mod storage;
pub mod vga;
