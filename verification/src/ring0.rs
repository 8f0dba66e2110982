//! Ring 0 variants: kernel core, console, keyboard, interrupts and scheduler.
pub mod config;
pub mod interrupts;
pub mod vga;
pub mod keyboard;
pub mod scheduler;
pub mod kernel;
