//! AliluOS kernel logic: console screen model, keyboard translation, scancode
//! queue, resource manager, scheduler, block storage, on-disk index and
//! filesystem, networking helpers, shell and games, verified with Verus.
#![allow(unused_imports)]

pub mod allocator;
pub mod interrupts;
pub mod config;
pub mod ring0;
pub mod ring1;
pub mod vga;
pub mod keyboard;
pub mod thread;
pub mod process;
pub mod scheduler;
pub mod disk;
pub mod text;
pub mod btree;
pub mod vat;
pub mod fs;
pub mod consistency;
pub mod console;
pub mod shell;
pub mod ring2;
pub mod game;
pub mod kernel;
pub mod network;
