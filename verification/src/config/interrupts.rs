//! Interrupt controller and timer ports.
use vstd::prelude::*;

verus! {

pub const PIC1_COMMAND: u16 = 0x20;
pub const PIC1_DATA: u16 = 0x21;
pub const PIC2_COMMAND: u16 = 0xA0;
pub const PIC2_DATA: u16 = 0xA1;
pub const PIT_COMMAND: u16 = 0x43;
pub const PIT_DATA0: u16 = 0x40;
pub const DEBUG_EXIT_PORT: u16 = 0xF4;

} // verus!
