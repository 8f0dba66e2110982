//! Segment selectors of the privilege rings.
use vstd::prelude::*;

verus! {

pub const KERNEL_CODE_SEL: u16 = 0x08;
pub const KERNEL_DATA_SEL: u16 = 0x10;
pub const DRIVER_CODE_SEL: u16 = 0x1B;
pub const DRIVER_DATA_SEL: u16 = 0x23;
pub const USER_CODE_SEL: u16 = 0x2B;
pub const USER_DATA_SEL: u16 = 0x33;
pub const TSS_SEL: u16 = 0x3B;
pub const SYSCALL_INT_VECTOR: u8 = 0x80;

} // verus!
