//! VGA text mode geometry and CRT controller ports.
use vstd::prelude::*;

verus! {

pub const BUFFER_ADDRESS: usize = 0xB8000;
pub const BUFFER_WIDTH: usize = 80;
pub const BUFFER_HEIGHT: usize = 25;
pub const CRTC_ADDR_PORT: u16 = 0x3D4;
pub const CRTC_DATA_PORT: u16 = 0x3D5;

} // verus!
