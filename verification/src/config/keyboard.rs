//! PS/2 controller ports.
use vstd::prelude::*;

verus! {

pub const DATA_PORT: u16 = 0x60;
pub const STATUS_PORT: u16 = 0x64;

} // verus!
