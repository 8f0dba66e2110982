//! Primary ATA controller ports.
use vstd::prelude::*;

verus! {

pub const PRIMARY_ATA_DATA: u16 = 0x1F0;
pub const PRIMARY_ATA_ERROR: u16 = 0x1F1;
pub const PRIMARY_ATA_SECTOR_COUNT: u16 = 0x1F2;
pub const PRIMARY_ATA_LBA_LOW: u16 = 0x1F3;
pub const PRIMARY_ATA_LBA_MID: u16 = 0x1F4;
pub const PRIMARY_ATA_LBA_HIGH: u16 = 0x1F5;
pub const PRIMARY_ATA_DEVICE_SELECT: u16 = 0x1F6;
pub const PRIMARY_ATA_COMMAND_STATUS: u16 = 0x1F7;
pub const PRIMARY_ATA_CONTROL: u16 = 0x3F6;

} // verus!
