//! PCI configuration ports.
use vstd::prelude::*;

verus! {

pub const PCI_CONFIG_ADDR: u16 = 0xCF8;
pub const PCI_CONFIG_DATA: u16 = 0xCFC;

} // verus!
