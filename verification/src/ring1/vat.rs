//! Ring 1 virtual address table: the one of the kernel core.
pub use crate::vat::{PageCache, VatEntry, VirtualAddressTable};
