//! Ring 1 services: block storage, the virtual address table, the filesystem
//! and the network stack used by the system call gate.
pub mod disk;
pub mod vat;
pub mod fs;
pub mod network;
