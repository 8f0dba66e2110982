//! Block storage and on-disk index parameters.
use vstd::prelude::*;

verus! {

/// Size of one disk block in bytes.
pub const DISK_BLOCK_SIZE: usize = 1024;
/// Size of one ATA sector in bytes.
pub const SECTOR_SIZE: usize = 512;
/// Sectors that make up one disk block.
pub const SECTORS_PER_BLOCK: usize = DISK_BLOCK_SIZE / SECTOR_SIZE;
/// Block that holds the superblock.
pub const SUPERBLOCK_BLOCK_ID: u64 = 0;
/// Superblock signature ("ALILUOS1").
pub const SUPERBLOCK_MAGIC: u64 = 0x414C494C554F5331;
/// Number of blocks of the volume (4 MiB).
pub const TOTAL_DISK_BLOCKS: usize = 4096;
/// Branching factor of index nodes.
pub const BTREE_MAX_KEYS: usize = 8;
/// Longest key in bytes.
pub const MAX_KEY_LEN: usize = 64;
/// Most open entries of the virtual address table.
pub const MAX_VAT_ENTRIES: usize = 64;
/// Pages held by the page cache.
pub const PAGE_CACHE_CAPACITY: usize = 32;

} // verus!
