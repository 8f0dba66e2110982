//! Secondary storage: the block device of 1024-byte blocks and its
//! allocation bitmap. Blocks 0 (superblock) and 1 (bitmap) are reserved.
//! The device contents are held here; mirroring them to the ATA disk through
//! its I/O ports is the caller's part.
use vstd::prelude::*;
use crate::config::storage::{DISK_BLOCK_SIZE, TOTAL_DISK_BLOCKS};

verus! {

/// One disk block (`DISK_BLOCK_SIZE` bytes).
pub type DiskBlock = Vec<u8>;

/// Bytes of the allocation bitmap.
pub const BITMAP_BYTES: usize = 512;

/// First block that may be allocated.
pub const FIRST_DATA_BLOCK: usize = 2;

/// A block of zeros.
pub open spec fn zero_block() -> Seq<u8> {
    Seq::new(DISK_BLOCK_SIZE as nat, |i: int| 0u8)
}

/// Whether bit `k` of `byte` is set.
pub open spec fn bit_of(byte: u8, k: int) -> bool {
    byte & (1u8 << (k as u8)) != 0u8
}

proof fn lemma_bit_set(x: u8, b: u8, c: u8)
    requires
        b < 8,
        c < 8,
    ensures
        ((x | (1u8 << b)) & (1u8 << c) != 0u8) == (b == c || (x & (1u8 << c)) != 0u8),
{
    assert(((x | (1u8 << b)) & (1u8 << c) != 0u8) == (b == c || (x & (1u8 << c)) != 0u8)) by (bit_vector)
        requires
            b < 8,
            c < 8,
    ;
}

proof fn lemma_bit_clear(x: u8, b: u8, c: u8)
    requires
        b < 8,
        c < 8,
    ensures
        ((x & !(1u8 << b)) & (1u8 << c) != 0u8) == (b != c && (x & (1u8 << c)) != 0u8),
{
    assert(((x & !(1u8 << b)) & (1u8 << c) != 0u8) == (b != c && (x & (1u8 << c)) != 0u8)) by (bit_vector)
        requires
            b < 8,
            c < 8,
    ;
}

proof fn lemma_zero_bits(c: u8)
    requires
        c < 8,
    ensures
        (0u8 & (1u8 << c)) == 0u8,
{
    assert((0u8 & (1u8 << c)) == 0u8) by (bit_vector);
}

/// Freeing the block that an allocation just marked restores the bitmap.
pub proof fn lemma_free_undoes_allocate(allocated: Seq<bool>, id: int)
    requires
        0 <= id < allocated.len(),
        !allocated[id],
    ensures
        allocated.update(id, true).update(id, false) == allocated,
{
    assert(allocated.update(id, true).update(id, false) =~= allocated);
}

/// A block reads back what was last written to it; other blocks keep theirs.
pub proof fn lemma_read_after_write(contents: Seq<Seq<u8>>, id: int, data: Seq<u8>, other: int)
    requires
        0 <= id < contents.len(),
        0 <= other < contents.len(),
        other != id,
    ensures
        contents.update(id, data)[id] == data,
        contents.update(id, data)[other] == contents[other],
{
}

/// Disk controller: block contents and allocation bitmap.
pub struct DiskController {
    initialized: bool,
    total_blocks: u64,
    free_bitmap: Vec<u8>,
    blocks: Vec<DiskBlock>,
}

impl DiskController {
    /// Sizes of the bitmap and blocks fit the volume, and once the disk is
    /// up the superblock and bitmap blocks (0 and 1) are marked in use.
    pub closed spec fn inv(&self) -> bool {
        &&& self.free_bitmap@.len() == BITMAP_BYTES
        &&& self.blocks@.len() == TOTAL_DISK_BLOCKS
        &&& forall|i: int| 0 <= i < TOTAL_DISK_BLOCKS ==> (#[trigger] self.blocks@[i])@.len() == DISK_BLOCK_SIZE
        &&& self.total_blocks == TOTAL_DISK_BLOCKS
        &&& self.initialized ==> self.allocated()[0] && self.allocated()[1]
    }

    /// Whether block `i` is marked allocated.
    pub closed spec fn allocated(&self) -> Seq<bool> {
        Seq::new(TOTAL_DISK_BLOCKS as nat, |i: int| bit_of(self.free_bitmap@[i / 8], i % 8))
    }

    /// Contents of every block.
    pub closed spec fn contents(&self) -> Seq<Seq<u8>> {
        Seq::new(TOTAL_DISK_BLOCKS as nat, |i: int| self.blocks@[i]@)
    }

    pub closed spec fn is_initialized(&self) -> bool {
        self.initialized
    }

    /// On a disk that is up, blocks 0 and 1 are always marked in use.
    pub proof fn lemma_reserved_blocks(&self)
        requires
            self.inv(),
            self.is_initialized(),
        ensures
            self.allocated()[0],
            self.allocated()[1],
    {
    }

    pub proof fn lemma_contents_len(&self, i: int)
        requires
            self.inv(),
            0 <= i < TOTAL_DISK_BLOCKS,
        ensures
            self.contents()[i].len() == DISK_BLOCK_SIZE,
            self.contents().len() == TOTAL_DISK_BLOCKS,
            self.allocated().len() == TOTAL_DISK_BLOCKS,
    {
    }

    /// A blank volume: every block zero and free.
    pub fn new() -> (r: Self)
        ensures
            r.inv(),
            !r.is_initialized(),
            r.allocated() == Seq::new(TOTAL_DISK_BLOCKS as nat, |i: int| false),
            r.contents() == Seq::new(TOTAL_DISK_BLOCKS as nat, |i: int| zero_block()),
    {
        let mut blocks: Vec<DiskBlock> = Vec::new();
        for i in 0..TOTAL_DISK_BLOCKS
            invariant
                blocks@.len() == i,
                forall|j: int| 0 <= j < i ==> (#[trigger] blocks@[j])@ == zero_block(),
        {
            let b = vec![0u8; DISK_BLOCK_SIZE];
            assert(b@ =~= zero_block());
            blocks.push(b);
        }
        let r = DiskController {
            initialized: false,
            total_blocks: TOTAL_DISK_BLOCKS as u64,
            free_bitmap: vec![0u8; BITMAP_BYTES],
            blocks,
        };
        assert forall|i: int| 0 <= i < TOTAL_DISK_BLOCKS implies !(#[trigger] r.allocated()[i]) by {
            lemma_zero_bits((i % 8) as u8);
        }
        assert(r.allocated() =~= Seq::new(TOTAL_DISK_BLOCKS as nat, |i: int| false));
        assert(r.contents() =~= Seq::new(TOTAL_DISK_BLOCKS as nat, |i: int| zero_block()));
        r
    }

    /// Reserves the superblock and bitmap blocks the first time it is called.
    pub fn init(&mut self)
        requires
            old(self).inv(),
        ensures
            final(self).inv(),
            final(self).is_initialized(),
            final(self).contents() == old(self).contents(),
            old(self).is_initialized() ==> final(self).allocated() == old(self).allocated(),
            !old(self).is_initialized() ==> final(self).allocated() == old(self).allocated().update(0, true).update(1, true),
    {
        if !self.initialized {
            self.set_bit(0, true);
            self.set_bit(1, true);
            self.initialized = true;
        }
    }

    /// Copies block `block_id` into `buf`.
    pub fn read_block(&self, block_id: u64, buf: &mut DiskBlock) -> (r: Result<(), &'static str>)
        requires
            self.inv(),
        ensures
            block_id >= TOTAL_DISK_BLOCKS ==> r == Err::<(), &'static str>("Block ID out of bounds") && final(buf)@ == old(buf)@,
            block_id < TOTAL_DISK_BLOCKS ==> r is Ok && final(buf)@ == self.contents()[block_id as int],
    {
        if block_id >= TOTAL_DISK_BLOCKS as u64 {
            return Err("Block ID out of bounds");
        }
        let src = &self.blocks[block_id as usize];
        *buf = src.clone();
        assert(buf@ =~= src@);
        Ok(())
    }

    /// Overwrites block `block_id` with `buf`.
    pub fn write_block(&mut self, block_id: u64, buf: &DiskBlock) -> (r: Result<(), &'static str>)
        requires
            old(self).inv(),
            buf@.len() == DISK_BLOCK_SIZE,
        ensures
            final(self).inv(),
            final(self).is_initialized() == old(self).is_initialized(),
            final(self).allocated() == old(self).allocated(),
            block_id >= TOTAL_DISK_BLOCKS ==> r == Err::<(), &'static str>("Block ID out of bounds")
                && final(self).contents() == old(self).contents(),
            block_id < TOTAL_DISK_BLOCKS ==> r is Ok
                && final(self).contents() == old(self).contents().update(block_id as int, buf@),
    {
        if block_id >= TOTAL_DISK_BLOCKS as u64 {
            return Err("Block ID out of bounds");
        }
        let copy = buf.clone();
        assert(copy@ =~= buf@);
        self.blocks.set(block_id as usize, copy);
        assert(self.contents() =~= old(self).contents().update(block_id as int, buf@));
        Ok(())
    }

    /// Allocates the lowest free block from block 2 on and zeroes it.
    pub fn allocate_block(&mut self) -> (r: Result<u64, &'static str>)
        requires
            old(self).inv(),
        ensures
            final(self).inv(),
            final(self).is_initialized() == old(self).is_initialized(),
            r is Err <==> (forall|i: int| FIRST_DATA_BLOCK <= i < TOTAL_DISK_BLOCKS ==> old(self).allocated()[i]),
            r is Err ==> r == Err::<u64, &'static str>("Disk storage full") && *final(self) == *old(self),
            r matches Ok(id) ==> {
                &&& FIRST_DATA_BLOCK <= id < TOTAL_DISK_BLOCKS
                &&& !old(self).allocated()[id as int]
                &&& forall|i: int| FIRST_DATA_BLOCK <= i < id ==> old(self).allocated()[i]
                &&& final(self).allocated() == old(self).allocated().update(id as int, true)
                &&& final(self).contents() == old(self).contents().update(id as int, zero_block())
            },
    {
        for block_id in FIRST_DATA_BLOCK..TOTAL_DISK_BLOCKS
            invariant
                self.inv(),
                *self == *old(self),
                forall|i: int| FIRST_DATA_BLOCK <= i < block_id ==> old(self).allocated()[i],
        {
            if !self.get_bit(block_id) {
                self.set_bit(block_id, true);
                let empty_block = vec![0u8; DISK_BLOCK_SIZE];
                assert(empty_block@ =~= zero_block());
                let _ = self.write_block(block_id as u64, &empty_block);
                return Ok(block_id as u64);
            }
        }
        Err("Disk storage full")
    }

    /// Marks block `block_id` as in use without touching its contents; ids
    /// out of range are ignored.
    pub(crate) fn reserve_block(&mut self, block_id: u64)
        requires
            old(self).inv(),
        ensures
            final(self).inv(),
            final(self).is_initialized() == old(self).is_initialized(),
            final(self).contents() == old(self).contents(),
            block_id < TOTAL_DISK_BLOCKS ==> final(self).allocated() == old(self).allocated().update(block_id as int, true),
            block_id >= TOTAL_DISK_BLOCKS ==> final(self).allocated() == old(self).allocated(),
    {
        if block_id < TOTAL_DISK_BLOCKS as u64 {
            self.set_bit(block_id as usize, true);
        }
    }

    /// Returns a block to the pool; the reserved blocks and ids out of range are ignored.
    pub fn free_block(&mut self, block_id: u64)
        requires
            old(self).inv(),
        ensures
            final(self).inv(),
            final(self).is_initialized() == old(self).is_initialized(),
            final(self).contents() == old(self).contents(),
            FIRST_DATA_BLOCK <= block_id < TOTAL_DISK_BLOCKS ==> final(self).allocated() == old(self).allocated().update(block_id as int, false),
            !(FIRST_DATA_BLOCK <= block_id < TOTAL_DISK_BLOCKS) ==> final(self).allocated() == old(self).allocated(),
    {
        if block_id >= FIRST_DATA_BLOCK as u64 && block_id < TOTAL_DISK_BLOCKS as u64 {
            self.set_bit(block_id as usize, false);
        }
    }

    fn get_bit(&self, index: usize) -> (r: bool)
        requires
            self.inv(),
            index < TOTAL_DISK_BLOCKS,
        ensures
            r == self.allocated()[index as int],
    {
        let byte_idx = index / 8;
        let bit_idx = index % 8;
        (self.free_bitmap[byte_idx] & (1u8 << (bit_idx as u8))) != 0
    }

    fn set_bit(&mut self, index: usize, value: bool)
        requires
            old(self).inv(),
            index < TOTAL_DISK_BLOCKS,
            old(self).initialized && !value ==> index >= FIRST_DATA_BLOCK,
        ensures
            final(self).inv(),
            final(self).initialized == old(self).initialized,
            final(self).contents() == old(self).contents(),
            final(self).allocated() == old(self).allocated().update(index as int, value),
    {
        let byte_idx = index / 8;
        let bit_idx = index % 8;
        let old_byte = self.free_bitmap[byte_idx];
        let new_byte = if value { old_byte | (1u8 << (bit_idx as u8)) } else { old_byte & !(1u8 << (bit_idx as u8)) };
        self.free_bitmap.set(byte_idx, new_byte);
        assert forall|i: int| 0 <= i < TOTAL_DISK_BLOCKS implies #[trigger] self.allocated()[i] == old(self).allocated().update(index as int, value)[i] by {
            if i / 8 == byte_idx {
                if value {
                    lemma_bit_set(old_byte, bit_idx as u8, (i % 8) as u8);
                } else {
                    lemma_bit_clear(old_byte, bit_idx as u8, (i % 8) as u8);
                }
            }
        }
        assert(self.allocated() =~= old(self).allocated().update(index as int, value));
        assert(self.contents() =~= old(self).contents());
    }
}

} // verus!
