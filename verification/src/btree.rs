//! On-disk index of the filesystem: every entry (path key and metadata) is
//! serialized, in key order, into the leaf block at the root block id.
//!
//! Leaf block layout (little endian): entry count (u32), then per entry the
//! key length (u32), the key's UTF-8 bytes, a directory flag (u8), the size
//! (u64), the creation tick (u64), the number of data blocks (u32) and the
//! data block ids (u64 each). Entries that no longer fit are left out.
use vstd::prelude::*;
use vstd::bytes::{
    spec_u32_from_le_bytes, spec_u32_to_le_bytes, spec_u64_from_le_bytes, spec_u64_to_le_bytes,
    u32_from_le_bytes, u32_to_le_bytes, u64_from_le_bytes, u64_to_le_bytes,
    lemma_auto_spec_u32_to_from_le_bytes, lemma_auto_spec_u64_to_from_le_bytes,
};
use vstd::utf8::{decode_utf8, encode_utf8, valid_utf8, encode_utf8_decode_utf8, encode_utf8_valid_utf8};
use vstd::string::StringSliceAdditionalSpecFns;
use crate::config::storage::{DISK_BLOCK_SIZE, SUPERBLOCK_BLOCK_ID, SUPERBLOCK_MAGIC, TOTAL_DISK_BLOCKS};
use crate::disk::{DiskBlock, DiskController};
use crate::text::{decode_lossy, lossy_utf8, same_text};

verus! {

/// Superblock header.
#[derive(Clone, Copy)]
pub struct Superblock {
    pub magic: u64,
    pub root_block_id: u64,
    pub total_blocks: u64,
    pub free_blocks: u64,
}

/// Metadata of a file or directory.
#[derive(Clone, Debug)]
pub struct BPlusEntryMeta {
    pub is_directory: bool,
    pub size: u64,
    pub created_at: u64,
    pub data_blocks: Vec<u64>,
}

/// One index entry: path key and metadata.
#[derive(Clone, Debug)]
pub struct BPlusLeafEntry {
    pub key: String,
    pub meta: BPlusEntryMeta,
}

/// Abstract metadata.
pub struct MetaView {
    pub is_directory: bool,
    pub size: u64,
    pub created_at: u64,
    pub data_blocks: Seq<u64>,
}

/// Abstract index entry.
pub struct EntryView {
    pub key: Seq<char>,
    pub meta: MetaView,
}

impl BPlusEntryMeta {
    pub open spec fn view(&self) -> MetaView {
        MetaView {
            is_directory: self.is_directory,
            size: self.size,
            created_at: self.created_at,
            data_blocks: self.data_blocks@,
        }
    }

    /// A copy of this metadata.
    pub fn duplicate(&self) -> (r: Self)
        ensures
            r@ == self@,
    {
        let blocks = self.data_blocks.clone();
        assert(blocks@ =~= self.data_blocks@);
        BPlusEntryMeta {
            is_directory: self.is_directory,
            size: self.size,
            created_at: self.created_at,
            data_blocks: blocks,
        }
    }
}

impl BPlusLeafEntry {
    pub open spec fn view(&self) -> EntryView {
        EntryView { key: self.key@, meta: self.meta@ }
    }
}

/// Abstract view of a list of entries.
pub open spec fn entries_view(v: Seq<BPlusLeafEntry>) -> Seq<EntryView> {
    v.map_values(|e: BPlusLeafEntry| e@)
}

pub proof fn lemma_entries_view(v: Seq<BPlusLeafEntry>)
    ensures
        entries_view(v).len() == v.len(),
        forall|i: int| 0 <= i < v.len() ==> #[trigger] entries_view(v)[i] == v[i]@,
{
}

/// Bytes of the fixed fields after the key: flag, size, creation tick, block count.
pub const FIXED_FIELDS: usize = 21;

pub open spec fn read_u32(b: Seq<u8>, off: int) -> u32 {
    spec_u32_from_le_bytes(b.subrange(off, off + 4))
}

pub open spec fn read_u64(b: Seq<u8>, off: int) -> u64 {
    spec_u64_from_le_bytes(b.subrange(off, off + 8))
}

/// Text of stored key bytes: their decoding when valid UTF-8, else the lossy decoding.
pub open spec fn key_text(bytes: Seq<u8>) -> Seq<char> {
    if valid_utf8(bytes) { decode_utf8(bytes) } else { lossy_utf8(bytes) }
}

/// Up to `count` block ids from `off`, stopping at the end of the block.
pub open spec fn parse_ids(b: Seq<u8>, off: int, count: nat) -> Seq<u64>
    decreases count,
{
    if count == 0 || off + 8 > DISK_BLOCK_SIZE {
        Seq::empty()
    } else {
        seq![read_u64(b, off)] + parse_ids(b, off + 8, (count - 1) as nat)
    }
}

/// Up to `remaining` entries from `off`, stopping at the first one whose
/// fixed part does not fit in the block.
pub open spec fn parse_entries(b: Seq<u8>, off: int, remaining: nat) -> Seq<EntryView>
    decreases remaining,
{
    if remaining == 0 || off + 4 > DISK_BLOCK_SIZE {
        Seq::empty()
    } else {
        let k = read_u32(b, off) as int;
        let o1 = off + 4;
        if o1 + k + FIXED_FIELDS > DISK_BLOCK_SIZE {
            Seq::empty()
        } else {
            let o2 = o1 + k;
            let ids = parse_ids(b, o2 + FIXED_FIELDS, read_u32(b, o2 + 17) as nat);
            let e = EntryView {
                key: key_text(b.subrange(o1, o2)),
                meta: MetaView {
                    is_directory: b[o2] != 0,
                    size: read_u64(b, o2 + 1),
                    created_at: read_u64(b, o2 + 9),
                    data_blocks: ids,
                },
            };
            seq![e] + parse_entries(b, o2 + FIXED_FIELDS + 8 * ids.len(), (remaining - 1) as nat)
        }
    }
}

/// The entries stored in a leaf block.
pub open spec fn parse_leaf(b: Seq<u8>) -> Seq<EntryView> {
    parse_entries(b, 4, read_u32(b, 0) as nat)
}

/// UTF-8 bytes of an entry's key.
pub open spec fn key_bytes(e: EntryView) -> Seq<u8> {
    encode_utf8(e.key)
}

/// Little-endian bytes of block ids.
pub open spec fn ids_bytes(ids: Seq<u64>) -> Seq<u8>
    decreases ids.len(),
{
    if ids.len() == 0 {
        Seq::empty()
    } else {
        spec_u64_to_le_bytes(ids[0]) + ids_bytes(ids.drop_first())
    }
}

/// Serialized size of an entry.
pub open spec fn record_len(e: EntryView) -> int {
    4 + key_bytes(e).len() + FIXED_FIELDS + 8 * e.meta.data_blocks.len()
}

/// Serialized form of an entry.
pub open spec fn record(e: EntryView) -> Seq<u8> {
    spec_u32_to_le_bytes(key_bytes(e).len() as u32) + key_bytes(e) + seq![if e.meta.is_directory { 1u8 } else { 0u8 }]
        + spec_u64_to_le_bytes(e.meta.size) + spec_u64_to_le_bytes(e.meta.created_at)
        + spec_u32_to_le_bytes(e.meta.data_blocks.len() as u32) + ids_bytes(e.meta.data_blocks)
}

/// Serialized entries from offset `off`, stopping before the first one that does not fit.
pub open spec fn layout(entries: Seq<EntryView>, off: int) -> Seq<u8>
    decreases entries.len(),
{
    if entries.len() == 0 || off + record_len(entries[0]) > DISK_BLOCK_SIZE {
        Seq::empty()
    } else {
        record(entries[0]) + layout(entries.drop_first(), off + record_len(entries[0]))
    }
}

/// Whether every entry fits when laid out from `off`.
pub open spec fn all_fit(entries: Seq<EntryView>, off: int) -> bool
    decreases entries.len(),
{
    entries.len() == 0 || (off + record_len(entries[0]) <= DISK_BLOCK_SIZE && all_fit(entries.drop_first(), off + record_len(entries[0])))
}

/// Whether a list of entries fits in one leaf block.
pub open spec fn fits_in_leaf(entries: Seq<EntryView>) -> bool {
    all_fit(entries, 4)
}

/// How many entries `layout(entries, off)` writes: those before the first
/// one that does not fit.
pub open spec fn laid_out(entries: Seq<EntryView>, off: int) -> nat
    decreases entries.len(),
{
    if entries.len() == 0 || off + record_len(entries[0]) > DISK_BLOCK_SIZE {
        0
    } else {
        1 + laid_out(entries.drop_first(), off + record_len(entries[0]))
    }
}

/// The entries a leaf block can hold of `entries`: the longest prefix that fits.
pub open spec fn leaf_prefix(entries: Seq<EntryView>) -> Seq<EntryView> {
    entries.take(laid_out(entries, 4) as int)
}

/// The leaf block holding `entries`: the count of the entries written, the
/// serialized entries that fit, zero padding.
pub open spec fn leaf_block(entries: Seq<EntryView>) -> Seq<u8> {
    let body = spec_u32_to_le_bytes(laid_out(entries, 4) as u32) + layout(entries, 4);
    body + Seq::new((DISK_BLOCK_SIZE - body.len()) as nat, |i: int| 0u8)
}

pub proof fn lemma_ids_bytes_len(ids: Seq<u64>)
    ensures
        ids_bytes(ids).len() == 8 * ids.len(),
    decreases ids.len(),
{
    lemma_auto_spec_u64_to_from_le_bytes();
    if ids.len() > 0 {
        lemma_ids_bytes_len(ids.drop_first());
    }
}

pub proof fn lemma_record_len(e: EntryView)
    ensures
        record(e).len() == record_len(e),
{
    lemma_auto_spec_u32_to_from_le_bytes();
    lemma_auto_spec_u64_to_from_le_bytes();
    lemma_ids_bytes_len(e.meta.data_blocks);
}

pub proof fn lemma_layout_len(entries: Seq<EntryView>, off: int)
    ensures
        off <= DISK_BLOCK_SIZE ==> off + layout(entries, off).len() <= DISK_BLOCK_SIZE,
        all_fit(entries, off) ==> layout(entries, off).len() >= 25 * entries.len(),
    decreases entries.len(),
{
    if entries.len() > 0 && off + record_len(entries[0]) <= DISK_BLOCK_SIZE {
        lemma_record_len(entries[0]);
        lemma_layout_len(entries.drop_first(), off + record_len(entries[0]));
    }
}

proof fn lemma_parse_ids(b: Seq<u8>, ids: Seq<u64>, p: int)
    requires
        b.len() == DISK_BLOCK_SIZE,
        0 <= p,
        p + 8 * ids.len() <= DISK_BLOCK_SIZE,
        b.subrange(p, p + 8 * ids.len()) == ids_bytes(ids),
    ensures
        parse_ids(b, p, ids.len()) == ids,
    decreases ids.len(),
{
    lemma_auto_spec_u64_to_from_le_bytes();
    if ids.len() > 0 {
        let rest = ids.drop_first();
        lemma_ids_bytes_len(rest);
        assert(b.subrange(p, p + 8) =~= ids_bytes(ids).subrange(0, 8));
        assert(ids_bytes(ids).subrange(0, 8) =~= spec_u64_to_le_bytes(ids[0]));
        assert(b.subrange(p + 8, p + 8 + 8 * rest.len()) =~= ids_bytes(ids).subrange(8, 8 * ids.len() as int));
        assert(ids_bytes(ids).subrange(8, 8 * ids.len() as int) =~= ids_bytes(rest));
        lemma_parse_ids(b, rest, p + 8);
        assert(parse_ids(b, p, ids.len()) =~= ids);
    }
}

proof fn lemma_parse_layout(b: Seq<u8>, entries: Seq<EntryView>, off: int)
    requires
        b.len() == DISK_BLOCK_SIZE,
        4 <= off <= DISK_BLOCK_SIZE,
        all_fit(entries, off),
        b.subrange(off, off + layout(entries, off).len()) == layout(entries, off),
    ensures
        parse_entries(b, off, entries.len()) == entries,
    decreases entries.len(),
{
    lemma_auto_spec_u32_to_from_le_bytes();
    lemma_auto_spec_u64_to_from_le_bytes();
    if entries.len() > 0 {
        let e = entries[0];
        let rest = entries.drop_first();
        let r = record(e);
        let kb = key_bytes(e);
        let k = kb.len() as int;
        let n = e.meta.data_blocks.len() as int;
        let len0 = record_len(e);
        lemma_record_len(e);
        lemma_ids_bytes_len(e.meta.data_blocks);
        lemma_layout_len(rest, off + len0);
        let lay = layout(entries, off);
        assert(lay =~= r + layout(rest, off + len0));
        assert(b.subrange(off, off + len0) =~= r) by {
            assert(b.subrange(off, off + len0) =~= lay.subrange(0, len0));
        }
        // key length
        assert(b.subrange(off, off + 4) =~= spec_u32_to_le_bytes(k as u32)) by {
            assert(b.subrange(off, off + 4) =~= r.subrange(0, 4));
        }
        assert(k < 0x1_0000_0000);
        assert(read_u32(b, off) == k as u32);
        let o1 = off + 4;
        let o2 = o1 + k;
        assert(b.subrange(o1, o2) =~= kb) by {
            assert(b.subrange(o1, o2) =~= r.subrange(4, 4 + k));
        }
        encode_utf8_valid_utf8(e.key);
        encode_utf8_decode_utf8(e.key);
        assert(b[o2] == r[4 + k]);
        assert(b.subrange(o2 + 1, o2 + 9) =~= spec_u64_to_le_bytes(e.meta.size)) by {
            assert(b.subrange(o2 + 1, o2 + 9) =~= r.subrange(5 + k, 13 + k));
        }
        assert(b.subrange(o2 + 9, o2 + 17) =~= spec_u64_to_le_bytes(e.meta.created_at)) by {
            assert(b.subrange(o2 + 9, o2 + 17) =~= r.subrange(13 + k, 21 + k));
        }
        assert(b.subrange(o2 + 17, o2 + 21) =~= spec_u32_to_le_bytes(n as u32)) by {
            assert(b.subrange(o2 + 17, o2 + 21) =~= r.subrange(21 + k, 25 + k));
        }
        assert(n < 0x1_0000_0000);
        assert(b.subrange(o2 + 21, o2 + 21 + 8 * n) =~= ids_bytes(e.meta.data_blocks)) by {
            assert(b.subrange(o2 + 21, o2 + 21 + 8 * n) =~= r.subrange(25 + k, 25 + k + 8 * n));
        }
        lemma_parse_ids(b, e.meta.data_blocks, o2 + 21);
        assert(b.subrange(off + len0, off + len0 + layout(rest, off + len0).len()) =~= layout(rest, off + len0)) by {
            assert(b.subrange(off + len0, off + len0 + layout(rest, off + len0).len())
                =~= lay.subrange(len0, lay.len() as int));
        }
        lemma_parse_layout(b, rest, off + len0);
        assert(parse_entries(b, off, entries.len()) =~= seq![e] + rest);
        assert(seq![e] + rest =~= entries);
    }
}

/// The entries laid out are a prefix that fits and is laid out the same way;
/// when every entry fits, all of them are laid out.
proof fn lemma_laid_out(entries: Seq<EntryView>, off: int)
    ensures
        laid_out(entries, off) <= entries.len(),
        all_fit(entries.take(laid_out(entries, off) as int), off),
        layout(entries.take(laid_out(entries, off) as int), off) == layout(entries, off),
        laid_out(entries.take(laid_out(entries, off) as int), off) == laid_out(entries, off),
        all_fit(entries, off) ==> laid_out(entries, off) == entries.len(),
    decreases entries.len(),
{
    let n = laid_out(entries, off) as int;
    let t = entries.take(n);
    if entries.len() == 0 || off + record_len(entries[0]) > DISK_BLOCK_SIZE {
        assert(t =~= Seq::<EntryView>::empty());
    } else {
        let rest = entries.drop_first();
        let off2 = off + record_len(entries[0]);
        lemma_laid_out(rest, off2);
        assert(t.drop_first() =~= rest.take(n - 1));
        assert(t[0] == entries[0]);
    }
}

/// Reading back a saved leaf block gives the longest prefix of the entries
/// that fits in it: all of them when they all fit.
pub proof fn lemma_leaf_prefix_roundtrip(entries: Seq<EntryView>)
    ensures
        leaf_block(entries).len() == DISK_BLOCK_SIZE,
        parse_leaf(leaf_block(entries)) == leaf_prefix(entries),
        fits_in_leaf(entries) ==> leaf_prefix(entries) == entries,
{
    lemma_laid_out(entries, 4);
    let t = leaf_prefix(entries);
    assert(leaf_block(t) == leaf_block(entries));
    lemma_leaf_roundtrip(t);
    if fits_in_leaf(entries) {
        assert(t =~= entries);
    }
}

/// Reading back a leaf block gives the entries written into it, provided they all fit.
pub proof fn lemma_leaf_roundtrip(entries: Seq<EntryView>)
    requires
        fits_in_leaf(entries),
    ensures
        leaf_block(entries).len() == DISK_BLOCK_SIZE,
        parse_leaf(leaf_block(entries)) == entries,
{
    lemma_laid_out(entries, 4);
    lemma_auto_spec_u32_to_from_le_bytes();
    lemma_layout_len(entries, 4);
    let lay = layout(entries, 4);
    let body = spec_u32_to_le_bytes(entries.len() as u32) + lay;
    let b = leaf_block(entries);
    assert(entries.len() < 0x1_0000_0000);
    assert(b.subrange(0, 4) =~= spec_u32_to_le_bytes(entries.len() as u32));
    assert(b.subrange(4, 4 + lay.len() as int) =~= lay);
    lemma_parse_layout(b, entries, 4);
}


pub(crate) fn append_bytes(out: &mut Vec<u8>, bytes: &[u8])
    ensures
        final(out)@ == old(out)@ + bytes@,
{
    for i in 0..bytes.len()
        invariant
            out@ == old(out)@ + bytes@.subrange(0, i as int),
    {
        out.push(bytes[i]);
        assert(out@ =~= old(out)@ + bytes@.subrange(0, i + 1));
    }
    assert(bytes@.subrange(0, bytes@.len() as int) =~= bytes@);
}

/// Appends `chars` to `out`.
pub(crate) fn append_bytes_chars(out: &mut Vec<char>, chars: &[char])
    ensures
        final(out)@ == old(out)@ + chars@,
{
    for i in 0..chars.len()
        invariant
            out@ == old(out)@ + chars@.subrange(0, i as int),
    {
        out.push(chars[i]);
        assert(out@ =~= old(out)@ + chars@.subrange(0, i + 1));
    }
    assert(chars@.subrange(0, chars@.len() as int) =~= chars@);
}

fn append_record(out: &mut Vec<u8>, entry: &BPlusLeafEntry, kb: &[u8])
    requires
        kb@ == key_bytes(entry@),
        kb@.len() <= DISK_BLOCK_SIZE,
        entry.meta.data_blocks@.len() <= DISK_BLOCK_SIZE,
    ensures
        final(out)@ == old(out)@ + record(entry@),
{
    let klen = kb.len() as u32;
    append_bytes(out, u32_to_le_bytes(klen).as_slice());
    append_bytes(out, kb);
    out.push(if entry.meta.is_directory { 1u8 } else { 0u8 });
    append_bytes(out, u64_to_le_bytes(entry.meta.size).as_slice());
    append_bytes(out, u64_to_le_bytes(entry.meta.created_at).as_slice());
    let ids = &entry.meta.data_blocks;
    append_bytes(out, u32_to_le_bytes(ids.len() as u32).as_slice());
    let ghost base = out@;
    assert(ids@.skip(0) =~= ids@);
    for j in 0..ids.len()
        invariant
            out@ + ids_bytes(ids@.skip(j as int)) == base + ids_bytes(ids@),
    {
        let ghost rest = ids@.skip(j as int);
        assert(rest.drop_first() =~= ids@.skip(j + 1));
        assert(rest[0] == ids@[j as int]);
        append_bytes(out, u64_to_le_bytes(ids[j]).as_slice());
        assert(out@ + ids_bytes(ids@.skip(j + 1)) =~= base + ids_bytes(ids@));
    }
    assert(ids@.skip(ids@.len() as int) =~= Seq::<u64>::empty());
    assert(out@ =~= old(out)@ + record(entry@));
}

/// Serializes entries into a leaf block.
fn encode_leaf(entries: &Vec<BPlusLeafEntry>) -> (r: DiskBlock)
    ensures
        r@ == leaf_block(entries_view(entries@)),
        r@.len() == DISK_BLOCK_SIZE,
{
    let ghost ev = entries_view(entries@);
    let mut out: Vec<u8> = Vec::new();
    out.push(0u8);
    out.push(0u8);
    out.push(0u8);
    out.push(0u8);
    proof {
        lemma_auto_spec_u32_to_from_le_bytes();
    }
    let ghost header = out@;
    assert(ev.skip(0) =~= ev);
    let mut i: usize = 0;
    while i < entries.len()
        invariant
            ev == entries_view(entries@),
            header.len() == 4,
            i <= entries@.len(),
            4 + i <= out@.len() <= DISK_BLOCK_SIZE,
            out@.subrange(0, 4) == header,
            out@ + layout(ev.skip(i as int), out@.len() as int) == header + layout(ev, 4),
            laid_out(ev, 4) == i + laid_out(ev.skip(i as int), out@.len() as int),
        ensures
            out@ == header + layout(ev, 4),
            4 + i <= out@.len() <= DISK_BLOCK_SIZE,
            laid_out(ev, 4) == i,
        decreases entries@.len() - i,
    {
        let entry = &entries[i];
        let kb = entry.key.as_str().as_bytes();
        let klen = kb.len();
        let nblocks = entry.meta.data_blocks.len();
        let ghost rest = ev.skip(i as int);
        assert(rest[0] == entry@);
        assert(rest.drop_first() =~= ev.skip(i + 1));
        if klen > DISK_BLOCK_SIZE || nblocks > DISK_BLOCK_SIZE
            || out.len() + 4 + klen + FIXED_FIELDS + 8 * nblocks > DISK_BLOCK_SIZE {
            assert(layout(rest, out@.len() as int) =~= Seq::<u8>::empty());
            assert(out@ =~= header + layout(ev, 4));
            break;
        }
        proof {
            lemma_record_len(entry@);
        }
        let ghost before = out@;
        append_record(&mut out, entry, kb);
        assert(out@.subrange(0, 4) =~= before.subrange(0, 4));
        assert(out@ + layout(ev.skip(i + 1), out@.len() as int) =~= header + layout(ev, 4));
        i = i + 1;
    }
    if i == entries.len() {
        assert(ev.skip(i as int) =~= Seq::<EntryView>::empty());
        assert(out@ =~= header + layout(ev, 4));
    }
    let count = u32_to_le_bytes(i as u32);
    let ghost lay = layout(ev, 4);
    for k in 0..4
        invariant
            count@ == spec_u32_to_le_bytes(i as u32),
            count@.len() == 4,
            out@.len() == 4 + lay.len(),
            out@.subrange(4, out@.len() as int) == lay,
            forall|j: int| 0 <= j < k ==> out@[j] == count@[j],
    {
        out.set(k, count[k]);
        assert(out@.subrange(4, out@.len() as int) =~= lay);
    }
    assert(out@ =~= spec_u32_to_le_bytes(laid_out(ev, 4) as u32) + lay);
    let ghost body = out@;
    while out.len() < DISK_BLOCK_SIZE
        invariant
            body.len() <= out@.len() <= DISK_BLOCK_SIZE,
            out@ == body + Seq::new((out@.len() - body.len()) as nat, |j: int| 0u8),
        decreases DISK_BLOCK_SIZE - out@.len(),
    {
        out.push(0u8);
        assert(out@ =~= body + Seq::new((out@.len() - body.len()) as nat, |j: int| 0u8));
    }
    out
}

/// Parses a leaf block.
fn decode_leaf(block: &DiskBlock) -> (r: Vec<BPlusLeafEntry>)
    requires
        block@.len() == DISK_BLOCK_SIZE,
    ensures
        entries_view(r@) == parse_leaf(block@),
{
    let ghost b = block@;
    let count = u32_from_le_bytes(&block.as_slice()[0..4]);
    let mut entries: Vec<BPlusLeafEntry> = Vec::new();
    let mut offset: usize = 4;
    let mut remaining: u32 = count;
    while remaining > 0
        invariant
            b == block@,
            b.len() == DISK_BLOCK_SIZE,
            4 <= offset <= DISK_BLOCK_SIZE,
            entries_view(entries@) + parse_entries(b, offset as int, remaining as nat) == parse_leaf(b),
        ensures
            entries_view(entries@) == parse_leaf(b),
        decreases remaining,
    {
        if offset + 4 > DISK_BLOCK_SIZE {
            assert(entries_view(entries@) =~= parse_leaf(b));
            break;
        }
        let k = u32_from_le_bytes(&block.as_slice()[offset..offset + 4]);
        let o1 = offset + 4;
        if o1 as u64 + k as u64 + FIXED_FIELDS as u64 > DISK_BLOCK_SIZE as u64 {
            assert(entries_view(entries@) =~= parse_leaf(b));
            break;
        }
        let o2 = o1 + k as usize;
        let key = decode_lossy(&block.as_slice()[o1..o2]);
        let is_dir = block[o2] != 0;
        let size = u64_from_le_bytes(&block.as_slice()[o2 + 1..o2 + 9]);
        let created_at = u64_from_le_bytes(&block.as_slice()[o2 + 9..o2 + 17]);
        let block_count = u32_from_le_bytes(&block.as_slice()[o2 + 17..o2 + 21]);
        let mut p: usize = o2 + FIXED_FIELDS;
        let ghost p0 = p as int;
        let mut data_blocks: Vec<u64> = Vec::new();
        let mut j: u32 = block_count;
        while j > 0
            invariant
                b == block@,
                b.len() == DISK_BLOCK_SIZE,
                p <= DISK_BLOCK_SIZE,
                p == p0 + 8 * data_blocks@.len(),
                data_blocks@ + parse_ids(b, p as int, j as nat) == parse_ids(b, p0, block_count as nat),
            ensures
                p == p0 + 8 * data_blocks@.len(),
                p <= DISK_BLOCK_SIZE,
                data_blocks@ == parse_ids(b, p0, block_count as nat),
            decreases j,
        {
            if p + 8 > DISK_BLOCK_SIZE {
                assert(data_blocks@ =~= parse_ids(b, p0, block_count as nat));
                break;
            }
            let id = u64_from_le_bytes(&block.as_slice()[p..p + 8]);
            data_blocks.push(id);
            p = p + 8;
            j = j - 1;
            assert(data_blocks@ + parse_ids(b, p as int, j as nat) =~= parse_ids(b, p0, block_count as nat));
        }
        if j == 0 {
            assert(data_blocks@ =~= parse_ids(b, p0, block_count as nat));
        }
        let entry = BPlusLeafEntry {
            key,
            meta: BPlusEntryMeta { is_directory: is_dir, size, created_at, data_blocks },
        };
        let ghost before = entries@;
        entries.push(entry);
        assert(entries@ =~= before.push(entry));
        assert(entries_view(entries@) =~= entries_view(before).push(entry@));
        offset = p;
        remaining = remaining - 1;
        assert(entries_view(entries@) + parse_entries(b, offset as int, remaining as nat) =~= parse_leaf(b));
    }
    entries
}


/// Byte-wise lexicographic order of keys (the order of `str`).
pub open spec fn bytes_before(a: Seq<u8>, b: Seq<u8>) -> bool
    decreases a.len(),
{
    if a.len() == 0 {
        b.len() > 0
    } else if b.len() == 0 {
        false
    } else if a[0] != b[0] {
        a[0] < b[0]
    } else {
        bytes_before(a.drop_first(), b.drop_first())
    }
}

/// Whether key bytes `a` sort strictly before key bytes `b`.
fn key_before(a: &[u8], b: &[u8]) -> (r: bool)
    ensures
        r == bytes_before(a@, b@),
{
    let mut i: usize = 0;
    assert(a@.skip(0) =~= a@);
    assert(b@.skip(0) =~= b@);
    while i < a.len() && i < b.len()
        invariant
            i <= a@.len(),
            i <= b@.len(),
            bytes_before(a@, b@) == bytes_before(a@.skip(i as int), b@.skip(i as int)),
        decreases a@.len() - i,
    {
        let ghost sa = a@.skip(i as int);
        let ghost sb = b@.skip(i as int);
        assert(sa.drop_first() =~= a@.skip(i + 1));
        assert(sb.drop_first() =~= b@.skip(i + 1));
        if a[i] != b[i] {
            return a[i] < b[i];
        }
        i = i + 1;
    }
    assert(a@.skip(i as int).len() == 0 || b@.skip(i as int).len() == 0);
    i == a.len() && i < b.len()
}

/// Position at which an entry is inserted into a sorted list: after every
/// entry whose key does not sort after its key.
pub open spec fn insert_pos(s: Seq<EntryView>, e: EntryView) -> int
    decreases s.len(),
{
    if s.len() == 0 {
        0
    } else if bytes_before(key_bytes(e), key_bytes(s[0])) {
        0
    } else {
        1 + insert_pos(s.drop_first(), e)
    }
}

pub proof fn lemma_insert_pos_range(s: Seq<EntryView>, e: EntryView)
    ensures
        0 <= insert_pos(s, e) <= s.len(),
    decreases s.len(),
{
    if s.len() > 0 {
        lemma_insert_pos_range(s.drop_first(), e);
    }
}

/// The entries stably sorted by key (insertion sort).
pub open spec fn sort_by_key(s: Seq<EntryView>) -> Seq<EntryView>
    decreases s.len(),
{
    if s.len() == 0 {
        s
    } else {
        let sorted = sort_by_key(s.drop_last());
        sorted.insert(insert_pos(sorted, s.last()), s.last())
    }
}

/// Index of the first entry with the given key.
pub open spec fn find_key(entries: Seq<EntryView>, key: Seq<char>) -> Option<int>
    decreases entries.len(),
{
    if entries.len() == 0 {
        None
    } else if entries[0].key == key {
        Some(0)
    } else {
        match find_key(entries.drop_first(), key) {
            Some(i) => Some(i + 1),
            None => None,
        }
    }
}

pub proof fn lemma_find_key(entries: Seq<EntryView>, key: Seq<char>)
    ensures
        find_key(entries, key) matches Some(i) ==> 0 <= i < entries.len() && entries[i].key == key
            && forall|j: int| 0 <= j < i ==> entries[j].key != key,
        find_key(entries, key) is None ==> forall|j: int| 0 <= j < entries.len() ==> entries[j].key != key,
    decreases entries.len(),
{
    if entries.len() > 0 {
        lemma_find_key(entries.drop_first(), key);
        if entries[0].key != key {
            assert forall|j: int| 1 <= j < entries.len() implies entries[j] == entries.drop_first()[j - 1] by {}
        }
    }
}

/// Metadata stored under a key, if any.
pub open spec fn lookup(entries: Seq<EntryView>, key: Seq<char>) -> Option<MetaView> {
    match find_key(entries, key) {
        Some(i) => Some(entries[i].meta),
        None => None,
    }
}

/// Entries after storing `meta` under `key`: the first entry with that key
/// gets the metadata; otherwise a new entry is added and the list re-sorted.
pub open spec fn inserted(entries: Seq<EntryView>, key: Seq<char>, meta: MetaView) -> Seq<EntryView> {
    match find_key(entries, key) {
        Some(i) => entries.update(i, EntryView { key: entries[i].key, meta }),
        None => sort_by_key(entries.push(EntryView { key, meta })),
    }
}

/// Entries whose key differs from `key`.
pub open spec fn without_key(entries: Seq<EntryView>, key: Seq<char>) -> Seq<EntryView>
    decreases entries.len(),
{
    if entries.len() == 0 {
        entries
    } else {
        let prev = without_key(entries.drop_last(), key);
        if entries.last().key == key { prev } else { prev.push(entries.last()) }
    }
}

/// Listing of the names directly under a directory: the name of each entry
/// whose key is the directory prefix followed by a name without '/'.
pub open spec fn listed_name(key: Seq<char>, parent: Seq<char>) -> Option<Seq<char>> {
    let prefix = dir_prefix(parent);
    if key == seq!['/'] || key == parent {
        None
    } else if prefix == seq!['/'] {
        if key.len() > 0 && key[0] == '/' && !key.drop_first().contains('/') && key.len() > 1 {
            Some(key.drop_first())
        } else {
            None
        }
    } else if crate::text::starts_with(key, prefix) {
        let name = key.subrange(prefix.len() as int, key.len() as int);
        if name.len() > 0 && !name.contains('/') { Some(name) } else { None }
    } else {
        None
    }
}

/// The directory prefix ending in '/': "/" for the root (or an empty path).
pub open spec fn dir_prefix(parent: Seq<char>) -> Seq<char> {
    if parent.len() == 0 || parent == seq!['/'] {
        seq!['/']
    } else if parent.last() == '/' {
        parent
    } else {
        parent.push('/')
    }
}

/// Names (with their directory flag) listed under `parent`, in index order.
pub open spec fn listing(entries: Seq<EntryView>, parent: Seq<char>) -> Seq<(Seq<char>, bool)>
    decreases entries.len(),
{
    if entries.len() == 0 {
        Seq::empty()
    } else {
        let prev = listing(entries.drop_last(), parent);
        match listed_name(entries.last().key, parent) {
            Some(n) => prev.push((n, entries.last().meta.is_directory)),
            None => prev,
        }
    }
}

/// Superblock contents naming `root` as the index root.
pub open spec fn superblock_bytes(root: u64) -> Seq<u8> {
    let head = spec_u64_to_le_bytes(SUPERBLOCK_MAGIC) + spec_u64_to_le_bytes(root) + spec_u64_to_le_bytes(TOTAL_DISK_BLOCKS as u64);
    head + Seq::new((DISK_BLOCK_SIZE - 24) as nat, |i: int| 0u8)
}

/// The index root that bringing up the index settles on: the one the
/// superblock records when it carries the magic number, else block 2.
pub open spec fn root_after_init(contents: Seq<Seq<u8>>) -> u64 {
    let sb = contents[SUPERBLOCK_BLOCK_ID as int];
    if read_u64(sb, 0) == SUPERBLOCK_MAGIC { read_u64(sb, 8) } else { 2 }
}

/// Allocation map after bringing up the index: the superblock and bitmap
/// blocks are marked when the disk comes up, and a freshly formatted index
/// reserves its root block 2.
pub open spec fn allocated_after_init(was_initialized: bool, allocated: Seq<bool>, contents: Seq<Seq<u8>>) -> Seq<bool> {
    let up = if was_initialized { allocated } else { allocated.update(0, true).update(1, true) };
    if read_u64(contents[SUPERBLOCK_BLOCK_ID as int], 0) == SUPERBLOCK_MAGIC { up } else { up.update(2, true) }
}

/// Block contents after bringing up the index: unchanged when the superblock
/// carries the magic number, else a new superblock naming block 2 and a
/// leaf without entries in block 2.
pub open spec fn contents_after_init(contents: Seq<Seq<u8>>) -> Seq<Seq<u8>> {
    let sb = contents[SUPERBLOCK_BLOCK_ID as int];
    if read_u64(sb, 0) == SUPERBLOCK_MAGIC {
        contents
    } else {
        contents.update(SUPERBLOCK_BLOCK_ID as int, superblock_bytes(2)).update(2, leaf_block(Seq::empty()))
    }
}

/// The entries stored in the index whose root is `root`, given the block contents.
pub open spec fn stored_in(contents: Seq<Seq<u8>>, root: u64) -> Seq<EntryView> {
    if root < TOTAL_DISK_BLOCKS {
        parse_leaf(contents[root as int])
    } else {
        Seq::empty()
    }
}

/// Block contents after writing `entries` to the index whose root is `root`.
pub open spec fn saved_in(contents: Seq<Seq<u8>>, root: u64, entries: Seq<EntryView>) -> Seq<Seq<u8>> {
    if root < TOTAL_DISK_BLOCKS {
        contents.update(root as int, leaf_block(entries))
    } else {
        contents
    }
}

/// The entries stored in the index whose root is `root`.
pub open spec fn stored_entries(disk: DiskController, root: u64) -> Seq<EntryView> {
    stored_in(disk.contents(), root)
}

/// Disk contents after writing `entries` to the index whose root is `root`.
pub open spec fn saved_contents(disk: DiskController, root: u64, entries: Seq<EntryView>) -> Seq<Seq<u8>> {
    saved_in(disk.contents(), root, entries)
}

/// Pairs of (name, directory flag) as plain values.
pub open spec fn names_view(v: Seq<(String, bool)>) -> Seq<(Seq<char>, bool)> {
    v.map_values(|p: (String, bool)| (p.0@, p.1))
}

/// Sorting keeps exactly the entries it was given.
pub proof fn lemma_sort_members(s: Seq<EntryView>)
    ensures
        sort_by_key(s).len() == s.len(),
        forall|k: int| 0 <= k < sort_by_key(s).len() ==> s.contains(#[trigger] sort_by_key(s)[k]),
        forall|k: int| 0 <= k < s.len() ==> sort_by_key(s).contains(#[trigger] s[k]),
    decreases s.len(),
{
    if s.len() > 0 {
        let prev = s.drop_last();
        lemma_sort_members(prev);
        let sorted = sort_by_key(prev);
        let p = insert_pos(sorted, s.last());
        lemma_insert_pos_range(sorted, s.last());
        sorted.insert_ensures(p, s.last());
        let r = sort_by_key(s);
        assert forall|k: int| 0 <= k < r.len() implies s.contains(#[trigger] r[k]) by {
            if k < p {
                assert(prev.contains(sorted[k]));
                let w = choose|w: int| 0 <= w < prev.len() && prev[w] == sorted[k];
                assert(s[w] == prev[w]);
            } else if k == p {
                assert(s[s.len() - 1] == s.last());
            } else {
                assert(r[k] == sorted[k - 1]);
                assert(prev.contains(sorted[k - 1]));
                let w = choose|w: int| 0 <= w < prev.len() && prev[w] == sorted[k - 1];
                assert(s[w] == prev[w]);
            }
        }
        assert forall|k: int| 0 <= k < s.len() implies r.contains(#[trigger] s[k]) by {
            if k == s.len() - 1 {
                assert(r[p] == s[k]);
            } else {
                assert(s[k] == prev[k]);
                assert(sorted.contains(prev[k]));
                let w = choose|w: int| 0 <= w < sorted.len() && sorted[w] == prev[k];
                if w < p {
                    assert(r[w] == sorted[w]);
                } else {
                    assert(r[w + 1] == sorted[w]);
                }
            }
        }
    }
}

/// After storing `meta` under `key`, looking `key` up gives `meta`.
pub proof fn lemma_inserted_lookup(entries: Seq<EntryView>, key: Seq<char>, meta: MetaView)
    ensures
        lookup(inserted(entries, key, meta), key) == Some(meta),
{
    lemma_find_key(entries, key);
    match find_key(entries, key) {
        Some(i) => {
            let u = entries.update(i, EntryView { key: entries[i].key, meta });
            lemma_find_key(u, key);
            assert(u[i].key == key);
            match find_key(u, key) {
                Some(j) => {
                    if j < i {
                        assert(u[j] == entries[j]);
                    } else if j > i {
                        assert(u[i].key == key);
                    }
                },
                None => {
                    assert(u[i].key == key);
                },
            }
        },
        None => {
            let new_entry = EntryView { key, meta };
            let pushed = entries.push(new_entry);
            let sorted = sort_by_key(pushed);
            lemma_sort_members(pushed);
            lemma_find_key(sorted, key);
            assert(pushed[pushed.len() - 1] == new_entry);
            assert(sorted.contains(new_entry));
            let w = choose|w: int| 0 <= w < sorted.len() && sorted[w] == new_entry;
            assert(sorted[w].key == key);
            match find_key(sorted, key) {
                Some(j) => {
                    assert(pushed.contains(sorted[j]));
                    let v = choose|v: int| 0 <= v < pushed.len() && pushed[v] == sorted[j];
                    if v < entries.len() {
                        assert(pushed[v] == entries[v]);
                    }
                },
                None => {},
            }
        },
    }
}

/// No entry of `without_key(entries, key)` has key `key`, and every other entry stays.
pub proof fn lemma_without_key(entries: Seq<EntryView>, key: Seq<char>)
    ensures
        forall|k: int| 0 <= k < without_key(entries, key).len() ==> (#[trigger] without_key(entries, key)[k]).key != key,
        find_key(without_key(entries, key), key) is None,
    decreases entries.len(),
{
    if entries.len() > 0 {
        lemma_without_key(entries.drop_last(), key);
    }
    let w = without_key(entries, key);
    lemma_find_key(w, key);
}

/// Storing an entry makes it visible to a later lookup, provided the resulting
/// index still fits in the leaf block: what a read gives back of a write.
pub proof fn lemma_insert_then_search(entries: Seq<EntryView>, key: Seq<char>, meta: MetaView)
    requires
        fits_in_leaf(inserted(entries, key, meta)),
    ensures
        lookup(parse_leaf(leaf_block(inserted(entries, key, meta))), key) == Some(meta),
{
    lemma_leaf_roundtrip(inserted(entries, key, meta));
    lemma_inserted_lookup(entries, key, meta);
}

/// After removing a key, looking it up finds nothing, provided the remaining entries fit.
pub proof fn lemma_remove_then_search(entries: Seq<EntryView>, key: Seq<char>)
    requires
        fits_in_leaf(without_key(entries, key)),
    ensures
        lookup(parse_leaf(leaf_block(without_key(entries, key))), key) is None,
{
    lemma_leaf_roundtrip(without_key(entries, key));
    lemma_without_key(entries, key);
}

fn sort_entries(entries: Vec<BPlusLeafEntry>) -> (r: Vec<BPlusLeafEntry>)
    ensures
        entries_view(r@) == sort_by_key(entries_view(entries@)),
{
    let ghost orig = entries_view(entries@);
    let mut rest = entries;
    let mut out: Vec<BPlusLeafEntry> = Vec::new();
    let ghost mut i: int = 0;
    assert(orig.take(0) =~= Seq::<EntryView>::empty());
    assert(entries_view(rest@) =~= orig.skip(0));
    while rest.len() > 0
        invariant
            0 <= i <= orig.len(),
            entries_view(rest@) == orig.skip(i),
            entries_view(out@) == sort_by_key(orig.take(i)),
        decreases rest@.len(),
    {
        proof {
            lemma_entries_view(rest@);
            lemma_entries_view(out@);
        }
        assert(orig.skip(i).len() == orig.len() - i);
        assert(orig.skip(i)[0] == orig[i]);
        let ghost rest_before = rest@;
        let e = rest.remove(0);
        assert(e@ == orig[i]);
        let kb = e.key.as_str().as_bytes();
        let ghost sorted = entries_view(out@);
        let mut j: usize = 0;
        assert(sorted.skip(0) =~= sorted);
        assert(sorted.skip(sorted.len() as int) =~= Seq::<EntryView>::empty());
        while j < out.len()
            invariant
                sorted == entries_view(out@),
                sorted.len() == out@.len(),
                sorted.skip(sorted.len() as int) == Seq::<EntryView>::empty(),
                j <= out@.len(),
                kb@ == key_bytes(e@),
                insert_pos(sorted, e@) == j + insert_pos(sorted.skip(j as int), e@),
            ensures
                j <= out@.len(),
                insert_pos(sorted, e@) == j,
            decreases out@.len() - j,
        {
            let ghost sk = sorted.skip(j as int);
            assert(sk.drop_first() =~= sorted.skip(j + 1));
            assert(sk[0] == out@[j as int]@);
            if key_before(kb, out[j].key.as_str().as_bytes()) {
                assert(insert_pos(sk, e@) == 0);
                break;
            }
            j = j + 1;
        }
        let ghost pos = j as int;
        assert(pos == insert_pos(sorted, e@));
        let ghost before = out@;
        out.insert(j, e);
        proof {
            lemma_entries_view(out@);
            lemma_entries_view(before);
            lemma_entries_view(rest@);
        }
        assert(entries_view(out@) =~= sorted.insert(pos, e@));
        proof {
            assert(orig.take(i + 1).drop_last() =~= orig.take(i));
            assert(orig.take(i + 1).last() == orig[i]);
            i = i + 1;
        }
        assert forall|k: int| 0 <= k < rest@.len() implies #[trigger] entries_view(rest@)[k] == orig.skip(i)[k] by {
            assert(rest@[k] == rest_before[k + 1]);
            assert(entries_view(rest_before)[k + 1] == rest_before[k + 1]@);
            assert(orig.skip(i - 1)[k + 1] == orig.skip(i)[k]);
        }
        assert(entries_view(rest@) =~= orig.skip(i));
    }
    assert(orig.take(i) =~= orig);
    out
}

/// The on-disk index.
pub struct DiskBPlusTree {
    pub root_block_id: u64,
}

impl DiskBPlusTree {
    /// An index rooted at block 2.
    pub fn new() -> (r: Self)
        ensures
            r.root_block_id == 2,
    {
        DiskBPlusTree { root_block_id: 2 }
    }

    /// Brings up the disk and loads the index root from the superblock; a
    /// disk without a valid superblock is formatted with an empty index at block 2.
    pub fn init(&mut self, disk: &mut DiskController)
        requires
            old(disk).inv(),
        ensures
            final(disk).inv(),
            final(disk).is_initialized(),
            final(disk).allocated() == allocated_after_init(
                old(disk).is_initialized(),
                old(disk).allocated(),
                old(disk).contents(),
            ),
            final(self).root_block_id == root_after_init(old(disk).contents()),
            final(disk).contents() == contents_after_init(old(disk).contents()),
    {
        disk.init();
        let mut block: DiskBlock = Vec::new();
        if disk.read_block(SUPERBLOCK_BLOCK_ID, &mut block).is_ok() {
            proof {
                disk.lemma_contents_len(0);
            }
            let magic = u64_from_le_bytes(&block.as_slice()[0..8]);
            if magic == SUPERBLOCK_MAGIC {
                let root_id = u64_from_le_bytes(&block.as_slice()[8..16]);
                self.root_block_id = root_id;
                return;
            }
        }
        let root_id: u64 = 2;
        self.root_block_id = root_id;
        self.write_superblock(disk, root_id);
        self.format_empty_leaf(disk, root_id);
        disk.reserve_block(root_id);
    }

    fn write_superblock(&self, disk: &mut DiskController, root_id: u64)
        requires
            old(disk).inv(),
        ensures
            final(disk).inv(),
            final(disk).is_initialized() == old(disk).is_initialized(),
            final(disk).allocated() == old(disk).allocated(),
            final(disk).contents() == old(disk).contents().update(SUPERBLOCK_BLOCK_ID as int, superblock_bytes(root_id)),
    {
        let mut block: Vec<u8> = Vec::new();
        append_bytes(&mut block, u64_to_le_bytes(SUPERBLOCK_MAGIC).as_slice());
        append_bytes(&mut block, u64_to_le_bytes(root_id).as_slice());
        append_bytes(&mut block, u64_to_le_bytes(TOTAL_DISK_BLOCKS as u64).as_slice());
        let ghost head = block@;
        proof {
            lemma_auto_spec_u64_to_from_le_bytes();
        }
        while block.len() < DISK_BLOCK_SIZE
            invariant
                head.len() == 24,
                24 <= block@.len() <= DISK_BLOCK_SIZE,
                block@ == head + Seq::new((block@.len() - 24) as nat, |i: int| 0u8),
            decreases DISK_BLOCK_SIZE - block@.len(),
        {
            block.push(0u8);
            assert(block@ =~= head + Seq::new((block@.len() - 24) as nat, |i: int| 0u8));
        }
        assert(block@ =~= superblock_bytes(root_id));
        let _ = disk.write_block(SUPERBLOCK_BLOCK_ID, &block);
    }

    fn format_empty_leaf(&self, disk: &mut DiskController, block_id: u64)
        requires
            old(disk).inv(),
        ensures
            final(disk).inv(),
            final(disk).is_initialized() == old(disk).is_initialized(),
            final(disk).allocated() == old(disk).allocated(),
            block_id < TOTAL_DISK_BLOCKS ==> final(disk).contents() == old(disk).contents().update(
                block_id as int,
                leaf_block(Seq::empty()),
            ),
            block_id >= TOTAL_DISK_BLOCKS ==> final(disk).contents() == old(disk).contents(),
    {
        let no_entries: Vec<BPlusLeafEntry> = Vec::new();
        let block = encode_leaf(&no_entries);
        assert(entries_view(no_entries@) =~= Seq::<EntryView>::empty());
        let _ = disk.write_block(block_id, &block);
    }

    /// All entries of the index.
    fn get_all_leaf_entries(&self, disk: &DiskController) -> (r: Vec<BPlusLeafEntry>)
        requires
            disk.inv(),
        ensures
            entries_view(r@) == stored_entries(*disk, self.root_block_id),
    {
        let mut block: DiskBlock = Vec::new();
        if disk.read_block(self.root_block_id, &mut block).is_err() {
            let r: Vec<BPlusLeafEntry> = Vec::new();
            assert(entries_view(r@) =~= Seq::<EntryView>::empty());
            return r;
        }
        proof {
            disk.lemma_contents_len(self.root_block_id as int);
        }
        decode_leaf(&block)
    }

    /// Writes the entries to the root block.
    fn save_all_leaf_entries(&mut self, disk: &mut DiskController, entries: &Vec<BPlusLeafEntry>)
        requires
            old(disk).inv(),
        ensures
            final(disk).inv(),
            final(self).root_block_id == old(self).root_block_id,
            final(disk).is_initialized() == old(disk).is_initialized(),
            final(disk).allocated() == old(disk).allocated(),
            final(disk).contents() == saved_contents(*old(disk), old(self).root_block_id, entries_view(entries@)),
    {
        let block = encode_leaf(entries);
        let _ = disk.write_block(self.root_block_id, &block);
    }

    /// Metadata stored under `key`.
    pub fn search(&self, disk: &DiskController, key: &str) -> (r: Option<BPlusEntryMeta>)
        requires
            disk.inv(),
        ensures
            match lookup(stored_entries(*disk, self.root_block_id), key@) {
                Some(m) => r matches Some(x) && x@ == m,
                None => r is None,
            },
    {
        let entries = self.get_all_leaf_entries(disk);
        let ghost ev = entries_view(entries@);
        proof {
            lemma_entries_view(entries@);
        }
        let mut i: usize = 0;
        assert(ev.skip(0) =~= ev);
        assert(ev.skip(ev.len() as int) =~= Seq::<EntryView>::empty());
        while i < entries.len()
            invariant
                ev == stored_entries(*disk, self.root_block_id),
                ev == entries_view(entries@),
                ev.len() == entries@.len(),
                ev.skip(ev.len() as int) == Seq::<EntryView>::empty(),
                i <= entries@.len(),
                find_key(ev, key@) == match find_key(ev.skip(i as int), key@) {
                    Some(j) => Some(j + i),
                    None => None,
                },
            decreases entries@.len() - i,
        {
            let ghost sk = ev.skip(i as int);
            proof {
                lemma_entries_view(entries@);
            }
            assert(sk.drop_first() =~= ev.skip(i + 1));
            assert(sk[0] == entries@[i as int]@);
            if same_text(entries[i].key.as_str(), key) {
                assert(find_key(sk, key@) == Some(0int));
                return Some(entries[i].meta.duplicate());
            }
            i = i + 1;
        }
        assert(ev.skip(i as int) =~= Seq::<EntryView>::empty());
        None
    }

    /// Stores `meta` under `key`: an existing entry gets the new metadata,
    /// otherwise a new entry is added in key order.
    pub fn insert(&mut self, disk: &mut DiskController, key: &str, meta: BPlusEntryMeta) -> (r: Result<(), &'static str>)
        requires
            old(disk).inv(),
        ensures
            r == Ok::<(), &'static str>(()),
            final(disk).inv(),
            final(self).root_block_id == old(self).root_block_id,
            final(disk).is_initialized() == old(disk).is_initialized(),
            final(disk).allocated() == old(disk).allocated(),
            final(disk).contents() == saved_contents(
                *old(disk),
                old(self).root_block_id,
                inserted(stored_entries(*old(disk), old(self).root_block_id), key@, meta@),
            ),
    {
        let mut entries = self.get_all_leaf_entries(disk);
        let ghost ev = entries_view(entries@);
        proof {
            lemma_entries_view(entries@);
        }
        let mut i: usize = 0;
        let mut found = false;
        assert(ev.skip(0) =~= ev);
        assert(ev.skip(ev.len() as int) =~= Seq::<EntryView>::empty());
        while i < entries.len()
            invariant_except_break
                !found,
            invariant
                ev == entries_view(entries@),
                ev.len() == entries@.len(),
                ev.skip(ev.len() as int) == Seq::<EntryView>::empty(),
                i <= entries@.len(),
                find_key(ev, key@) == match find_key(ev.skip(i as int), key@) {
                    Some(j) => Some(j + i),
                    None => None,
                },
            ensures
                found ==> i < entries@.len() && find_key(ev, key@) == Some(i as int),
                !found ==> find_key(ev, key@) is None,
            decreases entries@.len() - i,
        {
            let ghost sk = ev.skip(i as int);
            proof {
                lemma_entries_view(entries@);
            }
            assert(sk.drop_first() =~= ev.skip(i + 1));
            assert(sk[0] == entries@[i as int]@);
            if same_text(entries[i].key.as_str(), key) {
                assert(find_key(sk, key@) == Some(0int));
                found = true;
                break;
            }
            i = i + 1;
        }
        if found {
            entries[i].meta = meta;
            assert(entries_view(entries@) =~= inserted(ev, key@, meta@));
        } else {
            let ghost m = meta@;
            entries.push(BPlusLeafEntry { key: key.to_owned(), meta });
            assert(entries_view(entries@) =~= ev.push(EntryView { key: key@, meta: m }));
            entries = sort_entries(entries);
        }
        self.save_all_leaf_entries(disk, &entries);
        Ok(())
    }

    /// Removes every entry stored under `key`; fails when there is none.
    pub fn remove(&mut self, disk: &mut DiskController, key: &str) -> (r: Result<(), &'static str>)
        requires
            old(disk).inv(),
        ensures
            final(disk).inv(),
            final(self).root_block_id == old(self).root_block_id,
            final(disk).is_initialized() == old(disk).is_initialized(),
            final(disk).allocated() == old(disk).allocated(),
            find_key(stored_entries(*old(disk), old(self).root_block_id), key@) is None ==> r
                == Err::<(), &'static str>("Target key not found in B+ Tree") && final(disk).contents() == old(disk).contents(),
            find_key(stored_entries(*old(disk), old(self).root_block_id), key@) is Some ==> r == Ok::<(), &'static str>(())
                && final(disk).contents() == saved_contents(
                *old(disk),
                old(self).root_block_id,
                without_key(stored_entries(*old(disk), old(self).root_block_id), key@),
            ),
    {
        let entries = self.get_all_leaf_entries(disk);
        let ghost ev = entries_view(entries@);
        let initial_len = entries.len();
        let mut kept: Vec<BPlusLeafEntry> = Vec::new();
        let mut entries = entries;
        let ghost mut i: int = 0;
        assert(ev.take(0) =~= Seq::<EntryView>::empty());
        assert(entries_view(entries@) =~= ev.skip(0));
        while entries.len() > 0
            invariant
                0 <= i <= ev.len(),
                initial_len == ev.len(),
                entries_view(entries@) == ev.skip(i),
                entries_view(kept@) == without_key(ev.take(i), key@),
                kept@.len() <= i,
                (kept@.len() == i) <==> (forall|j: int| 0 <= j < i ==> ev[j].key != key@),
            decreases entries@.len(),
        {
            proof {
                lemma_entries_view(entries@);
                lemma_entries_view(kept@);
            }
            assert(ev.skip(i).len() == ev.len() - i);
            assert(ev.skip(i)[0] == ev[i]);
            let ghost entries_before = entries@;
            let e = entries.remove(0);
            assert(e@ == ev[i]);
            proof {
                assert(ev.take(i + 1).drop_last() =~= ev.take(i));
                assert(ev.take(i + 1).last() == ev[i]);
            }
            let ghost kept_before = kept@;
            if !same_text(e.key.as_str(), key) {
                kept.push(e);
            }
            proof {
                lemma_entries_view(kept@);
                lemma_entries_view(kept_before);
                lemma_entries_view(entries@);
            }
            proof {
                i = i + 1;
            }
            assert(entries_view(kept@) =~= without_key(ev.take(i), key@));
            assert forall|k: int| 0 <= k < entries@.len() implies #[trigger] entries_view(entries@)[k] == ev.skip(i)[k] by {
                assert(entries@[k] == entries_before[k + 1]);
                assert(entries_view(entries_before)[k + 1] == entries_before[k + 1]@);
                assert(ev.skip(i - 1)[k + 1] == ev.skip(i)[k]);
            }
            assert(entries_view(entries@) =~= ev.skip(i));
        }
        assert(ev.take(i) =~= ev);
        proof {
            lemma_find_key(ev, key@);
        }
        if kept.len() == initial_len {
            Err("Target key not found in B+ Tree")
        } else {
            self.save_all_leaf_entries(disk, &kept);
            Ok(())
        }
    }

    /// Names directly under `parent_prefix`, with their directory flag, in key order.
    pub fn list_directory_entries(&self, disk: &DiskController, parent_prefix: &str) -> (r: Vec<(String, bool)>)
        requires
            disk.inv(),
        ensures
            names_view(r@) == listing(stored_entries(*disk, self.root_block_id), parent_prefix@),
    {
        let entries = self.get_all_leaf_entries(disk);
        let ghost ev = entries_view(entries@);
        let parent = crate::text::chars_of(parent_prefix);
        let prefix = directory_prefix(&parent);
        let root_only = prefix.len() == 1 && prefix[0] == '/';
        assert(root_only == (prefix@ == seq!['/'])) by {
            if prefix@.len() == 1 && prefix@[0] == '/' {
                assert(prefix@ =~= seq!['/']);
            }
        }
        let mut result: Vec<(String, bool)> = Vec::new();
        for i in 0..entries.len()
            invariant
                ev == entries_view(entries@),
                parent@ == parent_prefix@,
                prefix@ == dir_prefix(parent@),
                root_only == (prefix@ == seq!['/']),
                names_view(result@) == listing(ev.take(i as int), parent@),
        {
            proof {
                assert(ev.take(i + 1).drop_last() =~= ev.take(i as int));
                assert(ev.take(i + 1).last() == entries@[i as int]@);
            }
            let key = crate::text::chars_of(entries[i].key.as_str());
            match listed_name_of(&key, &parent, &prefix, root_only) {
                Some(name) => {
                    let ghost before = result@;
                    let n = crate::text::string_of(name.as_slice());
                    result.push((n, entries[i].meta.is_directory));
                    assert(names_view(result@) =~= names_view(before).push((name@, entries@[i as int].meta.is_directory)));
                },
                None => {},
            }
        }
        assert(ev.take(entries@.len() as int) =~= ev);
        result
    }
}

/// The directory prefix of a parent path (see `dir_prefix`).
fn directory_prefix(parent: &Vec<char>) -> (r: Vec<char>)
    ensures
        r@ == dir_prefix(parent@),
{
    if parent.len() == 0 || (parent.len() == 1 && parent[0] == '/') {
        let mut r = Vec::new();
        r.push('/');
        assert(r@ =~= seq!['/']);
        if parent.len() == 1 {
            assert(parent@ =~= seq!['/']);
        }
        return r;
    }
    assert(parent@ != seq!['/']) by {
        if parent@ == seq!['/'] {
            assert(parent@.len() == 1 && parent@[0] == '/');
        }
    }
    let mut r = parent.clone();
    assert(r@ =~= parent@);
    if parent[parent.len() - 1] != '/' {
        r.push('/');
    }
    r
}

/// The name listed for `key` under `parent` (see `listed_name`).
fn listed_name_of(key: &Vec<char>, parent: &Vec<char>, prefix: &Vec<char>, root_only: bool) -> (r: Option<Vec<char>>)
    requires
        prefix@ == dir_prefix(parent@),
        root_only == (prefix@ == seq!['/']),
    ensures
        match listed_name(key@, parent@) {
            Some(n) => r matches Some(v) && v@ == n,
            None => r is None,
        },
{
    let slash_key = key.len() == 1 && key[0] == '/';
    assert(slash_key == (key@ == seq!['/'])) by {
        if key@.len() == 1 && key@[0] == '/' {
            assert(key@ =~= seq!['/']);
        }
    }
    if slash_key || vec_chars_equal(key, parent) {
        return None;
    }
    if root_only {
        if key.len() > 1 && key[0] == '/' {
            let rest = crate::text::chars_slice(key.as_slice(), 1, key.len());
            assert(rest@ =~= key@.drop_first());
            if !crate::text::chars_contain(rest.as_slice(), '/') {
                return Some(rest);
            }
        }
        None
    } else if crate::text::chars_start_with(key.as_slice(), prefix.as_slice()) {
        let name = crate::text::chars_slice(key.as_slice(), prefix.len(), key.len());
        if name.len() > 0 && !crate::text::chars_contain(name.as_slice(), '/') {
            Some(name)
        } else {
            None
        }
    } else {
        None
    }
}

fn vec_chars_equal(a: &Vec<char>, b: &Vec<char>) -> (r: bool)
    ensures
        r == (a@ == b@),
{
    if a.len() != b.len() {
        return false;
    }
    let mut i: usize = 0;
    while i < a.len()
        invariant
            a@.len() == b@.len(),
            i <= a@.len(),
            forall|j: int| 0 <= j < i ==> a@[j] == b@[j],
        decreases a@.len() - i,
    {
        if a[i] != b[i] {
            return false;
        }
        i = i + 1;
    }
    assert(a@ =~= b@);
    true
}

/// The entries come in the order of their key bytes.
pub open spec fn sorted_keys(s: Seq<EntryView>) -> bool {
    forall|i: int, j: int| 0 <= i < j < s.len() ==> !bytes_before(
        #[trigger] key_bytes(s[j]),
        #[trigger] key_bytes(s[i]),
    )
}

proof fn lemma_before_asym(a: Seq<u8>, b: Seq<u8>)
    ensures
        bytes_before(a, b) ==> !bytes_before(b, a),
    decreases a.len(),
{
    if a.len() > 0 && b.len() > 0 && a[0] == b[0] {
        lemma_before_asym(a.drop_first(), b.drop_first());
    }
}

proof fn lemma_before_trans(a: Seq<u8>, b: Seq<u8>, c: Seq<u8>)
    ensures
        bytes_before(a, b) && bytes_before(b, c) ==> bytes_before(a, c),
    decreases a.len(),
{
    if a.len() > 0 && b.len() > 0 && c.len() > 0 && a[0] == b[0] && b[0] == c[0] {
        lemma_before_trans(a.drop_first(), b.drop_first(), c.drop_first());
    }
}

proof fn lemma_insert_pos_split(s: Seq<EntryView>, e: EntryView)
    ensures
        0 <= insert_pos(s, e) <= s.len(),
        forall|k: int| 0 <= k < insert_pos(s, e) ==> !bytes_before(
            key_bytes(e),
            #[trigger] key_bytes(s[k]),
        ),
        insert_pos(s, e) < s.len() ==> bytes_before(
            key_bytes(e),
            key_bytes(s[insert_pos(s, e)]),
        ),
    decreases s.len(),
{
    if s.len() > 0 && !bytes_before(key_bytes(e), key_bytes(s[0])) {
        let rest = s.drop_first();
        lemma_insert_pos_split(rest, e);
        assert forall|k: int| 0 <= k < insert_pos(s, e) implies !bytes_before(
            key_bytes(e),
            #[trigger] key_bytes(s[k]),
        ) by {
            if k > 0 {
                assert(s[k] == rest[k - 1]);
            }
        }
        if insert_pos(s, e) < s.len() {
            assert(s[insert_pos(s, e)] == rest[insert_pos(rest, e)]);
        }
    }
}

/// Sorting by key gives entries in key order.
proof fn lemma_sort_sorted(s: Seq<EntryView>)
    ensures
        sorted_keys(sort_by_key(s)),
    decreases s.len(),
{
    if s.len() > 0 {
        let prev = s.drop_last();
        lemma_sort_sorted(prev);
        let sorted = sort_by_key(prev);
        let e = s.last();
        let p = insert_pos(sorted, e);
        lemma_insert_pos_split(sorted, e);
        let r = sort_by_key(s);
        assert(r == sorted.insert(p, e));
        let ke = key_bytes(e);
        assert forall|i: int, j: int| 0 <= i < j < r.len() implies !bytes_before(
            #[trigger] key_bytes(r[j]),
            #[trigger] key_bytes(r[i]),
        ) by {
            if j < p {
                assert(r[i] == sorted[i] && r[j] == sorted[j]);
            } else if j == p {
                assert(r[i] == sorted[i] && r[j] == e);
            } else if i == p {
                assert(r[j] == sorted[j - 1] && r[i] == e);
                let kp = key_bytes(sorted[p]);
                let kj = key_bytes(sorted[j - 1]);
                lemma_before_asym(ke, kp);
                lemma_before_trans(kj, ke, kp);
                if j - 1 > p {
                    assert(!bytes_before(kj, kp));
                }
            } else if i < p {
                assert(r[i] == sorted[i] && r[j] == sorted[j - 1]);
            } else {
                assert(r[i] == sorted[i - 1] && r[j] == sorted[j - 1]);
            }
        }
    }
}

/// Storing an entry keeps the index in key order.
pub proof fn lemma_insert_keeps_sorted(entries: Seq<EntryView>, key: Seq<char>, meta: MetaView)
    requires
        sorted_keys(entries),
    ensures
        sorted_keys(inserted(entries, key, meta)),
{
    lemma_find_key(entries, key);
    match find_key(entries, key) {
        Some(i) => {
            let t = inserted(entries, key, meta);
            assert forall|a: int, b: int| 0 <= a < b < t.len() implies !bytes_before(
                #[trigger] key_bytes(t[b]),
                #[trigger] key_bytes(t[a]),
            ) by {
                assert(key_bytes(t[a]) == key_bytes(entries[a]));
                assert(key_bytes(t[b]) == key_bytes(entries[b]));
            }
        },
        None => {
            lemma_sort_sorted(entries.push(EntryView { key, meta }));
        },
    }
}

/// Sorted entries are their own sorted order.
proof fn lemma_sorted_fixed(s: Seq<EntryView>)
    requires
        sorted_keys(s),
    ensures
        sort_by_key(s) == s,
    decreases s.len(),
{
    if s.len() > 0 {
        let prev = s.drop_last();
        assert(sorted_keys(prev)) by {
            assert forall|i: int, j: int| 0 <= i < j < prev.len() implies !bytes_before(
                #[trigger] key_bytes(prev[j]),
                #[trigger] key_bytes(prev[i]),
            ) by {
                assert(prev[i] == s[i] && prev[j] == s[j]);
            }
        }
        lemma_sorted_fixed(prev);
        let e = s.last();
        lemma_insert_pos_split(prev, e);
        if insert_pos(prev, e) < prev.len() {
            let p = insert_pos(prev, e);
            assert(prev[p] == s[p]);
            assert(s[s.len() - 1] == e);
        }
        assert(prev.insert(prev.len() as int, e) =~= s);
    }
}

/// Storing `meta` under a key that sorted entries do not hold puts the new
/// entry at its sorted position: after every entry whose key bytes do not
/// sort after its own, before the rest, the others keeping their order.
pub proof fn lemma_insert_at_sorted_position(entries: Seq<EntryView>, key: Seq<char>, meta: MetaView)
    requires
        sorted_keys(entries),
        find_key(entries, key) is None,
    ensures
        ({
            let e = EntryView { key, meta };
            let p = insert_pos(entries, e);
            &&& 0 <= p <= entries.len()
            &&& inserted(entries, key, meta) == entries.insert(p, e)
            &&& forall|k: int| 0 <= k < p ==> !bytes_before(key_bytes(e), #[trigger] key_bytes(entries[k]))
            &&& forall|k: int| p <= k < entries.len() ==> bytes_before(key_bytes(e), #[trigger] key_bytes(entries[k]))
        }),
{
    let e = EntryView { key, meta };
    let pushed = entries.push(e);
    assert(pushed.drop_last() =~= entries);
    lemma_sorted_fixed(entries);
    lemma_insert_pos_split(entries, e);
    let p = insert_pos(entries, e);
    assert forall|k: int| p <= k < entries.len() implies bytes_before(key_bytes(e), #[trigger] key_bytes(entries[k])) by {
        if k > p {
            lemma_before_trans(key_bytes(e), key_bytes(entries[p]), key_bytes(entries[k]));
            lemma_total(key_bytes(entries[p]), key_bytes(entries[k]));
        }
    }
}

/// Two key byte sequences are equal or one sorts before the other.
proof fn lemma_total(a: Seq<u8>, b: Seq<u8>)
    ensures
        a == b || bytes_before(a, b) || bytes_before(b, a),
    decreases a.len(),
{
    if a.len() > 0 && b.len() > 0 && a[0] == b[0] {
        lemma_total(a.drop_first(), b.drop_first());
        if a.drop_first() == b.drop_first() {
            assert(a =~= seq![a[0]] + a.drop_first());
            assert(b =~= seq![b[0]] + b.drop_first());
        }
    } else if a.len() == 0 && b.len() == 0 {
        assert(a =~= b);
    }
}

/// The name listed for a key under `parent` names a direct child: it is
/// non-empty, holds no '/', and the key is the directory prefix followed by
/// it; conversely every such key is listed under that name.
proof fn lemma_listed_name_child(key: Seq<char>, parent: Seq<char>)
    ensures
        listed_name(key, parent) matches Some(n) ==> n.len() > 0 && !n.contains('/') && key == dir_prefix(parent) + n,
        forall|n: Seq<char>| n.len() > 0 && !n.contains('/') && key == dir_prefix(parent) + n
            ==> #[trigger] listed_name(key, parent) == Some(n),
{
    let prefix = dir_prefix(parent);
    if let Some(n) = listed_name(key, parent) {
        if prefix == seq!['/'] {
            assert(key =~= prefix + n);
        } else {
            assert(key =~= prefix + n);
        }
    }
    assert forall|n: Seq<char>| n.len() > 0 && !n.contains('/') && key == dir_prefix(parent) + n
        implies #[trigger] listed_name(key, parent) == Some(n) by {
        assert(key.len() > prefix.len());
        assert(key.len() >= 2) by {
            assert(prefix.len() >= 1);
        }
        assert(key != seq!['/']);
        assert(parent.len() <= prefix.len());
        assert(key != parent);
        if prefix == seq!['/'] {
            assert(key[0] == '/');
            assert(key.drop_first() =~= n);
        } else {
            assert(key.subrange(0, prefix.len() as int) =~= prefix);
            assert(key.subrange(prefix.len() as int, key.len() as int) =~= n);
        }
    }
}

/// A directory listing names exactly the direct children of the directory:
/// each listed name is non-empty and holds no '/', and the directory prefix
/// followed by it is a key of the index with that directory flag; every
/// key made of the prefix and such a name is listed.
pub proof fn lemma_listing_direct_children(entries: Seq<EntryView>, parent: Seq<char>)
    ensures
        forall|k: int| 0 <= k < listing(entries, parent).len() ==> {
            let (n, d) = #[trigger] listing(entries, parent)[k];
            &&& n.len() > 0
            &&& !n.contains('/')
            &&& exists|i: int| 0 <= i < entries.len() && entries[i].key == dir_prefix(parent) + n
                && entries[i].meta.is_directory == d
        },
        forall|i: int, n: Seq<char>| 0 <= i < entries.len() && n.len() > 0 && !n.contains('/')
            && entries[i].key == dir_prefix(parent) + n
            ==> #[trigger] listing(entries, parent).contains((n, entries[i].meta.is_directory)),
    decreases entries.len(),
{
    if entries.len() > 0 {
        let init = entries.drop_last();
        let e = entries.last();
        lemma_listing_direct_children(init, parent);
        lemma_listed_name_child(e.key, parent);
        let prev = listing(init, parent);
        let l = listing(entries, parent);
        assert forall|k: int| 0 <= k < l.len() implies {
            let (n, d) = #[trigger] l[k];
            &&& n.len() > 0
            &&& !n.contains('/')
            &&& exists|i: int| 0 <= i < entries.len() && entries[i].key == dir_prefix(parent) + n
                && entries[i].meta.is_directory == d
        } by {
            if k < prev.len() {
                assert(l[k] == prev[k]);
                let (n, d) = prev[k];
                let i = choose|i: int| 0 <= i < init.len() && init[i].key == dir_prefix(parent) + n
                    && init[i].meta.is_directory == d;
                assert(entries[i] == init[i]);
            } else {
                assert(entries[entries.len() - 1] == e);
            }
        }
        assert forall|i: int, n: Seq<char>| 0 <= i < entries.len() && n.len() > 0 && !n.contains('/')
            && entries[i].key == dir_prefix(parent) + n
            implies #[trigger] l.contains((n, entries[i].meta.is_directory)) by {
            if i < init.len() {
                assert(init[i] == entries[i]);
                assert(prev.contains((n, init[i].meta.is_directory)));
                let w = choose|w: int| 0 <= w < prev.len() && prev[w] == (n, init[i].meta.is_directory);
                if listed_name(e.key, parent) is Some {
                    assert(l[w] == prev[w]);
                } else {
                    assert(l == prev);
                }
            } else {
                assert(entries[i] == e);
                assert(l[l.len() - 1] == (n, e.meta.is_directory));
            }
        }
    }
}

} // verus!
