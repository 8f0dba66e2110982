//! Virtual address table: the files opened so far, and file contents read on
//! demand from, and written to, dynamically allocated non-contiguous blocks.
use vstd::prelude::*;
use vstd::utf8::{decode_utf8, encode_utf8, valid_utf8, encode_utf8_decode_utf8, encode_utf8_valid_utf8};
use vstd::string::StringSliceAdditionalSpecFns;
use crate::config::storage::{DISK_BLOCK_SIZE, TOTAL_DISK_BLOCKS};
use crate::disk::{DiskBlock, DiskController, zero_block, FIRST_DATA_BLOCK};
use crate::btree::{
    BPlusEntryMeta, DiskBPlusTree, EntryView, MetaView, append_bytes, inserted, lookup, saved_in,
    stored_entries, stored_in, without_key, find_key,
};
use crate::text::{decode_utf8_strict, same_text};

verus! {

/// A file known to the table.
#[derive(Clone, Debug)]
pub struct VatEntry {
    pub file_id: usize,
    pub path: String,
    pub size: u64,
    pub data_blocks: Vec<u64>,
    pub is_loaded: bool,
    pub is_dirty: bool,
}

/// Abstract table entry.
pub struct VatEntryView {
    pub file_id: usize,
    pub path: Seq<char>,
    pub size: u64,
    pub data_blocks: Seq<u64>,
    pub is_loaded: bool,
    pub is_dirty: bool,
}

impl VatEntry {
    pub open spec fn view(&self) -> VatEntryView {
        VatEntryView {
            file_id: self.file_id,
            path: self.path@,
            size: self.size,
            data_blocks: self.data_blocks@,
            is_loaded: self.is_loaded,
            is_dirty: self.is_dirty,
        }
    }
}

/// A block held in memory.
#[derive(Clone)]
pub struct PageCache {
    pub block_id: u64,
    pub data: DiskBlock,
    pub dirty: bool,
}

/// The table of open files and cached pages.
pub struct VirtualAddressTable {
    pub entries: Vec<VatEntry>,
    pub cache: Vec<PageCache>,
    pub next_file_id: usize,
}

/// Abstract view of the table's entries.
pub open spec fn table_view(v: Seq<VatEntry>) -> Seq<VatEntryView> {
    v.map_values(|e: VatEntry| e@)
}

/// The entries whose path is not `path`, in their order.
pub open spec fn entries_without(v: Seq<VatEntryView>, path: Seq<char>) -> Seq<VatEntryView>
    decreases v.len(),
{
    if v.len() == 0 {
        v
    } else {
        let rest = entries_without(v.drop_last(), path);
        if v.last().path == path {
            rest
        } else {
            rest.push(v.last())
        }
    }
}

/// Every entry's file id is below `next` and no two entries share one.
pub open spec fn ids_unique(v: Seq<VatEntryView>, next: usize) -> bool {
    &&& forall|i: int| 0 <= i < v.len() ==> #[trigger] v[i].file_id < next
    &&& forall|i: int, j: int| 0 <= i < j < v.len() ==> #[trigger] v[i].file_id != #[trigger] v[j].file_id
}

/// Registering an entry under the next file id, and counting on from it,
/// keeps file ids unique and below the next one.
pub proof fn lemma_register_keeps_ids_unique(v: Seq<VatEntryView>, next: usize, e: VatEntryView)
    requires
        ids_unique(v, next),
        e.file_id == next,
        next < usize::MAX,
    ensures
        ids_unique(v.push(e), (next + 1) as usize),
{
    let w = v.push(e);
    assert forall|i: int, j: int| 0 <= i < j < w.len() implies #[trigger] w[i].file_id != #[trigger] w[j].file_id by {
        assert(w[i] == v[i]);
        if j < v.len() {
            assert(w[j] == v[j]);
        }
    }
    assert forall|i: int| 0 <= i < w.len() implies #[trigger] w[i].file_id < next + 1 by {
        if i < v.len() {
            assert(w[i] == v[i]);
        }
    }
}

/// Forgetting a path keeps file ids unique and below the next one; every
/// remaining entry is one of the table's.
pub proof fn lemma_forget_keeps_ids_unique(v: Seq<VatEntryView>, next: usize, path: Seq<char>)
    requires
        ids_unique(v, next),
    ensures
        ids_unique(entries_without(v, path), next),
        forall|k: int| 0 <= k < entries_without(v, path).len() ==> v.contains(#[trigger] entries_without(v, path)[k]),
    decreases v.len(),
{
    if v.len() > 0 {
        let init = v.drop_last();
        assert forall|i: int, j: int| 0 <= i < j < init.len() implies #[trigger] init[i].file_id != #[trigger] init[j].file_id by {
            assert(init[i] == v[i] && init[j] == v[j]);
        }
        assert forall|i: int| 0 <= i < init.len() implies #[trigger] init[i].file_id < next by {
            assert(init[i] == v[i]);
        }
        lemma_forget_keeps_ids_unique(init, next, path);
        let rest = entries_without(init, path);
        assert forall|k: int| 0 <= k < rest.len() implies v.contains(#[trigger] rest[k]) by {
            let j = choose|j: int| 0 <= j < init.len() && init[j] == rest[k];
            assert(v[j] == init[j]);
        }
        if v.last().path != path {
            let w = rest.push(v.last());
            assert(entries_without(v, path) == w);
            assert forall|i: int, j: int| 0 <= i < j < w.len() implies #[trigger] w[i].file_id != #[trigger] w[j].file_id by {
                assert(w[i] == rest[i]);
                if j < rest.len() {
                    assert(w[j] == rest[j]);
                } else {
                    let m = choose|m: int| 0 <= m < init.len() && init[m] == rest[i];
                    assert(v[m] == init[m]);
                    assert(v[m].file_id != v[v.len() - 1].file_id);
                }
            }
            assert forall|i: int| 0 <= i < w.len() implies #[trigger] w[i].file_id < next by {
                if i < rest.len() {
                    assert(w[i] == rest[i]);
                    let m = choose|m: int| 0 <= m < init.len() && init[m] == rest[i];
                    assert(v[m] == init[m]);
                }
            }
            assert forall|k: int| 0 <= k < w.len() implies v.contains(#[trigger] w[k]) by {
                if k < rest.len() {
                    assert(w[k] == rest[k]);
                } else {
                    assert(v[v.len() - 1] == w[k]);
                }
            }
        }
    }
}

/// The bytes of the blocks `ids`, one after another; ids beyond the disk add nothing.
pub open spec fn file_bytes(contents: Seq<Seq<u8>>, ids: Seq<u64>) -> Seq<u8>
    decreases ids.len(),
{
    if ids.len() == 0 {
        Seq::empty()
    } else {
        let id = ids.last();
        let head = file_bytes(contents, ids.drop_last());
        if id < TOTAL_DISK_BLOCKS {
            head + contents[id as int]
        } else {
            head
        }
    }
}

/// A cached page as plain values: block id, bytes, dirty flag.
pub open spec fn page_view(p: PageCache) -> (u64, Seq<u8>, bool) {
    (p.block_id, p.data@, p.dirty)
}

/// The cached pages as plain values.
pub open spec fn cache_view(c: Seq<PageCache>) -> Seq<(u64, Seq<u8>, bool)> {
    c.map_values(|p: PageCache| page_view(p))
}

/// Index of the first cached page of block `id`.
pub open spec fn page_index(cache: Seq<(u64, Seq<u8>, bool)>, id: u64) -> Option<int>
    decreases cache.len(),
{
    if cache.len() == 0 {
        None
    } else if cache[0].0 == id {
        Some(0)
    } else {
        match page_index(cache.drop_first(), id) {
            Some(i) => Some(i + 1),
            None => None,
        }
    }
}

/// The cache once block `id` was read with bytes `data`: its page (the
/// first one, if it has one) holds them, clean; else a clean page is added.
pub open spec fn with_page(cache: Seq<(u64, Seq<u8>, bool)>, id: u64, data: Seq<u8>) -> Seq<(u64, Seq<u8>, bool)> {
    match page_index(cache, id) {
        Some(i) => cache.update(i, (id, data, false)),
        None => cache.push((id, data, false)),
    }
}

/// The cache once the blocks `ids` were read in order from a disk with these
/// contents; ids beyond the disk are not read.
pub open spec fn pages_loaded(cache: Seq<(u64, Seq<u8>, bool)>, contents: Seq<Seq<u8>>, ids: Seq<u64>) -> Seq<(u64, Seq<u8>, bool)>
    decreases ids.len(),
{
    if ids.len() == 0 {
        cache
    } else {
        let before = pages_loaded(cache, contents, ids.drop_last());
        let id = ids.last();
        if id < TOTAL_DISK_BLOCKS {
            with_page(before, id, contents[id as int])
        } else {
            before
        }
    }
}

/// The cache after reading `path`: the file's blocks are loaded when it is
/// a file of the index; otherwise nothing changes.
pub open spec fn cache_after_read(
    cache: Seq<(u64, Seq<u8>, bool)>,
    contents: Seq<Seq<u8>>,
    root: u64,
    path: Seq<char>,
) -> Seq<(u64, Seq<u8>, bool)> {
    match lookup(stored_in(contents, root), path) {
        Some(m) => if m.is_directory { cache } else { pages_loaded(cache, contents, m.data_blocks) },
        None => cache,
    }
}

proof fn lemma_page_index_first(cache: Seq<(u64, Seq<u8>, bool)>, id: u64, i: int)
    requires
        0 <= i <= cache.len(),
        forall|j: int| 0 <= j < i ==> cache[j].0 != id,
        i < cache.len() ==> cache[i].0 == id,
    ensures
        page_index(cache, id) == if i < cache.len() { Some(i) } else { None::<int> },
    decreases cache.len(),
{
    if cache.len() > 0 && i > 0 {
        let rest = cache.drop_first();
        assert forall|j: int| 0 <= j < i - 1 implies rest[j].0 != id by {
            assert(rest[j] == cache[j + 1]);
        }
        if i < cache.len() {
            assert(rest[i - 1] == cache[i]);
        }
        lemma_page_index_first(rest, id, i - 1);
    }
}

/// `bytes` cut to at most `size` bytes.
pub open spec fn cut_to(bytes: Seq<u8>, size: u64) -> Seq<u8> {
    if size < bytes.len() {
        bytes.take(size as int)
    } else {
        bytes
    }
}

/// What reading `path` gives on a disk with these block contents and index root.
pub open spec fn read_result(contents: Seq<Seq<u8>>, root: u64, path: Seq<char>) -> Result<Seq<char>, &'static str> {
    match lookup(stored_in(contents, root), path) {
        None => Err("File not found in B+ Tree index"),
        Some(m) => if m.is_directory {
            Err("Target is a directory")
        } else {
            let bytes = cut_to(file_bytes(contents, m.data_blocks), m.size);
            if valid_utf8(bytes) {
                Ok(decode_utf8(bytes))
            } else {
                Err("Failed to decode file content UTF-8")
            }
        },
    }
}

/// The allocation map after freeing `ids` (the reserved blocks stay allocated).
pub open spec fn freed_map(allocated: Seq<bool>, ids: Seq<u64>) -> Seq<bool> {
    Seq::new(
        allocated.len(),
        |i: int| allocated[i] && !(FIRST_DATA_BLOCK <= i && ids.contains(i as u64)),
    )
}

/// Number of blocks that hold `len` bytes.
pub open spec fn blocks_needed(len: int) -> int {
    len / (DISK_BLOCK_SIZE as int) + if len % (DISK_BLOCK_SIZE as int) == 0 { 0int } else { 1int }
}

/// Data blocks recorded for `path` in the index (none when it has no entry).
pub open spec fn recorded_blocks(entries: Seq<EntryView>, path: Seq<char>) -> Seq<u64> {
    match lookup(entries, path) {
        Some(m) => m.data_blocks,
        None => Seq::empty(),
    }
}

/// How many recorded blocks a file of `needed` blocks keeps.
pub open spec fn reused_count(recorded: Seq<u64>, needed: int) -> int {
    if needed < recorded.len() { needed } else { recorded.len() as int }
}

/// The first free block at or after `k`.
pub open spec fn first_free_from(allocated: Seq<bool>, k: int) -> Option<int>
    decreases TOTAL_DISK_BLOCKS - k,
{
    if k >= TOTAL_DISK_BLOCKS {
        None
    } else if !allocated[k] {
        Some(k)
    } else {
        first_free_from(allocated, k + 1)
    }
}

/// The blocks that `n` successive allocations hand out, each the lowest free
/// data block; `None` when the disk fills up first.
pub open spec fn allocation_run(allocated: Seq<bool>, n: nat) -> Option<Seq<u64>>
    decreases n,
{
    if n == 0 {
        Some(Seq::empty())
    } else {
        match first_free_from(allocated, FIRST_DATA_BLOCK as int) {
            None => None,
            Some(id) => match allocation_run(allocated.update(id, true), (n - 1) as nat) {
                Some(rest) => Some(seq![id as u64] + rest),
                None => None,
            },
        }
    }
}

/// The allocation map with `ids` marked allocated.
pub open spec fn marked_map(allocated: Seq<bool>, ids: Seq<u64>) -> Seq<bool> {
    Seq::new(allocated.len(), |i: int| allocated[i] || ids.contains(i as u64))
}

/// Block contents with the blocks `ids` zeroed.
pub open spec fn zeroed(contents: Seq<Seq<u8>>, ids: Seq<u64>) -> Seq<Seq<u8>> {
    Seq::new(contents.len(), |i: int| if ids.contains(i as u64) { zero_block() } else { contents[i] })
}

/// The allocation map once every data block has been taken.
pub open spec fn all_taken(allocated: Seq<bool>) -> Seq<bool> {
    Seq::new(allocated.len(), |i: int| FIRST_DATA_BLOCK <= i || allocated[i])
}

/// Block contents with every free data block zeroed.
pub open spec fn free_blocks_zeroed(contents: Seq<Seq<u8>>, allocated: Seq<bool>) -> Seq<Seq<u8>> {
    Seq::new(
        contents.len(),
        |i: int| if FIRST_DATA_BLOCK <= i && !allocated[i] { zero_block() } else { contents[i] },
    )
}

/// Piece `k` of `bytes`: the bytes from `k * DISK_BLOCK_SIZE` up to one block
/// further (or the end), padded with zeros to a block.
pub open spec fn chunk(bytes: Seq<u8>, k: int) -> Seq<u8> {
    let start = k * DISK_BLOCK_SIZE;
    let end = if start + DISK_BLOCK_SIZE < bytes.len() { start + DISK_BLOCK_SIZE } else { bytes.len() as int };
    bytes.subrange(start, end) + Seq::new((DISK_BLOCK_SIZE - (end - start)) as nat, |i: int| 0u8)
}

/// Block contents after writing piece `k` of `bytes` to block `ids[k]`, for
/// each `k` in order; ids beyond the disk are skipped.
pub open spec fn chunks_written(contents: Seq<Seq<u8>>, ids: Seq<u64>, bytes: Seq<u8>) -> Seq<Seq<u8>>
    decreases ids.len(),
{
    if ids.len() == 0 {
        contents
    } else {
        let k = ids.len() - 1;
        let before = chunks_written(contents, ids.drop_last(), bytes);
        if ids[k] < TOTAL_DISK_BLOCKS {
            before.update(ids[k] as int, chunk(bytes, k))
        } else {
            before
        }
    }
}

proof fn lemma_freed_map_push(allocated: Seq<bool>, ids: Seq<u64>, id: u64)
    requires
        allocated.len() == TOTAL_DISK_BLOCKS,
    ensures
        FIRST_DATA_BLOCK <= id < TOTAL_DISK_BLOCKS ==> freed_map(allocated, ids.push(id)) == freed_map(allocated, ids).update(id as int, false),
        !(FIRST_DATA_BLOCK <= id < TOTAL_DISK_BLOCKS) ==> freed_map(allocated, ids.push(id)) == freed_map(allocated, ids),
{
    let next = ids.push(id);
    assert forall|i: int| 0 <= i < TOTAL_DISK_BLOCKS implies #[trigger] next.contains(i as u64) == (ids.contains(i as u64) || id == i as u64) by {
        if ids.contains(i as u64) {
            let j = choose|j: int| 0 <= j < ids.len() && ids[j] == i as u64;
            assert(next[j] == i as u64);
        }
        if next.contains(i as u64) && id != i as u64 {
            let j = choose|j: int| 0 <= j < next.len() && next[j] == i as u64;
            assert(ids[j] == i as u64);
        }
        if id == i as u64 {
            assert(next[ids.len() as int] == id);
        }
    }
    if FIRST_DATA_BLOCK <= id < TOTAL_DISK_BLOCKS {
        assert(freed_map(allocated, next) =~= freed_map(allocated, ids).update(id as int, false));
    } else {
        assert(freed_map(allocated, next) =~= freed_map(allocated, ids));
    }
}

proof fn lemma_marked_push(allocated: Seq<bool>, contents: Seq<Seq<u8>>, ids: Seq<u64>, id: u64)
    requires
        allocated.len() == TOTAL_DISK_BLOCKS,
        contents.len() == TOTAL_DISK_BLOCKS,
        id < TOTAL_DISK_BLOCKS,
    ensures
        marked_map(allocated, ids.push(id)) == marked_map(allocated, ids).update(id as int, true),
        zeroed(contents, ids.push(id)) == zeroed(contents, ids).update(id as int, zero_block()),
{
    let next = ids.push(id);
    assert forall|i: int| 0 <= i < TOTAL_DISK_BLOCKS implies #[trigger] next.contains(i as u64) == (ids.contains(i as u64) || id == i as u64) by {
        if ids.contains(i as u64) {
            let j = choose|j: int| 0 <= j < ids.len() && ids[j] == i as u64;
            assert(next[j] == i as u64);
        }
        if next.contains(i as u64) && id != i as u64 {
            let j = choose|j: int| 0 <= j < next.len() && next[j] == i as u64;
            assert(ids[j] == i as u64);
        }
        if id == i as u64 {
            assert(next[ids.len() as int] == id);
        }
    }
    assert(marked_map(allocated, next) =~= marked_map(allocated, ids).update(id as int, true));
    assert(zeroed(contents, next) =~= zeroed(contents, ids).update(id as int, zero_block()));
}

proof fn lemma_first_free_is(allocated: Seq<bool>, k: int, id: int)
    requires
        k <= id < TOTAL_DISK_BLOCKS,
        !allocated[id],
        forall|j: int| k <= j < id ==> allocated[j],
    ensures
        first_free_from(allocated, k) == Some(id),
    decreases id - k,
{
    if k < id {
        lemma_first_free_is(allocated, k + 1, id);
    }
}

proof fn lemma_no_free_block(allocated: Seq<bool>, k: int)
    requires
        forall|j: int| k <= j < TOTAL_DISK_BLOCKS ==> allocated[j],
    ensures
        first_free_from(allocated, k) is None,
    decreases TOTAL_DISK_BLOCKS - k,
{
    if k < TOTAL_DISK_BLOCKS {
        lemma_no_free_block(allocated, k + 1);
    }
}

proof fn lemma_chunk_start(len: int, k: int)
    requires
        0 <= k < blocks_needed(len),
        0 <= len,
    ensures
        k * DISK_BLOCK_SIZE < len,
{
    let b = DISK_BLOCK_SIZE as int;
    assert(len == b * (len / b) + len % b) by (nonlinear_arith)
        requires b == 1024, 0 <= len;
    if len % b == 0 {
        assert(k * b <= (len / b - 1) * b) by (nonlinear_arith)
            requires k <= len / b - 1, b == 1024;
        assert((len / b - 1) * b == b * (len / b) - b) by (nonlinear_arith);
    } else {
        assert(k * b <= (len / b) * b) by (nonlinear_arith)
            requires k <= len / b, b == 1024;
        assert((len / b) * b == b * (len / b)) by (nonlinear_arith);
    }
}

/// The recorded blocks that a write of `len` bytes to `path` keeps, in order.
pub open spec fn reused_blocks(disk: DiskController, root: u64, path: Seq<char>, len: int) -> Seq<u64> {
    let recorded = recorded_blocks(stored_entries(disk, root), path);
    recorded.take(reused_count(recorded, blocks_needed(len)))
}

/// The allocation map once a write of `len` bytes to `path` has freed the
/// recorded blocks it no longer needs.
pub open spec fn released_map(disk: DiskController, root: u64, path: Seq<char>, len: int) -> Seq<bool> {
    let recorded = recorded_blocks(stored_entries(disk, root), path);
    freed_map(disk.allocated(), recorded.skip(reused_count(recorded, blocks_needed(len))))
}

/// The blocks that a write of `len` bytes to `path` allocates; `None` when
/// the disk fills up first.
pub open spec fn fresh_blocks(disk: DiskController, root: u64, path: Seq<char>, len: int) -> Option<Seq<u64>> {
    allocation_run(
        released_map(disk, root, path, len),
        (blocks_needed(len) - reused_blocks(disk, root, path, len).len()) as nat,
    )
}

/// Block contents after a successful write of `bytes` to `path`, given the
/// newly allocated blocks: the pieces of `bytes` in the kept and new blocks,
/// then the index with the file's new entry.
pub open spec fn contents_after_write(
    disk: DiskController,
    root: u64,
    path: Seq<char>,
    bytes: Seq<u8>,
    ticks: u64,
    fresh: Seq<u64>,
) -> Seq<Seq<u8>> {
    let ids = reused_blocks(disk, root, path, bytes.len() as int) + fresh;
    let c = chunks_written(zeroed(disk.contents(), fresh), ids, bytes);
    let meta = MetaView { is_directory: false, size: bytes.len() as u64, created_at: ticks, data_blocks: ids };
    saved_in(c, root, inserted(stored_in(c, root), path, meta))
}

/// Whether no block id occurs twice in `ids`.
pub open spec fn distinct_ids(ids: Seq<u64>) -> bool {
    forall|a: int, b: int| 0 <= a < b < ids.len() ==> ids[a] != ids[b]
}

/// The pieces `0..k` of `bytes`, one after another.
pub open spec fn chunks_joined(bytes: Seq<u8>, k: int) -> Seq<u8>
    decreases k,
{
    if k <= 0 {
        Seq::empty()
    } else {
        chunks_joined(bytes, k - 1) + chunk(bytes, k - 1)
    }
}

proof fn lemma_first_free_props(allocated: Seq<bool>, k: int)
    ensures
        first_free_from(allocated, k) matches Some(id) ==> k <= id < TOTAL_DISK_BLOCKS && !allocated[id],
    decreases TOTAL_DISK_BLOCKS - k,
{
    if k < TOTAL_DISK_BLOCKS && allocated[k] {
        lemma_first_free_props(allocated, k + 1);
    }
}

proof fn lemma_allocation_run(allocated: Seq<bool>, n: nat)
    requires
        allocated.len() == TOTAL_DISK_BLOCKS,
    ensures
        allocation_run(allocated, n) matches Some(f) ==> {
            &&& f.len() == n
            &&& distinct_ids(f)
            &&& forall|j: int| 0 <= j < f.len() ==> FIRST_DATA_BLOCK <= #[trigger] f[j] < TOTAL_DISK_BLOCKS && !allocated[f[j] as int]
        },
    decreases n,
{
    if n > 0 {
        lemma_first_free_props(allocated, FIRST_DATA_BLOCK as int);
        if let Some(id) = first_free_from(allocated, FIRST_DATA_BLOCK as int) {
            let after = allocated.update(id, true);
            lemma_allocation_run(after, (n - 1) as nat);
            if let Some(rest) = allocation_run(after, (n - 1) as nat) {
                let f = seq![id as u64] + rest;
                assert forall|j: int| 0 <= j < f.len() implies FIRST_DATA_BLOCK <= #[trigger] f[j] < TOTAL_DISK_BLOCKS && !allocated[f[j] as int] by {
                    if j > 0 {
                        assert(f[j] == rest[j - 1]);
                    }
                }
                assert forall|a: int, b: int| 0 <= a < b < f.len() implies f[a] != f[b] by {
                    assert(f[b] == rest[b - 1]);
                    if a > 0 {
                        assert(f[a] == rest[a - 1]);
                    } else {
                        assert(after[rest[b - 1] as int] == false);
                    }
                }
            }
        }
    }
}

proof fn lemma_chunks_written_at(contents: Seq<Seq<u8>>, ids: Seq<u64>, bytes: Seq<u8>)
    requires
        distinct_ids(ids),
        forall|j: int| 0 <= j < ids.len() ==> #[trigger] ids[j] < TOTAL_DISK_BLOCKS,
        contents.len() == TOTAL_DISK_BLOCKS,
    ensures
        chunks_written(contents, ids, bytes).len() == contents.len(),
        forall|j: int| 0 <= j < ids.len() ==> chunks_written(contents, ids, bytes)[#[trigger] ids[j] as int] == chunk(bytes, j),
        forall|x: int| 0 <= x < contents.len() && !ids.contains(x as u64) ==> #[trigger] chunks_written(contents, ids, bytes)[x] == contents[x],
    decreases ids.len(),
{
    if ids.len() > 0 {
        let prev = ids.drop_last();
        assert forall|j: int| 0 <= j < prev.len() implies #[trigger] prev[j] < TOTAL_DISK_BLOCKS by {
            assert(prev[j] == ids[j]);
        }
        lemma_chunks_written_at(contents, prev, bytes);
        let k = ids.len() - 1;
        assert forall|j: int| 0 <= j < ids.len() implies chunks_written(contents, ids, bytes)[#[trigger] ids[j] as int] == chunk(bytes, j) by {
            if j < k {
                assert(prev[j] == ids[j]);
                assert(ids[j] != ids[k]);
            }
        }
        assert forall|x: int| 0 <= x < contents.len() && !ids.contains(x as u64) implies chunks_written(contents, ids, bytes)[x] == contents[x] by {
            if prev.contains(x as u64) {
                let j = choose|j: int| 0 <= j < prev.len() && prev[j] == x as u64;
                assert(ids[j] == x as u64);
            }
            assert(ids[k] != x as u64);
        }
    }
}

proof fn lemma_file_bytes_chunks(contents: Seq<Seq<u8>>, ids: Seq<u64>, bytes: Seq<u8>, k: int)
    requires
        0 <= k <= ids.len(),
        forall|j: int| 0 <= j < ids.len() ==> #[trigger] ids[j] < TOTAL_DISK_BLOCKS,
        forall|j: int| 0 <= j < ids.len() ==> contents[#[trigger] ids[j] as int] == chunk(bytes, j),
    ensures
        file_bytes(contents, ids.take(k)) == chunks_joined(bytes, k),
    decreases k,
{
    if k > 0 {
        lemma_file_bytes_chunks(contents, ids, bytes, k - 1);
        assert(ids.take(k).drop_last() =~= ids.take(k - 1));
        assert(ids.take(k).last() == ids[k - 1]);
    } else {
        assert(ids.take(0) =~= Seq::<u64>::empty());
    }
}

proof fn lemma_chunks_joined(bytes: Seq<u8>, k: int)
    requires
        0 <= k <= blocks_needed(bytes.len() as int),
    ensures
        chunks_joined(bytes, k).len() == k * DISK_BLOCK_SIZE,
        forall|i: int| 0 <= i < k * DISK_BLOCK_SIZE && i < bytes.len() ==> #[trigger] chunks_joined(bytes, k)[i] == bytes[i],
    decreases k,
{
    if k > 0 {
        lemma_chunks_joined(bytes, k - 1);
        lemma_chunk_start(bytes.len() as int, k - 1);
        let prev = chunks_joined(bytes, k - 1);
        let c = chunk(bytes, k - 1);
        let start = (k - 1) * DISK_BLOCK_SIZE;
        assert(c.len() == DISK_BLOCK_SIZE);
        assert forall|i: int| 0 <= i < k * DISK_BLOCK_SIZE && i < bytes.len() implies #[trigger] chunks_joined(bytes, k)[i] == bytes[i] by {
            if i >= start {
                assert(chunks_joined(bytes, k)[i] == c[i - start]);
            }
        }
    }
}

proof fn lemma_blocks_cover(len: int)
    requires
        0 <= len,
    ensures
        len <= blocks_needed(len) * DISK_BLOCK_SIZE,
        0 <= blocks_needed(len),
{
    let b = DISK_BLOCK_SIZE as int;
    assert(len == b * (len / b) + len % b) by (nonlinear_arith)
        requires b == 1024, 0 <= len;
    assert(0 <= len / b) by (nonlinear_arith)
        requires b == 1024, 0 <= len;
}

proof fn lemma_file_bytes_update(contents: Seq<Seq<u8>>, ids: Seq<u64>, x: int, v: Seq<u8>)
    requires
        contents.len() == TOTAL_DISK_BLOCKS,
        0 <= x < contents.len(),
        !ids.contains(x as u64),
    ensures
        file_bytes(contents.update(x, v), ids) == file_bytes(contents, ids),
    decreases ids.len(),
{
    if ids.len() > 0 {
        let prev = ids.drop_last();
        if ids.last() == x as u64 {
            assert(ids[ids.len() - 1] == x as u64);
        }
        if prev.contains(x as u64) {
            let j = choose|j: int| 0 <= j < prev.len() && prev[j] == x as u64;
            assert(ids[j] == x as u64);
        }
        assert(ids.last() == ids[ids.len() - 1]);
        lemma_file_bytes_update(contents, prev, x, v);
    }
}

/// The blocks a successful write of `bytes` to `path` records: distinct
/// data blocks other than the root, the kept ones still allocated once the
/// unneeded ones are released, the fresh ones free before; the root stays
/// allocated and the data writes leave the index block as it was.
pub proof fn lemma_written_blocks(disk: DiskController, root: u64, path: Seq<char>, bytes: Seq<u8>)
    requires
        disk.inv(),
        root < TOTAL_DISK_BLOCKS,
        disk.allocated()[root as int],
        ({
            let recorded = recorded_blocks(stored_entries(disk, root), path);
            &&& distinct_ids(recorded)
            &&& !recorded.contains(root)
            &&& forall|j: int| 0 <= j < recorded.len() ==> FIRST_DATA_BLOCK <= #[trigger] recorded[j] < TOTAL_DISK_BLOCKS
                && disk.allocated()[recorded[j] as int]
        }),
        fresh_blocks(disk, root, path, bytes.len() as int) is Some,
    ensures
        ({
            let len = bytes.len() as int;
            let kept = reused_blocks(disk, root, path, len);
            let fresh = fresh_blocks(disk, root, path, len).unwrap();
            let free_map = released_map(disk, root, path, len);
            let ids = kept + fresh;
            let c = chunks_written(zeroed(disk.contents(), fresh), ids, bytes);
            &&& ids.len() == blocks_needed(len)
            &&& distinct_ids(ids)
            &&& forall|j: int| 0 <= j < ids.len() ==> FIRST_DATA_BLOCK <= #[trigger] ids[j] < TOTAL_DISK_BLOCKS && ids[j] != root
            &&& forall|j: int| 0 <= j < kept.len() ==> free_map[#[trigger] kept[j] as int]
            &&& forall|j: int| 0 <= j < fresh.len() ==> !free_map[#[trigger] fresh[j] as int]
            &&& free_map.len() == TOTAL_DISK_BLOCKS
            &&& free_map[root as int]
            &&& !ids.contains(root)
            &&& !fresh.contains(root)
            &&& c.len() == TOTAL_DISK_BLOCKS
            &&& forall|j: int| 0 <= j < ids.len() ==> c[#[trigger] ids[j] as int] == chunk(bytes, j)
            &&& c[root as int] == disk.contents()[root as int]
            &&& stored_in(c, root) == stored_entries(disk, root)
        }),
{
    let len = bytes.len() as int;
    let recorded = recorded_blocks(stored_entries(disk, root), path);
    let needed = blocks_needed(len);
    let reused = reused_count(recorded, needed);
    let kept = reused_blocks(disk, root, path, len);
    let free_map = released_map(disk, root, path, len);
    let fresh = fresh_blocks(disk, root, path, len).unwrap();
    let ids = kept + fresh;
    let c0 = disk.contents();
    let z = zeroed(c0, fresh);
    let c = chunks_written(z, ids, bytes);
    disk.lemma_contents_len(0);
    lemma_blocks_cover(len);
    lemma_allocation_run(free_map, (needed - kept.len()) as nat);
    // the kept blocks stay allocated after the release, so none of them is fresh
    assert forall|j: int| 0 <= j < kept.len() implies free_map[#[trigger] kept[j] as int] by {
        assert(kept[j] == recorded[j]);
        if recorded.skip(reused).contains(kept[j]) {
            let m = choose|m: int| 0 <= m < recorded.skip(reused).len() && recorded.skip(reused)[m] == kept[j];
            assert(recorded[m + reused] == recorded[j]);
        }
    }
    assert(free_map[root as int]) by {
        if recorded.skip(reused).contains(root) {
            let m = choose|m: int| 0 <= m < recorded.skip(reused).len() && recorded.skip(reused)[m] == root;
            assert(recorded[m + reused] == root);
        }
    }
    assert(ids.len() == needed);
    assert forall|j: int| 0 <= j < ids.len() implies FIRST_DATA_BLOCK <= #[trigger] ids[j] < TOTAL_DISK_BLOCKS && ids[j] != root by {
        if j < kept.len() {
            assert(ids[j] == recorded[j]);
            assert(recorded[j] != root);
        } else {
            assert(ids[j] == fresh[j - kept.len()]);
        }
    }
    assert(distinct_ids(ids)) by {
        assert forall|a: int, b: int| 0 <= a < b < ids.len() implies ids[a] != ids[b] by {
            if b < kept.len() {
                assert(ids[a] == recorded[a] && ids[b] == recorded[b]);
            } else if a >= kept.len() {
                assert(ids[a] == fresh[a - kept.len()] && ids[b] == fresh[b - kept.len()]);
            } else {
                assert(ids[a] == kept[a] && ids[b] == fresh[b - kept.len()]);
                assert(free_map[kept[a] as int]);
            }
        }
    }
    assert(!ids.contains(root));
    assert(!fresh.contains(root)) by {
        if fresh.contains(root) {
            let j = choose|j: int| 0 <= j < fresh.len() && fresh[j] == root;
        }
    }
    lemma_chunks_written_at(z, ids, bytes);
    // the index block is untouched by the data writes
    assert(z[root as int] == c0[root as int]);
    assert(c[root as int] == z[root as int]);
    assert(stored_in(c, root) == stored_entries(disk, root));
}

/// What a read gives back of a write: once `text` has been written to `path`
/// (the write succeeded), reading `path` gives `text` back. This holds when
/// the index root is an allocated block outside the file's blocks, the blocks
/// the file had are distinct allocated data blocks, and the index with the
/// new entry still fits in its block.
pub proof fn lemma_write_then_read(disk: DiskController, root: u64, path: Seq<char>, text: Seq<char>, ticks: u64)
    requires
        disk.inv(),
        encode_utf8(text).len() <= u64::MAX,
        root < TOTAL_DISK_BLOCKS,
        disk.allocated()[root as int],
        ({
            let recorded = recorded_blocks(stored_entries(disk, root), path);
            &&& distinct_ids(recorded)
            &&& !recorded.contains(root)
            &&& forall|j: int| 0 <= j < recorded.len() ==> FIRST_DATA_BLOCK <= #[trigger] recorded[j] < TOTAL_DISK_BLOCKS
                && disk.allocated()[recorded[j] as int]
        }),
        fresh_blocks(disk, root, path, encode_utf8(text).len() as int) is Some,
        ({
            let bytes = encode_utf8(text);
            let ids = reused_blocks(disk, root, path, bytes.len() as int) + fresh_blocks(disk, root, path, bytes.len() as int).unwrap();
            let meta = MetaView { is_directory: false, size: bytes.len() as u64, created_at: ticks, data_blocks: ids };
            crate::btree::fits_in_leaf(inserted(stored_entries(disk, root), path, meta))
        }),
    ensures
        read_result(
            contents_after_write(disk, root, path, encode_utf8(text), ticks, fresh_blocks(disk, root, path, encode_utf8(text).len() as int).unwrap()),
            root,
            path,
        ) == Ok::<Seq<char>, &'static str>(text),
{
    let bytes = encode_utf8(text);
    let len = bytes.len() as int;
    let needed = blocks_needed(len);
    let kept = reused_blocks(disk, root, path, len);
    let fresh = fresh_blocks(disk, root, path, len).unwrap();
    let ids = kept + fresh;
    let c = chunks_written(zeroed(disk.contents(), fresh), ids, bytes);
    let meta = MetaView { is_directory: false, size: bytes.len() as u64, created_at: ticks, data_blocks: ids };
    lemma_written_blocks(disk, root, path, bytes);
    lemma_blocks_cover(len);
    let entries = inserted(stored_in(c, root), path, meta);
    let c2 = saved_in(c, root, entries);
    assert(c2 == contents_after_write(disk, root, path, bytes, ticks, fresh));
    crate::btree::lemma_insert_then_search(stored_in(c, root), path, meta);
    assert(stored_in(c2, root) == crate::btree::parse_leaf(crate::btree::leaf_block(entries)));
    assert(lookup(stored_in(c2, root), path) == Some(meta));
    lemma_file_bytes_update(c, ids, root as int, crate::btree::leaf_block(entries));
    lemma_file_bytes_chunks(c, ids, bytes, ids.len() as int);
    assert(ids.take(ids.len() as int) =~= ids);
    lemma_chunks_joined(bytes, needed);
    assert(cut_to(file_bytes(c2, ids), meta.size) =~= bytes);
    encode_utf8_decode_utf8(text);
    encode_utf8_valid_utf8(text);
}

/// Once the entry of `path` has been deleted, reading `path` finds no file,
/// provided the remaining index fits in its block.
pub proof fn lemma_delete_then_read(contents: Seq<Seq<u8>>, root: u64, path: Seq<char>)
    requires
        contents.len() == TOTAL_DISK_BLOCKS,
        root < TOTAL_DISK_BLOCKS,
        crate::btree::fits_in_leaf(without_key(stored_in(contents, root), path)),
    ensures
        read_result(saved_in(contents, root, without_key(stored_in(contents, root), path)), root, path)
            == Err::<Seq<char>, &'static str>("File not found in B+ Tree index"),
{
    crate::btree::lemma_remove_then_search(stored_in(contents, root), path);
}

/// Index of the first table entry for `path`.
pub open spec fn entry_index(v: Seq<VatEntryView>, path: Seq<char>) -> Option<int>
    decreases v.len(),
{
    if v.len() == 0 {
        None
    } else if v[0].path == path {
        Some(0)
    } else {
        match entry_index(v.drop_first(), path) {
            Some(i) => Some(i + 1),
            None => None,
        }
    }
}

impl VirtualAddressTable {
    /// The table entry for `path`; a file that the table does not know yet
    /// but the index does is registered first, with the next file id, its
    /// size and blocks from the index, neither loaded nor dirty.
    pub fn get_or_register_entry(&mut self, tree: &DiskBPlusTree, disk: &DiskController, path: &str) -> (r: Option<&mut VatEntry>)
        requires
            disk.inv(),
            old(self).next_file_id < usize::MAX,
        ensures
            final(self).cache@ == old(self).cache@,
            match entry_index(table_view(old(self).entries@), path@) {
                Some(i) => r matches Some(e) && *e == old(self).entries@[i]
                    && final(self).entries@ == old(self).entries@.update(i, *final(e))
                    && final(self).next_file_id == old(self).next_file_id,
                None => match lookup(stored_entries(*disk, tree.root_block_id), path@) {
                    None => r is None && *final(self) == *old(self),
                    Some(m) => r matches Some(e)
                        && e@ == (VatEntryView {
                            file_id: old(self).next_file_id,
                            path: path@,
                            size: m.size,
                            data_blocks: m.data_blocks,
                            is_loaded: false,
                            is_dirty: false,
                        })
                        && final(self).entries@ == old(self).entries@.push(*final(e))
                        && final(self).next_file_id == old(self).next_file_id + 1,
                },
            },
    {
        let ghost ev = table_view(self.entries@);
        let mut i: usize = 0;
        assert(ev.skip(0) =~= ev);
        while i < self.entries.len()
            invariant
                ev == table_view(self.entries@),
                *self == *old(self),
                i <= self.entries@.len(),
                entry_index(ev, path@) == match entry_index(ev.skip(i as int), path@) {
                    Some(j) => Some(j + i),
                    None => None,
                },
            decreases self.entries@.len() - i,
        {
            let ghost sk = ev.skip(i as int);
            assert(sk.drop_first() =~= ev.skip(i + 1));
            assert(sk[0] == self.entries@[i as int]@);
            if same_text(self.entries[i].path.as_str(), path) {
                assert(entry_index(sk, path@) == Some(0int));
                return Some(&mut self.entries[i]);
            }
            i = i + 1;
        }
        assert(ev.skip(i as int) =~= Seq::<VatEntryView>::empty());
        match tree.search(disk, path) {
            Some(meta) => {
                let id = self.next_file_id;
                self.next_file_id = self.next_file_id + 1;
                self.entries.push(VatEntry {
                    file_id: id,
                    path: path.to_owned(),
                    size: meta.size,
                    data_blocks: meta.data_blocks,
                    is_loaded: false,
                    is_dirty: false,
                });
                let idx = self.entries.len() - 1;
                Some(&mut self.entries[idx])
            },
            None => None,
        }
    }

    /// An empty table; file ids start at 1.
    pub fn new() -> (r: Self)
        ensures
            r.entries@.len() == 0,
            r.cache@.len() == 0,
            r.next_file_id == 1,
    {
        VirtualAddressTable { entries: Vec::new(), cache: Vec::new(), next_file_id: 1 }
    }

    /// Puts the bytes of block `id` into the page cache (see `with_page`).
    fn load_page(&mut self, id: u64, data: DiskBlock)
        ensures
            cache_view(final(self).cache@) == with_page(cache_view(old(self).cache@), id, data@),
            final(self).entries@ == old(self).entries@,
            final(self).next_file_id == old(self).next_file_id,
    {
        let ghost cv = cache_view(self.cache@);
        let n = self.cache.len();
        let mut i: usize = 0;
        while i < n && self.cache[i].block_id != id
            invariant
                n == self.cache@.len(),
                cv == cache_view(self.cache@),
                i <= n,
                forall|j: int| 0 <= j < i ==> cv[j].0 != id,
            decreases n - i,
        {
            i = i + 1;
        }
        proof {
            lemma_page_index_first(cv, id, i as int);
        }
        let page = PageCache { block_id: id, data, dirty: false };
        if i < n {
            self.cache.set(i, page);
        } else {
            self.cache.push(page);
        }
        assert(cache_view(self.cache@) =~= with_page(cv, id, data@));
    }

    /// Reads the contents of the file at `path` from its blocks into the page
    /// cache, and returns them cut to its recorded size.
    pub fn read_file_on_demand(&mut self, tree: &DiskBPlusTree, disk: &DiskController, path: &str) -> (r: Result<String, &'static str>)
        requires
            disk.inv(),
        ensures
            match read_result(disk.contents(), tree.root_block_id, path@) {
                Ok(text) => r matches Ok(s) && s@ == text,
                Err(e) => r == Err::<String, &'static str>(e),
            },
            cache_view(final(self).cache@) == cache_after_read(
                cache_view(old(self).cache@),
                disk.contents(),
                tree.root_block_id,
                path@,
            ),
            final(self).entries@ == old(self).entries@,
            final(self).next_file_id == old(self).next_file_id,
    {
        let found = tree.search(disk, path);
        let meta = match found {
            Some(m) => m,
            None => {
                return Err("File not found in B+ Tree index");
            },
        };
        if meta.is_directory {
            return Err("Target is a directory");
        }
        let ghost ids = meta.data_blocks@;
        let mut content: Vec<u8> = Vec::new();
        assert(ids.take(0) =~= Seq::<u64>::empty());
        let ghost cv0 = cache_view(self.cache@);
        for k in 0..meta.data_blocks.len()
            invariant
                disk.inv(),
                ids == meta.data_blocks@,
                content@ == file_bytes(disk.contents(), ids.take(k as int)),
                cache_view(self.cache@) == pages_loaded(cv0, disk.contents(), ids.take(k as int)),
                self.entries@ == old(self).entries@,
                self.next_file_id == old(self).next_file_id,
        {
            let block_id = meta.data_blocks[k];
            let mut block: DiskBlock = Vec::new();
            assert(ids.take(k + 1).drop_last() =~= ids.take(k as int));
            if disk.read_block(block_id, &mut block).is_ok() {
                append_bytes(&mut content, block.as_slice());
                self.load_page(block_id, block);
            }
        }
        assert(ids.take(ids.len() as int) =~= ids);
        if meta.size < content.len() as u64 {
            content.truncate(meta.size as usize);
        }
        match decode_utf8_strict(content) {
            Some(s) => Ok(s),
            None => Err("Failed to decode file content UTF-8"),
        }
    }

    /// Stores `text` as the contents of the file at `path`: the blocks it
    /// already has are reused in order and those no longer needed are freed,
    /// further blocks are allocated (lowest free first) without moving the
    /// others, each block receives its piece of the text, and the index entry
    /// records the size, the tick and the block list.
    pub fn write_file_dynamic(
        &mut self,
        tree: &mut DiskBPlusTree,
        disk: &mut DiskController,
        path: &str,
        text: &str,
        ticks: u64,
    ) -> (r: Result<(), &'static str>)
        requires
            old(disk).inv(),
        ensures
            final(disk).inv(),
            final(tree).root_block_id == old(tree).root_block_id,
            final(disk).is_initialized() == old(disk).is_initialized(),
            *final(self) == *old(self),
            ({
                let root = old(tree).root_block_id;
                let bytes = text.spec_bytes();
                let free_map = released_map(*old(disk), root, path@, bytes.len() as int);
                match fresh_blocks(*old(disk), root, path@, bytes.len() as int) {
                    None => {
                        &&& r == Err::<(), &'static str>("Disk storage full")
                        &&& final(disk).allocated() == all_taken(free_map)
                        &&& final(disk).contents() == free_blocks_zeroed(old(disk).contents(), free_map)
                    },
                    Some(fresh) => {
                        &&& r == Ok::<(), &'static str>(())
                        &&& final(disk).allocated() == marked_map(free_map, fresh)
                        &&& final(disk).contents() == contents_after_write(*old(disk), root, path@, bytes, ticks, fresh)
                    },
                }
            }),
    {
        let text_bytes = text.as_bytes();
        let len = text_bytes.len();
        let total_size = len as u64;
        let needed: usize = len / DISK_BLOCK_SIZE + if len % DISK_BLOCK_SIZE == 0 { 0 } else { 1 };
        let ghost root = tree.root_block_id;
        let ghost recorded = recorded_blocks(stored_entries(*disk, root), path@);
        let ghost alloc0 = disk.allocated();
        proof {
            disk.lemma_contents_len(0);
        }
        let existing = tree.search(disk, path);
        let mut allocated_blocks: Vec<u64> = Vec::new();
        if let Some(meta) = existing {
            assert(meta.data_blocks@ == recorded);
            assert(recorded.subrange(0, 0) =~= Seq::<u64>::empty());
            assert(freed_map(alloc0, Seq::<u64>::empty()) =~= alloc0);
            for k in 0..meta.data_blocks.len()
                invariant
                    disk.inv(),
                    meta.data_blocks@ == recorded,
                    alloc0 == old(disk).allocated(),
                    alloc0.len() == TOTAL_DISK_BLOCKS,
                    disk.is_initialized() == old(disk).is_initialized(),
                    disk.contents() == old(disk).contents(),
                    allocated_blocks@ == recorded.take(reused_count(recorded.take(k as int), needed as int)),
                    disk.allocated() == freed_map(alloc0, recorded.subrange(reused_count(recorded.take(k as int), needed as int), k as int)),
            {
                let blk = meta.data_blocks[k];
                let ghost m = reused_count(recorded.take(k as int), needed as int);
                if allocated_blocks.len() < needed {
                    allocated_blocks.push(blk);
                    assert(allocated_blocks@ =~= recorded.take(k + 1));
                    assert(recorded.subrange(k + 1, k + 1) =~= recorded.subrange(k as int, k as int));
                } else {
                    disk.free_block(blk);
                    proof {
                        lemma_freed_map_push(alloc0, recorded.subrange(m, k as int), blk);
                        assert(recorded.subrange(m, k + 1) =~= recorded.subrange(m, k as int).push(blk));
                    }
                }
            }
            assert(recorded.take(recorded.len() as int) =~= recorded);
        } else {
            assert(recorded =~= Seq::<u64>::empty());
            assert(recorded.skip(0) =~= Seq::<u64>::empty());
            assert(freed_map(alloc0, Seq::<u64>::empty()) =~= alloc0);
            assert(recorded.take(0) =~= Seq::<u64>::empty());
        }
        let ghost reused = reused_count(recorded, needed as int);
        assert(recorded.subrange(reused, recorded.len() as int) =~= recorded.skip(reused));
        let ghost free_map = disk.allocated();
        let ghost c_free = disk.contents();
        let ghost kept = allocated_blocks@;
        let ghost extra = (needed - kept.len()) as nat;
        let ghost mut fresh: Seq<u64> = Seq::empty();
        assert(kept + fresh =~= kept);
        assert(marked_map(free_map, fresh) =~= free_map);
        assert(zeroed(c_free, fresh) =~= c_free);
        assert(fresh + allocation_run(free_map, extra).unwrap() =~= allocation_run(free_map, extra).unwrap());
        while allocated_blocks.len() < needed
            invariant
                disk.inv(),
                free_map.len() == TOTAL_DISK_BLOCKS,
                c_free.len() == TOTAL_DISK_BLOCKS,
                disk.is_initialized() == old(disk).is_initialized(),
                kept.len() <= needed,
                allocated_blocks@.len() <= needed,
                kept.len() == reused,
                reused == reused_count(recorded, needed as int),
                recorded == recorded_blocks(stored_entries(*old(disk), root), path@),
                root == old(tree).root_block_id,
                free_map == freed_map(old(disk).allocated(), recorded.skip(reused)),
                c_free == old(disk).contents(),
                text_bytes@ == text.spec_bytes(),
                needed == blocks_needed(text_bytes@.len() as int),
                extra == needed - kept.len(),
                allocated_blocks@ == kept + fresh,
                disk.allocated() == marked_map(free_map, fresh),
                disk.contents() == zeroed(c_free, fresh),
                forall|j: int| 0 <= j < fresh.len() ==> FIRST_DATA_BLOCK <= #[trigger] fresh[j] < TOTAL_DISK_BLOCKS && !free_map[fresh[j] as int],
                allocation_run(free_map, extra) == match allocation_run(disk.allocated(), (needed - allocated_blocks@.len()) as nat) {
                    Some(rest) => Some(fresh + rest),
                    None => None,
                },
            decreases needed - allocated_blocks@.len(),
        {
            let ghost cur = disk.allocated();
            let ghost rem = (needed - allocated_blocks@.len()) as nat;
            match disk.allocate_block() {
                Ok(new_blk) => {
                    proof {
                        lemma_first_free_is(cur, FIRST_DATA_BLOCK as int, new_blk as int);
                        lemma_marked_push(free_map, c_free, fresh, new_blk);
                        let after = cur.update(new_blk as int, true);
                        match allocation_run(after, (rem - 1) as nat) {
                            Some(rest) => {
                                assert(fresh + (seq![new_blk] + rest) =~= fresh.push(new_blk) + rest);
                            },
                            None => {},
                        }
                        if fresh.contains(new_blk) {
                            let j = choose|j: int| 0 <= j < fresh.len() && fresh[j] == new_blk;
                            assert(cur[new_blk as int]);
                        }
                        fresh = fresh.push(new_blk);
                    }
                    allocated_blocks.push(new_blk);
                    assert(allocated_blocks@ =~= kept + fresh);
                },
                Err(e) => {
                    proof {
                        lemma_no_free_block(cur, FIRST_DATA_BLOCK as int);
                        assert(rem > 0);
                        assert(allocation_run(cur, rem) is None);
                        assert(allocation_run(free_map, extra) is None);
                        assert(needed == blocks_needed(text.spec_bytes().len() as int));
                        assert(kept.len() == reused);
                        assert(disk.allocated() =~= all_taken(free_map)) by {
                            assert forall|i: int| 0 <= i < TOTAL_DISK_BLOCKS implies #[trigger] disk.allocated()[i] == all_taken(free_map)[i] by {
                                if i < FIRST_DATA_BLOCK && fresh.contains(i as u64) {
                                    let j = choose|j: int| 0 <= j < fresh.len() && fresh[j] == i as u64;
                                }
                            }
                        }
                        assert(disk.contents() =~= free_blocks_zeroed(c_free, free_map)) by {
                            assert forall|i: int| 0 <= i < TOTAL_DISK_BLOCKS implies #[trigger] disk.contents()[i] == free_blocks_zeroed(c_free, free_map)[i] by {
                                if fresh.contains(i as u64) {
                                    let j = choose|j: int| 0 <= j < fresh.len() && fresh[j] == i as u64;
                                }
                                if FIRST_DATA_BLOCK <= i && !free_map[i] {
                                    assert(cur[i]);
                                }
                            }
                        }
                    }
                    return Err(e);
                },
            }
        }
        let ghost c_alloc = disk.contents();
        let ghost ids = allocated_blocks@;
        let ghost bytes = text_bytes@;
        assert(ids.take(0) =~= Seq::<u64>::empty());
        for k in 0..allocated_blocks.len()
            invariant
                disk.inv(),
                disk.is_initialized() == old(disk).is_initialized(),
                disk.allocated() == marked_map(free_map, fresh),
                ids == allocated_blocks@,
                ids.len() == needed,
                bytes == text_bytes@,
                len == bytes.len(),
                needed == blocks_needed(len as int),
                disk.contents() == chunks_written(c_alloc, ids.take(k as int), bytes),
        {
            let blk_id = allocated_blocks[k];
            proof {
                lemma_chunk_start(len as int, k as int);
            }
            let start = k * DISK_BLOCK_SIZE;
            let end = if len - start > DISK_BLOCK_SIZE { start + DISK_BLOCK_SIZE } else { len };
            let mut block_buf: Vec<u8> = Vec::new();
            append_bytes(&mut block_buf, &text_bytes[start..end]);
            let ghost piece = block_buf@;
            while block_buf.len() < DISK_BLOCK_SIZE
                invariant
                    piece.len() == end - start,
                    piece.len() <= block_buf@.len() <= DISK_BLOCK_SIZE,
                    block_buf@ == piece + Seq::new((block_buf@.len() - piece.len()) as nat, |i: int| 0u8),
                decreases DISK_BLOCK_SIZE - block_buf@.len(),
            {
                block_buf.push(0u8);
                assert(block_buf@ =~= piece + Seq::new((block_buf@.len() - piece.len()) as nat, |i: int| 0u8));
            }
            assert(block_buf@ =~= chunk(bytes, k as int));
            assert(ids.take(k + 1).drop_last() =~= ids.take(k as int));
            let _ = disk.write_block(blk_id, &block_buf);
        }
        assert(ids.take(ids.len() as int) =~= ids);
        let new_meta = BPlusEntryMeta {
            is_directory: false,
            size: total_size,
            created_at: ticks,
            data_blocks: allocated_blocks,
        };
        let _ = tree.insert(disk, path, new_meta);
        Ok(())
    }

    /// Removes the index entry of `path`, frees its blocks and forgets the
    /// table entries of that path.
    pub fn delete_entry(&mut self, tree: &mut DiskBPlusTree, disk: &mut DiskController, path: &str) -> (r: Result<(), &'static str>)
        requires
            old(disk).inv(),
        ensures
            final(disk).inv(),
            final(tree).root_block_id == old(tree).root_block_id,
            final(disk).is_initialized() == old(disk).is_initialized(),
            final(self).cache@ == old(self).cache@,
            final(self).next_file_id == old(self).next_file_id,
            match lookup(stored_entries(*old(disk), old(tree).root_block_id), path@) {
                None => {
                    &&& r == Err::<(), &'static str>("Target path not found")
                    &&& final(disk).contents() == old(disk).contents()
                    &&& final(disk).allocated() == old(disk).allocated()
                    &&& final(self).entries@ == old(self).entries@
                },
                Some(m) => {
                    &&& r == Ok::<(), &'static str>(())
                    &&& final(disk).allocated() == freed_map(old(disk).allocated(), m.data_blocks)
                    &&& final(disk).contents() == saved_in(
                        old(disk).contents(),
                        old(tree).root_block_id,
                        without_key(stored_entries(*old(disk), old(tree).root_block_id), path@),
                    )
                    &&& table_view(final(self).entries@) == entries_without(table_view(old(self).entries@), path@)
                },
            },
    {
        let found = tree.search(disk, path);
        let meta = match found {
            Some(m) => m,
            None => {
                return Err("Target path not found");
            },
        };
        let ghost ids = meta.data_blocks@;
        let ghost alloc0 = disk.allocated();
        proof {
            disk.lemma_contents_len(0);
        }
        assert(freed_map(alloc0, ids.take(0)) =~= alloc0);
        for k in 0..meta.data_blocks.len()
            invariant
                disk.inv(),
                ids == meta.data_blocks@,
                alloc0 == old(disk).allocated(),
                alloc0.len() == TOTAL_DISK_BLOCKS,
                disk.is_initialized() == old(disk).is_initialized(),
                disk.contents() == old(disk).contents(),
                disk.allocated() == freed_map(alloc0, ids.take(k as int)),
        {
            let block_id = meta.data_blocks[k];
            disk.free_block(block_id);
            proof {
                let prev = ids.take(k as int);
                let next = ids.take(k + 1);
                assert(next =~= prev.push(block_id));
                assert forall|i: int| 0 <= i < TOTAL_DISK_BLOCKS implies
                    #[trigger] freed_map(alloc0, next)[i] == disk.allocated()[i] by {
                    if prev.contains(i as u64) {
                        let j = choose|j: int| 0 <= j < prev.len() && prev[j] == i as u64;
                        assert(next[j] == i as u64);
                    }
                    if next.contains(i as u64) && i as u64 != block_id {
                        let j = choose|j: int| 0 <= j < next.len() && next[j] == i as u64;
                        assert(j < k);
                        assert(prev[j] == i as u64);
                    }
                    if i as u64 == block_id {
                        assert(next[k as int] == block_id);
                    }
                }
                assert(freed_map(alloc0, next) =~= disk.allocated());
            }
        }
        assert(ids.take(ids.len() as int) =~= ids);
        let _ = tree.remove(disk, path);
        proof {
            crate::btree::lemma_find_key(stored_entries(*old(disk), old(tree).root_block_id), path@);
        }
        let mut rest: Vec<VatEntry> = Vec::new();
        std::mem::swap(&mut self.entries, &mut rest);
        let ghost orig = rest@;
        let ghost ov = table_view(orig);
        let ghost mut i: int = 0;
        assert(ov.take(0) =~= Seq::<VatEntryView>::empty());
        assert(rest@ =~= orig.skip(0));
        while rest.len() > 0
            invariant
                0 <= i <= orig.len(),
                ov == table_view(orig),
                rest@ == orig.skip(i),
                self.cache@ == old(self).cache@,
                self.next_file_id == old(self).next_file_id,
                table_view(self.entries@) == entries_without(ov.take(i), path@),
            decreases rest@.len(),
        {
            let e = rest.remove(0);
            assert(e == orig[i]);
            assert(ov.take(i + 1).drop_last() =~= ov.take(i));
            assert(ov.take(i + 1).last() == orig[i]@);
            if !same_text(e.path.as_str(), path) {
                self.entries.push(e);
            }
            proof {
                i = i + 1;
            }
            assert(table_view(self.entries@) =~= entries_without(ov.take(i), path@));
            assert(rest@ =~= orig.skip(i));
        }
        assert(ov.take(i) =~= ov);
        Ok(())
    }
}

} // verus!
