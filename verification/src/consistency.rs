//! Consistency of the filesystem: the index root block is reserved, every
//! path appears once in the index, and each entry's data blocks are
//! distinct allocated data blocks held by no other entry. Creating,
//! writing and deleting keep it, and on a consistent filesystem a read
//! gives back what was written.
use vstd::prelude::*;
use crate::btree::{EntryView, MetaView, inserted, lookup, find_key, sort_by_key, without_key, insert_pos};
use crate::config::storage::{SUPERBLOCK_BLOCK_ID, SUPERBLOCK_MAGIC, TOTAL_DISK_BLOCKS};
use crate::disk::FIRST_DATA_BLOCK;
use crate::vat::distinct_ids;
use crate::fs::{FileSystem, brought_up, directory_meta, create_result, delete_result, entry_created, file_text, file_written, node_deleted, write_result};
use crate::vat::{freed_map, fresh_blocks, marked_map, recorded_blocks, released_map, reused_blocks};
use vstd::utf8::encode_utf8;

verus! {

/// No two entries of the index share a key.
pub open spec fn keys_unique(idx: Seq<EntryView>) -> bool {
    forall|a: int, b: int| 0 <= a < b < idx.len() ==> idx[a].key != idx[b].key
}

/// The blocks of an entry are distinct allocated data blocks other than the root.
pub open spec fn entry_owned(e: EntryView, allocated: Seq<bool>, root: u64) -> bool {
    &&& distinct_ids(e.meta.data_blocks)
    &&& forall|j: int| 0 <= j < e.meta.data_blocks.len() ==> {
        let b = #[trigger] e.meta.data_blocks[j];
        &&& FIRST_DATA_BLOCK <= b < TOTAL_DISK_BLOCKS
        &&& allocated[b as int]
        &&& b != root
    }
}

/// Two entries hold no block in common.
pub open spec fn entries_disjoint(e1: EntryView, e2: EntryView) -> bool {
    forall|j1: int, j2: int|
        0 <= j1 < e1.meta.data_blocks.len() && 0 <= j2 < e2.meta.data_blocks.len() ==> #[trigger] e1.meta.data_blocks[j1]
            != #[trigger] e2.meta.data_blocks[j2]
}

/// Distinct entries of the index hold disjoint blocks.
pub open spec fn blocks_disjoint(idx: Seq<EntryView>) -> bool {
    forall|a: int, b: int| 0 <= a < idx.len() && 0 <= b < idx.len() && a != b ==> entries_disjoint(#[trigger] idx[a], #[trigger] idx[b])
}

/// The index, allocation map and root block fit together (see the module).
pub open spec fn index_consistent(idx: Seq<EntryView>, allocated: Seq<bool>, root: u64) -> bool {
    &&& allocated.len() == TOTAL_DISK_BLOCKS
    &&& root < TOTAL_DISK_BLOCKS
    &&& allocated[root as int]
    &&& keys_unique(idx)
    &&& blocks_disjoint(idx)
    &&& forall|i: int| 0 <= i < idx.len() ==> entry_owned(#[trigger] idx[i], allocated, root)
}

/// Sorting keeps unique keys and disjoint blocks.
proof fn lemma_sort_keeps(s: Seq<EntryView>)
    requires
        keys_unique(s),
        blocks_disjoint(s),
    ensures
        keys_unique(sort_by_key(s)),
        blocks_disjoint(sort_by_key(s)),
    decreases s.len(),
{
    crate::btree::lemma_sort_members(s);
    if s.len() > 0 {
        let prev = s.drop_last();
        assert(keys_unique(prev));
        assert(blocks_disjoint(prev)) by {
            assert forall|a: int, b: int| 0 <= a < prev.len() && 0 <= b < prev.len() && a != b implies entries_disjoint(
                #[trigger] prev[a],
                #[trigger] prev[b],
            ) by {
                assert(prev[a] == s[a] && prev[b] == s[b]);
            }
        }
        lemma_sort_keeps(prev);
        crate::btree::lemma_sort_members(prev);
        let sorted = sort_by_key(prev);
        let x = s.last();
        let p = insert_pos(sorted, x);
        crate::btree::lemma_insert_pos_range(sorted, x);
        sorted.insert_ensures(p, x);
        let r = sort_by_key(s);
        assert(r == sorted.insert(p, x));
        // every entry that was already sorted came before `x` in `s`
        assert forall|k: int| 0 <= k < sorted.len() implies (#[trigger] sorted[k]).key != x.key && entries_disjoint(
            sorted[k],
            x,
        ) && entries_disjoint(x, sorted[k]) by {
            assert(prev.contains(sorted[k]));
            let m = choose|m: int| 0 <= m < prev.len() && prev[m] == sorted[k];
            assert(s[m] == sorted[k]);
            assert(entries_disjoint(s[m], s[s.len() - 1]));
            assert(entries_disjoint(s[s.len() - 1], s[m]));
        }
        assert forall|a: int, b: int| 0 <= a < b < r.len() implies r[a].key != r[b].key by {
            if b < p {
                assert(r[a] == sorted[a] && r[b] == sorted[b]);
            } else if b == p {
                assert(r[a] == sorted[a] && r[b] == x);
            } else if a < p {
                assert(r[a] == sorted[a] && r[b] == sorted[b - 1]);
            } else if a == p {
                assert(r[a] == x && r[b] == sorted[b - 1]);
            } else {
                assert(r[a] == sorted[a - 1] && r[b] == sorted[b - 1]);
            }
        }
        assert forall|a: int, b: int| 0 <= a < r.len() && 0 <= b < r.len() && a != b implies entries_disjoint(
            #[trigger] r[a],
            #[trigger] r[b],
        ) by {
            let ia = if a < p { a } else if a == p { -1 } else { a - 1 };
            let ib = if b < p { b } else if b == p { -1 } else { b - 1 };
            if ia >= 0 {
                assert(r[a] == sorted[ia]);
            } else {
                assert(r[a] == x);
            }
            if ib >= 0 {
                assert(r[b] == sorted[ib]);
            } else {
                assert(r[b] == x);
            }
        }
    }
}


/// The filesystem is consistent (see `index_consistent`).
pub open spec fn fs_consistent(fs: FileSystem) -> bool {
    index_consistent(fs.index(), fs.disk.allocated(), fs.tree.root_block_id)
}

/// Adding an entry without blocks under a new key keeps the index consistent.
proof fn lemma_added_entry(idx: Seq<EntryView>, allocated: Seq<bool>, root: u64, key: Seq<char>, meta: MetaView)
    requires
        index_consistent(idx, allocated, root),
        find_key(idx, key) is None,
        meta.data_blocks.len() == 0,
    ensures
        index_consistent(inserted(idx, key, meta), allocated, root),
{
    crate::btree::lemma_find_key(idx, key);
    let e = EntryView { key, meta };
    let pushed = idx.push(e);
    assert(keys_unique(pushed)) by {
        assert forall|a: int, b: int| 0 <= a < b < pushed.len() implies pushed[a].key != pushed[b].key by {
            if b == idx.len() {
                assert(pushed[a] == idx[a]);
            } else {
                assert(pushed[a] == idx[a] && pushed[b] == idx[b]);
            }
        }
    }
    assert(blocks_disjoint(pushed)) by {
        assert forall|a: int, b: int| 0 <= a < pushed.len() && 0 <= b < pushed.len() && a != b implies entries_disjoint(
            #[trigger] pushed[a],
            #[trigger] pushed[b],
        ) by {
            if a < idx.len() && b < idx.len() {
                assert(pushed[a] == idx[a] && pushed[b] == idx[b]);
            }
        }
    }
    lemma_sort_keeps(pushed);
    crate::btree::lemma_sort_members(pushed);
    let r = sort_by_key(pushed);
    assert forall|i: int| 0 <= i < r.len() implies entry_owned(#[trigger] r[i], allocated, root) by {
        assert(pushed.contains(r[i]));
        let m = choose|m: int| 0 <= m < pushed.len() && pushed[m] == r[i];
        if m < idx.len() {
            assert(pushed[m] == idx[m]);
        }
    }
}

/// Creating an entry without blocks (a directory or an empty file) keeps
/// the filesystem consistent, provided the index still fits its leaf block.
pub proof fn lemma_create_keeps_consistency(pre: FileSystem, post: FileSystem, p: Seq<char>, meta: MetaView)
    requires
        pre.wf(),
        fs_consistent(pre),
        create_result(pre, p) is Ok,
        entry_created(pre, post, p, meta),
        meta.data_blocks.len() == 0,
        crate::btree::fits_in_leaf(inserted(pre.index(), p, meta)),
    ensures
        fs_consistent(post),
{
    let root = pre.tree.root_block_id;
    pre.disk.lemma_contents_len(root as int);
    lemma_added_entry(pre.index(), pre.disk.allocated(), root, p, meta);
    crate::btree::lemma_leaf_roundtrip(inserted(pre.index(), p, meta));
}


/// The entries left after removing a key are entries of the index, and they
/// keep unique keys and disjoint blocks.
proof fn lemma_without_keeps(entries: Seq<EntryView>, key: Seq<char>)
    requires
        keys_unique(entries),
        blocks_disjoint(entries),
    ensures
        forall|k: int| 0 <= k < without_key(entries, key).len() ==> entries.contains(#[trigger] without_key(entries, key)[k]),
        keys_unique(without_key(entries, key)),
        blocks_disjoint(without_key(entries, key)),
    decreases entries.len(),
{
    if entries.len() > 0 {
        let prev = entries.drop_last();
        assert(keys_unique(prev));
        assert(blocks_disjoint(prev)) by {
            assert forall|a: int, b: int| 0 <= a < prev.len() && 0 <= b < prev.len() && a != b implies entries_disjoint(
                #[trigger] prev[a],
                #[trigger] prev[b],
            ) by {
                assert(prev[a] == entries[a] && prev[b] == entries[b]);
            }
        }
        lemma_without_keeps(prev, key);
        let w = without_key(prev, key);
        let x = entries.last();
        assert forall|k: int| 0 <= k < w.len() implies (#[trigger] w[k]).key != x.key && entries_disjoint(w[k], x)
            && entries_disjoint(x, w[k]) && entries.contains(w[k]) by {
            assert(prev.contains(w[k]));
            let m = choose|m: int| 0 <= m < prev.len() && prev[m] == w[k];
            assert(entries[m] == w[k]);
            assert(entries_disjoint(entries[m], entries[entries.len() - 1]));
            assert(entries_disjoint(entries[entries.len() - 1], entries[m]));
        }
        if x.key != key {
            let r = w.push(x);
            assert(r == without_key(entries, key));
            assert forall|k: int| 0 <= k < r.len() implies entries.contains(#[trigger] r[k]) by {
                if k == w.len() {
                    assert(entries[entries.len() - 1] == x);
                } else {
                    assert(r[k] == w[k]);
                }
            }
            assert forall|a: int, b: int| 0 <= a < b < r.len() implies r[a].key != r[b].key by {
                assert(r[a] == w[a]);
                if b < w.len() {
                    assert(r[b] == w[b]);
                }
            }
            assert forall|a: int, b: int| 0 <= a < r.len() && 0 <= b < r.len() && a != b implies entries_disjoint(
                #[trigger] r[a],
                #[trigger] r[b],
            ) by {
                if a < w.len() {
                    assert(r[a] == w[a]);
                }
                if b < w.len() {
                    assert(r[b] == w[b]);
                }
            }
        }
    }
}

/// Deleting a path keeps the filesystem consistent, provided the remaining
/// index fits its leaf block.
pub proof fn lemma_delete_keeps_consistency(pre: FileSystem, post: FileSystem, p: Seq<char>)
    requires
        pre.wf(),
        fs_consistent(pre),
        delete_result(pre, p) is Ok,
        node_deleted(pre, post, p),
        crate::btree::fits_in_leaf(without_key(pre.index(), p)),
    ensures
        fs_consistent(post),
{
    let root = pre.tree.root_block_id;
    let idx = pre.index();
    let al = pre.disk.allocated();
    pre.disk.lemma_contents_len(root as int);
    crate::btree::lemma_leaf_roundtrip(without_key(idx, p));
    crate::btree::lemma_find_key(idx, p);
    crate::btree::lemma_without_key(idx, p);
    lemma_without_keeps(idx, p);
    let k = find_key(idx, p)->0;
    let gone = idx[k].meta.data_blocks;
    let al2 = freed_map(al, gone);
    assert(entry_owned(idx[k], al, root));
    assert(!gone.contains(root)) by {
        if gone.contains(root) {
            let j = choose|j: int| 0 <= j < gone.len() && gone[j] == root;
        }
    }
    let w = without_key(idx, p);
    assert forall|i: int| 0 <= i < w.len() implies entry_owned(#[trigger] w[i], al2, root) by {
        assert(idx.contains(w[i]));
        let m = choose|m: int| 0 <= m < idx.len() && idx[m] == w[i];
        assert(m != k);
        assert(entries_disjoint(idx[m], idx[k]));
        assert(entry_owned(idx[m], al, root));
        let bl = w[i].meta.data_blocks;
        assert forall|j: int| 0 <= j < bl.len() implies al2[#[trigger] bl[j] as int] by {
            if gone.contains(bl[j]) {
                let t = choose|t: int| 0 <= t < gone.len() && gone[t] == bl[j];
                assert(idx[m].meta.data_blocks[j] != idx[k].meta.data_blocks[t]);
            }
        }
    }
}


/// On a consistent filesystem the blocks recorded for a path are distinct
/// allocated data blocks other than the root.
proof fn lemma_recorded_owned(fs: FileSystem, p: Seq<char>)
    requires
        fs_consistent(fs),
    ensures
        ({
            let recorded = recorded_blocks(fs.index(), p);
            &&& distinct_ids(recorded)
            &&& !recorded.contains(fs.tree.root_block_id)
            &&& forall|j: int| 0 <= j < recorded.len() ==> FIRST_DATA_BLOCK <= #[trigger] recorded[j] < TOTAL_DISK_BLOCKS
                && fs.disk.allocated()[recorded[j] as int]
        }),
{
    let idx = fs.index();
    crate::btree::lemma_find_key(idx, p);
    let recorded = recorded_blocks(idx, p);
    if let Some(k) = find_key(idx, p) {
        assert(entry_owned(idx[k], fs.disk.allocated(), fs.tree.root_block_id));
        assert(!recorded.contains(fs.tree.root_block_id)) by {
            if recorded.contains(fs.tree.root_block_id) {
                let j = choose|j: int| 0 <= j < recorded.len() && recorded[j] == fs.tree.root_block_id;
            }
        }
    }
}

/// Writing a file keeps the filesystem consistent, provided (when the write
/// succeeds) the index with the file's new entry fits its leaf block.
pub proof fn lemma_write_keeps_consistency(pre: FileSystem, post: FileSystem, p: Seq<char>, bytes: Seq<u8>, ticks: u64)
    requires
        pre.wf(),
        fs_consistent(pre),
        bytes.len() <= u64::MAX,
        file_written(pre, post, p, bytes, ticks),
        ({
            let root = pre.tree.root_block_id;
            let len = bytes.len() as int;
            fresh_blocks(pre.disk, root, p, len) matches Some(fresh) ==> crate::btree::fits_in_leaf(
                inserted(
                    pre.index(),
                    p,
                    MetaView {
                        is_directory: false,
                        size: bytes.len() as u64,
                        created_at: ticks,
                        data_blocks: reused_blocks(pre.disk, root, p, len) + fresh,
                    },
                ),
            )
        }),
    ensures
        fs_consistent(post),
{
    let root = pre.tree.root_block_id;
    let idx = pre.index();
    let al = pre.disk.allocated();
    let len = bytes.len() as int;
    let free_map = released_map(pre.disk, root, p, len);
    let recorded = recorded_blocks(idx, p);
    pre.disk.lemma_contents_len(root as int);
    lemma_recorded_owned(pre, p);
    crate::btree::lemma_find_key(idx, p);
    // entries other than the written one keep their blocks allocated
    let tail = recorded.skip(crate::vat::reused_count(recorded, crate::vat::blocks_needed(len)));
    assert(free_map == freed_map(al, tail));
    assert forall|i: int, j: int|
        0 <= i < idx.len() && idx[i].key != p && 0 <= j < idx[i].meta.data_blocks.len() implies free_map[
        #[trigger] idx[i].meta.data_blocks[j] as int] by {
        assert(entry_owned(idx[i], al, root));
        if let Some(k) = find_key(idx, p) {
            assert(i != k);
            assert(entries_disjoint(idx[i], idx[k]));
            if tail.contains(idx[i].meta.data_blocks[j]) {
                let t = choose|t: int| 0 <= t < tail.len() && tail[t] == idx[i].meta.data_blocks[j];
                assert(idx[k].meta.data_blocks[t + crate::vat::reused_count(recorded, crate::vat::blocks_needed(len))]
                    == tail[t]);
            }
        } else {
            assert(tail.len() == 0);
        }
    }
    match fresh_blocks(pre.disk, root, p, len) {
        None => {
            assert(free_map[root as int]) by {
                if tail.contains(root) {
                    let t = choose|t: int| 0 <= t < tail.len() && tail[t] == root;
                    assert(recorded[t + crate::vat::reused_count(recorded, crate::vat::blocks_needed(len))] == root);
                }
            }
            assert(post.disk.contents()[root as int] == pre.disk.contents()[root as int]);
            assert(post.index() == idx);
            let al2 = post.disk.allocated();
            assert forall|i: int| 0 <= i < idx.len() implies entry_owned(#[trigger] idx[i], al2, root) by {
                assert(entry_owned(idx[i], al, root));
            }
        },
        Some(fresh) => {
            crate::vat::lemma_written_blocks(pre.disk, root, p, bytes);
            let kept = reused_blocks(pre.disk, root, p, len);
            let ids = kept + fresh;
            let meta = MetaView { is_directory: false, size: bytes.len() as u64, created_at: ticks, data_blocks: ids };
            let c = crate::vat::chunks_written(crate::vat::zeroed(pre.disk.contents(), fresh), ids, bytes);
            let ins = inserted(idx, p, meta);
            crate::btree::lemma_leaf_roundtrip(ins);
            assert(post.index() == ins);
            let al2 = marked_map(free_map, fresh);
            assert(al2 == post.disk.allocated());
            let e = EntryView { key: p, meta };
            assert(entry_owned(e, al2, root)) by {
                assert forall|j: int| 0 <= j < ids.len() implies al2[#[trigger] ids[j] as int] by {
                    if j >= kept.len() {
                        assert(ids[j] == fresh[j - kept.len()]);
                        assert(fresh.contains(ids[j]));
                    } else {
                        assert(ids[j] == kept[j]);
                    }
                }
            }
            // the new blocks are held by no other entry
            assert forall|i: int| 0 <= i < idx.len() && idx[i].key != p implies entries_disjoint(#[trigger] idx[i], e)
                && entries_disjoint(e, idx[i]) && entry_owned(idx[i], al2, root) by {
                assert(entry_owned(idx[i], al, root));
                let bl = idx[i].meta.data_blocks;
                assert forall|j1: int, j2: int| 0 <= j1 < bl.len() && 0 <= j2 < ids.len() implies bl[j1] != ids[j2] by {
                    assert(free_map[bl[j1] as int]);
                    if j2 < kept.len() {
                        assert(ids[j2] == kept[j2]);
                        if let Some(k) = find_key(idx, p) {
                            assert(kept[j2] == idx[k].meta.data_blocks[j2]);
                            assert(entries_disjoint(idx[i], idx[k]));
                        }
                    } else {
                        assert(ids[j2] == fresh[j2 - kept.len()]);
                    }
                }
                assert forall|j: int| 0 <= j < bl.len() implies al2[#[trigger] bl[j] as int] by {
                    assert(free_map[bl[j] as int]);
                }
            }
            match find_key(idx, p) {
                Some(k) => {
                    assert(ins == idx.update(k, EntryView { key: idx[k].key, meta }));
                    assert(idx[k].key == p);
                    assert(ins[k] == e);
                    assert forall|a: int, b: int| 0 <= a < b < ins.len() implies ins[a].key != ins[b].key by {
                        assert(ins[a].key == idx[a].key);
                        assert(ins[b].key == idx[b].key);
                    }
                    assert forall|a: int, b: int| 0 <= a < ins.len() && 0 <= b < ins.len() && a != b implies entries_disjoint(
                        #[trigger] ins[a],
                        #[trigger] ins[b],
                    ) by {
                        if a != k && b != k {
                            assert(ins[a] == idx[a] && ins[b] == idx[b]);
                        } else if a == k {
                            assert(ins[b] == idx[b] && idx[b].key != p);
                        } else {
                            assert(ins[a] == idx[a] && idx[a].key != p);
                        }
                    }
                    assert forall|i: int| 0 <= i < ins.len() implies entry_owned(#[trigger] ins[i], al2, root) by {
                        if i != k {
                            assert(ins[i] == idx[i] && idx[i].key != p);
                        }
                    }
                },
                None => {
                    let pushed = idx.push(e);
                    assert(keys_unique(pushed)) by {
                        assert forall|a: int, b: int| 0 <= a < b < pushed.len() implies pushed[a].key != pushed[b].key by {
                            assert(pushed[a] == idx[a]);
                            if b < idx.len() {
                                assert(pushed[b] == idx[b]);
                            }
                        }
                    }
                    assert(blocks_disjoint(pushed)) by {
                        assert forall|a: int, b: int| 0 <= a < pushed.len() && 0 <= b < pushed.len() && a != b implies entries_disjoint(
                            #[trigger] pushed[a],
                            #[trigger] pushed[b],
                        ) by {
                            if a < idx.len() {
                                assert(pushed[a] == idx[a]);
                            }
                            if b < idx.len() {
                                assert(pushed[b] == idx[b]);
                            }
                        }
                    }
                    lemma_sort_keeps(pushed);
                    crate::btree::lemma_sort_members(pushed);
                    assert forall|i: int| 0 <= i < ins.len() implies entry_owned(#[trigger] ins[i], al2, root) by {
                        assert(pushed.contains(ins[i]));
                        let m = choose|m: int| 0 <= m < pushed.len() && pushed[m] == ins[i];
                        if m < idx.len() {
                            assert(pushed[m] == idx[m]);
                        }
                    }
                },
            }
        },
    }
}

/// What a read gives back of a write, on a consistent filesystem: after
/// writing `text` to `p` (the write succeeded), reading `p` gives `text`,
/// provided the index with the file's entry fits its leaf block.
pub proof fn lemma_consistent_write_then_read(pre: FileSystem, post: FileSystem, p: Seq<char>, text: Seq<char>, ticks: u64)
    requires
        pre.wf(),
        fs_consistent(pre),
        encode_utf8(text).len() <= u64::MAX,
        write_result(pre, p, encode_utf8(text)) is Ok,
        file_written(pre, post, p, encode_utf8(text), ticks),
        ({
            let root = pre.tree.root_block_id;
            let len = encode_utf8(text).len() as int;
            let ids = reused_blocks(pre.disk, root, p, len) + fresh_blocks(pre.disk, root, p, len).unwrap();
            let meta = MetaView { is_directory: false, size: len as u64, created_at: ticks, data_blocks: ids };
            crate::btree::fits_in_leaf(inserted(pre.index(), p, meta))
        }),
    ensures
        file_text(post, p) == Ok::<Seq<char>, &'static str>(text),
        fs_consistent(post),
{
    lemma_recorded_owned(pre, p);
    crate::fs::lemma_file_write_then_read(pre, post, p, text, ticks);
    lemma_write_keeps_consistency(pre, post, p, encode_utf8(text), ticks);
}

/// A volume without a valid superblock comes up formatted and consistent,
/// its index holding the root directory "/" alone.
pub proof fn lemma_formatted_volume_consistent(pre: FileSystem, post: FileSystem)
    requires
        pre.wf(),
        !pre.is_initialized(),
        crate::btree::read_u64(pre.disk.contents()[SUPERBLOCK_BLOCK_ID as int], 0) != SUPERBLOCK_MAGIC,
        brought_up(pre, post),
    ensures
        fs_consistent(post),
        post.index() == seq![EntryView { key: seq!['/'], meta: directory_meta(0) }],
{
    pre.disk.lemma_contents_len(0);
    let empty = Seq::<EntryView>::empty();
    crate::btree::lemma_leaf_roundtrip(empty);
    let e = EntryView { key: seq!['/'], meta: directory_meta(0) };
    let one = seq![e];
    assert(sort_by_key(empty.push(e)) == one) by {
        let s = empty.push(e);
        assert(s.drop_last() =~= empty);
        assert(sort_by_key(empty) == empty);
        assert(insert_pos(empty, e) == 0);
        assert(empty.insert(0, e) =~= one);
    }
    assert(crate::btree::fits_in_leaf(one)) by {
        assert(one.drop_first() =~= empty);
        assert(encode_utf8(seq!['/']).len() <= 4) by {
            assert(seq!['/'].drop_first() =~= Seq::<char>::empty());
            reveal_with_fuel(encode_utf8, 2);
        }
        assert(crate::btree::key_bytes(e) == encode_utf8(seq!['/']));
        assert(crate::btree::record_len(e) <= 4 + 4 + crate::btree::FIXED_FIELDS);
        assert(crate::btree::all_fit(empty, 4 + crate::btree::record_len(e)));
    }
    crate::btree::lemma_leaf_roundtrip(one);
    assert(index_consistent(one, post.disk.allocated(), 2)) by {
        assert forall|i: int| 0 <= i < one.len() implies entry_owned(#[trigger] one[i], post.disk.allocated(), 2) by {
            assert(one[i] == e);
        }
    }
}

/// When `s` has unique keys, every entry of `t` with key `k` is one of
/// `s`'s and every entry of `s` with key `k` is in `t`, looking `k` up in
/// `t` finds what it finds in `s`.
proof fn lemma_lookup_same(s: Seq<EntryView>, t: Seq<EntryView>, k: Seq<char>)
    requires
        keys_unique(s),
        forall|j: int| 0 <= j < t.len() && t[j].key == k ==> s.contains(#[trigger] t[j]),
        forall|j: int| 0 <= j < s.len() && s[j].key == k ==> t.contains(#[trigger] s[j]),
    ensures
        lookup(t, k) == lookup(s, k),
{
    crate::btree::lemma_find_key(s, k);
    crate::btree::lemma_find_key(t, k);
    match find_key(s, k) {
        Some(i) => {
            assert(t.contains(s[i]));
            let w = choose|w: int| 0 <= w < t.len() && t[w] == s[i];
            assert(t[w].key == k);
            let i2 = find_key(t, k)->0;
            assert(s.contains(t[i2]));
            let m = choose|m: int| 0 <= m < s.len() && s[m] == t[i2];
            if m != i {
                if m < i {
                    assert(s[m].key != s[i].key);
                } else {
                    assert(s[i].key != s[m].key);
                }
            }
        },
        None => {
            if find_key(t, k) is Some {
                let i2 = find_key(t, k)->0;
                assert(s.contains(t[i2]));
                let m = choose|m: int| 0 <= m < s.len() && s[m] == t[i2];
                assert(s[m].key == k);
            }
        },
    }
}

/// Storing `meta` under `key` leaves what every other key looks up, in an
/// index whose keys are unique; once saved to its leaf block and read back
/// (the entries still fitting) it is the same.
pub proof fn lemma_insert_keeps_other_keys(entries: Seq<EntryView>, key: Seq<char>, meta: MetaView, other: Seq<char>)
    requires
        keys_unique(entries),
        other != key,
    ensures
        lookup(inserted(entries, key, meta), other) == lookup(entries, other),
        crate::btree::fits_in_leaf(inserted(entries, key, meta)) ==> lookup(
            crate::btree::parse_leaf(crate::btree::leaf_block(inserted(entries, key, meta))),
            other,
        ) == lookup(entries, other),
{
    let t = inserted(entries, key, meta);
    crate::btree::lemma_find_key(entries, key);
    match find_key(entries, key) {
        Some(i) => {
            assert forall|j: int| 0 <= j < t.len() && t[j].key == other implies entries.contains(#[trigger] t[j]) by {
                assert(j != i);
                assert(t[j] == entries[j]);
            }
            assert forall|j: int| 0 <= j < entries.len() && entries[j].key == other implies t.contains(#[trigger] entries[j]) by {
                assert(j != i);
                assert(t[j] == entries[j]);
            }
        },
        None => {
            let e = EntryView { key, meta };
            let pushed = entries.push(e);
            crate::btree::lemma_sort_members(pushed);
            assert forall|j: int| 0 <= j < t.len() && t[j].key == other implies entries.contains(#[trigger] t[j]) by {
                assert(pushed.contains(t[j]));
                let w = choose|w: int| 0 <= w < pushed.len() && pushed[w] == t[j];
                if w < entries.len() {
                    assert(pushed[w] == entries[w]);
                } else {
                    assert(pushed[w] == e);
                }
            }
            assert forall|j: int| 0 <= j < entries.len() && entries[j].key == other implies t.contains(#[trigger] entries[j]) by {
                assert(pushed[j] == entries[j]);
            }
        },
    }
    lemma_lookup_same(entries, t, other);
    if crate::btree::fits_in_leaf(t) {
        crate::btree::lemma_leaf_roundtrip(t);
    }
}

} // verus!
