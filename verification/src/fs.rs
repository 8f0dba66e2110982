//! Filesystem interface: paths made of segments, directories and files kept
//! in the on-disk index, file contents through the virtual address table.
use vstd::prelude::*;
use vstd::utf8::encode_utf8;
use crate::btree::{
    BPlusEntryMeta, DiskBPlusTree, MetaView, inserted, listing, lookup, names_view, saved_contents,
    stored_entries, stored_in, saved_in, root_after_init, contents_after_init, allocated_after_init,
};
use crate::config::storage::SUPERBLOCK_BLOCK_ID;
use crate::disk::{DiskController, zero_block};
use crate::text::{chars_of, push_char, push_text, string_of};
use crate::vat::VirtualAddressTable;
use vstd::string::StringSliceAdditionalSpecFns;

verus! {

/// Kind of a filesystem node.
pub enum Node {
    File,
    Directory,
}

/// The segments as plain character sequences.
pub open spec fn segs_view(v: Seq<String>) -> Seq<Seq<char>> {
    v.map_values(|s: String| s@)
}

/// Each segment preceded by '/'.
pub open spec fn joined(segs: Seq<Seq<char>>) -> Seq<char>
    decreases segs.len(),
{
    if segs.len() == 0 {
        Seq::empty()
    } else {
        joined(segs.drop_last()) + seq!['/'] + segs.last()
    }
}

/// The canonical text of the path made of `segs`: "/" when there are none.
pub open spec fn path_text(segs: Seq<Seq<char>>) -> Seq<char> {
    if segs.len() == 0 {
        seq!['/']
    } else {
        joined(segs)
    }
}

/// The pieces of `s` between '/' characters (there is always at least one).
pub open spec fn split_slash(s: Seq<char>) -> Seq<Seq<char>>
    decreases s.len(),
{
    if s.len() == 0 {
        seq![Seq::empty()]
    } else {
        let p = split_slash(s.drop_last());
        if s.last() == '/' {
            p.push(Seq::empty())
        } else {
            p.update(p.len() - 1, p.last().push(s.last()))
        }
    }
}

/// The segments after one piece of a path: an empty piece and "." stay
/// put, ".." goes up one level (not above the root), a name goes down.
pub open spec fn step(segs: Seq<Seq<char>>, piece: Seq<char>) -> Seq<Seq<char>> {
    if piece.len() == 0 || piece == seq!['.'] {
        segs
    } else if piece == seq!['.', '.'] {
        if segs.len() == 0 { segs } else { segs.drop_last() }
    } else {
        segs.push(piece)
    }
}

/// The segments after the pieces, one after another.
pub open spec fn walk(segs: Seq<Seq<char>>, pieces: Seq<Seq<char>>) -> Seq<Seq<char>>
    decreases pieces.len(),
{
    if pieces.len() == 0 {
        segs
    } else {
        step(walk(segs, pieces.drop_last()), pieces.last())
    }
}

/// Segments of `path` taken from the root when it begins with '/', else from `cwd`.
pub open spec fn resolved(cwd: Seq<Seq<char>>, path: Seq<char>) -> Seq<Seq<char>> {
    let start = if path.len() > 0 && path[0] == '/' { Seq::empty() } else { cwd };
    walk(start, split_slash(path))
}

pub proof fn lemma_segs_view(v: Seq<String>)
    ensures
        segs_view(v).len() == v.len(),
        forall|i: int| 0 <= i < v.len() ==> #[trigger] segs_view(v)[i] == v[i]@,
{
}

proof fn lemma_split_nonempty(s: Seq<char>)
    ensures
        split_slash(s).len() >= 1,
    decreases s.len(),
{
    if s.len() > 0 {
        lemma_split_nonempty(s.drop_last());
    }
}

/// A segment of a canonical path: a non-empty name that is neither "." nor
/// ".." and holds no '/'.
pub open spec fn name_segment(x: Seq<char>) -> bool {
    x.len() > 0 && x != seq!['.'] && x != seq!['.', '.'] && !x.contains('/')
}

/// Every segment is a name.
pub open spec fn normalized(segs: Seq<Seq<char>>) -> bool {
    forall|i: int| 0 <= i < segs.len() ==> name_segment(#[trigger] segs[i])
}

proof fn lemma_split_no_slash(s: Seq<char>)
    ensures
        forall|i: int| 0 <= i < split_slash(s).len() ==> !(#[trigger] split_slash(s)[i]).contains('/'),
    decreases s.len(),
{
    lemma_split_nonempty(s);
    if s.len() > 0 {
        let init = s.drop_last();
        lemma_split_no_slash(init);
        lemma_split_nonempty(init);
        let p = split_slash(init);
        if s.last() != '/' {
            assert forall|i: int| 0 <= i < split_slash(s).len() implies !(#[trigger] split_slash(s)[i]).contains('/') by {
                if i == p.len() - 1 {
                    let w = p.last().push(s.last());
                    assert(split_slash(s)[i] == w);
                    if w.contains('/') {
                        let k = choose|k: int| 0 <= k < w.len() && w[k] == '/';
                        assert(p.last()[k] == '/');
                    }
                }
            }
        } else {
            assert forall|i: int| 0 <= i < split_slash(s).len() implies !(#[trigger] split_slash(s)[i]).contains('/') by {
                if i < p.len() {
                    assert(split_slash(s)[i] == p[i]);
                }
            }
        }
    }
}

proof fn lemma_walk_normalized(start: Seq<Seq<char>>, pieces: Seq<Seq<char>>)
    requires
        normalized(start),
        forall|i: int| 0 <= i < pieces.len() ==> !(#[trigger] pieces[i]).contains('/'),
    ensures
        normalized(walk(start, pieces)),
    decreases pieces.len(),
{
    if pieces.len() > 0 {
        lemma_walk_normalized(start, pieces.drop_last());
        assert(!pieces[pieces.len() - 1].contains('/'));
    }
}

proof fn lemma_split_append(x: Seq<char>, w: Seq<char>)
    requires
        !w.contains('/'),
    ensures
        split_slash(x + seq!['/'] + w) == split_slash(x).push(w),
    decreases w.len(),
{
    let s = x + seq!['/'] + w;
    assert(s.len() > 0);
    if w.len() == 0 {
        assert(s.drop_last() =~= x);
        assert(s.last() == '/');
        assert(w =~= Seq::<char>::empty());
        assert(split_slash(s) == split_slash(s.drop_last()).push(Seq::<char>::empty()));
    } else {
        let v = w.drop_last();
        assert(!v.contains('/')) by {
            if v.contains('/') {
                let k = choose|k: int| 0 <= k < v.len() && v[k] == '/';
                assert(w[k] == '/');
            }
        }
        lemma_split_append(x, v);
        assert(s.drop_last() =~= x + seq!['/'] + v);
        assert(s.last() == w.last());
        assert(w.last() != '/') by {
            assert(w[w.len() - 1] == w.last());
        }
        let p = split_slash(s.drop_last());
        assert(p == split_slash(x).push(v));
        assert(split_slash(s) == p.update(p.len() - 1, p.last().push(s.last())));
        assert(p.update(p.len() - 1, p.last().push(w.last())) =~= split_slash(x).push(w)) by {
            assert(v.push(w.last()) =~= w);
        }
    }
}

proof fn lemma_split_joined(segs: Seq<Seq<char>>)
    requires
        normalized(segs),
    ensures
        split_slash(joined(segs)) == seq![Seq::<char>::empty()] + segs,
    decreases segs.len(),
{
    if segs.len() == 0 {
        assert(seq![Seq::<char>::empty()] + segs =~= seq![Seq::<char>::empty()]);
    } else {
        let init = segs.drop_last();
        assert(normalized(init)) by {
            assert forall|i: int| 0 <= i < init.len() implies name_segment(#[trigger] init[i]) by {
                assert(init[i] == segs[i]);
            }
        }
        lemma_split_joined(init);
        assert(name_segment(segs[segs.len() - 1]));
        lemma_split_append(joined(init), segs.last());
        assert((seq![Seq::<char>::empty()] + init).push(segs.last()) =~= seq![Seq::<char>::empty()] + segs);
    }
}

proof fn lemma_walk_names(segs: Seq<Seq<char>>)
    requires
        normalized(segs),
    ensures
        walk(Seq::empty(), seq![Seq::<char>::empty()] + segs) == segs,
    decreases segs.len(),
{
    let pieces = seq![Seq::<char>::empty()] + segs;
    if segs.len() == 0 {
        assert(pieces =~= seq![Seq::<char>::empty()]);
        assert(pieces.drop_last() =~= Seq::<Seq<char>>::empty());
        assert(walk(Seq::empty(), pieces.drop_last()) == Seq::<Seq<char>>::empty());
        assert(pieces.last() == Seq::<char>::empty());
        assert(segs =~= Seq::<Seq<char>>::empty());
    } else {
        let init = segs.drop_last();
        assert(normalized(init)) by {
            assert forall|i: int| 0 <= i < init.len() implies name_segment(#[trigger] init[i]) by {
                assert(init[i] == segs[i]);
            }
        }
        lemma_walk_names(init);
        assert(pieces.drop_last() =~= seq![Seq::<char>::empty()] + init);
        assert(pieces.last() == segs.last());
        assert(name_segment(segs[segs.len() - 1]));
        assert(walk(Seq::empty(), pieces) == step(init, segs.last()));
        assert(init.push(segs.last()) =~= segs);
    }
}

proof fn lemma_joined_starts_with_slash(segs: Seq<Seq<char>>)
    requires
        segs.len() > 0,
    ensures
        joined(segs).len() > 0,
        joined(segs)[0] == '/',
    decreases segs.len(),
{
    let init = segs.drop_last();
    let head = joined(init) + seq!['/'];
    assert(joined(segs) == head + segs.last());
    if segs.len() > 1 {
        lemma_joined_starts_with_slash(init);
        assert(head[0] == joined(init)[0]);
    } else {
        assert(joined(init) == Seq::<char>::empty());
        assert(head =~= seq!['/']);
    }
    assert((head + segs.last())[0] == head[0]);
}

/// A resolved path is made of names, and its canonical text resolves back
/// to the same segments from any directory.
pub proof fn lemma_canonical_path_resolves(cwd: Seq<Seq<char>>, other: Seq<Seq<char>>, path: Seq<char>)
    requires
        normalized(cwd),
    ensures
        normalized(resolved(cwd, path)),
        resolved(other, path_text(resolved(cwd, path))) == resolved(cwd, path),
{
    lemma_split_no_slash(path);
    let start = if path.len() > 0 && path[0] == '/' { Seq::<Seq<char>>::empty() } else { cwd };
    lemma_walk_normalized(start, split_slash(path));
    let segs = resolved(cwd, path);
    if segs.len() == 0 {
        let slash = seq!['/'];
        assert(slash.drop_last() =~= Seq::<char>::empty());
        assert(split_slash(slash.drop_last()) == seq![Seq::<char>::empty()]);
        assert(split_slash(slash) == seq![Seq::<char>::empty()].push(Seq::<char>::empty()));
        let two = seq![Seq::<char>::empty()].push(Seq::<char>::empty());
        assert(two.drop_last() =~= seq![Seq::<char>::empty()]);
        assert(two.drop_last().drop_last() =~= Seq::<Seq<char>>::empty());
        assert(walk(Seq::empty(), two.drop_last().drop_last()) == Seq::<Seq<char>>::empty());
        assert(walk(Seq::empty(), two.drop_last()) == Seq::<Seq<char>>::empty());
        assert(walk(Seq::empty(), two) == Seq::<Seq<char>>::empty());
        assert(segs =~= Seq::<Seq<char>>::empty());
    } else {
        lemma_joined_starts_with_slash(segs);
        lemma_split_joined(segs);
        lemma_walk_names(segs);
    }
}

/// Applies one piece of a path to `segments`.
fn apply_piece(segments: &mut Vec<String>, piece: &Vec<char>)
    ensures
        segs_view(final(segments)@) == step(segs_view(old(segments)@), piece@),
{
    let n = piece.len();
    let is_dot = n == 1 && piece[0] == '.';
    let is_dot_dot = n == 2 && piece[0] == '.' && piece[1] == '.';
    assert(is_dot == (piece@ == seq!['.'])) by {
        if n == 1 && piece@[0] == '.' {
            assert(piece@ =~= seq!['.']);
        }
    }
    assert(is_dot_dot == (piece@ == seq!['.', '.'])) by {
        if n == 2 && piece@[0] == '.' && piece@[1] == '.' {
            assert(piece@ =~= seq!['.', '.']);
        }
    }
    if n == 0 || is_dot {
    } else if is_dot_dot {
        if segments.len() > 0 {
            let _ = segments.pop();
            assert(segs_view(segments@) =~= segs_view(old(segments)@).drop_last());
        }
    } else {
        let s = string_of(piece.as_slice());
        segments.push(s);
        assert(segs_view(segments@) =~= segs_view(old(segments)@).push(piece@));
    }
}

/// The text of the path made of `segments`.
pub fn path_string(segments: &[String]) -> (r: String)
    ensures
        r@ == path_text(segs_view(segments@)),
{
    let mut path = String::new();
    if segments.len() == 0 {
        push_char(&mut path, '/');
        return path;
    }
    let ghost sv = segs_view(segments@);
    assert(sv.take(0) =~= Seq::<Seq<char>>::empty());
    for i in 0..segments.len()
        invariant
            sv == segs_view(segments@),
            path@ == joined(sv.take(i as int)),
    {
        push_char(&mut path, '/');
        push_text(&mut path, segments[i].as_str());
        assert(sv.take(i + 1).drop_last() =~= sv.take(i as int));
    }
    assert(sv.take(sv.len() as int) =~= sv);
    path
}

/// The text of the path of `name` inside the directory made of `parent`.
pub fn child_path(parent: &[String], name: &str) -> (r: String)
    ensures
        r@ == path_text(segs_view(parent@).push(name@)),
{
    let ghost sv = segs_view(parent@);
    let mut path = String::new();
    assert(sv.take(0) =~= Seq::<Seq<char>>::empty());
    for i in 0..parent.len()
        invariant
            sv == segs_view(parent@),
            path@ == joined(sv.take(i as int)),
    {
        push_char(&mut path, '/');
        push_text(&mut path, parent[i].as_str());
        assert(sv.take(i + 1).drop_last() =~= sv.take(i as int));
    }
    assert(sv.take(sv.len() as int) =~= sv);
    push_char(&mut path, '/');
    push_text(&mut path, name);
    assert(sv.push(name@).drop_last() =~= sv);
    path
}

/// The filesystem: the disk, the index on it and the table of open files.
pub struct FileSystem {
    pub initialized: bool,
    pub tree: DiskBPlusTree,
    pub vat: VirtualAddressTable,
    pub disk: DiskController,
}

/// Metadata of a directory created at tick `ticks`.
pub open spec fn directory_meta(ticks: u64) -> MetaView {
    MetaView { is_directory: true, size: 0, created_at: ticks, data_blocks: Seq::empty() }
}

/// Metadata of an empty file created at tick `ticks`.
pub open spec fn empty_file_meta(ticks: u64) -> MetaView {
    MetaView { is_directory: false, size: 0, created_at: ticks, data_blocks: Seq::empty() }
}

/// The filesystem `post` is `pre` brought up: the index is loaded or
/// formatted, and the root directory "/" is recorded when the index lacks it.
pub open spec fn brought_up(pre: FileSystem, post: FileSystem) -> bool {
    let c = contents_after_init(pre.disk.contents());
    let root = root_after_init(pre.disk.contents());
    let idx = stored_in(c, root);
    &&& post.initialized
    &&& post.disk.is_initialized()
    &&& post.tree.root_block_id == root
    &&& post.vat == pre.vat
    &&& post.disk.allocated() == allocated_after_init(
        pre.disk.is_initialized(),
        pre.disk.allocated(),
        pre.disk.contents(),
    )
    &&& post.disk.contents() == if lookup(idx, seq!['/']) is None {
        saved_in(c, root, inserted(idx, seq!['/'], directory_meta(0)))
    } else {
        c
    }
}

/// Once brought up, a volume holds the root directory "/": the entry it had,
/// or a new directory entry when it had none, provided the index root lies
/// on the disk and the index with that entry fits its leaf block.
pub proof fn lemma_brought_up_has_root(pre: FileSystem, post: FileSystem)
    requires
        pre.wf(),
        brought_up(pre, post),
        root_after_init(pre.disk.contents()) < crate::config::storage::TOTAL_DISK_BLOCKS,
        ({
            let c = contents_after_init(pre.disk.contents());
            let idx = stored_in(c, root_after_init(pre.disk.contents()));
            lookup(idx, seq!['/']) is None ==> crate::btree::fits_in_leaf(inserted(idx, seq!['/'], directory_meta(0)))
        }),
    ensures
        lookup(post.index(), seq!['/']) is Some,
        ({
            let idx = stored_in(contents_after_init(pre.disk.contents()), root_after_init(pre.disk.contents()));
            &&& lookup(idx, seq!['/']) is None ==> lookup(post.index(), seq!['/']) == Some(directory_meta(0))
            &&& lookup(idx, seq!['/']) is Some ==> lookup(post.index(), seq!['/']) == lookup(idx, seq!['/'])
        }),
{
    let c = contents_after_init(pre.disk.contents());
    let root = root_after_init(pre.disk.contents());
    let idx = stored_in(c, root);
    pre.disk.lemma_contents_len(0);
    if lookup(idx, seq!['/']) is None {
        let ins = inserted(idx, seq!['/'], directory_meta(0));
        crate::btree::lemma_leaf_roundtrip(ins);
        crate::btree::lemma_inserted_lookup(idx, seq!['/'], directory_meta(0));
        assert(post.index() == ins);
    } else {
        assert(post.index() == idx);
    }
}

impl FileSystem {
    /// Well-formedness: the disk's own invariant.
    pub open spec fn wf(&self) -> bool {
        self.disk.inv()
    }

    /// Whether `init` has run.
    pub open spec fn is_initialized(&self) -> bool {
        self.initialized
    }

    /// The entries of the index.
    pub open spec fn index(&self) -> Seq<crate::btree::EntryView> {
        stored_entries(self.disk, self.tree.root_block_id)
    }

    /// A filesystem on a blank disk, not yet initialized.
    pub fn new() -> (r: Self)
        ensures
            r.wf(),
            !r.is_initialized(),
            !r.disk.is_initialized(),
            r.disk.allocated() == Seq::new(crate::config::storage::TOTAL_DISK_BLOCKS as nat, |i: int| false),
            r.disk.contents() == Seq::new(crate::config::storage::TOTAL_DISK_BLOCKS as nat, |i: int| zero_block()),
            r.tree.root_block_id == 2,
            r.vat.entries@.len() == 0,
            r.vat.cache@.len() == 0,
            r.vat.next_file_id == 1,
    {
        FileSystem {
            initialized: false,
            tree: DiskBPlusTree::new(),
            vat: VirtualAddressTable::new(),
            disk: DiskController::new(),
        }
    }

    /// Brings up the disk and the index, then creates the root directory "/"
    /// when the index has no entry for it; does nothing the second time.
    pub fn init(&mut self)
        requires
            old(self).wf(),
        ensures
            final(self).wf(),
            final(self).is_initialized(),
            old(self).is_initialized() ==> *final(self) == *old(self),
            !old(self).is_initialized() ==> brought_up(*old(self), *final(self)),
    {
        if !self.initialized {
            self.initialized = true;
            self.tree.init(&mut self.disk);
            let root = "/";
            proof {
                reveal_strlit("/");
                assert(root@ =~= seq!['/']);
            }
            if self.tree.search(&self.disk, root).is_none() {
                let meta = BPlusEntryMeta {
                    is_directory: true,
                    size: 0,
                    created_at: 0,
                    data_blocks: Vec::new(),
                };
                assert(meta@ == directory_meta(0)) by {
                    assert(meta.data_blocks@ =~= Seq::<u64>::empty());
                }
                let _ = self.tree.insert(&mut self.disk, root, meta);
            }
        }
    }

    /// The segments of `path`: from the root when it begins with '/', else
    /// from `cwd`; empty pieces and "." are skipped, ".." goes up one level.
    pub fn resolve_path(&self, cwd: &[String], path: &str) -> (r: Vec<String>)
        ensures
            segs_view(r@) == resolved(segs_view(cwd@), path@),
    {
        let chars = chars_of(path);
        let absolute = chars.len() > 0 && chars[0] == '/';
        let mut segments: Vec<String> = Vec::new();
        if !absolute {
            for i in 0..cwd.len()
                invariant
                    segs_view(segments@) == segs_view(cwd@).take(i as int),
            {
                let ghost old_segments = segments@;
                let seg = cwd[i].clone();
                assert(seg@ == cwd@[i as int]@);
                segments.push(seg);
                proof {
                    lemma_segs_view(segments@);
                    lemma_segs_view(segments@.drop_last());
                    lemma_segs_view(cwd@);
                    assert(segments@.drop_last() =~= old_segments);
                }
                assert(segs_view(segments@) =~= segs_view(cwd@).take(i + 1));
            }
            assert(segs_view(cwd@).take(cwd@.len() as int) =~= segs_view(cwd@));
        } else {
            assert(segs_view(segments@) =~= Seq::<Seq<char>>::empty());
        }
        let ghost start = segs_view(segments@);
        let ghost mut done: Seq<Seq<char>> = Seq::empty();
        let mut current: Vec<char> = Vec::new();
        assert(chars@.take(0) =~= Seq::<char>::empty());
        assert(done.push(current@) =~= seq![Seq::<char>::empty()]);
        for i in 0..chars.len()
            invariant
                split_slash(chars@.take(i as int)) == done.push(current@),
                segs_view(segments@) == walk(start, done),
        {
            let c = chars[i];
            let ghost prefix = chars@.take(i + 1);
            assert(prefix.drop_last() =~= chars@.take(i as int));
            if c == '/' {
                let ghost piece = current@;
                apply_piece(&mut segments, &current);
                current = Vec::new();
                proof {
                    assert(done.push(piece).drop_last() =~= done);
                    done = done.push(piece);
                }
                assert(split_slash(prefix) =~= done.push(current@));
            } else {
                current.push(c);
                assert(split_slash(prefix) =~= done.push(current@));
            }
        }
        assert(chars@.take(chars@.len() as int) =~= chars@);
        apply_piece(&mut segments, &current);
        assert(done.push(current@).drop_last() =~= done);
        segments
    }

    /// The canonical text of the path made of `segments`.
    pub fn canonical_path(&self, segments: &[String]) -> (r: String)
        ensures
            r@ == path_text(segs_view(segments@)),
    {
        path_string(segments)
    }

    /// The parent segments and the last segment; for no segments, none and "".
    pub fn split_parent_and_name<'a>(&self, resolved: &'a [String]) -> (r: (&'a [String], &'a str))
        ensures
            resolved@.len() == 0 ==> r.0@.len() == 0 && r.1@ == Seq::<char>::empty(),
            resolved@.len() > 0 ==> r.0@ == resolved@.drop_last() && r.1@ == resolved@.last()@,
    {
        if resolved.len() == 0 {
            let empty = "";
            proof {
                reveal_strlit("");
            }
            (&resolved[0..0], empty)
        } else {
            let (parent, name) = resolved.split_at(resolved.len() - 1);
            assert(parent@ =~= resolved@.drop_last());
            (parent, name[0].as_str())
        }
    }

    /// Some when the segments name the root or a directory of the index.
    pub fn find_directory(&self, segments: &[String]) -> (r: Option<()>)
        requires
            self.wf(),
        ensures
            r is Some <==> directory_exists(*self, path_text(segs_view(segments@))),
    {
        let path_str = path_string(segments);
        if is_root_text(path_str.as_str()) {
            return Some(());
        }
        match self.tree.search(&self.disk, path_str.as_str()) {
            Some(meta) => if meta.is_directory { Some(()) } else { None },
            None => None,
        }
    }

    /// The names directly inside the directory made of `segments`, with their
    /// directory flag, in key order; fails for a path the index does not hold
    /// (the root is always there).
    pub fn list_directory(&self, segments: &[String]) -> (r: Result<Vec<(String, bool)>, &'static str>)
        requires
            self.wf(),
        ensures
            match directory_listing(*self, path_text(segs_view(segments@))) {
                Ok(items) => r matches Ok(v) && names_view(v@) == items,
                Err(e) => r == Err::<Vec<(String, bool)>, &'static str>(e),
            },
    {
        let path_str = path_string(segments);
        if !is_root_text(path_str.as_str()) && self.tree.search(&self.disk, path_str.as_str()).is_none() {
            return Err("Directory not found in B+ Tree");
        }
        Ok(self.tree.list_directory_entries(&self.disk, path_str.as_str()))
    }

    /// Adds `meta` under the path of `name` in `parent`, unless that path exists.
    fn create_entry(&mut self, parent: &[String], name: &str, meta: BPlusEntryMeta) -> (r: Result<(), &'static str>)
        requires
            old(self).wf(),
        ensures
            final(self).wf(),
            r == create_result(*old(self), path_text(segs_view(parent@).push(name@))),
            entry_created(*old(self), *final(self), path_text(segs_view(parent@).push(name@)), meta@),
    {
        let path_str = child_path(parent, name);
        if self.tree.search(&self.disk, path_str.as_str()).is_some() {
            return Err("Name already exists in this folder");
        }
        self.tree.insert(&mut self.disk, path_str.as_str(), meta)
    }

    /// Creates the directory `name` inside `parent`.
    pub fn create_directory(&mut self, parent_segments: &[String], name: &str, ticks: u64) -> (r: Result<(), &'static str>)
        requires
            old(self).wf(),
        ensures
            final(self).wf(),
            r == create_result(*old(self), path_text(segs_view(parent_segments@).push(name@))),
            entry_created(*old(self), *final(self), path_text(segs_view(parent_segments@).push(name@)), directory_meta(ticks)),
    {
        let meta = BPlusEntryMeta { is_directory: true, size: 0, created_at: ticks, data_blocks: Vec::new() };
        assert(meta@ == directory_meta(ticks));
        self.create_entry(parent_segments, name, meta)
    }

    /// Creates the empty file `name` inside `parent`.
    pub fn create_file(&mut self, parent_segments: &[String], name: &str, ticks: u64) -> (r: Result<(), &'static str>)
        requires
            old(self).wf(),
        ensures
            final(self).wf(),
            r == create_result(*old(self), path_text(segs_view(parent_segments@).push(name@))),
            entry_created(*old(self), *final(self), path_text(segs_view(parent_segments@).push(name@)), empty_file_meta(ticks)),
    {
        let meta = BPlusEntryMeta { is_directory: false, size: 0, created_at: ticks, data_blocks: Vec::new() };
        assert(meta@ == empty_file_meta(ticks));
        self.create_entry(parent_segments, name, meta)
    }

    /// Writes `content` to the file `name` inside `parent`, stamped with `ticks`.
    pub fn write_file(&mut self, parent_segments: &[String], name: &str, content: &str, ticks: u64) -> (r: Result<(), &'static str>)
        requires
            old(self).wf(),
        ensures
            final(self).wf(),
            r == write_result(*old(self), path_text(segs_view(parent_segments@).push(name@)), content.spec_bytes()),
            file_written(*old(self), *final(self), path_text(segs_view(parent_segments@).push(name@)), content.spec_bytes(), ticks),
    {
        let path_str = child_path(parent_segments, name);
        self.vat.write_file_dynamic(&mut self.tree, &mut self.disk, path_str.as_str(), content, ticks)
    }

    /// Reads the file `name` inside `parent`, loading its blocks into the
    /// page cache.
    pub fn read_file(&mut self, parent_segments: &[String], name: &str) -> (r: Result<String, &'static str>)
        requires
            old(self).wf(),
        ensures
            final(self).wf(),
            match file_text(*old(self), path_text(segs_view(parent_segments@).push(name@))) {
                Ok(text) => r matches Ok(s) && s@ == text,
                Err(e) => r == Err::<String, &'static str>(e),
            },
            file_read(*old(self), *final(self), path_text(segs_view(parent_segments@).push(name@))),
    {
        let path_str = child_path(parent_segments, name);
        self.vat.read_file_on_demand(&self.tree, &self.disk, path_str.as_str())
    }

    /// Deletes the file or directory `name` inside `parent` and frees its blocks.
    pub fn delete_node(&mut self, parent_segments: &[String], name: &str) -> (r: Result<(), &'static str>)
        requires
            old(self).wf(),
        ensures
            final(self).wf(),
            r == delete_result(*old(self), path_text(segs_view(parent_segments@).push(name@))),
            node_deleted(*old(self), *final(self), path_text(segs_view(parent_segments@).push(name@))),
    {
        let path_str = child_path(parent_segments, name);
        self.vat.delete_entry(&mut self.tree, &mut self.disk, path_str.as_str())
    }
}

/// Whether the path text `p` is the root or a directory of the index.
pub open spec fn directory_exists(fs: FileSystem, p: Seq<char>) -> bool {
    p == seq!['/'] || (lookup(fs.index(), p) matches Some(m) && m.is_directory)
}

/// Listing of the directory `p`: its names with their directory flag in key
/// order, or the error for a path the index does not hold.
pub open spec fn directory_listing(fs: FileSystem, p: Seq<char>) -> Result<Seq<(Seq<char>, bool)>, &'static str> {
    if p != seq!['/'] && lookup(fs.index(), p) is None {
        Err("Directory not found in B+ Tree")
    } else {
        Ok(listing(fs.index(), p))
    }
}

/// What creating an entry at `p` answers.
pub open spec fn create_result(fs: FileSystem, p: Seq<char>) -> Result<(), &'static str> {
    if lookup(fs.index(), p) is Some {
        Err("Name already exists in this folder")
    } else {
        Ok(())
    }
}

/// The filesystem `new` is `old` after creating an entry with `meta` at `p`
/// (nothing changes when `p` exists).
pub open spec fn entry_created(pre: FileSystem, post: FileSystem, p: Seq<char>, meta: MetaView) -> bool {
    &&& post.tree == pre.tree
    &&& post.vat == pre.vat
    &&& post.initialized == pre.initialized
    &&& post.disk.is_initialized() == pre.disk.is_initialized()
    &&& post.disk.allocated() == pre.disk.allocated()
    &&& post.disk.contents() == if lookup(pre.index(), p) is Some {
        pre.disk.contents()
    } else {
        saved_contents(pre.disk, pre.tree.root_block_id, inserted(pre.index(), p, meta))
    }
}

/// A directory just created is found again, provided the index still fits
/// its leaf block.
pub proof fn lemma_created_directory_exists(pre: FileSystem, post: FileSystem, p: Seq<char>, ticks: u64)
    requires
        pre.wf(),
        pre.tree.root_block_id < crate::config::storage::TOTAL_DISK_BLOCKS,
        create_result(pre, p) is Ok,
        entry_created(pre, post, p, directory_meta(ticks)),
        crate::btree::fits_in_leaf(inserted(pre.index(), p, directory_meta(ticks))),
    ensures
        lookup(post.index(), p) == Some(directory_meta(ticks)),
        directory_exists(post, p),
{
    pre.disk.lemma_contents_len(pre.tree.root_block_id as int);
    crate::btree::lemma_insert_then_search(pre.index(), p, directory_meta(ticks));
}

/// A deleted path is no longer found, provided the remaining index fits its
/// leaf block.
pub proof fn lemma_deleted_entry_gone(pre: FileSystem, post: FileSystem, p: Seq<char>)
    requires
        pre.wf(),
        pre.tree.root_block_id < crate::config::storage::TOTAL_DISK_BLOCKS,
        delete_result(pre, p) is Ok,
        node_deleted(pre, post, p),
        crate::btree::fits_in_leaf(crate::btree::without_key(pre.index(), p)),
    ensures
        lookup(post.index(), p) is None,
        delete_result(post, p) == Err::<(), &'static str>("Target path not found"),
{
    pre.disk.lemma_contents_len(pre.tree.root_block_id as int);
    crate::btree::lemma_remove_then_search(pre.index(), p);
}

/// What writing `bytes` to `p` answers.
pub open spec fn write_result(fs: FileSystem, p: Seq<char>, bytes: Seq<u8>) -> Result<(), &'static str> {
    match crate::vat::fresh_blocks(fs.disk, fs.tree.root_block_id, p, bytes.len() as int) {
        None => Err("Disk storage full"),
        Some(_) => Ok(()),
    }
}

/// The filesystem `new` is `old` after writing `bytes` to `p` at tick `ticks`.
pub open spec fn file_written(pre: FileSystem, post: FileSystem, p: Seq<char>, bytes: Seq<u8>, ticks: u64) -> bool {
    let root = pre.tree.root_block_id;
    let free_map = crate::vat::released_map(pre.disk, root, p, bytes.len() as int);
    &&& post.tree == pre.tree
    &&& post.vat == pre.vat
    &&& post.initialized == pre.initialized
    &&& post.disk.is_initialized() == pre.disk.is_initialized()
    &&& match crate::vat::fresh_blocks(pre.disk, root, p, bytes.len() as int) {
        None => {
            &&& post.disk.allocated() == crate::vat::all_taken(free_map)
            &&& post.disk.contents() == crate::vat::free_blocks_zeroed(pre.disk.contents(), free_map)
        },
        Some(fresh) => {
            &&& post.disk.allocated() == crate::vat::marked_map(free_map, fresh)
            &&& post.disk.contents() == crate::vat::contents_after_write(pre.disk, root, p, bytes, ticks, fresh)
        },
    }
}

/// What a read gives back of a write: after writing `text` to `p` (the
/// write succeeded), reading `p` gives `text`. This holds when the index
/// root is an allocated block outside the file's blocks, the blocks the file
/// had are distinct allocated data blocks, and the index with the new entry
/// still fits in its block.
pub proof fn lemma_file_write_then_read(pre: FileSystem, post: FileSystem, p: Seq<char>, text: Seq<char>, ticks: u64)
    requires
        pre.wf(),
        encode_utf8(text).len() <= u64::MAX,
        pre.tree.root_block_id < crate::config::storage::TOTAL_DISK_BLOCKS,
        pre.disk.allocated()[pre.tree.root_block_id as int],
        ({
            let recorded = crate::vat::recorded_blocks(pre.index(), p);
            &&& crate::vat::distinct_ids(recorded)
            &&& !recorded.contains(pre.tree.root_block_id)
            &&& forall|j: int| 0 <= j < recorded.len() ==> crate::disk::FIRST_DATA_BLOCK <= #[trigger] recorded[j]
                < crate::config::storage::TOTAL_DISK_BLOCKS && pre.disk.allocated()[recorded[j] as int]
        }),
        write_result(pre, p, encode_utf8(text)) is Ok,
        file_written(pre, post, p, encode_utf8(text), ticks),
        ({
            let root = pre.tree.root_block_id;
            let len = encode_utf8(text).len() as int;
            let ids = crate::vat::reused_blocks(pre.disk, root, p, len) + crate::vat::fresh_blocks(pre.disk, root, p, len).unwrap();
            let meta = MetaView { is_directory: false, size: len as u64, created_at: ticks, data_blocks: ids };
            crate::btree::fits_in_leaf(inserted(pre.index(), p, meta))
        }),
    ensures
        file_text(post, p) == Ok::<Seq<char>, &'static str>(text),
{
    crate::vat::lemma_write_then_read(pre.disk, pre.tree.root_block_id, p, text, ticks);
}

/// The filesystem `post` is `pre` after reading `p`: only the page cache
/// changed, now holding the blocks read (see `cache_after_read`).
pub open spec fn file_read(pre: FileSystem, post: FileSystem, p: Seq<char>) -> bool {
    &&& post.initialized == pre.initialized
    &&& post.tree == pre.tree
    &&& post.disk == pre.disk
    &&& post.vat.entries@ == pre.vat.entries@
    &&& post.vat.next_file_id == pre.vat.next_file_id
    &&& crate::vat::cache_view(post.vat.cache@) == crate::vat::cache_after_read(
        crate::vat::cache_view(pre.vat.cache@),
        pre.disk.contents(),
        pre.tree.root_block_id,
        p,
    )
}

/// What reading the file `p` gives.
pub open spec fn file_text(fs: FileSystem, p: Seq<char>) -> Result<Seq<char>, &'static str> {
    crate::vat::read_result(fs.disk.contents(), fs.tree.root_block_id, p)
}

/// What deleting `p` answers.
pub open spec fn delete_result(fs: FileSystem, p: Seq<char>) -> Result<(), &'static str> {
    if lookup(fs.index(), p) is None {
        Err("Target path not found")
    } else {
        Ok(())
    }
}

/// The filesystem `new` is `old` after deleting `p`: its entry is gone from
/// the index, its blocks are free and the table forgets the path.
pub open spec fn node_deleted(pre: FileSystem, post: FileSystem, p: Seq<char>) -> bool {
    &&& post.tree == pre.tree
    &&& post.initialized == pre.initialized
    &&& post.disk.is_initialized() == pre.disk.is_initialized()
    &&& post.vat.cache@ == pre.vat.cache@
    &&& post.vat.next_file_id == pre.vat.next_file_id
    &&& match lookup(pre.index(), p) {
        None => {
            &&& post.disk.contents() == pre.disk.contents()
            &&& post.disk.allocated() == pre.disk.allocated()
            &&& post.vat.entries@ == pre.vat.entries@
        },
        Some(m) => {
            &&& post.disk.allocated() == crate::vat::freed_map(pre.disk.allocated(), m.data_blocks)
            &&& post.disk.contents() == saved_contents(
                pre.disk,
                pre.tree.root_block_id,
                crate::btree::without_key(pre.index(), p),
            )
            &&& crate::vat::table_view(post.vat.entries@)
                == crate::vat::entries_without(crate::vat::table_view(pre.vat.entries@), p)
        },
    }
}

/// Whether a path text is the root "/".
fn is_root_text(s: &str) -> (r: bool)
    ensures
        r == (s@ == seq!['/']),
{
    let chars = chars_of(s);
    let r = chars.len() == 1 && chars[0] == '/';
    assert(r == (s@ == seq!['/'])) by {
        if chars@.len() == 1 && chars@[0] == '/' {
            assert(s@ =~= seq!['/']);
        }
    }
    r
}

} // verus!
