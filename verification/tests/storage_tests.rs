use alilu_os::btree::{BPlusEntryMeta, DiskBPlusTree};
use alilu_os::disk::DiskController;
use alilu_os::fs::FileSystem;
use alilu_os::vat::VirtualAddressTable;

fn segs(parts: &[&str]) -> Vec<String> {
    parts.iter().map(|s| s.to_string()).collect()
}

#[test]
fn disk_blocks_allocate_lowest_free() {
    let mut disk = DiskController::new();
    disk.init();
    assert_eq!(disk.allocate_block(), Ok(2));
    assert_eq!(disk.allocate_block(), Ok(3));
    disk.free_block(2);
    assert_eq!(disk.allocate_block(), Ok(2));
    disk.free_block(0);
    assert_eq!(disk.allocate_block(), Ok(4));
}

#[test]
fn disk_blocks_read_back_writes() {
    let mut disk = DiskController::new();
    let mut data = vec![0u8; 1024];
    data[0] = 7;
    data[1023] = 9;
    assert_eq!(disk.write_block(10, &data), Ok(()));
    let mut buf = Vec::new();
    assert_eq!(disk.read_block(10, &mut buf), Ok(()));
    assert_eq!(buf, data);
    assert_eq!(disk.read_block(4096, &mut buf), Err("Block ID out of bounds"));
    assert_eq!(disk.write_block(5000, &data), Err("Block ID out of bounds"));
}

#[test]
fn disk_fills_up() {
    let mut disk = DiskController::new();
    disk.init();
    for _ in 2..4096 {
        assert!(disk.allocate_block().is_ok());
    }
    assert_eq!(disk.allocate_block(), Err("Disk storage full"));
}

#[test]
fn index_insert_search_remove() {
    let mut disk = DiskController::new();
    let mut tree = DiskBPlusTree::new();
    tree.init(&mut disk);
    assert_eq!(tree.root_block_id, 2);
    let meta = BPlusEntryMeta { is_directory: false, size: 3, created_at: 9, data_blocks: vec![5, 6] };
    assert_eq!(tree.insert(&mut disk, "/b.txt", meta), Ok(()));
    let dir = BPlusEntryMeta { is_directory: true, size: 0, created_at: 1, data_blocks: vec![] };
    assert_eq!(tree.insert(&mut disk, "/a", dir), Ok(()));
    let found = tree.search(&disk, "/b.txt").unwrap();
    assert_eq!((found.size, found.created_at, found.data_blocks.clone()), (3, 9, vec![5, 6]));
    assert!(tree.search(&disk, "/c").is_none());
    assert_eq!(
        tree.list_directory_entries(&disk, "/"),
        vec![("a".to_string(), true), ("b.txt".to_string(), false)]
    );
    assert_eq!(tree.remove(&mut disk, "/a"), Ok(()));
    assert_eq!(tree.remove(&mut disk, "/a"), Err("Target key not found in B+ Tree"));
    assert!(tree.search(&disk, "/a").is_none());
}

#[test]
fn index_survives_reload() {
    let mut disk = DiskController::new();
    let mut tree = DiskBPlusTree::new();
    tree.init(&mut disk);
    let meta = BPlusEntryMeta { is_directory: true, size: 0, created_at: 4, data_blocks: vec![] };
    tree.insert(&mut disk, "/docs", meta).unwrap();
    let mut again = DiskBPlusTree::new();
    again.init(&mut disk);
    assert!(again.search(&disk, "/docs").unwrap().is_directory);
}

#[test]
fn table_writes_and_reads_files() {
    let mut disk = DiskController::new();
    let mut tree = DiskBPlusTree::new();
    tree.init(&mut disk);
    let mut vat = VirtualAddressTable::new();
    let text: String = std::iter::repeat("0123456789").take(250).collect();
    assert_eq!(vat.write_file_dynamic(&mut tree, &mut disk, "/big", &text, 3), Ok(()));
    assert_eq!(vat.read_file_on_demand(&tree, &disk, "/big"), Ok(text.clone()));
    let meta = tree.search(&disk, "/big").unwrap();
    assert_eq!(meta.size, 2500);
    assert_eq!(meta.data_blocks.len(), 3);
    let cached: Vec<u64> = vat.cache.iter().map(|p| p.block_id).collect();
    assert_eq!(cached, meta.data_blocks);
    assert!(vat.cache.iter().all(|p| !p.dirty));
    assert_eq!(&vat.cache[0].data[0..10], b"0123456789");
    assert_eq!(vat.write_file_dynamic(&mut tree, &mut disk, "/big", "short", 4), Ok(()));
    assert_eq!(vat.read_file_on_demand(&tree, &disk, "/big"), Ok("short".to_string()));
    assert_eq!(vat.cache.len(), 3);
    assert_eq!(&vat.cache[0].data[0..5], b"short");
    assert_eq!(tree.search(&disk, "/big").unwrap().data_blocks, vec![meta.data_blocks[0]]);
    assert_eq!(vat.read_file_on_demand(&tree, &disk, "/none"), Err("File not found in B+ Tree index"));
    let entry = vat.get_or_register_entry(&tree, &disk, "/big").unwrap();
    assert_eq!(entry.size, 5);
    assert_eq!(entry.file_id, 1);
    assert!(vat.get_or_register_entry(&tree, &disk, "/none").is_none());
    assert_eq!(vat.delete_entry(&mut tree, &mut disk, "/big"), Ok(()));
    assert_eq!(vat.delete_entry(&mut tree, &mut disk, "/big"), Err("Target path not found"));
    assert_eq!(vat.read_file_on_demand(&tree, &disk, "/big"), Err("File not found in B+ Tree index"));
}

#[test]
fn paths_resolve() {
    let fs = FileSystem::new();
    let cwd = segs(&["home", "user"]);
    assert_eq!(fs.resolve_path(&cwd, "docs/../notes/./a.txt"), segs(&["home", "user", "notes", "a.txt"]));
    assert_eq!(fs.resolve_path(&cwd, "/etc//x"), segs(&["etc", "x"]));
    assert_eq!(fs.resolve_path(&cwd, "../../.."), segs(&[]));
    assert_eq!(fs.canonical_path(&segs(&["a", "b"])), "/a/b");
    assert_eq!(fs.canonical_path(&segs(&[])), "/");
    let parts = segs(&["a", "b", "c"]);
    let (parent, name) = fs.split_parent_and_name(&parts);
    assert_eq!(parent, &parts[0..2]);
    assert_eq!(name, "c");
    let here = fs.resolve_path(&cwd, "a/./b/../c");
    let text = fs.canonical_path(&here);
    assert_eq!(text, "/home/user/a/c");
    assert_eq!(fs.resolve_path(&segs(&["x"]), &text), here);
    let none = segs(&[]);
    let (p0, n0) = fs.split_parent_and_name(&none);
    assert!(p0.is_empty() && n0.is_empty());
}

#[test]
fn filesystem_operations() {
    let mut fs = FileSystem::new();
    fs.init();
    let root = segs(&[]);
    assert_eq!(fs.create_directory(&root, "docs", 1), Ok(()));
    assert_eq!(fs.create_directory(&root, "docs", 2), Err("Name already exists in this folder"));
    let docs = segs(&["docs"]);
    assert!(fs.find_directory(&docs).is_some());
    assert!(fs.find_directory(&segs(&["nope"])).is_none());
    assert!(fs.find_directory(&root).is_some());
    assert_eq!(fs.create_file(&docs, "a.txt", 3), Ok(()));
    assert_eq!(fs.read_file(&docs, "a.txt"), Ok(String::new()));
    assert_eq!(fs.write_file(&docs, "a.txt", "hello world", 4), Ok(()));
    assert_eq!(fs.read_file(&docs, "a.txt"), Ok("hello world".to_string()));
    assert!(fs.find_directory(&segs(&["docs", "a.txt"])).is_none());
    assert_eq!(fs.read_file(&root, "docs"), Err("Target is a directory"));
    assert_eq!(fs.list_directory(&docs), Ok(vec![("a.txt".to_string(), false)]));
    assert_eq!(fs.list_directory(&root), Ok(vec![("docs".to_string(), true)]));
    assert_eq!(fs.list_directory(&segs(&["x"])), Err("Directory not found in B+ Tree"));
    assert_eq!(fs.delete_node(&docs, "a.txt"), Ok(()));
    assert_eq!(fs.delete_node(&docs, "a.txt"), Err("Target path not found"));
    assert_eq!(fs.read_file(&docs, "a.txt"), Err("File not found in B+ Tree index"));
}

#[test]
fn formatted_volume_holds_root_only() {
    let mut fs = FileSystem::new();
    fs.init();
    let root = fs.tree.search(&fs.disk, "/").unwrap();
    assert!(root.is_directory);
    assert_eq!(root.size, 0);
    assert!(root.data_blocks.is_empty());
    assert_eq!(fs.list_directory(&segs(&[])), Ok(vec![]));
    assert_eq!(fs.tree.list_directory_entries(&fs.disk, "/"), vec![]);
}

#[test]
fn new_filesystem_is_blank() {
    let fs = FileSystem::new();
    assert!(!fs.initialized);
    assert_eq!(fs.tree.root_block_id, 2);
    assert!(fs.vat.entries.is_empty());
    assert!(fs.vat.cache.is_empty());
    assert_eq!(fs.vat.next_file_id, 1);
}

#[test]
fn leaf_keeps_only_entries_that_fit() {
    let mut disk = DiskController::new();
    let mut tree = DiskBPlusTree::new();
    tree.init(&mut disk);
    let meta = BPlusEntryMeta { is_directory: false, size: 0, created_at: 0, data_blocks: vec![] };
    let big = "a".repeat(999);
    assert_eq!(tree.insert(&mut disk, &big, meta.clone()), Ok(()));
    assert!(tree.search(&disk, &big).is_none());
    assert_eq!(tree.list_directory_entries(&disk, "/"), vec![]);
    assert_eq!(tree.insert(&mut disk, "/a", meta.clone()), Ok(()));
    let huge = "b".repeat(1100);
    assert_eq!(tree.insert(&mut disk, &huge, meta), Ok(()));
    assert!(tree.search(&disk, "/a").is_some());
    assert!(tree.search(&disk, &huge).is_none());
    assert_eq!(tree.list_directory_entries(&disk, "/"), vec![("a".to_string(), false)]);
}
