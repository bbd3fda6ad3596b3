//! The metadata layer: superblock allocation, directory invariants,
//! attribute building, open-flag queries, block runs and on-disk path
//! names.

use timefs::BlockRef;
use timefs::FileAttrBuilder;
use timefs::FileFlags;
use timefs::FileHandle;
use timefs::FileType;
use timefs::SuperBlock;
use timefs::TimeFS;
use timefs::TimeFSError;
use timefs::ROOT_INODE_ID;

#[test]
fn test_alloc_ids_gapless() {
    let mut sb = SuperBlock::new(0);
    let first = sb.next_inode_id;
    let mut ids = Vec::new();
    for _ in 0..100 {
        ids.push(sb.get_next_inode_id());
    }
    for (i, id) in ids.iter().enumerate() {
        assert_eq!(*id, first + i as u64);
    }
    let mut sorted = ids.clone();
    sorted.dedup();
    assert_eq!(sorted.len(), ids.len());
}

#[test]
fn test_superblock_new_fields() {
    let sb = SuperBlock::new(7);
    assert_eq!(sb.magic, 0x54_69_6d_65_46_53);
    assert_eq!(sb.block_size, 4096);
    assert_eq!(sb.root_dir_inode, ROOT_INODE_ID);
    assert_eq!(sb.inode_count, 1);
    assert_eq!(sb.next_inode_id, 2);
    assert_eq!(sb.next_block_id, 1);
    assert_eq!(sb.create_at, 7);
    assert!(!sb.dirty);
}

#[test]
fn test_new_block_refs() {
    let mut sb = SuperBlock::new(0);
    let b1 = sb.new_block();
    let b2 = sb.new_block();
    assert_eq!(b1.block_id, 1);
    assert_eq!(b2.block_id, 2);
    assert_eq!(b1.size, 0);
    assert_eq!(sb.next_block_id, 3);
}

#[test]
fn test_alloc_blocks_run() {
    let run = BlockRef::alloc_blocks(5, 10000);
    assert_eq!(run.len(), 3);
    assert_eq!(run[0], BlockRef { block_id: 5, size: 4096 });
    assert_eq!(run[1], BlockRef { block_id: 6, size: 4096 });
    assert_eq!(run[2], BlockRef { block_id: 7, size: 10000 - 2 * 4096 });

    let empty = BlockRef::alloc_blocks(1, 0);
    assert!(empty.is_empty());

    let exact = BlockRef::alloc_blocks(1, 4096);
    assert_eq!(exact.len(), 1);
    assert_eq!(exact[0], BlockRef { block_id: 1, size: 4096 });
}

#[test]
fn test_block_paths() {
    assert_eq!(timefs::block_rel_path(42), b"000/block_42.bin".to_vec());
    assert_eq!(timefs::block_rel_path(4000), b"004/block_4000.bin".to_vec());
    assert_eq!(timefs::block_rel_path(999999), b"999/block_999999.bin".to_vec());
    assert_eq!(timefs::block_rel_path(1234567), b"1234/block_1234567.bin".to_vec());
    assert_eq!(timefs::inode_rel_path(1), b"inode_1.bin".to_vec());
    assert_eq!(timefs::inode_rel_path(310), b"inode_310.bin".to_vec());
}

#[test]
fn test_superblock_codec_round_trip() {
    let mut sb = SuperBlock::new(42);
    sb.get_next_inode_id();
    sb.get_next_block_id();
    sb.alloc_inode();
    let bytes = sb.to_bytes();
    assert_eq!(bytes.len(), 53);
    let back = SuperBlock::from_bytes(&bytes).expect("an encoding must decode");
    assert_eq!(back.magic, sb.magic);
    assert_eq!(back.block_size, sb.block_size);
    assert_eq!(back.inode_count, sb.inode_count);
    assert_eq!(back.next_inode_id, sb.next_inode_id);
    assert_eq!(back.next_block_id, sb.next_block_id);
    assert_eq!(back.root_dir_inode, sb.root_dir_inode);
    assert_eq!(back.create_at, sb.create_at);
    assert_eq!(back.dirty, sb.dirty);

    assert!(SuperBlock::from_bytes(&bytes[..52]).is_none());
    let mut corrupt = bytes.clone();
    corrupt[52] = 9;
    assert!(SuperBlock::from_bytes(&corrupt).is_none());
}

#[test]
fn test_create_file_and_lookup() {
    let mut fs = TimeFS::new(16, 30, 0);
    let (attr, fh) = fs
        .create_file(ROOT_INODE_ID, String::from("a.txt"), 0, 11)
        .expect("create should succeed");
    assert_eq!(attr.ino, 2);
    assert_eq!(attr.size, 0, "attributes must reflect content length, not the inode id");
    assert_eq!(attr.blocks, 0);
    assert_eq!(attr.kind, FileType::RegularFile);
    assert_eq!(attr.mtime, 11);
    assert_eq!(fh, 1);

    let node = fs
        .get_inode_by_name(ROOT_INODE_ID, &String::from("a.txt"))
        .expect("lookup should find the file");
    assert_eq!(node.id, 2);
    assert!(node.is_file());
    assert!(!node.is_directory());

    let got = fs.get_attr(2).expect("attributes should exist");
    assert_eq!(got.ino, 2);
    assert_eq!(got.size, 0);
}

#[test]
fn test_create_name_exists() {
    let mut fs = TimeFS::new(16, 30, 0);
    fs.create_file(ROOT_INODE_ID, String::from("dup"), 0, 0).expect("first create");
    match fs.create_file(ROOT_INODE_ID, String::from("dup"), 0, 1) {
        Err(TimeFSError::NameExists(n)) => assert_eq!(n, "dup"),
        other => panic!("expected NameExists, got {:?}", other.map(|p| p.0.ino)),
    }
}

#[test]
fn test_lookup_name_not_found() {
    let fs = TimeFS::new(16, 30, 0);
    match fs.get_inode_by_name(ROOT_INODE_ID, &String::from("missing")) {
        Err(TimeFSError::NameNotFound(n)) => assert_eq!(n, "missing"),
        _ => panic!("expected NameNotFound"),
    }
}

#[test]
fn test_directory_ops_on_file_fail() {
    let mut fs = TimeFS::new(16, 30, 0);
    fs.create_file(ROOT_INODE_ID, String::from("plain"), 0, 0).expect("create");
    // the new file got inode id 2; using it as a parent must fail
    match fs.get_inode_by_name(2, &String::from("child")) {
        Err(TimeFSError::NotDirectory(i)) => assert_eq!(i, 2),
        _ => panic!("expected NotDirectory"),
    }
    match fs.create_file(2, String::from("child"), 0, 1) {
        Err(TimeFSError::NotDirectory(i)) => assert_eq!(i, 2),
        _ => panic!("expected NotDirectory"),
    }
}

#[test]
fn test_create_under_missing_parent() {
    let mut fs = TimeFS::new(16, 30, 0);
    match fs.create_file(99, String::from("x"), 0, 0) {
        Err(TimeFSError::NotFound(i)) => assert_eq!(i, 99),
        _ => panic!("expected NotFound"),
    }
    match fs.get_attr(99) {
        Err(TimeFSError::NotFound(i)) => assert_eq!(i, 99),
        _ => panic!("expected NotFound"),
    }
}

#[test]
fn test_create_directory_nested() {
    let mut fs = TimeFS::new(16, 30, 0);
    let (dattr, _) = fs
        .create_directory(ROOT_INODE_ID, String::from("sub"), 0, 5)
        .expect("mkdir should succeed");
    assert_eq!(dattr.kind, FileType::Directory);
    assert_eq!(dattr.nlink, 2);
    let (fattr, _) = fs
        .create_file(dattr.ino, String::from("inner"), 0, 6)
        .expect("create under subdir");
    let node = fs
        .get_inode_by_name(dattr.ino, &String::from("inner"))
        .expect("lookup in subdir");
    assert_eq!(node.id, fattr.ino);
    assert_eq!(node.parent, dattr.ino);
}

#[test]
fn test_attr_builder_fields() {
    let attr = FileAttrBuilder::default()
        .ino(7)
        .with_regular_file()
        .with_size(5)
        .with_now(123)
        .build();
    assert_eq!(attr.ino, 7);
    assert_eq!(attr.size, 5, "size tracks content, never the inode id");
    assert_eq!(attr.blocks, 1, "one partially filled block");
    assert_eq!(attr.blksize, 4096);
    assert_eq!(attr.atime, 123);
    assert_eq!(attr.kind, FileType::RegularFile);

    let zeroed = FileAttrBuilder::default().ino(9).zero_size().build();
    assert_eq!(zeroed.size, 0);
    assert_eq!(zeroed.blocks, 0);

    let full = FileAttrBuilder::default().with_size(4096).build();
    assert_eq!(full.blocks, 1, "an exact multiple fills exactly its blocks");
    let none = FileAttrBuilder::default().with_size(0).build();
    assert_eq!(none.blocks, 0, "no content occupies no blocks");

    let dir = FileAttrBuilder::default().with_directory().build();
    assert_eq!(dir.kind, FileType::Directory);
    assert_eq!(dir.nlink, 2);

    let perms = FileAttrBuilder::default().with_owner_read_write_other_read().build();
    assert_eq!(perms.perm, 0o644);
}

#[test]
fn test_file_flags_queries() {
    let flags = 0o2 | 0o100 | 0o2000;
    let h = FileHandle::new(4, flags);
    assert_eq!(h.inode_id, 4);
    assert!(h.is_read_write());
    assert!(h.is_create());
    assert!(h.is_append());
    assert!(!h.is_truncate());
    assert!(!h.is_sync());
    assert!(!h.is_read_only());
    assert!(!h.is_write_only());
    // the access mode is the two-bit value, not a mask: zero means
    // read-only, and the three modes exclude each other
    assert!(0i32.is_read_only());
    assert!(FileHandle::new(9, 0o100).is_read_only());
    assert!(!0o2i32.is_read_only());
    assert!(0o1i32.is_write_only());
    assert!(!0o2i32.is_write_only());
    assert!(0o2i32.is_read_write());
}

#[test]
fn test_error_codes() {
    assert_eq!(TimeFSError::Io.error_code(), 5);
    assert_eq!(TimeFSError::NotFound(1).error_code(), 2);
    assert_eq!(TimeFSError::NameNotFound(String::from("x")).error_code(), 2);
    assert_eq!(TimeFSError::NotDirectory(1).error_code(), 20);
    assert_eq!(TimeFSError::IsDirectory(1).error_code(), 21);
    assert_eq!(TimeFSError::NameExists(String::from("x")).error_code(), 17);
    assert_eq!(TimeFSError::BlockIndexError.error_code(), 22);
    assert_eq!(TimeFSError::FlushFailed.error_code(), 5);
}

#[test]
fn test_append_and_read_blocks() {
    let mut fs = TimeFS::new(16, 30, 0);
    let (attr, _) = fs
        .create_file(ROOT_INODE_ID, String::from("data.bin"), 0, 0)
        .expect("create");
    let ino = attr.ino;

    fs.append_block(ino, vec![7u8; 4096], 1).expect("append a full block");
    fs.append_block(ino, b"tail".to_vec(), 2).expect("append the trailing block");

    // the trailing block is partially filled now: appending past it would
    // corrupt the block-list/size bookkeeping
    match fs.append_block(ino, b"more".to_vec(), 3) {
        Err(TimeFSError::BlockIndexError) => {}
        _ => panic!("expected BlockIndexError"),
    }

    assert_eq!(fs.read_file_block(ino, 0, 4).expect("first block"), vec![7u8; 4096]);
    assert_eq!(fs.read_file_block(ino, 1, 5).expect("second block"), b"tail".to_vec());
    match fs.read_file_block(ino, 2, 6) {
        Err(TimeFSError::BlockIndexError) => {}
        _ => panic!("expected BlockIndexError"),
    }
    match fs.read_file_block(ROOT_INODE_ID, 0, 7) {
        Err(TimeFSError::IsDirectory(i)) => assert_eq!(i, ROOT_INODE_ID),
        _ => panic!("expected IsDirectory"),
    }
    match fs.read_file_block(424242, 0, 8) {
        Err(TimeFSError::NotFound(i)) => assert_eq!(i, 424242),
        _ => panic!("expected NotFound"),
    }

    let got = fs.get_attr(ino).expect("attributes");
    assert_eq!(got.size, 4096 + 4);
    assert_eq!(got.blocks, 2);
    assert_eq!(got.mtime, 2);
}

#[test]
fn test_mount_existing_store_continues_counters() {
    let mut first = TimeFS::new(16, 30, 0);
    first.create_file(ROOT_INODE_ID, String::from("one"), 0, 1).expect("create one");
    first.create_file(ROOT_INODE_ID, String::from("two"), 0, 2).expect("create two");
    let record = first.superblock().to_bytes();

    // a later process reads the record back and mounts the store
    let sb = SuperBlock::from_bytes(&record).expect("persisted record decodes");
    let mut second = TimeFS::open(sb, 16, 30, 9).expect("mountable record");
    let (attr, _) = second
        .create_file(ROOT_INODE_ID, String::from("three"), 0, 10)
        .expect("create under remounted root");
    // ids continue gapless past the persisted counter: never reused
    assert_eq!(attr.ino, 4);
    assert_eq!(second.superblock().next_inode_id, 5);
    assert_eq!(second.superblock().create_at, 0, "identity survives the restart");
}

#[test]
fn test_open_refuses_corrupt_record() {
    let mut sb = SuperBlock::new(0);
    sb.magic = 7;
    match TimeFS::open(sb, 16, 30, 0) {
        Err(TimeFSError::Io) => {}
        _ => panic!("expected Io for a corrupt superblock"),
    }
    let mut sb = SuperBlock::new(0);
    sb.next_inode_id = 1;
    assert!(TimeFS::open(sb, 16, 30, 0).is_err(), "counter not past the root");
}

#[test]
fn test_inode_codec_round_trip_file() {
    let attr = FileAttrBuilder::default().ino(7).with_regular_file().with_size(5000).with_now(3).build();
    let node = timefs::INode::new(
        7,
        1,
        timefs::INodeType::File {
            blocks: vec![
                BlockRef { block_id: 9, size: 4096 },
                BlockRef { block_id: 10, size: 904 },
            ],
            size: 5000,
        },
        attr,
    );
    let bytes = node.to_bytes();
    let back = timefs::INode::from_bytes(&bytes).expect("an encoding must decode");
    assert_eq!(back.id, 7);
    assert_eq!(back.parent, 1);
    assert_eq!(back.attr, attr);
    match back.data {
        timefs::INodeType::File { blocks, size } => {
            assert_eq!(size, 5000);
            assert_eq!(blocks, vec![
                BlockRef { block_id: 9, size: 4096 },
                BlockRef { block_id: 10, size: 904 },
            ]);
        }
        _ => panic!("expected a file variant"),
    }
}

#[test]
fn test_inode_codec_round_trip_directory() {
    let mut entries = timefs::DirEntries::new();
    entries.insert(String::from("plain.txt"), 2);
    entries.insert(String::from("ünïcode.bin"), 3);
    let attr = FileAttrBuilder::default().ino(1).with_directory().with_now(4).build();
    let node = timefs::INode::new(1, 1, timefs::INodeType::Directory { entries }, attr);
    let bytes = node.to_bytes();
    let back = timefs::INode::from_bytes(&bytes).expect("an encoding must decode");
    assert_eq!(back.id, 1);
    assert!(back.is_directory());
    assert_eq!(back.get_child_id(&String::from("plain.txt")).unwrap(), 2);
    assert_eq!(back.get_child_id(&String::from("ünïcode.bin")).unwrap(), 3);
    match back.get_child_id(&String::from("absent")) {
        Err(TimeFSError::NameNotFound(_)) => {}
        _ => panic!("expected NameNotFound"),
    }
}

#[test]
fn test_inode_codec_refuses_corrupt_records() {
    let attr = FileAttrBuilder::default().ino(5).with_regular_file().build();
    let node = timefs::INode::new(
        5,
        1,
        timefs::INodeType::File { blocks: vec![BlockRef { block_id: 2, size: 10 }], size: 10 },
        attr,
    );
    let bytes = node.to_bytes();

    assert!(timefs::INode::from_bytes(&[]).is_none());
    assert!(timefs::INode::from_bytes(&bytes[..50]).is_none());

    let mut bad_kind = bytes.clone();
    bad_kind[72] = 9;
    assert!(timefs::INode::from_bytes(&bad_kind).is_none());

    let mut bad_tag = bytes.clone();
    bad_tag[99] = 7;
    assert!(timefs::INode::from_bytes(&bad_tag).is_none());

    let mut trailing = bytes.clone();
    trailing.push(0);
    assert!(timefs::INode::from_bytes(&trailing).is_none(), "lengths must add up exactly");
}

#[test]
fn test_open_with_root_preserves_entries() {
    let mut first = TimeFS::new(16, 30, 0);
    first.create_file(ROOT_INODE_ID, String::from("one"), 0, 1).expect("create one");
    first.create_directory(ROOT_INODE_ID, String::from("two"), 0, 2).expect("create two");
    let root_bytes = first.get_inode(ROOT_INODE_ID).expect("root").to_bytes();
    let sb_bytes = first.superblock().to_bytes();

    // a later process reads both records back and mounts the store
    let sb = SuperBlock::from_bytes(&sb_bytes).expect("superblock decodes");
    let root = timefs::INode::from_bytes(&root_bytes).expect("root record decodes");
    let mut second = TimeFS::open_with_root(sb, root, 16, 30).expect("mountable");

    let remounted_root = second.get_inode(ROOT_INODE_ID).expect("root");
    assert_eq!(remounted_root.get_child_id(&String::from("one")).unwrap(), 2);
    assert_eq!(remounted_root.get_child_id(&String::from("two")).unwrap(), 3);

    // the persisted record stays authoritative and allocation continues
    let (attr, _) = second
        .create_file(ROOT_INODE_ID, String::from("three"), 0, 9)
        .expect("create after remount");
    assert_eq!(attr.ino, 4);
    match second.create_file(ROOT_INODE_ID, String::from("one"), 0, 10) {
        Err(TimeFSError::NameExists(n)) => assert_eq!(n, "one"),
        _ => panic!("remounted entries must refuse duplicate names"),
    }
}

#[test]
fn test_open_with_root_refuses_bad_root() {
    let sb = SuperBlock::new(0);
    let attr = FileAttrBuilder::default().ino(1).build();
    let file_root = timefs::INode::new(
        1,
        1,
        timefs::INodeType::File { blocks: Vec::new(), size: 0 },
        attr,
    );
    match TimeFS::open_with_root(sb, file_root, 16, 30) {
        Err(TimeFSError::Io) => {}
        _ => panic!("a file cannot be the root directory"),
    }
}

#[test]
fn test_full_metadata_reload_across_restart() {
    // first session: build a small tree and persist every record
    let mut first = TimeFS::new(16, 30, 0);
    let (dattr, _) = first
        .create_directory(ROOT_INODE_ID, String::from("docs"), 0, 1)
        .expect("mkdir");
    let (fattr, _) = first
        .create_file(dattr.ino, String::from("note"), 0, 2)
        .expect("create");
    let sb_bytes = first.superblock().to_bytes();
    let root_bytes = first.get_inode(ROOT_INODE_ID).unwrap().to_bytes();
    let docs_bytes = first.get_inode(dattr.ino).unwrap().to_bytes();
    let note_bytes = first.get_inode(fattr.ino).unwrap().to_bytes();

    // second session: mount from the records and load the tree back
    let sb = SuperBlock::from_bytes(&sb_bytes).expect("superblock decodes");
    let root = timefs::INode::from_bytes(&root_bytes).expect("root decodes");
    let mut second = TimeFS::open_with_root(sb, root, 16, 30).expect("mountable");
    second
        .load_inode(timefs::INode::from_bytes(&docs_bytes).expect("docs decodes"))
        .expect("docs loads");
    second
        .load_inode(timefs::INode::from_bytes(&note_bytes).expect("note decodes"))
        .expect("note loads");

    // the persisted records are the source of truth: the tree resolves
    let docs = second
        .get_inode_by_name(ROOT_INODE_ID, &String::from("docs"))
        .expect("docs resolves");
    assert_eq!(docs.id, dattr.ino);
    assert!(docs.is_directory());
    let note = second
        .get_inode_by_name(dattr.ino, &String::from("note"))
        .expect("note resolves");
    assert_eq!(note.id, fattr.ino);
    assert_eq!(note.attr.mtime, 2);

    // a record the counters never handed out is refused
    let stray = timefs::INode::new(
        99,
        1,
        timefs::INodeType::empty_file(),
        FileAttrBuilder::default().ino(99).build(),
    );
    match second.load_inode(stray) {
        Err(TimeFSError::Io) => {}
        _ => panic!("expected Io for a stray record"),
    }
}
