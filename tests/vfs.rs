use easy_fs::efs::EasyFileSystem;
use easy_fs::layout::{DirEntry, DiskInode, DiskInodeType};
use easy_fs::vfs::Inode;

fn fresh() -> (EasyFileSystem, Inode) {
    let fs = EasyFileSystem::create(64, 256);
    let root = fs.root_inode();
    (fs, root)
}

fn payload(len: usize) -> Vec<u8> {
    (0..len).map(|i| (i * 7 + 3) as u8).collect()
}

#[test]
fn create_twice_returns_none() {
    let (mut fs, root) = fresh();
    assert!(root.create(&mut fs, "f").is_some());
    assert!(root.create(&mut fs, "f").is_none());
    assert_eq!(root.ls(&fs), vec!["f".to_string()]);
    assert_eq!(fs.inodes[0].entries.len(), 1);
}

#[test]
fn create_then_find_same_id() {
    let (mut fs, root) = fresh();
    let h = root.create(&mut fs, "hello").unwrap();
    let created_id = h.get_inode_id(&fs);
    let found = root.find(&fs, "hello").unwrap();
    assert_eq!(found.get_inode_id(&fs), created_id);
    assert_eq!(found, h);
    assert!(root.find(&fs, "other").is_none());
}

#[test]
fn empty_name_is_refused() {
    let (mut fs, root) = fresh();
    assert!(root.create(&mut fs, "").is_none());
    assert!(root.find(&fs, "").is_none());
    assert!(root.ls(&fs).is_empty());
}

fn round_trip(len: usize) {
    let (mut fs, root) = fresh();
    let h = root.create(&mut fs, "data").unwrap();
    let p = payload(len);
    assert_eq!(h.write_at(&mut fs, 0, &p), len);
    let mut buf = vec![0u8; len];
    assert_eq!(h.read_at(&fs, 0, &mut buf), len);
    assert_eq!(buf, p);
}

#[test]
fn write_read_small() {
    round_trip(100);
}

#[test]
fn write_read_one_block_exactly() {
    round_trip(512);
}

#[test]
fn write_read_past_direct_capacity() {
    round_trip(28 * 512 + 1000);
}

#[test]
fn write_read_large() {
    round_trip(100 * 512 + 17);
}

#[test]
fn write_grows_with_zero_gap() {
    let (mut fs, root) = fresh();
    let h = root.create(&mut fs, "gap").unwrap();
    assert_eq!(h.write_at(&mut fs, 1000, &[9, 9]), 2);
    assert_eq!(fs.inodes[h.get_inode_id(&fs) as usize].size, 1002);
    let mut buf = vec![1u8; 1002];
    assert_eq!(h.read_at(&fs, 0, &mut buf), 1002);
    assert!(buf[..1000].iter().all(|b| *b == 0));
    assert_eq!(&buf[1000..], &[9, 9]);
}

#[test]
fn read_is_clipped_at_end() {
    let (mut fs, root) = fresh();
    let h = root.create(&mut fs, "f").unwrap();
    h.write_at(&mut fs, 0, b"abcdef");
    let mut buf = [0u8; 10];
    assert_eq!(h.read_at(&fs, 4, &mut buf), 2);
    assert_eq!(&buf[..2], b"ef");
    assert_eq!(&buf[2..], &[0u8; 8]);
    assert_eq!(h.read_at(&fs, 6, &mut buf), 0);
    assert_eq!(h.read_at(&fs, 60, &mut buf), 0);
}

#[test]
fn overwrite_in_middle() {
    let (mut fs, root) = fresh();
    let h = root.create(&mut fs, "f").unwrap();
    h.write_at(&mut fs, 0, b"hello world");
    assert_eq!(h.write_at(&mut fs, 6, b"WORLD"), 5);
    let mut buf = [0u8; 11];
    h.read_at(&fs, 0, &mut buf);
    assert_eq!(&buf, b"hello WORLD");
}

#[test]
fn write_without_room_changes_nothing() {
    let mut fs = EasyFileSystem::create(8, 2);
    let root = fs.root_inode();
    let h = root.create(&mut fs, "f").unwrap();
    assert_eq!(h.write_at(&mut fs, 0, &payload(1024)), 1024);
    assert_eq!(h.write_at(&mut fs, 1024, &[1]), 0);
    assert_eq!(fs.inodes[h.get_inode_id(&fs) as usize].size, 1024);
}

#[test]
fn hard_link_shares_content_and_counts() {
    let (mut fs, root) = fresh();
    let a = root.create(&mut fs, "a").unwrap();
    a.write_at(&mut fs, 0, b"shared bytes");
    assert_eq!(a.get_disk_hard_linked(&fs), 1);
    assert_eq!(root.create_a_hard_link(&mut fs, "a", "b"), 0);
    assert_eq!(a.get_disk_hard_linked(&fs), 2);
    let b = root.find(&fs, "b").unwrap();
    assert_eq!(b.get_inode_id(&fs), a.get_inode_id(&fs));
    let mut buf = [0u8; 12];
    assert_eq!(b.read_at(&fs, 0, &mut buf), 12);
    assert_eq!(&buf, b"shared bytes");
}

#[test]
fn hard_link_failures() {
    let (mut fs, root) = fresh();
    root.create(&mut fs, "a").unwrap();
    root.create(&mut fs, "c").unwrap();
    assert_eq!(root.create_a_hard_link(&mut fs, "missing", "b"), -1);
    assert_eq!(root.create_a_hard_link(&mut fs, "a", "c"), -1);
    assert_eq!(root.create_a_hard_link(&mut fs, "a", ""), -1);
    assert_eq!(root.ls(&fs), vec!["a".to_string(), "c".to_string()]);
}

#[test]
fn unlink_last_link_frees_blocks() {
    let (mut fs, root) = fresh();
    let a = root.create(&mut fs, "a").unwrap();
    a.write_at(&mut fs, 0, &payload(3000));
    let id = a.get_inode_id(&fs) as usize;
    let blocks: Vec<u32> = fs.inodes[id].blocks.clone();
    assert_eq!(blocks.len(), 6);
    assert_eq!(root.create_a_hard_link(&mut fs, "a", "b"), 0);
    assert_eq!(root.delete_a_hard_link(&mut fs, "a"), 0);
    assert_eq!(a.get_disk_hard_linked(&fs), 1);
    for b in &blocks {
        assert!(fs.data_bitmap[*b as usize]);
    }
    assert_eq!(root.delete_a_hard_link(&mut fs, "b"), 0);
    assert_eq!(a.get_disk_hard_linked(&fs), 0);
    for b in &blocks {
        assert!(!fs.data_bitmap[*b as usize]);
    }
    assert!(root.find(&fs, "a").is_none());
    assert!(root.find(&fs, "b").is_none());
    assert!(!fs.inode_bitmap[id]);
    for b in &blocks {
        assert!(fs.data_area[*b as usize].iter().all(|x| *x == 0));
    }
    let first = fs.alloc_data().unwrap();
    assert_eq!(first, *blocks.iter().min().unwrap());
}

#[test]
fn unlink_missing_name_fails() {
    let (mut fs, root) = fresh();
    assert_eq!(root.delete_a_hard_link(&mut fs, "nothing"), -1);
}

#[test]
fn unlink_keeps_other_alias_entries() {
    let (mut fs, root) = fresh();
    root.create(&mut fs, "a").unwrap();
    root.create_a_hard_link(&mut fs, "a", "b");
    root.create_a_hard_link(&mut fs, "a", "c");
    assert_eq!(root.delete_a_hard_link(&mut fs, "b"), 0);
    assert_eq!(root.ls(&fs), vec!["a".to_string(), "c".to_string()]);
}

#[test]
fn clear_then_read_gives_nothing() {
    let (mut fs, root) = fresh();
    let h = root.create(&mut fs, "f").unwrap();
    h.write_at(&mut fs, 0, &payload(2000));
    h.clear(&mut fs);
    let mut buf = [7u8; 64];
    assert_eq!(h.read_at(&fs, 0, &mut buf), 0);
    assert_eq!(h.read_at(&fs, 100, &mut buf), 0);
    assert_eq!(buf, [7u8; 64]);
    assert!(fs.data_bitmap.iter().all(|b| !*b));
}

#[test]
fn ls_after_churn_lists_live_names() {
    let (mut fs, root) = fresh();
    root.create(&mut fs, "x").unwrap();
    root.create(&mut fs, "y").unwrap();
    root.delete_a_hard_link(&mut fs, "x");
    root.delete_a_hard_link(&mut fs, "y");
    root.create(&mut fs, "a").unwrap();
    root.create(&mut fs, "b").unwrap();
    root.create(&mut fs, "c").unwrap();
    assert_eq!(root.ls(&fs), vec!["a".to_string(), "b".to_string(), "c".to_string()]);
}

#[test]
fn two_handles_see_the_same_write() {
    let (mut fs, root) = fresh();
    root.create(&mut fs, "f").unwrap();
    let h1 = root.find(&fs, "f").unwrap();
    let h2 = root.find(&fs, "f").unwrap();
    h1.write_at(&mut fs, 0, b"one");
    let mut b1 = [0u8; 3];
    let mut b2 = [0u8; 3];
    h1.read_at(&fs, 0, &mut b1);
    h2.read_at(&fs, 0, &mut b2);
    assert_eq!(&b1, b"one");
    assert_eq!(&b2, b"one");
    let h3 = root.find(&fs, "f").unwrap();
    h3.write_at(&mut fs, 0, b"two");
    h1.read_at(&fs, 0, &mut b1);
    assert_eq!(&b1, b"two");
}

#[test]
fn fstat_reports_id_mode_links() {
    let (mut fs, root) = fresh();
    let a = root.create(&mut fs, "a").unwrap();
    root.create(&mut fs, "b").unwrap();
    let b = root.find(&fs, "b").unwrap();
    assert_eq!(root.fstat(&fs, &a), (1, 1, 1));
    assert_eq!(root.fstat(&fs, &b), (2, 1, 1));
    assert_eq!(root.fstat(&fs, &root), (0, 0, 0));
    root.create_a_hard_link(&mut fs, "a", "a2");
    assert_eq!(root.fstat(&fs, &a), (1, 1, 2));
}

#[test]
fn inode_positions_round_trip() {
    let fs = EasyFileSystem::create(64, 8);
    for id in 0..64u32 {
        let (block, offset) = fs.get_disk_inode_pos(id);
        assert_eq!(offset % 128, 0);
        assert_eq!(fs.get_inode_id(block, offset), id as u64);
    }
    assert_eq!(fs.get_disk_inode_pos(0), (2, 0));
    assert_eq!(fs.get_disk_inode_pos(5), (3, 128));
}

#[test]
fn inodes_run_out() {
    let mut fs = EasyFileSystem::create(3, 8);
    let root = fs.root_inode();
    assert!(root.create(&mut fs, "a").is_some());
    assert!(root.create(&mut fs, "b").is_some());
    assert!(root.create(&mut fs, "c").is_none());
    assert_eq!(fs.alloc_inode(), None);
}

#[test]
fn alloc_and_dealloc_data() {
    let mut fs = EasyFileSystem::create(4, 3);
    assert_eq!(fs.alloc_data(), Some(0));
    assert_eq!(fs.alloc_data(), Some(1));
    assert_eq!(fs.alloc_data(), Some(2));
    assert_eq!(fs.alloc_data(), None);
    fs.dealloc_data(1);
    assert_eq!(fs.alloc_data(), Some(1));
}

#[test]
fn block_counts() {
    assert_eq!(DiskInode::total_blocks(0), 0);
    assert_eq!(DiskInode::total_blocks(1), 1);
    assert_eq!(DiskInode::total_blocks(512), 1);
    assert_eq!(DiskInode::total_blocks(513), 2);
    let d = DiskInode::initialize(DiskInodeType::File);
    assert!(d.is_file());
    assert!(!d.is_dir());
    assert_eq!(d.blocks_num_needed(1025), 3);
}

#[test]
fn dir_entry_accessors() {
    let e = DirEntry::new("name", 7);
    assert_eq!(e.name(), "name");
    assert_eq!(e.inode_number(), 7);
    let z = DirEntry::empty();
    assert_eq!(z.name(), "");
    assert_eq!(z.inode_number(), 0);
}

#[test]
fn freed_inode_id_is_reused_lowest_first() {
    let (mut fs, root) = fresh();
    let a = root.create(&mut fs, "a").unwrap();
    let b = root.create(&mut fs, "b").unwrap();
    assert_eq!(a.get_inode_id(&fs), 1);
    assert_eq!(b.get_inode_id(&fs), 2);
    assert_eq!(root.delete_a_hard_link(&mut fs, "a"), 0);
    assert!(!fs.inode_bitmap[1]);
    let c = root.create(&mut fs, "c").unwrap();
    assert_eq!(c.get_inode_id(&fs), 1);
    assert_eq!(root.fstat(&fs, &c), (1, 1, 1));
}

#[test]
fn unlink_with_other_link_keeps_inode() {
    let (mut fs, root) = fresh();
    let a = root.create(&mut fs, "a").unwrap();
    root.create_a_hard_link(&mut fs, "a", "b");
    root.delete_a_hard_link(&mut fs, "a");
    assert!(fs.inode_bitmap[a.get_inode_id(&fs) as usize]);
}

#[test]
fn clear_twice_releases_nothing_more() {
    let (mut fs, root) = fresh();
    let h = root.create(&mut fs, "f").unwrap();
    h.write_at(&mut fs, 0, &payload(700));
    h.clear(&mut fs);
    let bitmap: Vec<bool> = fs.data_bitmap.clone();
    h.clear(&mut fs);
    assert_eq!(fs.data_bitmap, bitmap);
    assert_eq!(fs.inodes[h.get_inode_id(&fs) as usize].size, 0);
}
