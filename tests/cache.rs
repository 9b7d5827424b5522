use easy_fs::block_cache::{BlockCacheManager, BlockDevice};
use easy_fs::efs::{EasyFileSystem, SuperBlock};

#[test]
fn read_after_modify_sees_new_bytes() {
    let mut cache = BlockCacheManager::new(BlockDevice::new(8), 2);
    cache.modify(3, 10, &[1, 2, 3]);
    let mut buf = [0u8; 5];
    cache.read(3, 9, &mut buf);
    assert_eq!(buf, [0, 1, 2, 3, 0]);
    assert!(cache.device.read_block(3).iter().all(|b| *b == 0));
}

#[test]
fn eviction_writes_back_least_recent() {
    let mut cache = BlockCacheManager::new(BlockDevice::new(8), 2);
    cache.modify(0, 0, &[7]);
    cache.modify(1, 0, &[8]);
    let mut buf = [0u8; 1];
    cache.read(0, 0, &mut buf);
    cache.read(2, 0, &mut buf);
    assert_eq!(cache.queue.len(), 2);
    assert_eq!(cache.device.read_block(1)[0], 8);
    assert_eq!(cache.device.read_block(0)[0], 0);
    cache.read(1, 0, &mut buf);
    assert_eq!(buf, [8]);
    cache.read(0, 0, &mut buf);
    assert_eq!(buf, [7]);
}

#[test]
fn sync_all_writes_every_modified_block() {
    let mut cache = BlockCacheManager::new(BlockDevice::new(4), 4);
    cache.modify(0, 511, &[5]);
    cache.modify(2, 0, &[6, 6]);
    cache.sync_all();
    assert_eq!(cache.device.read_block(0)[511], 5);
    assert_eq!(&cache.device.read_block(2)[..3], &[6, 6, 0]);
    assert!(cache.queue.iter().all(|e| !e.modified));
}

#[test]
fn device_write_and_read() {
    let mut dev = BlockDevice::new(2);
    assert_eq!(dev.num_blocks(), 2);
    dev.write_block(1, vec![4u8; 512]);
    assert_eq!(dev.read_block(1), vec![4u8; 512]);
    assert_eq!(dev.read_block(0), vec![0u8; 512]);
}

#[test]
fn sync_data_places_data_area_on_device() {
    let mut fs = EasyFileSystem::create(4, 3);
    let root = fs.root_inode();
    let h = root.create(&mut fs, "f").unwrap();
    h.write_at(&mut fs, 0, &[9u8; 600]);
    let mut cache = BlockCacheManager::new(BlockDevice::new(16), 2);
    fs.sync_data(&mut cache);
    let start = 1 + fs.super_block.inode_bitmap_blocks as usize
        + fs.super_block.inode_area_blocks as usize
        + fs.super_block.data_bitmap_blocks as usize;
    let first = cache.device.read_block(start);
    let second = cache.device.read_block(start + 1);
    assert!(first.iter().all(|b| *b == 9));
    assert!(second[..88].iter().all(|b| *b == 9));
    assert!(second[88..].iter().all(|b| *b == 0));
    assert_eq!(fs.super_block.magic, 0x3b800001);
}

#[test]
fn super_block_round_trip_through_device() {
    let fs = EasyFileSystem::create(100, 40);
    let mut cache = BlockCacheManager::new(BlockDevice::new(4), 2);
    assert!(EasyFileSystem::read_super_block(&mut cache).is_none());
    fs.write_super_block(&mut cache);
    let raw = cache.device.read_block(0);
    assert_eq!(&raw[..4], &[0x01, 0x00, 0x80, 0x3b]);
    let sb: SuperBlock = EasyFileSystem::read_super_block(&mut cache).unwrap();
    assert_eq!(sb.magic, fs.super_block.magic);
    assert_eq!(sb.total_blocks, fs.super_block.total_blocks);
    assert_eq!(sb.inode_bitmap_blocks, 1);
    assert_eq!(sb.inode_area_blocks, 25);
    assert_eq!(sb.data_bitmap_blocks, 1);
    assert_eq!(sb.data_area_blocks, 40);
    assert_eq!(sb.total_blocks, 1 + 1 + 25 + 1 + 40);
}

#[test]
fn decode_refuses_wrong_magic() {
    let mut block = vec![0u8; 512];
    assert!(SuperBlock::decode(&block).is_none());
    block[0] = 0x01;
    block[2] = 0x80;
    block[3] = 0x3b;
    block[4] = 9;
    let sb = SuperBlock::decode(&block).unwrap();
    assert_eq!(sb.total_blocks, 9);
    assert_eq!(sb.encode(), block);
}

#[test]
fn bitmaps_land_in_their_regions() {
    let mut fs = EasyFileSystem::create(10, 20);
    let root = fs.root_inode();
    let h = root.create(&mut fs, "f").unwrap();
    root.create(&mut fs, "g").unwrap();
    h.write_at(&mut fs, 0, &[1u8; 1100]);
    let mut cache = BlockCacheManager::new(BlockDevice::new(40), 3);
    fs.sync_bitmaps(&mut cache);
    let inode_bits = cache.device.read_block(1);
    assert_eq!(inode_bits[0], 0b0000_0111);
    assert!(inode_bits[1..].iter().all(|b| *b == 0));
    let data_start = 1 + fs.super_block.inode_bitmap_blocks as usize
        + fs.super_block.inode_area_blocks as usize;
    let data_bits = cache.device.read_block(data_start);
    assert_eq!(data_bits[0], 0b0000_0111);
    assert!(data_bits[1..].iter().all(|b| *b == 0));
}

#[test]
fn full_cache_evicts_least_recently_touched() {
    let mut cache = BlockCacheManager::new(BlockDevice::new(8), 2);
    let mut buf = [0u8; 1];
    cache.read(4, 0, &mut buf);
    cache.modify(5, 0, &[3]);
    cache.read(4, 0, &mut buf);
    let slot = cache.get_block_cache(6);
    assert_eq!(cache.queue[slot].block_id, 6);
    assert!(cache.queue.iter().any(|e| e.block_id == 4));
    assert!(!cache.queue.iter().any(|e| e.block_id == 5));
    assert_eq!(cache.device.read_block(5)[0], 3);
}
