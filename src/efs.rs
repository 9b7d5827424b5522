use vstd::prelude::*;
use crate::block_cache::BlockCacheManager;
use crate::layout::{
    blocks_for, DirEntry, DiskInode, DiskInodeType, BITS_PER_BLOCK, BLOCK_SZ, DISK_INODE_SZ,
    EFS_MAGIC, INODES_PER_BLOCK,
};

verus! {

/// Header of the layout: the magic value and the size of each region.
pub struct SuperBlock {
    pub magic: u32,
    pub total_blocks: u32,
    pub inode_bitmap_blocks: u32,
    pub inode_area_blocks: u32,
    pub data_bitmap_blocks: u32,
    pub data_area_blocks: u32,
}

/// The filesystem: both bitmaps, the inode area and the data area.
/// Bit `i` of a bitmap is `true` when unit `i` is in use.
pub struct EasyFileSystem {
    pub super_block: SuperBlock,
    pub inode_bitmap: Vec<bool>,
    pub inodes: Vec<DiskInode>,
    pub data_bitmap: Vec<bool>,
    pub data_area: Vec<Vec<u8>>,
}

/// A block holding only zero bytes.
pub open spec fn zero_block() -> Seq<u8> {
    Seq::new(BLOCK_SZ as nat, |j: int| 0u8)
}

pub(crate) fn new_zero_block() -> (r: Vec<u8>)
    ensures
        r@ == zero_block(),
{
    let mut r: Vec<u8> = Vec::new();
    let mut j: usize = 0;
    while j < BLOCK_SZ
        invariant
            j <= BLOCK_SZ,
            r@.len() == j,
            forall|k: int| 0 <= k < j ==> r@[k] == 0u8,
        decreases BLOCK_SZ - j,
    {
        r.push(0u8);
        j = j + 1;
    }
    assert(r@ =~= zero_block());
    r
}

impl EasyFileSystem {
    pub open spec fn inode_used(self, i: int) -> bool {
        0 <= i < self.inodes@.len() && self.inode_bitmap@[i]
    }

    pub open spec fn inode(self, i: int) -> DiskInode {
        self.inodes@[i]
    }

    pub open spec fn is_file(self, i: int) -> bool {
        self.inode_used(i) && self.inodes@[i].type_ == DiskInodeType::File
    }

    pub open spec fn is_dir(self, i: int) -> bool {
        self.inode_used(i) && self.inodes@[i].type_ == DiskInodeType::Directory
    }

    /// Block id holding bytes `[512 * k, 512 * k + 512)` of file `i`.
    pub open spec fn block_of(self, i: int, k: int) -> int {
        self.inodes@[i].blocks@[k] as int
    }

    /// The bytes of file `i`.
    pub open spec fn content(self, i: int) -> Seq<u8> {
        Seq::new(
            self.inodes@[i].size as nat,
            |j: int| self.data_area@[self.block_of(i, j / 512)]@[j % 512],
        )
    }

    /// The entries of directory `i`, as (name, inode id) pairs.
    pub open spec fn entries(self, i: int) -> Seq<(Seq<char>, u32)> {
        self.inodes@[i].entries@.map_values(|e: DirEntry| e@)
    }

    /// Contents of the data area, block by block.
    pub open spec fn disk(self) -> Seq<Seq<u8>> {
        self.data_area@.map_values(|blk: Vec<u8>| blk@)
    }

    pub open spec fn data_used(self, b: int) -> bool {
        0 <= b < self.data_bitmap@.len() && self.data_bitmap@[b]
    }

    /// Well-formedness of one in-use inode.
    pub open spec fn inode_wf(self, i: int) -> bool {
        let d = self.inodes@[i];
        &&& d.type_ == DiskInodeType::File ==> {
            &&& d.blocks@.len() == blocks_for(d.size as nat)
            &&& d.entries@.len() == 0
        }
        &&& d.type_ == DiskInodeType::Directory ==> {
            &&& d.blocks@.len() == 0
            &&& d.size as int == d.entries@.len() * 32
        }
        &&& forall|k: int| 0 <= k < d.blocks@.len() ==> self.data_used(#[trigger] d.blocks@[k] as int)
        &&& forall|k: int, j: int|
            0 <= k < d.blocks@.len() && 0 <= j < 512 && k * 512 + j >= d.size
                ==> #[trigger] self.data_area@[d.blocks@[k] as int]@[j] == 0u8
        &&& forall|k: int| #![trigger d.entries@[k]]
            0 <= k < d.entries@.len() && !d.entries@[k].is_tombstone()
                ==> self.inode_used(d.entries@[k].inode_number as int)
        &&& forall|k1: int, k2: int|
            0 <= k1 < d.entries@.len() && 0 <= k2 < d.entries@.len() && k1 != k2
                && !d.entries@[k1].is_tombstone()
                ==> #[trigger] d.entries@[k1].name@ != #[trigger] d.entries@[k2].name@
    }

    /// The inode that the live entry `name` of directory `dir` names, if any.
    pub open spec fn dir_lookup(self, dir: int, name: Seq<char>) -> Option<u32> {
        let es = self.entries(dir);
        if name.len() > 0 && exists|k: int| 0 <= k < es.len() && es[k].0 == name {
            Some(es[choose|k: int| 0 <= k < es.len() && es[k].0 == name].1)
        } else {
            None
        }
    }

    pub open spec fn wf(self) -> bool {
        &&& self.inodes@.len() == self.inode_bitmap@.len()
        &&& self.inodes@.len() <= u32::MAX
        &&& self.data_area@.len() == self.data_bitmap@.len()
        &&& self.data_area@.len() == self.super_block.data_area_blocks
        &&& self.data_area@.len() <= u32::MAX
        &&& forall|b: int| 0 <= b < self.data_area@.len() ==> (#[trigger] self.data_area@[b])@.len() == BLOCK_SZ
        &&& forall|i: int| #[trigger] self.inode_used(i) ==> self.inode_wf(i)
        &&& forall|i1: int, k1: int, i2: int, k2: int|
            self.inode_used(i1) && self.inode_used(i2)
                && 0 <= k1 < self.inodes@[i1].blocks@.len()
                && 0 <= k2 < self.inodes@[i2].blocks@.len()
                && #[trigger] self.inodes@[i1].blocks@[k1] == #[trigger] self.inodes@[i2].blocks@[k2]
                ==> i1 == i2 && k1 == k2
        &&& self.is_dir(0)
        &&& self.super_block.inode_bitmap_blocks as nat * BITS_PER_BLOCK >= self.inodes@.len()
        &&& 1 + self.super_block.inode_bitmap_blocks as nat
            + self.inodes@.len() / (INODES_PER_BLOCK as nat) + 1 <= u32::MAX
    }

    /// Lays out a filesystem with room for `inode_count` inodes and
    /// `data_blocks` data blocks, and makes the root directory at inode 0.
    pub fn create(inode_count: u32, data_blocks: u32) -> (r: EasyFileSystem)
        requires
            1 <= inode_count <= 0x1000_0000,
        ensures
            r.wf(),
            r.inodes@.len() == inode_count,
            r.data_area@.len() == data_blocks,
            forall|i: int| 0 <= i < r.inodes@.len() ==> (#[trigger] r.inode_used(i) <==> i == 0),
            forall|b: int| 0 <= b < r.data_area@.len() ==> !#[trigger] r.data_used(b),
            forall|b: int| 0 <= b < r.data_area@.len() ==> #[trigger] r.data_area@[b]@ == zero_block(),
            r.entries(0).len() == 0,
            r.inode(0).hard_linked == 0,
    {
        let bits = BITS_PER_BLOCK as u32;
        let inode_bitmap_blocks: u32 = (inode_count + bits - 1) / bits;
        let inode_area_blocks: u32 = (inode_count + INODES_PER_BLOCK as u32 - 1) / INODES_PER_BLOCK as u32;
        let data_bitmap_blocks: u32 = (data_blocks / bits) + 1;
        let mut inode_bitmap: Vec<bool> = Vec::new();
        let mut inodes: Vec<DiskInode> = Vec::new();
        let mut i: u32 = 0;
        while i < inode_count
            invariant
                i <= inode_count,
                inode_bitmap@.len() == i,
                inodes@.len() == i,
                forall|k: int| 0 <= k < i ==> (#[trigger] inode_bitmap@[k] <==> k == 0),
                inodes@.len() > 0 ==> inodes@[0].type_ == DiskInodeType::Directory,
                forall|k: int| 0 <= k < i ==> (#[trigger] inodes@[k]).blocks@.len() == 0
                    && inodes@[k].entries@.len() == 0 && inodes@[k].size == 0
                    && inodes@[k].hard_linked == 0,
            decreases inode_count - i,
        {
            if i == 0 {
                inodes.push(DiskInode::initialize(DiskInodeType::Directory));
            } else {
                inodes.push(DiskInode::initialize(DiskInodeType::File));
            }
            inode_bitmap.push(i == 0);
            i = i + 1;
        }
        let mut data_bitmap: Vec<bool> = Vec::new();
        let mut data_area: Vec<Vec<u8>> = Vec::new();
        let mut b: u32 = 0;
        while b < data_blocks
            invariant
                b <= data_blocks,
                data_bitmap@.len() == b,
                data_area@.len() == b,
                forall|k: int| 0 <= k < b ==> !#[trigger] data_bitmap@[k],
                forall|k: int| 0 <= k < b ==> (#[trigger] data_area@[k])@ == zero_block(),
            decreases data_blocks - b,
        {
            data_area.push(new_zero_block());
            data_bitmap.push(false);
            b = b + 1;
        }
        let total: u64 = 1 + inode_bitmap_blocks as u64 + inode_area_blocks as u64
            + data_bitmap_blocks as u64 + data_blocks as u64;
        let super_block = SuperBlock {
            magic: EFS_MAGIC,
            total_blocks: if total > u32::MAX as u64 { u32::MAX } else { total as u32 },
            inode_bitmap_blocks,
            inode_area_blocks,
            data_bitmap_blocks,
            data_area_blocks: data_blocks,
        };
        let r = EasyFileSystem { super_block, inode_bitmap, inodes, data_bitmap, data_area };
        assert(r.entries(0) =~= Seq::<(Seq<char>, u32)>::empty());
        r
    }
}


impl EasyFileSystem {
    /// Block id of the first inode-area block.
    pub open spec fn inode_area_start(self) -> nat {
        1 + self.super_block.inode_bitmap_blocks as nat
    }

    /// Position `(block id, byte offset)` of inode `inode_id` in the packed inode area.
    pub fn get_disk_inode_pos(&self, inode_id: u32) -> (r: (u32, usize))
        requires
            self.wf(),
            inode_id < self.inodes@.len(),
        ensures
            r.0 == self.inode_area_start() + inode_id as nat / 4,
            r.1 == (inode_id as nat % 4) * 128,
    {
        let block = 1 + self.super_block.inode_bitmap_blocks + inode_id / INODES_PER_BLOCK as u32;
        (block, (inode_id % INODES_PER_BLOCK as u32) as usize * DISK_INODE_SZ)
    }

    /// Inverse of `get_disk_inode_pos`: the inode id stored at a position.
    pub fn get_inode_id(&self, block_id: u32, offset: usize) -> (r: u64)
        requires
            self.wf(),
            block_id >= self.inode_area_start(),
            block_id - self.inode_area_start() <= u32::MAX / 4,
        ensures
            r == (block_id - self.inode_area_start()) * 4 + offset as nat / 128,
    {
        let start = 1 + self.super_block.inode_bitmap_blocks;
        ((block_id - start) as u64) * (INODES_PER_BLOCK as u64) + (offset / DISK_INODE_SZ) as u64
    }

    /// Takes the first free inode id, marks it used and writes a fresh file
    /// record there. `None` when every inode is in use.
    pub fn alloc_inode(&mut self) -> (r: Option<u32>)
        requires
            old(self).wf(),
        ensures
            final(self).wf(),
            match r {
                None => {
                    &&& *final(self) == *old(self)
                    &&& forall|i: int| 0 <= i < old(self).inodes@.len() ==> #[trigger] old(self).inode_used(i)
                },
                Some(id) => {
                    &&& !old(self).inode_used(id as int)
                    &&& id < old(self).inodes@.len()
                    &&& forall|i: int| 0 <= i < id ==> #[trigger] old(self).inode_used(i)
                    &&& final(self).inode_bitmap@ == old(self).inode_bitmap@.update(id as int, true)
                    &&& final(self).inodes@.len() == old(self).inodes@.len()
                    &&& forall|i: int| 0 <= i < old(self).inodes@.len() && i != id
                        ==> #[trigger] final(self).inodes@[i] == old(self).inodes@[i]
                    &&& final(self).inode(id as int).type_ == DiskInodeType::File
                    &&& final(self).inode(id as int).size == 0
                    &&& final(self).inode(id as int).hard_linked == 0
                    &&& final(self).inode(id as int).blocks@.len() == 0
                    &&& final(self).inode(id as int).entries@.len() == 0
                },
            },
            final(self).data_bitmap == old(self).data_bitmap,
            final(self).data_area == old(self).data_area,
            final(self).super_block == old(self).super_block,
    {
        let mut i: usize = 0;
        while i < self.inode_bitmap.len()
            invariant
                *self == *old(self),
                self.wf(),
                i <= self.inode_bitmap@.len(),
                forall|k: int| 0 <= k < i ==> #[trigger] self.inode_used(k),
            decreases self.inode_bitmap@.len() - i,
        {
            if !self.inode_bitmap[i] {
                self.inode_bitmap.set(i, true);
                self.inodes.set(i, DiskInode::initialize(DiskInodeType::File));
                let ghost s = *self;
                assert forall|j: int| #[trigger] s.inode_used(j) implies s.inode_wf(j) by {
                    if j != i {
                        assert(old(self).inode_bitmap@[j]);
                        assert(old(self).inode_used(j));
                        assert(old(self).inode_wf(j));
                    }
                }
                return Some(i as u32);
            }
            i = i + 1;
        }
        None
    }

    /// Takes the first free data block, marks it used and zero-fills it.
    /// `None` when every data block is in use.
    pub fn alloc_data(&mut self) -> (r: Option<u32>)
        requires
            old(self).wf(),
        ensures
            final(self).wf(),
            match r {
                None => {
                    &&& *final(self) == *old(self)
                    &&& forall|b: int| 0 <= b < old(self).data_area@.len() ==> #[trigger] old(self).data_used(b)
                },
                Some(b) => {
                    &&& b < old(self).data_area@.len()
                    &&& !old(self).data_used(b as int)
                    &&& forall|c: int| 0 <= c < b ==> #[trigger] old(self).data_used(c)
                    &&& final(self).data_bitmap@ == old(self).data_bitmap@.update(b as int, true)
                    &&& final(self).disk() == old(self).disk().update(b as int, zero_block())
                },
            },
            final(self).inode_bitmap == old(self).inode_bitmap,
            final(self).inodes == old(self).inodes,
            final(self).super_block == old(self).super_block,
    {
        let mut b: usize = 0;
        while b < self.data_bitmap.len()
            invariant
                *self == *old(self),
                self.wf(),
                b <= self.data_bitmap@.len(),
                forall|c: int| 0 <= c < b ==> #[trigger] self.data_used(c),
            decreases self.data_bitmap@.len() - b,
        {
            if !self.data_bitmap[b] {
                self.take_data_block(b);
                return Some(b as u32);
            }
            b = b + 1;
        }
        None
    }

    /// Marks free block `b` used and zero-fills it.
    pub(crate) fn take_data_block(&mut self, b: usize)
        requires
            old(self).wf(),
            b < old(self).data_area@.len(),
            !old(self).data_used(b as int),
        ensures
            final(self).wf(),
            final(self).data_bitmap@ == old(self).data_bitmap@.update(b as int, true),
            final(self).disk() == old(self).disk().update(b as int, zero_block()),
            final(self).data_area@.len() == old(self).data_area@.len(),
            final(self).data_area@[b as int]@ == zero_block(),
            forall|c: int| 0 <= c < old(self).data_area@.len() && c != b
                ==> #[trigger] final(self).data_area@[c] == old(self).data_area@[c],
            final(self).inode_bitmap == old(self).inode_bitmap,
            final(self).inodes == old(self).inodes,
            final(self).super_block == old(self).super_block,
    {
        self.data_bitmap.set(b, true);
        let z = new_zero_block();
        self.data_area.set(b, z);
        let ghost s = *self;
        assert(s.disk() =~= old(self).disk().update(b as int, zero_block()));
        assert forall|i: int| #[trigger] s.inode_used(i) implies s.inode_wf(i) by {
            assert(old(self).inode_used(i));
            assert(old(self).inode_wf(i));
            let d = s.inodes@[i];
            assert forall|k: int, j: int|
                0 <= k < d.blocks@.len() && 0 <= j < 512 && k * 512 + j >= d.size
                implies #[trigger] s.data_area@[d.blocks@[k] as int]@[j] == 0u8 by {
                assert(old(self).data_used(d.blocks@[k] as int));
            }
        }
    }

    /// Zero-fills block `b` and marks it free.
    pub fn dealloc_data(&mut self, b: u32)
        requires
            old(self).wf(),
            b < old(self).data_area@.len(),
            forall|i: int, k: int| old(self).inode_used(i)
                && 0 <= k < old(self).inodes@[i].blocks@.len()
                ==> #[trigger] old(self).inodes@[i].blocks@[k] != b,
        ensures
            final(self).wf(),
            final(self).data_bitmap@ == old(self).data_bitmap@.update(b as int, false),
            final(self).disk() == old(self).disk().update(b as int, zero_block()),
            final(self).data_area@.len() == old(self).data_area@.len(),
            forall|c: int| 0 <= c < old(self).data_area@.len() && c != b
                ==> #[trigger] final(self).data_area@[c] == old(self).data_area@[c],
            final(self).inode_bitmap == old(self).inode_bitmap,
            final(self).inodes == old(self).inodes,
            final(self).super_block == old(self).super_block,
    {
        let z = new_zero_block();
        self.data_area.set(b as usize, z);
        self.data_bitmap.set(b as usize, false);
        let ghost s = *self;
        assert(s.disk() =~= old(self).disk().update(b as int, zero_block()));
        assert forall|i: int| #[trigger] s.inode_used(i) implies s.inode_wf(i) by {
            assert(old(self).inode_used(i));
            assert(old(self).inode_wf(i));
            let d = s.inodes@[i];
            assert forall|k: int| 0 <= k < d.blocks@.len() implies s.data_used(#[trigger] d.blocks@[k] as int) by {
                assert(old(self).data_used(d.blocks@[k] as int));
            }
            assert forall|k: int, j: int|
                0 <= k < d.blocks@.len() && 0 <= j < 512 && k * 512 + j >= d.size
                implies #[trigger] s.data_area@[d.blocks@[k] as int]@[j] == 0u8 by {
                assert(old(self).data_area@[d.blocks@[k] as int]@[j] == 0u8);
            }
        }
    }
}

impl EasyFileSystem {
    /// Block id of the first data-area block on the device.
    pub open spec fn data_area_start(self) -> nat {
        1 + self.super_block.inode_bitmap_blocks as nat + self.super_block.inode_area_blocks as nat
            + self.super_block.data_bitmap_blocks as nat
    }

    /// Writes every data block to its place on the device, through `cache`,
    /// and then flushes the cache, so that the device holds the data area.
    pub fn sync_data(&self, cache: &mut BlockCacheManager)
        requires
            self.wf(),
            old(cache).wf(),
            self.data_area_start() + self.data_area@.len() <= old(cache).view().len(),
        ensures
            final(cache).wf(),
            final(cache).view().len() == old(cache).view().len(),
            forall|b: int| 0 <= b < self.data_area@.len()
                ==> #[trigger] final(cache).device.view()[self.data_area_start() + b] == self.disk()[b],
            forall|b: int| 0 <= b < old(cache).view().len()
                && !(self.data_area_start() <= b < self.data_area_start() + self.data_area@.len())
                ==> #[trigger] final(cache).device.view()[b] == old(cache).view()[b],
    {
        let total = cache.device.num_blocks();
        assert(total == old(cache).view().len());
        let start: usize = 1 + self.super_block.inode_bitmap_blocks as usize
            + self.super_block.inode_area_blocks as usize + self.super_block.data_bitmap_blocks as usize;
        let mut b: usize = 0;
        while b < self.data_area.len()
            invariant
                self.wf(),
                cache.wf(),
                start == self.data_area_start(),
                start + self.data_area@.len() <= cache.view().len(),
                cache.view().len() == old(cache).view().len(),
                total == old(cache).view().len(),
                b <= self.data_area@.len(),
                forall|c: int| 0 <= c < b ==> #[trigger] cache.view()[start + c] == self.disk()[c],
                forall|c: int| 0 <= c < old(cache).view().len() && !(start <= c < start + b)
                    ==> #[trigger] cache.view()[c] == old(cache).view()[c],
            decreases self.data_area@.len() - b,
        {
            let ghost before = cache.view();
            cache.modify(start + b, 0, self.data_area[b].as_slice());
            proof {
                assert(crate::data::overwrite(before[start + b], 0, self.data_area@[b as int]@)
                    =~= self.disk()[b as int]);
            }
            b = b + 1;
        }
        cache.sync_all();
    }
}

} // verus!
