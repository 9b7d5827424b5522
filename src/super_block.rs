use vstd::prelude::*;
use crate::block_cache::BlockCacheManager;
use crate::efs::{EasyFileSystem, SuperBlock};
use crate::layout::{BLOCK_SZ, EFS_MAGIC};

verus! {

/// The little-endian `u32` in bytes `[off, off + 4)` of `b`.
pub open spec fn le_u32(b: Seq<u8>, off: int) -> u32 {
    (b[off] as u32) | ((b[off + 1] as u32) << 8u32) | ((b[off + 2] as u32) << 16u32) | ((b[off + 3] as u32) << 24u32)
}

/// The four little-endian bytes of `x`.
pub open spec fn le_bytes(x: u32) -> Seq<u8> {
    seq![(x & 0xff) as u8, ((x >> 8u32) & 0xff) as u8, ((x >> 16u32) & 0xff) as u8, ((x >> 24u32) & 0xff) as u8]
}

pub proof fn lemma_le_round_trip(x: u32)
    ensures
        le_u32(le_bytes(x), 0) == x,
{
    let b = le_bytes(x);
    let (b0, b1, b2, b3) = (b[0], b[1], b[2], b[3]);
    assert((b0 as u32) | ((b1 as u32) << 8u32) | ((b2 as u32) << 16u32) | ((b3 as u32) << 24u32) == x) by (bit_vector)
        requires
            b0 == (x & 0xff) as u8,
            b1 == ((x >> 8u32) & 0xff) as u8,
            b2 == ((x >> 16u32) & 0xff) as u8,
            b3 == ((x >> 24u32) & 0xff) as u8;
}

fn push_le(v: &mut Vec<u8>, x: u32)
    ensures
        final(v)@ == old(v)@ + le_bytes(x),
{
    v.push((x & 0xff) as u8);
    v.push(((x >> 8) & 0xff) as u8);
    v.push(((x >> 16) & 0xff) as u8);
    v.push(((x >> 24) & 0xff) as u8);
    assert(v@ =~= old(v)@ + le_bytes(x));
}

fn read_le(b: &[u8], off: usize) -> (r: u32)
    requires
        off + 4 <= b@.len(),
    ensures
        r == le_u32(b@, off as int),
{
    (b[off] as u32) | ((b[off + 1] as u32) << 8) | ((b[off + 2] as u32) << 16) | ((b[off + 3] as u32) << 24)
}

/// The superblock's fields in the order they are stored.
pub open spec fn fields(sb: SuperBlock) -> Seq<u32> {
    seq![sb.magic, sb.total_blocks, sb.inode_bitmap_blocks, sb.inode_area_blocks, sb.data_bitmap_blocks, sb.data_area_blocks]
}

/// The block that stores `sb`: its six fields, four bytes each, then zeros.
pub open spec fn encoding(sb: SuperBlock) -> Seq<u8> {
    le_bytes(sb.magic) + le_bytes(sb.total_blocks) + le_bytes(sb.inode_bitmap_blocks)
        + le_bytes(sb.inode_area_blocks) + le_bytes(sb.data_bitmap_blocks) + le_bytes(sb.data_area_blocks)
        + Seq::new((BLOCK_SZ - 24) as nat, |j: int| 0u8)
}

/// The superblock that block `b` stores, if its magic value is right.
pub open spec fn decoding(b: Seq<u8>) -> Option<SuperBlock> {
    if le_u32(b, 0) == EFS_MAGIC {
        Some(SuperBlock {
            magic: le_u32(b, 0),
            total_blocks: le_u32(b, 4),
            inode_bitmap_blocks: le_u32(b, 8),
            inode_area_blocks: le_u32(b, 12),
            data_bitmap_blocks: le_u32(b, 16),
            data_area_blocks: le_u32(b, 20),
        })
    } else {
        None
    }
}

impl SuperBlock {
    /// The block that stores this superblock.
    pub fn encode(&self) -> (r: Vec<u8>)
        ensures
            r@ == encoding(*self),
            r@.len() == BLOCK_SZ,
    {
        let mut v: Vec<u8> = Vec::new();
        push_le(&mut v, self.magic);
        push_le(&mut v, self.total_blocks);
        push_le(&mut v, self.inode_bitmap_blocks);
        push_le(&mut v, self.inode_area_blocks);
        push_le(&mut v, self.data_bitmap_blocks);
        push_le(&mut v, self.data_area_blocks);
        let ghost head = v@;
        while v.len() < BLOCK_SZ
            invariant
                24 <= v@.len() <= BLOCK_SZ,
                v@.subrange(0, 24) == head,
                head.len() == 24,
                forall|j: int| 24 <= j < v@.len() ==> v@[j] == 0u8,
            decreases BLOCK_SZ - v@.len(),
        {
            v.push(0u8);
            assert(v@.subrange(0, 24) =~= head);
        }
        assert(v@ =~= encoding(*self));
        v
    }

    /// The superblock stored in `b`; `None` when its magic value is wrong.
    pub fn decode(b: &[u8]) -> (r: Option<SuperBlock>)
        requires
            b@.len() == BLOCK_SZ,
        ensures
            r == decoding(b@),
    {
        let magic = read_le(b, 0);
        if magic != EFS_MAGIC {
            return None;
        }
        Some(SuperBlock {
            magic,
            total_blocks: read_le(b, 4),
            inode_bitmap_blocks: read_le(b, 8),
            inode_area_blocks: read_le(b, 12),
            data_bitmap_blocks: read_le(b, 16),
            data_area_blocks: read_le(b, 20),
        })
    }
}

/// A superblock with the right magic value reads back as itself.
pub proof fn lemma_super_block_round_trip(sb: SuperBlock)
    requires
        sb.magic == EFS_MAGIC,
    ensures
        decoding(encoding(sb)) == Some(sb),
{
    let e = encoding(sb);
    let fs = fields(sb);
    assert forall|f: int| 0 <= f < 6 implies #[trigger] le_u32(e, 4 * f) == fs[f] by {
        lemma_le_round_trip(fs[f]);
        let b = le_bytes(fs[f]);
        assert(e[4 * f] == b[0]);
        assert(e[4 * f + 1] == b[1]);
        assert(e[4 * f + 2] == b[2]);
        assert(e[4 * f + 3] == b[3]);
    }
    assert(le_u32(e, 4 * 0int) == fs[0int]);
    assert(le_u32(e, 4 * 1int) == fs[1int]);
    assert(le_u32(e, 4 * 2int) == fs[2int]);
    assert(le_u32(e, 4 * 3int) == fs[3int]);
    assert(le_u32(e, 4 * 4int) == fs[4int]);
    assert(le_u32(e, 4 * 5int) == fs[5int]);
}

impl EasyFileSystem {
    /// Stores the superblock in block 0 of the device, through `cache`, and
    /// flushes the cache.
    pub fn write_super_block(&self, cache: &mut BlockCacheManager)
        requires
            old(cache).wf(),
            old(cache).view().len() >= 1,
        ensures
            final(cache).wf(),
            final(cache).device.view()[0] == encoding(self.super_block),
            final(cache).view() == old(cache).view().update(0, encoding(self.super_block)),
    {
        let bytes = self.super_block.encode();
        cache.modify(0, 0, bytes.as_slice());
        proof {
            assert(crate::data::overwrite(old(cache).view()[0], 0, bytes@) =~= encoding(self.super_block));
        }
        cache.sync_all();
    }

    /// Reads the superblock from block 0, through `cache`; `None` when the
    /// block does not hold a superblock.
    pub fn read_super_block(cache: &mut BlockCacheManager) -> (r: Option<SuperBlock>)
        requires
            old(cache).wf(),
            old(cache).view().len() >= 1,
        ensures
            final(cache).wf(),
            final(cache).view() == old(cache).view(),
            r == decoding(old(cache).view()[0]),
    {
        let mut buf = crate::efs::new_zero_block();
        cache.read(0, 0, buf.as_mut_slice());
        proof {
            assert(buf@ =~= old(cache).view()[0]);
        }
        SuperBlock::decode(buf.as_slice())
    }
}

} // verus!
