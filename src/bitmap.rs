use vstd::prelude::*;
use crate::block_cache::BlockCacheManager;
use crate::efs::EasyFileSystem;
use crate::layout::{BITS_PER_BLOCK, BLOCK_SZ};

verus! {

/// Bit `t` of byte `b`.
pub open spec fn bit_of(b: u8, t: int) -> bool {
    (b >> (t as u8)) & 1u8 == 1u8
}

/// Bit `i` of `bits`, where bits past the end read as clear.
pub open spec fn bit_or_clear(bits: Seq<bool>, i: int) -> bool {
    0 <= i < bits.len() && bits[i]
}

/// `block` stores bits `[first, first + 4096)` of `bits`, eight to a
/// byte, lowest bit first.
pub open spec fn stores_bits(block: Seq<u8>, bits: Seq<bool>, first: int) -> bool {
    &&& block.len() == BLOCK_SZ
    &&& forall|j: int| 0 <= j < BITS_PER_BLOCK ==> #[trigger] bit_of(block[j / 8], j % 8) == bit_or_clear(bits, first + j)
}

proof fn lemma_set_bit(b: u8, t: u8, s: u8)
    requires
        t < 8,
        s < 8,
    ensures
        ((b | (1u8 << t)) >> s) & 1u8 == if s == t { 1u8 } else { (b >> s) & 1u8 },
{
    assert(((b | (1u8 << t)) >> s) & 1u8 == if s == t { 1u8 } else { (b >> s) & 1u8 }) by (bit_vector)
        requires t < 8, s < 8;
}

proof fn lemma_zero_bits(s: u8)
    requires
        s < 8,
    ensures
        (0u8 >> s) & 1u8 == 0u8,
{
    assert((0u8 >> s) & 1u8 == 0u8) by (bit_vector);
}

/// The byte holding bits `[base, base + 8)` of `bits`.
fn pack_byte(bits: &Vec<bool>, base: usize) -> (r: u8)
    requires
        base + 8 <= usize::MAX,
    ensures
        forall|t: int| 0 <= t < 8 ==> #[trigger] bit_of(r, t) == bit_or_clear(bits@, base + t),
{
    let mut byte: u8 = 0;
    let mut t: u8 = 0;
    proof {
        assert forall|s: int| 0 <= s < 8 implies !#[trigger] bit_of(byte, s) by {
            lemma_zero_bits(s as u8);
        }
    }
    while t < 8
        invariant
            t <= 8,
            base + 8 <= usize::MAX,
            forall|s: int| 0 <= s < t ==> #[trigger] bit_of(byte, s) == bit_or_clear(bits@, base + s),
            forall|s: int| t <= s < 8 ==> !#[trigger] bit_of(byte, s),
        decreases 8 - t,
    {
        let i = base + t as usize;
        let set = i < bits.len() && bits[i];
        if set {
            let ghost before = byte;
            byte = byte | (1u8 << t);
            proof {
                assert forall|s: int| 0 <= s < 8 implies #[trigger] bit_of(byte, s)
                    == if s == t { true } else { bit_of(before, s) } by {
                    lemma_set_bit(before, t, s as u8);
                }
            }
        }
        t = t + 1;
    }
    byte
}

/// The block storing bits `[first, first + 4096)` of `bits`.
pub fn pack_block(bits: &Vec<bool>, first: usize) -> (r: Vec<u8>)
    requires
        first + BITS_PER_BLOCK <= usize::MAX,
    ensures
        stores_bits(r@, bits@, first as int),
{
    let mut r: Vec<u8> = Vec::new();
    let mut k: usize = 0;
    while k < BLOCK_SZ
        invariant
            k <= BLOCK_SZ,
            first + BITS_PER_BLOCK <= usize::MAX,
            r@.len() == k,
            forall|kk: int, t: int| 0 <= kk < k && 0 <= t < 8
                ==> #[trigger] bit_of(r@[kk], t) == bit_or_clear(bits@, first + kk * 8 + t),
        decreases BLOCK_SZ - k,
    {
        let b = pack_byte(bits, first + k * 8);
        r.push(b);
        k = k + 1;
    }
    proof {
        assert forall|j: int| 0 <= j < BITS_PER_BLOCK implies #[trigger] bit_of(r@[j / 8], j % 8)
            == bit_or_clear(bits@, first + j) by {
            assert(j == (j / 8) * 8 + j % 8 && 0 <= j % 8 < 8 && 0 <= j / 8 < 512) by (nonlinear_arith)
                requires 0 <= j < 4096;
        }
    }
    r
}

impl EasyFileSystem {
    /// Block id of the first inode-bitmap block on the device.
    pub open spec fn inode_bitmap_start(self) -> nat {
        1
    }

    /// Block id of the first data-bitmap block on the device.
    pub open spec fn data_bitmap_start(self) -> nat {
        1 + self.super_block.inode_bitmap_blocks as nat + self.super_block.inode_area_blocks as nat
    }

    /// Writes `count` blocks of `bits` from block `start` on, through `cache`.
    fn write_bits(bits: &Vec<bool>, start: usize, count: usize, cache: &mut BlockCacheManager)
        requires
            old(cache).wf(),
            start + count <= old(cache).view().len(),
            count * BITS_PER_BLOCK + BITS_PER_BLOCK <= usize::MAX,
        ensures
            final(cache).wf(),
            final(cache).view().len() == old(cache).view().len(),
            forall|k: int| 0 <= k < count
                ==> stores_bits(#[trigger] final(cache).view()[start + k], bits@, k * BITS_PER_BLOCK),
            forall|b: int| 0 <= b < old(cache).view().len() && !(start <= b < start + count)
                ==> #[trigger] final(cache).view()[b] == old(cache).view()[b],
    {
        let total = cache.device.num_blocks();
        let mut k: usize = 0;
        while k < count
            invariant
                cache.wf(),
                total == cache.view().len(),
                k <= count,
                start + count <= cache.view().len(),
                cache.view().len() == old(cache).view().len(),
                count * BITS_PER_BLOCK + BITS_PER_BLOCK <= usize::MAX,
                forall|kk: int| 0 <= kk < k
                    ==> stores_bits(#[trigger] cache.view()[start + kk], bits@, kk * BITS_PER_BLOCK),
                forall|b: int| 0 <= b < old(cache).view().len() && !(start <= b < start + k)
                    ==> #[trigger] cache.view()[b] == old(cache).view()[b],
            decreases count - k,
        {
            proof {
                assert(k * BITS_PER_BLOCK + BITS_PER_BLOCK <= count * BITS_PER_BLOCK + BITS_PER_BLOCK) by (nonlinear_arith)
                    requires k <= count;
            }
            let block = pack_block(bits, k * BITS_PER_BLOCK);
            let ghost before = cache.view();
            cache.modify(start + k, 0, block.as_slice());
            proof {
                assert(crate::data::overwrite(before[start + k], 0, block@) =~= block@);
            }
            k = k + 1;
        }
    }

    /// Writes both bitmaps to their regions of the device, through `cache`,
    /// and flushes the cache.
    pub fn sync_bitmaps(&self, cache: &mut BlockCacheManager)
        requires
            self.wf(),
            old(cache).wf(),
            self.data_bitmap_start() + self.super_block.data_bitmap_blocks <= old(cache).view().len(),
            self.super_block.inode_bitmap_blocks as nat * BITS_PER_BLOCK + BITS_PER_BLOCK <= usize::MAX,
            self.super_block.data_bitmap_blocks as nat * BITS_PER_BLOCK + BITS_PER_BLOCK <= usize::MAX,
        ensures
            final(cache).wf(),
            forall|k: int| 0 <= k < self.super_block.inode_bitmap_blocks ==> stores_bits(
                #[trigger] final(cache).device.view()[self.inode_bitmap_start() + k], self.inode_bitmap@, k * BITS_PER_BLOCK),
            forall|k: int| 0 <= k < self.super_block.data_bitmap_blocks ==> stores_bits(
                #[trigger] final(cache).device.view()[self.data_bitmap_start() + k], self.data_bitmap@, k * BITS_PER_BLOCK),
    {
        let ibb = self.super_block.inode_bitmap_blocks as usize;
        let iab = self.super_block.inode_area_blocks as usize;
        let dbb = self.super_block.data_bitmap_blocks as usize;
        let total = cache.device.num_blocks();
        assert(total == old(cache).view().len());
        Self::write_bits(&self.inode_bitmap, 1, ibb, cache);
        let ghost mid = cache.view();
        let dstart = 1 + ibb + iab;
        Self::write_bits(&self.data_bitmap, dstart, dbb, cache);
        proof {
            assert forall|k: int| 0 <= k < ibb implies stores_bits(
                #[trigger] cache.view()[1 + k], self.inode_bitmap@, k * BITS_PER_BLOCK) by {
                assert(mid[1 + k] == cache.view()[1 + k]);
            }
        }
        cache.sync_all();
    }
}

} // verus!
