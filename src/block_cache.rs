use vstd::prelude::*;
use crate::layout::BLOCK_SZ;

verus! {

/// A device of fixed-size blocks, addressed from 0, held in memory.
pub struct BlockDevice {
    pub blocks: Vec<Vec<u8>>,
}

fn copy_bytes(src: &Vec<u8>) -> (r: Vec<u8>)
    ensures
        r@ == src@,
{
    let mut r: Vec<u8> = Vec::new();
    let mut j: usize = 0;
    while j < src.len()
        invariant
            j <= src@.len(),
            r@ == src@.subrange(0, j as int),
        decreases src@.len() - j,
    {
        r.push(src[j]);
        proof {
            assert(src@.subrange(0, j as int + 1) =~= src@.subrange(0, j as int).push(src@[j as int]));
        }
        j = j + 1;
    }
    assert(src@.subrange(0, src@.len() as int) =~= src@);
    r
}

impl BlockDevice {
    pub open spec fn wf(self) -> bool {
        forall|b: int| 0 <= b < self.blocks@.len() ==> (#[trigger] self.blocks@[b])@.len() == BLOCK_SZ
    }

    /// The bytes of every block, in block order.
    pub open spec fn view(self) -> Seq<Seq<u8>> {
        self.blocks@.map_values(|blk: Vec<u8>| blk@)
    }

    /// A device of `count` zero-filled blocks.
    pub fn new(count: usize) -> (r: BlockDevice)
        ensures
            r.wf(),
            r.view().len() == count,
            forall|b: int| 0 <= b < count ==> #[trigger] r.view()[b] == crate::efs::zero_block(),
    {
        let mut blocks: Vec<Vec<u8>> = Vec::new();
        let mut i: usize = 0;
        while i < count
            invariant
                i <= count,
                blocks@.len() == i,
                forall|b: int| 0 <= b < i ==> (#[trigger] blocks@[b])@ == crate::efs::zero_block(),
            decreases count - i,
        {
            blocks.push(crate::efs::new_zero_block());
            i = i + 1;
        }
        BlockDevice { blocks }
    }

    pub fn num_blocks(&self) -> (r: usize)
        ensures
            r == self.view().len(),
    {
        self.blocks.len()
    }

    /// The bytes of block `id`.
    pub fn read_block(&self, id: usize) -> (r: Vec<u8>)
        requires
            id < self.view().len(),
        ensures
            r@ == self.view()[id as int],
    {
        copy_bytes(&self.blocks[id])
    }

    /// Replaces the bytes of block `id` by `buf`.
    pub fn write_block(&mut self, id: usize, buf: Vec<u8>)
        requires
            old(self).wf(),
            id < old(self).view().len(),
            buf@.len() == BLOCK_SZ,
        ensures
            final(self).wf(),
            final(self).view() == old(self).view().update(id as int, buf@),
    {
        let ghost b = buf@;
        self.blocks.set(id, buf);
        assert(self.view() =~= old(self).view().update(id as int, b));
    }
}

/// One cached block: its id, its bytes, whether they differ from the
/// device's, and when it was last touched.
pub struct BlockCache {
    pub block_id: usize,
    pub cache: Vec<u8>,
    pub modified: bool,
    pub last_used: u64,
}

/// A bounded write-back cache over a block device. `contents` is what
/// the blocks hold as the cache's users see them: the cached copy where
/// there is one, the device's bytes elsewhere.
pub struct BlockCacheManager {
    pub device: BlockDevice,
    pub queue: Vec<BlockCache>,
    pub capacity: usize,
    pub clock: u64,
    pub contents: Ghost<Seq<Seq<u8>>>,
}

impl BlockCacheManager {
    pub open spec fn view(self) -> Seq<Seq<u8>> {
        self.contents@
    }

    pub open spec fn cached(self, b: int) -> bool {
        exists|k: int| 0 <= k < self.queue@.len() && self.queue@[k].block_id == b
    }

    pub open spec fn wf(self) -> bool {
        &&& self.device.wf()
        &&& self.capacity >= 1
        &&& self.queue@.len() <= self.capacity
        &&& self.contents@.len() == self.device.view().len()
        &&& forall|k: int| 0 <= k < self.queue@.len() ==> {
            &&& (#[trigger] self.queue@[k]).block_id < self.device.view().len()
            &&& self.queue@[k].cache@.len() == BLOCK_SZ
            &&& self.contents@[self.queue@[k].block_id as int] == self.queue@[k].cache@
            &&& !self.queue@[k].modified ==> self.queue@[k].cache@ == self.device.view()[self.queue@[k].block_id as int]
        }
        &&& forall|k1: int, k2: int| 0 <= k1 < self.queue@.len() && 0 <= k2 < self.queue@.len() && k1 != k2
            ==> #[trigger] self.queue@[k1].block_id != #[trigger] self.queue@[k2].block_id
        &&& forall|b: int| 0 <= b < self.contents@.len() && !self.cached(b)
            ==> #[trigger] self.contents@[b] == self.device.view()[b]
    }

    /// An empty cache of `capacity` entries over `device`.
    pub fn new(device: BlockDevice, capacity: usize) -> (r: BlockCacheManager)
        requires
            device.wf(),
            capacity >= 1,
        ensures
            r.wf(),
            r.view() == device.view(),
            r.device == device,
            r.capacity == capacity,
    {
        BlockCacheManager { device, queue: Vec::new(), capacity, clock: 0, contents: Ghost(device.view()) }
    }

    fn touch(&mut self, k: usize)
        requires
            old(self).wf(),
            k < old(self).queue@.len(),
        ensures
            final(self).wf(),
            final(self).view() == old(self).view(),
            final(self).device == old(self).device,
            final(self).capacity == old(self).capacity,
            final(self).queue@.len() == old(self).queue@.len(),
            forall|j: int| 0 <= j < final(self).queue@.len() ==> #[trigger] final(self).queue@[j].block_id == old(self).queue@[j].block_id,
    {
        let now = self.clock;
        self.queue[k].last_used = now;
        if self.clock < u64::MAX {
            self.clock = self.clock + 1;
        }
        proof {
            let s = *self;
            let o = *old(self);
            assert forall|j: int| 0 <= j < s.queue@.len() implies #[trigger] s.queue@[j].block_id == o.queue@[j].block_id
                && s.queue@[j].cache@ == o.queue@[j].cache@ && s.queue@[j].modified == o.queue@[j].modified by {
            }
            assert forall|b: int| 0 <= b < s.contents@.len() && !s.cached(b) implies #[trigger] s.contents@[b] == s.device.view()[b] by {
                if o.cached(b) {
                    let j = choose|j: int| 0 <= j < o.queue@.len() && o.queue@[j].block_id == b;
                    assert(s.queue@[j].block_id == b);
                }
            }
        }
    }

    /// The slot of the least recently touched entry.
    fn victim(&self) -> (k: usize)
        requires
            self.queue@.len() > 0,
        ensures
            k < self.queue@.len(),
            forall|j: int| 0 <= j < self.queue@.len() ==> self.queue@[k as int].last_used <= #[trigger] self.queue@[j].last_used,
    {
        let mut best: usize = 0;
        let mut j: usize = 1;
        while j < self.queue.len()
            invariant
                best < self.queue@.len(),
                1 <= j <= self.queue@.len(),
                forall|i: int| 0 <= i < j ==> self.queue@[best as int].last_used <= #[trigger] self.queue@[i].last_used,
            decreases self.queue@.len() - j,
        {
            if self.queue[j].last_used < self.queue[best].last_used {
                best = j;
            }
            j = j + 1;
        }
        best
    }

    /// The slot that caches block `id`, loading the block on a miss. When
    /// the cache is full, the least recently touched entry leaves first,
    /// written back if it was modified.
    pub fn get_block_cache(&mut self, id: usize) -> (k: usize)
        requires
            old(self).wf(),
            id < old(self).view().len(),
        ensures
            final(self).wf(),
            final(self).view() == old(self).view(),
            final(self).capacity == old(self).capacity,
            k < final(self).queue@.len(),
            final(self).queue@[k as int].block_id == id,
            ({
                let full_miss = !old(self).cached(id as int) && old(self).queue@.len() == old(self).capacity;
                &&& full_miss ==> {
                    &&& k < old(self).queue@.len()
                    &&& forall|j: int| 0 <= j < old(self).queue@.len()
                        ==> old(self).queue@[k as int].last_used <= #[trigger] old(self).queue@[j].last_used
                    &&& forall|j: int| 0 <= j < old(self).queue@.len() && j != k
                        ==> #[trigger] final(self).queue@[j] == old(self).queue@[j]
                }
                &&& final(self).device.view() == if full_miss && old(self).queue@[k as int].modified {
                    old(self).device.view().update(old(self).queue@[k as int].block_id as int, old(self).queue@[k as int].cache@)
                } else {
                    old(self).device.view()
                }
            }),
    {
        let mut i: usize = 0;
        while i < self.queue.len()
            invariant
                *self == *old(self),
                old(self).wf(),
                i <= self.queue@.len(),
                forall|j: int| 0 <= j < i ==> (#[trigger] self.queue@[j]).block_id != id,
            decreases self.queue@.len() - i,
        {
            if self.queue[i].block_id == id {
                assert(old(self).cached(id as int)) by {
                    assert(old(self).queue@[i as int].block_id == id);
                }
                self.touch(i);
                return i;
            }
            i = i + 1;
        }
        assert(!self.cached(id as int));
        let data = self.device.read_block(id);
        let entry = BlockCache { block_id: id, cache: data, modified: false, last_used: self.clock };
        if self.clock < u64::MAX {
            self.clock = self.clock + 1;
        }
        if self.queue.len() < self.capacity {
            self.queue.push(entry);
            let k = self.queue.len() - 1;
            proof {
                let s = *self;
                let o = *old(self);
                assert forall|k1: int, k2: int| 0 <= k1 < s.queue@.len() && 0 <= k2 < s.queue@.len() && k1 != k2
                    implies #[trigger] s.queue@[k1].block_id != #[trigger] s.queue@[k2].block_id by {
                }
                assert forall|b: int| 0 <= b < s.contents@.len() && !s.cached(b) implies #[trigger] s.contents@[b] == s.device.view()[b] by {
                    if o.cached(b) {
                        let j = choose|j: int| 0 <= j < o.queue@.len() && o.queue@[j].block_id == b;
                        assert(s.queue@[j].block_id == b);
                    }
                }
            }
            return k;
        }
        let v = self.victim();
        let ghost before = *self;
        if self.queue[v].modified {
            let bytes = copy_bytes(&self.queue[v].cache);
            let vid = self.queue[v].block_id;
            self.device.write_block(vid, bytes);
        }
        let ghost mid = *self;
        proof {
            let o = before;
            assert forall|k: int| 0 <= k < mid.queue@.len() && k != v implies
                (#[trigger] mid.queue@[k]).cache@ == mid.device.view()[mid.queue@[k].block_id as int]
                || mid.queue@[k].modified by {
                assert(mid.queue@[k].block_id != mid.queue@[v as int].block_id);
            }
        }
        self.queue.set(v, entry);
        proof {
            let s = *self;
            let o = before;
            let vb = o.queue@[v as int].block_id as int;
            assert(s.device.view()[vb] == o.contents@[vb]);
            assert forall|k: int| 0 <= k < s.queue@.len() implies {
                &&& (#[trigger] s.queue@[k]).block_id < s.device.view().len()
                &&& s.queue@[k].cache@.len() == BLOCK_SZ
                &&& s.contents@[s.queue@[k].block_id as int] == s.queue@[k].cache@
                &&& !s.queue@[k].modified ==> s.queue@[k].cache@ == s.device.view()[s.queue@[k].block_id as int]
            } by {
                if k != v {
                    assert(s.queue@[k] == o.queue@[k]);
                    assert(o.queue@[k].block_id != vb);
                }
            }
            assert forall|k1: int, k2: int| 0 <= k1 < s.queue@.len() && 0 <= k2 < s.queue@.len() && k1 != k2
                implies #[trigger] s.queue@[k1].block_id != #[trigger] s.queue@[k2].block_id by {
                if k1 == v {
                    assert(s.queue@[k2] == o.queue@[k2]);
                } else if k2 == v {
                    assert(s.queue@[k1] == o.queue@[k1]);
                } else {
                    assert(s.queue@[k1] == o.queue@[k1]);
                    assert(s.queue@[k2] == o.queue@[k2]);
                }
            }
            assert forall|b: int| 0 <= b < s.contents@.len() && !s.cached(b) implies #[trigger] s.contents@[b] == s.device.view()[b] by {
                if b == vb {
                } else if o.cached(b) {
                    let j = choose|j: int| 0 <= j < o.queue@.len() && o.queue@[j].block_id == b;
                    assert(j != v);
                    assert(s.queue@[j].block_id == b);
                } else {
                    assert(o.contents@[b] == o.device.view()[b]);
                }
            }
        }
        v
    }

    /// Copies bytes `[offset, offset + buf.len())` of block `id` into `buf`.
    pub fn read(&mut self, id: usize, offset: usize, buf: &mut [u8])
        requires
            old(self).wf(),
            id < old(self).view().len(),
            offset + old(buf)@.len() <= BLOCK_SZ,
        ensures
            final(self).wf(),
            final(self).view() == old(self).view(),
            final(buf)@ == old(self).view()[id as int].subrange(offset as int, offset + old(buf)@.len()),
    {
        let k = self.get_block_cache(id);
        let n = buf.len();
        let mut i: usize = 0;
        while i < n
            invariant
                self.wf(),
                k < self.queue@.len(),
                self.queue@[k as int].block_id == id,
                offset + n <= BLOCK_SZ,
                n == buf@.len(),
                i <= n,
                forall|j: int| 0 <= j < i ==> buf@[j] == #[trigger] self.view()[id as int][offset + j],
            decreases n - i,
        {
            assert(self.queue@[k as int].cache@ == self.view()[id as int]);
            buf[i] = self.queue[k].cache[offset + i];
            i = i + 1;
        }
        assert forall|j: int| 0 <= j < n implies buf@[j] == self.view()[id as int].subrange(offset as int, offset + n)[j] by {
            assert(buf@[j] == self.view()[id as int][offset + j]);
        }
        assert(buf@ =~= self.view()[id as int].subrange(offset as int, offset + n));
    }

    /// Writes `data` over block `id` from `offset` on, in the cache only.
    pub fn modify(&mut self, id: usize, offset: usize, data: &[u8])
        requires
            old(self).wf(),
            id < old(self).view().len(),
            offset + data@.len() <= BLOCK_SZ,
        ensures
            final(self).wf(),
            final(self).view() == old(self).view().update(id as int,
                crate::data::overwrite(old(self).view()[id as int], offset as int, data@)),
    {
        let k = self.get_block_cache(id);
        let ghost g = *self;
        let ghost target = crate::data::overwrite(g.contents@[id as int], offset as int, data@);
        self.queue[k].modified = true;
        let n = data.len();
        let mut i: usize = 0;
        while i < n
            invariant
                g.wf(),
                k < g.queue@.len(),
                g.queue@[k as int].block_id == id,
                self.device == g.device,
                self.capacity == g.capacity,
                self.contents == g.contents,
                self.queue@.len() == g.queue@.len(),
                forall|j: int| 0 <= j < g.queue@.len() && j != k ==> #[trigger] self.queue@[j] == g.queue@[j],
                self.queue@[k as int].block_id == id,
                self.queue@[k as int].modified,
                self.queue@[k as int].cache@.len() == BLOCK_SZ,
                offset + n <= BLOCK_SZ,
                n == data@.len(),
                i <= n,
                target == crate::data::overwrite(g.contents@[id as int], offset as int, data@),
                forall|j: int| 0 <= j < BLOCK_SZ ==> #[trigger] self.queue@[k as int].cache@[j]
                    == if offset <= j < offset + i { data@[j - offset] } else { g.contents@[id as int][j] },
            decreases n - i,
        {
            self.queue[k].cache.set(offset + i, data[i]);
            i = i + 1;
        }
        self.contents = Ghost(self.contents@.update(id as int, target));
        proof {
            let s = *self;
            assert(s.queue@[k as int].cache@ =~= target);
            assert forall|j: int| 0 <= j < s.queue@.len() implies {
                &&& (#[trigger] s.queue@[j]).block_id < s.device.view().len()
                &&& s.queue@[j].cache@.len() == BLOCK_SZ
                &&& s.contents@[s.queue@[j].block_id as int] == s.queue@[j].cache@
                &&& !s.queue@[j].modified ==> s.queue@[j].cache@ == s.device.view()[s.queue@[j].block_id as int]
            } by {
                if j != k {
                    assert(s.queue@[j] == g.queue@[j]);
                    assert(g.queue@[j].block_id != g.queue@[k as int].block_id);
                }
            }
            assert forall|k1: int, k2: int| 0 <= k1 < s.queue@.len() && 0 <= k2 < s.queue@.len() && k1 != k2
                implies #[trigger] s.queue@[k1].block_id != #[trigger] s.queue@[k2].block_id by {
                assert(s.queue@[k1].block_id == g.queue@[k1].block_id);
                assert(s.queue@[k2].block_id == g.queue@[k2].block_id);
            }
            assert forall|b: int| 0 <= b < s.contents@.len() && !s.cached(b) implies #[trigger] s.contents@[b] == s.device.view()[b] by {
                if b == id {
                    assert(s.queue@[k as int].block_id == b);
                } else if g.cached(b) {
                    let j = choose|j: int| 0 <= j < g.queue@.len() && g.queue@[j].block_id == b;
                    assert(s.queue@[j].block_id == b);
                }
            }
        }
    }

    /// Writes every modified entry back to the device. Afterwards the device
    /// holds what the cache's users see.
    pub fn sync_all(&mut self)
        requires
            old(self).wf(),
        ensures
            final(self).wf(),
            final(self).view() == old(self).view(),
            final(self).device.view() == old(self).view(),
            forall|k: int| 0 <= k < final(self).queue@.len() ==> !(#[trigger] final(self).queue@[k]).modified,
    {
        let mut i: usize = 0;
        while i < self.queue.len()
            invariant
                self.wf(),
                self.view() == old(self).view(),
                i <= self.queue@.len(),
                forall|k: int| 0 <= k < i ==> !(#[trigger] self.queue@[k]).modified,
            decreases self.queue@.len() - i,
        {
            if self.queue[i].modified {
                let ghost g = *self;
                let bytes = copy_bytes(&self.queue[i].cache);
                let bid = self.queue[i].block_id;
                self.device.write_block(bid, bytes);
                self.queue[i].modified = false;
                proof {
                    let s = *self;
                    assert forall|j: int| 0 <= j < s.queue@.len() implies {
                        &&& (#[trigger] s.queue@[j]).block_id < s.device.view().len()
                        &&& s.queue@[j].cache@.len() == BLOCK_SZ
                        &&& s.contents@[s.queue@[j].block_id as int] == s.queue@[j].cache@
                        &&& !s.queue@[j].modified ==> s.queue@[j].cache@ == s.device.view()[s.queue@[j].block_id as int]
                    } by {
                        if j != i {
                            assert(s.queue@[j] == g.queue@[j]);
                            assert(g.queue@[j].block_id != g.queue@[i as int].block_id);
                        }
                    }
                    assert forall|k1: int, k2: int| 0 <= k1 < s.queue@.len() && 0 <= k2 < s.queue@.len() && k1 != k2
                        implies #[trigger] s.queue@[k1].block_id != #[trigger] s.queue@[k2].block_id by {
                        assert(s.queue@[k1].block_id == g.queue@[k1].block_id);
                        assert(s.queue@[k2].block_id == g.queue@[k2].block_id);
                    }
                    assert forall|b: int| 0 <= b < s.contents@.len() && !s.cached(b) implies #[trigger] s.contents@[b] == s.device.view()[b] by {
                        if g.cached(b) {
                            let j = choose|j: int| 0 <= j < g.queue@.len() && g.queue@[j].block_id == b;
                            assert(s.queue@[j].block_id == b);
                        }
                    }
                }
            }
            i = i + 1;
        }
        proof {
            let s = *self;
            assert forall|b: int| 0 <= b < s.contents@.len() implies #[trigger] s.device.view()[b] == s.contents@[b] by {
                if s.cached(b) {
                    let j = choose|j: int| 0 <= j < s.queue@.len() && s.queue@[j].block_id == b;
                    assert(!s.queue@[j].modified);
                }
            }
            assert(s.device.view() =~= s.contents@);
        }
    }
}

} // verus!
