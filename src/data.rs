use vstd::prelude::*;
use crate::efs::{zero_block, EasyFileSystem};
use crate::layout::{blocks_for, DiskInode, DiskInodeType, BLOCK_SZ};

verus! {

/// `s` followed by zero bytes up to length `n`.
pub open spec fn zero_extend(s: Seq<u8>, n: nat) -> Seq<u8> {
    Seq::new(n, |j: int| if j < s.len() { s[j] } else { 0u8 })
}

/// `s` with `buf` written over it from `offset` on.
pub open spec fn overwrite(s: Seq<u8>, offset: int, buf: Seq<u8>) -> Seq<u8> {
    Seq::new(s.len(), |j: int| if offset <= j < offset + buf.len() { buf[j - offset] } else { s[j] })
}

/// Number of bytes that a read of `len` bytes from `offset` gets out of
/// a file of `size` bytes.
pub open spec fn read_len(size: nat, offset: nat, len: nat) -> nat {
    if offset >= size {
        0
    } else if len <= size - offset {
        len
    } else {
        (size - offset) as nat
    }
}

pub proof fn lemma_split_pos(p: int)
    requires
        p >= 0,
    ensures
        p == (p / 512) * 512 + p % 512,
        0 <= p % 512 < 512,
        p / 512 >= 0,
{
    assert(p == (p / 512) * 512 + p % 512 && 0 <= p % 512 < 512 && p / 512 >= 0) by (nonlinear_arith)
        requires p >= 0;
}

pub proof fn lemma_join_pos(k: int, j: int)
    requires
        k >= 0,
        0 <= j < 512,
    ensures
        (k * 512 + j) / 512 == k,
        (k * 512 + j) % 512 == j,
{
    assert((k * 512 + j) / 512 == k && (k * 512 + j) % 512 == j) by (nonlinear_arith)
        requires k >= 0, 0 <= j < 512;
}

pub proof fn lemma_block_index(p: int, size: nat)
    requires
        0 <= p < size,
    ensures
        p / 512 < blocks_for(size),
{
    assert(p / 512 < (size + 511) / 512) by (nonlinear_arith)
        requires 0 <= p < size;
}

impl EasyFileSystem {
    /// Copies bytes of file `ino` from `offset` on into `buf`, as many as
    /// fit in `buf` and the file, and returns how many.
    pub fn file_read_at(&self, ino: u32, offset: usize, buf: &mut [u8]) -> (n: usize)
        requires
            self.wf(),
            self.is_file(ino as int),
        ensures
            n == read_len(self.inode(ino as int).size as nat, offset as nat, old(buf)@.len()),
            final(buf)@.len() == old(buf)@.len(),
            forall|k: int| 0 <= k < n ==> final(buf)@[k] == #[trigger] self.content(ino as int)[offset + k],
            final(buf)@.subrange(n as int, old(buf)@.len() as int)
                == old(buf)@.subrange(n as int, old(buf)@.len() as int),
    {
        let size = self.inodes[ino as usize].size as usize;
        if offset >= size {
            return 0;
        }
        let n: usize = if buf.len() <= size - offset { buf.len() } else { size - offset };
        let mut i: usize = 0;
        assert(self.inode_used(ino as int));
        assert(self.inode_wf(ino as int));
        while i < n
            invariant
                self.wf(),
                self.is_file(ino as int),
                size == self.inode(ino as int).size,
                offset < size,
                n <= size - offset,
                n <= old(buf)@.len(),
                i <= n,
                buf@.len() == old(buf)@.len(),
                forall|k: int| 0 <= k < i ==> buf@[k] == #[trigger] self.content(ino as int)[offset + k],
                forall|k: int| n <= k < buf@.len() ==> buf@[k] == old(buf)@[k],
            decreases n - i,
        {
            let pos = offset + i;
            proof {
                lemma_split_pos(pos as int);
                lemma_block_index(pos as int, size as nat);
                assert(self.inode_used(ino as int));
                assert(self.inode_wf(ino as int));
            }
            let b = self.inodes[ino as usize].blocks[pos / BLOCK_SZ];
            proof {
                assert(self.data_used(b as int));
            }
            let byte = self.data_area[b as usize][pos % BLOCK_SZ];
            buf[i] = byte;
            assert(byte == self.content(ino as int)[offset + i]);
            i = i + 1;
        }
        assert(buf@.subrange(n as int, old(buf)@.len() as int) =~= old(buf)@.subrange(n as int, old(buf)@.len() as int));
        n
    }

    /// Everything but the bytes and the size of file `ino` is as in `old`.
    pub open spec fn only_file_changed(self, old: Self, ino: int) -> bool {
        &&& self.inode_bitmap@ == old.inode_bitmap@
        &&& self.super_block == old.super_block
        &&& self.inodes@.len() == old.inodes@.len()
        &&& forall|i: int| 0 <= i < self.inodes@.len() && i != ino
            ==> #[trigger] self.inodes@[i] == old.inodes@[i]
        &&& forall|i: int| #[trigger] old.is_file(i) && i != ino ==> self.content(i) == old.content(i)
        &&& self.inodes@[ino].type_ == old.inodes@[ino].type_
        &&& self.inodes@[ino].hard_linked == old.inodes@[ino].hard_linked
        &&& self.inodes@[ino].entries@ == old.inodes@[ino].entries@
    }

    /// A file's size fits in the blocks it holds.
    pub open spec fn size_le_blocks(self, ino: int) -> bool {
        self.inodes@[ino].size as int <= self.inodes@[ino].blocks@.len() * 512
    }

    /// Does block `b` belong to file `ino`?
    pub open spec fn owns(self, ino: int, b: int) -> bool {
        exists|k: int| 0 <= k < self.inodes@[ino].blocks@.len() && self.inodes@[ino].blocks@[k] == b
    }

    /// A block that file `ino` does not own holds no byte of any other file
    /// whose blocks are unchanged.
    proof fn lemma_other_content(self, old: Self, ino: int, i: int)
        requires
            old.wf(),
            old.inode_used(ino),
            old.is_file(i),
            i != ino,
            self.inodes@[i] == old.inodes@[i],
            self.data_area@.len() == old.data_area@.len(),
            forall|b: int| 0 <= b < old.data_area@.len() && old.data_used(b) && !old.owns(ino, b)
                ==> #[trigger] self.data_area@[b] == old.data_area@[b],
        ensures
            self.content(i) == old.content(i),
    {
        assert(old.inode_wf(i));
        let d = old.inodes@[i];
        assert forall|j: int| 0 <= j < d.size implies #[trigger] self.content(i)[j] == old.content(i)[j] by {
            lemma_split_pos(j);
            lemma_block_index(j, d.size as nat);
            let b = d.blocks@[j / 512] as int;
            assert(old.data_used(b));
            if old.owns(ino, b) {
                let k = choose|k: int| 0 <= k < old.inodes@[ino].blocks@.len() && old.inodes@[ino].blocks@[k] == b;
                assert(old.inodes@[ino].blocks@[k] == old.inodes@[i].blocks@[j / 512]);
            }
        }
        assert(self.content(i) =~= old.content(i));
    }

    /// Writes `buf` over file `ino` from `offset` on. The file must already
    /// be long enough: nothing is allocated here.
    pub fn file_write_at(&mut self, ino: u32, offset: usize, buf: &[u8]) -> (n: usize)
        requires
            old(self).wf(),
            old(self).is_file(ino as int),
            offset + buf@.len() <= old(self).inode(ino as int).size,
        ensures
            final(self).wf(),
            n == buf@.len(),
            final(self).only_file_changed(*old(self), ino as int),
            final(self).inodes@ == old(self).inodes@,
            final(self).data_bitmap@ == old(self).data_bitmap@,
            final(self).content(ino as int) == overwrite(old(self).content(ino as int), offset as int, buf@),
    {
        let ghost ob = old(self).inodes@[ino as int].blocks@;
        let ghost size = old(self).inodes@[ino as int].size;
        assert(old(self).inode_used(ino as int));
        assert(old(self).inode_wf(ino as int));
        let n = buf.len();
        let mut i: usize = 0;
        while i < n
            invariant
                old(self).wf(),
                old(self).is_file(ino as int),
                old(self).inode_wf(ino as int),
                ob == old(self).inodes@[ino as int].blocks@,
                size == old(self).inodes@[ino as int].size,
                offset + n <= size,
                n == buf@.len(),
                i <= n,
                self.inodes@ == old(self).inodes@,
                self.inode_bitmap@ == old(self).inode_bitmap@,
                self.data_bitmap@ == old(self).data_bitmap@,
                self.super_block == old(self).super_block,
                self.data_area@.len() == old(self).data_area@.len(),
                forall|b: int| 0 <= b < old(self).data_area@.len() && !old(self).owns(ino as int, b)
                    ==> #[trigger] self.data_area@[b] == old(self).data_area@[b],
                forall|b: int| 0 <= b < old(self).data_area@.len() ==> (#[trigger] self.data_area@[b])@.len() == BLOCK_SZ,
                forall|k: int, j: int| 0 <= k < ob.len() && 0 <= j < 512
                    ==> #[trigger] self.data_area@[ob[k] as int]@[j]
                        == if offset <= k * 512 + j < offset + i {
                            buf@[k * 512 + j - offset]
                        } else {
                            old(self).data_area@[ob[k] as int]@[j]
                        },
            decreases n - i,
        {
            let pos = offset + i;
            proof {
                lemma_split_pos(pos as int);
                lemma_block_index(pos as int, size as nat);
            }
            let b = self.inodes[ino as usize].blocks[pos / BLOCK_SZ];
            proof {
                assert(old(self).data_used(b as int));
            }
            let ghost prev = self.data_area@;
            self.data_area[b as usize].set(pos % BLOCK_SZ, buf[i]);
            proof {
                let k0 = (pos / 512) as int;
                let j0 = (pos % 512) as int;
                assert forall|b2: int| 0 <= b2 < old(self).data_area@.len() && !old(self).owns(ino as int, b2)
                    implies #[trigger] self.data_area@[b2] == old(self).data_area@[b2] by {
                    if b2 == b {
                        assert(old(self).owns(ino as int, b2));
                    }
                    assert(self.data_area@[b2] == prev[b2]);
                }
                assert forall|k: int, j: int| 0 <= k < ob.len() && 0 <= j < 512
                    implies #[trigger] self.data_area@[ob[k] as int]@[j]
                        == if offset <= k * 512 + j < offset + i + 1 {
                            buf@[k * 512 + j - offset]
                        } else {
                            old(self).data_area@[ob[k] as int]@[j]
                        } by {
                    lemma_join_pos(k, j);
                    if k != k0 {
                        assert(ob[k] != ob[k0]);
                        assert(self.data_area@[ob[k] as int] == prev[ob[k] as int]);
                    } else if j != j0 {
                        assert(k * 512 + j != pos);
                    } else {
                        assert(k * 512 + j == pos);
                    }
                }
            }
            i = i + 1;
        }
        proof {
            let s = *self;
            let o = *old(self);
            assert forall|i2: int| #[trigger] s.inode_used(i2) implies s.inode_wf(i2) by {
                assert(o.inode_used(i2));
                assert(o.inode_wf(i2));
                let d = s.inodes@[i2];
                if i2 == ino {
                    assert forall|k: int, j: int|
                        0 <= k < d.blocks@.len() && 0 <= j < 512 && k * 512 + j >= d.size
                        implies #[trigger] s.data_area@[d.blocks@[k] as int]@[j] == 0u8 by {
                        assert(o.data_area@[d.blocks@[k] as int]@[j] == 0u8);
                    }
                } else {
                    assert forall|k: int, j: int|
                        0 <= k < d.blocks@.len() && 0 <= j < 512 && k * 512 + j >= d.size
                        implies #[trigger] s.data_area@[d.blocks@[k] as int]@[j] == 0u8 by {
                        let b = d.blocks@[k] as int;
                        assert(o.data_used(b));
                        if o.owns(ino as int, b) {
                            let kk = choose|kk: int| 0 <= kk < ob.len() && ob[kk] == b;
                            assert(o.inodes@[ino as int].blocks@[kk] == o.inodes@[i2].blocks@[k]);
                        }
                        assert(o.data_area@[d.blocks@[k] as int]@[j] == 0u8);
                    }
                }
            }
            assert forall|i2: int| #[trigger] o.is_file(i2) && i2 != ino implies s.content(i2) == o.content(i2) by {
                s.lemma_other_content(o, ino as int, i2);
            }
            let c = overwrite(o.content(ino as int), offset as int, buf@);
            assert forall|p: int| 0 <= p < size implies #[trigger] s.content(ino as int)[p] == c[p] by {
                lemma_split_pos(p);
                lemma_block_index(p, size as nat);
            }
            assert(s.content(ino as int) =~= c);
        }
        n
    }

    /// Appends free block `b` to file `ino` and lengthens the file by up
    /// to one block's worth of zero bytes, stopping at `new_size`.
    fn grow_one(&mut self, ino: u32, b: u32, new_size: u32)
        requires
            old(self).wf(),
            old(self).is_file(ino as int),
            b < old(self).data_area@.len(),
            !old(self).data_used(b as int),
            old(self).inode(ino as int).blocks@.len() < blocks_for(new_size as nat),
        ensures
            final(self).wf(),
            final(self).only_file_changed(*old(self), ino as int),
            final(self).data_bitmap@ == old(self).data_bitmap@.update(b as int, true),
            final(self).inode(ino as int).blocks@ == old(self).inode(ino as int).blocks@.push(b),
            final(self).inode(ino as int).size as int == if new_size <= (old(self).inode(ino as int).blocks@.len() + 1) * 512 {
                new_size as int
            } else {
                (old(self).inode(ino as int).blocks@.len() + 1) * 512 as int
            },
            final(self).content(ino as int)
                == zero_extend(old(self).content(ino as int), final(self).inode(ino as int).size as nat),
            forall|c: int| 0 <= c < old(self).data_area@.len() && c != b
                ==> #[trigger] final(self).data_area@[c] == old(self).data_area@[c],
    {
        let ghost o = *old(self);
        assert(o.inode_used(ino as int));
        assert(o.inode_wf(ino as int));
        let len = self.inodes[ino as usize].blocks.len();
        proof {
            assert(len < blocks_for(new_size as nat));
            assert((len as int) * 512 < new_size) by (nonlinear_arith)
                requires (len as int) < (new_size as int + 511) / 512, len >= 0, new_size >= 0;
        }
        self.take_data_block(b as usize);
        let ghost mid = *self;
        self.inodes[ino as usize].blocks.push(b);
        let grown: u64 = (len as u64 + 1) * 512;
        let size: u32 = if (new_size as u64) <= grown { new_size } else { grown as u32 };
        self.inodes[ino as usize].size = size;
        proof {
            let s = *self;
            let ob = o.inodes@[ino as int].blocks@;
            let nb = s.inodes@[ino as int].blocks@;
            assert(blocks_for(size as nat) == len + 1) by (nonlinear_arith)
                requires (len as int) * 512 < size, size <= (len as int + 1) * 512;
            assert(o.size_le_blocks(ino as int)) by {
                assert(o.inode_wf(ino as int));
            }
            assert forall|k: int| 0 <= k < nb.len() implies s.data_used(#[trigger] nb[k] as int) by {
                if k < len {
                    assert(nb[k] == ob[k]);
                    assert(o.data_used(ob[k] as int));
                }
            }
            assert forall|k: int, j: int|
                0 <= k < nb.len() && 0 <= j < 512 && k * 512 + j >= size
                implies #[trigger] s.data_area@[nb[k] as int]@[j] == 0u8 by {
                if k < len {
                    assert(nb[k] == ob[k]);
                    assert(o.data_used(ob[k] as int));
                    assert(ob[k] != b);
                    assert(k * 512 + j >= o.inodes@[ino as int].size) by (nonlinear_arith)
                        requires k < len, j >= 0, (len as int) * 512 < size, k * 512 + j >= size,
                            o.inodes@[ino as int].size <= (len as int) * 512, o.inodes@[ino as int].size >= 0;
                    assert(o.data_area@[ob[k] as int]@[j] == 0u8);
                } else {
                    assert(nb[k] == b);
                    assert(zero_block()[j] == 0u8);
                }
            }
            assert(s.inode_wf(ino as int));
            assert forall|i: int| #[trigger] s.inode_used(i) implies s.inode_wf(i) by {
                if i != ino {
                    assert(mid.inode_used(i));
                    assert(mid.inode_wf(i));
                    assert(s.inodes@[i] == mid.inodes@[i]);
                }
            }
            assert forall|i1: int, k1: int, i2: int, k2: int|
                s.inode_used(i1) && s.inode_used(i2)
                    && 0 <= k1 < s.inodes@[i1].blocks@.len()
                    && 0 <= k2 < s.inodes@[i2].blocks@.len()
                    && #[trigger] s.inodes@[i1].blocks@[k1] == #[trigger] s.inodes@[i2].blocks@[k2]
                implies i1 == i2 && k1 == k2 by {
                if i1 == ino && k1 == len {
                    if !(i2 == ino && k2 == len) {
                        assert(o.data_used(s.inodes@[i2].blocks@[k2] as int)) by {
                            assert(o.inode_used(i2));
                            assert(o.inode_wf(i2));
                        }
                    }
                } else if i2 == ino && k2 == len {
                    assert(o.data_used(s.inodes@[i1].blocks@[k1] as int)) by {
                        assert(o.inode_used(i1));
                        assert(o.inode_wf(i1));
                    }
                } else {
                    assert(s.inodes@[i1].blocks@[k1] == o.inodes@[i1].blocks@[k1]);
                    assert(s.inodes@[i2].blocks@[k2] == o.inodes@[i2].blocks@[k2]);
                }
            }
            assert forall|i: int| #[trigger] o.is_file(i) && i != ino implies s.content(i) == o.content(i) by {
                assert forall|c: int| 0 <= c < o.data_area@.len() && o.data_used(c) && !o.owns(ino as int, c)
                    implies #[trigger] s.data_area@[c] == o.data_area@[c] by {
                }
                s.lemma_other_content(o, ino as int, i);
            }
            let z = zero_extend(o.content(ino as int), size as nat);
            assert forall|p: int| 0 <= p < size implies #[trigger] s.content(ino as int)[p] == z[p] by {
                lemma_split_pos(p);
                lemma_block_index(p, size as nat);
                if p / 512 < len {
                    assert(nb[p / 512] == ob[p / 512]);
                    assert(s.data_area@[ob[p / 512] as int] == o.data_area@[ob[p / 512] as int]);
                    assert(ob[p / 512] != b) by {
                        assert(o.data_used(ob[p / 512] as int));
                    }
                    if p >= o.inodes@[ino as int].size {
                        assert(o.data_area@[ob[p / 512] as int]@[p % 512] == 0u8);
                    }
                } else {
                    assert(nb[p / 512] == b);
                    assert(zero_block()[p % 512] == 0u8);
                    assert(p >= o.inodes@[ino as int].size) by (nonlinear_arith)
                        requires p / 512 >= len, p >= 0, o.inodes@[ino as int].size <= (len as int) * 512,
                            p == (p / 512) * 512 + p % 512, p % 512 >= 0;
                }
            }
            assert(s.content(ino as int) =~= z);
        }
    }

    /// Lengthens file `ino` to `new_size` inside the blocks it already holds.
    fn extend_within(&mut self, ino: u32, new_size: u32)
        requires
            old(self).wf(),
            old(self).is_file(ino as int),
            old(self).inode(ino as int).size <= new_size,
            new_size as int <= old(self).inode(ino as int).blocks@.len() * 512,
        ensures
            final(self).wf(),
            final(self).only_file_changed(*old(self), ino as int),
            final(self).data_bitmap@ == old(self).data_bitmap@,
            final(self).data_area@ == old(self).data_area@,
            final(self).inode(ino as int).blocks@ == old(self).inode(ino as int).blocks@,
            final(self).inode(ino as int).size == new_size,
            final(self).content(ino as int) == zero_extend(old(self).content(ino as int), new_size as nat),
    {
        let ghost o = *old(self);
        assert(o.inode_used(ino as int));
        assert(o.inode_wf(ino as int));
        self.inodes[ino as usize].size = new_size;
        proof {
            let s = *self;
            let ob = o.inodes@[ino as int].blocks@;
            let len = ob.len();
            let osize = o.inodes@[ino as int].size;
            assert(blocks_for(new_size as nat) == len) by (nonlinear_arith)
                requires (len as int) == (osize as int + 511) / 512, osize <= new_size,
                    new_size as int <= (len as int) * 512;
            assert forall|k: int| 0 <= k < ob.len() implies s.data_used(#[trigger] ob[k] as int) by {
                assert(o.data_used(ob[k] as int));
            }
            assert forall|k: int, j: int|
                0 <= k < ob.len() && 0 <= j < 512 && k * 512 + j >= new_size
                implies #[trigger] s.data_area@[ob[k] as int]@[j] == 0u8 by {
                assert(o.data_area@[ob[k] as int]@[j] == 0u8);
            }
            assert(s.inode_wf(ino as int));
            assert forall|i: int| #[trigger] s.inode_used(i) implies s.inode_wf(i) by {
                if i != ino {
                    assert(o.inode_used(i));
                    assert(o.inode_wf(i));
                }
            }
            assert forall|i: int| #[trigger] o.is_file(i) && i != ino implies s.content(i) == o.content(i) by {
                assert(s.content(i) =~= o.content(i));
            }
            let z = zero_extend(o.content(ino as int), new_size as nat);
            assert forall|p: int| 0 <= p < new_size implies #[trigger] s.content(ino as int)[p] == z[p] by {
                lemma_split_pos(p);
                lemma_block_index(p, new_size as nat);
                if p >= osize {
                    assert(o.data_area@[ob[p / 512] as int]@[p % 512] == 0u8);
                }
            }
            assert(s.content(ino as int) =~= z);
        }
    }

    /// File `i` kept its blocks and gained, at their end, blocks that were
    /// free in `old`; those are the only data blocks newly in use.
    pub open spec fn grew_blocks(self, old: Self, i: int) -> bool {
        let ob = old.inodes@[i].blocks@;
        let nb = self.inodes@[i].blocks@;
        &&& ob.len() <= nb.len()
        &&& nb.subrange(0, ob.len() as int) == ob
        &&& forall|k: int| ob.len() <= k < nb.len() ==> !old.data_used(#[trigger] nb[k] as int)
        &&& self.data_bitmap@.len() == old.data_bitmap@.len()
        &&& forall|c: int| #[trigger] self.data_used(c)
            <==> (old.data_used(c) || exists|k: int| ob.len() <= k < nb.len() && nb[k] == c)
    }

    /// Data block ids that are free.
    pub open spec fn free_data(self) -> Set<int> {
        Set::new(|c: int| 0 <= c < self.data_area@.len() && !self.data_bitmap@[c])
    }

    /// Grows file `ino` to `new_size` bytes, taking the data blocks that
    /// takes from the free ones; the new bytes are zero. `false`, with
    /// nothing changed, when too few blocks are free.
    pub fn file_increase_size(&mut self, ino: u32, new_size: u32) -> (r: bool)
        requires
            old(self).wf(),
            old(self).is_file(ino as int),
        ensures
            final(self).wf(),
            new_size <= old(self).inode(ino as int).size ==> r && *final(self) == *old(self),
            r <==> (new_size <= old(self).inode(ino as int).size
                || blocks_for(new_size as nat) - blocks_for(old(self).inode(ino as int).size as nat)
                    <= old(self).free_data().len()),
            !r ==> *final(self) == *old(self),
            r ==> {
                &&& final(self).only_file_changed(*old(self), ino as int)
                &&& forall|c: int| #[trigger] old(self).data_used(c) ==> final(self).data_used(c)
                &&& final(self).data_bitmap@.len() == old(self).data_bitmap@.len()
                &&& final(self).grew_blocks(*old(self), ino as int)
                &&& final(self).inode(ino as int).blocks@.len() == blocks_for(final(self).inode(ino as int).size as nat)
                &&& new_size > old(self).inode(ino as int).size ==> final(self).inode(ino as int).size == new_size
                &&& final(self).content(ino as int)
                    == zero_extend(old(self).content(ino as int), final(self).inode(ino as int).size as nat)
            },
    {
        assert(self.inode_used(ino as int));
        assert(self.inode_wf(ino as int));
        let size = self.inodes[ino as usize].size;
        if new_size <= size {
            proof {
                assert(self.content(ino as int) =~= zero_extend(self.content(ino as int), size as nat));
                let ob = self.inodes@[ino as int].blocks@;
                assert(ob.subrange(0, ob.len() as int) =~= ob);
            }
            return true;
        }
        let need = DiskInode::total_blocks(new_size) - DiskInode::total_blocks(size);
        if need == 0 {
            proof {
                assert(new_size as int <= self.inode(ino as int).blocks@.len() * 512) by (nonlinear_arith)
                    requires
                        self.inode(ino as int).blocks@.len() == (new_size as int + 511) / 512,
                        new_size >= 0;
            }
            let ghost o0 = *self;
            self.extend_within(ino, new_size);
            proof {
                let ob = o0.inodes@[ino as int].blocks@;
                assert(ob.subrange(0, ob.len() as int) =~= ob);
                assert(self.inode_used(ino as int));
                assert(self.inode_wf(ino as int));
            }
            return true;
        }
        let mut picked: Vec<u32> = Vec::new();
        let mut b: usize = 0;
        while b < self.data_bitmap.len() && picked.len() < need as usize
            invariant
                self.wf(),
                b <= self.data_bitmap@.len(),
                picked@.len() <= need,
                forall|k: int| 0 <= k < picked@.len() ==> (#[trigger] picked@[k]) < b,
                forall|k: int| 0 <= k < picked@.len() ==> !self.data_used(#[trigger] picked@[k] as int),
                forall|k1: int, k2: int| 0 <= k1 < k2 < picked@.len() ==> #[trigger] picked@[k1] < #[trigger] picked@[k2],
                forall|c: int| 0 <= c < b && !self.data_used(c) ==> picked@.contains(c as u32),
            decreases self.data_bitmap@.len() - b,
        {
            if !self.data_bitmap[b] {
                let ghost prev = picked@;
                picked.push(b as u32);
                proof {
                    assert forall|c: int| 0 <= c < b + 1 && !self.data_used(c) implies picked@.contains(c as u32) by {
                        if c == b {
                            assert(picked@[picked@.len() - 1] == c as u32);
                        } else {
                            assert(prev.contains(c as u32));
                            let k = choose|k: int| 0 <= k < prev.len() && prev[k] == c as u32;
                            assert(picked@[k] == c as u32);
                        }
                    }
                }
            }
            b = b + 1;
        }
        proof {
            vstd::set_lib::lemma_int_range(0, self.data_area@.len() as int);
            assert(self.free_data().subset_of(vstd::set_lib::set_int_range(0, self.data_area@.len() as int)));
            vstd::set_lib::lemma_set_subset_finite(
                vstd::set_lib::set_int_range(0, self.data_area@.len() as int), self.free_data());
        }
        if picked.len() < need as usize {
            proof {
                assert(b == self.data_bitmap@.len());
                let ps = picked@.map_values(|x: u32| x as int);
                assert(ps.no_duplicates());
                ps.unique_seq_to_set();
                assert forall|c: int| #[trigger] self.free_data().contains(c) <==> ps.to_set().contains(c) by {
                    if self.free_data().contains(c) {
                        assert(!self.data_used(c));
                        assert(picked@.contains(c as u32));
                        let k = choose|k: int| 0 <= k < picked@.len() && picked@[k] == c as u32;
                        assert(ps[k] == c);
                    }
                    if ps.to_set().contains(c) {
                        let k = choose|k: int| 0 <= k < ps.len() && ps[k] == c;
                        assert(picked@[k] < b);
                    }
                }
                assert(self.free_data() =~= ps.to_set());
            }
            return false;
        }
        proof {
            let ps = picked@.map_values(|x: u32| x as int);
            assert(ps.no_duplicates());
            ps.unique_seq_to_set();
            assert forall|c: int| ps.to_set().contains(c) implies #[trigger] self.free_data().contains(c) by {
                let k = choose|k: int| 0 <= k < ps.len() && ps[k] == c;
                assert(!self.data_used(picked@[k] as int));
            }
            vstd::set_lib::lemma_len_subset(ps.to_set(), self.free_data());
        }
        let ghost o = *old(self);
        proof {
            assert(self.inode(ino as int).blocks@ =~= o.inode(ino as int).blocks@ + picked@.subrange(0, 0));
        }
        let mut k: usize = 0;
        while k < picked.len()
            invariant
                o == *old(self),
                o.wf(),
                o.is_file(ino as int),
                self.wf(),
                self.is_file(ino as int),
                0 <= k <= picked@.len(),
                picked@.len() == need,
                need == blocks_for(new_size as nat) - blocks_for(o.inode(ino as int).size as nat),
                o.inode(ino as int).size < new_size,
                self.inode(ino as int).blocks@.len() == o.inode(ino as int).blocks@.len() + k,
                k > 0 ==> self.inode(ino as int).size as int == if new_size as int <= self.inode(ino as int).blocks@.len() * 512 {
                    new_size as int
                } else {
                    self.inode(ino as int).blocks@.len() * 512 as int
                },
                k == 0 ==> self.inode(ino as int).size == o.inode(ino as int).size,
                forall|m: int| k <= m < picked@.len() ==> !self.data_used(#[trigger] picked@[m] as int),
                forall|m: int| 0 <= m < picked@.len() ==> (#[trigger] picked@[m]) < self.data_area@.len(),
                forall|k1: int, k2: int| 0 <= k1 < k2 < picked@.len() ==> #[trigger] picked@[k1] < #[trigger] picked@[k2],
                self.only_file_changed(o, ino as int),
                forall|c: int| #[trigger] o.data_used(c) ==> self.data_used(c),
                self.data_bitmap@.len() == o.data_bitmap@.len(),
                self.content(ino as int) == zero_extend(o.content(ino as int), self.inode(ino as int).size as nat),
                self.inode(ino as int).blocks@ == o.inode(ino as int).blocks@ + picked@.subrange(0, k as int),
                forall|m: int| 0 <= m < picked@.len() ==> !o.data_used(#[trigger] picked@[m] as int),
                forall|c: int| #[trigger] self.data_used(c)
                    <==> (o.data_used(c) || exists|m: int| 0 <= m < k && picked@[m] == c),
            decreases picked@.len() - k,
        {
            let ghost before = *self;
            proof {
                assert(o.inode_used(ino as int));
                assert(blocks_for(o.inode(ino as int).size as nat) == o.inode(ino as int).blocks@.len()) by {
                    assert(o.inode_used(ino as int));
                    assert(o.inode_wf(ino as int));
                }
            }
            self.grow_one(ino, picked[k], new_size);
            proof {
                let s = *self;
                assert forall|m: int| k + 1 <= m < picked@.len() implies !s.data_used(#[trigger] picked@[m] as int) by {
                    assert(picked@[k as int] < picked@[m]);
                }
                assert forall|i: int| 0 <= i < s.inodes@.len() && i != ino implies #[trigger] s.inodes@[i] == o.inodes@[i] by {
                    assert(s.inodes@[i] == before.inodes@[i]);
                }
                assert forall|i: int| #[trigger] o.is_file(i) && i != ino implies s.content(i) == o.content(i) by {
                    assert(before.is_file(i));
                }
                assert forall|c: int| #[trigger] o.data_used(c) implies s.data_used(c) by {
                    assert(before.data_used(c));
                }
                assert(s.content(ino as int) =~= zero_extend(o.content(ino as int), s.inode(ino as int).size as nat));
                assert(s.inode(ino as int).blocks@ =~= o.inode(ino as int).blocks@ + picked@.subrange(0, k as int + 1));
                assert forall|c: int| #[trigger] s.data_used(c)
                    <==> (o.data_used(c) || exists|m: int| 0 <= m < k + 1 && picked@[m] == c) by {
                    if c == picked@[k as int] {
                        assert(picked@[k as int] == c);
                    } else {
                        assert(s.data_used(c) == before.data_used(c));
                        if exists|m: int| 0 <= m < k + 1 && picked@[m] == c {
                            let m = choose|m: int| 0 <= m < k + 1 && picked@[m] == c;
                            assert(m < k);
                        }
                    }
                }
            }
            k = k + 1;
        }
        proof {
            let s = *self;
            assert(s.inode_used(ino as int));
            assert(s.inode_wf(ino as int));
            let ob = o.inodes@[ino as int].blocks@;
            let nb = s.inodes@[ino as int].blocks@;
            assert(nb.subrange(0, ob.len() as int) =~= ob);
            assert forall|kk: int| ob.len() <= kk < nb.len() implies !o.data_used(#[trigger] nb[kk] as int) by {
                assert(nb[kk] == picked@[kk - ob.len()]);
            }
            assert forall|c: int| #[trigger] s.data_used(c)
                <==> (o.data_used(c) || exists|kk: int| ob.len() <= kk < nb.len() && nb[kk] == c) by {
                if exists|m: int| 0 <= m < picked@.len() && picked@[m] == c {
                    let m = choose|m: int| 0 <= m < picked@.len() && picked@[m] == c;
                    assert(nb[ob.len() + m] == c);
                }
                if exists|kk: int| ob.len() <= kk < nb.len() && nb[kk] == c {
                    let kk = choose|kk: int| ob.len() <= kk < nb.len() && nb[kk] == c;
                    assert(picked@[kk - ob.len()] == c);
                }
            }
            assert(s.inode(ino as int).size == new_size) by (nonlinear_arith)
                requires
                    s.inode(ino as int).blocks@.len() == (new_size as int + 511) / 512,
                    s.inode(ino as int).size as int == if new_size as int <= s.inode(ino as int).blocks@.len() * 512 {
                        new_size as int
                    } else {
                        s.inode(ino as int).blocks@.len() * 512 as int
                    },
                    new_size >= 0;
        }
        true
    }

    /// Releases every data block of file `ino` back to the free pool
    /// (zero-filled) and sets its size to zero. Returns the released ids.
    pub fn file_clear(&mut self, ino: u32) -> (freed: Vec<u32>)
        requires
            old(self).wf(),
            old(self).is_file(ino as int),
        ensures
            final(self).wf(),
            freed@ == old(self).inode(ino as int).blocks@,
            freed@.len() == blocks_for(old(self).inode(ino as int).size as nat),
            final(self).inode(ino as int).size == 0,
            final(self).inode(ino as int).blocks@.len() == 0,
            final(self).content(ino as int).len() == 0,
            final(self).only_file_changed(*old(self), ino as int),
            final(self).data_bitmap@.len() == old(self).data_bitmap@.len(),
            forall|c: int| #[trigger] final(self).data_used(c) <==> (old(self).data_used(c) && !old(self).owns(ino as int, c)),
            forall|k: int| 0 <= k < freed@.len() ==> !#[trigger] final(self).data_used(freed@[k] as int),
            final(self).data_area@.len() == old(self).data_area@.len(),
            forall|k: int| 0 <= k < freed@.len() ==> (#[trigger] final(self).data_area@[freed@[k] as int])@ == zero_block(),
            forall|c: int| 0 <= c < old(self).data_area@.len() && old(self).owns(ino as int, c)
                ==> (#[trigger] final(self).data_area@[c])@ == zero_block(),
    {
        let ghost o = *old(self);
        assert(o.inode_used(ino as int));
        assert(o.inode_wf(ino as int));
        let mut taken: Vec<u32> = Vec::new();
        std::mem::swap(&mut self.inodes[ino as usize].blocks, &mut taken);
        self.inodes[ino as usize].size = 0;
        proof {
            let s = *self;
            assert(s.inode_wf(ino as int));
            assert forall|i: int| #[trigger] s.inode_used(i) implies s.inode_wf(i) by {
                if i != ino {
                    assert(o.inode_used(i));
                    assert(o.inode_wf(i));
                }
            }
            assert forall|i1: int, k1: int, i2: int, k2: int|
                s.inode_used(i1) && s.inode_used(i2)
                    && 0 <= k1 < s.inodes@[i1].blocks@.len()
                    && 0 <= k2 < s.inodes@[i2].blocks@.len()
                    && #[trigger] s.inodes@[i1].blocks@[k1] == #[trigger] s.inodes@[i2].blocks@[k2]
                implies i1 == i2 && k1 == k2 by {
                assert(o.inodes@[i1].blocks@[k1] == o.inodes@[i2].blocks@[k2]);
            }
            assert forall|i: int| #[trigger] o.is_file(i) && i != ino implies s.content(i) == o.content(i) by {
                assert(s.content(i) =~= o.content(i));
            }
        }
        proof {
            assert forall|m1: int, m2: int| 0 <= m1 < taken@.len() && 0 <= m2 < taken@.len() && m1 != m2
                implies #[trigger] taken@[m1] != #[trigger] taken@[m2] by {
                assert(o.inodes@[ino as int].blocks@[m1] == taken@[m1]);
                assert(o.inodes@[ino as int].blocks@[m2] == taken@[m2]);
            }
        }
        let mut k: usize = 0;
        while k < taken.len()
            invariant
                o == *old(self),
                o.wf(),
                o.inode_used(ino as int),
                taken@ == o.inodes@[ino as int].blocks@,
                self.wf(),
                k <= taken@.len(),
                self.inodes@ == o.inodes@.update(ino as int, self.inodes@[ino as int]),
                self.inodes@.len() == o.inodes@.len(),
                self.inode(ino as int).size == 0,
                self.inode(ino as int).blocks@.len() == 0,
                self.inode(ino as int).type_ == o.inode(ino as int).type_,
                self.inode(ino as int).hard_linked == o.inode(ino as int).hard_linked,
                self.inode(ino as int).entries@ == o.inode(ino as int).entries@,
                self.inode_bitmap@ == o.inode_bitmap@,
                self.super_block == o.super_block,
                self.data_bitmap@.len() == o.data_bitmap@.len(),
                self.data_area@.len() == o.data_area@.len(),
                forall|c: int| 0 <= c < o.data_area@.len() && !o.owns(ino as int, c)
                    ==> #[trigger] self.data_area@[c] == o.data_area@[c],
                forall|c: int| #[trigger] self.data_used(c) <==> (o.data_used(c) && !(exists|m: int|
                    0 <= m < k && taken@[m] == c)),
                forall|m1: int, m2: int| 0 <= m1 < taken@.len() && 0 <= m2 < taken@.len() && m1 != m2
                    ==> #[trigger] taken@[m1] != #[trigger] taken@[m2],
                forall|m: int| 0 <= m < k ==> (#[trigger] self.data_area@[taken@[m] as int])@ == zero_block(),
            decreases taken@.len() - k,
        {
            proof {
                assert(o.data_used(taken@[k as int] as int));
                assert forall|i: int, kk: int| self.inode_used(i)
                    && 0 <= kk < self.inodes@[i].blocks@.len()
                    implies #[trigger] self.inodes@[i].blocks@[kk] != taken@[k as int] by {
                    if i != ino {
                        assert(self.inodes@[i] == o.inodes@[i]);
                        assert(o.inode_used(i));
                    }
                }
            }
            let ghost before = *self;
            self.dealloc_data(taken[k]);
            proof {
                assert forall|c: int| #[trigger] self.data_used(c) <==> (o.data_used(c) && !(exists|m: int|
                    0 <= m < k + 1 && taken@[m] == c)) by {
                    if c == taken@[k as int] {
                        assert(taken@[k as int] == c);
                    } else {
                        assert(self.data_used(c) == before.data_used(c));
                        if exists|m: int| 0 <= m < k + 1 && taken@[m] == c {
                            let m = choose|m: int| 0 <= m < k + 1 && taken@[m] == c;
                            assert(m < k);
                        }
                    }
                }
                assert forall|c: int| 0 <= c < o.data_area@.len() && !o.owns(ino as int, c)
                    implies #[trigger] self.data_area@[c] == o.data_area@[c] by {
                    if c == taken@[k as int] {
                        assert(o.owns(ino as int, c));
                    }
                }
                assert forall|m: int| 0 <= m < k + 1 implies (#[trigger] self.data_area@[taken@[m] as int])@ == zero_block() by {
                    if m < k {
                        assert(taken@[m] != taken@[k as int]);
                        assert(self.disk()[taken@[m] as int] == before.disk()[taken@[m] as int]);
                    } else {
                        assert(self.disk()[taken@[m] as int] == zero_block());
                    }
                }
            }
            k = k + 1;
        }
        proof {
            let s = *self;
            assert forall|i: int| #[trigger] o.is_file(i) && i != ino implies s.content(i) == o.content(i) by {
                assert(s.inodes@[i] == o.inodes@[i]);
                assert forall|c: int| 0 <= c < o.data_area@.len() && o.data_used(c) && !o.owns(ino as int, c)
                    implies #[trigger] s.data_area@[c] == o.data_area@[c] by {
                }
                s.lemma_other_content(o, ino as int, i);
            }
            assert forall|i: int| 0 <= i < s.inodes@.len() && i != ino implies #[trigger] s.inodes@[i] == o.inodes@[i] by {
            }
            assert forall|c: int| #[trigger] s.data_used(c) <==> (o.data_used(c) && !o.owns(ino as int, c)) by {
                if o.owns(ino as int, c) {
                    let m = choose|m: int| 0 <= m < taken@.len() && taken@[m] == c;
                    assert(taken@[m] == c);
                }
                if exists|m: int| 0 <= m < taken@.len() && taken@[m] == c {
                    let m = choose|m: int| 0 <= m < taken@.len() && taken@[m] == c;
                    assert(o.inodes@[ino as int].blocks@[m] == c);
                }
            }
            assert forall|m: int| 0 <= m < taken@.len() implies !#[trigger] s.data_used(taken@[m] as int) by {
                assert(o.owns(ino as int, taken@[m] as int));
            }
            assert forall|c: int| 0 <= c < o.data_area@.len() && o.owns(ino as int, c)
                implies (#[trigger] s.data_area@[c])@ == zero_block() by {
                let m = choose|m: int| 0 <= m < o.inodes@[ino as int].blocks@.len() && o.inodes@[ino as int].blocks@[m] == c;
                assert(taken@[m] == c);
            }
        }
        taken
    }
}

} // verus!
