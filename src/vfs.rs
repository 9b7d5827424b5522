use vstd::prelude::*;
use crate::data::{overwrite, read_len, zero_extend};
use crate::efs::{zero_block, EasyFileSystem};
use crate::layout::{blocks_for, DirEntry, DiskInode, DiskInodeType, DISK_INODE_SZ, INODES_PER_BLOCK};

verus! {

/// A handle on one inode: the position of its record in the inode area.
/// Handles carry no state of their own; every operation reads the
/// filesystem that is passed to it.
#[derive(Clone, Copy, Debug, PartialEq, Eq, Structural)]
pub struct Inode {
    pub block_id: u32,
    pub block_offset: usize,
}

impl Inode {
    /// Inode id of the record at this handle's position.
    pub open spec fn id(self, fs: EasyFileSystem) -> int {
        (self.block_id - fs.inode_area_start()) * 4 + self.block_offset as int / 128
    }

    /// The handle names an inode in use in `fs`.
    pub open spec fn valid_in(self, fs: EasyFileSystem) -> bool {
        &&& self.block_id >= fs.inode_area_start()
        &&& self.block_offset < 512
        &&& self.block_offset % 128 == 0
        &&& fs.inode_used(self.id(fs))
    }

    /// The handle at position `(block_id, block_offset)`.
    pub fn new(block_id: u32, block_offset: usize) -> (r: Inode)
        ensures
            r.block_id == block_id,
            r.block_offset == block_offset,
    {
        Inode { block_id, block_offset }
    }

    /// The handle of inode `inode_id`.
    pub fn of_id(fs: &EasyFileSystem, inode_id: u32) -> (r: Inode)
        requires
            fs.wf(),
            inode_id < fs.inodes@.len(),
        ensures
            r.id(*fs) == inode_id,
            r.block_id >= fs.inode_area_start(),
            r.block_offset < 512,
            r.block_offset % 128 == 0,
    {
        let (block_id, block_offset) = fs.get_disk_inode_pos(inode_id);
        let r = Inode::new(block_id, block_offset);
        proof {
            let i = inode_id as int;
            assert((i / 4) * 4 + ((i % 4) * 128) / 128 == i && (i % 4) * 128 < 512
                && ((i % 4) * 128) % 128 == 0) by (nonlinear_arith)
                requires i >= 0;
        }
        r
    }

    /// Inode id of this handle.
    fn inode_index(&self, fs: &EasyFileSystem) -> (r: u32)
        requires
            fs.wf(),
            self.valid_in(*fs),
        ensures
            r == self.id(*fs),
    {
        proof {
            let d = self.block_id - fs.inode_area_start();
            assert(d <= u32::MAX / 4) by (nonlinear_arith)
                requires
                    d * 4 + self.block_offset as int / 128 < u32::MAX,
                    self.block_offset >= 0, d >= 0;
        }
        fs.get_inode_id(self.block_id, self.block_offset) as u32
    }

    /// Inode id of this handle, as reported by `fstat`.
    pub fn get_inode_id(&self, fs: &EasyFileSystem) -> (r: u64)
        requires
            fs.wf(),
            self.valid_in(*fs),
        ensures
            r == self.id(*fs),
    {
        self.inode_index(fs) as u64
    }

    /// 0 for a directory, 1 for a file.
    pub fn get_inode_mode(&self, fs: &EasyFileSystem) -> (r: u8)
        requires
            fs.wf(),
            self.valid_in(*fs),
        ensures
            r == if fs.is_dir(self.id(*fs)) { 0u8 } else { 1u8 },
    {
        let id = self.inode_index(fs);
        let d = &fs.inodes[id as usize];
        if d.is_dir() {
            0
        } else if d.is_file() {
            1
        } else {
            2
        }
    }

    /// `(inode id, mode, link count)` of `inode`.
    pub fn fstat(&self, fs: &EasyFileSystem, inode: &Inode) -> (r: (u64, u8, u32))
        requires
            fs.wf(),
            inode.valid_in(*fs),
        ensures
            r.0 == inode.id(*fs),
            r.1 == if fs.is_dir(inode.id(*fs)) { 0u8 } else { 1u8 },
            r.2 == fs.inode(inode.id(*fs)).hard_linked,
    {
        let ino = inode.get_inode_id(fs);
        let mode = inode.get_inode_mode(fs);
        let nlink = inode.get_disk_hard_linked(fs);
        (ino, mode, nlink)
    }

    /// The link count of this inode.
    pub fn get_disk_hard_linked(&self, fs: &EasyFileSystem) -> (r: u32)
        requires
            fs.wf(),
            self.valid_in(*fs),
        ensures
            r == fs.inode(self.id(*fs)).hard_linked,
    {
        let id = self.inode_index(fs);
        fs.inodes[id as usize].hard_linked
    }

    /// Adds one to the link count of this inode.
    pub fn add_disk_hard_linked(&self, fs: &mut EasyFileSystem)
        requires
            old(fs).wf(),
            self.valid_in(*old(fs)),
            old(fs).inode(self.id(*old(fs))).hard_linked < u32::MAX,
        ensures
            final(fs).wf(),
            final(fs).set_link_count(*old(fs), self.id(*old(fs)), old(fs).inode(self.id(*old(fs))).hard_linked + 1),
    {
        let id = self.inode_index(fs);
        let c = fs.inodes[id as usize].hard_linked;
        fs.set_hard_linked(id, c + 1);
    }

    /// Takes one from the link count of this inode.
    pub fn sub_disk_hard_linked(&self, fs: &mut EasyFileSystem)
        requires
            old(fs).wf(),
            self.valid_in(*old(fs)),
            old(fs).inode(self.id(*old(fs))).hard_linked > 0,
        ensures
            final(fs).wf(),
            final(fs).set_link_count(*old(fs), self.id(*old(fs)), old(fs).inode(self.id(*old(fs))).hard_linked - 1),
    {
        let id = self.inode_index(fs);
        let c = fs.inodes[id as usize].hard_linked;
        fs.set_hard_linked(id, c - 1);
    }
}

impl EasyFileSystem {
    /// `self` is `old` with the link count of inode `i` set to `n`.
    pub open spec fn set_link_count(self, old: Self, i: int, n: int) -> bool {
        &&& self.inode_bitmap@ == old.inode_bitmap@
        &&& self.super_block == old.super_block
        &&& self.data_bitmap@ == old.data_bitmap@
        &&& self.data_area@ == old.data_area@
        &&& self.inodes@.len() == old.inodes@.len()
        &&& forall|j: int| 0 <= j < self.inodes@.len() && j != i ==> #[trigger] self.inodes@[j] == old.inodes@[j]
        &&& self.inodes@[i].hard_linked == n
        &&& self.inodes@[i].size == old.inodes@[i].size
        &&& self.inodes@[i].type_ == old.inodes@[i].type_
        &&& self.inodes@[i].blocks@ == old.inodes@[i].blocks@
        &&& self.inodes@[i].entries@ == old.inodes@[i].entries@
    }

    fn set_hard_linked(&mut self, id: u32, n: u32)
        requires
            old(self).wf(),
            old(self).inode_used(id as int),
        ensures
            final(self).wf(),
            final(self).set_link_count(*old(self), id as int, n as int),
    {
        self.inodes[id as usize].hard_linked = n;
        proof {
            let s = *self;
            let o = *old(self);
            assert forall|i: int| #[trigger] s.inode_used(i) implies s.inode_wf(i) by {
                assert(o.inode_used(i));
                assert(o.inode_wf(i));
                assert(s.inodes@[i].blocks@ == o.inodes@[i].blocks@);
                assert(s.inodes@[i].entries@ == o.inodes@[i].entries@);
            }
            assert forall|i1: int, k1: int, i2: int, k2: int|
                s.inode_used(i1) && s.inode_used(i2)
                    && 0 <= k1 < s.inodes@[i1].blocks@.len()
                    && 0 <= k2 < s.inodes@[i2].blocks@.len()
                    && #[trigger] s.inodes@[i1].blocks@[k1] == #[trigger] s.inodes@[i2].blocks@[k2]
                implies i1 == i2 && k1 == k2 by {
                assert(o.inodes@[i1].blocks@[k1] == o.inodes@[i2].blocks@[k2]);
            }
        }
    }
}

/// Names of the live entries of `es`, in order.
pub open spec fn live_names(es: Seq<(Seq<char>, u32)>) -> Seq<Seq<char>>
    decreases es.len(),
{
    if es.len() == 0 {
        Seq::empty()
    } else {
        let p = live_names(es.drop_last());
        if es.last().0.len() > 0 {
            p.push(es.last().0)
        } else {
            p
        }
    }
}

impl Inode {
    /// Looks `name` up among the live entries of directory `dir`.
    fn find_inode_id(fs: &EasyFileSystem, dir: u32, name: &String) -> (r: Option<u32>)
        requires
            fs.wf(),
            fs.is_dir(dir as int),
        ensures
            r == fs.dir_lookup(dir as int, name@),
            r is Some ==> fs.inode_used(r->0 as int),
    {
        assert(fs.inode_used(dir as int));
        assert(fs.inode_wf(dir as int));
        let ghost es = fs.entries(dir as int);
        if *name == String::new() {
            proof {
                assert(name@ =~= Seq::<char>::empty());
            }
            return None;
        }
        proof {
            if name@.len() == 0 {
                assert(name@ =~= Seq::<char>::empty());
            }
        }
        let entries = &fs.inodes[dir as usize].entries;
        let mut i: usize = 0;
        while i < entries.len()
            invariant
                fs.wf(),
                fs.inode_wf(dir as int),
                entries == &fs.inodes@[dir as int].entries,
                es == fs.entries(dir as int),
                name@.len() > 0,
                i <= entries@.len(),
                forall|k: int| 0 <= k < i ==> (#[trigger] es[k]).0 != name@,
            decreases entries@.len() - i,
        {
            if entries[i].name == *name {
                proof {
                    assert(es[i as int].0 == name@);
                    let k = choose|k: int| 0 <= k < es.len() && es[k].0 == name@;
                    if k != i {
                        assert(entries@[i as int].name@ != entries@[k].name@);
                    }
                }
                return Some(entries[i].inode_number);
            }
            i = i + 1;
        }
        None
    }

    /// The handle of the entry `name` of this directory, if there is one.
    pub fn find(&self, fs: &EasyFileSystem, name: &str) -> (r: Option<Inode>)
        requires
            fs.wf(),
            self.valid_in(*fs),
            fs.is_dir(self.id(*fs)),
        ensures
            match r {
                None => fs.dir_lookup(self.id(*fs), name@) is None,
                Some(h) => {
                    &&& fs.dir_lookup(self.id(*fs), name@) == Some(h.id(*fs) as u32)
                    &&& h.valid_in(*fs)
                },
            },
    {
        let dir = self.inode_index(fs);
        let owned = name.to_owned();
        match Self::find_inode_id(fs, dir, &owned) {
            None => None,
            Some(id) => Some(Inode::of_id(fs, id)),
        }
    }

    /// Copies bytes of this file from `offset` on into `buf`; returns how many.
    pub fn read_at(&self, fs: &EasyFileSystem, offset: usize, buf: &mut [u8]) -> (n: usize)
        requires
            fs.wf(),
            self.valid_in(*fs),
            fs.is_file(self.id(*fs)),
        ensures
            n == read_len(fs.inode(self.id(*fs)).size as nat, offset as nat, old(buf)@.len()),
            final(buf)@.len() == old(buf)@.len(),
            forall|k: int| 0 <= k < n ==> final(buf)@[k] == #[trigger] fs.content(self.id(*fs))[offset + k],
            final(buf)@.subrange(n as int, old(buf)@.len() as int)
                == old(buf)@.subrange(n as int, old(buf)@.len() as int),
    {
        let id = self.inode_index(fs);
        fs.file_read_at(id, offset, buf)
    }

    /// Writes `buf` into this file from `offset` on, growing the file first
    /// where it ends before `offset + buf.len()`. Returns `buf.len()`, or 0
    /// with nothing changed when too few data blocks are free for the growth.
    pub fn write_at(&self, fs: &mut EasyFileSystem, offset: usize, buf: &[u8]) -> (n: usize)
        requires
            old(fs).wf(),
            self.valid_in(*old(fs)),
            old(fs).is_file(self.id(*old(fs))),
            offset + buf@.len() <= u32::MAX,
        ensures
            final(fs).wf(),
            final(fs).keeps_files(*old(fs)),
            ({
                let i = self.id(*old(fs));
                let size = old(fs).inode(i).size;
                let end = (offset + buf@.len()) as nat;
                let fits = end <= size || blocks_for(end) - blocks_for(size as nat) <= old(fs).free_data().len();
                &&& fits ==> {
                    &&& n == buf@.len()
                    &&& final(fs).only_file_changed(*old(fs), i)
                    &&& final(fs).grew_blocks(*old(fs), i)
                    &&& final(fs).inode(i).blocks@.len() == blocks_for(final(fs).inode(i).size as nat)
                    &&& final(fs).content(i) == overwrite(
                        zero_extend(old(fs).content(i), if end <= size { size as nat } else { end }),
                        offset as int, buf@)
                }
                &&& !fits ==> n == 0 && *final(fs) == *old(fs)
            }),
    {
        let id = self.inode_index(fs);
        let end = (offset + buf.len()) as u32;
        if !fs.file_increase_size(id, end) {
            return 0;
        }
        let ghost mid = *fs;
        let n = fs.file_write_at(id, offset, buf);
        proof {
            let o = *old(fs);
            let s = *fs;
            assert forall|i: int| 0 <= i < s.inodes@.len() && i != id implies #[trigger] s.inodes@[i] == o.inodes@[i] by {
                assert(mid.inodes@[i] == o.inodes@[i]);
            }
            assert forall|i: int| #[trigger] o.is_file(i) && i != id implies s.content(i) == o.content(i) by {
                assert(mid.inodes@[i] == o.inodes@[i]);
                assert(mid.is_file(i));
            }
            assert forall|c: int| #[trigger] s.data_used(c) == mid.data_used(c) by {
            }
            assert(s.inodes@[id as int] == mid.inodes@[id as int]);
            assert(s.grew_blocks(o, id as int));
        }
        n
    }

    /// Releases all data blocks of this file and sets its size to zero.
    pub fn clear(&self, fs: &mut EasyFileSystem)
        requires
            old(fs).wf(),
            self.valid_in(*old(fs)),
            old(fs).is_file(self.id(*old(fs))),
        ensures
            final(fs).wf(),
            final(fs).keeps_files(*old(fs)),
            final(fs).inode(self.id(*old(fs))).size == 0,
            final(fs).content(self.id(*old(fs))).len() == 0,
            final(fs).only_file_changed(*old(fs), self.id(*old(fs))),
            forall|c: int| #[trigger] final(fs).data_used(c)
                <==> (old(fs).data_used(c) && !old(fs).owns(self.id(*old(fs)), c)),
            final(fs).inode(self.id(*old(fs))).blocks@.len() == 0,
            final(fs).data_bitmap@.len() == old(fs).data_bitmap@.len(),
            final(fs).data_area@.len() == old(fs).data_area@.len(),
            forall|c: int| 0 <= c < old(fs).data_area@.len() && old(fs).owns(self.id(*old(fs)), c)
                ==> (#[trigger] final(fs).data_area@[c])@ == zero_block(),
    {
        let id = self.inode_index(fs);
        let _freed = fs.file_clear(id);
    }

    /// Names of the live entries of this directory, in order.
    pub fn ls(&self, fs: &EasyFileSystem) -> (r: Vec<String>)
        requires
            fs.wf(),
            self.valid_in(*fs),
            fs.is_dir(self.id(*fs)),
        ensures
            r@.map_values(|s: String| s@) == live_names(fs.entries(self.id(*fs))),
    {
        let dir = self.inode_index(fs);
        let ghost es = fs.entries(dir as int);
        let entries = &fs.inodes[dir as usize].entries;
        let mut v: Vec<String> = Vec::new();
        let mut i: usize = 0;
        while i < entries.len()
            invariant
                dir < fs.inodes@.len(),
                entries == &fs.inodes@[dir as int].entries,
                es == fs.entries(dir as int),
                i <= entries@.len(),
                v@.map_values(|s: String| s@) == live_names(es.take(i as int)),
            decreases entries@.len() - i,
        {
            proof {
                assert(es.take(i as int + 1).drop_last() =~= es.take(i as int));
                assert(es.take(i as int + 1).last() == es[i as int]);
                assert(es[i as int].0 == entries@[i as int].name@);
            }
            if entries[i].name != String::new() {
                let ghost before = v@;
                v.push(entries[i].name.clone());
                proof {
                    if es[i as int].0.len() == 0 {
                        assert(es[i as int].0 =~= Seq::<char>::empty());
                    }
                    assert(v@.map_values(|s: String| s@) =~= before.map_values(|s: String| s@).push(es[i as int].0));
                }
            } else {
                proof {
                    assert(es[i as int].0 =~= Seq::<char>::empty());
                }
            }
            i = i + 1;
        }
        proof {
            assert(es.take(entries@.len() as int) =~= es);
        }
        v
    }
}

impl EasyFileSystem {
    /// Every inode id is in use.
    pub open spec fn inodes_exhausted(self) -> bool {
        forall|i: int| 0 <= i < self.inodes@.len() ==> #[trigger] self.inode_used(i)
    }

    /// `self` is `old` with a new empty file at the lowest free inode id,
    /// `id`, linked once and named `name` by a new entry at the end of
    /// directory `dir`.
    pub open spec fn created(self, old: Self, dir: int, name: Seq<char>, id: int) -> bool {
        &&& !old.inode_used(id)
        &&& forall|j: int| 0 <= j < id ==> #[trigger] old.inode_used(j)
        &&& self.is_file(id)
        &&& self.inodes@[id].size == 0
        &&& self.inodes@[id].hard_linked == 1
        &&& self.inode_bitmap@ == old.inode_bitmap@.update(id, true)
        &&& self.same_data(old)
        &&& forall|j: int| 0 <= j < self.inodes@.len() && j != dir && j != id
            ==> #[trigger] self.inodes@[j] == old.inodes@[j]
        &&& self.entries(dir) == old.entries(dir).push((name, id as u32))
        &&& self.inodes@[dir].hard_linked == old.inodes@[dir].hard_linked
        &&& self.inodes@[dir].type_ == old.inodes@[dir].type_
        &&& self.dir_lookup(dir, name) == Some(id as u32)
    }

    /// `self` is `old` with entry `(name, target)` appended to directory
    /// `dir` and the link count of `target` one higher.
    pub open spec fn linked(self, old: Self, dir: int, name: Seq<char>, target: int) -> bool {
        &&& self.same_data(old)
        &&& self.inode_bitmap@ == old.inode_bitmap@
        &&& forall|j: int| 0 <= j < self.inodes@.len() && j != dir && j != target
            ==> #[trigger] self.inodes@[j] == old.inodes@[j]
        &&& self.entries(dir) == old.entries(dir).push((name, target as u32))
        &&& self.inodes@[target].hard_linked == old.inodes@[target].hard_linked + 1
        &&& target != dir ==> self.inodes@[dir].hard_linked == old.inodes@[dir].hard_linked
        &&& self.inodes@[dir].type_ == old.inodes@[dir].type_
        &&& self.inodes@[target].type_ == old.inodes@[target].type_
        &&& self.dir_lookup(dir, name) == Some(target as u32)
    }
}

impl Inode {
    /// Makes an empty file named `name` in this directory and returns its
    /// handle. `None`, with nothing changed, when `name` is empty or already
    /// names an entry, when the directory is full, or when no inode is free.
    pub fn create(&self, fs: &mut EasyFileSystem, name: &str) -> (r: Option<Inode>)
        requires
            old(fs).wf(),
            self.valid_in(*old(fs)),
            old(fs).is_dir(self.id(*old(fs))),
        ensures
            final(fs).wf(),
            final(fs).keeps_files(*old(fs)),
            r is None <==> (name@.len() == 0 || old(fs).dir_lookup(self.id(*old(fs)), name@) is Some
                || old(fs).dir_full(self.id(*old(fs))) || old(fs).inodes_exhausted()),
            r is None ==> *final(fs) == *old(fs),
            r matches Some(h) ==> {
                &&& h.valid_in(*final(fs))
                &&& final(fs).created(*old(fs), self.id(*old(fs)), name@, h.id(*final(fs)))
            },
    {
        let dir = self.inode_index(fs);
        let owned = name.to_owned();
        if owned == String::new() {
            proof {
                assert(name@ =~= Seq::<char>::empty());
            }
            return None;
        }
        proof {
            if name@.len() == 0 {
                assert(name@ =~= Seq::<char>::empty());
            }
        }
        if Self::find_inode_id(fs, dir, &owned).is_some() {
            return None;
        }
        if fs.inodes[dir as usize].entries.len() as u64 * 32 + 32 > u32::MAX as u64 {
            return None;
        }
        let ghost o = *fs;
        let id = match fs.alloc_inode() {
            None => {
                return None;
            },
            Some(id) => id,
        };
        let ghost a = *fs;
        fs.set_hard_linked(id, 1);
        let ghost b = *fs;
        proof {
            assert(dir != id);
            assert(b.is_dir(dir as int));
            assert(b.entries(dir as int) == o.entries(dir as int));
        }
        fs.dir_append(dir, owned, id);
        let h = Inode::of_id(fs, id);
        proof {
            let s = *fs;
            assert(s.inode_used(id as int));
            assert forall|i: int| #[trigger] o.inode_used(i) implies s.inode_used(i) by {
                assert(a.inode_used(i));
                assert(b.inode_used(i));
            }
            assert forall|i: int| #[trigger] o.is_file(i) implies {
                &&& s.is_file(i)
                &&& s.inodes@[i].size == o.inodes@[i].size
                &&& s.inodes@[i].blocks@ == o.inodes@[i].blocks@
            } by {
                assert(a.inode_used(i));
                assert(b.is_file(i));
            }
            assert forall|j: int| 0 <= j < s.inodes@.len() && j != dir && j != id
                implies #[trigger] s.inodes@[j] == o.inodes@[j] by {
                assert(s.inodes@[j] == b.inodes@[j]);
                assert(b.inodes@[j] == a.inodes@[j]);
            }
            assert(s.is_file(id as int));
        }
        Some(h)
    }

    /// Adds entry `new_name` to this directory for the inode that
    /// `old_name` names, and counts the new link. 0 on success; -1, with
    /// nothing changed, when `old_name` names nothing, `new_name` is empty
    /// or already names an entry, the directory is full, or the link count
    /// is at its largest value.
    pub fn create_a_hard_link(&self, fs: &mut EasyFileSystem, old_name: &str, new_name: &str) -> (r: isize)
        requires
            old(fs).wf(),
            self.valid_in(*old(fs)),
            old(fs).is_dir(self.id(*old(fs))),
        ensures
            final(fs).wf(),
            final(fs).keeps_files(*old(fs)),
            r == 0 || r == -1,
            ({
                let dir = self.id(*old(fs));
                let t = old(fs).dir_lookup(dir, old_name@);
                &&& r == 0 <==> (t is Some && new_name@.len() > 0
                    && old(fs).dir_lookup(dir, new_name@) is None && !old(fs).dir_full(dir)
                    && old(fs).inode(t->0 as int).hard_linked < u32::MAX)
                &&& r == -1 ==> *final(fs) == *old(fs)
                &&& r == 0 ==> final(fs).linked(*old(fs), dir, new_name@, t->0 as int)
            }),
    {
        let dir = self.inode_index(fs);
        let old_owned = old_name.to_owned();
        let target = match Self::find_inode_id(fs, dir, &old_owned) {
            None => {
                return -1;
            },
            Some(t) => t,
        };
        let new_owned = new_name.to_owned();
        if new_owned == String::new() {
            proof {
                assert(new_name@ =~= Seq::<char>::empty());
            }
            return -1;
        }
        proof {
            if new_name@.len() == 0 {
                assert(new_name@ =~= Seq::<char>::empty());
            }
        }
        if Self::find_inode_id(fs, dir, &new_owned).is_some() {
            return -1;
        }
        if fs.inodes[dir as usize].entries.len() as u64 * 32 + 32 > u32::MAX as u64 {
            return -1;
        }
        let count = fs.inodes[target as usize].hard_linked;
        if count == u32::MAX {
            return -1;
        }
        let ghost o = *fs;
        fs.dir_append(dir, new_owned, target);
        let ghost a = *fs;
        let c = fs.inodes[target as usize].hard_linked;
        assert(c == count);
        fs.set_hard_linked(target, c + 1);
        proof {
            let s = *fs;
            assert forall|i: int| #[trigger] o.inode_used(i) implies s.inode_used(i) by {
                assert(a.inode_used(i));
            }
            assert forall|i: int| #[trigger] o.is_file(i) implies {
                &&& s.is_file(i)
                &&& s.inodes@[i].size == o.inodes@[i].size
                &&& s.inodes@[i].blocks@ == o.inodes@[i].blocks@
            } by {
                assert(a.is_file(i));
            }
            assert forall|j: int| 0 <= j < s.inodes@.len() && j != dir && j != target
                implies #[trigger] s.inodes@[j] == o.inodes@[j] by {
                assert(s.inodes@[j] == a.inodes@[j]);
            }
            assert(s.entries(dir as int) =~= a.entries(dir as int));
            assert(s.dir_lookup(dir as int, new_name@) == a.dir_lookup(dir as int, new_name@));
        }
        0
    }
}

impl EasyFileSystem {
    /// `self` is `old` with the entry `name` of directory `dir`, which named
    /// `target`, replaced by a tombstone and the link count of `target` one
    /// lower. When that count reaches zero the data blocks of `target` are
    /// released, zero-filled, and, unless a live entry still names it, its
    /// inode id is freed.
    pub open spec fn unlinked(self, old: Self, dir: int, name: Seq<char>, target: int) -> bool {
        let n = if old.inodes@[target].hard_linked > 0 { old.inodes@[target].hard_linked - 1 } else { 0 };
        &&& self.super_block == old.super_block
        &&& self.inodes@.len() == old.inodes@.len()
        &&& self.data_bitmap@.len() == old.data_bitmap@.len()
        &&& self.data_area@.len() == old.data_area@.len()
        &&& forall|j: int| 0 <= j < self.inodes@.len() && j != dir && j != target
            ==> #[trigger] self.inodes@[j] == old.inodes@[j]
        &&& self.entries(dir).len() == old.entries(dir).len()
        &&& forall|k: int| 0 <= k < self.entries(dir).len() ==> #[trigger] self.entries(dir)[k]
            == if old.entries(dir)[k].0 == name { (Seq::<char>::empty(), 0u32) } else { old.entries(dir)[k] }
        &&& self.dir_lookup(dir, name) is None
        &&& self.inodes@[target].hard_linked == n
        &&& self.inodes@[dir].type_ == old.inodes@[dir].type_
        &&& self.inodes@[target].type_ == old.inodes@[target].type_
        &&& target != dir ==> self.inodes@[target].entries@ == old.inodes@[target].entries@
        &&& if n == 0 && old.is_file(target) {
            &&& self.inodes@[target].size == 0
            &&& self.inodes@[target].blocks@.len() == 0
            &&& self.content(target).len() == 0
            &&& forall|c: int| #[trigger] self.data_used(c) <==> (old.data_used(c) && !old.owns(target, c))
            &&& forall|c: int| 0 <= c < old.data_area@.len() && old.owns(target, c)
                ==> (#[trigger] self.data_area@[c])@ == zero_block()
            &&& forall|i: int| #[trigger] old.is_file(i) && i != target ==> self.is_file(i) && self.content(i) == old.content(i)
            &&& self.inode_bitmap@ == if self.referenced(target) {
                old.inode_bitmap@
            } else {
                old.inode_bitmap@.update(target, false)
            }
        } else {
            &&& self.same_data(old)
            &&& self.inode_bitmap@ == old.inode_bitmap@
        }
    }
}

impl Inode {
    /// Removes entry `name` from this directory and takes one from the link
    /// count of the inode it named; when the count reaches zero the file's
    /// data blocks go back to the free pool, zero-filled, and its inode id
    /// is freed unless a live entry still names it. 0 on success; -1, with nothing
    /// changed, when `name` names no entry.
    pub fn delete_a_hard_link(&self, fs: &mut EasyFileSystem, name: &str) -> (r: isize)
        requires
            old(fs).wf(),
            self.valid_in(*old(fs)),
            old(fs).is_dir(self.id(*old(fs))),
        ensures
            final(fs).wf(),
            ({
                let dir = self.id(*old(fs));
                let t = old(fs).dir_lookup(dir, name@);
                &&& t matches Some(target) ==> final(fs).keeps_files_but(*old(fs), target as int)
                &&& r == 0 <==> t is Some
                &&& r == -1 <==> t is None
                &&& t is None ==> *final(fs) == *old(fs)
                &&& t matches Some(target) ==> final(fs).unlinked(*old(fs), dir, name@, target as int)
            }),
    {
        let dir = self.inode_index(fs);
        let owned = name.to_owned();
        let target = match Self::find_inode_id(fs, dir, &owned) {
            None => {
                return -1;
            },
            Some(t) => t,
        };
        let ghost o = *fs;
        fs.dir_remove(dir, &owned);
        let ghost a = *fs;
        let c = fs.inodes[target as usize].hard_linked;
        let n: u32 = if c > 0 { c - 1 } else { 0 };
        fs.set_hard_linked(target, n);
        let ghost b = *fs;
        proof {
            assert(b.inodes@[dir as int].entries@ == a.inodes@[dir as int].entries@);
            assert(b.entries(dir as int) =~= a.entries(dir as int));
            assert forall|i: int| #[trigger] o.inode_used(i) implies b.inode_used(i) by {
                assert(a.inode_used(i));
            }
            assert forall|i: int| #[trigger] o.is_file(i) implies {
                &&& b.is_file(i)
                &&& b.inodes@[i].size == o.inodes@[i].size
                &&& b.inodes@[i].blocks@ == o.inodes@[i].blocks@
            } by {
                assert(a.is_file(i));
            }
            assert forall|j: int| 0 <= j < b.inodes@.len() && j != dir && j != target
                implies #[trigger] b.inodes@[j] == o.inodes@[j] by {
                assert(b.inodes@[j] == a.inodes@[j]);
            }
        }
        if n == 0 && fs.inodes[target as usize].is_file() {
            let _freed = fs.file_clear(target);
            proof {
                let s = *fs;
                assert(target != dir);
                assert(s.inodes@[dir as int] == b.inodes@[dir as int]);
                assert(s.entries(dir as int) =~= b.entries(dir as int));
                assert(s.dir_lookup(dir as int, name@) == b.dir_lookup(dir as int, name@));
                assert forall|j: int| 0 <= j < s.inodes@.len() && j != dir && j != target
                    implies #[trigger] s.inodes@[j] == o.inodes@[j] by {
                    assert(s.inodes@[j] == b.inodes@[j]);
                }
                assert forall|c: int| #[trigger] s.data_used(c) <==> (o.data_used(c) && !o.owns(target as int, c)) by {
                    assert(b.data_used(c) == o.data_used(c));
                    assert(b.owns(target as int, c) == o.owns(target as int, c));
                }
                assert forall|i: int| #[trigger] o.is_file(i) && i != target implies s.is_file(i) && s.content(i) == o.content(i) by {
                    assert(b.is_file(i));
                    b.lemma_same_data_content(o, i);
                }
                assert forall|c: int| 0 <= c < o.data_area@.len() && o.owns(target as int, c)
                    implies (#[trigger] s.data_area@[c])@ == zero_block() by {
                    assert(b.owns(target as int, c));
                }
            }
            if !fs.is_referenced(target) {
                let ghost cl = *fs;
                fs.dealloc_inode(target);
                proof {
                    let s = *fs;
                    let c = cl;
                    assert forall|x: int| #[trigger] s.data_used(x) <==> (o.data_used(x) && !o.owns(target as int, x)) by {
                        assert(cl.data_used(x) == s.data_used(x));
                    }
                    assert forall|x: int| 0 <= x < o.data_area@.len() && o.owns(target as int, x)
                        implies (#[trigger] s.data_area@[x])@ == zero_block() by {
                        assert(cl.data_area@[x] == s.data_area@[x]);
                    }
                    assert(s.entries(dir as int) =~= c.entries(dir as int));
                    assert forall|i: int| #[trigger] o.is_file(i) && i != target implies s.is_file(i) && s.content(i) == o.content(i) by {
                        assert(c.is_file(i));
                        assert(s.content(i) =~= c.content(i));
                    }
                    assert(s.content(target as int) =~= c.content(target as int));
                    assert(!s.referenced(target as int)) by {
                        if s.referenced(target as int) {
                            let (d, k) = choose|d: int, k: int|
                                #![trigger s.inodes@[d].entries@[k]]
                                s.inode_used(d) && 0 <= k < s.inodes@[d].entries@.len()
                                    && !s.inodes@[d].entries@[k].is_tombstone()
                                    && s.inodes@[d].entries@[k].inode_number == target;
                            assert(c.inode_used(d));
                            assert(c.inodes@[d].entries@[k] == s.inodes@[d].entries@[k]);
                        }
                    }
                }
            } else {
                proof {
                    assert(fs.referenced(target as int));
                }
            }
        }
        proof {
            let s = *fs;
            assert(s.inode_bitmap@ == o.inode_bitmap@ || s.inode_bitmap@ == o.inode_bitmap@.update(target as int, false));
            assert(s.inodes@[dir as int].type_ == o.inodes@[dir as int].type_);
            assert forall|i: int| #[trigger] o.inode_used(i) && i != target implies s.inode_used(i) by {
                assert(o.inode_bitmap@[i]);
            }
            assert forall|i: int| #[trigger] o.is_file(i) && i != target implies s.is_file(i) by {
                assert(o.inode_bitmap@[i]);
                if i != dir {
                    assert(s.inodes@[i] == o.inodes@[i]);
                }
            }
            assert forall|i: int| #[trigger] o.is_dir(i) implies s.is_dir(i) by {
                assert(o.inode_bitmap@[i]);
                if i != dir && i != target {
                    assert(s.inodes@[i] == o.inodes@[i]);
                }
            }
            assert(s.keeps_files_but(o, target as int));
            let nn = if o.inodes@[target as int].hard_linked > 0 { o.inodes@[target as int].hard_linked - 1 } else { 0 };
            assert(s.super_block == o.super_block);
            assert(s.data_bitmap@.len() == o.data_bitmap@.len());
            assert(s.data_area@.len() == o.data_area@.len());
            assert(s.entries(dir as int).len() == o.entries(dir as int).len());
            assert(s.dir_lookup(dir as int, name@) is None);
            assert(s.inodes@[target as int].hard_linked == nn);
            assert(s.inodes@[target as int].type_ == o.inodes@[target as int].type_);
            assert forall|j: int| 0 <= j < s.inodes@.len() && j != dir && j != target
                implies #[trigger] s.inodes@[j] == o.inodes@[j] by {
                assert(s.inodes@[j] == b.inodes@[j]);
            }
            if nn == 0 && o.is_file(target as int) {
                assert(s.inodes@[target as int].size == 0);
                assert(s.inodes@[target as int].blocks@.len() == 0);
                assert(s.content(target as int).len() == 0);
                assert(forall|c: int| #[trigger] s.data_used(c) <==> (o.data_used(c) && !o.owns(target as int, c)));
                assert(forall|i: int| #[trigger] o.is_file(i) && i != target ==> s.is_file(i) && s.content(i) == o.content(i));
                assert(s.inode_bitmap@ == if s.referenced(target as int) {
                    o.inode_bitmap@
                } else {
                    o.inode_bitmap@.update(target as int, false)
                });
            } else {
                assert(s.same_data(o));
                assert(s.inode_bitmap@ == o.inode_bitmap@);
            }
        }
        0
    }
}

impl EasyFileSystem {
    /// The handle of the root directory, inode 0.
    pub fn root_inode(&self) -> (r: Inode)
        requires
            self.wf(),
        ensures
            r.valid_in(*self),
            r.id(*self) == 0,
            self.is_dir(r.id(*self)),
    {
        Inode::of_id(self, 0)
    }
}

} // verus!
