use vstd::prelude::*;
use crate::efs::EasyFileSystem;
use crate::layout::{DirEntry, DIRENT_SZ};

verus! {

impl EasyFileSystem {
    /// No file's bytes or blocks changed, no inode was released, and the
    /// data area and its bitmap are as in `old`.
    pub open spec fn same_data(self, old: Self) -> bool {
        &&& self.data_bitmap@ == old.data_bitmap@
        &&& self.data_area@ == old.data_area@
        &&& self.super_block == old.super_block
        &&& self.inodes@.len() == old.inodes@.len()
        &&& forall|i: int| #[trigger] old.inode_used(i) ==> self.inode_used(i)
        &&& forall|i: int| #[trigger] old.is_file(i) ==> {
            &&& self.is_file(i)
            &&& self.inodes@[i].size == old.inodes@[i].size
            &&& self.inodes@[i].blocks@ == old.inodes@[i].blocks@
        }
    }

    /// Every inode in use in `old` is still in use, with the same kind.
    pub open spec fn keeps_files(self, old: Self) -> bool {
        &&& self.super_block == old.super_block
        &&& self.inodes@.len() == old.inodes@.len()
        &&& forall|i: int| #[trigger] old.inode_used(i) ==> self.inode_used(i)
        &&& forall|i: int| #[trigger] old.is_file(i) ==> self.is_file(i)
        &&& forall|i: int| #[trigger] old.is_dir(i) ==> self.is_dir(i)
    }

    /// As `keeps_files`, except that inode `t` may have been released.
    pub open spec fn keeps_files_but(self, old: Self, t: int) -> bool {
        &&& self.super_block == old.super_block
        &&& self.inodes@.len() == old.inodes@.len()
        &&& forall|i: int| #[trigger] old.inode_used(i) && i != t ==> self.inode_used(i)
        &&& forall|i: int| #[trigger] old.is_file(i) && i != t ==> self.is_file(i)
        &&& forall|i: int| #[trigger] old.is_dir(i) ==> self.is_dir(i)
    }

    pub proof fn lemma_same_data_content(self, old: Self, i: int)
        requires
            self.same_data(old),
            old.is_file(i),
        ensures
            self.content(i) == old.content(i),
    {
        assert(self.content(i) =~= old.content(i));
    }

    /// Directory `dir` has no room for one more entry.
    pub open spec fn dir_full(self, dir: int) -> bool {
        self.inodes@[dir].entries@.len() * 32 + 32 > u32::MAX
    }

    /// `self` is `old` with entry `(name, target)` appended to directory `dir`.
    pub open spec fn appended(self, old: Self, dir: int, name: Seq<char>, target: u32) -> bool {
        &&& self.same_data(old)
        &&& self.inode_bitmap@ == old.inode_bitmap@
        &&& forall|j: int| 0 <= j < self.inodes@.len() && j != dir ==> #[trigger] self.inodes@[j] == old.inodes@[j]
        &&& self.entries(dir) == old.entries(dir).push((name, target))
        &&& self.inodes@[dir].hard_linked == old.inodes@[dir].hard_linked
        &&& self.inodes@[dir].type_ == old.inodes@[dir].type_
    }

    /// Appends `(name, target)` to directory `dir`.
    pub fn dir_append(&mut self, dir: u32, name: String, target: u32)
        requires
            old(self).wf(),
            old(self).is_dir(dir as int),
            old(self).inode_used(target as int),
            name@.len() > 0,
            old(self).dir_lookup(dir as int, name@) is None,
            !old(self).dir_full(dir as int),
        ensures
            final(self).wf(),
            final(self).appended(*old(self), dir as int, name@, target),
            final(self).dir_lookup(dir as int, name@) == Some(target),
    {
        let ghost o = *old(self);
        let ghost nm = name@;
        assert(o.inode_used(dir as int));
        assert(o.inode_wf(dir as int));
        let size = self.inodes[dir as usize].size;
        self.inodes[dir as usize].entries.push(DirEntry { name, inode_number: target });
        self.inodes[dir as usize].size = size + DIRENT_SZ as u32;
        proof {
            let s = *self;
            let es = s.inodes@[dir as int].entries@;
            let n = es.len() - 1;
            assert forall|k: int| 0 <= k < n implies (#[trigger] o.entries(dir as int)[k]).0 != nm by {
                if o.entries(dir as int)[k].0 == nm {
                    assert(exists|k: int| 0 <= k < o.entries(dir as int).len() && o.entries(dir as int)[k].0 == nm);
                }
            }
            assert forall|k1: int, k2: int|
                0 <= k1 < es.len() && 0 <= k2 < es.len() && k1 != k2 && !es[k1].is_tombstone()
                implies #[trigger] es[k1].name@ != #[trigger] es[k2].name@ by {
                if k1 == n {
                    assert(o.entries(dir as int)[k2].0 == es[k2].name@);
                } else if k2 == n {
                    assert(o.entries(dir as int)[k1].0 == es[k1].name@);
                }
            }
            assert(s.inode_wf(dir as int));
            assert forall|i: int| #[trigger] s.inode_used(i) implies s.inode_wf(i) by {
                assert(o.inode_used(i));
                assert(o.inode_wf(i));
            }
            assert forall|i1: int, k1: int, i2: int, k2: int|
                s.inode_used(i1) && s.inode_used(i2)
                    && 0 <= k1 < s.inodes@[i1].blocks@.len()
                    && 0 <= k2 < s.inodes@[i2].blocks@.len()
                    && #[trigger] s.inodes@[i1].blocks@[k1] == #[trigger] s.inodes@[i2].blocks@[k2]
                implies i1 == i2 && k1 == k2 by {
                assert(o.inodes@[i1].blocks@[k1] == o.inodes@[i2].blocks@[k2]);
            }
            assert(s.entries(dir as int) =~= o.entries(dir as int).push((nm, target)));
            assert(s.entries(dir as int)[n].0 == nm);
            let k = choose|k: int| 0 <= k < s.entries(dir as int).len() && s.entries(dir as int)[k].0 == nm;
            if k != n {
                assert(es[n].name@ != es[k].name@);
            }
        }
    }

    /// `self` is `old` with every entry of directory `dir` named `name`
    /// replaced by a tombstone.
    pub open spec fn removed(self, old: Self, dir: int, name: Seq<char>) -> bool {
        &&& self.same_data(old)
        &&& self.inode_bitmap@ == old.inode_bitmap@
        &&& forall|j: int| 0 <= j < self.inodes@.len() && j != dir ==> #[trigger] self.inodes@[j] == old.inodes@[j]
        &&& self.entries(dir).len() == old.entries(dir).len()
        &&& forall|k: int| 0 <= k < self.entries(dir).len() ==> #[trigger] self.entries(dir)[k]
            == if old.entries(dir)[k].0 == name { (Seq::<char>::empty(), 0u32) } else { old.entries(dir)[k] }
        &&& self.inodes@[dir].hard_linked == old.inodes@[dir].hard_linked
        &&& self.inodes@[dir].type_ == old.inodes@[dir].type_
    }

    /// Replaces the entries of directory `dir` named `name` by tombstones.
    pub fn dir_remove(&mut self, dir: u32, name: &String)
        requires
            old(self).wf(),
            old(self).is_dir(dir as int),
        ensures
            final(self).wf(),
            final(self).removed(*old(self), dir as int, name@),
            final(self).dir_lookup(dir as int, name@) is None,
    {
        let ghost o = *old(self);
        assert(o.inode_used(dir as int));
        assert(o.inode_wf(dir as int));
        let n = self.inodes[dir as usize].entries.len();
        let mut i: usize = 0;
        while i < n
            invariant
                o == *old(self),
                o.wf(),
                o.inode_used(dir as int),
                o.inode_wf(dir as int),
                n == o.inodes@[dir as int].entries@.len(),
                i <= n,
                self.inodes@.len() == o.inodes@.len(),
                self.inode_bitmap@ == o.inode_bitmap@,
                self.data_bitmap@ == o.data_bitmap@,
                self.data_area@ == o.data_area@,
                self.super_block == o.super_block,
                forall|j: int| 0 <= j < self.inodes@.len() && j != dir ==> #[trigger] self.inodes@[j] == o.inodes@[j],
                self.inodes@[dir as int].size == o.inodes@[dir as int].size,
                self.inodes@[dir as int].hard_linked == o.inodes@[dir as int].hard_linked,
                self.inodes@[dir as int].type_ == o.inodes@[dir as int].type_,
                self.inodes@[dir as int].blocks@ == o.inodes@[dir as int].blocks@,
                self.inodes@[dir as int].entries@.len() == n,
                forall|k: int| 0 <= k < n ==> #[trigger] self.inodes@[dir as int].entries@[k]@
                    == if k < i && o.entries(dir as int)[k].0 == name@ {
                        (Seq::<char>::empty(), 0u32)
                    } else {
                        o.entries(dir as int)[k]
                    },
            decreases n - i,
        {
            let ghost prev = self.inodes@[dir as int].entries@;
            assert(prev[i as int]@ == o.entries(dir as int)[i as int]);
            if self.inodes[dir as usize].entries[i].name == *name {
                self.inodes[dir as usize].entries.set(i, DirEntry::empty());
            }
            proof {
                assert forall|k: int| 0 <= k < n implies #[trigger] self.inodes@[dir as int].entries@[k]@
                    == if k < i + 1 && o.entries(dir as int)[k].0 == name@ {
                        (Seq::<char>::empty(), 0u32)
                    } else {
                        o.entries(dir as int)[k]
                    } by {
                    if k != i {
                        assert(self.inodes@[dir as int].entries@[k] == prev[k]);
                    }
                }
            }
            i = i + 1;
        }
        proof {
            let s = *self;
            let es = s.inodes@[dir as int].entries@;
            let oes = o.inodes@[dir as int].entries@;
            assert forall|k: int| 0 <= k < n implies #[trigger] s.entries(dir as int)[k]
                == if o.entries(dir as int)[k].0 == name@ { (Seq::<char>::empty(), 0u32) } else { o.entries(dir as int)[k] } by {
                assert(es[k]@ == s.entries(dir as int)[k]);
            }
            assert forall|k: int| #![trigger es[k]]
                0 <= k < es.len() && !es[k].is_tombstone() implies s.inode_used(es[k].inode_number as int) by {
                assert(es[k]@ == s.entries(dir as int)[k]);
                assert(oes[k]@ == o.entries(dir as int)[k]);
                assert(o.inode_used(oes[k].inode_number as int));
            }
            assert forall|k1: int, k2: int|
                0 <= k1 < es.len() && 0 <= k2 < es.len() && k1 != k2 && !es[k1].is_tombstone()
                implies #[trigger] es[k1].name@ != #[trigger] es[k2].name@ by {
                assert(es[k1]@ == s.entries(dir as int)[k1]);
                assert(es[k2]@ == s.entries(dir as int)[k2]);
                assert(oes[k1]@ == o.entries(dir as int)[k1]);
                assert(oes[k2]@ == o.entries(dir as int)[k2]);
            }
            assert(s.inode_wf(dir as int));
            assert forall|i: int| #[trigger] s.inode_used(i) implies s.inode_wf(i) by {
                assert(o.inode_used(i));
                assert(o.inode_wf(i));
            }
            assert forall|i1: int, k1: int, i2: int, k2: int|
                s.inode_used(i1) && s.inode_used(i2)
                    && 0 <= k1 < s.inodes@[i1].blocks@.len()
                    && 0 <= k2 < s.inodes@[i2].blocks@.len()
                    && #[trigger] s.inodes@[i1].blocks@[k1] == #[trigger] s.inodes@[i2].blocks@[k2]
                implies i1 == i2 && k1 == k2 by {
                assert(o.inodes@[i1].blocks@[k1] == o.inodes@[i2].blocks@[k2]);
            }
            if name@.len() > 0 {
                assert forall|k: int| 0 <= k < s.entries(dir as int).len() implies s.entries(dir as int)[k].0 != name@ by {
                    assert(es[k]@ == s.entries(dir as int)[k]);
                }
            }
        }
    }
}

impl EasyFileSystem {
    /// Some live entry of some inode in use names inode `t`.
    pub open spec fn referenced(self, t: int) -> bool {
        exists|d: int, k: int|
            #![trigger self.inodes@[d].entries@[k]]
            self.inode_used(d) && 0 <= k < self.inodes@[d].entries@.len()
                && !self.inodes@[d].entries@[k].is_tombstone()
                && self.inodes@[d].entries@[k].inode_number == t
    }

    /// Does a live entry of any inode in use name inode `t`?
    pub fn is_referenced(&self, t: u32) -> (r: bool)
        requires
            self.wf(),
        ensures
            r == self.referenced(t as int),
    {
        let mut d: usize = 0;
        while d < self.inodes.len()
            invariant
                self.wf(),
                d <= self.inodes@.len(),
                forall|dd: int, k: int| 0 <= dd < d && self.inode_used(dd) && 0 <= k < self.inodes@[dd].entries@.len()
                    && !self.inodes@[dd].entries@[k].is_tombstone()
                    ==> #[trigger] self.inodes@[dd].entries@[k].inode_number != t,
            decreases self.inodes@.len() - d,
        {
            if self.inode_bitmap[d] {
                let es = &self.inodes[d].entries;
                let mut k: usize = 0;
                while k < es.len()
                    invariant
                        self.wf(),
                        d < self.inodes@.len(),
                        self.inode_used(d as int),
                        es == &self.inodes@[d as int].entries,
                        k <= es@.len(),
                        forall|dd: int, kk: int| 0 <= dd < d && self.inode_used(dd) && 0 <= kk < self.inodes@[dd].entries@.len()
                            && !self.inodes@[dd].entries@[kk].is_tombstone()
                            ==> #[trigger] self.inodes@[dd].entries@[kk].inode_number != t,
                        forall|kk: int| 0 <= kk < k && !es@[kk].is_tombstone() ==> #[trigger] es@[kk].inode_number != t,
                    decreases es@.len() - k,
                {
                    if es[k].inode_number == t && es[k].name != String::new() {
                        proof {
                            if es@[k as int].name@.len() == 0 {
                                assert(es@[k as int].name@ =~= Seq::<char>::empty());
                            }
                            assert(self.inodes@[d as int].entries@[k as int].inode_number == t);
                        }
                        return true;
                    }
                    proof {
                        if es@[k as int].inode_number == t {
                            assert(es@[k as int].name@ =~= Seq::<char>::empty());
                        }
                    }
                    k = k + 1;
                }
            }
            d = d + 1;
        }
        false
    }

    /// Marks inode `id` free. It must be a file with no data block that no
    /// live entry names.
    pub fn dealloc_inode(&mut self, id: u32)
        requires
            old(self).wf(),
            old(self).is_file(id as int),
            old(self).inodes@[id as int].blocks@.len() == 0,
            !old(self).referenced(id as int),
        ensures
            final(self).wf(),
            final(self).inode_bitmap@ == old(self).inode_bitmap@.update(id as int, false),
            final(self).inodes == old(self).inodes,
            final(self).data_bitmap == old(self).data_bitmap,
            final(self).data_area == old(self).data_area,
            final(self).super_block == old(self).super_block,
    {
        self.inode_bitmap.set(id as usize, false);
        proof {
            let s = *self;
            let o = *old(self);
            assert forall|i: int| #[trigger] s.inode_used(i) implies s.inode_wf(i) by {
                assert(o.inode_used(i));
                assert(o.inode_wf(i));
                let d = s.inodes@[i];
                assert forall|k: int| #![trigger d.entries@[k]]
                    0 <= k < d.entries@.len() && !d.entries@[k].is_tombstone()
                    implies s.inode_used(d.entries@[k].inode_number as int) by {
                    assert(o.inode_used(d.entries@[k].inode_number as int));
                    if d.entries@[k].inode_number == id {
                        assert(o.referenced(id as int));
                    }
                }
            }
        }
    }
}

} // verus!
