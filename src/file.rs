use vstd::prelude::*;
use crate::data::{overwrite, read_len, zero_extend};
use crate::layout::blocks_for;
use crate::efs::EasyFileSystem;
use crate::vfs::Inode;

verus! {

/// Flags of an `open` request.
#[derive(Clone, Copy, Debug, PartialEq, Eq, Structural)]
pub struct OpenFlags {
    pub bits: u32,
}

pub const RDONLY: u32 = 0;
pub const WRONLY: u32 = 1;
pub const RDWR: u32 = 2;
pub const CREATE: u32 = 512;
pub const TRUNC: u32 = 1024;

/// The bits that some flag uses.
pub const ALL_FLAGS: u32 = 1539;

impl OpenFlags {
    /// The flags whose bits are `bits`; `None` when a bit names no flag.
    pub fn from_bits(bits: u32) -> (r: Option<OpenFlags>)
        ensures
            r is Some <==> bits & !ALL_FLAGS == 0,
            r matches Some(f) ==> f.bits == bits,
    {
        if bits & !ALL_FLAGS == 0 {
            Some(OpenFlags { bits })
        } else {
            None
        }
    }

    pub fn is_empty(&self) -> (r: bool)
        ensures
            r == (self.bits == 0),
    {
        self.bits == 0
    }

    pub fn contains(&self, flag: u32) -> (r: bool)
        ensures
            r == (self.bits & flag == flag),
    {
        self.bits & flag == flag
    }

    /// `(readable, writable)`: no flag reads only, `WRONLY` writes only,
    /// anything else does both.
    pub fn read_write(&self) -> (r: (bool, bool))
        ensures
            r == if self.bits == 0 {
                (true, false)
            } else if self.bits & WRONLY == WRONLY {
                (false, true)
            } else {
                (true, true)
            },
    {
        if self.is_empty() {
            (true, false)
        } else if self.contains(WRONLY) {
            (false, true)
        } else {
            (true, true)
        }
    }
}

/// Kind of an inode as `fstat` reports it.
#[derive(Clone, Copy, Debug, PartialEq, Eq, Structural)]
pub enum StatMode {
    Null,
    Dir,
    File,
}

/// What `fstat` reports of an open file.
#[derive(Clone, Copy, Debug, PartialEq, Eq, Structural)]
pub struct Stat {
    pub dev: u64,
    pub ino: u64,
    pub mode: StatMode,
    pub nlink: u32,
}

/// The changing part of an open file: the offset of the next read or
/// write, and the handle.
#[derive(Clone, Copy, Debug, PartialEq, Eq, Structural)]
pub struct OSInodeInner {
    pub offset: usize,
    pub inode: Inode,
}

/// An open file: the access it was opened with, and its offset and handle.
#[derive(Clone, Copy, Debug, PartialEq, Eq, Structural)]
pub struct OSInode {
    pub readable: bool,
    pub writable: bool,
    pub inner: OSInodeInner,
}

impl OSInode {
    pub fn new(readable: bool, writable: bool, inode: Inode) -> (r: OSInode)
        ensures
            r.readable == readable,
            r.writable == writable,
            r.inner.offset == 0,
            r.inner.inode == inode,
    {
        OSInode { readable, writable, inner: OSInodeInner { offset: 0, inode } }
    }

    pub fn readable(&self) -> (r: bool)
        ensures
            r == self.readable,
    {
        self.readable
    }

    pub fn writable(&self) -> (r: bool)
        ensures
            r == self.writable,
    {
        self.writable
    }

    /// Reads from the current offset into `buf` and moves the offset past
    /// what was read.
    pub fn read(&mut self, fs: &EasyFileSystem, buf: &mut [u8]) -> (n: usize)
        requires
            fs.wf(),
            old(self).inner.inode.valid_in(*fs),
            fs.is_file(old(self).inner.inode.id(*fs)),
        ensures
            n == read_len(fs.inode(old(self).inner.inode.id(*fs)).size as nat, old(self).inner.offset as nat, old(buf)@.len()),
            final(buf)@.len() == old(buf)@.len(),
            forall|k: int| 0 <= k < n ==> final(buf)@[k] == #[trigger] fs.content(old(self).inner.inode.id(*fs))[old(self).inner.offset + k],
            final(buf)@.subrange(n as int, old(buf)@.len() as int)
                == old(buf)@.subrange(n as int, old(buf)@.len() as int),
            final(self).inner.offset == old(self).inner.offset + n,
            final(self).inner.inode == old(self).inner.inode,
            final(self).readable == old(self).readable,
            final(self).writable == old(self).writable,
    {
        let n = self.inner.inode.read_at(fs, self.inner.offset, buf);
        self.inner.offset = self.inner.offset + n;
        n
    }

    /// Writes `buf` at the current offset and moves the offset past what
    /// was written. Writes nothing and returns 0 when too few data blocks
    /// are free.
    pub fn write(&mut self, fs: &mut EasyFileSystem, buf: &[u8]) -> (n: usize)
        requires
            old(fs).wf(),
            old(self).inner.inode.valid_in(*old(fs)),
            old(fs).is_file(old(self).inner.inode.id(*old(fs))),
            old(self).inner.offset + buf@.len() <= u32::MAX,
        ensures
            final(fs).wf(),
            final(fs).keeps_files(*old(fs)),
            final(self).inner.inode == old(self).inner.inode,
            final(self).readable == old(self).readable,
            final(self).writable == old(self).writable,
            final(self).inner.offset == old(self).inner.offset + n,
            ({
                let i = old(self).inner.inode.id(*old(fs));
                let offset = old(self).inner.offset;
                let size = old(fs).inode(i).size;
                let end = (offset + buf@.len()) as nat;
                let fits = end <= size || blocks_for(end) - blocks_for(size as nat) <= old(fs).free_data().len();
                &&& fits ==> {
                    &&& n == buf@.len()
                    &&& final(fs).only_file_changed(*old(fs), i)
                    &&& final(fs).grew_blocks(*old(fs), i)
                    &&& final(fs).inode(i).blocks@.len() == blocks_for(final(fs).inode(i).size as nat)
                    &&& final(fs).content(i) == overwrite(
                        zero_extend(old(fs).content(i), if end <= size { size as nat } else { end }),
                        offset as int, buf@)
                }
                &&& !fits ==> n == 0 && *final(fs) == *old(fs)
            }),
    {
        let n = self.inner.inode.write_at(fs, self.inner.offset, buf);
        self.inner.offset = self.inner.offset + n;
        n
    }

    /// Reads from the current offset to the end of the file.
    pub fn read_all(&mut self, fs: &EasyFileSystem) -> (v: Vec<u8>)
        requires
            fs.wf(),
            old(self).inner.inode.valid_in(*fs),
            fs.is_file(old(self).inner.inode.id(*fs)),
        ensures
            ({
                let c = fs.content(old(self).inner.inode.id(*fs));
                &&& v@ == if old(self).inner.offset < c.len() { c.subrange(old(self).inner.offset as int, c.len() as int) } else { Seq::empty() }
                &&& final(self).inner.offset == if old(self).inner.offset < c.len() { c.len() as int } else { old(self).inner.offset as int }
            }),
            final(self).inner.inode == old(self).inner.inode,
            final(self).readable == old(self).readable,
            final(self).writable == old(self).writable,
    {
        let ghost c = fs.content(self.inner.inode.id(*fs));
        let ghost size = c.len();
        let ghost off0 = self.inner.offset;
        let mut v: Vec<u8> = Vec::new();
        loop
            invariant
                fs.wf(),
                self.inner.inode == old(self).inner.inode,
                self.readable == old(self).readable,
                self.writable == old(self).writable,
                self.inner.inode.valid_in(*fs),
                fs.is_file(self.inner.inode.id(*fs)),
                c == fs.content(self.inner.inode.id(*fs)),
                size == c.len(),
                size == fs.inode(self.inner.inode.id(*fs)).size,
                off0 == old(self).inner.offset,
                off0 < size ==> off0 <= self.inner.offset <= size && v@ == c.subrange(off0 as int, self.inner.offset as int),
                off0 >= size ==> self.inner.offset == off0 && v@.len() == 0,
            ensures
                off0 < size ==> self.inner.offset == size && v@ == c.subrange(off0 as int, size as int),
                off0 >= size ==> self.inner.offset == off0 && v@.len() == 0,
            decreases (size + 1) - (if self.inner.offset <= size { self.inner.offset as int } else { size as int }),
        {
            let mut chunk = crate::efs::new_zero_block();
            let ghost o_off = self.inner.offset;
            let n = self.read(fs, chunk.as_mut_slice());
            if n == 0 {
                break;
            }
            let mut j: usize = 0;
            let ghost before = v@;
            while j < n
                invariant
                    j <= n,
                    n <= chunk@.len(),
                    v@ == before + chunk@.subrange(0, j as int),
                decreases n - j,
            {
                v.push(chunk[j]);
                proof {
                    assert(chunk@.subrange(0, j as int + 1) =~= chunk@.subrange(0, j as int).push(chunk@[j as int]));
                }
                j = j + 1;
            }
            proof {
                assert forall|k: int| 0 <= k < n implies chunk@.subrange(0, n as int)[k] == c.subrange(o_off as int, self.inner.offset as int)[k] by {
                    assert(chunk@[k] == c[o_off + k]);
                }
                assert(chunk@.subrange(0, n as int) =~= c.subrange(o_off as int, self.inner.offset as int));
                assert(c.subrange(off0 as int, self.inner.offset - n) + c.subrange(self.inner.offset - n, self.inner.offset as int)
                    =~= c.subrange(off0 as int, self.inner.offset as int));
            }
        }
        v
    }

    /// `(inode id, kind, link count)` of this file, asked of directory `root`.
    pub fn fstat(&self, fs: &EasyFileSystem, root: &Inode) -> (r: (u64, StatMode, u32))
        requires
            fs.wf(),
            self.inner.inode.valid_in(*fs),
        ensures
            ({
                let i = self.inner.inode.id(*fs);
                r == (i as u64, if fs.is_dir(i) { StatMode::Dir } else { StatMode::File }, fs.inode(i).hard_linked)
            }),
    {
        let (ino, kind, nlink) = root.fstat(fs, &self.inner.inode);
        let mode = if kind == 0 {
            StatMode::Dir
        } else if kind == 1 {
            StatMode::File
        } else {
            StatMode::Null
        };
        (ino, mode, nlink)
    }
}

} // verus!
