use vstd::prelude::*;
use crate::data::{overwrite, read_len, zero_extend};
use crate::efs::EasyFileSystem;
use crate::layout::blocks_for;
use crate::lemmas::{
    lemma_create_counts_links, lemma_file_change_counts_links, lemma_link_counts_links,
    lemma_lookup_used, lemma_unlink_counts_links, links_counted,
};
use crate::file::{OpenFlags, OSInode, OSInodeInner, Stat, StatMode, ALL_FLAGS, CREATE, TRUNC, WRONLY};
use crate::vfs::Inode;

verus! {

/// Does opening `name` in directory `dir` with flag bits `bits` succeed?
/// A name that resolves must name a file; a missing one is made only with
/// `CREATE`, and only when the name is not empty, the directory has room
/// and an inode is free.
pub open spec fn open_succeeds(fs: EasyFileSystem, dir: int, name: Seq<char>, bits: u32) -> bool {
    match fs.dir_lookup(dir, name) {
        Some(id) => fs.is_file(id as int),
        None => bits & CREATE == CREATE && name.len() > 0 && !fs.dir_full(dir) && !fs.inodes_exhausted(),
    }
}

/// Opens `name` in directory `root`. With `CREATE` an existing file is
/// emptied and a missing one made; without it a missing name gives
/// `None`, and `TRUNC` empties the file found. A name that names a
/// directory gives `None`.
pub fn open_file(fs: &mut EasyFileSystem, root: &Inode, name: &str, flags: OpenFlags) -> (r: Option<OSInode>)
    requires
        old(fs).wf(),
        root.valid_in(*old(fs)),
        old(fs).is_dir(root.id(*old(fs))),
    ensures
        final(fs).wf(),
        final(fs).keeps_files(*old(fs)),
        ({
            let dir = root.id(*old(fs));
            let t = old(fs).dir_lookup(dir, name@);
            let create = flags.bits & CREATE == CREATE;
            let trunc = flags.bits & TRUNC == TRUNC;
            &&& r is Some <==> open_succeeds(*old(fs), dir, name@, flags.bits)
            &&& r matches Some(f) ==> {
                &&& f.inner.inode.valid_in(*final(fs))
                &&& final(fs).is_file(f.inner.inode.id(*final(fs)))
                &&& f.inner.offset == 0
                &&& (f.readable, f.writable) == (if flags.bits == 0 {
                    (true, false)
                } else if flags.bits & WRONLY == WRONLY {
                    (false, true)
                } else {
                    (true, true)
                })
            }
            &&& t matches Some(id) ==> {
                &&& (r is Some <==> old(fs).is_file(id as int))
                &&& r matches Some(f) ==> {
                    &&& f.inner.inode.id(*final(fs)) == id
                    &&& (create || trunc) ==> {
                        &&& final(fs).content(id as int).len() == 0
                        &&& final(fs).only_file_changed(*old(fs), id as int)
                    }
                    &&& !(create || trunc) ==> *final(fs) == *old(fs)
                }
                &&& r is None ==> *final(fs) == *old(fs)
            }
            &&& t is None && !create ==> r is None && *final(fs) == *old(fs)
            &&& t is None && create ==> {
                &&& r is None <==> (name@.len() == 0 || old(fs).dir_full(dir) || old(fs).inodes_exhausted())
                &&& r is None ==> *final(fs) == *old(fs)
                &&& r matches Some(f) ==> final(fs).created(*old(fs), dir, name@, f.inner.inode.id(*final(fs)))
            }
        }),
{
    let (readable, writable) = flags.read_write();
    match root.find(fs, name) {
        Some(inode) => {
            if inode.get_inode_mode(fs) != 1 {
                return None;
            }
            if flags.contains(CREATE) || flags.contains(TRUNC) {
                inode.clear(fs);
            }
            Some(OSInode::new(readable, writable, inode))
        },
        None => {
            if flags.contains(CREATE) {
                match root.create(fs, name) {
                    Some(inode) => Some(OSInode::new(readable, writable, inode)),
                    None => None,
                }
            } else {
                None
            }
        },
    }
}

/// Links `new_name` to what `old_name` names, in directory `root`.
pub fn linkat(fs: &mut EasyFileSystem, root: &Inode, old_name: &str, new_name: &str) -> (r: isize)
    requires
        old(fs).wf(),
        root.valid_in(*old(fs)),
        old(fs).is_dir(root.id(*old(fs))),
    ensures
        final(fs).wf(),
        final(fs).keeps_files(*old(fs)),
        ({
            let dir = root.id(*old(fs));
            let t = old(fs).dir_lookup(dir, old_name@);
            &&& r == 0 <==> (t is Some && new_name@.len() > 0
                && old(fs).dir_lookup(dir, new_name@) is None && !old(fs).dir_full(dir)
                && old(fs).inode(t->0 as int).hard_linked < u32::MAX)
            &&& r != 0 ==> r == -1 && *final(fs) == *old(fs)
            &&& r == 0 ==> final(fs).linked(*old(fs), dir, new_name@, t->0 as int)
        }),
{
    root.create_a_hard_link(fs, old_name, new_name)
}

/// Removes the link `name` from directory `root`.
pub fn unlinkat(fs: &mut EasyFileSystem, root: &Inode, name: &str) -> (r: isize)
    requires
        old(fs).wf(),
        root.valid_in(*old(fs)),
        old(fs).is_dir(root.id(*old(fs))),
    ensures
        final(fs).wf(),
        ({
            let dir = root.id(*old(fs));
            let t = old(fs).dir_lookup(dir, name@);
            &&& t matches Some(target) ==> final(fs).keeps_files_but(*old(fs), target as int)
            &&& r == 0 <==> t is Some
            &&& r == -1 <==> t is None
            &&& t is None ==> *final(fs) == *old(fs)
            &&& t matches Some(target) ==> final(fs).unlinked(*old(fs), dir, name@, target as int)
        }),
{
    root.delete_a_hard_link(fs, name)
}

/// The filesystem, its root directory, and one process's table of open
/// files, indexed by file descriptor.
pub struct Kernel {
    pub fs: EasyFileSystem,
    pub root: Inode,
    pub fd_table: Vec<Option<OSInode>>,
}

/// Handles valid in `old` stay valid in `new`, with the same ids.
pub proof fn lemma_handle_kept(new: EasyFileSystem, old: EasyFileSystem, h: Inode)
    requires
        new.keeps_files(old),
        h.valid_in(old),
    ensures
        h.valid_in(new),
        h.id(new) == h.id(old),
        old.is_file(h.id(old)) ==> new.is_file(h.id(new)),
        old.is_dir(h.id(old)) ==> new.is_dir(h.id(new)),
{
    assert(old.inode_used(h.id(old)));
}

/// As `lemma_handle_kept`, where inode `t` may have been released and the
/// handle names another inode or a directory.
pub proof fn lemma_handle_kept_but(new: EasyFileSystem, old: EasyFileSystem, h: Inode, t: int)
    requires
        new.keeps_files_but(old, t),
        h.valid_in(old),
        h.id(old) != t || old.is_dir(h.id(old)),
    ensures
        h.valid_in(new),
        h.id(new) == h.id(old),
        old.is_file(h.id(old)) && h.id(old) != t ==> new.is_file(h.id(new)),
        old.is_dir(h.id(old)) ==> new.is_dir(h.id(new)),
{
    assert(old.inode_used(h.id(old)));
    if old.is_dir(h.id(old)) {
        assert(new.is_dir(h.id(old)));
    }
}

impl Kernel {
    /// An open file at descriptor `fd`.
    pub open spec fn open_at(self, fd: int) -> bool {
        0 <= fd < self.fd_table@.len() && self.fd_table@[fd] is Some
    }

    pub open spec fn file_at(self, fd: int) -> OSInode {
        self.fd_table@[fd]->0
    }

    pub open spec fn wf(self) -> bool {
        &&& self.fs.wf()
        &&& self.root.valid_in(self.fs)
        &&& self.fs.is_dir(self.root.id(self.fs))
        &&& links_counted(self.fs, self.root.id(self.fs))
        &&& forall|fd: int| #[trigger] self.open_at(fd) ==> {
            &&& self.file_at(fd).inner.inode.valid_in(self.fs)
            &&& self.fs.is_file(self.file_at(fd).inner.inode.id(self.fs))
        }
    }

    /// A process with no open file over `fs`, rooted at inode 0.
    pub fn new(fs: EasyFileSystem) -> (r: Kernel)
        requires
            fs.wf(),
            links_counted(fs, 0),
        ensures
            r.wf(),
            r.fs == fs,
            r.root.id(fs) == 0,
            r.fd_table@.len() == 0,
    {
        let root = fs.root_inode();
        Kernel { fs, root, fd_table: Vec::new() }
    }

    proof fn lemma_fs_step(self, old: Self)
        requires
            old.wf(),
            self.fs.wf(),
            self.fs.keeps_files(old.fs),
            links_counted(self.fs, self.root.id(self.fs)),
            self.root == old.root,
            self.fd_table@ == old.fd_table@,
        ensures
            self.wf(),
    {
        lemma_handle_kept(self.fs, old.fs, self.root);
        assert forall|fd: int| #[trigger] self.open_at(fd) implies {
            &&& self.file_at(fd).inner.inode.valid_in(self.fs)
            &&& self.fs.is_file(self.file_at(fd).inner.inode.id(self.fs))
        } by {
            assert(old.open_at(fd));
            lemma_handle_kept(self.fs, old.fs, self.file_at(fd).inner.inode);
        }
    }

    /// The lowest free descriptor, after growing the table if none is free.
    fn alloc_fd(&mut self) -> (fd: usize)
        requires
            old(self).wf(),
        ensures
            final(self).wf(),
            fd < final(self).fd_table@.len(),
            fd <= old(self).fd_table@.len(),
            final(self).fd_table@.len() >= old(self).fd_table@.len(),
            final(self).fd_table@[fd as int] is None,
            final(self).fs == old(self).fs,
            final(self).root == old(self).root,
            forall|k: int| 0 <= k < old(self).fd_table@.len() ==> #[trigger] final(self).fd_table@[k] == old(self).fd_table@[k],
            forall|k: int| 0 <= k < fd ==> #[trigger] final(self).open_at(k),
    {
        let mut i: usize = 0;
        while i < self.fd_table.len()
            invariant
                *self == *old(self),
                old(self).wf(),
                i <= self.fd_table@.len(),
                forall|k: int| 0 <= k < i ==> #[trigger] self.open_at(k),
            decreases self.fd_table@.len() - i,
        {
            if self.fd_table[i].is_none() {
                return i;
            }
            i = i + 1;
        }
        self.fd_table.push(None);
        proof {
            assert forall|fd: int| #[trigger] self.open_at(fd) implies old(self).open_at(fd) by {
            }
            assert forall|k: int| 0 <= k < i implies #[trigger] self.open_at(k) by {
                assert(old(self).open_at(k));
            }
        }
        i
    }

    /// Writes `buf` at the offset of open file `fd`; the number of bytes
    /// written, or -1 when `fd` is not open or the file would pass the
    /// largest size.
    pub fn sys_write(&mut self, fd: usize, buf: &[u8]) -> (r: isize)
        requires
            old(self).wf(),
        ensures
            final(self).wf(),
            final(self).root == old(self).root,
            final(self).fd_table@.len() == old(self).fd_table@.len(),
            !old(self).open_at(fd as int) ==> r == -1 && *final(self) == *old(self),
            old(self).open_at(fd as int) ==> ({
                let f = old(self).file_at(fd as int);
                let i = f.inner.inode.id(old(self).fs);
                let size = old(self).fs.inode(i).size;
                let end = (f.inner.offset + buf@.len()) as nat;
                let fits = end <= size
                    || blocks_for(end) - blocks_for(size as nat) <= old(self).fs.free_data().len();
                let ok = end <= u32::MAX && buf@.len() <= isize::MAX;
                &&& !ok ==> r == -1 && *final(self) == *old(self)
                &&& ok && fits ==> {
                    &&& r == buf@.len()
                    &&& final(self).fs.content(i) == overwrite(
                        zero_extend(old(self).fs.content(i), if end <= size { size as nat } else { end }),
                        f.inner.offset as int, buf@)
                    &&& final(self).fs.only_file_changed(old(self).fs, i)
                    &&& final(self).fs.grew_blocks(old(self).fs, i)
                    &&& final(self).fs.inode(i).blocks@.len() == blocks_for(final(self).fs.inode(i).size as nat)
                    &&& final(self).file_at(fd as int) == OSInode { inner: OSInodeInner { offset: (f.inner.offset + buf@.len()) as usize, ..f.inner }, ..f }
                }
                &&& ok && !fits ==> r == 0 && *final(self) == *old(self)
            }),
            forall|k: int| 0 <= k < old(self).fd_table@.len() && k != fd
                ==> #[trigger] final(self).fd_table@[k] == old(self).fd_table@[k],
    {
        if fd >= self.fd_table.len() {
            return -1;
        }
        let mut f = match self.fd_table[fd] {
            None => {
                return -1;
            },
            Some(f) => f,
        };
        assert(self.open_at(fd as int));
        if buf.len() > u32::MAX as usize || f.inner.offset > u32::MAX as usize - buf.len()
            || buf.len() > isize::MAX as usize {
            return -1;
        }
        let ghost o = *self;
        let n = f.write(&mut self.fs, buf);
        proof {
            if self.fs != o.fs {
                lemma_file_change_counts_links(o.fs, self.fs, o.root.id(o.fs), f.inner.inode.id(o.fs));
            }
        }
        if n == 0 {
            proof {
                self.lemma_fs_step(o);
            }
            return 0;
        }
        self.fd_table.set(fd, Some(f));
        proof {
            let s = *self;
            lemma_handle_kept(s.fs, o.fs, s.root);
            assert forall|k: int| #[trigger] s.open_at(k) implies {
                &&& s.file_at(k).inner.inode.valid_in(s.fs)
                &&& s.fs.is_file(s.file_at(k).inner.inode.id(s.fs))
            } by {
                assert(o.open_at(k));
                lemma_handle_kept(s.fs, o.fs, o.file_at(k).inner.inode);
            }
        }
        n as isize
    }

    /// Reads from the offset of open file `fd` into `buf`; the number of
    /// bytes read, or -1 when `fd` is not open.
    pub fn sys_read(&mut self, fd: usize, buf: &mut [u8]) -> (r: isize)
        requires
            old(self).wf(),
        ensures
            final(self).wf(),
            final(self).fs == old(self).fs,
            final(self).root == old(self).root,
            final(self).fd_table@.len() == old(self).fd_table@.len(),
            !old(self).open_at(fd as int) ==> r == -1 && *final(self) == *old(self) && final(buf)@ == old(buf)@,
            old(self).open_at(fd as int) && old(buf)@.len() > isize::MAX ==> r == -1 && *final(self) == *old(self)
                && final(buf)@ == old(buf)@,
            old(self).open_at(fd as int) && old(buf)@.len() <= isize::MAX ==> ({
                let f = old(self).file_at(fd as int);
                let c = old(self).fs.content(f.inner.inode.id(old(self).fs));
                let n = read_len(c.len(), f.inner.offset as nat, old(buf)@.len());
                &&& r == n
                &&& final(buf)@.len() == old(buf)@.len()
                &&& forall|k: int| 0 <= k < n ==> final(buf)@[k] == #[trigger] c[f.inner.offset + k]
                &&& final(buf)@.subrange(n as int, old(buf)@.len() as int)
                    == old(buf)@.subrange(n as int, old(buf)@.len() as int)
                &&& final(self).file_at(fd as int) == OSInode { inner: OSInodeInner { offset: (f.inner.offset + n) as usize, ..f.inner }, ..f }
            }),
            forall|k: int| 0 <= k < old(self).fd_table@.len() && k != fd
                ==> #[trigger] final(self).fd_table@[k] == old(self).fd_table@[k],
    {
        if fd >= self.fd_table.len() {
            return -1;
        }
        let mut f = match self.fd_table[fd] {
            None => {
                return -1;
            },
            Some(f) => f,
        };
        assert(self.open_at(fd as int));
        if buf.len() > isize::MAX as usize {
            return -1;
        }
        let n = f.read(&self.fs, buf);
        self.fd_table.set(fd, Some(f));
        proof {
            let s = *self;
            assert forall|k: int| #[trigger] s.open_at(k) implies {
                &&& s.file_at(k).inner.inode.valid_in(s.fs)
                &&& s.fs.is_file(s.file_at(k).inner.inode.id(s.fs))
            } by {
                assert(old(self).open_at(k));
            }
        }
        n as isize
    }

    /// Opens `path` in the root directory with the flags `flags`; the new
    /// descriptor, or -1 when `flags` holds an unknown bit or the open fails.
    pub fn sys_open(&mut self, path: &str, flags: u32) -> (r: isize)
        requires
            old(self).wf(),
        ensures
            final(self).wf(),
            final(self).root == old(self).root,
            final(self).fs.keeps_files(old(self).fs),
            flags & !ALL_FLAGS != 0 ==> r == -1 && *final(self) == *old(self),
            r >= 0 <==> (flags & !ALL_FLAGS == 0 && old(self).fd_table@.len() < isize::MAX
                && open_succeeds(old(self).fs, old(self).root.id(old(self).fs), path@, flags)),
            r >= 0 ==> {
                &&& final(self).open_at(r as int)
                &&& !old(self).open_at(r as int)
                &&& forall|k: int| 0 <= k < r ==> #[trigger] old(self).open_at(k)
                &&& final(self).file_at(r as int).inner.offset == 0
                &&& (final(self).file_at(r as int).readable, final(self).file_at(r as int).writable) == (if flags == 0 {
                    (true, false)
                } else if flags & WRONLY == WRONLY {
                    (false, true)
                } else {
                    (true, true)
                })
                &&& final(self).fs.dir_lookup(final(self).root.id(final(self).fs), path@)
                    == Some(final(self).file_at(r as int).inner.inode.id(final(self).fs) as u32)
            },
            r < 0 ==> r == -1 && final(self).fd_table@ == old(self).fd_table@,
            final(self).fd_table@.len() >= old(self).fd_table@.len(),
            forall|k: int| 0 <= k < old(self).fd_table@.len() && k != r
                ==> #[trigger] final(self).fd_table@[k] == old(self).fd_table@[k],
    {
        let fl = match OpenFlags::from_bits(flags) {
            None => {
                return -1;
            },
            Some(fl) => fl,
        };
        if self.fd_table.len() >= isize::MAX as usize {
            return -1;
        }
        let ghost o = *self;
        let root = self.root;
        let opened = open_file(&mut self.fs, &root, path, fl);
        proof {
            let dir = o.root.id(o.fs);
            if self.fs != o.fs {
                match o.fs.dir_lookup(dir, path@) {
                    Some(t) => {
                        lemma_file_change_counts_links(o.fs, self.fs, dir, t as int);
                    },
                    None => {
                        lemma_create_counts_links(o.fs, self.fs, dir, path@, opened->0.inner.inode.id(self.fs));
                    },
                }
            }
            self.lemma_fs_step(o);
        }
        match opened {
            None => {
                assert(!open_succeeds(o.fs, o.root.id(o.fs), path@, flags));
                -1
            },
            Some(f) => {
                let ghost mid = *self;
                proof {
                    let dir = root.id(o.fs);
                    lemma_handle_kept(self.fs, o.fs, root);
                    if o.fs.dir_lookup(dir, path@) is None {
                        assert(self.fs.dir_lookup(dir, path@) == Some(f.inner.inode.id(self.fs) as u32));
                    } else {
                        let id = o.fs.dir_lookup(dir, path@)->0 as int;
                        assert(o.fs.is_file(id));
                        assert(id != dir);
                        if self.fs != o.fs {
                            assert(self.fs.inodes@[dir] == o.fs.inodes@[dir]);
                        }
                        assert(self.fs.entries(dir) =~= o.fs.entries(dir));
                        assert(self.fs.dir_lookup(dir, path@) == o.fs.dir_lookup(dir, path@));
                    }
                }
                let fd = self.alloc_fd();
                let ghost al = *self;
                self.fd_table.set(fd, Some(f));
                proof {
                    let s = *self;
                    assert forall|k: int| #[trigger] s.open_at(k) implies {
                        &&& s.file_at(k).inner.inode.valid_in(s.fs)
                        &&& s.fs.is_file(s.file_at(k).inner.inode.id(s.fs))
                    } by {
                        if k != fd {
                            assert(al.open_at(k));
                        }
                    }
                    assert forall|k: int| 0 <= k < fd implies #[trigger] old(self).open_at(k) by {
                        assert(al.open_at(k));
                        assert(al.fd_table@[k] == mid.fd_table@[k]);
                    }
                }
                fd as isize
            },
        }
    }

    /// Closes descriptor `fd`: 0, or -1 when it was not open.
    pub fn sys_close(&mut self, fd: usize) -> (r: isize)
        requires
            old(self).wf(),
        ensures
            final(self).wf(),
            final(self).fs == old(self).fs,
            final(self).root == old(self).root,
            r == 0 <==> old(self).open_at(fd as int),
            r != 0 ==> r == -1 && *final(self) == *old(self),
            r == 0 ==> final(self).fd_table@ == old(self).fd_table@.update(fd as int, None),
    {
        if fd >= self.fd_table.len() {
            return -1;
        }
        if self.fd_table[fd].is_none() {
            return -1;
        }
        self.fd_table.set(fd, None);
        proof {
            let s = *self;
            assert forall|k: int| #[trigger] s.open_at(k) implies {
                &&& s.file_at(k).inner.inode.valid_in(s.fs)
                &&& s.fs.is_file(s.file_at(k).inner.inode.id(s.fs))
            } by {
                assert(old(self).open_at(k));
            }
        }
        0
    }

    /// Reports the inode id, kind and link count of open file `fd`: 0, or
    /// -1 with `st` untouched when `fd` is not open.
    pub fn sys_fstat(&self, fd: usize, st: &mut Stat) -> (r: isize)
        requires
            self.wf(),
        ensures
            r == 0 <==> self.open_at(fd as int),
            r != 0 ==> r == -1 && *final(st) == *old(st),
            r == 0 ==> ({
                let i = self.file_at(fd as int).inner.inode.id(self.fs);
                *final(st) == Stat {
                    dev: 0,
                    ino: i as u64,
                    mode: if self.fs.is_dir(i) { StatMode::Dir } else { StatMode::File },
                    nlink: self.fs.inode(i).hard_linked,
                }
            }),
    {
        if fd >= self.fd_table.len() {
            return -1;
        }
        let f = match self.fd_table[fd] {
            None => {
                return -1;
            },
            Some(f) => f,
        };
        assert(self.open_at(fd as int));
        let (ino, mode, nlink) = f.fstat(&self.fs, &self.root);
        *st = Stat { dev: 0, ino, mode, nlink };
        0
    }

    /// Links `new_name` to what `old_name` names in the root directory: 0,
    /// or -1 with nothing changed when the names are equal or the link fails.
    pub fn sys_linkat(&mut self, old_name: &str, new_name: &str) -> (r: isize)
        requires
            old(self).wf(),
        ensures
            final(self).wf(),
            final(self).root == old(self).root,
            final(self).fd_table@ == old(self).fd_table@,
            old_name@ == new_name@ ==> r == -1 && *final(self) == *old(self),
            r != 0 ==> r == -1 && *final(self) == *old(self),
            ({
                let dir = old(self).root.id(old(self).fs);
                let t = old(self).fs.dir_lookup(dir, old_name@);
                &&& old_name@ != new_name@ ==> (r == 0 <==> (t is Some && new_name@.len() > 0
                    && old(self).fs.dir_lookup(dir, new_name@) is None && !old(self).fs.dir_full(dir)
                    && old(self).fs.inode(t->0 as int).hard_linked < u32::MAX))
                &&& r == 0 ==> final(self).fs.linked(old(self).fs, dir, new_name@, t->0 as int)
            }),
    {
        let a = old_name.to_owned();
        let b = new_name.to_owned();
        if a == b {
            return -1;
        }
        let ghost o = *self;
        let root = self.root;
        let r = linkat(&mut self.fs, &root, old_name, new_name);
        proof {
            let dir = o.root.id(o.fs);
            if r == 0 {
                lemma_lookup_used(o.fs, dir, old_name@);
                lemma_link_counts_links(o.fs, self.fs, dir, new_name@, o.fs.dir_lookup(dir, old_name@)->0 as int);
            }
            self.lemma_fs_step(o);
        }
        r
    }

    /// Removes the link `name` from the root directory: 0, or -1 with
    /// nothing changed when `name` names nothing. When that was the file's
    /// last link its inode id is freed, and every descriptor still open on
    /// the file is closed.
    pub fn sys_unlinkat(&mut self, name: &str) -> (r: isize)
        requires
            old(self).wf(),
        ensures
            final(self).wf(),
            final(self).root == old(self).root,
            final(self).fd_table@.len() == old(self).fd_table@.len(),
            ({
                let dir = old(self).root.id(old(self).fs);
                let t = old(self).fs.dir_lookup(dir, name@);
                &&& r == 0 <==> t is Some
                &&& r == -1 <==> t is None
                &&& t is None ==> *final(self) == *old(self)
                &&& t matches Some(target) ==> {
                    &&& final(self).fs.unlinked(old(self).fs, dir, name@, target as int)
                    &&& old(self).fs.inode(target as int).hard_linked == 1 && old(self).fs.is_file(target as int)
                        ==> !final(self).fs.inode_used(target as int)
                    &&& forall|k: int| 0 <= k < old(self).fd_table@.len() ==> #[trigger] final(self).fd_table@[k]
                        == if old(self).open_at(k) && old(self).file_at(k).inner.inode.id(old(self).fs) == target
                            && !final(self).fs.inode_used(target as int) {
                            None
                        } else {
                            old(self).fd_table@[k]
                        }
                }
            }),
    {
        let ghost o = *self;
        let root = self.root;
        let found = root.find(&self.fs, name);
        let hid: usize = match found {
            Some(h) => h.get_inode_id(&self.fs) as usize,
            None => 0,
        };
        let r = unlinkat(&mut self.fs, &root, name);
        let ghost after = self.fs;
        let h = match found {
            None => {
                return r;
            },
            Some(h) => h,
        };
        let ghost dir = o.root.id(o.fs);
        let ghost target = o.fs.dir_lookup(dir, name@)->0 as int;
        proof {
            lemma_unlink_counts_links(o.fs, self.fs, dir, name@, target);
            lemma_handle_kept_but(self.fs, o.fs, root, target);
        }
        if self.fs.inode_bitmap[hid] {
            proof {
                assert forall|fd: int| #[trigger] self.open_at(fd) implies {
                    &&& self.file_at(fd).inner.inode.valid_in(self.fs)
                    &&& self.fs.is_file(self.file_at(fd).inner.inode.id(self.fs))
                } by {
                    assert(o.open_at(fd));
                    let g = o.file_at(fd).inner.inode;
                    assert(o.fs.inode_used(g.id(o.fs)));
                    assert(o.fs.is_file(g.id(o.fs)));
                    if g.id(o.fs) == target {
                        assert(self.fs.inode_used(target));
                    }
                }
            }
            return r;
        }
        let n = self.fd_table.len();
        let mut k: usize = 0;
        while k < n
            invariant
                o.wf(),
                self.fs == after,
                self.fs.wf(),
                self.root == o.root,
                self.fs.keeps_files_but(o.fs, target),
                links_counted(self.fs, self.root.id(self.fs)),
                self.root.valid_in(self.fs),
                self.fs.is_dir(self.root.id(self.fs)),
                h.valid_in(o.fs),
                h.id(o.fs) == target,
                !self.fs.inode_used(target),
                n == o.fd_table@.len(),
                self.fd_table@.len() == n,
                k <= n,
                forall|j: int| 0 <= j < n ==> #[trigger] self.fd_table@[j]
                    == if j < k && o.open_at(j) && o.file_at(j).inner.inode.id(o.fs) == target {
                        None
                    } else {
                        o.fd_table@[j]
                    },
            decreases n - k,
        {
            let ghost before = self.fd_table@;
            match self.fd_table[k] {
                Some(f) => {
                    if f.inner.inode == h {
                        self.fd_table.set(k, None);
                    } else {
                        proof {
                            assert(o.open_at(k as int));
                            assert(o.fd_table@[k as int] == before[k as int]);
                            if f.inner.inode.id(o.fs) == h.id(o.fs) {
                                lemma_same_id_same_handle(o.fs, f.inner.inode, h);
                            }
                        }
                    }
                },
                None => {},
            }
            proof {
                assert forall|j: int| 0 <= j < n implies #[trigger] self.fd_table@[j]
                    == if j < k + 1 && o.open_at(j) && o.file_at(j).inner.inode.id(o.fs) == target {
                        None
                    } else {
                        o.fd_table@[j]
                    } by {
                    if j != k {
                        assert(self.fd_table@[j] == before[j]);
                    }
                }
            }
            k = k + 1;
        }
        proof {
            let s = *self;
            assert forall|fd: int| #[trigger] s.open_at(fd) implies {
                &&& s.file_at(fd).inner.inode.valid_in(s.fs)
                &&& s.fs.is_file(s.file_at(fd).inner.inode.id(s.fs))
            } by {
                assert(o.open_at(fd));
                let g = o.file_at(fd).inner.inode;
                assert(o.fs.inode_used(g.id(o.fs)));
                assert(o.fs.is_file(g.id(o.fs)));
                assert(g.id(o.fs) != target);
            }
        }
        r
    }
}

/// Two valid handles on the same inode id are the same handle.
pub proof fn lemma_same_id_same_handle(fs: EasyFileSystem, a: Inode, b: Inode)
    requires
        a.valid_in(fs),
        b.valid_in(fs),
        a.id(fs) == b.id(fs),
    ensures
        a == b,
{
    let s = fs.inode_area_start() as int;
    let (ab, ao, bb, bo) = (a.block_id as int, a.block_offset as int, b.block_id as int, b.block_offset as int);
    assert(ab == bb && ao == bo) by (nonlinear_arith)
        requires
            ab >= s, bb >= s, 0 <= ao < 512, 0 <= bo < 512, ao % 128 == 0, bo % 128 == 0,
            (ab - s) * 4 + ao / 128 == (bb - s) * 4 + bo / 128;
}

} // verus!
