use vstd::prelude::*;

verus! {

/// Size in bytes of one device block.
pub const BLOCK_SZ: usize = 512;

/// Width in bytes of one directory entry record.
pub const DIRENT_SZ: usize = 32;

/// Width in bytes of one packed inode record.
pub const DISK_INODE_SZ: usize = 128;

/// Number of inode records packed into one block.
pub const INODES_PER_BLOCK: usize = 4;

/// Number of inode ids tracked by one bitmap block.
pub const BITS_PER_BLOCK: usize = 4096;

/// Magic value stored in the superblock.
pub const EFS_MAGIC: u32 = 0x3b800001;

/// Number of data blocks needed to hold `size` bytes.
pub open spec fn blocks_for(size: nat) -> nat {
    (size + 511) / 512
}

/// Kind of an inode.
#[derive(Clone, Copy, Debug, PartialEq, Eq, Structural)]
pub enum DiskInodeType {
    File,
    Directory,
}

/// One record of a directory: a name and the id of the inode it names.
/// A record with an empty name is a tombstone left by a deletion.
pub struct DirEntry {
    pub name: String,
    pub inode_number: u32,
}

impl DirEntry {
    pub open spec fn view(&self) -> (Seq<char>, u32) {
        (self.name@, self.inode_number)
    }

    pub open spec fn is_tombstone(&self) -> bool {
        self.name@.len() == 0
    }

    pub fn new(name: &str, inode_number: u32) -> (r: DirEntry)
        ensures
            r.name@ == name@,
            r.inode_number == inode_number,
    {
        DirEntry { name: name.to_owned(), inode_number }
    }

    /// The all-zero record, used in place of a deleted entry.
    pub fn empty() -> (r: DirEntry)
        ensures
            r.name@ == Seq::<char>::empty(),
            r.inode_number == 0,
    {
        DirEntry { name: String::new(), inode_number: 0 }
    }

    pub fn name(&self) -> (r: &str)
        ensures
            r@ == self.name@,
    {
        self.name.as_str()
    }

    pub fn inode_number(&self) -> (r: u32)
        ensures
            r == self.inode_number,
    {
        self.inode_number
    }
}

/// Metadata of one file or directory. A file's bytes live in the data
/// blocks listed in `blocks`, in order; a directory's content is its
/// sequence of entries, `DIRENT_SZ` bytes each.
pub struct DiskInode {
    pub size: u32,
    pub type_: DiskInodeType,
    pub hard_linked: u32,
    pub blocks: Vec<u32>,
    pub entries: Vec<DirEntry>,
}

impl DiskInode {
    pub fn initialize(type_: DiskInodeType) -> (r: DiskInode)
        ensures
            r.size == 0,
            r.type_ == type_,
            r.hard_linked == 0,
            r.blocks@.len() == 0,
            r.entries@.len() == 0,
    {
        DiskInode { size: 0, type_, hard_linked: 0, blocks: Vec::new(), entries: Vec::new() }
    }

    pub fn is_dir(&self) -> (r: bool)
        ensures
            r == (self.type_ == DiskInodeType::Directory),
    {
        self.type_ == DiskInodeType::Directory
    }

    pub fn is_file(&self) -> (r: bool)
        ensures
            r == (self.type_ == DiskInodeType::File),
    {
        self.type_ == DiskInodeType::File
    }

    /// Number of data blocks that a file of `size` bytes occupies.
    pub fn total_blocks(size: u32) -> (r: u32)
        ensures
            r == blocks_for(size as nat),
    {
        ((size as u64 + 511) / 512) as u32
    }

    /// Number of further data blocks that growing to `new_size` takes.
    pub fn blocks_num_needed(&self, new_size: u32) -> (r: u32)
        requires
            self.size <= new_size,
        ensures
            r == blocks_for(new_size as nat) - blocks_for(self.size as nat),
    {
        Self::total_blocks(new_size) - Self::total_blocks(self.size)
    }
}

} // verus!
