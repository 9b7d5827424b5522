//! An inode-based filesystem engine over fixed-size blocks: a bitmap
//! allocator for inodes and data blocks, files whose bytes live in data
//! blocks, directories of named entries, hard links, and a small
//! system-call layer with a per-process file-descriptor table.
pub mod layout;
pub mod block_cache;
pub mod efs;
pub mod bitmap;
pub mod super_block;
pub mod data;
pub mod dir;
pub mod vfs;
pub mod file;
pub mod syscall;
pub mod lemmas;
