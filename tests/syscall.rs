use easy_fs::efs::EasyFileSystem;
use easy_fs::file::{OSInode, OpenFlags, Stat, StatMode, CREATE, RDONLY, RDWR, TRUNC, WRONLY};
use easy_fs::syscall::{linkat, open_file, unlinkat, Kernel};

fn kernel() -> Kernel {
    Kernel::new(EasyFileSystem::create(32, 128))
}

fn blank() -> Stat {
    Stat { dev: 9, ino: 9, mode: StatMode::Null, nlink: 9 }
}

#[test]
fn read_write_flags() {
    assert_eq!(OpenFlags::from_bits(RDONLY).unwrap().read_write(), (true, false));
    assert_eq!(OpenFlags::from_bits(WRONLY).unwrap().read_write(), (false, true));
    assert_eq!(OpenFlags::from_bits(RDWR).unwrap().read_write(), (true, true));
    assert_eq!(OpenFlags::from_bits(CREATE | WRONLY).unwrap().read_write(), (false, true));
    assert!(OpenFlags::from_bits(4).is_none());
}

#[test]
fn open_missing_without_create_fails() {
    let mut k = kernel();
    assert_eq!(k.sys_open("nope", RDONLY), -1);
    assert_eq!(k.sys_open("nope", 8), -1);
}

#[test]
fn open_write_close_read() {
    let mut k = kernel();
    let fd = k.sys_open("f", CREATE | WRONLY);
    assert_eq!(fd, 0);
    assert_eq!(k.sys_write(0, b"hello"), 5);
    assert_eq!(k.sys_write(0, b" world"), 6);
    assert_eq!(k.sys_close(0), 0);
    assert_eq!(k.sys_close(0), -1);
    let fd = k.sys_open("f", RDONLY);
    assert_eq!(fd, 0);
    let mut buf = [0u8; 32];
    assert_eq!(k.sys_read(0, &mut buf), 11);
    assert_eq!(&buf[..11], b"hello world");
    assert_eq!(k.sys_read(0, &mut buf), 0);
}

#[test]
fn bad_descriptors() {
    let mut k = kernel();
    let mut buf = [0u8; 4];
    assert_eq!(k.sys_read(3, &mut buf), -1);
    assert_eq!(k.sys_write(3, b"x"), -1);
    assert_eq!(k.sys_close(3), -1);
    let mut st = blank();
    assert_eq!(k.sys_fstat(3, &mut st), -1);
    assert_eq!(st, blank());
}

#[test]
fn descriptors_reuse_lowest() {
    let mut k = kernel();
    assert_eq!(k.sys_open("a", CREATE), 0);
    assert_eq!(k.sys_open("b", CREATE), 1);
    assert_eq!(k.sys_open("c", CREATE), 2);
    assert_eq!(k.sys_close(1), 0);
    assert_eq!(k.sys_open("a", RDONLY), 1);
}

#[test]
fn create_flag_truncates_existing() {
    let mut k = kernel();
    k.sys_open("f", CREATE | RDWR);
    k.sys_write(0, b"abc");
    k.sys_close(0);
    k.sys_open("f", CREATE | RDWR);
    let mut buf = [0u8; 3];
    assert_eq!(k.sys_read(0, &mut buf), 0);
}

#[test]
fn trunc_flag_empties_file() {
    let mut k = kernel();
    k.sys_open("f", CREATE | RDWR);
    k.sys_write(0, b"abc");
    k.sys_close(0);
    k.sys_open("f", TRUNC | RDWR);
    let mut buf = [0u8; 3];
    assert_eq!(k.sys_read(0, &mut buf), 0);
}

#[test]
fn fstat_link_unlink() {
    let mut k = kernel();
    assert_eq!(k.sys_open("a", CREATE | RDWR), 0);
    let mut st = blank();
    assert_eq!(k.sys_fstat(0, &mut st), 0);
    assert_eq!(st, Stat { dev: 0, ino: 1, mode: StatMode::File, nlink: 1 });
    assert_eq!(k.sys_linkat("a", "a"), -1);
    assert_eq!(k.sys_linkat("a", "b"), 0);
    assert_eq!(k.sys_fstat(0, &mut st), 0);
    assert_eq!(st.nlink, 2);
    assert_eq!(k.sys_unlinkat("a"), 0);
    assert_eq!(k.sys_unlinkat("a"), -1);
    assert_eq!(k.sys_fstat(0, &mut st), 0);
    assert_eq!(st.nlink, 1);
    assert_eq!(k.sys_open("b", RDONLY), 1);
}

#[test]
fn open_file_and_links_directly() {
    let mut fs = EasyFileSystem::create(16, 16);
    let root = fs.root_inode();
    let flags = OpenFlags::from_bits(CREATE | RDWR).unwrap();
    let mut f: OSInode = open_file(&mut fs, &root, "x", flags).unwrap();
    assert!(f.readable() && f.writable());
    assert_eq!(f.write(&mut fs, b"0123456789"), 10);
    let mut g = open_file(&mut fs, &root, "x", OpenFlags::from_bits(RDONLY).unwrap()).unwrap();
    assert_eq!(g.read_all(&fs), b"0123456789".to_vec());
    assert_eq!(g.read_all(&fs), Vec::<u8>::new());
    assert_eq!(linkat(&mut fs, &root, "x", "y"), 0);
    assert_eq!(unlinkat(&mut fs, &root, "x"), 0);
    let mut h = open_file(&mut fs, &root, "y", OpenFlags::from_bits(RDONLY).unwrap()).unwrap();
    let mut buf = [0u8; 4];
    assert_eq!(h.read(&fs, &mut buf), 4);
    assert_eq!(&buf, b"0123");
    assert_eq!(h.inner.offset, 4);
    assert!(open_file(&mut fs, &root, "x", OpenFlags::from_bits(RDONLY).unwrap()).is_none());
}

#[test]
fn read_all_of_large_file() {
    let mut fs = EasyFileSystem::create(16, 64);
    let root = fs.root_inode();
    let mut f = open_file(&mut fs, &root, "big", OpenFlags::from_bits(CREATE | RDWR).unwrap()).unwrap();
    let data: Vec<u8> = (0..5000usize).map(|i| (i % 251) as u8).collect();
    assert_eq!(f.write(&mut fs, &data), 5000);
    let mut g = OSInode::new(true, false, f.inner.inode);
    assert_eq!(g.read_all(&fs), data);
}

#[test]
fn unlinking_last_link_closes_descriptors() {
    let mut k = kernel();
    assert_eq!(k.sys_open("f", CREATE | RDWR), 0);
    assert_eq!(k.sys_open("g", CREATE | RDWR), 1);
    assert_eq!(k.sys_write(0, b"data"), 4);
    assert_eq!(k.sys_unlinkat("f"), 0);
    let mut buf = [0u8; 4];
    assert_eq!(k.sys_read(0, &mut buf), -1);
    assert_eq!(k.sys_close(0), -1);
    assert_eq!(k.sys_write(1, b"ok"), 2);
    assert_eq!(k.sys_open("f", RDONLY), -1);
}

#[test]
fn unlinking_one_of_two_links_keeps_descriptor() {
    let mut k = kernel();
    assert_eq!(k.sys_open("f", CREATE | RDWR), 0);
    assert_eq!(k.sys_write(0, b"data"), 4);
    assert_eq!(k.sys_linkat("f", "g"), 0);
    assert_eq!(k.sys_unlinkat("f"), 0);
    let mut st = blank();
    assert_eq!(k.sys_fstat(0, &mut st), 0);
    assert_eq!(st.nlink, 1);
}

#[test]
fn open_records_access_flags() {
    let mut k = kernel();
    assert_eq!(k.sys_open("f", CREATE | WRONLY), 0);
    assert_eq!(k.fd_table[0].unwrap().readable(), false);
    assert_eq!(k.fd_table[0].unwrap().writable(), true);
}
