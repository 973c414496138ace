//! The filesystem, paths, descriptors and text.
use ferrite::bytes::{copied, read_u16, read_u32, read_u64, same_bytes, to_le_bytes};
use ferrite::decimal::decimal;
use ferrite::fs::ramfs::{self, FsError, InodeKind};
use ferrite::kernel::Kernel;
use ferrite::mm;
use ferrite::mm::buddy::PAGE_SIZE;
use ferrite::path::{canonicalize, last_slash_position, leading_slashes, position};
use ferrite::proc::{find_elf, Programs};
use ferrite::user::shell::{parse, type_byte, Command, Text};
use ferrite::user::shell_path::{path_normalize, resolve};

const BASE: u64 = 0x8000_0000;

fn kernel(pages: u64) -> Kernel {
    let regions = vec![(BASE, Some(pages * PAGE_SIZE))];
    let mm = mm::from_regions(&regions, BASE, BASE + (1 << 30)).unwrap();
    let mut k = Kernel::new(
        mm,
        Programs { init: vec![1], spawn_demo: vec![2], linux_demo: vec![3] },
    );
    assert!(ramfs::init(&mut k));
    k
}

fn read(k: &Kernel, pa: u64, offset: u64, len: usize) -> Vec<u8> {
    let mut b = vec![0u8; len];
    let n = ramfs::fs_read(k, pa, offset, &mut b);
    b.truncate(n);
    b
}

#[test]
fn root_is_found_and_empty() {
    let k = kernel(16);
    assert_eq!(ramfs::lookup_path(&k, b"/"), Some(ramfs::root_pa(&k)));
    assert!(ramfs::inode_kind(&k, ramfs::root_pa(&k)) == InodeKind::Dir);
    assert_eq!(ramfs::inode_size(&k, ramfs::root_pa(&k)), 0);
}

#[test]
fn created_file_is_found_and_counted() {
    let mut k = kernel(16);
    let pa = ramfs::fs_create(&mut k, b"/a").unwrap();
    assert_eq!(ramfs::fs_open(&k, b"/a"), Some(pa));
    assert_eq!(ramfs::fs_open(&k, b"//a"), Some(pa));
    assert_eq!(ramfs::inode_size(&k, ramfs::root_pa(&k)), 1);
    assert_eq!(ramfs::fs_create(&mut k, b"/a"), Err(FsError::Exists));
    assert_eq!(ramfs::fs_mkdir(&mut k, b"/a"), Err(FsError::Exists));
}

#[test]
fn name_with_zero_byte_is_cut_when_stored() {
    let mut k = kernel(16);
    ramfs::fs_create(&mut k, b"/a\0b").unwrap();
    assert_eq!(ramfs::fs_open(&k, b"/a\0b"), None);
    assert!(ramfs::fs_open(&k, b"/a").is_some());
}

#[test]
fn creation_errors() {
    let mut k = kernel(200);
    assert_eq!(ramfs::fs_create(&mut k, b"/"), Err(FsError::InvalidPath));
    assert_eq!(ramfs::fs_create(&mut k, b""), Err(FsError::InvalidPath));
    assert_eq!(ramfs::fs_create(&mut k, b"/no/a"), Err(FsError::NotFound));
    assert_eq!(ramfs::fs_create(&mut k, &[97u8; 53]), Err(FsError::NameTooLong));
    assert!(ramfs::fs_create(&mut k, &[97u8; 52]).is_ok());
    ramfs::fs_create(&mut k, b"/f").unwrap();
    assert_eq!(ramfs::fs_create(&mut k, b"/f/x"), Err(FsError::NotADirectory));
    for i in 0..62u8 {
        let name = [47u8, 48 + i / 10, 48 + i % 10];
        ramfs::fs_create(&mut k, &name).unwrap();
    }
    assert_eq!(ramfs::fs_create(&mut k, b"/over"), Err(FsError::DirectoryFull));
    let mut small = kernel(1);
    assert_eq!(ramfs::fs_mkdir(&mut small, b"/d"), Err(FsError::NoMemory));
}

#[test]
fn written_bytes_are_read_back() {
    let mut k = kernel(16);
    let a = ramfs::fs_create(&mut k, b"/a").unwrap();
    let b = ramfs::fs_create(&mut k, b"/b").unwrap();
    assert_eq!(ramfs::fs_write(&mut k, a, 0, b"hello"), Ok(5));
    assert_eq!(ramfs::fs_write(&mut k, b, 0, b"other"), Ok(5));
    assert_eq!(read(&k, a, 0, 16), b"hello");
    assert_eq!(ramfs::fs_write(&mut k, a, 3, b"p me"), Ok(4));
    assert_eq!(read(&k, a, 0, 16), b"help me");
    assert_eq!(read(&k, a, 5, 1), b"m");
    assert_eq!(read(&k, a, 7, 4), b"");
    assert_eq!(read(&k, b, 0, 16), b"other");
    assert_eq!(ramfs::inode_size(&k, a), 7);
    assert_eq!(ramfs::fs_truncate(&mut k, a), Ok(()));
    assert_eq!(read(&k, a, 0, 16), b"");
}

#[test]
fn write_stops_at_the_page() {
    let mut k = kernel(16);
    let a = ramfs::fs_create(&mut k, b"/a").unwrap();
    assert_eq!(ramfs::fs_write(&mut k, a, 4094, b"xyz"), Ok(2));
    assert_eq!(ramfs::fs_write(&mut k, a, 4096, b"x"), Err(FsError::NoSpace));
    let root = ramfs::root_pa(&k);
    assert_eq!(ramfs::fs_write(&mut k, root, 0, b"x"), Err(FsError::NotAFile));
    assert_eq!(ramfs::fs_truncate(&mut k, root), Err(FsError::NotAFile));
}

#[test]
fn unlinked_path_is_gone() {
    let mut k = kernel(16);
    ramfs::fs_mkdir(&mut k, b"/d").unwrap();
    ramfs::fs_create(&mut k, b"/d/f").unwrap();
    assert_eq!(ramfs::fs_unlink(&mut k, b"/d"), Err(FsError::NotEmpty));
    assert_eq!(ramfs::fs_unlink(&mut k, b"/d/f"), Ok(()));
    assert_eq!(ramfs::fs_open(&k, b"/d/f"), None);
    assert_eq!(ramfs::fs_unlink(&mut k, b"/d/f"), Err(FsError::NotFound));
    assert_eq!(ramfs::fs_unlink(&mut k, b"/d"), Ok(()));
    assert_eq!(ramfs::inode_size(&k, ramfs::root_pa(&k)), 0);
}

#[test]
fn rename_moves() {
    let mut k = kernel(16);
    let f = ramfs::fs_create(&mut k, b"/f").unwrap();
    ramfs::fs_mkdir(&mut k, b"/d").unwrap();
    let g = ramfs::fs_create(&mut k, b"/d/g").unwrap();
    assert_ne!(f, g);
    assert_eq!(ramfs::fs_rename(&mut k, b"/f", b"/d/g"), Ok(()));
    assert_eq!(ramfs::fs_open(&k, b"/d/g"), Some(f));
    assert_eq!(ramfs::fs_open(&k, b"/f"), None);
    assert_eq!(ramfs::fs_rename(&mut k, b"/f", b"/h"), Err(FsError::NotFound));
    ramfs::fs_create(&mut k, b"/h").unwrap();
    assert_eq!(ramfs::fs_rename(&mut k, b"/h", b"/d"), Err(FsError::NotEmpty));
}

#[test]
fn directory_is_listed_in_order() {
    let mut k = kernel(16);
    ramfs::fs_mkdir(&mut k, b"/d").unwrap();
    let f = ramfs::fs_create(&mut k, b"/f").unwrap();
    let root = ramfs::root_pa(&k);
    let mut b = [9u8; 8];
    assert_eq!(ramfs::fs_readdir(&k, root, 0, &mut b), 2);
    assert_eq!(&b[..3], b"d/\0");
    assert_eq!(ramfs::fs_readdir(&k, root, 1, &mut b), 1);
    assert_eq!(&b[..2], b"f\0");
    assert_eq!(ramfs::fs_readdir(&k, root, 2, &mut b), 0);
    let r = ramfs::fs_readdir_ex(&k, root, 1, &mut b);
    assert!(matches!(r, Some((1, InodeKind::File, pa)) if pa == f));
    assert!(ramfs::fs_readdir_ex(&k, root, 2, &mut b).is_none());
    assert_eq!(ramfs::list_entry(&k, root, 0, 54), Some((b"d/\0".to_vec(), 2)));
}

#[test]
fn inode_kinds_have_numbers() {
    assert_eq!(InodeKind::File.to_u8(), 1);
    assert_eq!(InodeKind::Dir.to_u8(), 2);
    assert!(InodeKind::from_u8(2) == Some(InodeKind::Dir));
    assert!(InodeKind::from_u8(0).is_none());
}

#[test]
fn descriptors_open_close_copy_and_move() {
    let mut k = kernel(16);
    let t = ramfs::alloc_fd_table(&mut k).unwrap();
    assert_eq!(ramfs::fd_alloc(&mut k, t, 0x1000, 7), Some(0));
    assert_eq!(ramfs::fd_alloc(&mut k, t, 0x2000, 0), Some(1));
    let e = ramfs::fd_get(&k, t, 0).unwrap();
    assert_eq!((e.inode_pa, e.offset, e.flags), (0x1000, 0, 7));
    ramfs::fd_advance(&mut k, t, 0, 5);
    assert_eq!(ramfs::fd_get(&k, t, 0).unwrap().offset, 5);
    assert_eq!(ramfs::fd_seek(&mut k, t, 0, 2), Some(2));
    assert_eq!(ramfs::fd_dup(&mut k, t, 0, 9), Some(()));
    assert_eq!(ramfs::fd_get(&k, t, 9).unwrap().offset, 2);
    ramfs::fd_close(&mut k, t, 0);
    assert!(ramfs::fd_get(&k, t, 0).is_none());
    assert_eq!(ramfs::fd_seek(&mut k, t, 0, 2), None);
    assert_eq!(ramfs::fd_dup(&mut k, t, 0, 1), None);
    assert_eq!(ramfs::fd_dup(&mut k, t, 1, 16), None);
    assert_eq!(ramfs::fd_alloc(&mut k, t, 0x3000, 0), Some(0));
    assert!(ramfs::fd_get(&k, t, 16).is_none());
    for i in 2..16 {
        if i != 9 {
            assert_eq!(ramfs::fd_alloc(&mut k, t, 0x4000, 0), Some(i));
        }
    }
    assert_eq!(ramfs::fd_alloc(&mut k, t, 0x4000, 0), None);
}

#[test]
fn standard_descriptors_are_reserved() {
    let mut k = kernel(16);
    let t = ramfs::alloc_fd_table_stdio(&mut k).unwrap();
    assert!(ramfs::fd_get(&k, t, 2).is_some());
    assert_eq!(ramfs::fd_alloc(&mut k, t, 0x1000, 0), Some(3));
}

#[test]
fn working_directory_is_kept() {
    let mut k = kernel(16);
    let t = ramfs::alloc_fd_table(&mut k).unwrap();
    let mut b = [0u8; 8];
    assert_eq!(ramfs::fd_cwd(&k, t, &mut b), 1);
    assert_eq!(b[0], 47);
    assert!(ramfs::fd_set_cwd(&mut k, t, b"/etc"));
    assert_eq!(ramfs::fd_cwd(&k, t, &mut b), 4);
    assert_eq!(&b[..4], b"/etc");
    assert!(!ramfs::fd_set_cwd(&mut k, t, &[47u8; 129]));
}

#[test]
fn paths_are_taken_apart() {
    assert_eq!(position(b"ab/c", 47, 0), 2);
    assert_eq!(position(b"ab", 47, 0), 2);
    assert_eq!(last_slash_position(b"/a/b"), Some(2));
    assert_eq!(last_slash_position(b"ab"), None);
    assert_eq!(leading_slashes(b"//a"), 2);
    assert_eq!(canonicalize(b"/a/./b/../c//"), b"/a/c");
    assert_eq!(canonicalize(b"/../.."), b"/");
    assert_eq!(canonicalize(&canonicalize(b"/x/../y/./z")), b"/y/z");
}

#[test]
fn shell_paths_are_resolved() {
    assert_eq!(resolve(b"/a", b"b/../c"), b"/a/c");
    assert_eq!(resolve(b"/a", b"/x"), b"/x");
    assert_eq!(resolve(b"/", b".."), b"/");
    assert_eq!(path_normalize(b"/a//b/"), b"/a/b");
}

#[test]
fn shell_lines_are_parsed() {
    let cwd = b"/".to_vec();
    assert!(matches!(parse(b"  ls", &cwd), Command::Ls(_)));
    assert!(matches!(parse(b"", &cwd), Command::Nothing));
    assert!(matches!(parse(b"cat", &cwd), Command::Usage(Text::UsageCat)));
    assert!(matches!(parse(b"echo  a b", &cwd), Command::Echo(t) if t == b"a b"));
    assert!(matches!(parse(b"frob x", &cwd), Command::Unknown(_)));
    let mut line: Vec<u8> = Vec::new();
    for c in [97u8, 98, 8, 99, 1] {
        assert!(!type_byte(&mut line, c));
    }
    assert!(type_byte(&mut line, 13));
    assert_eq!(line, b"ac");
}

#[test]
fn decimal_notation() {
    assert_eq!(decimal(0), b"0");
    assert_eq!(decimal(90_210), b"90210");
    assert_eq!(decimal(u64::MAX), b"18446744073709551615");
}

#[test]
fn numbers_in_bytes() {
    let b = [1u8, 2, 3, 4, 5, 6, 7, 8];
    assert_eq!(read_u16(&b, 0), 0x0201);
    assert_eq!(read_u32(&b, 0), 0x0403_0201);
    assert_eq!(read_u64(&b, 0), 0x0807_0605_0403_0201);
    assert_eq!(to_le_bytes(0x0201, 3), vec![1, 2, 0]);
    assert!(same_bytes(b"ab", b"ab"));
    assert!(!same_bytes(b"ab", b"ac"));
    assert_eq!(copied(&b, 1, 3), vec![2, 3]);
}

#[test]
fn programs_are_found_by_name() {
    let k = kernel(4);
    assert_eq!(find_elf(&k.programs, b"init"), Some(&vec![1]));
    assert_eq!(find_elf(&k.programs, b"linux_demo"), Some(&vec![3]));
    assert_eq!(find_elf(&k.programs, b"shell"), None);
}

#[test]
fn creation_leaves_other_paths() {
    let mut k = kernel(32);
    ramfs::fs_mkdir(&mut k, b"/d").unwrap();
    let d = ramfs::lookup_path(&k, b"/d").unwrap();
    let g = ramfs::fs_create(&mut k, b"/d/g").unwrap();
    assert_eq!(ramfs::inode_size(&k, d), 1);
    assert_eq!(ramfs::lookup_path(&k, b"/d/f"), None);
    let f = ramfs::fs_create(&mut k, b"/d/f").unwrap();
    assert_eq!(ramfs::inode_size(&k, d), 2);
    assert_eq!(ramfs::lookup_path(&k, b"/d/f"), Some(f));
    assert_eq!(ramfs::lookup_path(&k, b"/d/g"), Some(g));
    assert_eq!(ramfs::lookup_path(&k, b"/f"), None);
    assert_eq!(ramfs::lookup_path(&k, b"/d/f/x"), None);
    assert_eq!(ramfs::fs_create(&mut k, b"/d/f"), Err(FsError::Exists));
    assert_eq!(ramfs::fs_create(&mut k, b"/d/"), Err(FsError::InvalidPath));
}

#[test]
fn rename_moves_whole_paths() {
    let mut k = kernel(32);
    ramfs::fs_mkdir(&mut k, b"/a").unwrap();
    ramfs::fs_mkdir(&mut k, b"/b").unwrap();
    let a = ramfs::lookup_path(&k, b"/a").unwrap();
    let f = ramfs::fs_create(&mut k, b"/a/f").unwrap();
    let g = ramfs::fs_create(&mut k, b"/b/g").unwrap();
    ramfs::fs_write(&mut k, f, 0, b"text").unwrap();
    assert_eq!(ramfs::fs_rename(&mut k, b"/a", b"/b"), Err(FsError::NotEmpty));
    assert_eq!(ramfs::lookup_path(&k, b"/a/f"), Some(f));
    // What is below moves along, and a file in the way is replaced.
    assert_eq!(ramfs::fs_rename(&mut k, b"/a", b"/b/g"), Ok(()));
    assert_eq!(ramfs::lookup_path(&k, b"/a"), None);
    assert_eq!(ramfs::lookup_path(&k, b"/b/g"), Some(a));
    assert_eq!(ramfs::lookup_path(&k, b"/b/g/f"), Some(f));
    assert_ne!(a, g);
    assert_eq!(read(&k, f, 0, 10), b"text");
    assert_eq!(ramfs::fs_unlink(&mut k, b"/b/g"), Err(FsError::NotEmpty));
    assert_eq!(ramfs::fs_unlink(&mut k, b"/b/g/f"), Ok(()));
    assert_eq!(ramfs::fs_unlink(&mut k, b"/b/g"), Ok(()));
    assert_eq!(ramfs::fs_unlink(&mut k, b"/b/g"), Err(FsError::NotFound));
}
