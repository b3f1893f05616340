use hyperion_kernel::fs::inode::{FileType, Inode};
use hyperion_kernel::fs::ramfs::{bytes_less, new_root, RamNode, ROOT_INODE};
use hyperion_kernel::fs::vfs::{read_to_string, resolve, split_parent, FsError, OpenFlags, Root};

fn seeded_root() -> Root {
    let mut root = Root::new();
    hyperion_kernel::fs::init(&mut root, "0.1.0", "x86_64");
    root
}

#[test]
fn init_seeds_welcome_and_version() {
    let root = seeded_root();
    assert_eq!(read_to_string(&root, "/welcome").unwrap(), "Welcome to Hyperion OS!\r\nTry: help\r\n");
    assert_eq!(read_to_string(&root, "/version").unwrap(), "hyperion-os 0.1.0 x86_64\r\n");
    assert_eq!(root.list_root(), vec!["dev", "tmp", "version", "welcome"]);
    assert_eq!(read_to_string(&root, "/dev"), Err(FsError::Io));
    assert_eq!(read_to_string(&root, "/missing"), Err(FsError::NotFound));
}

#[test]
fn init_twice_keeps_the_mount() {
    let mut root = seeded_root();
    root.create_file("extra", b"x").unwrap();
    hyperion_kernel::fs::vfs::init(&mut root);
    assert!(root.resolve("/extra").is_ok());
}

#[test]
fn create_then_resolve_and_read() {
    let mut root = seeded_root();
    let before = root.list_root();
    let ino = root.create_file("notes", b"abc").unwrap();
    let after = root.list_root();
    assert_eq!(after.len(), before.len() + 1);
    assert!(after.windows(2).all(|w| w[0].as_bytes() < w[1].as_bytes()));
    assert!(after.iter().any(|n| n == "notes"));
    assert!(before.iter().all(|n| after.contains(n)));
    assert_eq!(root.resolve("/notes"), Ok(ino));
    assert_eq!(root.resolve("notes"), Ok(ino));
    assert_eq!(read_to_string(&root, "/notes").unwrap(), "abc");
}

#[test]
fn create_twice_is_already_exists() {
    let mut root = seeded_root();
    root.create_file("a", b"1").unwrap();
    assert_eq!(root.create_file("a", b"2"), Err(FsError::AlreadyExists));
    assert_eq!(root.create_dir("a"), Err(FsError::AlreadyExists));
    assert_eq!(read_to_string(&root, "/a").unwrap(), "1");
}

#[test]
fn remove_then_not_found() {
    let mut root = seeded_root();
    root.create_file("gone", b"").unwrap();
    assert_eq!(root.remove("/gone"), Ok(()));
    assert_eq!(root.resolve("/gone"), Err(FsError::NotFound));
    assert_eq!(root.remove("/gone"), Err(FsError::NotFound));
}

#[test]
fn remove_nonempty_dir_is_refused() {
    let mut root = seeded_root();
    let mut f = root.open("/tmp/x", OpenFlags::from_bits_truncate(OpenFlags::CREATE | OpenFlags::WRITE)).unwrap();
    f.write(root.mount.as_mut().unwrap(), b"hi").unwrap();
    assert_eq!(root.remove("/tmp"), Err(FsError::NotEmpty));
    assert_eq!(root.remove("/tmp/x"), Ok(()));
    assert_eq!(root.remove("/tmp"), Ok(()));
}

#[test]
fn path_errors() {
    let root = seeded_root();
    assert_eq!(root.resolve(""), Err(FsError::InvalidPath));
    assert_eq!(root.resolve("/welcome/x"), Err(FsError::NotADirectory));
    assert_eq!(root.resolve("/"), Ok(ROOT_INODE));
    assert!(root.resolve("/dev/").is_ok());
}

#[test]
fn write_then_read_back() {
    let mut root = seeded_root();
    let flags = OpenFlags::from_bits_truncate(OpenFlags::READ | OpenFlags::WRITE | OpenFlags::CREATE);
    let mut f = root.open("/tmp/data", flags).unwrap();
    assert_eq!(f.write(root.mount.as_mut().unwrap(), b"hello world"), Ok(11));
    assert_eq!(f.offset, 11);
    f.seek(6);
    let mut buf = [0u8; 5];
    assert_eq!(f.read(root.mount.as_ref().unwrap(), &mut buf), Ok(5));
    assert_eq!(&buf, b"world");
    let mut more = [9u8; 4];
    assert_eq!(f.read(root.mount.as_ref().unwrap(), &mut more), Ok(0));
    assert_eq!(more, [9u8; 4]);
}

#[test]
fn write_past_end_zero_fills() {
    let mut root = seeded_root();
    let flags = OpenFlags::from_bits_truncate(OpenFlags::READ | OpenFlags::WRITE | OpenFlags::CREATE);
    let mut f = root.open("/gap", flags).unwrap();
    f.seek(3);
    f.write(root.mount.as_mut().unwrap(), b"z").unwrap();
    f.seek(0);
    let mut buf = [7u8; 8];
    assert_eq!(f.read(root.mount.as_ref().unwrap(), &mut buf), Ok(4));
    assert_eq!(&buf[..4], &[0, 0, 0, b'z']);
    assert_eq!(buf[4], 7);
}

#[test]
fn append_writes_at_end() {
    let mut root = seeded_root();
    root.create_file("log", b"ab").unwrap();
    let mut f = root
        .open("/log", OpenFlags::from_bits_truncate(OpenFlags::WRITE | OpenFlags::APPEND))
        .unwrap();
    f.write(root.mount.as_mut().unwrap(), b"cd").unwrap();
    assert_eq!(read_to_string(&root, "/log").unwrap(), "abcd");
}

#[test]
fn flags_are_enforced() {
    let mut root = seeded_root();
    let mut ro = root.open("/welcome", OpenFlags::from_bits_truncate(OpenFlags::READ)).unwrap();
    assert_eq!(ro.write(root.mount.as_mut().unwrap(), b"x"), Err(FsError::Io));
    let mut wo = root.open("/welcome", OpenFlags::from_bits_truncate(OpenFlags::WRITE)).unwrap();
    let mut buf = [0u8; 2];
    assert_eq!(wo.read(root.mount.as_ref().unwrap(), &mut buf), Err(FsError::Io));
    assert_eq!(
        root.open("/nothing", OpenFlags::from_bits_truncate(OpenFlags::READ)).err(),
        Some(FsError::NotFound)
    );
    assert_eq!(OpenFlags::from_bits_truncate(0xff).bits, 0xf);
    assert!(OpenFlags::from_bits_truncate(3).contains(OpenFlags::READ));
    assert!(!OpenFlags::from_bits_truncate(1).contains(OpenFlags::WRITE));
}

#[test]
fn open_dir_and_read_is_io() {
    let mut root = seeded_root();
    let mut d = root.open("/dev", OpenFlags::from_bits_truncate(OpenFlags::READ)).unwrap();
    let mut buf = [0u8; 1];
    assert_eq!(d.read(root.mount.as_ref().unwrap(), &mut buf), Err(FsError::Io));
}

#[test]
fn invalid_utf8_is_replaced() {
    let mut root = seeded_root();
    root.create_file("bin", &[0x61, 0xff, 0x62]).unwrap();
    assert_eq!(read_to_string(&root, "/bin").unwrap(), "a\u{fffd}b");
}

#[test]
fn split_parent_cases() {
    assert_eq!(split_parent("/a/b"), ("/a", "b"));
    assert_eq!(split_parent("/a"), ("/", "a"));
    assert_eq!(split_parent("a"), ("/", "a"));
}

#[test]
fn byte_order_of_names() {
    assert!(bytes_less(b"a", b"b"));
    assert!(bytes_less(b"ab", b"abc"));
    assert!(!bytes_less(b"abc", b"ab"));
    assert!(!bytes_less(b"x", b"x"));
    assert!(bytes_less(b"", b"x"));
}

#[test]
fn ramfs_nodes_directly() {
    let mut fs = new_root();
    let d = fs.create_dir(ROOT_INODE, "d").unwrap();
    let f = fs.create_file(d, "f", b"data").unwrap();
    assert_eq!(resolve(&fs, "/d/f"), Ok(f));
    assert_eq!(fs.create_file(f, "x", b""), Err(FsError::NotADirectory));

    assert_eq!(fs.nodes[f].ftype(), FileType::Regular);
    assert_eq!(fs.nodes[d].ftype(), FileType::Directory);
    assert_eq!(fs.nodes[f].size(), 4);
    assert_eq!(fs.nodes[d].lookup("f"), Some(f));
    assert_eq!(fs.nodes[d].list(), vec!["f"]);
    let mut n = RamNode::new_file("n", b"12345");
    assert_eq!(n.write_at(1, b"ab"), Ok(2));
    let mut buf = [0u8; 3];
    assert_eq!(n.read_at(0, &mut buf), Ok(3));
    assert_eq!(&buf, b"1ab");
    assert_eq!(n.read_at(9, &mut buf), Ok(0));
    let mut dir = RamNode::new_dir("dir");
    assert_eq!(dir.write_at(0, b"x"), Err(FsError::Io));
    assert_eq!(dir.name(), "dir");
}
