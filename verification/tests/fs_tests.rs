use kernel::fs::file::{FileDescriptor, OpenFlags};
use kernel::fs::init;
use kernel::fs::inode::{InodeId, InodeMeta, InodeType};
use kernel::fs::ramfs::RamFS;
use kernel::fs::syscalls::{parse_open_flags, sys_close, sys_mkdir, sys_open, sys_read, sys_unlink, sys_write};
use kernel::fs::vfs::{FileSystem, VFS};

fn create_rw() -> OpenFlags {
    OpenFlags { read: true, write: true, create: true, truncate: false, append: false }
}

fn fresh_vfs() -> (VFS<RamFS>, u64, u32) {
    let mut slot: Option<VFS<RamFS>> = None;
    let mut ids: u64 = 1;
    init(&mut slot, &mut ids).unwrap();
    (slot.unwrap(), ids, 3)
}

fn names(vfs: &VFS<RamFS>, path: &str) -> Vec<String> {
    vfs.readdir(path).unwrap().into_iter().map(|(n, _)| n).collect()
}

#[test]
fn feature_example_mkdir_open_write_close() {
    let (mut vfs, mut ids, mut fds) = fresh_vfs();
    vfs.mkdir("/home", &mut ids).unwrap();
    let fd = vfs.open("/home/test.txt", create_rw(), &mut ids, &mut fds).unwrap();
    let data = b"Hello, k23 file system!";
    assert_eq!(vfs.write(fd, data), Ok(23));
    assert_eq!(vfs.close(fd), Ok(()));
    assert_eq!(names(&vfs, "/home"), vec!["test.txt".to_string()]);
}

#[test]
fn read_after_write_gives_the_bytes_back() {
    let (mut vfs, mut ids, mut fds) = fresh_vfs();
    let fd = vfs.open("/notes", create_rw(), &mut ids, &mut fds).unwrap();
    assert_eq!(vfs.write(fd, b"Hello"), Ok(5));
    vfs.close(fd).unwrap();
    let rd = vfs.open("/notes", OpenFlags::read_only(), &mut ids, &mut fds).unwrap();
    let mut buf = [0u8; 8];
    assert_eq!(vfs.read(rd, &mut buf), Ok(5));
    assert_eq!(&buf[..5], b"Hello");
    assert_eq!(&buf[5..], &[0, 0, 0]);
    // the offset moved past the data: the next read gets nothing
    assert_eq!(vfs.read(rd, &mut buf), Ok(0));
}

#[test]
fn writes_advance_the_offset() {
    let (mut vfs, mut ids, mut fds) = fresh_vfs();
    let fd = vfs.open("/f", create_rw(), &mut ids, &mut fds).unwrap();
    vfs.write(fd, b"abc").unwrap();
    vfs.write(fd, b"def").unwrap();
    let rd = vfs.open("/f", OpenFlags::read_only(), &mut ids, &mut fds).unwrap();
    let mut buf = [0u8; 6];
    assert_eq!(vfs.read(rd, &mut buf), Ok(6));
    assert_eq!(&buf, b"abcdef");
}

#[test]
fn append_writes_at_the_end() {
    let (mut vfs, mut ids, mut fds) = fresh_vfs();
    let fd = vfs.open("/log", create_rw(), &mut ids, &mut fds).unwrap();
    vfs.write(fd, b"one").unwrap();
    let flags = OpenFlags { read: false, write: true, create: false, truncate: false, append: true };
    let ap = vfs.open("/log", flags, &mut ids, &mut fds).unwrap();
    vfs.write(ap, b"two").unwrap();
    vfs.write(ap, b"!").unwrap();
    let rd = vfs.open("/log", OpenFlags::read_only(), &mut ids, &mut fds).unwrap();
    let mut buf = [0u8; 16];
    assert_eq!(vfs.read(rd, &mut buf), Ok(7));
    assert_eq!(&buf[..7], b"onetwo!");
}

#[test]
fn truncate_on_open_empties_the_file() {
    let (mut vfs, mut ids, mut fds) = fresh_vfs();
    let fd = vfs.open("/t", create_rw(), &mut ids, &mut fds).unwrap();
    vfs.write(fd, b"content").unwrap();
    let flags = OpenFlags { read: true, write: true, create: false, truncate: true, append: false };
    let fd2 = vfs.open("/t", flags, &mut ids, &mut fds).unwrap();
    let mut buf = [0u8; 4];
    assert_eq!(vfs.read(fd2, &mut buf), Ok(0));
}

#[test]
fn truncating_a_directory_fails_and_hands_out_no_descriptor() {
    let (mut vfs, mut ids, mut fds) = fresh_vfs();
    vfs.mkdir("/d", &mut ids).unwrap();
    let flags = OpenFlags { read: true, write: true, create: false, truncate: true, append: false };
    assert_eq!(vfs.open("/d", flags, &mut ids, &mut fds), Err("Cannot truncate directory"));
    assert_eq!(vfs.open("/d", OpenFlags::read_only(), &mut ids, &mut fds), Ok(FileDescriptor(3)));
}

#[test]
fn descriptors_count_up_from_three() {
    let (mut vfs, mut ids, mut fds) = fresh_vfs();
    let a = vfs.open("/a", create_rw(), &mut ids, &mut fds).unwrap();
    let b = vfs.open("/a", OpenFlags::read_only(), &mut ids, &mut fds).unwrap();
    assert_eq!(a, FileDescriptor(3));
    assert_eq!(b, FileDescriptor(4));
    assert_eq!(a.as_u32(), 3);
}

#[test]
fn open_missing_without_create_fails() {
    let (mut vfs, mut ids, mut fds) = fresh_vfs();
    assert_eq!(vfs.open("/missing", OpenFlags::read_only(), &mut ids, &mut fds), Err("Entry not found"));
    assert_eq!(vfs.open("relative", OpenFlags::read_only(), &mut ids, &mut fds), Err("Path must be absolute"));
    assert_eq!(vfs.open("", OpenFlags::read_only(), &mut ids, &mut fds), Err("Path must be absolute"));
}

#[test]
fn open_create_in_missing_directory_fails() {
    let (mut vfs, mut ids, mut fds) = fresh_vfs();
    assert_eq!(vfs.open("/nodir/file", create_rw(), &mut ids, &mut fds), Err("Entry not found"));
}

#[test]
fn reading_and_writing_need_the_flags() {
    let (mut vfs, mut ids, mut fds) = fresh_vfs();
    let fd = vfs.open("/x", create_rw(), &mut ids, &mut fds).unwrap();
    vfs.close(fd).unwrap();
    let ro = vfs.open("/x", OpenFlags::read_only(), &mut ids, &mut fds).unwrap();
    assert_eq!(vfs.write(ro, b"no"), Err("File not open for writing"));
    let wo = vfs.open("/x", OpenFlags::write_only(), &mut ids, &mut fds).unwrap();
    let mut buf = [0u8; 2];
    assert_eq!(vfs.read(wo, &mut buf), Err("File not open for reading"));
    let none = vfs.open("/x", OpenFlags::new(), &mut ids, &mut fds).unwrap();
    assert_eq!(vfs.read(none, &mut buf), Err("File not open for reading"));
}

#[test]
fn directories_cannot_be_read_or_written() {
    let (mut vfs, mut ids, mut fds) = fresh_vfs();
    vfs.mkdir("/d", &mut ids).unwrap();
    let fd = vfs.open("/d", OpenFlags::read_write(), &mut ids, &mut fds).unwrap();
    let mut buf = [0u8; 2];
    assert_eq!(vfs.read(fd, &mut buf), Err("Cannot read from directory"));
    assert_eq!(vfs.write(fd, b"x"), Err("Cannot write to directory"));
}

#[test]
fn close_makes_the_descriptor_invalid() {
    let (mut vfs, mut ids, mut fds) = fresh_vfs();
    let fd = vfs.open("/c", create_rw(), &mut ids, &mut fds).unwrap();
    assert_eq!(vfs.close(fd), Ok(()));
    assert_eq!(vfs.close(fd), Err("Invalid file descriptor"));
    let mut buf = [0u8; 1];
    assert_eq!(vfs.read(fd, &mut buf), Err("Invalid file descriptor"));
    assert_eq!(vfs.write(fd, b"x"), Err("Invalid file descriptor"));
}

#[test]
fn mkdir_errors() {
    let (mut vfs, mut ids, mut fds) = fresh_vfs();
    vfs.mkdir("/home", &mut ids).unwrap();
    assert_eq!(vfs.mkdir("/home", &mut ids), Err("Entry already exists"));
    assert_eq!(vfs.mkdir("/home/", &mut ids), Err("Invalid directory name"));
    assert_eq!(vfs.mkdir("/a/b", &mut ids), Err("Entry not found"));
    let fd = vfs.open("/file", create_rw(), &mut ids, &mut fds).unwrap();
    vfs.close(fd).unwrap();
    assert_eq!(vfs.mkdir("/file/sub", &mut ids), Err("Not a directory"));
}

#[test]
fn mkdir_without_slash_goes_to_the_root() {
    let (mut vfs, mut ids, _) = fresh_vfs();
    vfs.mkdir("top", &mut ids).unwrap();
    assert_eq!(names(&vfs, "/"), vec!["top".to_string()]);
}

#[test]
fn nested_directories() {
    let (mut vfs, mut ids, _) = fresh_vfs();
    vfs.mkdir("/a", &mut ids).unwrap();
    vfs.mkdir("/a/b", &mut ids).unwrap();
    vfs.mkdir("/a/b/c", &mut ids).unwrap();
    assert_eq!(names(&vfs, "/a/b"), vec!["c".to_string()]);
    assert_eq!(names(&vfs, "//a///b/"), vec!["c".to_string()]);
    assert!(names(&vfs, "/a/b/c").is_empty());
}

#[test]
fn readdir_lists_names_in_order() {
    let (mut vfs, mut ids, _) = fresh_vfs();
    vfs.mkdir("/b", &mut ids).unwrap();
    vfs.mkdir("/a", &mut ids).unwrap();
    vfs.mkdir("/c", &mut ids).unwrap();
    assert_eq!(names(&vfs, "/"), vec!["a".to_string(), "b".to_string(), "c".to_string()]);
}

#[test]
fn readdir_errors() {
    let (mut vfs, mut ids, mut fds) = fresh_vfs();
    let fd = vfs.open("/f", create_rw(), &mut ids, &mut fds).unwrap();
    vfs.close(fd).unwrap();
    assert_eq!(vfs.readdir("/f").err(), Some("Not a directory"));
    assert_eq!(vfs.readdir("/nope").err(), Some("Entry not found"));
    assert_eq!(vfs.readdir("f").err(), Some("Path must be absolute"));
}

#[test]
fn readdir_gives_the_created_inode() {
    let (mut vfs, mut ids, _) = fresh_vfs();
    vfs.mkdir("/d", &mut ids).unwrap();
    let listing = vfs.readdir("/").unwrap();
    assert_eq!(listing.len(), 1);
    assert_eq!(listing[0].0, "d");
    // the root is inode 1; the directory is the next inode
    assert_eq!(listing[0].1.as_u64(), 2);
}

#[test]
fn unlink_removes_the_entry() {
    let (mut vfs, mut ids, mut fds) = fresh_vfs();
    let fd = vfs.open("/gone", create_rw(), &mut ids, &mut fds).unwrap();
    vfs.close(fd).unwrap();
    assert_eq!(vfs.unlink("/gone"), Ok(()));
    assert_eq!(vfs.open("/gone", OpenFlags::read_only(), &mut ids, &mut fds), Err("Entry not found"));
    assert_eq!(vfs.unlink("/gone"), Err("Entry not found"));
    assert_eq!(vfs.unlink("/"), Err("Invalid filename"));
    assert_eq!(vfs.unlink("/no/such"), Err("Entry not found"));
}

#[test]
fn mount_and_unmount() {
    let (mut vfs, mut ids, _) = fresh_vfs();
    assert_eq!(vfs.mount("/", RamFS::new(&mut ids)), Err("Path already mounted"));
    assert_eq!(vfs.mount("/mnt", RamFS::new(&mut ids)), Ok(()));
    vfs.mkdir("/mnt/x", &mut ids).unwrap();
    assert_eq!(names(&vfs, "/mnt"), vec!["x".to_string()]);
    // the root file system does not see it
    assert!(names(&vfs, "/").is_empty());
    assert_eq!(vfs.unmount("/mnt"), Ok(()));
    assert_eq!(vfs.unmount("/mnt"), Err("Path not mounted"));
    // after unmounting, the path goes to the root file system again
    assert_eq!(vfs.readdir("/mnt/x").err(), Some("Entry not found"));
}

#[test]
fn files_stay_open_across_unmount() {
    let (mut vfs, mut ids, mut fds) = fresh_vfs();
    vfs.mount("/mnt", RamFS::new(&mut ids)).unwrap();
    let fd = vfs.open("/mnt/f", create_rw(), &mut ids, &mut fds).unwrap();
    vfs.unmount("/mnt").unwrap();
    assert_eq!(vfs.write(fd, b"still"), Ok(5));
}

#[test]
fn longest_mount_wins() {
    let (mut vfs, mut ids, _) = fresh_vfs();
    vfs.mount("/m", RamFS::new(&mut ids)).unwrap();
    vfs.mount("/m/deeper", RamFS::new(&mut ids)).unwrap();
    vfs.mkdir("/m/deeper/z", &mut ids).unwrap();
    assert_eq!(names(&vfs, "/m/deeper"), vec!["z".to_string()]);
    assert!(names(&vfs, "/m").is_empty());
}

#[test]
fn no_file_system_mounted() {
    let mut ids: u64 = 1;
    let mut fds: u32 = 3;
    let mut vfs: VFS<RamFS> = VFS::new();
    assert_eq!(vfs.open("/a", OpenFlags::read_only(), &mut ids, &mut fds), Err("No filesystem mounted for path"));
    assert_eq!(vfs.mkdir("/a", &mut ids), Err("No filesystem mounted for path"));
    assert_eq!(vfs.unmount("/"), Err("Path not mounted"));
}

#[test]
fn vfs_init_twice_fails() {
    let mut ids: u64 = 1;
    let mut slot: Option<VFS<RamFS>> = None;
    assert_eq!(init(&mut slot, &mut ids), Ok(()));
    assert!(slot.is_some());
    assert_eq!(init(&mut slot, &mut ids), Err("VFS already initialized"));
}

#[test]
fn open_flags_constructors() {
    assert_eq!(OpenFlags::new(), OpenFlags { read: false, write: false, create: false, truncate: false, append: false });
    assert_eq!(OpenFlags::read_only(), OpenFlags { read: true, write: false, create: false, truncate: false, append: false });
    assert_eq!(OpenFlags::write_only(), OpenFlags { read: false, write: true, create: false, truncate: false, append: false });
    assert_eq!(OpenFlags::read_write(), OpenFlags { read: true, write: true, create: false, truncate: false, append: false });
}

#[test]
fn standard_descriptors_and_counter() {
    assert_eq!(FileDescriptor::stdin(), FileDescriptor(0));
    assert_eq!(FileDescriptor::stdout(), FileDescriptor(1));
    assert_eq!(FileDescriptor::stderr(), FileDescriptor(2));
    assert_eq!(FileDescriptor::from(9u32), FileDescriptor(9));
    let mut next = u32::MAX;
    assert_eq!(FileDescriptor::new(&mut next), FileDescriptor(u32::MAX));
    assert_eq!(next, 0);
}

#[test]
fn inode_ids_and_metadata() {
    let mut next = 5u64;
    let id = InodeId::new(&mut next);
    assert_eq!(id.as_u64(), 5);
    assert_eq!(next, 6);
    let meta = InodeMeta::new(InodeType::Directory, &mut next);
    assert_eq!(meta.id, InodeId::from_u64(6));
    assert_eq!(meta.inode_type, InodeType::Directory);
    assert_eq!(meta.size, 0);
    assert_eq!(meta.permissions, 0o644);
    assert_eq!((meta.uid, meta.gid), (0, 0));
    let mut last = u64::MAX;
    assert_eq!(InodeId::new(&mut last).as_u64(), u64::MAX);
    assert_eq!(last, 0);
}

#[test]
fn parse_open_flags_bits() {
    assert_eq!(parse_open_flags(0), OpenFlags::read_only());
    assert_eq!(parse_open_flags(1), OpenFlags::write_only());
    assert_eq!(parse_open_flags(2), OpenFlags::read_write());
    assert_eq!(parse_open_flags(3), OpenFlags::new());
    assert_eq!(
        parse_open_flags(0x0040 | 0x0200 | 0x0400 | 2),
        OpenFlags { read: true, write: true, create: true, truncate: true, append: true }
    );
}

fn memory_with(path: &[u8]) -> Vec<u8> {
    let mut m = vec![0u8; 64];
    m[..path.len()].copy_from_slice(path);
    m
}

#[test]
fn syscalls_round_trip() {
    let mut ids: u64 = 1;
    let mut fds: u32 = 3;
    let mut slot: Option<VFS<RamFS>> = None;
    init(&mut slot, &mut ids).unwrap();
    let mut memory = memory_with(b"/data");
    memory[32..37].copy_from_slice(b"bytes");
    let fd = sys_open(&mut slot, 0, 5, 0x0040 | 0x0002, &memory, &mut ids, &mut fds);
    assert_eq!(fd, 3);
    assert_eq!(sys_write(&mut slot, 3, 32, 5, &memory), 5);
    assert_eq!(sys_close(&mut slot, 3), 0);
    assert_eq!(sys_close(&mut slot, 3), -1);
    let rd = sys_open(&mut slot, 0, 5, 0, &memory, &mut ids, &mut fds);
    assert_eq!(rd, 4);
    assert_eq!(sys_read(&mut slot, 4, 40, 8, &mut memory), 5);
    assert_eq!(&memory[40..45], b"bytes");
    assert_eq!(&memory[45..48], &[0, 0, 0]);
    assert_eq!(sys_read(&mut slot, 99, 40, 8, &mut memory), -1);
}

#[test]
fn syscall_rejects_invalid_utf8() {
    let mut ids: u64 = 1;
    let mut fds: u32 = 3;
    let mut slot: Option<VFS<RamFS>> = None;
    init(&mut slot, &mut ids).unwrap();
    let memory = memory_with(&[b'/', 0xFF, 0xFE]);
    assert_eq!(sys_open(&mut slot, 0, 3, 0x42, &memory, &mut ids, &mut fds), -1);
    assert_eq!(sys_mkdir(&mut slot, 0, 3, &memory, &mut ids), -1);
    assert!(slot.as_ref().unwrap().readdir("/").unwrap().is_empty());
}

#[test]
fn syscall_reads_the_path_at_the_offset() {
    let mut ids: u64 = 1;
    let mut slot: Option<VFS<RamFS>> = None;
    init(&mut slot, &mut ids).unwrap();
    let mut memory = vec![b'?'; 16];
    memory[4..8].copy_from_slice(b"/dir");
    assert_eq!(sys_mkdir(&mut slot, 4, 4, &memory, &mut ids), 0);
    assert_eq!(names(slot.as_ref().unwrap(), "/"), vec!["dir".to_string()]);
    assert_eq!(sys_mkdir(&mut slot, 4, 4, &memory, &mut ids), -1);
    assert_eq!(sys_unlink(&mut slot, 4, 4, &memory), 0);
    assert_eq!(sys_unlink(&mut slot, 4, 4, &memory), -1);
}

#[test]
fn syscalls_without_a_vfs_fail() {
    let mut ids: u64 = 1;
    let mut fds: u32 = 3;
    let mut slot: Option<VFS<RamFS>> = None;
    let mut memory = memory_with(b"/x");
    assert_eq!(sys_open(&mut slot, 0, 2, 0x42, &memory, &mut ids, &mut fds), -1);
    assert_eq!(sys_close(&mut slot, 3), -1);
    assert_eq!(sys_read(&mut slot, 3, 0, 2, &mut memory), -1);
    assert_eq!(sys_write(&mut slot, 3, 0, 2, &memory), -1);
    assert_eq!(sys_mkdir(&mut slot, 0, 2, &memory, &mut ids), -1);
    assert_eq!(sys_unlink(&mut slot, 0, 2, &memory), -1);
    assert!(slot.is_none());
}

#[test]
fn ram_fs_name_and_write_bound() {
    let mut first: u64 = 1;
    assert_eq!(RamFS::new(&mut first).name(), "ramfs");
    assert_eq!(first, 2);
    let (mut vfs, mut ids, mut fds) = fresh_vfs();
    let fd = vfs.open("/w", create_rw(), &mut ids, &mut fds).unwrap();
    vfs.write(fd, b"abc").unwrap();
    assert!(vfs.write_fits(fd, 10));
    assert!(!vfs.write_fits(fd, usize::MAX));
    assert!(vfs.write_fits(FileDescriptor(77), usize::MAX));
}

#[test]
fn inode_ids_increase_from_the_root() {
    let (mut vfs, mut ids, mut fds) = fresh_vfs();
    vfs.mkdir("/a", &mut ids).unwrap();
    vfs.mkdir("/b", &mut ids).unwrap();
    let fd = vfs.open("/c", create_rw(), &mut ids, &mut fds).unwrap();
    vfs.close(fd).unwrap();
    let ids: Vec<u64> = vfs.readdir("/").unwrap().into_iter().map(|(_, id)| id.as_u64()).collect();
    assert_eq!(ids, vec![2, 3, 4]);
}

#[test]
fn descriptors_stay_fresh_after_close() {
    let (mut vfs, mut ids, mut fds) = fresh_vfs();
    let a = vfs.open("/x", create_rw(), &mut ids, &mut fds).unwrap();
    vfs.close(a).unwrap();
    let b = vfs.open("/x", OpenFlags::read_only(), &mut ids, &mut fds).unwrap();
    assert_eq!(a, FileDescriptor(3));
    assert_eq!(b, FileDescriptor(4));
}

#[test]
fn descriptor_numbers_wrap_after_the_largest() {
    let mut next = u32::MAX - 1;
    assert_eq!(FileDescriptor::new(&mut next), FileDescriptor(u32::MAX - 1));
    assert_eq!(FileDescriptor::new(&mut next), FileDescriptor(u32::MAX));
    assert_eq!(next, 0);
}

#[test]
fn inode_ids_come_from_one_counter_across_file_systems() {
    let (mut vfs, mut ids, _) = fresh_vfs();
    vfs.mkdir("/a", &mut ids).unwrap();
    let second = RamFS::new(&mut ids);
    assert_eq!(second.root_inode().as_u64(), 3);
    vfs.mount("/mnt", second).unwrap();
    vfs.mkdir("/mnt/b", &mut ids).unwrap();
    vfs.mkdir("/c", &mut ids).unwrap();
    let in_mnt: Vec<u64> = vfs.readdir("/mnt").unwrap().into_iter().map(|(_, id)| id.as_u64()).collect();
    let in_root: Vec<u64> = vfs.readdir("/").unwrap().into_iter().map(|(_, id)| id.as_u64()).collect();
    assert_eq!(in_mnt, vec![4]);
    assert_eq!(in_root, vec![2, 5]);
    assert_eq!(ids, 6);
}

#[test]
fn descriptors_come_from_one_counter_across_vfs_instances() {
    let (mut first, mut ids, mut fds) = fresh_vfs();
    let mut slot: Option<VFS<RamFS>> = None;
    init(&mut slot, &mut ids).unwrap();
    let mut second = slot.unwrap();
    let a = first.open("/x", create_rw(), &mut ids, &mut fds).unwrap();
    let b = second.open("/y", create_rw(), &mut ids, &mut fds).unwrap();
    let c = first.open("/x", OpenFlags::read_only(), &mut ids, &mut fds).unwrap();
    assert_eq!((a, b, c), (FileDescriptor(3), FileDescriptor(4), FileDescriptor(5)));
    assert_eq!(fds, 6);
}

#[test]
fn failed_create_leaves_the_counters_alone() {
    let (mut vfs, mut ids, mut fds) = fresh_vfs();
    assert_eq!(vfs.mkdir("/no/such", &mut ids), Err("Entry not found"));
    assert_eq!(vfs.open("/missing", OpenFlags::read_only(), &mut ids, &mut fds), Err("Entry not found"));
    assert_eq!((ids, fds), (2, 3));
}
