//! File system system calls for WASM host functions: a VFS, when one is
//! set up, and the caller's linear memory, where paths and buffers are given
//! by offset and length. Every failure is answered with -1.
use vstd::prelude::*;

use crate::fs::file::{file_read_outcome, file_write_outcome, write_fits, FileDescriptor, OpenFlags};
use crate::fs::inode::InodeType;
use vstd::string::StringSliceAdditionalSpecFns;
use crate::fs::vfs::{make_effect, open_effect, unlink_effect, FileSystem, VFS};

verus! {

/// `core::str::from_utf8`: the bytes as text, when they are valid UTF-8.
#[verifier::external_body]
fn str_from_utf8<'a>(bytes: &'a [u8]) -> (r: Option<&'a str>)
    ensures
        r is Some <==> vstd::utf8::valid_utf8(bytes@),
        r matches Some(s) ==> s.spec_bytes() == bytes@,
{
    match core::str::from_utf8(bytes) {
        Ok(s) => Some(s),
        Err(_) => None,
    }
}

impl From<u32> for FileDescriptor {
    fn from(fd: u32) -> (out: Self) {
        FileDescriptor(fd)
    }
}

impl vstd::std_specs::convert::FromSpecImpl<u32> for FileDescriptor {
    open spec fn obeys_from_spec() -> bool {
        true
    }

    open spec fn from_spec(v: u32) -> FileDescriptor {
        FileDescriptor(v)
    }
}

/// Open-flag bits: write only, read and write, create, truncate, append;
/// read only is the access mode 0.
pub const O_WRONLY: u32 = 0x0001;
pub const O_RDWR: u32 = 0x0002;
pub const O_CREAT: u32 = 0x0040;
pub const O_TRUNC: u32 = 0x0200;
pub const O_APPEND: u32 = 0x0400;

/// The open flags that the flag bits `flags` ask for: the access mode in the
/// two low bits (read only, write only, or both; the fourth mode grants
/// neither), and the create, truncate and append bits.
pub open spec fn open_flags_of(flags: u32) -> OpenFlags {
    let mode = flags & 3;
    OpenFlags {
        read: mode == 0 || mode == O_RDWR,
        write: mode == O_WRONLY || mode == O_RDWR,
        create: flags & O_CREAT != 0,
        truncate: flags & O_TRUNC != 0,
        append: flags & O_APPEND != 0,
    }
}

/// Decode open flags given as bits.
pub fn parse_open_flags(flags: u32) -> (f: OpenFlags)
    ensures
        f == open_flags_of(flags),
{
    let access_mode = flags & 0x0003;
    OpenFlags {
        read: access_mode == 0 || access_mode == O_RDWR,
        write: access_mode == O_WRONLY || access_mode == O_RDWR,
        create: flags & O_CREAT != 0,
        truncate: flags & O_TRUNC != 0,
        append: flags & O_APPEND != 0,
    }
}

/// Whether `[ptr, ptr + len)` is a range of a memory of `size` bytes whose
/// end can be computed in 32 bits.
pub open spec fn in_memory(ptr: u32, len: u32, size: nat) -> bool {
    ptr + len <= u32::MAX && ptr + len <= size
}

/// The bytes of `memory` at `[ptr, ptr + len)`.
pub open spec fn span(memory: Seq<u8>, ptr: u32, len: u32) -> Seq<u8> {
    memory.subrange(ptr as int, ptr + len)
}

/// The answer for a result: the count or number on success, else -1.
pub open spec fn status<T>(r: Result<T, &'static str>, ok: i32) -> i32 {
    match r {
        Ok(_) => ok,
        Err(_) => -1i32,
    }
}

/// The text of the path at `[ptr, ptr + len)` of `memory`, if it is UTF-8.
fn path_at(ptr: u32, len: u32, memory: &[u8]) -> (r: Option<&str>)
    requires
        in_memory(ptr, len, memory@.len()),
    ensures
        r is Some <==> vstd::utf8::valid_utf8(span(memory@, ptr, len)),
        r matches Some(s) ==> s@ == vstd::utf8::decode_utf8(span(memory@, ptr, len)),
{
    let bytes = vstd::slice::slice_subrange(memory, ptr as usize, (ptr + len) as usize);
    let path = str_from_utf8(bytes);
    proof {
        if let Some(s) = path {
            vstd::utf8::encode_utf8_decode_utf8(s@);
        }
    }
    path
}

/// Open a file; a file created on the way gets its identifier from
/// `next_inode`, and the descriptor comes from `next_fd`.
pub fn sys_open<F: FileSystem>(
    vfs: &mut Option<VFS<F>>,
    path_ptr: u32,
    path_len: u32,
    flags: u32,
    memory: &[u8],
    next_inode: &mut u64,
    next_fd: &mut u32,
) -> (r: i32)
    requires
        in_memory(path_ptr, path_len, memory@.len()),
        (*old(vfs)) matches Some(v) ==> v.wf(),
    ensures
        !vstd::utf8::valid_utf8(span(memory@, path_ptr, path_len)) || (*old(vfs)) is None ==> r == -1
            && *final(vfs) == *old(vfs) && *final(next_inode) == *old(next_inode) && *final(next_fd) == *old(next_fd),
        vstd::utf8::valid_utf8(span(memory@, path_ptr, path_len)) && (*old(vfs)) is Some ==> ((*final(vfs)) matches Some(after) && {
            let before = old(vfs)->0;
            &&& after.wf()
            &&& exists|res: Result<FileDescriptor, &'static str>|
                #[trigger] open_effect(
                    before,
                    after,
                    vstd::utf8::decode_utf8(span(memory@, path_ptr, path_len)),
                    open_flags_of(flags),
                    res,
                    *old(next_inode),
                    *final(next_inode),
                    *old(next_fd),
                    *final(next_fd),
                ) && r == (match res {
                    Ok(fd) => fd.0 as i32,
                    Err(_) => -1i32,
                })
        }),
{
    let path = match path_at(path_ptr, path_len, memory) {
        Some(p) => p,
        None => return -1,
    };
    match vfs {
        Some(v) => {
            let open_flags = parse_open_flags(flags);
            let res = v.open(path, open_flags, next_inode, next_fd);
            match res {
                Ok(fd) => fd.as_u32() as i32,
                Err(_) => -1,
            }
        },
        None => -1,
    }
}

/// Close a file descriptor
pub fn sys_close<F: FileSystem>(vfs: &mut Option<VFS<F>>, fd: u32) -> (r: i32)
    requires
        (*old(vfs)) matches Some(v) ==> v.wf(),
    ensures
        (*old(vfs)) is None ==> r == -1 && *final(vfs) == *old(vfs),
        (*old(vfs)) is Some ==> ((*final(vfs)) matches Some(after) && {
            let before = old(vfs)->0;
            &&& after.wf()
            &&& after.fss() == before.fss()
            &&& after.mounts() == before.mounts()
            &&& before.files().dom().contains(fd) ==> r == 0 && after.files() == before.files().remove(fd)
            &&& !before.files().dom().contains(fd) ==> r == -1 && after.files() == before.files()
        }),
{
    match vfs {
        Some(v) => {
            let fd = FileDescriptor::from(fd);
            match v.close(fd) {
                Ok(_) => 0,
                Err(_) => -1,
            }
        },
        None => -1,
    }
}

/// Read from a file descriptor
pub fn sys_read<F: FileSystem>(vfs: &mut Option<VFS<F>>, fd: u32, buf_ptr: u32, buf_len: u32, memory: &mut [u8]) -> (r: i32)
    requires
        (*old(vfs)) matches Some(v) ==> v.wf() && in_memory(buf_ptr, buf_len, old(memory)@.len()),
    ensures
        (*old(vfs)) is None ==> r == -1 && *final(vfs) == *old(vfs) && final(memory)@ == old(memory)@,
        (*old(vfs)) is Some ==> ((*final(vfs)) matches Some(after) && {
            let before = old(vfs)->0;
            let a = buf_ptr as int;
            let b = buf_ptr + buf_len;
            &&& after.wf()
            &&& after.fss() == before.fss()
            &&& after.mounts() == before.mounts()
            &&& !before.files().dom().contains(fd) ==> r == -1 && final(memory)@ == old(memory)@
                && after.files() == before.files()
            &&& before.files().dom().contains(fd) ==> {
                let f = before.files()[fd];
                let out = file_read_outcome(f, before.fss()[f.fs() as int].nodes(), span(old(memory)@, buf_ptr, buf_len));
                &&& r == status(out.0, out.0->Ok_0 as i32)
                &&& final(memory)@ == old(memory)@.subrange(0, a) + out.1 + old(memory)@.subrange(b, old(memory)@.len() as int)
                &&& after.files() == before.files().insert(fd, out.2)
            }
        }),
{
    match vfs {
        Some(v) => {
            let fd = FileDescriptor::from(fd);
            let a = buf_ptr as usize;
            let b = (buf_ptr + buf_len) as usize;
            let mut buf = vstd::slice::slice_to_vec(vstd::slice::slice_subrange(memory, a, b));
            let res = v.read(fd, buf.as_mut_slice());
            let ghost before = memory@;
            let mut k: usize = 0;
            while k < buf.len()
                invariant
                    a + buf@.len() == b,
                    b <= memory@.len(),
                    memory@.len() == before.len(),
                    k <= buf@.len(),
                    forall|j: int| 0 <= j < a ==> memory@[j] == before[j],
                    forall|j: int| b <= j < memory@.len() ==> memory@[j] == before[j],
                    forall|j: int| a + k <= j < b ==> memory@[j] == before[j],
                    forall|j: int| 0 <= j < k ==> memory@[a + j] == buf@[j],
                decreases buf@.len() - k,
            {
                memory[a + k] = buf[k];
                k = k + 1;
            }
            assert(memory@ =~= before.subrange(0, a as int) + buf@ + before.subrange(b as int, before.len() as int));
            match res {
                Ok(n) => n as i32,
                Err(_) => -1,
            }
        },
        None => -1,
    }
}

/// Write to a file descriptor
pub fn sys_write<F: FileSystem>(vfs: &mut Option<VFS<F>>, fd: u32, buf_ptr: u32, buf_len: u32, memory: &[u8]) -> (r: i32)
    requires
        (*old(vfs)) matches Some(v) ==> v.wf() && in_memory(buf_ptr, buf_len, memory@.len()) && (v.files().dom().contains(
            fd,
        ) ==> write_fits(v.files()[fd], v.fss()[v.files()[fd].fs() as int].nodes(), buf_len as int)),
    ensures
        (*old(vfs)) is None ==> r == -1 && *final(vfs) == *old(vfs),
        (*old(vfs)) is Some ==> ((*final(vfs)) matches Some(after) && {
            let before = old(vfs)->0;
            &&& after.wf()
            &&& after.mounts() == before.mounts()
            &&& !before.files().dom().contains(fd) ==> r == -1 && after.fss() == before.fss() && after.files()
                == before.files()
            &&& before.files().dom().contains(fd) ==> {
                let f = before.files()[fd];
                let fs = after.fss()[f.fs() as int];
                let out = file_write_outcome(f, before.fss()[f.fs() as int].nodes(), span(memory@, buf_ptr, buf_len));
                &&& r == status(out.0, out.0->Ok_0 as i32)
                &&& after.fss() == before.fss().update(f.fs() as int, fs)
                &&& fs.nodes() == out.1
                &&& after.files() == before.files().insert(fd, out.2)
            }
        }),
{
    match vfs {
        Some(v) => {
            let fd = FileDescriptor::from(fd);
            let buf = vstd::slice::slice_subrange(memory, buf_ptr as usize, (buf_ptr + buf_len) as usize);
            match v.write(fd, buf) {
                Ok(n) => n as i32,
                Err(_) => -1,
            }
        },
        None => -1,
    }
}

/// Create a directory, its identifier drawn from `next_inode`.
pub fn sys_mkdir<F: FileSystem>(
    vfs: &mut Option<VFS<F>>,
    path_ptr: u32,
    path_len: u32,
    memory: &[u8],
    next_inode: &mut u64,
) -> (r: i32)
    requires
        in_memory(path_ptr, path_len, memory@.len()),
        (*old(vfs)) matches Some(v) ==> v.wf(),
    ensures
        !vstd::utf8::valid_utf8(span(memory@, path_ptr, path_len)) || (*old(vfs)) is None ==> r == -1
            && *final(vfs) == *old(vfs) && *final(next_inode) == *old(next_inode),
        vstd::utf8::valid_utf8(span(memory@, path_ptr, path_len)) && (*old(vfs)) is Some ==> ((*final(vfs)) matches Some(after) && {
            let before = old(vfs)->0;
            &&& after.wf()
            &&& after.mounts() == before.mounts()
            &&& after.files() == before.files()
            &&& exists|res: Result<(), &'static str>|
                #[trigger] make_effect(
                    before.fss(),
                    before.mounts(),
                    after.fss(),
                    vstd::utf8::decode_utf8(span(memory@, path_ptr, path_len)),
                    InodeType::Directory,
                    "Invalid directory name",
                    res,
                    *old(next_inode),
                    *final(next_inode),
                ) && r == status(res, 0)
        }),
{
    let path = match path_at(path_ptr, path_len, memory) {
        Some(p) => p,
        None => return -1,
    };
    match vfs {
        Some(v) => match v.mkdir(path, next_inode) {
            Ok(_) => 0,
            Err(_) => -1,
        },
        None => -1,
    }
}

/// Remove a file or directory
pub fn sys_unlink<F: FileSystem>(vfs: &mut Option<VFS<F>>, path_ptr: u32, path_len: u32, memory: &[u8]) -> (r: i32)
    requires
        in_memory(path_ptr, path_len, memory@.len()),
        (*old(vfs)) matches Some(v) ==> v.wf(),
    ensures
        !vstd::utf8::valid_utf8(span(memory@, path_ptr, path_len)) || (*old(vfs)) is None ==> r == -1
            && *final(vfs) == *old(vfs),
        vstd::utf8::valid_utf8(span(memory@, path_ptr, path_len)) && (*old(vfs)) is Some ==> ((*final(vfs)) matches Some(after) && {
            let before = old(vfs)->0;
            &&& after.wf()
            &&& after.mounts() == before.mounts()
            &&& after.files() == before.files()
            &&& exists|res: Result<(), &'static str>|
                #[trigger] unlink_effect(
                    before.fss(),
                    before.mounts(),
                    after.fss(),
                    vstd::utf8::decode_utf8(span(memory@, path_ptr, path_len)),
                    res,
                ) && r == status(res, 0)
        }),
{
    let path = match path_at(path_ptr, path_len, memory) {
        Some(p) => p,
        None => return -1,
    };
    match vfs {
        Some(v) => match v.unlink(path) {
            Ok(_) => 0,
            Err(_) => -1,
        },
        None => -1,
    }
}

} // verus!
