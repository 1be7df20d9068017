//! File descriptors, open flags, and open files.
use vstd::prelude::*;

use crate::fs::inode::{is_dir, read_outcome, write_outcome, InodeId, NodeModel};
use crate::fs::vfs::FileSystem;

verus! {

/// File descriptor identifier.
#[derive(Debug, Clone, Copy, PartialEq, Eq, Structural, PartialOrd, Ord, Hash)]
pub struct FileDescriptor(pub u32);

/// The descriptor number after `n`, wrapping to 0 after the largest.
pub open spec fn next_descriptor(n: u32) -> u32 {
    if n == u32::MAX {
        0
    } else {
        (n + 1) as u32
    }
}

/// The descriptor the `k`-th allocation from a fresh counter hands out
/// (counting from 0): the counter after `k` allocations.
pub open spec fn descriptor_after(k: nat) -> u32
    decreases k,
{
    if k == 0 {
        FIRST_FILE_DESCRIPTOR
    } else {
        next_descriptor(descriptor_after((k - 1) as nat))
    }
}

/// Descriptors from a fresh counter start at 3 and increase: while fewer
/// than `u32::MAX - 2` have been handed out, the `k`-th is `3 + k`, so each
/// is at least 3 (none of the standard ones) and above every earlier one.
pub proof fn lemma_descriptors_increase(k: nat)
    requires
        k < u32::MAX - 2,
    ensures
        descriptor_after(k) == FIRST_FILE_DESCRIPTOR + k,
        forall|j: nat| j < k ==> descriptor_after(j) < descriptor_after(k),
    decreases k,
{
    if k > 0 {
        lemma_descriptors_increase((k - 1) as nat);
        assert forall|j: nat| j < k implies descriptor_after(j) < descriptor_after(k) by {
            if j < k - 1 {
                lemma_descriptors_increase(j);
            }
        }
    }
}

impl FileDescriptor {
    /// Allocate the descriptor `*next_fd`, and advance the counter (wrapping).
    pub fn new(next_fd: &mut u32) -> (fd: Self)
        ensures
            fd.0 == *old(next_fd),
            *final(next_fd) == next_descriptor(*old(next_fd)),
    {
        let fd = FileDescriptor(*next_fd);
        *next_fd = next_fd.wrapping_add(1);
        fd
    }

    pub fn as_u32(&self) -> (v: u32)
        ensures
            v == self.0,
    {
        self.0
    }

    /// Standard input file descriptor
    pub fn stdin() -> (fd: Self)
        ensures
            fd.0 == 0,
    {
        FileDescriptor(0)
    }

    /// Standard output file descriptor
    pub fn stdout() -> (fd: Self)
        ensures
            fd.0 == 1,
    {
        FileDescriptor(1)
    }

    /// Standard error file descriptor
    pub fn stderr() -> (fd: Self)
        ensures
            fd.0 == 2,
    {
        FileDescriptor(2)
    }
}

/// The first descriptor handed out by a new descriptor counter (after stdin,
/// stdout and stderr).
pub const FIRST_FILE_DESCRIPTOR: u32 = 3;

/// File open flags.
#[derive(Debug, Clone, Copy, PartialEq, Eq, Structural)]
pub struct OpenFlags {
    pub read: bool,
    pub write: bool,
    pub create: bool,
    pub truncate: bool,
    pub append: bool,
}

impl OpenFlags {
    /// No flags.
    pub fn new() -> (f: Self)
        ensures
            f == (OpenFlags { read: false, write: false, create: false, truncate: false, append: false }),
    {
        OpenFlags { read: false, write: false, create: false, truncate: false, append: false }
    }

    pub fn read_only() -> (f: Self)
        ensures
            f == (OpenFlags { read: true, write: false, create: false, truncate: false, append: false }),
    {
        OpenFlags { read: true, write: false, create: false, truncate: false, append: false }
    }

    pub fn write_only() -> (f: Self)
        ensures
            f == (OpenFlags { read: false, write: true, create: false, truncate: false, append: false }),
    {
        OpenFlags { read: false, write: true, create: false, truncate: false, append: false }
    }

    pub fn read_write() -> (f: Self)
        ensures
            f == (OpenFlags { read: true, write: true, create: false, truncate: false, append: false }),
    {
        OpenFlags { read: true, write: true, create: false, truncate: false, append: false }
    }
}

/// An open file: an inode of a file system, the flags it was opened with, and
/// the current offset.
#[derive(Debug, Clone, Copy)]
pub struct File {
    pub inode_id: InodeId,
    pub flags: OpenFlags,
    offset: usize,
    fs_index: usize,
}

/// Where a write lands: at the end of the file when appending, else at the
/// current offset.
pub open spec fn write_position(flags: OpenFlags, position: usize, size: usize) -> usize {
    if flags.append {
        size
    } else {
        position
    }
}

/// The file opened on inode `inode_id` of file system `fs_index` with
/// `flags`, at offset 0.
pub closed spec fn opened_file(inode_id: InodeId, flags: OpenFlags, fs_index: usize) -> File {
    File { inode_id, flags, offset: 0, fs_index }
}

/// A newly opened file is at offset 0 of its inode.
pub proof fn lemma_opened_file(inode_id: InodeId, flags: OpenFlags, fs_index: usize)
    ensures
        opened_file(inode_id, flags, fs_index).inode() == inode_id,
        opened_file(inode_id, flags, fs_index).open_flags() == flags,
        opened_file(inode_id, flags, fs_index).position() == 0,
        opened_file(inode_id, flags, fs_index).fs() == fs_index,
{
}

/// Whether a write of `len` bytes through `f` stays within the address
/// range: where it lands plus its length fits in a `usize`.
pub open spec fn write_fits(f: File, nodes: Map<InodeId, NodeModel>, len: int) -> bool {
    f.open_flags().write && nodes.dom().contains(f.inode()) && !is_dir(nodes[f.inode()]) ==> write_position(
        f.open_flags(),
        f.position(),
        nodes[f.inode()].meta.size,
    ) + len <= usize::MAX
}

/// A read through `f` into `buf`, over inodes `nodes`: the result, the
/// buffer afterwards, and the open file afterwards (advanced by the count).
pub open spec fn file_read_outcome(f: File, nodes: Map<InodeId, NodeModel>, buf: Seq<u8>) -> (
    Result<usize, &'static str>,
    Seq<u8>,
    File,
) {
    if !f.open_flags().read {
        (Err("File not open for reading"), buf, f)
    } else if !nodes.dom().contains(f.inode()) {
        (Err("Inode not found"), buf, f)
    } else {
        let out = read_outcome(nodes[f.inode()], f.position() as int, buf);
        match out.0 {
            Ok(n) => (out.0, out.1, f.with_position((f.position() + n) as usize)),
            Err(_) => (out.0, out.1, f),
        }
    }
}

/// A write of `bytes` through `f`, over inodes `nodes`: the result, the
/// inodes afterwards, and the open file afterwards (advanced by the count
/// unless appending).
pub open spec fn file_write_outcome(f: File, nodes: Map<InodeId, NodeModel>, bytes: Seq<u8>) -> (
    Result<usize, &'static str>,
    Map<InodeId, NodeModel>,
    File,
) {
    if !f.open_flags().write {
        (Err("File not open for writing"), nodes, f)
    } else if !nodes.dom().contains(f.inode()) {
        (Err("Inode not found"), nodes, f)
    } else {
        let n = nodes[f.inode()];
        let at = write_position(f.open_flags(), f.position(), n.meta.size);
        let out = write_outcome(n, at as int, bytes);
        let moved = if out.0 is Ok && !f.open_flags().append {
            f.with_position((f.position() + bytes.len()) as usize)
        } else {
            f
        };
        (out.0, nodes.insert(f.inode(), out.1), moved)
    }
}

impl File {
    /// The inode.
    pub closed spec fn inode(&self) -> InodeId {
        self.inode_id
    }

    /// The flags the file was opened with.
    pub closed spec fn open_flags(&self) -> OpenFlags {
        self.flags
    }

    /// The current offset.
    pub closed spec fn position(&self) -> usize {
        self.offset
    }

    /// Which of the VFS's file systems holds the inode.
    pub closed spec fn fs(&self) -> usize {
        self.fs_index
    }

    /// The same open file at offset `p`.
    pub closed spec fn with_position(self, p: usize) -> File {
        File { offset: p, ..self }
    }

    /// Moving an open file changes its offset only.
    pub proof fn lemma_with_position(self, p: usize)
        ensures
            self.with_position(p).inode() == self.inode(),
            self.with_position(p).open_flags() == self.open_flags(),
            self.with_position(p).fs() == self.fs(),
            self.with_position(p).position() == p,
    {
    }

    /// A file opened on inode `inode_id` of file system `fs_index`, at offset 0.
    pub fn new(inode_id: InodeId, flags: OpenFlags, fs_index: usize) -> (f: Self)
        ensures
            f == opened_file(inode_id, flags, fs_index),
            f.inode() == inode_id,
            f.open_flags() == flags,
            f.position() == 0,
            f.fs() == fs_index,
    {
        File { inode_id, flags, offset: 0, fs_index }
    }

    /// The flags the file was opened with.
    pub fn file_flags(&self) -> (f: OpenFlags)
        ensures
            f == self.open_flags(),
    {
        self.flags
    }

    /// The inode the file is open on.
    pub fn file_inode(&self) -> (i: InodeId)
        ensures
            i == self.inode(),
    {
        self.inode_id
    }

    /// Which of the VFS's file systems holds the inode.
    pub fn fs_index(&self) -> (i: usize)
        ensures
            i == self.fs(),
    {
        self.fs_index
    }

    /// Get current file offset
    pub fn offset(&self) -> (o: usize)
        ensures
            o == self.position(),
    {
        self.offset
    }

    /// Set file offset
    pub fn seek(&mut self, offset: usize) -> (r: Result<usize, &'static str>)
        ensures
            r == Ok::<usize, &'static str>(offset),
            final(self).position() == offset,
            final(self).inode() == old(self).inode(),
            final(self).open_flags() == old(self).open_flags(),
            final(self).fs() == old(self).fs(),
    {
        self.offset = offset;
        Ok(offset)
    }

    /// Read from the file at the current offset, and advance it.
    pub fn read<F: FileSystem>(&mut self, fs: &F, buf: &mut [u8]) -> (r: Result<usize, &'static str>)
        requires
            fs.inv(),
        ensures
            (r, final(buf)@, *final(self)) == file_read_outcome(*old(self), fs.nodes(), old(buf)@),
            final(self).inode() == old(self).inode(),
            final(self).open_flags() == old(self).open_flags(),
            final(self).fs() == old(self).fs(),
    {
        if !self.flags.read {
            return Err("File not open for reading");
        }
        proof {
            fs.lemma_inv();
        }
        let offset = self.offset;
        let bytes_read = fs.read(self.inode_id, offset, buf)?;
        self.offset = offset + bytes_read;
        Ok(bytes_read)
    }

    /// Write to the file at the current offset, or at its end when opened for
    /// appending; only a non-appending write advances the offset.
    pub fn write<F: FileSystem>(&mut self, fs: &mut F, buf: &[u8]) -> (r: Result<usize, &'static str>)
        requires
            old(fs).inv(),
            write_fits(*old(self), old(fs).nodes(), buf@.len() as int),
        ensures
            final(fs).inv(),
            final(fs).root() == old(fs).root(),
            (r, final(fs).nodes(), *final(self)) == file_write_outcome(*old(self), old(fs).nodes(), buf@),
            final(self).inode() == old(self).inode(),
            final(self).open_flags() == old(self).open_flags(),
            final(self).fs() == old(self).fs(),
    {
        if !self.flags.write {
            return Err("File not open for writing");
        }
        let offset = if self.flags.append {
            match fs.metadata(self.inode_id) {
                Ok(meta) => meta.size,
                Err(e) => return Err(e),
            }
        } else {
            if fs.metadata(self.inode_id).is_err() {
                return Err("Inode not found");
            }
            self.offset
        };
        let bytes_written = fs.write(self.inode_id, offset, buf)?;
        if !self.flags.append {
            self.offset = offset + bytes_written;
        }
        Ok(bytes_written)
    }
}

} // verus!
