//! Virtual File System: the file-system interface, mount points, path
//! resolution and the table of open files.
use vstd::prelude::*;

use crate::fs::file::{
    file_read_outcome, file_write_outcome, next_descriptor, opened_file, write_fits, File, FileDescriptor,
    OpenFlags, FIRST_FILE_DESCRIPTOR,
};
use crate::fs::names::str_chars;
use std::collections::BTreeMap;
use crate::fs::path::{
    bounds_view, component_bounds, components, find_last_slash, has_prefix, is_prefix, is_root_path,
    root_path, split_parent,
};
use crate::fs::inode::{
    create_outcome, fresh_node, is_dir, listing_view, lookup_outcome, next_inode_id, node_wf, read_outcome,
    remove_outcome, truncate_outcome, write_outcome, InodeId, InodeMeta, InodeType, NodeModel, FIRST_INODE_ID,
};

verus! {

broadcast use {vstd::std_specs::btree::group_btree_axioms, vstd::laws_cmp::group_laws_cmp};

/// A consistent file system: the root exists, every inode is well formed and
/// filed under its own identifier, and every directory entry names an
/// existing inode.
pub open spec fn fs_ok(nodes: Map<InodeId, NodeModel>, root: InodeId) -> bool {
    &&& nodes.dom().contains(root)
    &&& forall|id: InodeId| #[trigger] nodes.dom().contains(id) ==> node_wf(nodes[id]) && nodes[id].meta.id == id
    &&& forall|id: InodeId, k: int|
        nodes.dom().contains(id) && 0 <= k < nodes[id].entries.len() ==> nodes.dom().contains(
            (#[trigger] nodes[id].entries[k]).1,
        )
}

/// The inodes after `create` linked `name` in `dir` to the new inode `id`.
pub open spec fn created_nodes(
    nodes: Map<InodeId, NodeModel>,
    dir: InodeId,
    name: Seq<char>,
    inode_type: InodeType,
    id: InodeId,
) -> Map<InodeId, NodeModel> {
    nodes.insert(dir, create_outcome(nodes[dir], name, inode_type, id).1).insert(id, fresh_node(id, inode_type))
}

/// What `create` did, with the identifier counter going from `n` to `n2`:
/// linked `name` in directory `dir` to a new inode of `inode_type` under
/// identifier `n`, advancing the counter, or failed and changed nothing; it
/// fails when `dir` is missing, or as the directory decides.
pub open spec fn create_effect<F: FileSystem>(
    before: F,
    after: F,
    dir: InodeId,
    name: Seq<char>,
    inode_type: InodeType,
    r: Result<InodeId, &'static str>,
    n: u64,
    n2: u64,
) -> bool {
    &&& after.inv()
    &&& after.root() == before.root()
    &&& r is Err ==> after.nodes() == before.nodes() && n2 == n
    &&& !before.nodes().dom().contains(dir) ==> r == Err::<InodeId, &'static str>("Inode not found")
    &&& before.nodes().dom().contains(dir) ==> match create_outcome(before.nodes()[dir], name, inode_type, dir).0 {
        Err(e) => r == Err::<InodeId, &'static str>(e),
        Ok(_) => r matches Ok(id) && id@ == n && n2 == next_inode_id(n) && after.nodes() == created_nodes(
            before.nodes(),
            dir,
            name,
            inode_type,
            id,
        ),
    }
}

/// Every inode identifier in use is at least the first one a counter hands
/// out and below the counter `n`, which itself is at least the first.
pub open spec fn ids_below(nodes: Map<InodeId, NodeModel>, n: u64) -> bool {
    &&& FIRST_INODE_ID <= n
    &&& forall|id: InodeId| #[trigger] nodes.dom().contains(id) ==> FIRST_INODE_ID <= id@ < n
}

/// Inode identifiers are fresh: while every identifier in use lies below the
/// counter and the counter is below its largest value, `create` hands out the
/// counter, which is in use nowhere in the file system, and afterwards every
/// identifier in use lies below the advanced counter.
pub proof fn lemma_created_fresh<F: FileSystem>(
    before: F,
    after: F,
    dir: InodeId,
    name: Seq<char>,
    inode_type: InodeType,
    r: Result<InodeId, &'static str>,
    n: u64,
    n2: u64,
)
    requires
        create_effect(before, after, dir, name, inode_type, r, n, n2),
        ids_below(before.nodes(), n),
        n < u64::MAX,
    ensures
        ids_below(after.nodes(), n2),
        r matches Ok(id) ==> id@ == n && !before.nodes().dom().contains(id) && n2 == n + 1,
{
    if let Ok(id) = r {
        assert forall|x: InodeId| #[trigger] after.nodes().dom().contains(x) implies FIRST_INODE_ID <= x@ < n2 by {
            if x != id && x != dir {
                assert(before.nodes().dom().contains(x));
            }
        }
    }
}

/// What `remove` did: unlinked `name` from directory `dir` as the directory
/// decides, or failed on a missing `dir`.
pub open spec fn remove_effect<F: FileSystem>(
    before: F,
    after: F,
    dir: InodeId,
    name: Seq<char>,
    r: Result<(), &'static str>,
) -> bool {
    &&& after.inv()
    &&& after.root() == before.root()
    &&& !before.nodes().dom().contains(dir) ==> r == Err::<(), &'static str>("Inode not found")
        && after.nodes() == before.nodes()
    &&& before.nodes().dom().contains(dir) ==> r == remove_outcome(before.nodes()[dir], name).0
        && after.nodes() == before.nodes().insert(dir, remove_outcome(before.nodes()[dir], name).1)
}

/// What `truncate` did to inode `id`.
pub open spec fn truncate_effect<F: FileSystem>(
    before: F,
    after: F,
    id: InodeId,
    size: int,
    r: Result<(), &'static str>,
) -> bool {
    &&& after.inv()
    &&& after.root() == before.root()
    &&& !before.nodes().dom().contains(id) ==> r == Err::<(), &'static str>("Inode not found")
        && after.nodes() == before.nodes()
    &&& before.nodes().dom().contains(id) ==> r == truncate_outcome(before.nodes()[id], size).0
        && after.nodes() == before.nodes().insert(id, truncate_outcome(before.nodes()[id], size).1)
}

/// Filesystem trait that all filesystems must implement. Inodes are named by
/// their identifiers; an identifier that names no inode gives "Inode not
/// found".
pub trait FileSystem: Sized {
    /// The inodes, by identifier.
    spec fn nodes(&self) -> Map<InodeId, NodeModel>;

    /// The root directory.
    spec fn root(&self) -> InodeId;

    /// The internal invariant of the file system.
    spec fn inv(&self) -> bool;

    /// The invariant keeps the file system consistent.
    proof fn lemma_inv(&self)
        requires
            self.inv(),
        ensures
            fs_ok(self.nodes(), self.root()),
    ;

    /// Get the root inode of this filesystem
    fn root_inode(&self) -> (id: InodeId)
        requires
            self.inv(),
        ensures
            id == self.root(),
    ;

    /// Get filesystem name
    fn name(&self) -> &'static str;

    /// Look up `name` in directory `dir`.
    fn lookup(&self, dir: InodeId, name: &str) -> (r: Result<InodeId, &'static str>)
        requires
            self.inv(),
        ensures
            r == (if self.nodes().dom().contains(dir) {
                lookup_outcome(self.nodes()[dir], name@)
            } else {
                Err("Inode not found")
            }),
    ;

    /// Create a new inode of `inode_type` under `name` in directory `dir`,
    /// with the identifier drawn from the counter `next_id`.
    fn create(&mut self, dir: InodeId, name: &str, inode_type: InodeType, next_id: &mut u64) -> (r: Result<
        InodeId,
        &'static str,
    >)
        requires
            old(self).inv(),
        ensures
            (final(self).inv()),
            (final(self).root() == old(self).root()),
            (r is Err ==> final(self).nodes() == old(self).nodes() && *final(next_id) == *old(next_id)),
            (!old(self).nodes().dom().contains(dir) ==> r == Err::<InodeId, &'static str>("Inode not found")),
            (old(self).nodes().dom().contains(dir) ==> match create_outcome(
                old(self).nodes()[dir],
                name@,
                inode_type,
                dir,
            ).0 {
                Err(e) => r == Err::<InodeId, &'static str>(e),
                Ok(_) => r matches Ok(id) && id@ == *old(next_id) && *final(next_id) == next_inode_id(*old(next_id))
                    && final(self).nodes() == created_nodes(old(self).nodes(), dir, name@, inode_type, id),
            }),
    ;

    /// Remove `name` from directory `dir`.
    fn remove(&mut self, dir: InodeId, name: &str) -> (r: Result<(), &'static str>)
        requires
            old(self).inv(),
        ensures
            (final(self).inv()),
            (final(self).root() == old(self).root()),
            (!old(self).nodes().dom().contains(dir) ==> r == Err::<(), &'static str>("Inode not found")
                && final(self).nodes() == old(self).nodes()),
            (old(self).nodes().dom().contains(dir) ==> r == remove_outcome(old(self).nodes()[dir], name@).0
                && final(self).nodes() == old(self).nodes().insert(
                dir,
                remove_outcome(old(self).nodes()[dir], name@).1,
            )),
    ;

    /// Read from inode `id` at `offset` into `buf`.
    fn read(&self, id: InodeId, offset: usize, buf: &mut [u8]) -> (r: Result<usize, &'static str>)
        requires
            self.inv(),
        ensures
            !self.nodes().dom().contains(id) ==> r == Err::<usize, &'static str>("Inode not found")
                && final(buf)@ == old(buf)@,
            self.nodes().dom().contains(id) ==> (r, final(buf)@) == read_outcome(
                self.nodes()[id],
                offset as int,
                old(buf)@,
            ),
    ;

    /// Write `buf` to inode `id` at `offset`.
    fn write(&mut self, id: InodeId, offset: usize, buf: &[u8]) -> (r: Result<usize, &'static str>)
        requires
            old(self).inv(),
            old(self).nodes().dom().contains(id) && !is_dir(old(self).nodes()[id]) ==> offset + buf@.len()
                <= usize::MAX,
        ensures
            (final(self).inv()),
            (final(self).root() == old(self).root()),
            (!old(self).nodes().dom().contains(id) ==> r == Err::<usize, &'static str>("Inode not found")
                && final(self).nodes() == old(self).nodes()),
            (old(self).nodes().dom().contains(id) ==> r == write_outcome(
                old(self).nodes()[id],
                offset as int,
                buf@,
            ).0 && final(self).nodes() == old(self).nodes().insert(
                id,
                write_outcome(old(self).nodes()[id], offset as int, buf@).1,
            )),
    ;

    /// Truncate inode `id` to `size` bytes.
    fn truncate(&mut self, id: InodeId, size: usize) -> (r: Result<(), &'static str>)
        requires
            old(self).inv(),
        ensures
            (final(self).inv()),
            (final(self).root() == old(self).root()),
            (!old(self).nodes().dom().contains(id) ==> r == Err::<(), &'static str>("Inode not found")
                && final(self).nodes() == old(self).nodes()),
            (old(self).nodes().dom().contains(id) ==> r == truncate_outcome(old(self).nodes()[id], size as int).0
                && final(self).nodes() == old(self).nodes().insert(
                id,
                truncate_outcome(old(self).nodes()[id], size as int).1,
            )),
    ;

    /// The metadata of inode `id`.
    fn metadata(&self, id: InodeId) -> (r: Result<InodeMeta, &'static str>)
        requires
            self.inv(),
        ensures
            !self.nodes().dom().contains(id) ==> r == Err::<InodeMeta, &'static str>("Inode not found"),
            self.nodes().dom().contains(id) ==> r == Ok::<InodeMeta, &'static str>(self.nodes()[id].meta),
    ;

    /// The entries of directory `id`, in name order.
    fn readdir(&self, id: InodeId) -> (r: Result<Vec<(String, InodeId)>, &'static str>)
        requires
            self.inv(),
        ensures
            !self.nodes().dom().contains(id) ==> (r matches Err(e) && e == "Inode not found"),
            self.nodes().dom().contains(id) && !is_dir(self.nodes()[id]) ==> (r matches Err(e) && e
                == "Not a directory"),
            self.nodes().dom().contains(id) && is_dir(self.nodes()[id]) ==> (r matches Ok(v) && listing_view(v@)
                == self.nodes()[id].entries),
    ;
}

/// Whether a path names an absolute location (starts with a slash).
pub open spec fn is_absolute(p: Seq<char>) -> bool {
    p.len() > 0 && p[0] == '/'
}

/// The first mount point whose path is a prefix of `p`.
pub open spec fn first_mount(ms: Seq<(Seq<char>, usize)>, p: Seq<char>) -> Option<int> {
    if exists|i: int| 0 <= i < ms.len() && is_prefix(#[trigger] ms[i].0, p) {
        Some(
            choose|i: int|
                0 <= i < ms.len() && is_prefix(#[trigger] ms[i].0, p) && forall|j: int|
                    0 <= j < i ==> !is_prefix(#[trigger] ms[j].0, p),
        )
    } else {
        None
    }
}

/// Where the path below a mount point starts: the whole path under the root
/// mount, else what follows the mount path.
pub open spec fn relative_start(mount_path: Seq<char>) -> int {
    if is_root_path(mount_path) {
        0
    } else {
        mount_path.len() as int
    }
}

/// Following `comps` from inode `cur`, one directory lookup at a time.
pub open spec fn walk(nodes: Map<InodeId, NodeModel>, cur: InodeId, comps: Seq<Seq<char>>) -> Result<
    InodeId,
    &'static str,
>
    decreases comps.len(),
{
    if comps.len() == 0 {
        Ok(cur)
    } else if !nodes.dom().contains(cur) {
        Err("Inode not found")
    } else {
        match lookup_outcome(nodes[cur], comps[0]) {
            Ok(next) => if nodes.dom().contains(next) {
                walk(nodes, next, comps.drop_first())
            } else {
                Err("Inode not found")
            },
            Err(e) => Err(e),
        }
    }
}

/// The file system and inode that an absolute path names.
pub open spec fn resolve<F: FileSystem>(fss: Seq<F>, ms: Seq<(Seq<char>, usize)>, p: Seq<char>) -> Result<
    (usize, InodeId),
    &'static str,
> {
    if !is_absolute(p) {
        Err("Path must be absolute")
    } else {
        match first_mount(ms, p) {
            None => Err("No filesystem mounted for path"),
            Some(i) => {
                let fsi = ms[i].1;
                match walk(fss[fsi as int].nodes(), fss[fsi as int].root(), components(p, relative_start(ms[i].0))) {
                    Ok(id) => Ok((fsi, id)),
                    Err(e) => Err(e),
                }
            },
        }
    }
}

/// The number of bytes of the UTF-8 encoding of a path.
pub open spec fn byte_len(p: Seq<char>) -> nat {
    vstd::utf8::encode_utf8(p).len()
}

/// Whether `path` is one of the mount paths.
pub open spec fn is_mounted(ms: Seq<(Seq<char>, usize)>, path: Seq<char>) -> bool {
    exists|i: int| 0 <= i < ms.len() && (#[trigger] ms[i]).0 == path
}

/// Position `p` is where a mount at `path` goes among the mount points,
/// longest path first: after every path at least as long, before every
/// shorter one.
pub open spec fn mount_slot(ms: Seq<(Seq<char>, usize)>, path: Seq<char>, p: int) -> bool {
    &&& 0 <= p <= ms.len()
    &&& forall|j: int| 0 <= j < p ==> byte_len((#[trigger] ms[j]).0) >= byte_len(path)
    &&& forall|j: int| p <= j < ms.len() ==> byte_len((#[trigger] ms[j]).0) < byte_len(path)
}

/// What making an inode of `inode_type` at path `p` did to the file systems
/// `fss`, now `after`: `invalid` when the final name is empty, else the
/// error of resolving the parent, else the file system's `create` of the
/// name in the parent directory, which leaves the other file systems alone.
pub open spec fn make_effect<F: FileSystem>(
    fss: Seq<F>,
    ms: Seq<(Seq<char>, usize)>,
    after: Seq<F>,
    p: Seq<char>,
    inode_type: InodeType,
    invalid: &'static str,
    r: Result<(), &'static str>,
    n: u64,
    n2: u64,
) -> bool {
    let (parent, name) = split_parent(p);
    if name.len() == 0 {
        r == Err::<(), &'static str>(invalid) && after == fss && n2 == n
    } else {
        match resolve(fss, ms, parent) {
            Err(e) => r == Err::<(), &'static str>(e) && after == fss && n2 == n,
            Ok((i, dir)) => {
                &&& after == fss.update(i as int, after[i as int])
                &&& match r {
                    Err(e) => create_effect(fss[i as int], after[i as int], dir, name, inode_type, Err(e), n, n2),
                    Ok(_) => exists|id: InodeId|
                        #[trigger] create_effect(fss[i as int], after[i as int], dir, name, inode_type, Ok(id), n, n2),
                }
            },
        }
    }
}

/// What unlinking path `p` did to the file systems `fss`, now `after`: an
/// error for an empty final name, else the error of resolving the parent,
/// else the file system's `remove` of the name from the parent directory.
pub open spec fn unlink_effect<F: FileSystem>(
    fss: Seq<F>,
    ms: Seq<(Seq<char>, usize)>,
    after: Seq<F>,
    p: Seq<char>,
    r: Result<(), &'static str>,
) -> bool {
    let (parent, name) = split_parent(p);
    if name.len() == 0 {
        r == Err::<(), &'static str>("Invalid filename") && after == fss
    } else {
        match resolve(fss, ms, parent) {
            Err(e) => r == Err::<(), &'static str>(e) && after == fss,
            Ok((i, dir)) => after == fss.update(i as int, after[i as int]) && remove_effect(
                fss[i as int],
                after[i as int],
                dir,
                name,
                r,
            ),
        }
    }
}

/// What `open` did once the path named inode `id` of file system `i` of
/// `fss`: truncated the inode when asked to for a writer (an error there
/// ends it), then handed out descriptor `counter` for the inode at offset 0,
/// replacing whatever was open under that number, and advanced the counter
/// to `counter2`.
pub open spec fn open_at<F: FileSystem>(
    fss: Seq<F>,
    files: Map<u32, File>,
    counter: u32,
    counter2: u32,
    after: VFS<F>,
    i: usize,
    id: InodeId,
    flags: OpenFlags,
    r: Result<FileDescriptor, &'static str>,
) -> bool {
    let trunc = flags.truncate && flags.write;
    let t = truncate_outcome(fss[i as int].nodes()[id], 0);
    &&& after.fss() == fss.update(i as int, after.fss()[i as int])
    &&& trunc ==> truncate_effect(fss[i as int], after.fss()[i as int], id, 0, t.0)
    &&& !trunc ==> after.fss()[i as int] == fss[i as int]
    &&& if trunc && t.0 is Err {
        &&& r == Err::<FileDescriptor, &'static str>(t.0->Err_0)
        &&& after.files() == files
        &&& counter2 == counter
    } else {
        &&& r == Ok::<FileDescriptor, &'static str>(FileDescriptor(counter))
        &&& counter2 == next_descriptor(counter)
        &&& after.files() == files.insert(counter, opened_file(id, flags, i))
    }
}

/// What `open` of path `p` did after the file systems became `mid` (by
/// creating the file, or not): opened what `p` resolves to there, or failed
/// with the resolution error and changed nothing more.
pub open spec fn open_in<F: FileSystem>(
    before: VFS<F>,
    mid: Seq<F>,
    after: VFS<F>,
    p: Seq<char>,
    flags: OpenFlags,
    r: Result<FileDescriptor, &'static str>,
    c: u32,
    c2: u32,
) -> bool {
    match resolve(mid, before.mounts(), p) {
        Ok((i, id)) => open_at(mid, before.files(), c, c2, after, i, id, flags, r),
        Err(e) => {
            &&& r == Err::<FileDescriptor, &'static str>(e)
            &&& after.fss() == mid
            &&& after.files() == before.files()
            &&& c2 == c
        },
    }
}

/// What `open` of path `p` with `flags` did, with the identifier counter
/// going from `n` to `n2` and the descriptor counter from `c` to `c2`: a path
/// that does not resolve is created as a regular file when `flags.create`
/// asks for it, then resolved again.
pub open spec fn open_effect<F: FileSystem>(
    before: VFS<F>,
    after: VFS<F>,
    p: Seq<char>,
    flags: OpenFlags,
    r: Result<FileDescriptor, &'static str>,
    n: u64,
    n2: u64,
    c: u32,
    c2: u32,
) -> bool {
    if resolve(before.fss(), before.mounts(), p) is Ok || !flags.create {
        n2 == n && open_in(before, before.fss(), after, p, flags, r, c, c2)
    } else {
        exists|mid: Seq<F>, rc: Result<(), &'static str>|
            #[trigger] make_effect(before.fss(), before.mounts(), mid, p, InodeType::File, "Invalid filename", rc, n, n2)
                && match rc {
                Err(e) => {
                    &&& r == Err::<FileDescriptor, &'static str>(e)
                    &&& after.fss() == mid
                    &&& after.files() == before.files()
                    &&& c2 == c
                },
                Ok(_) => open_in(before, mid, after, p, flags, r, c, c2),
            }
    }
}

/// Every open descriptor is at least the first one handed out and below the
/// counter `c`, which itself is at least the first.
pub open spec fn descriptors_below(files: Map<u32, File>, c: u32) -> bool {
    &&& FIRST_FILE_DESCRIPTOR <= c
    &&& forall|k: u32| #[trigger] files.dom().contains(k) ==> FIRST_FILE_DESCRIPTOR <= k < c
}

/// Closing descriptors keeps the open ones below the counter.
pub proof fn lemma_descriptors_kept(before: Map<u32, File>, after: Map<u32, File>, c: u32)
    requires
        descriptors_below(before, c),
        after.dom().subset_of(before.dom()),
    ensures
        descriptors_below(after, c),
{
}

/// Handing out descriptor `c` as `open_at` does.
proof fn lemma_open_at_fresh<F: FileSystem>(
    fss: Seq<F>,
    before: VFS<F>,
    after: VFS<F>,
    i: usize,
    id: InodeId,
    flags: OpenFlags,
    r: Result<FileDescriptor, &'static str>,
    c: u32,
    c2: u32,
)
    requires
        open_at(fss, before.files(), c, c2, after, i, id, flags, r),
        descriptors_below(before.files(), c),
        c < u32::MAX,
    ensures
        descriptors_below(after.files(), c2),
        r matches Ok(fd) ==> fd.0 == c && c2 == fd.0 + 1,
{
    if r is Ok {
        assert forall|k: u32| #[trigger] after.files().dom().contains(k) implies FIRST_FILE_DESCRIPTOR <= k
            < c2 by {
            if k != c {
                assert(before.files().dom().contains(k));
            }
        }
    }
}

/// Descriptors start at 3 and increase: while every open descriptor lies
/// below the counter and the counter is below its largest value, `open` hands
/// out the counter, which is at least 3 and above every descriptor open
/// before (so it is none of them), advances it by one, and keeps every open
/// descriptor below it.
pub proof fn lemma_open_descriptor_fresh<F: FileSystem>(
    before: VFS<F>,
    after: VFS<F>,
    p: Seq<char>,
    flags: OpenFlags,
    r: Result<FileDescriptor, &'static str>,
    n: u64,
    n2: u64,
    c: u32,
    c2: u32,
)
    requires
        open_effect(before, after, p, flags, r, n, n2, c, c2),
        descriptors_below(before.files(), c),
        c < u32::MAX,
    ensures
        descriptors_below(after.files(), c2),
        r matches Ok(fd) ==> {
            &&& fd.0 == c
            &&& FIRST_FILE_DESCRIPTOR <= fd.0
            &&& forall|k: u32| #[trigger] before.files().dom().contains(k) ==> k < fd.0
            &&& c2 == fd.0 + 1
        },
{
    if resolve(before.fss(), before.mounts(), p) is Ok || !flags.create {
        if let Ok((i, id)) = resolve(before.fss(), before.mounts(), p) {
            lemma_open_at_fresh(before.fss(), before, after, i, id, flags, r, c, c2);
        }
    } else {
        let (mid, rc) = choose|mid: Seq<F>, rc: Result<(), &'static str>|
            #[trigger] make_effect(before.fss(), before.mounts(), mid, p, InodeType::File, "Invalid filename", rc, n, n2)
                && match rc {
                Err(e) => {
                    &&& r == Err::<FileDescriptor, &'static str>(e)
                    &&& after.fss() == mid
                    &&& after.files() == before.files()
                    &&& c2 == c
                },
                Ok(_) => open_in(before, mid, after, p, flags, r, c, c2),
            };
        if rc is Ok {
            if let Ok((i, id)) = resolve(mid, before.mounts(), p) {
                lemma_open_at_fresh(mid, before, after, i, id, flags, r, c, c2);
            }
        }
    }
}

/// A walk from an existing inode ends at an existing inode.
pub proof fn lemma_walk_exists(nodes: Map<InodeId, NodeModel>, cur: InodeId, comps: Seq<Seq<char>>)
    requires
        nodes.dom().contains(cur),
    ensures
        walk(nodes, cur, comps) matches Ok(id) ==> nodes.dom().contains(id),
    decreases comps.len(),
{
    if comps.len() > 0 {
        if let Ok(next) = lookup_outcome(nodes[cur], comps[0]) {
            if nodes.dom().contains(next) {
                lemma_walk_exists(nodes, next, comps.drop_first());
            }
        }
    }
}

/// If mount point `k` is a prefix of `p`, some first one is.
proof fn lemma_least_mount(ms: Seq<(Seq<char>, usize)>, p: Seq<char>, k: int)
    requires
        0 <= k < ms.len(),
        is_prefix(ms[k].0, p),
    ensures
        exists|i: int|
            0 <= i < ms.len() && is_prefix(#[trigger] ms[i].0, p) && forall|j: int|
                0 <= j < i ==> !is_prefix(#[trigger] ms[j].0, p),
    decreases k,
{
    if exists|j: int| 0 <= j < k && is_prefix(#[trigger] ms[j].0, p) {
        let j = choose|j: int| 0 <= j < k && is_prefix(#[trigger] ms[j].0, p);
        lemma_least_mount(ms, p, j);
    } else {
        assert(0 <= k < ms.len() && is_prefix(ms[k].0, p) && forall|j: int|
            0 <= j < k ==> !is_prefix(#[trigger] ms[j].0, p));
    }
}

/// A path resolves to an existing inode of a file system that a mount
/// point refers to.
pub proof fn lemma_resolve_exists<F: FileSystem>(fss: Seq<F>, ms: Seq<(Seq<char>, usize)>, p: Seq<char>)
    requires
        forall|i: int| 0 <= i < fss.len() ==> (#[trigger] fss[i]).inv(),
        forall|i: int| 0 <= i < ms.len() ==> (#[trigger] ms[i]).1 < fss.len(),
    ensures
        resolve(fss, ms, p) matches Ok(x) ==> x.0 < fss.len() && fss[x.0 as int].nodes().dom().contains(x.1),
{
    if is_absolute(p) {
        if let Some(i) = first_mount(ms, p) {
            let k = choose|k: int| 0 <= k < ms.len() && is_prefix(#[trigger] ms[k].0, p);
            lemma_least_mount(ms, p, k);
            let f = ms[i].1;
            fss[f as int].lemma_inv();
            lemma_walk_exists(fss[f as int].nodes(), fss[f as int].root(), components(p, relative_start(ms[i].0)));
        }
    }
}

/// Mount point information.
struct MountPoint {
    path: String,
    fs_index: usize,
}

/// Virtual File System: file systems, the paths they are mounted at (longest
/// first), and the open files.
pub struct VFS<F: FileSystem> {
    filesystems: Vec<F>,
    mount_points: Vec<MountPoint>,
    open_files: BTreeMap<u32, File>,
}

impl<F: FileSystem> VFS<F> {
    /// The file systems ever mounted, in order of mounting.
    pub closed spec fn fss(&self) -> Seq<F> {
        self.filesystems@
    }

    /// The mount points: path and file system, longest path first.
    pub closed spec fn mounts(&self) -> Seq<(Seq<char>, usize)> {
        self.mount_points@.map_values(|m: MountPoint| (m.path@, m.fs_index))
    }

    /// The open files, by descriptor number.
    pub closed spec fn files(&self) -> Map<u32, File> {
        self.open_files@
    }

    /// Well formed: every file system keeps its invariant, mount points and
    /// open files refer to file systems that exist, mount paths run from
    /// longest to shortest.
    pub closed spec fn wf(&self) -> bool {
        &&& forall|i: int| 0 <= i < self.filesystems@.len() ==> (#[trigger] self.filesystems@[i]).inv()
        &&& forall|i: int|
            0 <= i < self.mount_points@.len() ==> (#[trigger] self.mount_points@[i]).fs_index
                < self.filesystems@.len()
        &&& forall|i: int, j: int|
            0 <= i < j < self.mount_points@.len() ==> byte_len((#[trigger] self.mount_points@[i]).path@)
                >= byte_len((#[trigger] self.mount_points@[j]).path@)
        &&& forall|i: int, j: int|
            0 <= i < j < self.mount_points@.len() ==> (#[trigger] self.mount_points@[i]).path@
                != (#[trigger] self.mount_points@[j]).path@
        &&& forall|i: int| 0 <= i < self.mount_points@.len() ==> byte_len((#[trigger] self.mount_points@[i]).path@) <= usize::MAX
        &&& forall|k: u32| #[trigger] self.open_files@.contains_key(k) ==> self.open_files@[k].fs()
            < self.filesystems@.len()
    }

    /// Facts that well-formedness gives callers.
    pub proof fn lemma_wf(&self)
        requires
            self.wf(),
        ensures
            forall|i: int| 0 <= i < self.fss().len() ==> (#[trigger] self.fss()[i]).inv(),
            forall|i: int| 0 <= i < self.mounts().len() ==> (#[trigger] self.mounts()[i]).1 < self.fss().len(),
            forall|k: u32| #[trigger] self.files().dom().contains(k) ==> self.files()[k].fs() < self.fss().len(),
            forall|i: int, j: int|
                0 <= i < j < self.mounts().len() ==> byte_len((#[trigger] self.mounts()[i]).0) >= byte_len(
                    (#[trigger] self.mounts()[j]).0,
                ) && self.mounts()[i].0 != self.mounts()[j].0,
    {
    }

    /// No file systems, mounts or open files.
    pub fn new() -> (v: Self)
        ensures
            v.wf(),
            v.fss() == Seq::<F>::empty(),
            v.mounts() == Seq::<(Seq<char>, usize)>::empty(),
            v.files() == Map::<u32, File>::empty(),
    {
        let v = VFS { filesystems: Vec::new(), mount_points: Vec::new(), open_files: BTreeMap::new() };
        assert(v.mounts() =~= Seq::<(Seq<char>, usize)>::empty());
        assert(v.files() =~= Map::<u32, File>::empty());
        v
    }

    /// Mount a file system at `path`, after every mount point whose path is
    /// at least as long; a path mounted already is refused.
    pub fn mount(&mut self, path: &str, filesystem: F) -> (r: Result<(), &'static str>)
        requires
            old(self).wf(),
            filesystem.inv(),
            byte_len(path@) <= usize::MAX,
        ensures
            final(self).wf(),
            final(self).files() == old(self).files(),
            is_mounted(old(self).mounts(), path@) ==> r == Err::<(), &'static str>("Path already mounted")
                && final(self).fss() == old(self).fss() && final(self).mounts() == old(self).mounts(),
            !is_mounted(old(self).mounts(), path@) ==> r == Ok::<(), &'static str>(())
                && final(self).fss() == old(self).fss().push(filesystem)
                && exists|p: int|
                mount_slot(old(self).mounts(), path@, p) && final(self).mounts() == old(self).mounts().insert(
                    p,
                    (path@, old(self).fss().len() as usize),
                ),
    {
        let ghost ms = self.mounts();
        let new_path = String::from_str(path);
        let mut i: usize = 0;
        while i < self.mount_points.len()
            invariant
                self.wf(),
                ms == self.mounts(),
                new_path@ == path@,
                i <= self.mount_points@.len(),
                ms.len() == self.mount_points@.len(),
                forall|j: int| 0 <= j < i ==> (#[trigger] ms[j]).0 != path@,
            decreases self.mount_points@.len() - i,
        {
            assert(ms[i as int].0 == self.mount_points@[i as int].path@);
            if self.mount_points[i].path == new_path {
                return Err("Path already mounted");
            }
            i = i + 1;
        }
        let len = path.len();
        let mut p: usize = 0;
        while p < self.mount_points.len() && self.mount_points[p].path.as_str().len() >= len
            invariant
                self.wf(),
                ms == self.mounts(),
                len == byte_len(path@),
                p <= self.mount_points@.len(),
                ms.len() == self.mount_points@.len(),
                forall|j: int| 0 <= j < p ==> byte_len((#[trigger] ms[j]).0) >= byte_len(path@),
            decreases self.mount_points@.len() - p,
        {
            assert(ms[p as int].0 == self.mount_points@[p as int].path@);
            p = p + 1;
        }
        proof {
            self.lemma_wf();
            if p < ms.len() {
                assert(ms[p as int].0 == self.mount_points@[p as int].path@);
                assert forall|j: int| p <= j < ms.len() implies byte_len((#[trigger] ms[j]).0) < byte_len(path@) by {
                    if j > p {
                        assert(byte_len(ms[p as int].0) >= byte_len(ms[j].0));
                    }
                }
            }
            assert(mount_slot(ms, path@, p as int));
        }
        let fs_index = self.filesystems.len();
        self.filesystems.push(filesystem);
        self.mount_points.insert(p, MountPoint { path: new_path, fs_index });
        proof {
            assert(self.mounts() =~= ms.insert(p as int, (path@, fs_index)));
            assert forall|a: int| 0 <= a < self.filesystems@.len() implies (#[trigger] self.filesystems@[a]).inv() by {
                if a < self.filesystems@.len() - 1 {
                    assert(self.filesystems@[a] == old(self).filesystems@[a]);
                }
            }
            assert forall|a: int, b: int|
                0 <= a < b < self.mount_points@.len() implies (#[trigger] self.mount_points@[a]).path@
                != (#[trigger] self.mount_points@[b]).path@ by {
                let x = if a < p { a } else if a == p { -1 } else { a - 1 };
                let y = if b < p { b } else if b == p { -1 } else { b - 1 };
                if x >= 0 && y >= 0 {
                    assert(self.mount_points@[a] == old(self).mount_points@[x]);
                    assert(self.mount_points@[b] == old(self).mount_points@[y]);
                } else if x >= 0 {
                    assert(self.mount_points@[a].path@ == ms[x].0);
                } else {
                    assert(self.mount_points@[b].path@ == ms[y].0);
                }
            }
            assert forall|a: int, b: int|
                0 <= a < b < self.mount_points@.len() implies byte_len((#[trigger] self.mount_points@[a]).path@)
                >= byte_len((#[trigger] self.mount_points@[b]).path@) by {
                let x = if a < p { a } else if a == p { -1 } else { a - 1 };
                let y = if b < p { b } else if b == p { -1 } else { b - 1 };
                if x >= 0 && y >= 0 {
                    assert(self.mount_points@[a] == old(self).mount_points@[x]);
                    assert(self.mount_points@[b] == old(self).mount_points@[y]);
                } else if x >= 0 {
                    assert(self.mount_points@[a].path@ == ms[x].0);
                } else {
                    assert(self.mount_points@[b].path@ == ms[y].0);
                }
            }
            assert forall|a: int| 0 <= a < self.mount_points@.len() implies (#[trigger] self.mount_points@[a]).fs_index
                < self.filesystems@.len() by {
                if a < p {
                    assert(self.mount_points@[a] == old(self).mount_points@[a]);
                } else if a > p {
                    assert(self.mount_points@[a] == old(self).mount_points@[a - 1]);
                }
            }
            assert forall|a: int| 0 <= a < self.mount_points@.len() implies byte_len((#[trigger] self.mount_points@[a]).path@) <= usize::MAX by {
                if a < p {
                    assert(self.mount_points@[a] == old(self).mount_points@[a]);
                } else if a > p {
                    assert(self.mount_points@[a] == old(self).mount_points@[a - 1]);
                }
            }
        }
        Ok(())
    }

    /// Unmount the file system mounted at `path`.
    pub fn unmount(&mut self, path: &str) -> (r: Result<(), &'static str>)
        requires
            old(self).wf(),
        ensures
            final(self).wf(),
            final(self).fss() == old(self).fss(),
            final(self).files() == old(self).files(),
            !is_mounted(old(self).mounts(), path@) ==> r == Err::<(), &'static str>("Path not mounted")
                && final(self).mounts() == old(self).mounts(),
            forall|i: int|
                0 <= i < old(self).mounts().len() && (#[trigger] old(self).mounts()[i]).0 == path@ ==> r == Ok::<
                    (),
                    &'static str,
                >(()) && final(self).mounts() == old(self).mounts().remove(i),
    {
        let ghost ms = self.mounts();
        let target = String::from_str(path);
        let mut i: usize = 0;
        while i < self.mount_points.len()
            invariant
                self.wf(),
                ms == self.mounts(),
                target@ == path@,
                *self == *old(self),
                i <= self.mount_points@.len(),
                ms.len() == self.mount_points@.len(),
                forall|j: int| 0 <= j < i ==> (#[trigger] ms[j]).0 != path@,
            decreases self.mount_points@.len() - i,
        {
            assert(ms[i as int].0 == self.mount_points@[i as int].path@);
            if self.mount_points[i].path == target {
                self.mount_points.remove(i);
                proof {
                    let q = i as int;
                    assert(self.mounts() =~= ms.remove(q));
                    assert forall|a: int, b: int|
                        0 <= a < b < self.mount_points@.len() implies (#[trigger] self.mount_points@[a]).path@
                        != (#[trigger] self.mount_points@[b]).path@ && byte_len(self.mount_points@[a].path@)
                        >= byte_len(self.mount_points@[b].path@) by {
                        let x = if a < q { a } else { a + 1 };
                        let y = if b < q { b } else { b + 1 };
                        assert(self.mount_points@[a] == old(self).mount_points@[x]);
                        assert(self.mount_points@[b] == old(self).mount_points@[y]);
                    }
                    assert forall|a: int| 0 <= a < self.mount_points@.len() implies (#[trigger] self.mount_points@[a]).fs_index
                        < self.filesystems@.len() && byte_len(self.mount_points@[a].path@) <= usize::MAX by {
                        let x = if a < q { a } else { a + 1 };
                        assert(self.mount_points@[a] == old(self).mount_points@[x]);
                    }
                    old(self).lemma_wf();
                    assert forall|j: int| 0 <= j < ms.len() && (#[trigger] ms[j]).0 == path@ implies j == i by {
                        if j < i {
                        } else if j > i {
                            assert(ms[i as int].0 != ms[j].0);
                        }
                    }
                }
                return Ok(());
            }
            i = i + 1;
        }
        Err("Path not mounted")
    }

    /// Create an inode of `inode_type` at `path`; `invalid` is the error for
    /// an empty final name.
    fn make_node(&mut self, path: &str, inode_type: InodeType, invalid: &'static str, next_id: &mut u64) -> (r: Result<
        (),
        &'static str,
    >)
        requires
            old(self).wf(),
        ensures
            final(self).wf(),
            final(self).mounts() == old(self).mounts(),
            final(self).files() == old(self).files(),
            make_effect(
                old(self).fss(),
                old(self).mounts(),
                final(self).fss(),
                path@,
                inode_type,
                invalid,
                r,
                *old(next_id),
                *final(next_id),
            ),
    {
        let (parent, name) = split_path(path);
        if name.is_empty() {
            return Err(invalid);
        }
        let (fsi, dir) = match self.resolve_path(parent) {
            Ok(x) => x,
            Err(e) => return Err(e),
        };
        let ghost before = self.filesystems@[fsi as int];
        let res = self.filesystems[fsi].create(dir, name, inode_type, next_id);
        proof {
            assert(self.fss() == old(self).fss().update(fsi as int, self.fss()[fsi as int]));
            assert forall|a: int| 0 <= a < self.filesystems@.len() implies (#[trigger] self.filesystems@[a]).inv() by {
                if a != fsi {
                    assert(self.filesystems@[a] == old(self).filesystems@[a]);
                }
            }
            assert(self.mounts() =~= old(self).mounts());
        }
        match res {
            Ok(id) => {
                assert(create_effect(
                    before,
                    self.filesystems@[fsi as int],
                    dir,
                    name@,
                    inode_type,
                    Ok(id),
                    *old(next_id),
                    *next_id,
                ));
                Ok(())
            },
            Err(e) => Err(e),
        }
    }

    /// Create a regular file at `path`.
    fn create_file(&mut self, path: &str, next_id: &mut u64) -> (r: Result<(), &'static str>)
        requires
            old(self).wf(),
        ensures
            final(self).wf(),
            final(self).mounts() == old(self).mounts(),
            final(self).files() == old(self).files(),
            make_effect(
                old(self).fss(),
                old(self).mounts(),
                final(self).fss(),
                path@,
                InodeType::File,
                "Invalid filename",
                r,
                *old(next_id),
                *final(next_id),
            ),
    {
        self.make_node(path, InodeType::File, "Invalid filename", next_id)
    }

    /// Create a new directory, with the identifier drawn from `next_inode`.
    pub fn mkdir(&mut self, path: &str, next_inode: &mut u64) -> (r: Result<(), &'static str>)
        requires
            old(self).wf(),
        ensures
            final(self).wf(),
            final(self).mounts() == old(self).mounts(),
            final(self).files() == old(self).files(),
            make_effect(
                old(self).fss(),
                old(self).mounts(),
                final(self).fss(),
                path@,
                InodeType::Directory,
                "Invalid directory name",
                r,
                *old(next_inode),
                *final(next_inode),
            ),
    {
        self.make_node(path, InodeType::Directory, "Invalid directory name", next_inode)
    }

    /// Remove a file or directory
    pub fn unlink(&mut self, path: &str) -> (r: Result<(), &'static str>)
        requires
            old(self).wf(),
        ensures
            final(self).wf(),
            final(self).mounts() == old(self).mounts(),
            final(self).files() == old(self).files(),
            unlink_effect(old(self).fss(), old(self).mounts(), final(self).fss(), path@, r),
    {
        let (parent, name) = split_path(path);
        if name.is_empty() {
            return Err("Invalid filename");
        }
        let (fsi, dir) = match self.resolve_path(parent) {
            Ok(x) => x,
            Err(e) => return Err(e),
        };
        let res = self.filesystems[fsi].remove(dir, name);
        proof {
            assert(self.fss() == old(self).fss().update(fsi as int, self.fss()[fsi as int]));
            assert forall|a: int| 0 <= a < self.filesystems@.len() implies (#[trigger] self.filesystems@[a]).inv() by {
                if a != fsi {
                    assert(self.filesystems@[a] == old(self).filesystems@[a]);
                }
            }
            assert(self.mounts() =~= old(self).mounts());
        }
        res
    }

    /// A path resolves to an existing inode of one of the file systems.
    pub proof fn lemma_resolved(&self, fss: Seq<F>, p: Seq<char>)
        requires
            self.wf(),
            fss.len() == self.fss().len(),
            forall|i: int| 0 <= i < fss.len() ==> (#[trigger] fss[i]).inv(),
        ensures
            resolve(fss, self.mounts(), p) matches Ok(x) ==> x.0 < fss.len() && fss[x.0 as int].nodes().dom().contains(
                x.1,
            ),
    {
        self.lemma_wf();
        lemma_resolve_exists(fss, self.mounts(), p);
    }

    /// The file open under descriptor `fd`, if any.
    fn open_file(&self, fd: FileDescriptor) -> (r: Option<File>)
        requires
            self.wf(),
        ensures
            r matches Some(f) ==> self.files().dom().contains(fd.0) && self.files()[fd.0] == f,
            r is None ==> !self.files().dom().contains(fd.0),
    {
        match self.open_files.get(&fd.0) {
            Some(f) => Some(*f),
            None => None,
        }
    }

    /// Open the resolved inode `id` of file system `fsi`.
    fn open_resolved(&mut self, fsi: usize, id: InodeId, flags: OpenFlags, next_fd: &mut u32) -> (r: Result<
        FileDescriptor,
        &'static str,
    >)
        requires
            old(self).wf(),
            fsi < old(self).fss().len(),
            old(self).fss()[fsi as int].nodes().dom().contains(id),
        ensures
            final(self).wf(),
            final(self).mounts() == old(self).mounts(),
            open_at(old(self).fss(), old(self).files(), *old(next_fd), *final(next_fd), *final(self), fsi, id, flags, r),
    {
        if flags.truncate && flags.write {
            let res = self.filesystems[fsi].truncate(id, 0);
            proof {
                assert(self.fss() == old(self).fss().update(fsi as int, self.fss()[fsi as int]));
                assert forall|a: int| 0 <= a < self.filesystems@.len() implies (#[trigger] self.filesystems@[a]).inv() by {
                    if a != fsi {
                        assert(self.filesystems@[a] == old(self).filesystems@[a]);
                    }
                }
                assert(self.mounts() =~= old(self).mounts());
            }
            if let Err(e) = res {
                return Err(e);
            }
        } else {
            assert(self.fss() =~= old(self).fss().update(fsi as int, self.fss()[fsi as int]));
        }
        let fd = FileDescriptor::new(next_fd);
        let file = File::new(id, flags, fsi);
        self.open_files.insert(fd.0, file);
        proof {
            assert(self.mounts() =~= old(self).mounts());
        }
        Ok(fd)
    }

    /// Open a file and return a file descriptor, drawn from `next_fd`; a file
    /// created on the way gets its identifier from `next_inode`.
    pub fn open(&mut self, path: &str, flags: OpenFlags, next_inode: &mut u64, next_fd: &mut u32) -> (r: Result<
        FileDescriptor,
        &'static str,
    >)
        requires
            old(self).wf(),
        ensures
            final(self).wf(),
            final(self).mounts() == old(self).mounts(),
            open_effect(
                *old(self),
                *final(self),
                path@,
                flags,
                r,
                *old(next_inode),
                *final(next_inode),
                *old(next_fd),
                *final(next_fd),
            ),
    {
        let (fsi, id) = match self.resolve_path(path) {
            Ok(x) => x,
            Err(e) => {
                if !flags.create {
                    return Err(e);
                }
                let rc = self.create_file(path, next_inode);
                let ghost mid = self.fss();
                assert(make_effect(
                    old(self).fss(),
                    old(self).mounts(),
                    mid,
                    path@,
                    InodeType::File,
                    "Invalid filename",
                    rc,
                    *old(next_inode),
                    *next_inode,
                ));
                if let Err(e2) = rc {
                    return Err(e2);
                }
                match self.resolve_path(path) {
                    Ok(x) => x,
                    Err(e3) => return Err(e3),
                }
            },
        };
        proof {
            self.lemma_resolved(self.fss(), path@);
            self.lemma_wf();
        }
        let ghost mid = *self;
        let r = self.open_resolved(fsi, id, flags, next_fd);
        proof {
            if !(resolve(old(self).fss(), old(self).mounts(), path@) is Ok || !flags.create) {
                assert(open_in(*old(self), mid.fss(), *self, path@, flags, r, *old(next_fd), *next_fd));
            }
        }
        r
    }

    /// Close a file descriptor
    pub fn close(&mut self, fd: FileDescriptor) -> (r: Result<(), &'static str>)
        requires
            old(self).wf(),
        ensures
            final(self).wf(),
            final(self).fss() == old(self).fss(),
            final(self).mounts() == old(self).mounts(),
            old(self).files().dom().contains(fd.0) ==> r == Ok::<(), &'static str>(()) && final(self).files()
                == old(self).files().remove(fd.0),
            !old(self).files().dom().contains(fd.0) ==> r == Err::<(), &'static str>("Invalid file descriptor")
                && final(self).files() == old(self).files(),
    {
        match self.open_files.remove(&fd.0) {
            Some(_) => {
                proof {
                    assert(self.mounts() =~= old(self).mounts());
                }
                Ok(())
            },
            None => Err("Invalid file descriptor"),
        }
    }

    /// Read from a file descriptor
    pub fn read(&mut self, fd: FileDescriptor, buf: &mut [u8]) -> (r: Result<usize, &'static str>)
        requires
            old(self).wf(),
        ensures
            final(self).wf(),
            final(self).fss() == old(self).fss(),
            final(self).mounts() == old(self).mounts(),
            !old(self).files().dom().contains(fd.0) ==> r == Err::<usize, &'static str>("Invalid file descriptor")
                && final(buf)@ == old(buf)@ && final(self).files() == old(self).files(),
            old(self).files().dom().contains(fd.0) ==> {
                let f = old(self).files()[fd.0];
                let out = file_read_outcome(f, old(self).fss()[f.fs() as int].nodes(), old(buf)@);
                &&& r == out.0
                &&& final(buf)@ == out.1
                &&& final(self).files() == old(self).files().insert(fd.0, out.2)
            },
    {
        let mut file = match self.open_file(fd) {
            Some(f) => f,
            None => return Err("Invalid file descriptor"),
        };
        let fsi = file.fs_index();
        let res = file.read(&self.filesystems[fsi], buf);
        self.open_files.insert(fd.0, file);
        proof {
            assert(self.mounts() =~= old(self).mounts());
        }
        res
    }

    /// Write to a file descriptor
    pub fn write(&mut self, fd: FileDescriptor, buf: &[u8]) -> (r: Result<usize, &'static str>)
        requires
            old(self).wf(),
            old(self).files().dom().contains(fd.0) ==> write_fits(
                old(self).files()[fd.0],
                old(self).fss()[old(self).files()[fd.0].fs() as int].nodes(),
                buf@.len() as int,
            ),
        ensures
            final(self).wf(),
            final(self).mounts() == old(self).mounts(),
            !old(self).files().dom().contains(fd.0) ==> r == Err::<usize, &'static str>("Invalid file descriptor")
                && final(self).fss() == old(self).fss() && final(self).files() == old(self).files(),
            old(self).files().dom().contains(fd.0) ==> {
                let f = old(self).files()[fd.0];
                let before = old(self).fss()[f.fs() as int];
                let after = final(self).fss()[f.fs() as int];
                let out = file_write_outcome(f, before.nodes(), buf@);
                &&& r == out.0
                &&& final(self).fss() == old(self).fss().update(f.fs() as int, after)
                &&& after.nodes() == out.1
                &&& after.root() == before.root()
                &&& final(self).files() == old(self).files().insert(fd.0, out.2)
            },
    {
        let mut file = match self.open_file(fd) {
            Some(f) => f,
            None => return Err("Invalid file descriptor"),
        };
        proof {
            self.lemma_wf();
        }
        let fsi = file.fs_index();
        let res = file.write(&mut self.filesystems[fsi], buf);
        self.open_files.insert(fd.0, file);
        proof {
            assert(self.fss() =~= old(self).fss().update(fsi as int, self.fss()[fsi as int]));
            assert(self.mounts() =~= old(self).mounts());
            assert forall|a: int| 0 <= a < self.filesystems@.len() implies (#[trigger] self.filesystems@[a]).inv() by {
                if a != fsi {
                    assert(self.filesystems@[a] == old(self).filesystems@[a]);
                }
            }
        }
        res
    }

    /// Whether a write of `len` bytes to `fd` stays within the address range
    /// (see `write_fits`); an unknown descriptor passes.
    pub fn write_fits(&self, fd: FileDescriptor, len: usize) -> (b: bool)
        requires
            self.wf(),
        ensures
            b == (self.files().dom().contains(fd.0) ==> write_fits(
                self.files()[fd.0],
                self.fss()[self.files()[fd.0].fs() as int].nodes(),
                len as int,
            )),
    {
        let file = match self.open_file(fd) {
            Some(f) => f,
            None => return true,
        };
        proof {
            self.lemma_wf();
        }
        let flags = file.file_flags();
        if !flags.write {
            return true;
        }
        match self.filesystems[file.fs_index()].metadata(file.file_inode()) {
            Ok(meta) => {
                proof {
                    self.filesystems@[file.fs() as int].lemma_inv();
                }
                if meta.inode_type == InodeType::Directory {
                    return true;
                }
                let at = if flags.append {
                    meta.size
                } else {
                    file.offset()
                };
                at <= usize::MAX - len
            },
            Err(_) => true,
        }
    }

    /// List directory contents
    pub fn readdir(&self, path: &str) -> (r: Result<Vec<(String, InodeId)>, &'static str>)
        requires
            self.wf(),
        ensures
            match resolve(self.fss(), self.mounts(), path@) {
                Err(e) => r matches Err(x) && x == e,
                Ok((i, id)) => {
                    let n = self.fss()[i as int].nodes()[id];
                    &&& !is_dir(n) ==> (r matches Err(x) && x == "Not a directory")
                    &&& is_dir(n) ==> (r matches Ok(v) && listing_view(v@) == n.entries)
                },
            },
    {
        proof {
            self.lemma_wf();
            self.lemma_resolved(self.fss(), path@);
        }
        let (fsi, id) = match self.resolve_path(path) {
            Ok(x) => x,
            Err(e) => return Err(e),
        };
        self.filesystems[fsi].readdir(id)
    }

    /// Find the mount point for a path: its file system and where the path
    /// below it starts.
    fn find_filesystem(&self, path: &Vec<char>) -> (r: Result<(usize, usize), &'static str>)
        requires
            self.wf(),
        ensures
            match first_mount(self.mounts(), path@) {
                None => r == Err::<(usize, usize), &'static str>("No filesystem mounted for path"),
                Some(i) => r == Ok::<(usize, usize), &'static str>(
                    (self.mounts()[i].1, relative_start(self.mounts()[i].0) as usize),
                ) && relative_start(self.mounts()[i].0) <= path@.len(),
            },
            r matches Ok(x) ==> x.0 < self.fss().len(),
    {
        let ghost ms = self.mounts();
        let mut i: usize = 0;
        while i < self.mount_points.len()
            invariant
                self.wf(),
                ms == self.mounts(),
                i <= ms.len(),
                ms.len() == self.mount_points@.len(),
                forall|j: int| 0 <= j < i ==> !is_prefix(#[trigger] ms[j].0, path@),
            decreases ms.len() - i,
        {
            let m_chars = str_chars(self.mount_points[i].path.as_str());
            assert(m_chars@ == ms[i as int].0);
            if has_prefix(&m_chars, path) {
                proof {
                    let c = choose|c: int|
                        0 <= c < ms.len() && is_prefix(#[trigger] ms[c].0, path@) && forall|j: int|
                            0 <= j < c ==> !is_prefix(#[trigger] ms[j].0, path@);
                    assert(0 <= i < ms.len() && is_prefix(ms[i as int].0, path@) && forall|j: int|
                        0 <= j < i ==> !is_prefix(#[trigger] ms[j].0, path@));
                    if c < i {
                        assert(!is_prefix(ms[c].0, path@));
                    } else if c > i {
                        assert(!is_prefix(ms[i as int].0, path@));
                    }
                }
                let start = if root_path(&m_chars) {
                    0
                } else {
                    m_chars.len()
                };
                return Ok((self.mount_points[i].fs_index, start));
            }
            i = i + 1;
        }
        Err("No filesystem mounted for path")
    }

    /// Resolve an absolute path to its file system and inode.
    #[verifier::spinoff_prover]
    fn resolve_path(&self, path: &str) -> (r: Result<(usize, InodeId), &'static str>)
        requires
            self.wf(),
        ensures
            r == resolve(self.fss(), self.mounts(), path@),
            r matches Ok(x) ==> x.0 < self.fss().len(),
    {
        let chars = str_chars(path);
        if chars.len() == 0 || chars[0] != '/' {
            return Err("Path must be absolute");
        }
        let (fsi, start) = self.find_filesystem(&chars)?;
        proof {
            self.lemma_wf();
        }
        let bounds = component_bounds(&chars, start);
        let ghost w = walk(
            self.fss()[fsi as int].nodes(),
            self.fss()[fsi as int].root(),
            components(path@, start as int),
        );
        assert(resolve(self.fss(), self.mounts(), path@) == match w {
            Ok(id) => Ok((fsi, id)),
            Err(e) => Err(e),
        });
        let id = match walk_components(&self.filesystems[fsi], path, &bounds) {
            Ok(id) => id,
            Err(e) => return Err(e),
        };
        Ok((fsi, id))
    }
}

/// The parent path and the final name of `path`.
fn split_path<'a>(path: &'a str) -> (r: (&'a str, &'a str))
    ensures
        r.0@ == split_parent(path@).0,
        r.1@ == split_parent(path@).1,
{
    let chars = str_chars(path);
    let root = "/";
    proof {
        reveal_strlit("/");
    }
    match find_last_slash(&chars) {
        Some(i) => {
            assert(i < chars@.len());
            let name = path.substring_char(i + 1, chars.len());
            if i == 0 {
                (root, name)
            } else {
                (path.substring_char(0, i), name)
            }
        },
        None => (root, path),
    }
}

/// Follow the components of `path` at `bounds` from the root of `fs`.
fn walk_components<F: FileSystem>(fs: &F, path: &str, bounds: &Vec<(usize, usize)>) -> (r: Result<
    InodeId,
    &'static str,
>)
    requires
        fs.inv(),
        forall|j: int| 0 <= j < bounds@.len() ==> (#[trigger] bounds@[j]).0 <= bounds@[j].1 <= path@.len(),
    ensures
        r == walk(fs.nodes(), fs.root(), bounds_view(path@, bounds@)),
{
    let ghost comps = bounds_view(path@, bounds@);
    let ghost nodes = fs.nodes();
    let ghost target = walk(nodes, fs.root(), comps);
    let mut cur = fs.root_inode();
    let mut k: usize = 0;
    assert(comps.skip(0) =~= comps);
    while k < bounds.len()
        invariant
            fs.inv(),
            nodes == fs.nodes(),
            comps == bounds_view(path@, bounds@),
            forall|j: int| 0 <= j < bounds@.len() ==> (#[trigger] bounds@[j]).0 <= bounds@[j].1 <= path@.len(),
            k <= bounds@.len(),
            target == walk(nodes, fs.root(), comps),
            target == walk(nodes, cur, comps.skip(k as int)),
        decreases bounds@.len() - k,
    {
        let (a, b) = bounds[k];
        let name = path.substring_char(a, b);
        let ghost rest = comps.skip(k as int);
        assert(rest[0] == comps[k as int]);
        assert(comps[k as int] == path@.subrange(a as int, b as int));
        assert(rest.drop_first() =~= comps.skip(k + 1));
        assert(rest.len() > 0);
        if fs.metadata(cur).is_err() {
            assert(target == Err::<InodeId, &'static str>("Inode not found"));
            return Err("Inode not found");
        }
        let next = match fs.lookup(cur, name) {
            Ok(n) => n,
            Err(e) => {
                assert(target == Err::<InodeId, &'static str>(e));
                return Err(e);
            },
        };
        if fs.metadata(next).is_err() {
            assert(target == Err::<InodeId, &'static str>("Inode not found"));
            return Err("Inode not found");
        }
        cur = next;
        k = k + 1;
    }
    assert(comps.skip(k as int) =~= Seq::<Seq<char>>::empty());
    Ok(cur)
}

} // verus!
