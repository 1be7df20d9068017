//! Inodes: identifiers, types, metadata, the model of their contents, and the
//! interface that every file-system inode provides.
use vstd::prelude::*;

use crate::fs::names::name_lt;

verus! {

/// Unique inode identifier.
#[derive(Debug, Clone, Copy, PartialEq, Eq, Structural, PartialOrd, Ord, Hash)]
pub struct InodeId(u64);

impl View for InodeId {
    type V = u64;

    closed spec fn view(&self) -> u64 {
        self.0
    }
}

/// The identifier counter after `n`, wrapping to 0 after the largest.
pub open spec fn next_inode_id(n: u64) -> u64 {
    if n == u64::MAX {
        0
    } else {
        (n + 1) as u64
    }
}

/// The first identifier a fresh counter hands out.
pub const FIRST_INODE_ID: u64 = 1;

/// The identifier the `k`-th allocation from a fresh counter hands out
/// (counting from 0): the counter after `k` allocations.
pub open spec fn inode_id_after(k: nat) -> u64
    decreases k,
{
    if k == 0 {
        FIRST_INODE_ID
    } else {
        next_inode_id(inode_id_after((k - 1) as nat))
    }
}

/// Identifiers from a fresh counter start at 1 and increase: while fewer
/// than `u64::MAX` have been handed out, the `k`-th is `1 + k`, so each is
/// at least 1 and above every earlier one.
pub proof fn lemma_inode_ids_increase(k: nat)
    requires
        k < u64::MAX,
    ensures
        inode_id_after(k) == FIRST_INODE_ID + k,
        forall|j: nat| j < k ==> inode_id_after(j) < inode_id_after(k),
    decreases k,
{
    if k > 0 {
        lemma_inode_ids_increase((k - 1) as nat);
        assert forall|j: nat| j < k implies inode_id_after(j) < inode_id_after(k) by {
            if j < k - 1 {
                lemma_inode_ids_increase(j);
            }
        }
    }
}

impl InodeId {
    /// Allocate the identifier `*next_id`, and advance the counter.
    pub fn new(next_id: &mut u64) -> (id: Self)
        ensures
            id@ == *old(next_id),
            *final(next_id) == next_inode_id(*old(next_id)),
    {
        let id = InodeId(*next_id);
        *next_id = next_id.wrapping_add(1);
        id
    }

    pub fn as_u64(&self) -> (v: u64)
        ensures
            v == self@,
    {
        self.0
    }

    /// The identifier with the given number.
    pub fn from_u64(v: u64) -> (id: Self)
        ensures
            id@ == v,
    {
        InodeId(v)
    }

    /// Identifiers are equal exactly when their numbers are.
    pub proof fn lemma_view_injective(a: InodeId, b: InodeId)
        ensures
            a@ == b@ <==> a == b,
    {
    }
}

/// Inode type.
#[derive(Debug, Clone, Copy, PartialEq, Eq, Structural)]
pub enum InodeType {
    File,
    Directory,
    Symlink,
    Device,
}

/// Inode metadata.
#[derive(Debug, Clone, Copy)]
pub struct InodeMeta {
    pub id: InodeId,
    pub inode_type: InodeType,
    pub size: usize,
    pub permissions: u32,
    pub uid: u32,
    pub gid: u32,
    pub created_at: u64,
    pub modified_at: u64,
    pub accessed_at: u64,
}

/// The metadata of a new inode: empty, mode 0644, owned by root, all times 0.
pub open spec fn fresh_meta(id: InodeId, inode_type: InodeType) -> InodeMeta {
    InodeMeta {
        id,
        inode_type,
        size: 0,
        permissions: 0o644,
        uid: 0,
        gid: 0,
        created_at: 0,
        modified_at: 0,
        accessed_at: 0,
    }
}

impl InodeMeta {
    /// Metadata of a new inode of `inode_type`, under an identifier allocated
    /// from `next_id`.
    pub fn new(inode_type: InodeType, next_id: &mut u64) -> (m: Self)
        ensures
            m == fresh_meta(m.id, inode_type),
            m.id@ == *old(next_id),
            *final(next_id) == next_inode_id(*old(next_id)),
    {
        let now: u64 = 0;
        InodeMeta {
            id: InodeId::new(next_id),
            inode_type,
            size: 0,
            permissions: 0o644,
            uid: 0,
            gid: 0,
            created_at: now,
            modified_at: now,
            accessed_at: now,
        }
    }
}

/// What an inode holds: its metadata, the bytes of a file, and the entries of
/// a directory (name and inode), in name order.
pub struct NodeModel {
    pub meta: InodeMeta,
    pub data: Seq<u8>,
    pub entries: Seq<(Seq<char>, InodeId)>,
}

pub open spec fn is_dir(n: NodeModel) -> bool {
    n.meta.inode_type == InodeType::Directory
}

/// Names in strictly increasing order (so each at most once).
pub open spec fn entries_sorted(s: Seq<(Seq<char>, InodeId)>) -> bool {
    forall|i: int, j: int| 0 <= i < j < s.len() ==> name_lt(#[trigger] s[i].0, #[trigger] s[j].0)
}

/// A well-formed inode: a directory lists each name once, in order, and holds
/// no bytes; any other inode lists nothing and its size is its length.
pub open spec fn node_wf(n: NodeModel) -> bool {
    if is_dir(n) {
        entries_sorted(n.entries) && n.data.len() == 0 && n.meta.size == 0
    } else {
        n.entries.len() == 0 && n.meta.size == n.data.len()
    }
}

/// A new, empty inode.
pub open spec fn fresh_node(id: InodeId, inode_type: InodeType) -> NodeModel {
    NodeModel { meta: fresh_meta(id, inode_type), data: Seq::empty(), entries: Seq::empty() }
}

/// The inode that `name` is bound to in `s`.
pub open spec fn find_entry(s: Seq<(Seq<char>, InodeId)>, name: Seq<char>) -> Option<InodeId> {
    if exists|i: int| 0 <= i < s.len() && (#[trigger] s[i]).0 == name {
        Some(s[choose|i: int| 0 <= i < s.len() && (#[trigger] s[i]).0 == name].1)
    } else {
        None
    }
}

/// Every entry before `p` sorts below `name`, and none from `p` on.
pub open spec fn is_name_pos(s: Seq<(Seq<char>, InodeId)>, name: Seq<char>, p: int) -> bool {
    &&& 0 <= p <= s.len()
    &&& forall|i: int| 0 <= i < p ==> name_lt(#[trigger] s[i].0, name)
    &&& forall|i: int| p <= i < s.len() ==> !name_lt(#[trigger] s[i].0, name)
}

/// The entries with `name` bound to `id`, in its place by name.
pub open spec fn insert_entry(s: Seq<(Seq<char>, InodeId)>, name: Seq<char>, id: InodeId) -> Seq<
    (Seq<char>, InodeId),
> {
    s.insert(choose|p: int| is_name_pos(s, name, p), (name, id))
}

/// The entries without `name`.
pub open spec fn remove_entry(s: Seq<(Seq<char>, InodeId)>, name: Seq<char>) -> Seq<(Seq<char>, InodeId)> {
    s.remove(choose|i: int| 0 <= i < s.len() && (#[trigger] s[i]).0 == name)
}

/// `data` with `bytes` written at `offset`, zero-filled up to there if it was
/// shorter.
pub open spec fn write_bytes(data: Seq<u8>, offset: int, bytes: Seq<u8>) -> Seq<u8> {
    let end = offset + bytes.len();
    Seq::new(
        if end > data.len() {
            end as nat
        } else {
            data.len()
        },
        |i: int|
            if offset <= i < end {
                bytes[i - offset]
            } else if i < data.len() {
                data[i]
            } else {
                0
            },
    )
}

/// `data` cut or zero-extended to `size` bytes.
pub open spec fn resize_bytes(data: Seq<u8>, size: int) -> Seq<u8> {
    Seq::new(size as nat, |i: int| if i < data.len() { data[i] } else { 0 })
}

/// How many bytes a read of `len` bytes at `offset` gets from `data`.
pub open spec fn read_count(data: Seq<u8>, offset: int, len: int) -> int {
    if offset >= data.len() {
        0
    } else if len < data.len() - offset {
        len
    } else {
        data.len() - offset
    }
}

/// A read into `buf` at `offset`: the count, and the buffer afterwards.
pub open spec fn read_outcome(n: NodeModel, offset: int, buf: Seq<u8>) -> (Result<usize, &'static str>, Seq<u8>) {
    if is_dir(n) {
        (Err("Cannot read from directory"), buf)
    } else {
        let k = read_count(n.data, offset, buf.len() as int);
        (Ok(k as usize), Seq::new(buf.len(), |i: int| if i < k { n.data[offset + i] } else { buf[i] }))
    }
}

/// A write of `bytes` at `offset`: the count, and the inode afterwards.
pub open spec fn write_outcome(n: NodeModel, offset: int, bytes: Seq<u8>) -> (Result<usize, &'static str>, NodeModel) {
    if is_dir(n) {
        (Err("Cannot write to directory"), n)
    } else {
        let d = write_bytes(n.data, offset, bytes);
        (Ok(bytes.len() as usize), NodeModel { meta: InodeMeta { size: d.len() as usize, ..n.meta }, data: d, ..n })
    }
}

/// A truncation to `size` bytes: the inode afterwards.
pub open spec fn truncate_outcome(n: NodeModel, size: int) -> (Result<(), &'static str>, NodeModel) {
    if is_dir(n) {
        (Err("Cannot truncate directory"), n)
    } else {
        (
            Ok(()),
            NodeModel {
                meta: InodeMeta { size: size as usize, ..n.meta },
                data: resize_bytes(n.data, size),
                ..n
            },
        )
    }
}

/// A lookup of `name`.
pub open spec fn lookup_outcome(n: NodeModel, name: Seq<char>) -> Result<InodeId, &'static str> {
    if !is_dir(n) {
        Err("Not a directory")
    } else {
        match find_entry(n.entries, name) {
            Some(id) => Ok(id),
            None => Err("Entry not found"),
        }
    }
}

/// Linking `name` to the new inode `id` of `inode_type`: the result, and the
/// directory afterwards.
pub open spec fn create_outcome(n: NodeModel, name: Seq<char>, inode_type: InodeType, id: InodeId) -> (
    Result<InodeId, &'static str>,
    NodeModel,
) {
    if !is_dir(n) {
        (Err("Not a directory"), n)
    } else if find_entry(n.entries, name) is Some {
        (Err("Entry already exists"), n)
    } else if inode_type != InodeType::File && inode_type != InodeType::Directory {
        (Err("Unsupported inode type"), n)
    } else {
        (Ok(id), NodeModel { entries: insert_entry(n.entries, name, id), ..n })
    }
}

/// Unlinking `name`: the result, and the directory afterwards.
pub open spec fn remove_outcome(n: NodeModel, name: Seq<char>) -> (Result<(), &'static str>, NodeModel) {
    if !is_dir(n) {
        (Err("Not a directory"), n)
    } else if find_entry(n.entries, name) is None {
        (Err("Entry not found"), n)
    } else {
        (Ok(()), NodeModel { entries: remove_entry(n.entries, name), ..n })
    }
}

/// The entries of a directory listing as names and inodes.
pub open spec fn listing_view(v: Seq<(String, InodeId)>) -> Seq<(Seq<char>, InodeId)> {
    v.map_values(|e: (String, InodeId)| (e.0@, e.1))
}

/// Inode interface that all file-system implementations provide.
pub trait Inode {
    /// What the inode holds.
    spec fn model(&self) -> NodeModel;

    /// Get inode metadata
    fn metadata(&self) -> (m: InodeMeta)
        requires
            node_wf(self.model()),
        ensures
            m == self.model().meta,
    ;

    /// Read data from the inode into `buf`, from `offset`.
    fn read(&self, offset: usize, buf: &mut [u8]) -> (r: Result<usize, &'static str>)
        requires
            node_wf(self.model()),
        ensures
            (r, final(buf)@) == read_outcome(self.model(), offset as int, old(buf)@),
    ;

    /// Write data to the inode at `offset`.
    fn write(&mut self, offset: usize, buf: &[u8]) -> (r: Result<usize, &'static str>)
        requires
            node_wf(old(self).model()),
            !is_dir(old(self).model()) ==> offset + buf@.len() <= usize::MAX,
        ensures
            node_wf(final(self).model()),
            (r, final(self).model()) == write_outcome(old(self).model(), offset as int, buf@),
    ;

    /// List directory entries (only for directories)
    fn readdir(&self) -> (r: Result<Vec<(String, InodeId)>, &'static str>)
        requires
            node_wf(self.model()),
        ensures
            !is_dir(self.model()) ==> (r matches Err(e) && e == "Not a directory"),
            is_dir(self.model()) ==> (r matches Ok(v) && listing_view(v@) == self.model().entries),
    ;

    /// Lookup a child inode by name (only for directories)
    fn lookup(&self, name: &str) -> (r: Result<InodeId, &'static str>)
        requires
            node_wf(self.model()),
        ensures
            r == lookup_outcome(self.model(), name@),
    ;

    /// Link a new child inode `id` under `name` (only for directories).
    fn create(&mut self, name: &str, inode_type: InodeType, id: InodeId) -> (r: Result<InodeId, &'static str>)
        requires
            node_wf(old(self).model()),
        ensures
            node_wf(final(self).model()),
            (r, final(self).model()) == create_outcome(old(self).model(), name@, inode_type, id),
    ;

    /// Remove a child inode (only for directories)
    fn remove(&mut self, name: &str) -> (r: Result<(), &'static str>)
        requires
            node_wf(old(self).model()),
        ensures
            node_wf(final(self).model()),
            (r, final(self).model()) == remove_outcome(old(self).model(), name@),
    ;

    /// Truncate file to specified size
    fn truncate(&mut self, size: usize) -> (r: Result<(), &'static str>)
        requires
            node_wf(old(self).model()),
        ensures
            node_wf(final(self).model()),
            (r, final(self).model()) == truncate_outcome(old(self).model(), size as int),
    ;
}

} // verus!
