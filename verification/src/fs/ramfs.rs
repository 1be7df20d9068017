//! RAM-based filesystem implementation.
use vstd::prelude::*;
use vstd::slice::SliceAdditionalExecFns;

use crate::fs::inode::{
    create_outcome, entries_sorted, find_entry, fresh_node, insert_entry, is_dir, is_name_pos, listing_view,
    lookup_outcome, next_inode_id, node_wf, read_count, read_outcome, remove_entry, remove_outcome, resize_bytes,
    truncate_outcome, write_bytes, write_outcome, Inode, InodeId, InodeMeta, InodeType, NodeModel,
};
use crate::fs::vfs::{created_nodes, fs_ok, FileSystem};
use crate::fs::names::{
    compare_names, lemma_name_lt_irreflexive, lemma_name_lt_total, lemma_name_lt_transitive, name_lt,
    str_chars,
};
use std::collections::BTreeMap;

verus! {

broadcast use {vstd::std_specs::btree::group_btree_axioms, vstd::laws_cmp::group_laws_cmp};

/// A directory entry.
struct DirEntry {
    name: String,
    id: InodeId,
}

/// RAM filesystem inode: the bytes of a file, or the entries of a directory,
/// as its type says.
struct RamFSInode {
    meta: InodeMeta,
    bytes: Vec<u8>,
    entries: Vec<DirEntry>,
}

impl RamFSInode {
    spec fn entries_model(&self) -> Seq<(Seq<char>, InodeId)> {
        self.entries@.map_values(|e: DirEntry| (e.name@, e.id))
    }

    fn new_node(meta: InodeMeta) -> (n: Self)
        ensures
            n.model() == (NodeModel { meta, data: Seq::empty(), entries: Seq::empty() }),
    {
        let n = RamFSInode { meta, bytes: Vec::new(), entries: Vec::new() };
        assert(n.entries_model() =~= Seq::empty());
        n
    }

    /// A new empty file, under an identifier allocated from `next_id`.
    fn new_file(next_id: &mut u64) -> (n: Self)
        ensures
            n.model() == fresh_node(n.model().meta.id, InodeType::File),
            n.model().meta.id@ == *old(next_id),
            *final(next_id) == next_inode_id(*old(next_id)),
    {
        RamFSInode::new_node(InodeMeta::new(InodeType::File, next_id))
    }

    /// A new empty directory, under an identifier allocated from `next_id`.
    fn new_dir(next_id: &mut u64) -> (n: Self)
        ensures
            n.model() == fresh_node(n.model().meta.id, InodeType::Directory),
            n.model().meta.id@ == *old(next_id),
            *final(next_id) == next_inode_id(*old(next_id)),
    {
        RamFSInode::new_node(InodeMeta::new(InodeType::Directory, next_id))
    }

    /// The position of `name` among the entries, if it is there.
    fn find(&self, name: &Vec<char>) -> (r: Option<usize>)
        requires
            entries_sorted(self.entries_model()),
        ensures
            find_entry(self.entries_model(), name@) is None <==> r is None,
            r matches Some(i) ==> i < self.entries@.len() && self.entries_model()[i as int].0 == name@
                && find_entry(self.entries_model(), name@) == Some(self.entries_model()[i as int].1)
                && (choose|k: int|
                0 <= k < self.entries_model().len() && (#[trigger] self.entries_model()[k]).0 == name@) == i,
    {
        let ghost s = self.entries_model();
        let mut i: usize = 0;
        while i < self.entries.len()
            invariant
                s == self.entries_model(),
                entries_sorted(s),
                i <= s.len(),
                forall|k: int| 0 <= k < i ==> (#[trigger] s[k]).0 != name@,
            decreases s.len() - i,
        {
            let chars = str_chars(self.entries[i].name.as_str());
            let (_, eq) = compare_names(&chars, name);
            if eq {
                proof {
                    lemma_entry_unique(s, i as int);
                }
                return Some(i);
            }
            i = i + 1;
        }
        None
    }
}

impl Inode for RamFSInode {
    closed spec fn model(&self) -> NodeModel {
        NodeModel { meta: self.meta, data: self.bytes@, entries: self.entries_model() }
    }

    fn metadata(&self) -> (m: InodeMeta) {
        self.meta
    }

    fn read(&self, offset: usize, buf: &mut [u8]) -> (r: Result<usize, &'static str>) {
        if self.meta.inode_type == InodeType::Directory {
            return Err("Cannot read from directory");
        }
        let ghost b0 = buf@;
        if offset >= self.bytes.len() {
            assert(buf@ =~= Seq::new(b0.len(), |i: int| if i < 0 { self.bytes@[offset + i] } else { b0[i] }));
            return Ok(0);
        }
        assert(self.bytes@.len() == self.bytes.len());
        let available = self.bytes.len() - offset;
        let to_read = if buf.len() < available {
            buf.len()
        } else {
            available
        };
        let mut i: usize = 0;
        while i < to_read
            invariant
                to_read <= buf@.len(),
                buf@.len() == b0.len(),
                self.bytes@.len() <= usize::MAX,
                offset + to_read <= self.bytes@.len(),
                i <= to_read,
                buf@ == Seq::new(b0.len(), |k: int| if k < i { self.bytes@[offset + k] } else { b0[k] }),
            decreases to_read - i,
        {
            buf.set(i, self.bytes[offset + i]);
            i = i + 1;
            assert(buf@ =~= Seq::new(b0.len(), |k: int| if k < i { self.bytes@[offset + k] } else { b0[k] }));
        }
        Ok(to_read)
    }

    fn write(&mut self, offset: usize, buf: &[u8]) -> (r: Result<usize, &'static str>) {
        if self.meta.inode_type == InodeType::Directory {
            return Err("Cannot write to directory");
        }
        let ghost d0 = self.bytes@;
        let end = offset + buf.len();
        while self.bytes.len() < end
            invariant
                self.entries@ == old(self).entries@,
                self.meta == old(self).meta,
                d0.len() <= self.bytes@.len(),
                self.bytes@.len() <= (if end > d0.len() { end as nat } else { d0.len() }),
                forall|k: int| 0 <= k < self.bytes@.len() ==> #[trigger] self.bytes@[k] == if k < d0.len() {
                    d0[k]
                } else {
                    0u8
                },
            decreases end - self.bytes@.len(),
        {
            self.bytes.push(0);
        }
        let mut i: usize = 0;
        while i < buf.len()
            invariant
                self.entries@ == old(self).entries@,
                self.meta == old(self).meta,
                end == offset + buf@.len(),
                self.bytes@.len() == (if end > d0.len() { end as nat } else { d0.len() }),
                i <= buf@.len(),
                forall|k: int|
                    0 <= k < self.bytes@.len() ==> #[trigger] self.bytes@[k] == if offset <= k < offset + i {
                        buf@[k - offset]
                    } else if k < d0.len() {
                        d0[k]
                    } else {
                        0u8
                    },
            decreases buf@.len() - i,
        {
            self.bytes.set(offset + i, buf[i]);
            i = i + 1;
        }
        assert(self.bytes@ =~= write_bytes(d0, offset as int, buf@));
        self.meta.size = self.bytes.len();
        assert(self.entries_model() == old(self).entries_model());
        assert(self.model() == write_outcome(old(self).model(), offset as int, buf@).1);
        Ok(buf.len())
    }

    fn readdir(&self) -> (r: Result<Vec<(String, InodeId)>, &'static str>) {
        if self.meta.inode_type != InodeType::Directory {
            return Err("Not a directory");
        }
        let mut v: Vec<(String, InodeId)> = Vec::new();
        let mut i: usize = 0;
        while i < self.entries.len()
            invariant
                i <= self.entries@.len(),
                v@.len() == i,
                listing_view(v@) == self.entries_model().subrange(0, i as int),
            decreases self.entries@.len() - i,
        {
            let name = self.entries[i].name.clone();
            v.push((name, self.entries[i].id));
            assert(listing_view(v@)[i as int] == self.entries_model()[i as int]);
            i = i + 1;
            assert(listing_view(v@) =~= self.entries_model().subrange(0, i as int));
        }
        assert(self.entries_model().subrange(0, i as int) =~= self.entries_model());
        Ok(v)
    }

    fn lookup(&self, name: &str) -> (r: Result<InodeId, &'static str>) {
        if self.meta.inode_type != InodeType::Directory {
            return Err("Not a directory");
        }
        let chars = str_chars(name);
        match self.find(&chars) {
            Some(i) => Ok(self.entries[i].id),
            None => Err("Entry not found"),
        }
    }

    fn create(&mut self, name: &str, inode_type: InodeType, id: InodeId) -> (r: Result<InodeId, &'static str>) {
        if self.meta.inode_type != InodeType::Directory {
            return Err("Not a directory");
        }
        let chars = str_chars(name);
        if self.find(&chars).is_some() {
            return Err("Entry already exists");
        }
        if inode_type != InodeType::File && inode_type != InodeType::Directory {
            return Err("Unsupported inode type");
        }
        let ghost s = self.entries_model();
        let mut p: usize = 0;
        while p < self.entries.len()
            invariant
                s == self.entries_model(),
                chars@ == name@,
                p <= s.len(),
                forall|k: int| 0 <= k < p ==> name_lt(#[trigger] s[k].0, name@),
            ensures
                p <= s.len(),
                forall|k: int| 0 <= k < p ==> name_lt(#[trigger] s[k].0, name@),
                p < s.len() ==> !name_lt(s[p as int].0, name@),
            decreases s.len() - p,
        {
            let entry_chars = str_chars(self.entries[p].name.as_str());
            assert(entry_chars@ == s[p as int].0);
            let (lt, _) = compare_names(&entry_chars, &chars);
            if !lt {
                break;
            }
            p = p + 1;
        }
        proof {
            lemma_insert_entry(s, name@, id, p as int);
        }
        self.entries.insert(p, DirEntry { name: name.to_owned(), id });
        assert(self.entries_model() =~= s.insert(p as int, (name@, id)));
        Ok(id)
    }

    fn remove(&mut self, name: &str) -> (r: Result<(), &'static str>) {
        if self.meta.inode_type != InodeType::Directory {
            return Err("Not a directory");
        }
        let chars = str_chars(name);
        match self.find(&chars) {
            Some(i) => {
                let ghost s = self.entries_model();
                self.entries.remove(i);
                assert(self.entries_model() =~= s.remove(i as int));
                assert forall|a: int, b: int| 0 <= a < b < s.remove(i as int).len() implies name_lt(
                    #[trigger] s.remove(i as int)[a].0,
                    #[trigger] s.remove(i as int)[b].0,
                ) by {
                    let a2 = if a < i { a } else { a + 1 };
                    let b2 = if b < i { b } else { b + 1 };
                    assert(s.remove(i as int)[a] == s[a2]);
                    assert(s.remove(i as int)[b] == s[b2]);
                }
                Ok(())
            },
            None => Err("Entry not found"),
        }
    }

    fn truncate(&mut self, size: usize) -> (r: Result<(), &'static str>) {
        if self.meta.inode_type == InodeType::Directory {
            return Err("Cannot truncate directory");
        }
        let ghost d0 = self.bytes@;
        if size <= self.bytes.len() {
            self.bytes.truncate(size);
        } else {
            while self.bytes.len() < size
                invariant
                    self.entries@ == old(self).entries@,
                    self.meta == old(self).meta,
                    d0.len() <= self.bytes@.len() <= size,
                    forall|k: int| 0 <= k < self.bytes@.len() ==> #[trigger] self.bytes@[k] == if k < d0.len() {
                        d0[k]
                    } else {
                        0u8
                    },
                decreases size - self.bytes@.len(),
            {
                self.bytes.push(0);
            }
        }
        assert(self.bytes@ =~= resize_bytes(d0, size as int));
        self.meta.size = size;
        assert(self.entries_model() == old(self).entries_model());
        assert(self.model() == truncate_outcome(old(self).model(), size as int).1);
        Ok(())
    }
}

/// RAM filesystem: every inode is filed under its identifier.
pub struct RamFS {
    inodes: BTreeMap<u64, RamFSInode>,
    root_id: InodeId,
}

impl RamFS {
    spec fn node_at(&self, id: InodeId) -> NodeModel {
        self.inodes@[id@].model()
    }

    spec fn holds(&self, id: InodeId) -> bool {
        self.inodes@.contains_key(id@)
    }

    /// A file system holding only an empty root directory, whose identifier
    /// is drawn from the counter `next_id`.
    pub fn new(next_id: &mut u64) -> (fs: Self)
        ensures
            fs.inv(),
            fs.nodes() == Map::<InodeId, NodeModel>::empty().insert(
                fs.root(),
                fresh_node(fs.root(), InodeType::Directory),
            ),
            fs.root()@ == *old(next_id),
            *final(next_id) == next_inode_id(*old(next_id)),
    {
        let root = RamFSInode::new_dir(next_id);
        let root_id = root.meta.id;
        let mut inodes: BTreeMap<u64, RamFSInode> = BTreeMap::new();
        inodes.insert(root_id.as_u64(), root);
        let fs = RamFS { inodes, root_id };
        proof {
            assert(fs.inodes@ == Map::<u64, RamFSInode>::empty().insert(root_id@, root));
            assert forall|x: InodeId| #[trigger] fs.nodes().dom().contains(x) == (x == root_id) by {
                InodeId::lemma_view_injective(x, root_id);
            }
            assert(fs.nodes() =~= Map::<InodeId, NodeModel>::empty().insert(
                fs.root(),
                fresh_node(fs.root(), InodeType::Directory),
            ));
        }
        fs
    }

    /// Take inode `id` out of the table, if the file system holds it.
    fn take(&mut self, id: InodeId) -> (r: Option<RamFSInode>)
        requires
            old(self).inv(),
        ensures
            final(self).root_id == old(self).root_id,
            old(self).nodes().dom().contains(id) <==> r is Some,
            r is None ==> final(self).inodes@ == old(self).inodes@,
            r matches Some(n) ==> n == old(self).inodes@[id@] && final(self).inodes@ == old(self).inodes@.remove(
                id@,
            ) && old(self).nodes()[id] == n.model(),
    {
        let r = self.inodes.remove(&id.as_u64());
        proof {
            if r is None {
                assert(self.inodes@ =~= old(self).inodes@);
            }
        }
        r
    }

    /// File the inode `n` back under `id`, after an operation on it that kept
    /// its identifier and left every entry it holds naming a held inode.
    fn put_back(&mut self, id: InodeId, n: RamFSInode, Ghost(before): Ghost<RamFS>)
        requires
            before.inv(),
            before.nodes().dom().contains(id),
            old(self).inodes@ == before.inodes@.remove(id@),
            old(self).root_id == before.root_id,
            n.meta.id == before.inodes@[id@].meta.id,
            node_wf(n.model()),
            forall|e: int| 0 <= e < n.model().entries.len() ==> before.holds(#[trigger] n.model().entries[e].1),
        ensures
            final(self).inv(),
            final(self).root_id == before.root_id,
            final(self).nodes() == before.nodes().insert(id, n.model()),
    {
        self.inodes.insert(id.as_u64(), n);
        proof {
            assert(self.inodes@ == before.inodes@.insert(id@, n));
            lemma_nodes_insert(before, *self, id, n);
            assert forall|k: u64, e: int|
                self.inodes@.contains_key(k) && 0 <= e < self.inodes@[k].model().entries.len() implies self.holds(
                    (#[trigger] self.inodes@[k].model().entries[e]).1,
                ) by {
                if k != id@ {
                    assert(self.inodes@[k] == before.inodes@[k]);
                }
            }
        }
    }
}

impl FileSystem for RamFS {
    closed spec fn nodes(&self) -> Map<InodeId, NodeModel> {
        Map::new(|id: InodeId| self.holds(id), |id: InodeId| self.node_at(id))
    }

    closed spec fn root(&self) -> InodeId {
        self.root_id
    }

    closed spec fn inv(&self) -> bool {
        &&& self.holds(self.root_id)
        &&& forall|k: u64| #[trigger] self.inodes@.contains_key(k) ==> self.inodes@[k].meta.id@ == k
        &&& forall|k: u64| #[trigger] self.inodes@.contains_key(k) ==> node_wf(self.inodes@[k].model())
        &&& forall|k: u64, e: int|
            self.inodes@.contains_key(k) && 0 <= e < self.inodes@[k].model().entries.len() ==> self.holds(
                (#[trigger] self.inodes@[k].model().entries[e]).1,
            )
    }

    proof fn lemma_inv(&self) {
        assert forall|id: InodeId| #[trigger] self.nodes().dom().contains(id) implies node_wf(self.nodes()[id])
            && self.nodes()[id].meta.id == id by {
            assert(self.inodes@.contains_key(id@));
            InodeId::lemma_view_injective(self.inodes@[id@].meta.id, id);
        }
        assert forall|id: InodeId, k: int|
            self.nodes().dom().contains(id) && 0 <= k < self.nodes()[id].entries.len() implies self.nodes().dom().contains(
            (#[trigger] self.nodes()[id].entries[k]).1,
        ) by {
            assert(self.inodes@.contains_key(id@));
            assert(self.holds(self.inodes@[id@].model().entries[k].1));
        }
    }

    fn root_inode(&self) -> (id: InodeId) {
        self.root_id
    }

    fn name(&self) -> (n: &'static str)
        ensures
            n@ == seq!['r', 'a', 'm', 'f', 's'],
    {
        proof {
            reveal_strlit("ramfs");
        }
        "ramfs"
    }

    fn lookup(&self, dir: InodeId, name: &str) -> (r: Result<InodeId, &'static str>) {
        match self.inodes.get(&dir.as_u64()) {
            Some(node) => {
                assert(self.inodes@.contains_key(dir@));
                node.lookup(name)
            },
            None => Err("Inode not found"),
        }
    }

    fn create(&mut self, dir: InodeId, name: &str, inode_type: InodeType, next_id: &mut u64) -> (r: Result<
        InodeId,
        &'static str,
    >) {
        let ghost before = *self;
        let ghost old_nodes = self.nodes();
        let mut node = match self.take(dir) {
            Some(n) => n,
            None => return Err("Inode not found"),
        };
        let candidate = InodeId::from_u64(*next_id);
        let linked = node.create(name, inode_type, candidate);
        match linked {
            Err(e) => {
                self.put_back(dir, node, Ghost(before));
                proof {
                    assert(old_nodes.insert(dir, old_nodes[dir]) =~= old_nodes);
                }
                Err(e)
            },
            Ok(id) => {
                proof {
                    InodeId::lemma_view_injective(id, candidate);
                    let s = before.inodes@[dir@].model().entries;
                    let t = node.model().entries;
                    assert(t == insert_entry(s, name@, id));
                    lemma_name_pos_exists(s, name@);
                    let p = choose|p: int| is_name_pos(s, name@, p);
                    assert(t == s.insert(p, (name@, id)));
                    assert forall|e: int| 0 <= e < t.len() implies before.holds(#[trigger] t[e].1) || t[e].1 == id by {
                        if e < p {
                            assert(t[e] == s[e]);
                        } else if e > p {
                            assert(t[e] == s[e - 1]);
                        }
                    }
                }
                let new_node = if inode_type == InodeType::Directory {
                    RamFSInode::new_dir(next_id)
                } else {
                    RamFSInode::new_file(next_id)
                };
                self.inodes.insert(dir.as_u64(), node);
                let ghost linked_fs = *self;
                self.inodes.insert(id.as_u64(), new_node);
                proof {
                    assert(new_node.model().meta.id == id) by {
                        InodeId::lemma_view_injective(new_node.model().meta.id, id);
                    }
                    assert(linked_fs.inodes@ == before.inodes@.insert(dir@, node));
                    lemma_nodes_insert(before, linked_fs, dir, node);
                    lemma_nodes_insert(linked_fs, *self, id, new_node);
                    assert(self.nodes() == created_nodes(old_nodes, dir, name@, inode_type, id));
                    assert forall|k: u64| #[trigger] self.inodes@.contains_key(k) implies self.inodes@[k].meta.id@ == k
                        && node_wf(self.inodes@[k].model()) by {
                        if k != id@ && k != dir@ {
                            assert(self.inodes@[k] == before.inodes@[k]);
                        }
                    }
                    assert forall|k: u64, e: int|
                        self.inodes@.contains_key(k) && 0 <= e < self.inodes@[k].model().entries.len() implies self.holds(
                            (#[trigger] self.inodes@[k].model().entries[e]).1,
                        ) by {
                        let x = self.inodes@[k].model().entries[e].1;
                        if k == id@ {
                        } else if k == dir@ {
                            let t = node.model().entries;
                            assert(before.holds(t[e].1) || t[e].1 == id);
                        } else {
                            assert(self.inodes@[k] == before.inodes@[k]);
                        }
                        if before.holds(x) {
                            assert(before.inodes@.contains_key(x@));
                        }
                    }
                    assert(self.holds(self.root_id));
                }
                Ok(id)
            },
        }
    }

    fn remove(&mut self, dir: InodeId, name: &str) -> (r: Result<(), &'static str>) {
        let ghost before = *self;
        let mut node = match self.take(dir) {
            Some(n) => n,
            None => return Err("Inode not found"),
        };
        let r = node.remove(name);
        proof {
            let s = before.inodes@[dir@].model().entries;
            assert forall|e: int| 0 <= e < node.model().entries.len() implies before.holds(
                #[trigger] node.model().entries[e].1,
            ) by {
                if r is Ok {
                    let j = choose|j: int| 0 <= j < s.len() && (#[trigger] s[j]).0 == name@;
                    if e < j {
                        assert(node.model().entries[e] == s[e]);
                    } else {
                        assert(node.model().entries[e] == s[e + 1]);
                    }
                } else {
                    assert(node.model().entries[e] == s[e]);
                }
            }
        }
        self.put_back(dir, node, Ghost(before));
        r
    }

    fn read(&self, id: InodeId, offset: usize, buf: &mut [u8]) -> (r: Result<usize, &'static str>) {
        match self.inodes.get(&id.as_u64()) {
            Some(node) => {
                assert(self.inodes@.contains_key(id@));
                node.read(offset, buf)
            },
            None => Err("Inode not found"),
        }
    }

    fn write(&mut self, id: InodeId, offset: usize, buf: &[u8]) -> (r: Result<usize, &'static str>) {
        let ghost before = *self;
        let mut node = match self.take(id) {
            Some(n) => n,
            None => return Err("Inode not found"),
        };
        let r = node.write(offset, buf);
        proof {
            assert(node.model().entries == before.inodes@[id@].model().entries);
        }
        self.put_back(id, node, Ghost(before));
        r
    }

    fn truncate(&mut self, id: InodeId, size: usize) -> (r: Result<(), &'static str>) {
        let ghost before = *self;
        let mut node = match self.take(id) {
            Some(n) => n,
            None => return Err("Inode not found"),
        };
        let r = node.truncate(size);
        proof {
            assert(node.model().entries == before.inodes@[id@].model().entries);
        }
        self.put_back(id, node, Ghost(before));
        r
    }

    fn metadata(&self, id: InodeId) -> (r: Result<InodeMeta, &'static str>) {
        match self.inodes.get(&id.as_u64()) {
            Some(node) => {
                assert(self.inodes@.contains_key(id@));
                Ok(node.metadata())
            },
            None => Err("Inode not found"),
        }
    }

    fn readdir(&self, id: InodeId) -> (r: Result<Vec<(String, InodeId)>, &'static str>) {
        match self.inodes.get(&id.as_u64()) {
            Some(node) => {
                assert(self.inodes@.contains_key(id@));
                node.readdir()
            },
            None => Err("Inode not found"),
        }
    }
}

/// Filing inode `n` under `id` changes only the entry of `id`.
proof fn lemma_nodes_insert(old_fs: RamFS, new_fs: RamFS, id: InodeId, n: RamFSInode)
    requires
        new_fs.inodes@ == old_fs.inodes@.insert(id@, n),
    ensures
        new_fs.nodes() == old_fs.nodes().insert(id, n.model()),
{
    let target = old_fs.nodes().insert(id, n.model());
    assert forall|x: InodeId| #[trigger] new_fs.nodes().dom().contains(x) == target.dom().contains(x) by {
        InodeId::lemma_view_injective(x, id);
    }
    assert forall|x: InodeId| #[trigger] new_fs.nodes().dom().contains(x) implies new_fs.nodes()[x] == target[x] by {
        InodeId::lemma_view_injective(x, id);
    }
    assert(new_fs.nodes() =~= target);
}

/// A sorted listing has a place for every name.
pub proof fn lemma_name_pos_exists(s: Seq<(Seq<char>, InodeId)>, name: Seq<char>)
    requires
        entries_sorted(s),
    ensures
        exists|p: int| is_name_pos(s, name, p),
    decreases s.len(),
{
    if s.len() == 0 {
        assert(is_name_pos(s, name, 0));
    } else {
        let t = s.drop_last();
        assert forall|i: int, j: int| 0 <= i < j < t.len() implies name_lt(#[trigger] t[i].0, #[trigger] t[j].0) by {
            assert(t[i] == s[i] && t[j] == s[j]);
        }
        lemma_name_pos_exists(t, name);
        let q = choose|q: int| is_name_pos(t, name, q);
        let last = s.len() - 1;
        if name_lt(s[last].0, name) {
            assert forall|i: int| 0 <= i < s.len() implies name_lt(#[trigger] s[i].0, name) by {
                if i < last {
                    lemma_name_lt_transitive(s[i].0, s[last].0, name);
                }
            }
            assert(is_name_pos(s, name, s.len() as int));
        } else {
            assert forall|i: int| 0 <= i < q implies name_lt(#[trigger] s[i].0, name) by {
                assert(s[i] == t[i]);
            }
            assert forall|i: int| q <= i < s.len() implies !name_lt(#[trigger] s[i].0, name) by {
                if i < last {
                    assert(s[i] == t[i]);
                }
            }
            assert(is_name_pos(s, name, q));
        }
    }
}

/// In a sorted listing a name occurs once: its position is the one that
/// `choose` finds.
pub proof fn lemma_entry_unique(s: Seq<(Seq<char>, InodeId)>, i: int)
    requires
        entries_sorted(s),
        0 <= i < s.len(),
    ensures
        (choose|k: int| 0 <= k < s.len() && (#[trigger] s[k]).0 == s[i].0) == i,
{
    let k = choose|k: int| 0 <= k < s.len() && (#[trigger] s[k]).0 == s[i].0;
    assert(0 <= k < s.len() && s[k].0 == s[i].0);
    if k < i {
        lemma_name_lt_irreflexive(s[i].0);
        assert(name_lt(s[k].0, s[i].0));
    } else if k > i {
        lemma_name_lt_irreflexive(s[i].0);
        assert(name_lt(s[i].0, s[k].0));
    }
}

/// The place found for a name absent from a sorted listing is the one
/// `insert_entry` uses, and inserting there keeps the listing sorted.
pub proof fn lemma_insert_entry(s: Seq<(Seq<char>, InodeId)>, name: Seq<char>, id: InodeId, p: int)
    requires
        entries_sorted(s),
        0 <= p <= s.len(),
        forall|i: int| 0 <= i < p ==> name_lt(#[trigger] s[i].0, name),
        p < s.len() ==> !name_lt(s[p].0, name),
        forall|i: int| 0 <= i < s.len() ==> (#[trigger] s[i]).0 != name,
    ensures
        insert_entry(s, name, id) == s.insert(p, (name, id)),
        entries_sorted(s.insert(p, (name, id))),
{
    assert forall|i: int| p <= i < s.len() implies !name_lt(#[trigger] s[i].0, name) by {
        if i > p && name_lt(s[i].0, name) {
            lemma_name_lt_transitive(s[p].0, s[i].0, name);
        }
    }
    assert(is_name_pos(s, name, p));
    let q = choose|q: int| is_name_pos(s, name, q);
    assert(is_name_pos(s, name, q));
    if q < p {
        assert(name_lt(s[q].0, name));
    } else if q > p {
        assert(name_lt(s[p].0, name));
    }
    let t = s.insert(p, (name, id));
    assert forall|i: int, j: int| 0 <= i < j < t.len() implies name_lt(#[trigger] t[i].0, #[trigger] t[j].0) by {
        if j == p {
            assert(t[i] == s[i]);
        } else if i == p {
            assert(t[j] == s[j - 1]);
            lemma_name_lt_total(s[j - 1].0, name);
        } else if j < p {
            assert(t[i] == s[i] && t[j] == s[j]);
        } else if i < p {
            assert(t[i] == s[i] && t[j] == s[j - 1]);
        } else {
            assert(t[i] == s[i - 1] && t[j] == s[j - 1]);
        }
    }
}

} // verus!
