//! Properties that relate the file-system operations to one another.
use vstd::prelude::*;

use crate::fs::inode::{
    create_outcome, entries_sorted, find_entry, insert_entry, is_dir, lookup_outcome, node_wf, read_outcome,
    remove_entry, remove_outcome, write_outcome, InodeId, InodeType, NodeModel,
};
use crate::fs::ramfs::{lemma_entry_unique, lemma_insert_entry, lemma_name_pos_exists};
use crate::fs::file::{file_read_outcome, file_write_outcome, write_fits, write_position, File};
use crate::fs::vfs::is_mounted;
use crate::fs::inode::is_name_pos;
use crate::fs::names::name_lt;

verus! {

/// Reading a file where bytes were just written gives back those bytes.
pub proof fn lemma_read_after_write(n: NodeModel, offset: int, bytes: Seq<u8>, buf: Seq<u8>)
    requires
        !is_dir(n),
        0 <= offset,
        offset + bytes.len() <= usize::MAX,
        buf.len() == bytes.len(),
    ensures
        write_outcome(n, offset, bytes).0 == Ok::<usize, &'static str>(bytes.len() as usize),
        read_outcome(write_outcome(n, offset, bytes).1, offset, buf) == (
            Ok::<usize, &'static str>(bytes.len() as usize),
            bytes,
        ),
{
    let w = write_outcome(n, offset, bytes).1;
    assert(w.data.len() >= offset + bytes.len());
    let out = read_outcome(w, offset, buf);
    assert(out.1 =~= bytes);
}

/// Reading through an open file where a write through another (or the same)
/// open file of the same inode just landed gives back the written bytes.
pub proof fn lemma_file_read_after_write(
    w: File,
    r: File,
    nodes: Map<InodeId, NodeModel>,
    bytes: Seq<u8>,
    buf: Seq<u8>,
)
    requires
        w.open_flags().write,
        r.open_flags().read,
        r.inode() == w.inode(),
        nodes.dom().contains(w.inode()),
        !is_dir(nodes[w.inode()]),
        write_fits(w, nodes, bytes.len() as int),
        r.position() == write_position(w.open_flags(), w.position(), nodes[w.inode()].meta.size),
        buf.len() == bytes.len(),
    ensures
        file_write_outcome(w, nodes, bytes).0 == Ok::<usize, &'static str>(bytes.len() as usize),
        file_read_outcome(r, file_write_outcome(w, nodes, bytes).1, buf).0 == Ok::<usize, &'static str>(
            bytes.len() as usize,
        ),
        file_read_outcome(r, file_write_outcome(w, nodes, bytes).1, buf).1 == bytes,
{
    let n = nodes[w.inode()];
    lemma_read_after_write(n, r.position() as int, bytes, buf);
}

/// Once a name is created in a directory, looking it up finds the new inode.
pub proof fn lemma_lookup_after_create(n: NodeModel, name: Seq<char>, inode_type: InodeType, id: InodeId)
    requires
        node_wf(n),
        create_outcome(n, name, inode_type, id).0 is Ok,
    ensures
        lookup_outcome(create_outcome(n, name, inode_type, id).1, name) == Ok::<InodeId, &'static str>(id),
{
    let s = n.entries;
    assert(find_entry(s, name) is None);
    assert forall|i: int| 0 <= i < s.len() implies (#[trigger] s[i]).0 != name by {
        if s[i].0 == name {
            assert(exists|k: int| 0 <= k < s.len() && (#[trigger] s[k]).0 == name);
        }
    }
    lemma_name_pos_exists(s, name);
    let p = choose|p: int| is_name_pos(s, name, p);
    lemma_insert_entry(s, name, id, p);
    let t = s.insert(p, (name, id));
    assert(insert_entry(s, name, id) == t);
    assert(t[p].0 == name);
    lemma_entry_unique(t, p);
}

/// Once a name is removed from a directory, looking it up fails.
pub proof fn lemma_lookup_after_remove(n: NodeModel, name: Seq<char>)
    requires
        node_wf(n),
        remove_outcome(n, name).0 is Ok,
    ensures
        lookup_outcome(remove_outcome(n, name).1, name) == Err::<InodeId, &'static str>("Entry not found"),
{
    let s = n.entries;
    assert(find_entry(s, name) is Some);
    assert(exists|i: int| 0 <= i < s.len() && (#[trigger] s[i]).0 == name);
    let k = choose|i: int| 0 <= i < s.len() && (#[trigger] s[i]).0 == name;
    assert(0 <= k < s.len() && s[k].0 == name);
    lemma_entry_unique(s, k);
    let t = remove_entry(s, name);
    assert(t == s.remove(k));
    assert forall|i: int| 0 <= i < t.len() implies (#[trigger] t[i]).0 != name by {
        let j = if i < k { i } else { i + 1 };
        assert(t[i] == s[j]);
        lemma_entry_unique(s, j);
    }
}

/// Unmounting a path just mounted gives back the mount table it was mounted
/// in: the new mount point is the only one at that path.
pub proof fn lemma_unmount_undoes_mount(ms: Seq<(Seq<char>, usize)>, path: Seq<char>, fs_index: usize, p: int)
    requires
        !is_mounted(ms, path),
        0 <= p <= ms.len(),
    ensures
        is_mounted(ms.insert(p, (path, fs_index)), path),
        forall|i: int|
            0 <= i < ms.len() + 1 && (#[trigger] ms.insert(p, (path, fs_index))[i]).0 == path ==> ms.insert(
                p,
                (path, fs_index),
            ).remove(i) == ms,
{
    let t = ms.insert(p, (path, fs_index));
    assert(t[p].0 == path);
    assert forall|i: int| 0 <= i < ms.len() + 1 && (#[trigger] t[i]).0 == path implies t.remove(i) == ms by {
        if i < p {
            assert(t[i] == ms[i]);
        } else if i > p {
            assert(t[i] == ms[i - 1]);
        }
        assert(t.remove(p) =~= ms);
    }
}

/// A write to a file puts the bytes at the offset and changes nothing else:
/// the file grows to the end of the write when that lies past its end (the
/// gap filled with zeros) and never shrinks, every byte outside the written
/// span keeps its value, its size is its new length, and the count written is
/// the number of bytes given.
pub proof fn lemma_write_in_place(n: NodeModel, offset: int, bytes: Seq<u8>)
    requires
        node_wf(n),
        !is_dir(n),
        0 <= offset,
        offset + bytes.len() <= usize::MAX,
    ensures
        ({
            let (r, w) = write_outcome(n, offset, bytes);
            &&& r == Ok::<usize, &'static str>(bytes.len() as usize)
            &&& w.data.len() == if offset + bytes.len() > n.data.len() {
                offset + bytes.len()
            } else {
                n.data.len() as int
            }
            &&& forall|k: int| 0 <= k < bytes.len() ==> #[trigger] w.data[offset + k] == bytes[k]
            &&& forall|i: int|
                0 <= i < n.data.len() && !(offset <= i < offset + bytes.len()) ==> #[trigger] w.data[i] == n.data[i]
            &&& forall|i: int| n.data.len() <= i < offset ==> #[trigger] w.data[i] == 0u8
            &&& w.meta.size == w.data.len()
            &&& w.meta.id == n.meta.id
            &&& w.meta.inode_type == n.meta.inode_type
            &&& w.entries == n.entries
        }),
{
    let w = write_outcome(n, offset, bytes).1;
    assert forall|k: int| 0 <= k < bytes.len() implies #[trigger] w.data[offset + k] == bytes[k] by {}
}

/// Unlinking a name removes exactly its entry: the directory lists one entry
/// fewer, still in order, the name is found no more, and every other name is
/// bound to what it was bound to before.
pub proof fn lemma_remove_exactly(n: NodeModel, name: Seq<char>)
    requires
        node_wf(n),
        is_dir(n),
        find_entry(n.entries, name) is Some,
    ensures
        ({
            let (r, m) = remove_outcome(n, name);
            &&& r == Ok::<(), &'static str>(())
            &&& m.meta == n.meta
            &&& m.data == n.data
            &&& m.entries.len() == n.entries.len() - 1
            &&& entries_sorted(m.entries)
            &&& find_entry(m.entries, name) is None
            &&& forall|other: Seq<char>| other != name ==> #[trigger] find_entry(m.entries, other) == find_entry(
                n.entries,
                other,
            )
        }),
{
    let s = n.entries;
    assert(exists|i: int| 0 <= i < s.len() && (#[trigger] s[i]).0 == name);
    let k = choose|i: int| 0 <= i < s.len() && (#[trigger] s[i]).0 == name;
    assert(0 <= k < s.len() && s[k].0 == name);
    lemma_entry_unique(s, k);
    let t = remove_entry(s, name);
    assert(t == s.remove(k));
    assert forall|a: int, b: int| 0 <= a < b < t.len() implies name_lt(#[trigger] t[a].0, #[trigger] t[b].0) by {
        let a2 = if a < k { a } else { a + 1 };
        let b2 = if b < k { b } else { b + 1 };
        assert(t[a] == s[a2]);
        assert(t[b] == s[b2]);
    }
    lemma_lookup_after_remove(n, name);
    assert(find_entry(t, name) is None);
    assert forall|other: Seq<char>| other != name implies #[trigger] find_entry(t, other) == find_entry(s, other) by {
        if exists|i: int| 0 <= i < s.len() && (#[trigger] s[i]).0 == other {
            let i = choose|i: int| 0 <= i < s.len() && (#[trigger] s[i]).0 == other;
            assert(0 <= i < s.len() && s[i].0 == other);
            assert(i != k);
            lemma_entry_unique(s, i);
            let i2 = if i < k { i } else { i - 1 };
            assert(t[i2] == s[i]);
            assert(exists|j: int| 0 <= j < t.len() && (#[trigger] t[j]).0 == other);
            lemma_entry_unique(t, i2);
        } else {
            assert forall|j: int| 0 <= j < t.len() implies (#[trigger] t[j]).0 != other by {
                let j2 = if j < k { j } else { j + 1 };
                assert(t[j] == s[j2]);
            }
        }
    }
}

} // verus!
