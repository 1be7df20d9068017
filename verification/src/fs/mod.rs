//! Virtual file system, over file systems such as the RAM file system.
pub mod file;
pub mod inode;
pub mod names;
pub mod path;
pub mod properties;
pub mod ramfs;
pub mod syscalls;
pub mod vfs;

pub use file::{File, FileDescriptor, OpenFlags};
pub use inode::{Inode, InodeType};
pub use vfs::{FileSystem, VFS};

use vstd::prelude::*;

use crate::fs::inode::{fresh_node, next_inode_id, InodeId, NodeModel};
use crate::fs::ramfs::RamFS;
use crate::fs::vfs::byte_len;

verus! {

/// Initialize the VFS in `slot` with a RAM file system mounted at the root,
/// its root directory's identifier drawn from `next_inode`; a VFS that is
/// there already is left alone.
pub fn init(slot: &mut Option<VFS<RamFS>>, next_inode: &mut u64) -> (r: Result<(), &'static str>)
    ensures
        (*old(slot)) is Some ==> r == Err::<(), &'static str>("VFS already initialized") && *final(slot) == *old(
            slot,
        ) && *final(next_inode) == *old(next_inode),
        (*old(slot)) is None ==> r == Ok::<(), &'static str>(()) && *final(next_inode) == next_inode_id(
            *old(next_inode),
        ) && ((*final(slot)) matches Some(v) && {
            &&& v.wf()
            &&& v.mounts() == seq![(seq!['/'], 0usize)]
            &&& v.fss().len() == 1
            &&& v.fss()[0].root()@ == *old(next_inode)
            &&& v.fss()[0].nodes() == Map::<InodeId, NodeModel>::empty().insert(
                v.fss()[0].root(),
                fresh_node(v.fss()[0].root(), InodeType::Directory),
            )
            &&& v.files() == Map::<u32, File>::empty()
        }),
{
    if slot.is_some() {
        return Err("VFS already initialized");
    }
    let mut vfs = VFS::new();
    let root_fs = RamFS::new(next_inode);
    let root = "/";
    proof {
        reveal_strlit("/");
        assert(root@.drop_first() =~= Seq::<char>::empty());
        assert(vstd::utf8::encode_utf8(root@.drop_first()) =~= Seq::<u8>::empty());
        assert(byte_len(root@) <= 4);
    }
    let ghost before = vfs;
    let m = vfs.mount(root, root_fs);
    proof {
        assert(!crate::fs::vfs::is_mounted(before.mounts(), root@));
        let p = choose|p: int|
            crate::fs::vfs::mount_slot(before.mounts(), root@, p) && vfs.mounts() == before.mounts().insert(
                p,
                (root@, before.fss().len() as usize),
            );
        assert(p == 0);
        assert(root@ == seq!['/']);
        assert(vfs.mounts() =~= seq![(seq!['/'], 0usize)]);
    }
    *slot = Some(vfs);
    m
}

} // verus!
