//! Walks over the four-level page tables that map, or remap, a contiguous
//! range of virtual memory onto a contiguous range of physical memory.
//!
//! The tables live in physical memory that only the caller can reach, so a
//! walk is a state machine: it names the entry to read next (a table and an
//! index in it), and for the entry read it decides what to write there and
//! where to go next. The caller reads and writes the entries and allocates
//! table frames.
use vstd::prelude::*;

use crate::loader::x86_64::{
    can_map_at_level, page_size_for_level, page_size_spec, pte_bits_for, pte_index_for_level, Flags,
    PTEFlags, PageTableEntry, PAGE_SIZE, PAGE_TABLE_LEVELS, PTE_ALL, PTE_HUGE, PTE_VALID,
};

verus! {

/// Where a walk stands: the root table, the next virtual and physical
/// addresses to map, the bytes left, and the level and table whose entry for
/// the virtual address is read next.
pub struct WalkState {
    pub root: u64,
    pub virt: u64,
    pub phys: u64,
    pub remaining: u64,
    pub level: usize,
    pub table: u64,
}

/// What the caller does with the entry it read.
#[derive(Debug, PartialEq, Eq, Structural)]
pub enum WalkAction {
    /// Write this entry where the one read was; the walk moved on to the
    /// next page, from the root table.
    Write(PageTableEntry),
    /// Allocate a zeroed frame for a new table, and hand it to the walk.
    Allocate,
    /// The entry points to the next table down; the walk went there.
    Descend,
    /// The tables are not as the walk needs them (the page is mapped already
    /// when mapping, not mapped when remapping, or does not fit): the walk
    /// cannot go on.
    Invalid,
}

/// Whether entry bits are present.
pub open spec fn entry_valid(bits: u64) -> bool {
    bits & PTE_VALID == PTE_VALID
}

/// Whether entry bits map a page at `level` (rather than point to a table).
pub open spec fn entry_leaf(bits: u64, level: int) -> bool {
    if level == 0 {
        entry_valid(bits)
    } else if level == 1 || level == 2 {
        entry_valid(bits) && bits & PTE_HUGE == PTE_HUGE
    } else {
        false
    }
}

/// The entry bits that point to frame `address` with flag bits `flags`.
pub open spec fn entry_bits(address: u64, flags: u64) -> u64 {
    (address & !0xFFFu64) | flags
}

/// The length a mapping covers at least: one page.
pub open spec fn map_length(len: u64) -> u64 {
    if len < PAGE_SIZE {
        PAGE_SIZE
    } else {
        len
    }
}

/// The flag bits of a new leaf at `level` for permissions `flags`: present,
/// the permissions' bits, and the page-size bit above the lowest level.
pub open spec fn leaf_bits(flags: Flags, level: int) -> u64 {
    if level > 0 {
        PTE_VALID | pte_bits_for(flags) | PTE_HUGE
    } else {
        PTE_VALID | pte_bits_for(flags)
    }
}

/// The state after a leaf of `level` is written: both addresses advanced by
/// its page size, the bytes left reduced by it (to no fewer than none), back
/// at the root.
pub open spec fn advanced(s: WalkState, level: int) -> WalkState {
    let ps = page_size_spec(level);
    WalkState {
        virt: (s.virt + ps) as u64,
        phys: (s.phys + ps) as u64,
        remaining: if s.remaining >= ps {
            (s.remaining - ps) as u64
        } else {
            0
        },
        level: 3,
        table: s.root,
        ..s
    }
}

/// The state after going down to the table at frame `frame`.
pub open spec fn descended(s: WalkState, frame: u64) -> WalkState {
    WalkState { level: (s.level - 1) as usize, table: frame, ..s }
}

/// The state of a walk: the level is one of the four, addresses stay
/// page-aligned, and what is left fits below the top of the address space
/// (with a page to spare, for a last partial page).
pub open spec fn walk_ok(s: WalkState) -> bool {
    &&& s.level < PAGE_TABLE_LEVELS
    &&& s.virt as int % PAGE_SIZE as int == 0
    &&& s.phys as int % PAGE_SIZE as int == 0
    &&& s.virt + s.remaining + 4095 <= u64::MAX
    &&& s.phys + s.remaining + 4095 <= u64::MAX
}

/// Page sizes are multiples of the smallest page.
proof fn lemma_page_size_aligned(level: int)
    requires
        0 <= level < 4,
    ensures
        page_size_spec(level) % PAGE_SIZE as int == 0,
        page_size_spec(level) >= PAGE_SIZE,
{
}

/// Writing a leaf keeps the virtual and physical addresses the same
/// distance apart, so the range is mapped contiguously, and it leaves fewer
/// bytes to map.
pub proof fn lemma_advance_keeps_offset(s: WalkState, level: int)
    requires
        walk_ok(s),
        s.remaining > 0,
        0 <= level < 3,
        level == 0 || page_size_spec(level) <= s.remaining,
    ensures
        advanced(s, level).virt - advanced(s, level).phys == s.virt - s.phys,
        advanced(s, level).remaining < s.remaining,
{
}

/// A walk's leaves cover its range contiguously. Along the states a walk
/// passes through as it writes leaves (each state the one before advanced
/// by the page size of the leaf written there): every leaf maps its virtual
/// address to the physical address at the same offset from the start, each
/// leaf begins where the one before ended, and once nothing remains the
/// leaves reach the end of the range.
pub proof fn lemma_leaves_cover_range(st: Seq<WalkState>, levels: Seq<int>)
    requires
        st.len() == levels.len() + 1,
        forall|k: int| 0 <= k < st.len() ==> walk_ok(#[trigger] st[k]),
        forall|k: int|
            0 <= k < levels.len() ==> {
                &&& 0 <= #[trigger] levels[k] < 3
                &&& st[k].remaining > 0
                &&& (levels[k] == 0 || page_size_spec(levels[k]) <= st[k].remaining)
                &&& st[k + 1] == advanced(st[k], levels[k])
            },
    ensures
        forall|k: int| 0 <= k < st.len() ==> (#[trigger] st[k]).virt - st[0].virt == st[k].phys - st[0].phys,
        forall|k: int|
            0 <= k < levels.len() ==> (#[trigger] st[k + 1]).virt == st[k].virt + page_size_spec(levels[k]),
        forall|k: int| 0 <= k < st.len() ==> (#[trigger] st[k]).virt + st[k].remaining >= st[0].virt + st[0].remaining,
        st.last().remaining == 0 ==> st.last().virt >= st[0].virt + st[0].remaining,
    decreases levels.len(),
{
    if levels.len() > 0 {
        let n = levels.len() - 1;
        let st1 = st.drop_last();
        let lv1 = levels.drop_last();
        assert forall|k: int| 0 <= k < st1.len() implies walk_ok(#[trigger] st1[k]) by {
            assert(st1[k] == st[k]);
        }
        assert forall|k: int| 0 <= k < lv1.len() implies {
            &&& 0 <= #[trigger] lv1[k] < 3
            &&& st1[k].remaining > 0
            &&& (lv1[k] == 0 || page_size_spec(lv1[k]) <= st1[k].remaining)
            &&& st1[k + 1] == advanced(st1[k], lv1[k])
        } by {
            assert(lv1[k] == levels[k]);
            assert(st1[k] == st[k] && st1[k + 1] == st[k + 1]);
            assert(0 <= levels[k] < 3);
        }
        lemma_leaves_cover_range(st1, lv1);
        assert(0 <= levels[n] < 3);
        lemma_advance_keeps_offset(st[n], levels[n]);
        assert(st1[n] == st[n]);
        assert(walk_ok(st[n]));
        assert forall|k: int| 0 <= k < st.len() implies (#[trigger] st[k]).virt - st[0].virt == st[k].phys
            - st[0].phys && st[k].virt + st[k].remaining >= st[0].virt + st[0].remaining by {
            if k < st1.len() {
                assert(st[k] == st1[k]);
                assert(st1[0] == st[0]);
            }
        }
        assert forall|k: int| 0 <= k < levels.len() implies (#[trigger] st[k + 1]).virt == st[k].virt
            + page_size_spec(levels[k]) by {
            assert(0 <= levels[k] < 3);
            assert(walk_ok(st[k]));
        }
    }
}

/// The walk that maps `[virt, virt + len)` to `[phys, phys + len)` with
/// permissions `flags`.
pub struct MapWalk {
    root: u64,
    virt: u64,
    phys: u64,
    remaining: u64,
    level: usize,
    table: u64,
    flags: Flags,
}

impl View for MapWalk {
    type V = WalkState;

    closed spec fn view(&self) -> WalkState {
        WalkState {
            root: self.root,
            virt: self.virt,
            phys: self.phys,
            remaining: self.remaining,
            level: self.level,
            table: self.table,
        }
    }
}

impl MapWalk {
    /// The permissions of the mapping.
    pub closed spec fn permissions(&self) -> Flags {
        self.flags
    }

    /// Well formed.
    pub closed spec fn wf(&self) -> bool {
        walk_ok(self@)
    }

    /// Start mapping `len` bytes (at least a page) from page-aligned `virt`
    /// to page-aligned `phys`, in the tables rooted at `root`.
    pub fn new(root: u64, virt: u64, phys: u64, len: u64, flags: Flags) -> (w: Self)
        requires
            len > 0,
            virt as int % PAGE_SIZE as int == 0,
            phys as int % PAGE_SIZE as int == 0,
            virt + map_length(len) + 4095 <= u64::MAX,
            phys + map_length(len) + 4095 <= u64::MAX,
        ensures
            w.wf(),
            w@ == (WalkState { root, virt, phys, remaining: map_length(len), level: 3, table: root }),
            w.permissions() == flags,
    {
        let remaining = if len < PAGE_SIZE {
            PAGE_SIZE
        } else {
            len
        };
        MapWalk { root, virt, phys, remaining, level: 3, table: root, flags }
    }

    /// Whether the whole range is mapped.
    pub fn is_done(&self) -> (b: bool)
        ensures
            b == (self@.remaining == 0),
    {
        self.remaining == 0
    }

    /// The table to read from next, and the index of the entry in it.
    pub fn slot(&self) -> (r: (u64, usize))
        requires
            self.wf(),
        ensures
            r.0 == self@.table,
            r.1 == pte_index_for_level_spec(self@.virt, self@.level),
    {
        (self.table, pte_index_for_level(self.virt, self.level))
    }

    /// The current level.
    pub fn level(&self) -> (l: usize)
        ensures
            l == self@.level,
    {
        self.level
    }

    /// Decide on `entry`, the entry read at the slot: an absent entry
    /// becomes a leaf where a page fits at this level (a last partial page
    /// counts as a whole one at the lowest level), else asks for a new table;
    /// a leaf there already is invalid; a table entry is followed down.
    pub fn step(&mut self, entry: PageTableEntry) -> (a: WalkAction)
        requires
            old(self).wf(),
            old(self)@.remaining > 0,
        ensures
            final(self).wf(),
            final(self).permissions() == old(self).permissions(),
            ({
                let s = old(self)@;
                let eff = if s.remaining < PAGE_SIZE && s.level == 0 {
                    PAGE_SIZE
                } else {
                    s.remaining
                };
                let fits = s.level < 3 && s.virt as int % page_size_spec(s.level as int) == 0 && s.phys as int
                    % page_size_spec(s.level as int) == 0 && eff >= page_size_spec(s.level as int);
                if !entry_valid(entry@) {
                    if fits {
                        &&& a matches WalkAction::Write(e) && e@ == entry_bits(
                            s.phys,
                            leaf_bits(old(self).permissions(), s.level as int),
                        )
                        &&& final(self)@ == advanced(s, s.level as int)
                    } else {
                        &&& a == WalkAction::Allocate
                        &&& final(self)@ == s
                        &&& s.level > 0
                    }
                } else if entry_leaf(entry@, s.level as int) {
                    a == WalkAction::Invalid && final(self)@ == s
                } else {
                    &&& a == WalkAction::Descend
                    &&& s.level > 0
                    &&& final(self)@ == descended(s, entry@ & !0xFFFu64)
                }
            }),
    {
        let lvl = self.level;
        if !entry.is_valid() {
            let effective_remaining = if self.remaining < PAGE_SIZE && lvl == 0 {
                PAGE_SIZE
            } else {
                self.remaining
            };
            if can_map_at_level(self.virt, self.phys, effective_remaining, lvl) {
                let page_size = page_size_for_level(lvl);
                let mut pte_flags = PTEFlags::valid().union(PTEFlags::from(self.flags));
                if lvl > 0 {
                    pte_flags.insert(PTEFlags::huge());
                }
                let mut pte = entry;
                pte.replace_address_and_flags(self.phys, pte_flags);
                proof {
                    lemma_page_size_aligned(lvl as int);
                    assert((self.virt + page_size) as int % PAGE_SIZE as int == 0);
                    assert((self.phys + page_size) as int % PAGE_SIZE as int == 0);
                }
                self.virt = self.virt + page_size;
                self.phys = self.phys + page_size;
                self.remaining = self.remaining.saturating_sub(page_size);
                self.level = 3;
                self.table = self.root;
                WalkAction::Write(pte)
            } else {
                proof {
                    if lvl == 0 {
                        assert(effective_remaining >= PAGE_SIZE);
                    }
                }
                WalkAction::Allocate
            }
        } else if entry.is_leaf(lvl) {
            WalkAction::Invalid
        } else {
            self.table = entry.get_address_and_flags().0;
            self.level = lvl - 1;
            WalkAction::Descend
        }
    }

    /// Go down into the new table at frame `frame`, allocated on
    /// `WalkAction::Allocate`: the entry to write at the slot points to it.
    pub fn table_allocated(&mut self, frame: u64) -> (e: PageTableEntry)
        requires
            old(self).wf(),
            old(self)@.level > 0,
        ensures
            final(self).wf(),
            final(self).permissions() == old(self).permissions(),
            e@ == entry_bits(frame, PTE_VALID),
            final(self)@ == descended(old(self)@, frame),
    {
        let mut pte = PageTableEntry::from_bits(0);
        pte.replace_address_and_flags(frame, PTEFlags::valid());
        self.table = frame;
        self.level = self.level - 1;
        pte
    }
}

/// The index of the entry for `virt` in a table at `lvl`.
pub open spec fn pte_index_for_level_spec(virt: u64, lvl: usize) -> usize {
    ((virt >> ((12 + lvl * 9) as u64)) & 0x1FFu64) as usize
}

/// The walk that points the pages mapped at `[virt, virt + len)` to
/// `[phys, phys + len)` instead, keeping their flags.
pub struct RemapWalk {
    root: u64,
    virt: u64,
    phys: u64,
    remaining: u64,
    level: usize,
    table: u64,
}

impl View for RemapWalk {
    type V = WalkState;

    closed spec fn view(&self) -> WalkState {
        WalkState {
            root: self.root,
            virt: self.virt,
            phys: self.phys,
            remaining: self.remaining,
            level: self.level,
            table: self.table,
        }
    }
}

impl RemapWalk {
    /// Well formed.
    pub closed spec fn wf(&self) -> bool {
        walk_ok(self@)
    }

    /// Start remapping `len` bytes (at least a page) from page-aligned
    /// `virt` to page-aligned `phys`, in the tables rooted at `root`.
    pub fn new(root: u64, virt: u64, phys: u64, len: u64) -> (w: Self)
        requires
            len >= PAGE_SIZE,
            virt as int % PAGE_SIZE as int == 0,
            phys as int % PAGE_SIZE as int == 0,
            virt + len + 4095 <= u64::MAX,
            phys + len + 4095 <= u64::MAX,
        ensures
            w.wf(),
            w@ == (WalkState { root, virt, phys, remaining: len, level: 3, table: root }),
    {
        RemapWalk { root, virt, phys, remaining: len, level: 3, table: root }
    }

    /// Whether the whole range is remapped.
    pub fn is_done(&self) -> (b: bool)
        ensures
            b == (self@.remaining == 0),
    {
        self.remaining == 0
    }

    /// The table to read from next, and the index of the entry in it.
    pub fn slot(&self) -> (r: (u64, usize))
        requires
            self.wf(),
        ensures
            r.0 == self@.table,
            r.1 == pte_index_for_level_spec(self@.virt, self@.level),
    {
        (self.table, pte_index_for_level(self.virt, self.level))
    }

    /// Decide on `entry`, the entry read at the slot: a leaf is pointed at
    /// the physical address with its flags kept, when its page fits; a table
    /// entry is followed down; an absent entry, or a leaf that does not fit,
    /// is invalid.
    pub fn step(&mut self, entry: PageTableEntry) -> (a: WalkAction)
        requires
            old(self).wf(),
            old(self)@.remaining > 0,
        ensures
            final(self).wf(),
            ({
                let s = old(self)@;
                let fits = s.level < 3 && s.virt as int % page_size_spec(s.level as int) == 0 && s.phys as int
                    % page_size_spec(s.level as int) == 0 && s.remaining >= page_size_spec(s.level as int);
                if entry_valid(entry@) && entry_leaf(entry@, s.level as int) {
                    if fits {
                        &&& a matches WalkAction::Write(e) && e@ == entry_bits(s.phys, entry@ & PTE_ALL)
                        &&& final(self)@ == advanced(s, s.level as int)
                    } else {
                        a == WalkAction::Invalid && final(self)@ == s
                    }
                } else if entry_valid(entry@) {
                    &&& a == WalkAction::Descend
                    &&& s.level > 0
                    &&& final(self)@ == descended(s, entry@ & !0xFFFu64)
                } else {
                    a == WalkAction::Invalid && final(self)@ == s
                }
            }),
    {
        let lvl = self.level;
        if entry.is_valid() && entry.is_leaf(lvl) {
            if !can_map_at_level(self.virt, self.phys, self.remaining, lvl) {
                return WalkAction::Invalid;
            }
            let page_size = page_size_for_level(lvl);
            let (_old_phys, flags) = entry.get_address_and_flags();
            let mut pte = entry;
            pte.replace_address_and_flags(self.phys, flags);
            proof {
                lemma_page_size_aligned(lvl as int);
                assert((self.virt + page_size) as int % PAGE_SIZE as int == 0);
                assert((self.phys + page_size) as int % PAGE_SIZE as int == 0);
            }
            self.virt = self.virt + page_size;
            self.phys = self.phys + page_size;
            self.remaining = self.remaining - page_size;
            self.level = 3;
            self.table = self.root;
            WalkAction::Write(pte)
        } else if entry.is_valid() {
            self.table = entry.get_address_and_flags().0;
            self.level = lvl - 1;
            WalkAction::Descend
        } else {
            WalkAction::Invalid
        }
    }
}

/// The address at which the table at physical address `phys` is reached,
/// with physical memory mapped at offset `phys_off`: none when it overflows
/// or is null.
pub fn table_address(phys: u64, phys_off: u64) -> (r: Option<u64>)
    ensures
        phys_off + phys <= u64::MAX && phys_off + phys != 0 ==> r == Some((phys_off + phys) as u64),
        !(phys_off + phys <= u64::MAX && phys_off + phys != 0) ==> r is None,
{
    match phys_off.checked_add(phys) {
        Some(a) => if a != 0 {
            Some(a)
        } else {
            None
        },
        None => None,
    }
}

} // verus!
