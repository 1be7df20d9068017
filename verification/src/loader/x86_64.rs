//! x86_64 paging arithmetic, page-table entries and their flags, and the
//! decisions of CPU discovery and secondary-CPU start-up. Addresses and
//! entries are 64-bit (`u64`), as on the machine they describe.
use vstd::prelude::*;

verus! {

pub const DEFAULT_ASID: u16 = 0;

pub const KERNEL_ASPACE_BASE: u64 = 0xffffffc000000000;

pub const PAGE_SIZE: u64 = 4096;

pub const PAGE_TABLE_ENTRIES: usize = 512;

/// PML4, PDPT, PD, PT
pub const PAGE_TABLE_LEVELS: usize = 4;

pub const VIRT_ADDR_BITS: u32 = 48;

/// Bits of the offset within a page (the ones set in `PAGE_SIZE - 1`).
pub const PAGE_SHIFT: usize = 12;

/// Bits of an index within a table (the ones set in `PAGE_TABLE_ENTRIES - 1`).
pub const PAGE_ENTRY_SHIFT: usize = 9;

/// The size of the page that an entry at `level` maps: 4 KiB, 2 MiB, 1 GiB,
/// 512 GiB.
pub open spec fn page_size_spec(level: int) -> int {
    if level == 0 {
        0x1000
    } else if level == 1 {
        0x20_0000
    } else if level == 2 {
        0x4000_0000
    } else {
        0x80_0000_0000
    }
}

/// Get the page size for a paging level.
pub fn page_size_for_level(level: usize) -> (s: u64)
    requires
        level < PAGE_TABLE_LEVELS,
    ensures
        s == page_size_spec(level as int),
{
    if level == 0 {
        0x1000
    } else if level == 1 {
        0x20_0000
    } else if level == 2 {
        0x4000_0000
    } else {
        0x80_0000_0000
    }
}

/// The index into the table at `lvl` for `virt`: nine bits of the address,
/// above the page offset and the indices of the lower levels.
pub fn pte_index_for_level(virt: u64, lvl: usize) -> (index: usize)
    requires
        lvl < PAGE_TABLE_LEVELS,
    ensures
        index == (virt >> ((PAGE_SHIFT + lvl * PAGE_ENTRY_SHIFT) as u64)) & 0x1FFu64,
        index < PAGE_TABLE_ENTRIES,
{
    let shift: u64 = (PAGE_SHIFT + lvl * PAGE_ENTRY_SHIFT) as u64;
    let index = (virt >> shift) & ((PAGE_TABLE_ENTRIES - 1) as u64);
    assert(index < 512) by (bit_vector)
        requires
            index == (virt >> shift) & 0x1FFu64,
    ;
    index as usize
}

/// Whether a leaf entry at `lvl` can map `virt` to `phys` with at least
/// `remaining_bytes` left: never at the PML4 level, and otherwise when both
/// addresses are aligned to the page size and a whole page remains.
pub fn can_map_at_level(virt: u64, phys: u64, remaining_bytes: u64, lvl: usize) -> (b: bool)
    ensures
        b == (lvl < 3 && virt as int % page_size_spec(lvl as int) == 0 && phys as int % page_size_spec(
            lvl as int,
        ) == 0 && remaining_bytes >= page_size_spec(lvl as int)),
{
    if lvl >= 3 {
        return false;
    }
    let page_size = page_size_for_level(lvl);
    virt % page_size == 0 && phys % page_size == 0 && remaining_bytes >= page_size
}

/// Present bit.
pub const PTE_VALID: u64 = 1 << 0;

/// Write permission.
pub const PTE_WRITABLE: u64 = 1 << 1;

/// User accessible.
pub const PTE_USER: u64 = 1 << 2;

/// Write through.
pub const PTE_PWT: u64 = 1 << 3;

/// Cache disable.
pub const PTE_PCD: u64 = 1 << 4;

/// Accessed bit.
pub const PTE_ACCESSED: u64 = 1 << 5;

/// Dirty bit.
pub const PTE_DIRTY: u64 = 1 << 6;

/// Page size bit.
pub const PTE_HUGE: u64 = 1 << 7;

/// Global page.
pub const PTE_GLOBAL: u64 = 1 << 8;

/// No execute.
pub const PTE_NX: u64 = 1 << 63;

/// Every defined flag bit.
pub const PTE_ALL: u64 = 0x8000_0000_0000_01FF;

/// x86_64 page-table entry flags: a set of the bits above.
#[derive(Debug, Copy, Clone, PartialEq, Eq, Structural)]
pub struct PTEFlags {
    pub bits: u64,
}

impl View for PTEFlags {
    type V = u64;

    open spec fn view(&self) -> u64 {
        self.bits
    }
}

impl PTEFlags {
    /// Flags with exactly the given bits, defined or not.
    pub fn from_bits_retain(bits: u64) -> (f: Self)
        ensures
            f@ == bits,
    {
        PTEFlags { bits }
    }

    /// Flags with the defined bits among the given ones.
    pub fn from_bits_truncate(bits: u64) -> (f: Self)
        ensures
            f@ == bits & PTE_ALL,
    {
        PTEFlags { bits: bits & PTE_ALL }
    }

    /// No flags.
    pub fn empty() -> (f: Self)
        ensures
            f@ == 0,
    {
        PTEFlags { bits: 0 }
    }

    pub fn valid() -> (f: Self)
        ensures
            f@ == PTE_VALID,
    {
        PTEFlags { bits: PTE_VALID }
    }

    pub fn writable() -> (f: Self)
        ensures
            f@ == PTE_WRITABLE,
    {
        PTEFlags { bits: PTE_WRITABLE }
    }

    pub fn accessed() -> (f: Self)
        ensures
            f@ == PTE_ACCESSED,
    {
        PTEFlags { bits: PTE_ACCESSED }
    }

    pub fn dirty() -> (f: Self)
        ensures
            f@ == PTE_DIRTY,
    {
        PTEFlags { bits: PTE_DIRTY }
    }

    pub fn huge() -> (f: Self)
        ensures
            f@ == PTE_HUGE,
    {
        PTEFlags { bits: PTE_HUGE }
    }

    pub fn nx() -> (f: Self)
        ensures
            f@ == PTE_NX,
    {
        PTEFlags { bits: PTE_NX }
    }

    /// The raw bits.
    pub fn bits(&self) -> (b: u64)
        ensures
            b == self@,
    {
        self.bits
    }

    /// Whether every bit of `other` is set.
    pub fn contains(&self, other: PTEFlags) -> (b: bool)
        ensures
            b == (self@ & other@ == other@),
    {
        self.bits & other.bits == other.bits
    }

    /// The bits of both.
    pub fn union(self, other: PTEFlags) -> (f: Self)
        ensures
            f@ == self@ | other@,
    {
        PTEFlags { bits: self.bits | other.bits }
    }

    /// Set the bits of `other`.
    pub fn insert(&mut self, other: PTEFlags)
        ensures
            final(self)@ == old(self)@ | other@,
    {
        self.bits = self.bits | other.bits;
    }
}

/// Readable mapping.
pub const FLAG_READ: u8 = 1 << 0;

/// Writable mapping.
pub const FLAG_WRITE: u8 = 1 << 1;

/// Executable mapping.
pub const FLAG_EXECUTE: u8 = 1 << 2;

/// Architecture-neutral mapping permissions.
#[derive(Debug, Copy, Clone, PartialEq, Eq, Structural)]
pub struct Flags {
    pub bits: u8,
}

impl Flags {
    pub fn empty() -> (f: Self)
        ensures
            f.bits == 0,
    {
        Flags { bits: 0 }
    }

    pub fn from_bits_retain(bits: u8) -> (f: Self)
        ensures
            f.bits == bits,
    {
        Flags { bits }
    }

    /// Whether every permission of `other` is granted.
    pub fn contains(&self, other: Flags) -> (b: bool)
        ensures
            b == (self.bits & other.bits == other.bits),
    {
        self.bits & other.bits == other.bits
    }

    /// Grant the permissions of `other` too.
    pub fn insert(&mut self, other: Flags)
        ensures
            final(self).bits == old(self).bits | other.bits,
    {
        self.bits = self.bits | other.bits;
    }
}

/// The entry flags for a mapping: present, dirty and accessed, writable when
/// writes are allowed, and no-execute unless execution is.
pub open spec fn pte_bits_for(flags: Flags) -> u64 {
    pte_bits_from(flags.bits)
}

/// `pte_bits_for` on the raw permission bits.
pub open spec fn pte_bits_from(bits: u8) -> u64 {
    (PTE_VALID | PTE_DIRTY | PTE_ACCESSED) | (if bits & FLAG_WRITE == FLAG_WRITE {
        PTE_WRITABLE
    } else {
        0
    }) | (if bits & FLAG_EXECUTE == FLAG_EXECUTE {
        0
    } else {
        PTE_NX
    })
}

/// The permissions of entry flags: readable when present, writable when
/// writable, executable unless no-execute.
pub open spec fn flag_bits_for(pte: u64) -> u8 {
    (if pte & PTE_VALID == PTE_VALID {
        FLAG_READ
    } else {
        0
    }) | (if pte & PTE_WRITABLE == PTE_WRITABLE {
        FLAG_WRITE
    } else {
        0
    }) | (if pte & PTE_NX == PTE_NX {
        0
    } else {
        FLAG_EXECUTE
    })
}

impl From<Flags> for PTEFlags {
    fn from(flags: Flags) -> (out: Self) {
        let writable: u64 = if flags.contains(Flags { bits: FLAG_WRITE }) {
            PTE_WRITABLE
        } else {
            0
        };
        let no_execute: u64 = if flags.contains(Flags { bits: FLAG_EXECUTE }) {
            0
        } else {
            PTE_NX
        };
        PTEFlags { bits: (PTE_VALID | PTE_DIRTY | PTE_ACCESSED) | writable | no_execute }
    }
}

impl vstd::std_specs::convert::FromSpecImpl<Flags> for PTEFlags {
    open spec fn obeys_from_spec() -> bool {
        true
    }

    open spec fn from_spec(v: Flags) -> PTEFlags {
        PTEFlags { bits: pte_bits_for(v) }
    }
}

impl From<PTEFlags> for Flags {
    fn from(arch_flags: PTEFlags) -> (out: Self) {
        let read: u8 = if arch_flags.contains(PTEFlags::valid()) {
            FLAG_READ
        } else {
            0
        };
        let write: u8 = if arch_flags.contains(PTEFlags::writable()) {
            FLAG_WRITE
        } else {
            0
        };
        let execute: u8 = if arch_flags.contains(PTEFlags::nx()) {
            0
        } else {
            FLAG_EXECUTE
        };
        Flags { bits: read | write | execute }
    }
}

impl vstd::std_specs::convert::FromSpecImpl<PTEFlags> for Flags {
    open spec fn obeys_from_spec() -> bool {
        true
    }

    open spec fn from_spec(v: PTEFlags) -> Flags {
        Flags { bits: flag_bits_for(v.bits) }
    }
}

/// Converting permissions to entry flags and back gives the same read, write
/// and execute permissions, with read always granted (a present page is
/// readable).
pub proof fn lemma_flags_round_trip(bits: u8)
    by (bit_vector)
    ensures
        flag_bits_for(pte_bits_from(bits)) == (bits & (FLAG_WRITE | FLAG_EXECUTE)) | FLAG_READ,
{
}

/// A page-table entry.
#[derive(Debug, Copy, Clone, PartialEq, Eq, Structural)]
pub struct PageTableEntry {
    bits: u64,
}

impl View for PageTableEntry {
    type V = u64;

    closed spec fn view(&self) -> u64 {
        self.bits
    }
}

impl PageTableEntry {
    /// An entry with the given raw bits.
    pub fn from_bits(bits: u64) -> (e: Self)
        ensures
            e@ == bits,
    {
        PageTableEntry { bits }
    }

    /// The raw bits.
    pub fn bits(&self) -> (b: u64)
        ensures
            b == self@,
    {
        self.bits
    }

    /// Whether the present bit is set.
    pub fn is_valid(&self) -> (b: bool)
        ensures
            b == (self@ & PTE_VALID == PTE_VALID),
    {
        PTEFlags::from_bits_retain(self.bits).contains(PTEFlags::valid())
    }

    /// Whether the entry maps a page at `level` rather than pointing to a
    /// table: every valid entry of a page table, a valid huge entry of a page
    /// directory or page-directory-pointer table, never an entry of the PML4.
    pub fn is_leaf(&self, level: usize) -> (b: bool)
        ensures
            b == (if level == 0 {
                self@ & PTE_VALID == PTE_VALID
            } else if level == 1 || level == 2 {
                self@ & PTE_VALID == PTE_VALID && self@ & PTE_HUGE == PTE_HUGE
            } else {
                false
            }),
    {
        if level == 0 {
            self.is_valid()
        } else if level == 1 || level == 2 {
            self.is_valid() && PTEFlags::from_bits_retain(self.bits).contains(PTEFlags::huge())
        } else {
            false
        }
    }

    /// Point the entry at `address` (its page frame) with `flags`.
    pub fn replace_address_and_flags(&mut self, address: u64, flags: PTEFlags)
        ensures
            final(self)@ == (address & !0xFFFu64) | flags@,
    {
        self.bits = (address & !0xFFFu64) | flags.bits();
    }

    /// The page-frame address of the entry, and its defined flags.
    pub fn get_address_and_flags(&self) -> (r: (u64, PTEFlags))
        ensures
            r.0 == self@ & !0xFFFu64,
            r.1@ == self@ & PTE_ALL,
    {
        let addr = self.bits & !0xFFFu64;
        let flags = PTEFlags::from_bits_truncate(self.bits);
        (addr, flags)
    }
}

/// Reading an entry back gives the frame address it was pointed at, and the
/// flags it was given, when the address has no bits above the physical range
/// and the flags only defined low bits (no no-execute).
pub proof fn lemma_entry_round_trip(address: u64, flags: u64)
    requires
        address < 0x8000_0000_0000_0000u64,
        flags & !0x1FFu64 == 0,
    ensures
        ({
            let bits = (address & !0xFFFu64) | flags;
            &&& bits & !0xFFFu64 == address & !0xFFFu64
            &&& bits & PTE_ALL == flags
        }),
{
    assert(((address & !0xFFFu64) | flags) & !0xFFFu64 == address & !0xFFFu64) by (bit_vector)
        requires
            flags & !0x1FFu64 == 0,
    ;
    assert(((address & !0xFFFu64) | flags) & 0x8000_0000_0000_01FFu64 == flags) by (bit_vector)
        requires
            address < 0x8000_0000_0000_0000u64,
            flags & !0x1FFu64 == 0,
    ;
}

/// APIC register base (memory-mapped).
pub const APIC_BASE: u64 = 0xFEE00000;

pub const APIC_ID: u64 = 0x020;

pub const APIC_ICR_LOW: u64 = 0x300;

pub const APIC_ICR_HIGH: u64 = 0x310;

/// IPI delivery mode INIT.
pub const APIC_DELMODE_INIT: u32 = 0x500;

/// IPI delivery mode STARTUP.
pub const APIC_DELMODE_STARTUP: u32 = 0x600;

pub const APIC_LEVEL_ASSERT: u32 = 0x4000;

/// Secondary CPU entry point address (must be below 1MB).
pub const AP_STARTUP_ADDR: u64 = 0x8000;

/// The number of CPUs reported by CPUID leaf 1: the logical-processor count
/// in EBX bits 16..23, when it is between 2 and 32, else a single CPU.
pub fn cpu_count_from_cpuid(ebx: u32) -> (n: usize)
    ensures
        ({
            let max_logical = (ebx >> 16u32) & 0xFFu32;
            n == if 1 < max_logical <= 32 {
                max_logical as usize
            } else {
                1
            }
        }),
{
    let max_logical = ((ebx >> 16u32) & 0xFFu32) as usize;
    if max_logical > 1 && max_logical <= 32 {
        max_logical
    } else {
        1
    }
}

/// The interrupt command high word that targets APIC `apic_id`.
pub fn apic_icr_high(apic_id: u32) -> (v: u32)
    ensures
        v == apic_id << 24u32,
{
    apic_id << 24u32
}

/// The interrupt command low word of an INIT IPI (asserted).
pub fn init_ipi_icr_low() -> (v: u32)
    ensures
        v == APIC_DELMODE_INIT | APIC_LEVEL_ASSERT,
{
    APIC_DELMODE_INIT | APIC_LEVEL_ASSERT
}

/// The interrupt command low word of a STARTUP IPI with `start_vector`.
pub fn startup_ipi_icr_low(start_vector: u8) -> (v: u32)
    ensures
        v == APIC_DELMODE_STARTUP | start_vector as u32,
{
    APIC_DELMODE_STARTUP | (start_vector as u32)
}

/// The STARTUP vector of the trampoline: its page number.
pub fn ap_start_vector() -> (v: u8)
    ensures
        v == 8,
{
    assert(0x8000u64 >> 12u64 == 8) by (bit_vector);
    (AP_STARTUP_ADDR >> 12u64) as u8
}

/// The CPUs to start: every CPU but the boot CPU, or none on a single-CPU
/// system.
pub fn secondary_harts(boot_cpu: usize, cpu_count: usize) -> (v: Vec<usize>)
    ensures
        cpu_count <= 1 ==> v@.len() == 0,
        cpu_count > 1 ==> v@ == Seq::new(cpu_count as nat, |i: int| i as usize).filter(|c: usize| c != boot_cpu),
{
    let mut v: Vec<usize> = Vec::new();
    if cpu_count <= 1 {
        return v;
    }
    let ghost all = Seq::new(cpu_count as nat, |i: int| i as usize);
    let mut cpu_id: usize = 0;
    while cpu_id < cpu_count
        invariant
            cpu_id <= cpu_count,
            all == Seq::new(cpu_count as nat, |i: int| i as usize),
            v@ == all.subrange(0, cpu_id as int).filter(|c: usize| c != boot_cpu),
        decreases cpu_count - cpu_id,
    {
        proof {
            let t = all.subrange(0, cpu_id as int + 1);
            assert(t.drop_last() =~= all.subrange(0, cpu_id as int));
            assert(t.last() == cpu_id);
            reveal(Seq::filter);
            assert(t =~= t.drop_last().push(cpu_id));
        }
        if cpu_id != boot_cpu {
            v.push(cpu_id);
        }
        cpu_id = cpu_id + 1;
    }
    assert(all.subrange(0, cpu_id as int) =~= all);
    v
}

} // verus!
