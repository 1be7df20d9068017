use kernel::loader::walk::{table_address, MapWalk, RemapWalk, WalkAction};
use kernel::loader::x86_64::{
    ap_start_vector, apic_icr_high, can_map_at_level, cpu_count_from_cpuid, init_ipi_icr_low, page_size_for_level,
    pte_index_for_level, secondary_harts, startup_ipi_icr_low, Flags, PTEFlags, PageTableEntry, FLAG_EXECUTE,
    FLAG_READ, FLAG_WRITE, PAGE_SIZE, PTE_ACCESSED, PTE_DIRTY, PTE_HUGE, PTE_NX, PTE_VALID, PTE_WRITABLE,
};
use std::collections::HashMap;

#[test]
fn page_sizes() {
    assert_eq!(page_size_for_level(0), 4096);
    assert_eq!(page_size_for_level(1), 2 * 1024 * 1024);
    assert_eq!(page_size_for_level(2), 1024 * 1024 * 1024);
    assert_eq!(page_size_for_level(3), 512 * 1024 * 1024 * 1024);
    assert_eq!(PAGE_SIZE, 4096);
}

#[test]
fn table_indices() {
    let virt: u64 = (5 << 39) | (4 << 30) | (3 << 21) | (2 << 12) | 0x123;
    assert_eq!(pte_index_for_level(virt, 0), 2);
    assert_eq!(pte_index_for_level(virt, 1), 3);
    assert_eq!(pte_index_for_level(virt, 2), 4);
    assert_eq!(pte_index_for_level(virt, 3), 5);
    assert_eq!(pte_index_for_level(0xffff_ffc0_0000_0000, 3), 511);
}

#[test]
fn leaf_fits() {
    assert!(can_map_at_level(0x20_0000, 0x40_0000, 0x20_0000, 1));
    assert!(!can_map_at_level(0x20_1000, 0x40_0000, 0x20_0000, 1));
    assert!(!can_map_at_level(0x20_0000, 0x40_0000, 0x1F_F000, 1));
    assert!(can_map_at_level(0x1000, 0x2000, 0x1000, 0));
    assert!(!can_map_at_level(0, 0, u64::MAX, 3));
}

#[test]
fn flag_conversions() {
    let rw = Flags::from_bits_retain(FLAG_READ | FLAG_WRITE);
    let pte = PTEFlags::from(rw);
    assert_eq!(pte.bits(), PTE_VALID | PTE_DIRTY | PTE_ACCESSED | PTE_WRITABLE | PTE_NX);
    let rx = Flags::from_bits_retain(FLAG_READ | FLAG_EXECUTE);
    assert_eq!(PTEFlags::from(rx).bits(), PTE_VALID | PTE_DIRTY | PTE_ACCESSED);
    // round trip: read is always granted
    assert_eq!(Flags::from(PTEFlags::from(rw)), rw);
    assert_eq!(Flags::from(PTEFlags::from(Flags::from_bits_retain(FLAG_WRITE))), rw);
    assert_eq!(Flags::from(PTEFlags::empty()), Flags::from_bits_retain(FLAG_EXECUTE));
    let mut f = PTEFlags::valid();
    f.insert(PTEFlags::huge());
    assert!(f.contains(PTEFlags::huge()));
    assert!(!f.contains(PTEFlags::writable()));
    assert_eq!(PTEFlags::from_bits_truncate(u64::MAX).bits(), 0x8000_0000_0000_01FF);
}

#[test]
fn entry_round_trip() {
    let mut e = PageTableEntry::from_bits(0xFFFF);
    e.replace_address_and_flags(0x1234_5678, PTEFlags::valid().union(PTEFlags::writable()));
    let (addr, flags) = e.get_address_and_flags();
    assert_eq!(addr, 0x1234_5000);
    assert_eq!(flags.bits(), PTE_VALID | PTE_WRITABLE);
    assert!(e.is_valid());
    assert!(e.is_leaf(0));
    assert!(!e.is_leaf(1));
    assert!(!e.is_leaf(3));
    let huge = PageTableEntry::from_bits(PTE_VALID | PTE_HUGE);
    assert!(huge.is_leaf(2));
    assert!(!PageTableEntry::from_bits(0).is_valid());
}

#[test]
fn cpu_discovery_and_ipis() {
    assert_eq!(cpu_count_from_cpuid(0x0008_0000), 8);
    assert_eq!(cpu_count_from_cpuid(0x0001_0000), 1);
    assert_eq!(cpu_count_from_cpuid(0x0040_0000), 1);
    assert_eq!(cpu_count_from_cpuid(0x0020_0000), 32);
    assert_eq!(apic_icr_high(3), 3 << 24);
    assert_eq!(init_ipi_icr_low(), 0x4500);
    assert_eq!(startup_ipi_icr_low(8), 0x608);
    assert_eq!(ap_start_vector(), 8);
    assert_eq!(secondary_harts(0, 4), vec![1, 2, 3]);
    assert_eq!(secondary_harts(2, 4), vec![0, 1, 3]);
    assert!(secondary_harts(0, 1).is_empty());
}

#[test]
fn table_addresses() {
    assert_eq!(table_address(0x1000, 0xffff_8000_0000_0000), Some(0xffff_8000_0000_1000));
    assert_eq!(table_address(0, 0), None);
    assert_eq!(table_address(0x1000, u64::MAX), None);
}

/// Page tables in a map from frame address to its 512 entries.
struct Tables {
    frames: HashMap<u64, Vec<u64>>,
    next_frame: u64,
}

impl Tables {
    fn new() -> Self {
        let mut frames = HashMap::new();
        frames.insert(0x1000, vec![0; 512]);
        Tables { frames, next_frame: 0x100_000 }
    }

    fn map(&mut self, virt: u64, phys: u64, len: u64, flags: Flags) -> Result<(), ()> {
        let mut walk = MapWalk::new(0x1000, virt, phys, len, flags);
        while !walk.is_done() {
            let (table, index) = walk.slot();
            let entry = PageTableEntry::from_bits(self.frames[&table][index]);
            match walk.step(entry) {
                WalkAction::Write(e) => self.frames.get_mut(&table).unwrap()[index] = e.get_bits(),
                WalkAction::Allocate => {
                    let frame = self.next_frame;
                    self.next_frame += 0x1000;
                    self.frames.insert(frame, vec![0; 512]);
                    let e = walk.table_allocated(frame);
                    self.frames.get_mut(&table).unwrap()[index] = e.get_bits();
                }
                WalkAction::Descend => {}
                WalkAction::Invalid => return Err(()),
            }
        }
        Ok(())
    }

    fn remap(&mut self, virt: u64, phys: u64, len: u64) -> Result<(), ()> {
        let mut walk = RemapWalk::new(0x1000, virt, phys, len);
        while !walk.is_done() {
            let (table, index) = walk.slot();
            let entry = PageTableEntry::from_bits(self.frames[&table][index]);
            match walk.step(entry) {
                WalkAction::Write(e) => self.frames.get_mut(&table).unwrap()[index] = e.get_bits(),
                WalkAction::Descend => {}
                _ => return Err(()),
            }
        }
        Ok(())
    }

    /// The leaf entry for `virt` and its level.
    fn lookup(&self, virt: u64) -> Option<(u64, usize)> {
        let mut table = 0x1000;
        for lvl in (0..4).rev() {
            let e = self.frames[&table][pte_index_for_level(virt, lvl)];
            let entry = PageTableEntry::from_bits(e);
            if !entry.is_valid() {
                return None;
            }
            if entry.is_leaf(lvl) {
                return Some((e, lvl));
            }
            table = entry.get_address_and_flags().0;
        }
        None
    }
}

trait Bits {
    fn get_bits(&self) -> u64;
}

impl Bits for PageTableEntry {
    fn get_bits(&self) -> u64 {
        let (addr, flags) = self.get_address_and_flags();
        addr | flags.bits()
    }
}

#[test]
fn map_one_page() {
    let mut t = Tables::new();
    let rw = Flags::from_bits_retain(FLAG_READ | FLAG_WRITE);
    t.map(0x40_0000, 0x8000, 100, rw).unwrap();
    let (e, lvl) = t.lookup(0x40_0000).unwrap();
    assert_eq!(lvl, 0);
    assert_eq!(e & !0xFFF & !PTE_NX, 0x8000);
    assert_eq!(e & 0xFFF, PTE_VALID | PTE_DIRTY | PTE_ACCESSED | PTE_WRITABLE);
    assert_eq!(e & PTE_NX, PTE_NX);
    // three tables were allocated: PDPT, PD and PT
    assert_eq!(t.frames.len(), 4);
    assert!(t.lookup(0x40_1000).is_none());
}

#[test]
fn map_uses_huge_pages_when_aligned() {
    let mut t = Tables::new();
    let rx = Flags::from_bits_retain(FLAG_READ | FLAG_EXECUTE);
    t.map(0x20_0000, 0x60_0000, 0x20_0000 + 0x1000, rx).unwrap();
    let (e, lvl) = t.lookup(0x20_0000).unwrap();
    assert_eq!(lvl, 1);
    assert_eq!(e & PTE_HUGE, PTE_HUGE);
    assert_eq!(e & !0xFFF, 0x60_0000);
    let (e2, lvl2) = t.lookup(0x40_0000).unwrap();
    assert_eq!(lvl2, 0);
    assert_eq!(e2 & !0xFFF, 0x80_0000);
}

#[test]
fn mapping_twice_is_invalid() {
    let mut t = Tables::new();
    let r = Flags::from_bits_retain(FLAG_READ);
    t.map(0x1000, 0x1000, 0x1000, r).unwrap();
    assert_eq!(t.map(0x1000, 0x5000, 0x1000, r), Err(()));
}

#[test]
fn remap_points_pages_elsewhere_keeping_flags() {
    let mut t = Tables::new();
    let rw = Flags::from_bits_retain(FLAG_READ | FLAG_WRITE);
    t.map(0x10_0000, 0x20_0000, 0x2000, rw).unwrap();
    t.remap(0x10_0000, 0x90_0000, 0x2000).unwrap();
    let (e0, _) = t.lookup(0x10_0000).unwrap();
    let (e1, _) = t.lookup(0x10_1000).unwrap();
    assert_eq!(e0 & !0xFFF & !PTE_NX, 0x90_0000);
    assert_eq!(e1 & !0xFFF & !PTE_NX, 0x90_1000);
    assert_eq!(e0 & 0xFFF, PTE_VALID | PTE_DIRTY | PTE_ACCESSED | PTE_WRITABLE);
    assert_eq!(t.remap(0x50_0000, 0x1000, 0x1000), Err(()));
}

#[test]
fn walk_actions_on_given_entries() {
    let mut walk = MapWalk::new(0x1000, 0, 0, 0x1000, Flags::empty());
    assert_eq!(walk.level(), 3);
    assert_eq!(walk.slot(), (0x1000, 0));
    // a table entry is followed down
    assert_eq!(walk.step(PageTableEntry::from_bits(0x7000 | PTE_VALID)), WalkAction::Descend);
    assert_eq!(walk.slot(), (0x7000, 0));
    assert_eq!(walk.level(), 2);
    // no page fits at level 2 for one page: a table is needed
    assert_eq!(walk.step(PageTableEntry::from_bits(0)), WalkAction::Allocate);
    let e = walk.table_allocated(0x9000);
    assert_eq!(e.get_address_and_flags().0, 0x9000);
    assert_eq!(walk.level(), 1);
    // a huge page mapped there already is invalid
    assert_eq!(walk.step(PageTableEntry::from_bits(PTE_VALID | PTE_HUGE)), WalkAction::Invalid);
}
