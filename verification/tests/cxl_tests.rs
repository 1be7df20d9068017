use kernel::cxl::device::{CXLCapabilities, CXLDevice, CXLDeviceType, CXLMemoryDevice};
use kernel::cxl::init;
use kernel::cxl::memory::{AllocationPolicy, CXLMemoryManager, CXLMemoryRegion};
use kernel::cxl::pci::{
    config_word, cxl_device_from_info, cxl_device_name_string, device_present, enumerate_cxl_devices,
    memory_bar_base, pci_config_address, PCIAddress, PCIDeviceInfo, PciScan, CXL_DEFAULT_MEMORY_SIZE,
};
use kernel::cxl::CXLManager;
use std::collections::HashMap;
use std::sync::Arc;

fn region(start: usize, end: usize, device_id: u64, numa: Option<u32>) -> CXLMemoryRegion {
    let mut r = CXLMemoryRegion::new(start..end, device_id);
    r.numa_node = numa;
    r
}

#[test]
fn feature_example_register_allocate_free() {
    let mut manager: CXLManager<CXLMemoryDevice> = CXLManager::new();
    let device = Arc::new(CXLMemoryDevice::new(
        0x1000,
        "CXL-Memory-0".to_string(),
        CXLDeviceType::Type3,
        Some(0x1_0000_0000),
        0x4000_0000,
    ));
    assert_eq!(manager.register_device(device), Ok(()));
    assert_eq!(manager.devices().len(), 1);
    assert_eq!(manager.devices()[0].name(), "CXL-Memory-0");
    let mm = manager.memory_manager_mut();
    mm.register_region(CXLMemoryRegion::new(0x1_0000_0000..0x1_4000_0000, 0x1000)).unwrap();
    let range = mm.allocate(0x10_0000, None).unwrap();
    assert_eq!(range, 0x1_0000_0000..0x1_4000_0000);
    assert_eq!(mm.available_memory(), 0);
    assert_eq!(mm.free(range.start), Ok(()));
    assert_eq!(mm.available_memory(), 0x4000_0000);
}

#[test]
fn region_size() {
    assert_eq!(CXLMemoryRegion::new(0x1000_0000..0x2000_0000, 0).size(), 0x1000_0000);
    let r = CXLMemoryRegion::new(5..5, 1);
    assert_eq!(r.size(), 0);
    assert!(!r.allocated);
    assert_eq!(r.numa_node, None);
}

#[test]
fn overlapping_regions_are_refused() {
    let mut mm = CXLMemoryManager::new();
    mm.register_region(region(0x1000, 0x2000, 0, None)).unwrap();
    assert_eq!(
        mm.register_region(region(0x1800, 0x2800, 1, None)),
        Err("Memory region overlaps with existing region")
    );
    assert_eq!(mm.register_region(region(0x2000, 0x3000, 1, None)), Ok(()));
    assert_eq!(mm.total_memory(), 0x2000);
}

#[test]
fn regions_come_in_address_order() {
    let mut mm = CXLMemoryManager::new();
    mm.register_region(region(0x5000, 0x6000, 2, None)).unwrap();
    mm.register_region(region(0x1000, 0x2000, 1, None)).unwrap();
    let starts: Vec<usize> = mm.regions().iter().map(|r| r.physical_range.start).collect();
    assert_eq!(starts, vec![0x1000, 0x5000]);
}

#[test]
fn allocation_errors() {
    let mut mm = CXLMemoryManager::new();
    assert_eq!(mm.allocate(0, None), Err("Cannot allocate zero-sized region"));
    assert_eq!(mm.allocate(16, None), Err("No suitable CXL memory region available"));
    mm.register_region(region(0x1000, 0x2000, 0, None)).unwrap();
    assert_eq!(mm.allocate(0x1001, None), Err("No suitable CXL memory region available"));
    assert_eq!(mm.allocate(0x1000, None), Ok(0x1000..0x2000));
    assert_eq!(mm.allocate(1, None), Err("No suitable CXL memory region available"));
    assert_eq!(mm.free(0x1800), Err("Region not found"));
    assert_eq!(mm.free(0x1000), Ok(()));
    assert_eq!(mm.free(0x1000), Err("Region not allocated"));
}

#[test]
fn first_fit_and_best_fit() {
    let mut mm = CXLMemoryManager::new();
    mm.register_region(region(0x10000, 0x13000, 0, None)).unwrap();
    mm.register_region(region(0x20000, 0x21000, 0, None)).unwrap();
    assert_eq!(mm.allocate(0x800, None), Ok(0x10000..0x13000));
    mm.free(0x10000).unwrap();
    mm.set_allocation_policy(AllocationPolicy::BestFit);
    assert_eq!(mm.allocate(0x800, None), Ok(0x20000..0x21000));
    assert_eq!(mm.allocate(0x800, None), Ok(0x10000..0x13000));
}

#[test]
fn numa_aware_allocation() {
    let mut mm = CXLMemoryManager::new();
    mm.register_region(region(0x1000, 0x2000, 0, Some(0))).unwrap();
    mm.register_region(region(0x3000, 0x4000, 0, Some(1))).unwrap();
    // first fit ignores the node
    assert_eq!(mm.allocate(0x100, Some(1)), Ok(0x1000..0x2000));
    mm.free(0x1000).unwrap();
    mm.set_allocation_policy(AllocationPolicy::NumaAware);
    assert_eq!(mm.allocate(0x100, Some(1)), Ok(0x3000..0x4000));
    // no region left on node 1
    assert_eq!(mm.allocate(0x100, Some(1)), Err("No suitable CXL memory region available"));
    assert_eq!(mm.allocate(0x100, None), Ok(0x1000..0x2000));
}

#[test]
fn total_and_available_memory() {
    let mut mm = CXLMemoryManager::new();
    mm.register_region(region(0, 0x1000, 0, None)).unwrap();
    mm.register_region(region(0x1000, 0x3000, 0, None)).unwrap();
    assert_eq!(mm.total_memory(), 0x3000);
    assert_eq!(mm.available_memory(), 0x3000);
    mm.allocate(0x1800, None).unwrap();
    assert_eq!(mm.available_memory(), 0x1000);
    assert!(mm.available_memory() <= mm.total_memory());
}

#[test]
fn device_accessors() {
    let dev = CXLMemoryDevice::new(7, "mem7".to_string(), CXLDeviceType::Type1, None, 4096);
    assert_eq!(dev.device_id(), 7);
    assert_eq!(dev.name(), "mem7");
    assert_eq!(dev.device_type(), CXLDeviceType::Type1);
    assert_eq!(dev.base_address(), None);
    assert_eq!(dev.memory_size(), 4096);
    let caps = dev.capabilities();
    assert!(caps.cache_coherent);
    assert!(!caps.memory_pooling);
    assert_eq!(caps.max_bandwidth, 64000);
    assert_eq!(caps.latency_ns, 100);
    let mut caps2 = CXLCapabilities::new();
    caps2.hot_plug = true;
    let mut dev = dev.with_capabilities(caps2);
    assert!(dev.capabilities().hot_plug);
    assert_eq!(dev.init(), Ok(()));
    assert_eq!(dev.read_config(0, 4), Ok(0));
    assert_eq!(dev.write_config(0, 1, 4), Ok(()));
}

#[test]
fn manager_init_and_discovery() {
    let mut slot: Option<CXLManager<CXLMemoryDevice>> = None;
    assert_eq!(init(&mut slot), Ok(()));
    assert!(slot.as_ref().unwrap().devices().is_empty());
    assert_eq!(slot.as_ref().unwrap().discover_devices(), Ok(()));
    assert_eq!(init(&mut slot), Err("CXL already initialized"));
    assert_eq!(slot.as_ref().unwrap().memory_manager().total_memory(), 0);
}

#[test]
fn pci_config_decoding() {
    assert_eq!(pci_config_address(0, 3, 1, 0x0E), 0x8000_0000 | (3 << 11) | (1 << 8) | 0x0C);
    assert_eq!(pci_config_address(1, 0, 0, 0x10), 0x8001_0010);
    assert_eq!(config_word(0xABCD_1234, 0x00), 0x1234);
    assert_eq!(config_word(0xABCD_1234, 0x02), 0xABCD);
    assert!(device_present(0x8086));
    assert!(!device_present(0xFFFF));
    assert_eq!(memory_bar_base(0xFEB0_000C), Some(0xFEB0_0000));
    assert_eq!(memory_bar_base(0x0000_C001), None);
    let info = PCIDeviceInfo::decode(PCIAddress::new(0, 2, 0), 0x8086, 0x0D93, 0x0502_1001, 0x0080, 0xFEB0_0000);
    assert_eq!((info.class_code, info.subclass, info.prog_if), (0x05, 0x02, 0x10));
    assert_eq!(info.header_type, 0x80);
    assert!(info.is_cxl_capable());
    assert_eq!(info.guess_cxl_type(), CXLDeviceType::Type3);
}

#[test]
fn cxl_type_guess() {
    let mk = |class_rev: u32| PCIDeviceInfo::decode(PCIAddress::new(0, 0, 0), 1, 2, class_rev, 0, 0);
    assert_eq!(mk(0x0604_0000).guess_cxl_type(), CXLDeviceType::Type2);
    assert_eq!(mk(0x0C03_0000).guess_cxl_type(), CXLDeviceType::Type1);
    assert_eq!(mk(0x0100_0000).guess_cxl_type(), CXLDeviceType::Type3);
    assert!(!mk(0x0604_0000).is_cxl_capable());
    assert!(cxl_device_from_info(&mk(0x0604_0000), 0).is_none());
}

#[test]
fn device_names() {
    assert_eq!(cxl_device_name_string(0, 0x8086, 0x0d93), "cxl0_8086:d93");
    assert_eq!(cxl_device_name_string(12, 0x1af4, 0x0), "cxl12_1af4:0");
}

#[test]
fn device_from_info() {
    let info = PCIDeviceInfo::decode(PCIAddress::new(0, 4, 0), 0x8086, 0x0d93, 0x0502_0000, 0, 0xFEB0_0008);
    let dev = cxl_device_from_info(&info, 3).unwrap();
    assert_eq!(dev.device_id(), 3);
    assert_eq!(dev.name(), "cxl3_8086:d93");
    assert_eq!(dev.base_address(), Some(0xFEB0_0000));
    assert_eq!(dev.memory_size(), CXL_DEFAULT_MEMORY_SIZE);
    assert_eq!(CXL_DEFAULT_MEMORY_SIZE, 256 * 1024 * 1024);
}

/// A fake bus 0: (device, function) to (vendor, device id, class/revision, header word, BAR 0).
fn scan_bus(bus: &HashMap<(u8, u8), (u16, u16, u32, u16, u32)>) -> (Vec<CXLMemoryDevice>, usize) {
    let mut scan = PciScan::new();
    let mut probes = 0;
    while let Some(addr) = scan.next_address() {
        probes += 1;
        let info = bus.get(&(addr.device, addr.function)).map(|&(v, d, cr, h, b)| {
            PCIDeviceInfo::decode(addr, v, d, cr, h, b)
        });
        scan.record(info);
    }
    (scan.into_devices(), probes)
}

#[test]
fn pci_scan_finds_cxl_devices() {
    let mut bus = HashMap::new();
    // a single-function host bridge at device 0
    bus.insert((0, 0), (0x8086, 0x1237, 0x0600_0000, 0x0000, 0));
    // a multi-function device at 3: a CXL memory controller at function 2
    bus.insert((3, 0), (0x1af4, 0x1000, 0x0100_0000, 0x0080, 0));
    bus.insert((3, 2), (0x8086, 0x0d93, 0x0502_0000, 0x0000, 0xFE00_0000));
    // a single-function CXL device at 31
    bus.insert((31, 0), (0x8086, 0x0d94, 0x0502_1000, 0x0000, 0x0000_C001));
    let (devices, probes) = scan_bus(&bus);
    assert_eq!(devices.len(), 2);
    assert_eq!(devices[0].name(), "cxl0_8086:d93");
    assert_eq!(devices[0].base_address(), Some(0xFE00_0000));
    assert_eq!(devices[1].name(), "cxl1_8086:d94");
    assert_eq!(devices[1].device_id(), 1);
    assert_eq!(devices[1].base_address(), None);
    // device 0 and 31 are probed once, device 3 eight times, every other device eight times
    assert_eq!(probes, 1 + 8 * 29 + 8 + 1);
}

#[test]
fn pci_scan_empty_bus() {
    let (devices, probes) = scan_bus(&HashMap::new());
    assert!(devices.is_empty());
    assert_eq!(probes, 32 * 8);
}

#[test]
fn enumeration_without_configuration_access() {
    assert!(enumerate_cxl_devices().unwrap().is_empty());
}
