//! PCI configuration-space decoding for CXL device discovery, and the scan of
//! bus 0 as a state machine that the caller drives with configuration reads.
use vstd::prelude::*;

use crate::cxl::device::{default_capabilities, CXLDeviceType, CXLMemoryDevice};
use crate::numfmt::{digits, push_digits};

verus! {

/// PCI device location.
#[derive(Debug, Clone, Copy)]
pub struct PCIAddress {
    pub bus: u8,
    pub device: u8,
    pub function: u8,
}

impl PCIAddress {
    pub fn new(bus: u8, device: u8, function: u8) -> (a: Self)
        ensures
            a == (PCIAddress { bus, device, function }),
    {
        PCIAddress { bus, device, function }
    }
}

/// The value written to the configuration address port to reach `offset` of
/// a function: enable bit, bus, device, function and the dword-aligned offset.
pub open spec fn config_address_spec(bus: u8, device: u8, function: u8, offset: u8) -> u32 {
    0x8000_0000u32 | ((bus as u32) << 16u32) | ((device as u32) << 11u32) | ((function as u32) << 8u32) | ((
    offset as u32) & 0xFCu32)
}

/// The configuration address for `offset` of the function at
/// `bus:device.function`.
pub fn pci_config_address(bus: u8, device: u8, function: u8, offset: u8) -> (a: u32)
    ensures
        a == config_address_spec(bus, device, function, offset),
{
    0x8000_0000u32 | ((bus as u32) << 16u32) | ((device as u32) << 11u32) | ((function as u32) << 8u32) | ((
    offset as u32) & 0xFCu32)
}

/// The 16-bit half of a configuration dword that `offset` selects.
pub fn config_word(value: u32, offset: u8) -> (w: u16)
    ensures
        w == (if offset & 2u8 == 0 {
            value & 0xFFFFu32
        } else {
            value >> 16u32
        }),
{
    let shift: u32 = ((offset & 2u8) as u32) * 8;
    assert(shift <= 16) by (bit_vector)
        requires
            shift == ((offset & 2u8) as u32) * 8,
    ;
    let w = ((value >> shift) & 0xFFFFu32) as u16;
    assert(w == (if offset & 2u8 == 0 {
        value & 0xFFFFu32
    } else {
        value >> 16u32
    })) by (bit_vector)
        requires
            shift == ((offset & 2u8) as u32) * 8,
            w == ((value >> shift) & 0xFFFFu32) as u16,
    ;
    w
}

/// PCI device information.
#[derive(Debug)]
pub struct PCIDeviceInfo {
    pub address: PCIAddress,
    pub vendor_id: u16,
    pub device_id: u16,
    pub class_code: u8,
    pub subclass: u8,
    pub prog_if: u8,
    pub header_type: u8,
    pub bar0: u32,
}

/// Whether a vendor ID read from a function means a device is there.
pub fn device_present(vendor_id: u16) -> (b: bool)
    ensures
        b == (vendor_id != 0xFFFF),
{
    vendor_id != 0xFFFF
}

impl PCIDeviceInfo {
    /// Device information from the words read at a present function: the
    /// class/revision dword gives class, subclass and programming interface;
    /// the header-type word gives the header type in its low byte.
    pub fn decode(
        address: PCIAddress,
        vendor_id: u16,
        device_id: u16,
        class_rev: u32,
        header_word: u16,
        bar0: u32,
    ) -> (info: Self)
        ensures
            info == (PCIDeviceInfo {
                address,
                vendor_id,
                device_id,
                class_code: ((class_rev >> 24u32) & 0xFFu32) as u8,
                subclass: ((class_rev >> 16u32) & 0xFFu32) as u8,
                prog_if: ((class_rev >> 8u32) & 0xFFu32) as u8,
                header_type: header_word as u8,
                bar0,
            }),
    {
        PCIDeviceInfo {
            address,
            vendor_id,
            device_id,
            class_code: ((class_rev >> 24u32) & 0xFFu32) as u8,
            subclass: ((class_rev >> 16u32) & 0xFFu32) as u8,
            prog_if: ((class_rev >> 8u32) & 0xFFu32) as u8,
            header_type: header_word as u8,
            bar0,
        }
    }

    /// Check if this device has CXL capabilities: a memory controller of the
    /// CXL subclass (class 0x05, subclass 0x02).
    pub fn is_cxl_capable(&self) -> (b: bool)
        ensures
            b == (self.class_code == 0x05 && self.subclass == 0x02),
    {
        self.class_code == 0x05 && self.subclass == 0x02
    }

    /// Guess the CXL device type from class code and subclass.
    pub fn guess_cxl_type(&self) -> (t: CXLDeviceType)
        ensures
            t == guessed_type(self.class_code, self.subclass),
    {
        if self.class_code == 0x05 && self.subclass == 0x02 {
            CXLDeviceType::Type3
        } else if self.class_code == 0x06 {
            CXLDeviceType::Type2
        } else if self.class_code == 0x0C {
            CXLDeviceType::Type1
        } else {
            CXLDeviceType::Type3
        }
    }
}

/// Memory controller: type 3; bridge: type 2; serial bus controller: type 1;
/// anything else: type 3.
pub open spec fn guessed_type(class_code: u8, subclass: u8) -> CXLDeviceType {
    if class_code == 0x05 && subclass == 0x02 {
        CXLDeviceType::Type3
    } else if class_code == 0x06 {
        CXLDeviceType::Type2
    } else if class_code == 0x0C {
        CXLDeviceType::Type1
    } else {
        CXLDeviceType::Type3
    }
}

/// The memory base that BAR 0 decodes to: a memory BAR (bit 0 clear) gives its
/// address bits; an I/O BAR gives none.
pub fn memory_bar_base(bar0: u32) -> (b: Option<usize>)
    ensures
        b == (if bar0 & 1u32 == 0 {
            Some((bar0 & 0xFFFF_FFF0u32) as usize)
        } else {
            None
        }),
{
    if bar0 & 1u32 == 0 {
        Some((bar0 & 0xFFFF_FFF0u32) as usize)
    } else {
        None
    }
}

/// The memory size assumed for a CXL device found on the bus (256 MiB).
pub const CXL_DEFAULT_MEMORY_SIZE: usize = 256 * 1024 * 1024;

/// The name of the CXL device found as number `count`, with its vendor and
/// device IDs: `cxl<count>_<vendor hex>:<device hex>`.
pub open spec fn cxl_device_name(count: u64, vendor_id: u16, device_id: u16) -> Seq<char> {
    seq!['c', 'x', 'l'] + digits(count as nat, 10) + seq!['_'] + digits(vendor_id as nat, 16) + seq![':']
        + digits(device_id as nat, 16)
}

/// Render the name of CXL device number `count`.
pub fn cxl_device_name_string(count: u64, vendor_id: u16, device_id: u16) -> (s: String)
    ensures
        s@ == cxl_device_name(count, vendor_id, device_id),
{
    let mut s = String::new();
    proof {
        reveal_strlit("cxl");
        reveal_strlit("_");
        reveal_strlit(":");
    }
    s.append("cxl");
    push_digits(&mut s, count, 10);
    s.append("_");
    push_digits(&mut s, vendor_id as u64, 16);
    s.append(":");
    push_digits(&mut s, device_id as u64, 16);
    assert(s@ =~= cxl_device_name(count, vendor_id, device_id));
    s
}

/// `d` is the CXL device made for function `info` found as number `count`.
pub open spec fn is_device_for(d: CXLMemoryDevice, info: PCIDeviceInfo, count: u64) -> bool {
    &&& d.id_view() == count
    &&& d.name_view() == cxl_device_name(count, info.vendor_id, info.device_id)
    &&& d.type_view() == guessed_type(info.class_code, info.subclass)
    &&& d.caps_view() == default_capabilities()
    &&& d.base_view() == (if info.bar0 & 1u32 == 0 {
        Some((info.bar0 & 0xFFFF_FFF0u32) as usize)
    } else {
        None::<usize>
    })
    &&& d.size_view() == CXL_DEFAULT_MEMORY_SIZE
}

/// The CXL device for a function, when it is CXL capable.
pub fn cxl_device_from_info(info: &PCIDeviceInfo, count: u64) -> (d: Option<CXLMemoryDevice>)
    ensures
        (info.class_code == 0x05 && info.subclass == 0x02) <==> d is Some,
        d matches Some(dev) ==> is_device_for(dev, *info, count),
{
    if !info.is_cxl_capable() {
        return None;
    }
    let device_type = info.guess_cxl_type();
    let base_addr = memory_bar_base(info.bar0);
    let name = cxl_device_name_string(count, info.vendor_id, info.device_id);
    Some(CXLMemoryDevice::new(count, name, device_type, base_addr, CXL_DEFAULT_MEMORY_SIZE))
}

/// The scan of the 32 devices of PCI bus 0, function by function: the caller
/// reads the configuration space at `next_address` and reports what it found
/// with `record`, until there is no next address.
pub struct PciScan {
    device: u8,
    function: u8,
    finished: bool,
    devices: Vec<CXLMemoryDevice>,
    device_count: u64,
}

impl PciScan {
    /// The device and function to probe next.
    pub closed spec fn position(&self) -> (u8, u8) {
        (self.device, self.function)
    }

    /// Whether every function has been probed.
    pub closed spec fn is_finished(&self) -> bool {
        self.finished
    }

    /// The CXL devices found so far, in order of discovery.
    pub closed spec fn found(&self) -> Seq<CXLMemoryDevice> {
        self.devices@
    }

    /// The number of CXL devices found so far.
    pub closed spec fn count(&self) -> u64 {
        self.device_count
    }

    /// Position within the bus, and a count that matches the devices found
    /// and cannot outgrow the functions probed.
    pub closed spec fn wf(&self) -> bool {
        &&& self.device < 32
        &&& self.function < 8
        &&& self.device_count == self.devices@.len()
        &&& self.device_count <= self.device as int * 8 + self.function as int + if self.finished {
            1int
        } else {
            0int
        }
    }

    /// A scan about to probe 0:0.0.
    pub fn new() -> (s: Self)
        ensures
            s.wf(),
            s.position() == (0u8, 0u8),
            !s.is_finished(),
            s.found() == Seq::<CXLMemoryDevice>::empty(),
            s.count() == 0,
    {
        PciScan { device: 0, function: 0, finished: false, devices: Vec::new(), device_count: 0 }
    }

    /// The address to probe next, or none once the bus is done.
    pub fn next_address(&self) -> (a: Option<PCIAddress>)
        ensures
            self.is_finished() <==> a is None,
            a matches Some(addr) ==> addr == (PCIAddress {
                bus: 0,
                device: self.position().0,
                function: self.position().1,
            }),
    {
        if self.finished {
            None
        } else {
            Some(PCIAddress::new(0, self.device, self.function))
        }
    }

    /// Record what the probe of the current function found: a CXL-capable
    /// function becomes the next device; after function 0 of a
    /// single-function device, or after function 7, the scan moves on to the
    /// next device; after the last device it is finished.
    pub fn record(&mut self, info: Option<PCIDeviceInfo>)
        requires
            old(self).wf(),
            !old(self).is_finished(),
        ensures
            final(self).wf(),
            ({
                let dev = old(self).position().0;
                let func = old(self).position().1;
                let skip = (info matches Some(i) && func == 0 && i.header_type & 0x80u8 == 0);
                if skip || func == 7 {
                    &&& final(self).is_finished() == (dev == 31)
                    &&& !final(self).is_finished() ==> final(self).position() == ((dev + 1) as u8, 0u8)
                } else {
                    &&& !final(self).is_finished()
                    &&& final(self).position() == (dev, (func + 1) as u8)
                }
            }),
            match info {
                Some(i) => if i.class_code == 0x05 && i.subclass == 0x02 {
                    &&& final(self).count() == old(self).count() + 1
                    &&& final(self).found().len() == old(self).found().len() + 1
                    &&& final(self).found().subrange(0, old(self).found().len() as int) == old(self).found()
                    &&& is_device_for(final(self).found().last(), i, old(self).count())
                } else {
                    &&& final(self).count() == old(self).count()
                    &&& final(self).found() == old(self).found()
                },
                None => {
                    &&& final(self).count() == old(self).count()
                    &&& final(self).found() == old(self).found()
                },
            },
    {
        let mut skip_rest = false;
        if let Some(info) = info {
            if let Some(dev) = cxl_device_from_info(&info, self.device_count) {
                self.devices.push(dev);
                self.device_count = self.device_count + 1;
            }
            if self.function == 0 && info.header_type & 0x80u8 == 0 {
                skip_rest = true;
            }
        }
        if skip_rest || self.function == 7 {
            if self.device == 31 {
                self.finished = true;
            } else {
                self.device = self.device + 1;
                self.function = 0;
            }
        } else {
            self.function = self.function + 1;
        }
    }

    /// The CXL devices found, in order of discovery.
    pub fn into_devices(self) -> (v: Vec<CXLMemoryDevice>)
        ensures
            v@ == self.found(),
    {
        self.devices
    }
}

/// Enumerate CXL devices where configuration space cannot be reached: there
/// are none.
pub fn enumerate_cxl_devices() -> (r: Result<Vec<CXLMemoryDevice>, &'static str>)
    ensures
        r matches Ok(v) && v@.len() == 0,
{
    Ok(Vec::new())
}

} // verus!
