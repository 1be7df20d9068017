//! CXL (Compute Express Link): device registry and memory-region management.
pub mod device;
pub mod memory;
pub mod pci;

use std::sync::Arc;
use vstd::prelude::*;

use crate::cxl::device::CXLDevice;
use crate::cxl::memory::{AllocationPolicy, CXLMemoryManager, CXLMemoryRegion};

verus! {

/// CXL Manager: the registered CXL devices and the manager of their memory.
pub struct CXLManager<D: CXLDevice> {
    devices: Vec<Arc<D>>,
    memory_manager: CXLMemoryManager,
}

impl<D: CXLDevice> CXLManager<D> {
    /// The registered devices, in order of registration.
    pub closed spec fn devices_view(&self) -> Seq<Arc<D>> {
        self.devices@
    }

    /// The memory manager.
    pub closed spec fn memory_view(&self) -> CXLMemoryManager {
        self.memory_manager
    }

    /// No devices, and an empty first-fit memory manager.
    pub fn new() -> (m: Self)
        ensures
            m.devices_view() == Seq::<Arc<D>>::empty(),
            m.memory_view().wf(),
            m.memory_view().regions_view() == Seq::<CXLMemoryRegion>::empty(),
            m.memory_view().policy() == AllocationPolicy::FirstFit,
    {
        CXLManager { devices: Vec::new(), memory_manager: CXLMemoryManager::new() }
    }

    /// Register a CXL device.
    pub fn register_device(&mut self, device: Arc<D>) -> (r: Result<(), &'static str>)
        ensures
            r is Ok,
            final(self).devices_view() == old(self).devices_view().push(device),
            final(self).memory_view() == old(self).memory_view(),
    {
        self.devices.push(device);
        Ok(())
    }

    /// Get all registered CXL devices.
    pub fn devices(&self) -> (v: &Vec<Arc<D>>)
        ensures
            v@ == self.devices_view(),
    {
        &self.devices
    }

    /// Get the memory manager.
    pub fn memory_manager(&self) -> (m: &CXLMemoryManager)
        ensures
            *m == self.memory_view(),
    {
        &self.memory_manager
    }

    /// Get the memory manager, to register, allocate or free regions.
    pub fn memory_manager_mut(&mut self) -> (m: &mut CXLMemoryManager)
        ensures
            *m == old(self).memory_view(),
            final(self).memory_view() == *final(m),
            final(self).devices_view() == old(self).devices_view(),
    {
        &mut self.memory_manager
    }

    /// Discover and initialize CXL devices. Bus enumeration is driven from
    /// outside (see `pci::PciScan`); here nothing changes and it succeeds.
    pub fn discover_devices(&self) -> (r: Result<(), &'static str>)
        ensures
            r is Ok,
    {
        Ok(())
    }
}

/// Initialize the CXL subsystem in `slot`, which must still be empty.
pub fn init<D: CXLDevice>(slot: &mut Option<CXLManager<D>>) -> (r: Result<(), &'static str>)
    ensures
        (*old(slot)) is Some <==> r is Err,
        r matches Err(e) ==> e == "CXL already initialized" && *final(slot) == *old(slot),
        r is Ok ==> ((*final(slot)) matches Some(m) && m.devices_view() == Seq::<Arc<D>>::empty()
            && m.memory_view().wf() && m.memory_view().regions_view() == Seq::<CXLMemoryRegion>::empty()
            && m.memory_view().policy() == AllocationPolicy::FirstFit),
{
    if slot.is_some() {
        return Err("CXL already initialized");
    }
    let cxl_manager = CXLManager::new();
    cxl_manager.discover_devices()?;
    *slot = Some(cxl_manager);
    Ok(())
}

} // verus!
