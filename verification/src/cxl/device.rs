//! CXL device abstraction.
use vstd::prelude::*;

verus! {

/// CXL device types.
#[derive(Debug, Clone, Copy, PartialEq, Eq)]
pub enum CXLDeviceType {
    /// Type 1: Device-only memory (e.g., GPU)
    Type1,
    /// Type 2: Device with host-managed memory (e.g., smart NIC)
    Type2,
    /// Type 3: Pure memory device (e.g., memory expansion)
    Type3,
}

/// CXL device capability flags.
#[derive(Debug, Clone, Copy)]
pub struct CXLCapabilities {
    /// Supports cache coherency
    pub cache_coherent: bool,
    /// Supports memory pooling
    pub memory_pooling: bool,
    /// Supports hot-plug
    pub hot_plug: bool,
    /// Supports persistent memory
    pub persistent_memory: bool,
    /// Maximum memory bandwidth (MB/s)
    pub max_bandwidth: u64,
    /// Memory latency (nanoseconds)
    pub latency_ns: u32,
}

/// Default capabilities: cache coherent only, 64 GB/s, 100 ns.
pub open spec fn default_capabilities() -> CXLCapabilities {
    CXLCapabilities {
        cache_coherent: true,
        memory_pooling: false,
        hot_plug: false,
        persistent_memory: false,
        max_bandwidth: 64000,
        latency_ns: 100,
    }
}

impl CXLCapabilities {
    /// Default capabilities: cache coherent only, 64 GB/s, 100 ns.
    pub fn new() -> (c: Self)
        ensures
            c == default_capabilities(),
    {
        CXLCapabilities {
            cache_coherent: true,
            memory_pooling: false,
            hot_plug: false,
            persistent_memory: false,
            max_bandwidth: 64000,
            latency_ns: 100,
        }
    }
}

/// CXL device interface.
pub trait CXLDevice {
    /// Get device type
    fn device_type(&self) -> CXLDeviceType;

    /// Get device ID
    fn device_id(&self) -> u64;

    /// Get device name
    fn name(&self) -> &str;

    /// Get device capabilities
    fn capabilities(&self) -> CXLCapabilities;

    /// Get base physical address of device memory
    fn base_address(&self) -> Option<usize>;

    /// Get size of device memory in bytes
    fn memory_size(&self) -> usize;

    /// Initialize the device
    fn init(&mut self) -> Result<(), &'static str>;

    /// Read device configuration
    fn read_config(&self, offset: usize, size: usize) -> Result<u64, &'static str>;

    /// Write device configuration
    fn write_config(&mut self, offset: usize, value: u64, size: usize) -> Result<(), &'static str>;
}

/// Generic CXL memory device.
pub struct CXLMemoryDevice {
    device_id: u64,
    name: String,
    device_type: CXLDeviceType,
    capabilities: CXLCapabilities,
    base_address: Option<usize>,
    memory_size: usize,
}

impl CXLMemoryDevice {
    pub closed spec fn id_view(&self) -> u64 {
        self.device_id
    }

    pub closed spec fn name_view(&self) -> Seq<char> {
        self.name@
    }

    pub closed spec fn type_view(&self) -> CXLDeviceType {
        self.device_type
    }

    pub closed spec fn caps_view(&self) -> CXLCapabilities {
        self.capabilities
    }

    pub closed spec fn base_view(&self) -> Option<usize> {
        self.base_address
    }

    pub closed spec fn size_view(&self) -> usize {
        self.memory_size
    }

    /// A device with the default capabilities.
    pub fn new(
        device_id: u64,
        name: String,
        device_type: CXLDeviceType,
        base_address: Option<usize>,
        memory_size: usize,
    ) -> (d: Self)
        ensures
            d.id_view() == device_id,
            d.name_view() == name@,
            d.type_view() == device_type,
            d.caps_view() == default_capabilities(),
            d.base_view() == base_address,
            d.size_view() == memory_size,
    {
        CXLMemoryDevice {
            device_id,
            name,
            device_type,
            capabilities: CXLCapabilities::new(),
            base_address,
            memory_size,
        }
    }

    /// The same device with other capabilities.
    pub fn with_capabilities(self, capabilities: CXLCapabilities) -> (d: Self)
        ensures
            d.caps_view() == capabilities,
            d.id_view() == self.id_view(),
            d.name_view() == self.name_view(),
            d.type_view() == self.type_view(),
            d.base_view() == self.base_view(),
            d.size_view() == self.size_view(),
    {
        let mut d = self;
        d.capabilities = capabilities;
        d
    }
}

impl CXLDevice for CXLMemoryDevice {
    fn device_type(&self) -> (t: CXLDeviceType)
        ensures
            t == self.type_view(),
    {
        self.device_type
    }

    fn device_id(&self) -> (i: u64)
        ensures
            i == self.id_view(),
    {
        self.device_id
    }

    fn name(&self) -> (n: &str)
        ensures
            n@ == self.name_view(),
    {
        self.name.as_str()
    }

    fn capabilities(&self) -> (c: CXLCapabilities)
        ensures
            c == self.caps_view(),
    {
        self.capabilities
    }

    fn base_address(&self) -> (b: Option<usize>)
        ensures
            b == self.base_view(),
    {
        self.base_address
    }

    fn memory_size(&self) -> (s: usize)
        ensures
            s == self.size_view(),
    {
        self.memory_size
    }

    /// Nothing to set up: always succeeds.
    fn init(&mut self) -> (r: Result<(), &'static str>)
        ensures
            r is Ok,
            *final(self) == *old(self),
    {
        Ok(())
    }

    /// The configuration space is not backed: every read gives 0.
    fn read_config(&self, offset: usize, size: usize) -> (r: Result<u64, &'static str>)
        ensures
            r matches Ok(v) && v == 0,
    {
        Ok(0)
    }

    /// The configuration space is not backed: writes are accepted and dropped.
    fn write_config(&mut self, offset: usize, value: u64, size: usize) -> (r: Result<(), &'static str>)
        ensures
            r is Ok,
            *final(self) == *old(self),
    {
        Ok(())
    }
}

} // verus!
