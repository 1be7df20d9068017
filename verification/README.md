# kernel

Kernel services of k23 with their behaviour proved by Verus.

- `src/fs`: the virtual file system (mount points, path resolution, open
  files), the RAM file system behind it, and the WASM host system calls.
- `src/cxl`: CXL devices, the memory-region manager and its allocation
  policies, and the scan of PCI bus 0 for CXL devices.
- `src/smp`: CPU sets and affinity, the per-CPU scheduler with work stealing
  and load balancing, and inter-processor messages.
- `src/loader`: x86_64 page-table entries and flags, and the walks that map
  and remap contiguous ranges.
- `app`: the global handles, port and memory-mapped I/O, page tables in
  physical memory, and the processor instructions the library leaves out.
- `tests`: scenarios for each module.
