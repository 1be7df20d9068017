//! Verified core of the k23 kernel services: the virtual file system and its
//! RAM file system, CXL memory-region management, SMP scheduling, affinity
//! and inter-processor messaging, and the x86_64 page-table helpers of the
//! loader.
pub mod cxl;
pub mod fs;
pub mod loader;
pub mod numfmt;
pub mod smp;

