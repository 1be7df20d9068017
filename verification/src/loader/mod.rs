//! The boot loader's architecture support.
pub mod walk;
pub mod x86_64;
