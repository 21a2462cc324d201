//! Enumeration of the logical drives of a Windows host, and the rules that
//! turn the raw answers of the operating system into partition records.
//!
//! The operating-system queries themselves are made by the caller; this crate
//! decodes their results (drive bitmasks, drive-type codes, UTF-16 buffers)
//! and applies the not-ready policy when assembling the partition list.
pub mod win_api;
pub mod windows_partitions;
