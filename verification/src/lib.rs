//! A read-only driver for FAT32 volumes on a block device.

pub mod bytes;
pub mod mbr;
pub mod text;
pub mod traits;
pub mod vfat;

pub use mbr::{Error, MasterBootRecord, PartitionEntry, CHS};
