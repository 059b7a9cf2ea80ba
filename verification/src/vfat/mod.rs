//! The FAT32 volume engine.

pub mod cache;
pub mod chain;
pub mod cluster;
pub mod dir;
pub mod ebpb;
pub mod entry;
pub mod error;
pub mod fat;
pub mod file;
pub mod filesystem;
pub mod geometry;
pub mod metadata;
pub mod vfat;

pub use self::cache::{CachedDevice, Partition};
pub use self::cluster::Cluster;
pub use self::ebpb::BiosParameterBlock;
pub use self::error::Error;
pub use self::dir::Dir;
pub use self::entry::Entry;
pub use self::fat::{FatEntry, Status};
pub use self::file::{File, SeekFrom};
pub use self::metadata::{Attributes, Date, Metadata, Time, Timestamp};
pub use self::geometry::Geometry;
pub use self::vfat::VFat;
