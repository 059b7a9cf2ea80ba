//! Where the parts of a volume lie.

use crate::bytes::{le_u16_at, le_u32_at};
use crate::vfat::cluster::Cluster;
use crate::vfat::ebpb::BiosParameterBlock;
use vstd::prelude::*;

verus! {

/// The number of bytes in one entry of the file allocation table.
pub const FAT_ENTRY_SIZE: u16 = 4;

/// Where the parts of a mounted volume lie, in sectors of the partition.
#[derive(Debug, Clone, Copy)]
pub struct Geometry {
    pub bytes_per_sector: u16,
    pub sectors_per_cluster: u8,
    pub sectors_per_fat: u32,
    pub fat_start_sector: u64,
    pub data_start_sector: u64,
    pub root_dir_cluster: Cluster,
}

impl Geometry {
    /// The geometry of the FAT32 partition that starts at sector `start` and
    /// has the parameter block `bpb`: the table follows the reserved sectors,
    /// and the data follows the copies of the table.
    pub open spec fn of(start: u32, bpb: BiosParameterBlock) -> Geometry {
        Geometry {
            bytes_per_sector: bpb.bytes_per_sector,
            sectors_per_cluster: bpb.sectors_per_cluster,
            sectors_per_fat: bpb.sectors_per_fat,
            fat_start_sector: (start + bpb.reserved_sectors) as u64,
            data_start_sector: (start + bpb.reserved_sectors + bpb.sectors_per_fat
                * bpb.num_fats) as u64,
            root_dir_cluster: Cluster(bpb.root_cluster_num),
        }
    }

    /// The geometry that the parameter block in sector `b` gives to the
    /// partition that starts at sector `start`.
    pub open spec fn decoded(start: u32, b: Seq<u8>) -> Geometry {
        Geometry {
            bytes_per_sector: le_u16_at(b, 11),
            sectors_per_cluster: b[13],
            sectors_per_fat: le_u32_at(b, 36),
            fat_start_sector: (start + le_u16_at(b, 14)) as u64,
            data_start_sector: (start + le_u16_at(b, 14) + le_u32_at(b, 36) * b[16]) as u64,
            root_dir_cluster: Cluster(le_u32_at(b, 44)),
        }
    }

    /// A sector holds at least one table entry, and the table and the data
    /// start where a partition table and a parameter block can put them.
    pub open spec fn wf(self) -> bool {
        &&& self.bytes_per_sector >= FAT_ENTRY_SIZE
        &&& self.fat_start_sector <= 0x1_0000_FFFF
        &&& self.data_start_sector <= 0x100_0000_FFFF
    }

    /// The number of table entries in one sector.
    pub open spec fn entries_per_sector(self) -> int {
        self.bytes_per_sector as int / 4
    }

    /// The number of bytes in one cluster.
    pub open spec fn cluster_bytes(self) -> int {
        self.sectors_per_cluster as int * self.bytes_per_sector as int
    }

    /// The sector that holds the table entry of cluster `c`.
    pub open spec fn fat_sector(self, c: Cluster) -> int {
        self.fat_start_sector + c.0 as int / self.entries_per_sector()
    }

    /// The offset of the table entry of cluster `c` in its sector.
    pub open spec fn fat_offset(self, c: Cluster) -> int {
        (c.0 as int % self.entries_per_sector()) * 4
    }

    /// The first sector of cluster `c`. The data region starts with cluster 2.
    pub open spec fn first_sector(self, c: Cluster) -> int {
        self.data_start_sector + (if c.0 >= 2 {
            c.0 - 2
        } else {
            0
        }) * self.sectors_per_cluster
    }
}

} // verus!
