//! The entries of the file allocation table.

use crate::vfat::cluster::Cluster;
use vstd::prelude::*;

verus! {

/// What an entry of the file allocation table says of its cluster.
#[derive(Debug, Clone, Copy, PartialEq, Eq, Structural)]
pub enum Status {
    /// The FAT entry corresponds to an unused (free) cluster.
    Free,
    /// The FAT entry/cluster is reserved.
    Reserved,
    /// The FAT entry corresponds to a valid data cluster. The next cluster in
    /// the chain is `Cluster`.
    Data(Cluster),
    /// The FAT entry corresponds to a bad (disk failed) cluster.
    Bad,
    /// The FAT entry corresponds to a valid data cluster. The corresponding
    /// cluster is the last in its chain.
    Eoc(u32),
}

/// One entry of the file allocation table, as the disk holds it.
#[derive(Debug, Clone, Copy)]
pub struct FatEntry(pub u32);

/// The 28 bits of a table entry that count: the top four are ignored.
pub open spec fn significant_bits(raw: u32) -> u32 {
    (raw % 0x1000_0000) as u32
}

/// The status that the 28 significant bits of a table entry stand for.
pub open spec fn status_of(raw: u32) -> Status {
    let v = significant_bits(raw);
    if v == 0 {
        Status::Free
    } else if v == 1 {
        Status::Reserved
    } else if v <= 0x0FFF_FFEF {
        Status::Data(Cluster(v))
    } else if v <= 0x0FFF_FFF6 {
        Status::Reserved
    } else if v == 0x0FFF_FFF7 {
        Status::Bad
    } else {
        Status::Eoc(v)
    }
}

impl FatEntry {
    /// Returns the `Status` of the FAT entry `self`.
    pub fn status(&self) -> (r: Status)
        ensures
            r == status_of(self.0),
    {
        let raw: u32 = self.0;
        let v: u32 = raw & 0x0FFF_FFFF;
        assert(v == raw % 0x1000_0000) by (bit_vector)
            requires
                v == raw & 0x0FFF_FFFF,
        ;
        if v == 0 {
            Status::Free
        } else if v == 1 {
            Status::Reserved
        } else if v <= 0x0FFF_FFEF {
            Status::Data(Cluster(v))
        } else if v <= 0x0FFF_FFF6 {
            Status::Reserved
        } else if v == 0x0FFF_FFF7 {
            Status::Bad
        } else {
            Status::Eoc(v)
        }
    }
}

} // verus!
