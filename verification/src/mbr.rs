//! The master boot record: the first sector of a disk and its partition table.

use crate::bytes::{field, le_bytes_u16, le_bytes_u32, le_u16_at, le_u32_at, u16_at, u32_at};
use crate::bytes::{lemma_le_bytes_u16_round_trip, lemma_le_bytes_u32_round_trip};
use crate::bytes::{lemma_le_u16_round_trip, lemma_le_u32_round_trip};
use crate::traits::BlockDevice;
use vstd::prelude::*;
use vstd::slice::slice_subrange;

verus! {

/// The offset of the partition table inside the sector.
pub const PARTITION_TABLE_OFFSET: usize = 446;

/// The number of bytes in one partition table entry.
pub const PARTITION_ENTRY_SIZE: usize = 16;

/// The smallest sector that can hold a boot record.
pub const BOOT_SECTOR_SIZE: usize = 512;

/// A cylinder, head, sector address as a partition table stores it.
#[derive(Copy, Clone, Debug)]
pub struct CHS {
    pub head: u8,
    /// The sector in bits 0 to 5, the cylinder in bits 6 to 15.
    pub sector_starting_cylinder: u16,
}

/// One of the four entries of the partition table.
#[derive(Debug, Clone, Copy)]
pub struct PartitionEntry {
    pub boot_indicator_flag: u8,
    pub starting_chs: CHS,
    pub partition_type: u8,
    pub ending_chs: CHS,
    pub relative_sector: u32,
    pub total_sectors: u32,
}

/// The master boot record (MBR).
pub struct MasterBootRecord {
    pub mbr_bootstrap: [u8; 436],
    pub disk_id: [u8; 10],
    pub partition_table_entries: [PartitionEntry; 4],
    pub bootsector_signature: [u8; 2],
}

#[derive(Debug)]
pub enum Error {
    /// There was an I/O error while reading the MBR.
    Io(std::io::Error),
    /// Partition `.0` (0-indexed) contains an invalid or unknown boot indicator.
    UnknownBootIndicator(u8),
    /// The MBR magic signature was invalid.
    BadSignature,
}

/// A sector ends in the boot signature `55 AA` and is long enough to hold a boot record.
pub open spec fn has_boot_signature(s: Seq<u8>) -> bool {
    &&& s.len() >= BOOT_SECTOR_SIZE
    &&& s[s.len() - 2] == 0x55
    &&& s[s.len() - 1] == 0xAA
}

/// The sixteen bytes of entry `i` of the partition table in sector `s`.
pub open spec fn entry_bytes(s: Seq<u8>, i: int) -> Seq<u8> {
    s.subrange(446 + 16 * i, 462 + 16 * i)
}

/// A boot indicator marks a partition as inactive (`0x00`) or bootable (`0x80`).
pub open spec fn known_boot_indicator(flag: u8) -> bool {
    flag == 0x00 || flag == 0x80
}

/// The index of the first of the entries `from..4` of sector `s` whose
/// boot indicator is unknown.
pub open spec fn first_unknown_indicator(s: Seq<u8>, from: int) -> Option<u8>
    decreases 4 - from,
{
    if from < 0 || from >= 4 {
        None
    } else if !known_boot_indicator(entry_bytes(s, from)[0]) {
        Some(from as u8)
    } else {
        first_unknown_indicator(s, from + 1)
    }
}

/// A partition type byte names a FAT32 partition.
pub open spec fn is_fat32_type(partition_type: u8) -> bool {
    partition_type == 0x0B || partition_type == 0x0C
}

/// The starting sector of the first FAT32 partition among `entries[from..]`.
pub open spec fn first_fat32_offset(entries: Seq<PartitionEntry>, from: int) -> Option<u32>
    decreases entries.len() - from,
{
    if from < 0 || from >= entries.len() {
        None
    } else if is_fat32_type(entries[from].partition_type) {
        Some(entries[from].relative_sector)
    } else {
        first_fat32_offset(entries, from + 1)
    }
}

impl CHS {
    /// The three bytes that hold this address in a partition table.
    pub open spec fn encoding(self) -> Seq<u8> {
        seq![self.head] + le_bytes_u16(self.sector_starting_cylinder)
    }

    /// The address that three bytes of a partition table hold.
    pub open spec fn decoded(b: Seq<u8>) -> CHS {
        CHS { head: b[0], sector_starting_cylinder: le_u16_at(b, 1) }
    }
}

impl PartitionEntry {
    /// The sixteen bytes that hold this entry in a partition table.
    pub open spec fn encoding(self) -> Seq<u8> {
        let start = self.starting_chs.encoding();
        let end = self.ending_chs.encoding();
        let first = le_bytes_u32(self.relative_sector);
        let count = le_bytes_u32(self.total_sectors);
        seq![
            self.boot_indicator_flag,
            start[0],
            start[1],
            start[2],
            self.partition_type,
            end[0],
            end[1],
            end[2],
            first[0],
            first[1],
            first[2],
            first[3],
            count[0],
            count[1],
            count[2],
            count[3],
        ]
    }

    /// The entry that sixteen bytes of a partition table hold.
    pub open spec fn decoded(b: Seq<u8>) -> PartitionEntry {
        PartitionEntry {
            boot_indicator_flag: b[0],
            starting_chs: CHS::decoded(b.subrange(1, 4)),
            partition_type: b[4],
            ending_chs: CHS::decoded(b.subrange(5, 8)),
            relative_sector: le_u32_at(b, 8),
            total_sectors: le_u32_at(b, 12),
        }
    }

    /// Reads an entry from the sixteen bytes that hold it.
    pub fn from_bytes(b: &[u8]) -> (e: PartitionEntry)
        requires
            b@.len() == PARTITION_ENTRY_SIZE,
        ensures
            e == PartitionEntry::decoded(b@),
    {
        let e = PartitionEntry {
            boot_indicator_flag: b[0],
            starting_chs: CHS { head: b[1], sector_starting_cylinder: u16_at(b, 2) },
            partition_type: b[4],
            ending_chs: CHS { head: b[5], sector_starting_cylinder: u16_at(b, 6) },
            relative_sector: u32_at(b, 8),
            total_sectors: u32_at(b, 12),
        };
        proof {
            assert(b@.subrange(1, 4).subrange(1, 3) =~= b@.subrange(2, 4));
            assert(b@.subrange(5, 8).subrange(1, 3) =~= b@.subrange(6, 8));
        }
        e
    }

    /// Writes the entry as the sixteen bytes that hold it in a partition table.
    pub fn to_bytes(&self) -> (b: [u8; 16])
        ensures
            b@ == self.encoding(),
    {
        let s: u16 = self.starting_chs.sector_starting_cylinder;
        let e: u16 = self.ending_chs.sector_starting_cylinder;
        let r: u32 = self.relative_sector;
        let t: u32 = self.total_sectors;
        let b: [u8; 16] = [
            self.boot_indicator_flag,
            self.starting_chs.head,
            (s % 256) as u8,
            (s / 256) as u8,
            self.partition_type,
            self.ending_chs.head,
            (e % 256) as u8,
            (e / 256) as u8,
            (r % 256) as u8,
            (r / 256 % 256) as u8,
            (r / 65536 % 256) as u8,
            (r / 16777216) as u8,
            (t % 256) as u8,
            (t / 256 % 256) as u8,
            (t / 65536 % 256) as u8,
            (t / 16777216) as u8,
        ];
        assert(b@ =~= self.encoding());
        b
    }
}

impl MasterBootRecord {
    /// Every field of the record holds the bytes of sector `s` that belong to it.
    pub open spec fn holds(&self, s: Seq<u8>) -> bool {
        &&& self.mbr_bootstrap@ == s.subrange(0, 436)
        &&& self.disk_id@ == s.subrange(436, 446)
        &&& forall|i: int|
            0 <= i < 4 ==> #[trigger] self.partition_table_entries@[i] == PartitionEntry::decoded(
                entry_bytes(s, i),
            )
        &&& self.bootsector_signature@ == s.subrange(s.len() - 2, s.len() as int)
    }

    /// `r` is what decoding sector `s` gives: the record that holds `s`, or the
    /// first fault of `s`.
    pub open spec fn decoding(s: Seq<u8>, r: Result<MasterBootRecord, Error>) -> bool {
        match r {
            Ok(mbr) => has_boot_signature(s) && first_unknown_indicator(s, 0) is None && mbr.holds(
                s,
            ),
            Err(Error::BadSignature) => !has_boot_signature(s),
            Err(Error::UnknownBootIndicator(i)) => has_boot_signature(s) && first_unknown_indicator(
                s,
                0,
            ) == Some(i),
            Err(Error::Io(_)) => false,
        }
    }

    /// Decodes the master boot record from the bytes of the first sector.
    ///
    /// # Errors
    ///
    /// Returns `BadSignature` if the sector is shorter than 512 bytes or does
    /// not end in `55 AA`. Returns `UnknownBootIndicator(n)` for the first
    /// partition `n` whose boot indicator is neither `0x00` nor `0x80`.
    pub fn decode(sector: &[u8]) -> (r: Result<MasterBootRecord, Error>)
        ensures
            Self::decoding(sector@, r),
    {
        let n = sector.len();
        if n < BOOT_SECTOR_SIZE || sector[n - 2] != 0x55 || sector[n - 1] != 0xAA {
            return Err(Error::BadSignature);
        }
        let blank = PartitionEntry {
            boot_indicator_flag: 0,
            starting_chs: CHS { head: 0, sector_starting_cylinder: 0 },
            partition_type: 0,
            ending_chs: CHS { head: 0, sector_starting_cylinder: 0 },
            relative_sector: 0,
            total_sectors: 0,
        };
        let mut partition_table_entries: [PartitionEntry; 4] = [blank; 4];
        let mut i: usize = 0;
        while i < 4
            invariant
                i <= 4,
                n == sector@.len(),
                has_boot_signature(sector@),
                first_unknown_indicator(sector@, 0) == first_unknown_indicator(sector@, i as int),
                forall|j: int|
                    0 <= j < i ==> #[trigger] partition_table_entries@[j]
                        == PartitionEntry::decoded(entry_bytes(sector@, j)),
            decreases 4 - i,
        {
            let at = PARTITION_TABLE_OFFSET + PARTITION_ENTRY_SIZE * i;
            let raw = slice_subrange(sector, at, at + PARTITION_ENTRY_SIZE);
            assert(raw@ == entry_bytes(sector@, i as int));
            if raw[0] != 0x00 && raw[0] != 0x80 {
                assert(!known_boot_indicator(entry_bytes(sector@, i as int)[0]));
                return Err(Error::UnknownBootIndicator(i as u8));
            }
            partition_table_entries[i] = PartitionEntry::from_bytes(raw);
            i += 1;
        }
        Ok(
            MasterBootRecord {
                mbr_bootstrap: field::<436>(sector, 0),
                disk_id: field::<10>(sector, 436),
                partition_table_entries,
                bootsector_signature: field::<2>(sector, n - 2),
            },
        )
    }

    /// Reads and returns the master boot record (MBR) from `device`.
    ///
    /// # Errors
    ///
    /// Returns `Io(err)` if the device reports the error `err`. Otherwise the
    /// result is that of decoding the bytes that the device handed back for
    /// sector 0.
    pub fn from<T: BlockDevice>(device: &mut T) -> (r: Result<MasterBootRecord, Error>)
        requires
            old(device).sector_bytes() <= usize::MAX,
        ensures
            final(device).sector_bytes() == old(device).sector_bytes(),
            !(r is Err && r->Err_0 is Io) ==> exists|s: Seq<u8>|
                s.len() == old(device).sector_bytes() && Self::decoding(s, r),
    {
        let size: usize = device.sector_size() as usize;
        let mut mbr_sector: Vec<u8> = vec![0u8; size];
        match device.read_sector(0, mbr_sector.as_mut_slice()) {
            Err(err) => Err(Error::Io(err)),
            Ok(_) => {
                let r = Self::decode(mbr_sector.as_slice());
                assert(Self::decoding(mbr_sector@, r));
                r
            },
        }
    }

    /// The starting sector of the first partition whose type is FAT32
    /// (`0x0B` or `0x0C`), if there is one.
    pub fn get_fat_partition_offset(&self) -> (r: Option<u32>)
        ensures
            r == first_fat32_offset(self.partition_table_entries@, 0),
    {
        let mut i: usize = 0;
        while i < 4
            invariant
                i <= 4,
                first_fat32_offset(self.partition_table_entries@, 0) == first_fat32_offset(
                    self.partition_table_entries@,
                    i as int,
                ),
            decreases 4 - i,
        {
            let partition = &self.partition_table_entries[i];
            if partition.partition_type == 0x0b || partition.partition_type == 0x0c {
                return Some(partition.relative_sector);
            }
            i += 1;
        }
        None
    }
}

/// Decoding a partition table entry and encoding it again gives back the
/// sixteen bytes: no field is lost.
pub proof fn lemma_entry_bytes_round_trip(b: Seq<u8>)
    requires
        b.len() == 16,
    ensures
        PartitionEntry::decoded(b).encoding() == b,
{
    lemma_le_bytes_u16_round_trip(b.subrange(2, 4));
    lemma_le_bytes_u16_round_trip(b.subrange(6, 8));
    lemma_le_bytes_u32_round_trip(b.subrange(8, 12));
    lemma_le_bytes_u32_round_trip(b.subrange(12, 16));
    assert(b.subrange(1, 4).subrange(1, 3) =~= b.subrange(2, 4));
    assert(b.subrange(5, 8).subrange(1, 3) =~= b.subrange(6, 8));
    assert(PartitionEntry::decoded(b).encoding() =~= b);
}

/// Encoding a partition table entry and decoding it again gives back the entry.
pub proof fn lemma_entry_round_trip(e: PartitionEntry)
    ensures
        e.encoding().len() == 16,
        PartitionEntry::decoded(e.encoding()) == e,
{
    let b = e.encoding();
    let d = PartitionEntry::decoded(b);
    lemma_le_u16_round_trip(e.starting_chs.sector_starting_cylinder);
    lemma_le_u16_round_trip(e.ending_chs.sector_starting_cylinder);
    lemma_le_u32_round_trip(e.relative_sector);
    lemma_le_u32_round_trip(e.total_sectors);
    assert(b.subrange(1, 4).subrange(1, 3) =~= le_bytes_u16(
        e.starting_chs.sector_starting_cylinder,
    ));
    assert(b.subrange(5, 8).subrange(1, 3) =~= le_bytes_u16(e.ending_chs.sector_starting_cylinder));
    assert(b.subrange(8, 12) =~= le_bytes_u32(e.relative_sector));
    assert(b.subrange(12, 16) =~= le_bytes_u32(e.total_sectors));
    assert(d.starting_chs == e.starting_chs);
    assert(d.ending_chs == e.ending_chs);
    assert(d.relative_sector == e.relative_sector);
    assert(d.total_sectors == e.total_sectors);
}

/// Every sector that decodes gives a record whose partition entries encode
/// to the bytes of the partition table they were read from, and the FAT32
/// offset of the record is that of the first entry of the table whose type
/// byte is `0x0B` or `0x0C`.
pub proof fn lemma_partition_table_round_trip(s: Seq<u8>, mbr: MasterBootRecord)
    requires
        MasterBootRecord::decoding(s, Ok(mbr)),
    ensures
        forall|i: int|
            0 <= i < 4 ==> (#[trigger] mbr.partition_table_entries@[i]).encoding() == entry_bytes(
                s,
                i,
            ),
        first_fat32_offset(mbr.partition_table_entries@, 0) == first_fat32_in_table(s, 0),
{
    assert forall|i: int| 0 <= i < 4 implies (#[trigger] mbr.partition_table_entries@[i]).encoding()
        == entry_bytes(s, i) by {
        lemma_entry_bytes_round_trip(entry_bytes(s, i));
    }
    assert(mbr.partition_table_entries@.len() == 4);
    reveal_with_fuel(first_fat32_offset, 5);
    reveal_with_fuel(first_fat32_in_table, 5);
}

/// The starting sector that the first of the entries `from..4` of sector `s`
/// with a FAT32 type byte holds.
pub open spec fn first_fat32_in_table(s: Seq<u8>, from: int) -> Option<u32>
    decreases 4 - from,
{
    if from < 0 || from >= 4 {
        None
    } else if is_fat32_type(entry_bytes(s, from)[4]) {
        Some(le_u32_at(entry_bytes(s, from), 8))
    } else {
        first_fat32_in_table(s, from + 1)
    }
}

} // verus!
