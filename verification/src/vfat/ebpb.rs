//! The extended BIOS parameter block: the boot sector of a FAT32 partition.

use crate::bytes::{field, le_u16_at, le_u32_at, u16_at, u32_at};
use crate::mbr::has_boot_signature;
use crate::traits::BlockDevice;
use crate::vfat::error::Error;
use vstd::prelude::*;

verus! {

pub struct BiosParameterBlock {
    pub assembly_block: [u8; 3],
    pub oem_id: [u8; 8],
    pub bytes_per_sector: u16,
    pub sectors_per_cluster: u8,
    pub reserved_sectors: u16,
    pub num_fats: u8,
    pub max_dir_entries: u16,
    pub total_logical_sectors_small: u16,
    pub fat_id: u8,
    pub _sectors_per_fat16: u16,
    pub sectors_per_track: u16,
    pub num_heads: u16,
    pub num_hidden_sectors: u32,
    pub total_logical_sectors_large: u32,
    pub sectors_per_fat: u32,
    pub flags: u16,
    pub fat_version: [u8; 2],
    pub root_cluster_num: u32,
    pub fs_info_sector_num: u16,
    pub backup_boot_sector_num: u16,
    pub _r: [u8; 12],
    pub drive_num: u8,
    pub nt_flags: u8,
    pub signature: u8,
    pub volume_id: u32,
    pub volume_label_string: [u8; 11],
    pub system_id_string: [u8; 8],
    pub boot_code: [u8; 420],
    pub bootable_partition_signature: [u8; 2],
}

impl BiosParameterBlock {
    /// Every field of the block holds the bytes of sector `s` that belong to
    /// it. The two fields that FAT32 does not use are zero.
    pub open spec fn holds(&self, s: Seq<u8>) -> bool {
        &&& self.assembly_block@ == s.subrange(0, 3)
        &&& self.oem_id@ == s.subrange(3, 11)
        &&& self.bytes_per_sector == le_u16_at(s, 11)
        &&& self.sectors_per_cluster == s[13]
        &&& self.reserved_sectors == le_u16_at(s, 14)
        &&& self.num_fats == s[16]
        &&& self.max_dir_entries == le_u16_at(s, 17)
        &&& self.total_logical_sectors_small == le_u16_at(s, 19)
        &&& self.fat_id == s[21]
        &&& self._sectors_per_fat16 == 0
        &&& self.sectors_per_track == le_u16_at(s, 24)
        &&& self.num_heads == le_u16_at(s, 26)
        &&& self.num_hidden_sectors == le_u32_at(s, 28)
        &&& self.total_logical_sectors_large == le_u32_at(s, 32)
        &&& self.sectors_per_fat == le_u32_at(s, 36)
        &&& self.flags == le_u16_at(s, 40)
        &&& self.fat_version@ == s.subrange(42, 44)
        &&& self.root_cluster_num == le_u32_at(s, 44)
        &&& self.fs_info_sector_num == le_u16_at(s, 48)
        &&& self.backup_boot_sector_num == le_u16_at(s, 50)
        &&& self._r@ == Seq::new(12, |i: int| 0u8)
        &&& self.drive_num == s[64]
        &&& self.nt_flags == s[65]
        &&& self.signature == s[66]
        &&& self.volume_id == le_u32_at(s, 67)
        &&& self.volume_label_string@ == s.subrange(71, 82)
        &&& self.system_id_string@ == s.subrange(82, 90)
        &&& self.boot_code@ == s.subrange(90, 510)
        &&& self.bootable_partition_signature@ == s.subrange(510, 512)
    }

    /// `r` is what decoding sector `s` gives: the block that holds `s`, or
    /// `BadSignature`.
    pub open spec fn decoding(s: Seq<u8>, r: Result<BiosParameterBlock, Error>) -> bool {
        match r {
            Ok(bpb) => has_boot_signature(s) && bpb.holds(s),
            Err(Error::BadSignature) => !has_boot_signature(s),
            Err(_) => false,
        }
    }

    /// Decodes the parameter block from the bytes of a partition's first
    /// sector. Nothing but the signature is checked: a geometry that makes no
    /// sense is handed on as it stands.
    ///
    /// # Errors
    ///
    /// Returns `BadSignature` if the sector is shorter than 512 bytes or does
    /// not end in `55 AA`.
    pub fn decode(sector: &[u8]) -> (r: Result<BiosParameterBlock, Error>)
        ensures
            Self::decoding(sector@, r),
    {
        let n = sector.len();
        if n < 512 || sector[n - 2] != 0x55 || sector[n - 1] != 0xAA {
            return Err(Error::BadSignature);
        }
        let _r: [u8; 12] = [0u8; 12];
        assert(_r@ =~= Seq::new(12, |i: int| 0u8));
        Ok(
            BiosParameterBlock {
                assembly_block: field::<3>(sector, 0),
                oem_id: field::<8>(sector, 3),
                bytes_per_sector: u16_at(sector, 11),
                sectors_per_cluster: sector[13],
                reserved_sectors: u16_at(sector, 14),
                num_fats: sector[16],
                max_dir_entries: u16_at(sector, 17),
                total_logical_sectors_small: u16_at(sector, 19),
                fat_id: sector[21],
                _sectors_per_fat16: 0u16,
                sectors_per_track: u16_at(sector, 24),
                num_heads: u16_at(sector, 26),
                num_hidden_sectors: u32_at(sector, 28),
                total_logical_sectors_large: u32_at(sector, 32),
                sectors_per_fat: u32_at(sector, 36),
                flags: u16_at(sector, 40),
                fat_version: field::<2>(sector, 42),
                root_cluster_num: u32_at(sector, 44),
                fs_info_sector_num: u16_at(sector, 48),
                backup_boot_sector_num: u16_at(sector, 50),
                _r,
                drive_num: sector[64],
                nt_flags: sector[65],
                signature: sector[66],
                volume_id: u32_at(sector, 67),
                volume_label_string: field::<11>(sector, 71),
                system_id_string: field::<8>(sector, 82),
                boot_code: field::<420>(sector, 90),
                bootable_partition_signature: field::<2>(sector, 510),
            },
        )
    }

    /// Reads the FAT32 extended BIOS parameter block from sector `sector` of
    /// device `device`.
    ///
    /// # Errors
    ///
    /// Returns `Io(err)` if the device reports the error `err`. Otherwise the
    /// result is that of decoding the bytes that the device handed back:
    /// `BadSignature` if they do not end in the boot signature.
    pub fn from<T: BlockDevice>(device: &mut T, sector: u64) -> (r: Result<
        BiosParameterBlock,
        Error,
    >)
        requires
            old(device).sector_bytes() <= usize::MAX,
        ensures
            final(device).sector_bytes() == old(device).sector_bytes(),
            !(r is Err && r->Err_0 is Io) ==> exists|s: Seq<u8>|
                s.len() == old(device).sector_bytes() && Self::decoding(s, r),
    {
        let size: usize = device.sector_size() as usize;
        let mut sector_bytes: Vec<u8> = vec![0u8; size];
        match device.read_sector(sector, sector_bytes.as_mut_slice()) {
            Err(err) => Err(Error::Io(err)),
            Ok(_) => {
                let r = Self::decode(sector_bytes.as_slice());
                assert(Self::decoding(sector_bytes@, r));
                r
            },
        }
    }
}

/// A sector whose boot signature is missing or damaged never decodes: the
/// only result that `decoding` admits for it is `BadSignature`.
pub proof fn lemma_damaged_signature_is_rejected(s: Seq<u8>, r: Result<BiosParameterBlock, Error>)
    requires
        s.len() < 512 || s[s.len() - 2] != 0x55 || s[s.len() - 1] != 0xAA,
        BiosParameterBlock::decoding(s, r),
    ensures
        r == Err::<BiosParameterBlock, Error>(Error::BadSignature),
{
}

} // verus!
