use fat32::traits::BlockDevice;
use fat32::{Error, MasterBootRecord, PartitionEntry, CHS};

struct Image {
    bytes: Vec<u8>,
}

struct Unplugged;

impl BlockDevice for Unplugged {
    fn sector_bytes(&self) -> u64 {
        512
    }

    fn sector_size(&self) -> u64 {
        512
    }

    fn read_sector(&mut self, _n: u64, _buf: &mut [u8]) -> Result<usize, std::io::Error> {
        Err(std::io::Error::new(std::io::ErrorKind::NotConnected, "unplugged"))
    }
}

impl BlockDevice for Image {
    fn sector_bytes(&self) -> u64 {
        512
    }

    fn sector_size(&self) -> u64 {
        512
    }

    fn read_sector(&mut self, n: u64, buf: &mut [u8]) -> Result<usize, std::io::Error> {
        let start = (n as usize).saturating_mul(512).min(self.bytes.len());
        let count = buf.len().min(512).min(self.bytes.len() - start);
        buf[..count].copy_from_slice(&self.bytes[start..start + count]);
        Ok(count)
    }
}

fn mbr_image() -> [u8; 512] {
    let mut data = [0u8; 512];
    data[440] = 0x78;
    data[446] = 0x80;
    data[446 + 4] = 0x0c;
    data[446 + 8] = 0x01;
    data[446 + 12] = 0x00;
    data[446 + 13] = 0x10;
    data[510] = 0x55;
    data[511] = 0xaa;
    data
}

#[test]
fn test_mbr_data() {
    let mut data = mbr_image();
    let mut device = Image { bytes: data[..].to_vec() };
    let _mbr_record = MasterBootRecord::from(&mut device).expect("valid MBR");
    data[0] = 1;
}

#[test]
fn mbr_fields_are_read_from_their_places() {
    let mut data = mbr_image();
    for (i, b) in data[..436].iter_mut().enumerate() {
        *b = i as u8;
    }
    data[446 + 1] = 0x11;
    data[446 + 2..446 + 4].copy_from_slice(&0x2233u16.to_le_bytes());
    data[446 + 5] = 0x44;
    data[446 + 6..446 + 8].copy_from_slice(&0x5566u16.to_le_bytes());
    data[446 + 8..446 + 12].copy_from_slice(&0x0102_0304u32.to_le_bytes());
    data[446 + 12..446 + 16].copy_from_slice(&0x0a0b_0c0du32.to_le_bytes());
    let mbr = MasterBootRecord::decode(&data).expect("valid MBR");
    assert_eq!(&mbr.mbr_bootstrap[..], &data[..436]);
    assert_eq!(&mbr.disk_id[..], &data[436..446]);
    assert_eq!(mbr.bootsector_signature, [0x55, 0xaa]);
    let e = &mbr.partition_table_entries[0];
    assert_eq!(e.boot_indicator_flag, 0x80);
    assert_eq!(e.starting_chs.head, 0x11);
    assert_eq!(e.starting_chs.sector_starting_cylinder, 0x2233);
    assert_eq!(e.partition_type, 0x0c);
    assert_eq!(e.ending_chs.head, 0x44);
    assert_eq!(e.ending_chs.sector_starting_cylinder, 0x5566);
    assert_eq!(e.relative_sector, 0x0102_0304);
    assert_eq!(e.total_sectors, 0x0a0b_0c0d);
    assert_eq!(mbr.partition_table_entries[3].relative_sector, 0);
    assert_eq!(mbr.get_fat_partition_offset(), Some(0x0102_0304));
}

#[test]
fn mbr_partition_entries_come_back_as_the_bytes_they_were_read_from() {
    let mut data = mbr_image();
    for (i, b) in data[446..510].iter_mut().enumerate() {
        *b = (i as u8).wrapping_mul(37).wrapping_add(5);
    }
    for i in 0..4 {
        data[446 + 16 * i] = if i % 2 == 0 { 0x80 } else { 0x00 };
    }
    let mbr = MasterBootRecord::decode(&data).expect("valid MBR");
    for i in 0..4 {
        let raw = &data[446 + 16 * i..462 + 16 * i];
        assert_eq!(&mbr.partition_table_entries[i].to_bytes()[..], raw);
        let again = PartitionEntry::from_bytes(raw);
        assert_eq!(again.to_bytes(), mbr.partition_table_entries[i].to_bytes());
    }
    let entry = PartitionEntry {
        boot_indicator_flag: 0x80,
        starting_chs: CHS { head: 1, sector_starting_cylinder: 0xfffe },
        partition_type: 0x0b,
        ending_chs: CHS { head: 2, sector_starting_cylinder: 0x0100 },
        relative_sector: 0xffff_ffff,
        total_sectors: 0x0001_0000,
    };
    assert_eq!(
        entry.to_bytes(),
        [0x80, 1, 0xfe, 0xff, 0x0b, 2, 0x00, 0x01, 0xff, 0xff, 0xff, 0xff, 0x00, 0x00, 0x01, 0x00]
    );
    let back = PartitionEntry::from_bytes(&entry.to_bytes());
    assert_eq!(back.relative_sector, 0xffff_ffff);
    assert_eq!(back.starting_chs.sector_starting_cylinder, 0xfffe);
}

#[test]
fn mbr_without_the_signature_is_a_bad_signature() {
    let mut data = mbr_image();
    data[510] = 0;
    assert!(matches!(MasterBootRecord::decode(&data), Err(Error::BadSignature)));
    let mut data = mbr_image();
    data[511] = 0x55;
    assert!(matches!(MasterBootRecord::decode(&data), Err(Error::BadSignature)));
    let data = mbr_image();
    assert!(matches!(MasterBootRecord::decode(&data[..511]), Err(Error::BadSignature)));
    assert!(matches!(MasterBootRecord::decode(&[]), Err(Error::BadSignature)));
    let mut device = Image { bytes: vec![0u8; 512] };
    assert!(matches!(MasterBootRecord::from(&mut device), Err(Error::BadSignature)));
}

#[test]
fn mbr_names_the_first_partition_with_an_unknown_boot_indicator() {
    let mut data = mbr_image();
    data[446 + 32] = 0x01;
    data[446 + 48] = 0x7f;
    assert!(matches!(MasterBootRecord::decode(&data), Err(Error::UnknownBootIndicator(2))));
    data[446] = 0x81;
    assert!(matches!(MasterBootRecord::decode(&data), Err(Error::UnknownBootIndicator(0))));
    data[510] = 0;
    assert!(matches!(MasterBootRecord::decode(&data), Err(Error::BadSignature)));
}

#[test]
fn mbr_offset_is_that_of_the_first_fat32_partition() {
    let mut data = mbr_image();
    data[446 + 4] = 0x83;
    data[446 + 8..446 + 12].copy_from_slice(&11u32.to_le_bytes());
    data[446 + 16 + 4] = 0x0b;
    data[446 + 16 + 8..446 + 16 + 12].copy_from_slice(&22u32.to_le_bytes());
    data[446 + 32 + 4] = 0x0c;
    data[446 + 32 + 8..446 + 32 + 12].copy_from_slice(&33u32.to_le_bytes());
    let mbr = MasterBootRecord::decode(&data).expect("valid MBR");
    assert_eq!(mbr.get_fat_partition_offset(), Some(22));
    data[446 + 16 + 4] = 0x07;
    let mbr = MasterBootRecord::decode(&data).expect("valid MBR");
    assert_eq!(mbr.get_fat_partition_offset(), Some(33));
    data[446 + 32 + 4] = 0x0e;
    let mbr = MasterBootRecord::decode(&data).expect("valid MBR");
    assert_eq!(mbr.get_fat_partition_offset(), None);
}

#[test]
fn mbr_of_a_longer_sector_has_its_signature_at_the_end() {
    let mut data = vec![0u8; 1024];
    data[510] = 0x55;
    data[511] = 0xaa;
    assert!(matches!(MasterBootRecord::decode(&data), Err(Error::BadSignature)));
    data[1022] = 0x55;
    data[1023] = 0xaa;
    let mbr = MasterBootRecord::decode(&data).expect("valid MBR");
    assert_eq!(mbr.bootsector_signature, [0x55, 0xaa]);
}

#[test]
fn mbr_on_a_failing_device_is_the_error_of_the_device() {
    match MasterBootRecord::from(&mut Unplugged) {
        Err(Error::Io(e)) => assert_eq!(e.kind(), std::io::ErrorKind::NotConnected),
        _ => panic!("the device failed"),
    }
}
