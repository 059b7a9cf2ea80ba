use fat32::traits::BlockDevice;
use fat32::vfat::cache::take_sector;
use fat32::vfat::dir::DirIter;
use fat32::vfat::{
    CachedDevice, Cluster, Dir, Entry, Error, File, Metadata, Partition, SeekFrom, VFat,
};
use std::cell::Cell;
use std::rc::Rc;

/// A disk image in memory that counts the reads it serves.
struct Image {
    bytes: Vec<u8>,
    sector: u64,
    reads: Rc<Cell<usize>>,
    broken: Option<u64>,
}

impl Image {
    fn new(bytes: Vec<u8>) -> Image {
        Image { bytes, sector: 512, reads: Rc::new(Cell::new(0)), broken: None }
    }
}

impl BlockDevice for Image {
    fn sector_bytes(&self) -> u64 {
        self.sector
    }

    fn sector_size(&self) -> u64 {
        self.sector
    }

    fn read_sector(&mut self, n: u64, buf: &mut [u8]) -> Result<usize, std::io::Error> {
        self.reads.set(self.reads.get() + 1);
        if self.broken == Some(n) {
            return Err(std::io::Error::new(std::io::ErrorKind::Other, "broken sector"));
        }
        let size = self.sector as usize;
        let start = (n as usize).saturating_mul(size).min(self.bytes.len());
        let count = buf.len().min(size).min(self.bytes.len() - start);
        buf[..count].copy_from_slice(&self.bytes[start..start + count]);
        Ok(count)
    }
}

const PARTITION_START: usize = 1;
const RESERVED: usize = 2;
const FAT_SECTORS: usize = 1;
const EOC: u32 = 0x0FFF_FFFF;

/// Builds a disk with one FAT32 partition. A volume sector has `bps` bytes
/// and a cluster `spc` sectors; `clusters` data clusters follow the table.
struct Builder {
    bps: usize,
    spc: usize,
    bytes: Vec<u8>,
}

impl Builder {
    fn new(bps: usize, spc: usize, clusters: usize) -> Builder {
        let total = 512 * PARTITION_START + bps * (RESERVED + FAT_SECTORS + spc * clusters);
        let mut bytes = vec![0u8; total];
        bytes[446] = 0x80;
        bytes[446 + 4] = 0x0c;
        bytes[446 + 8..446 + 12].copy_from_slice(&(PARTITION_START as u32).to_le_bytes());
        bytes[446 + 12..446 + 16].copy_from_slice(&1000u32.to_le_bytes());
        bytes[510] = 0x55;
        bytes[511] = 0xaa;
        let b = 512 * PARTITION_START;
        bytes[b + 11..b + 13].copy_from_slice(&(bps as u16).to_le_bytes());
        bytes[b + 13] = spc as u8;
        bytes[b + 14..b + 16].copy_from_slice(&(RESERVED as u16).to_le_bytes());
        bytes[b + 16] = 1;
        bytes[b + 36..b + 40].copy_from_slice(&(FAT_SECTORS as u32).to_le_bytes());
        bytes[b + 44..b + 48].copy_from_slice(&2u32.to_le_bytes());
        bytes[b + 510] = 0x55;
        bytes[b + 511] = 0xaa;
        let mut builder = Builder { bps, spc, bytes };
        builder.link(0, 0x0FFF_FFF8);
        builder.link(1, EOC);
        builder
    }

    fn fat_offset(&self) -> usize {
        512 * PARTITION_START + self.bps * RESERVED
    }

    fn cluster_offset(&self, cluster: u32) -> usize {
        self.fat_offset() + self.bps * FAT_SECTORS + (cluster as usize - 2) * self.spc * self.bps
    }

    fn cluster_size(&self) -> usize {
        self.bps * self.spc
    }

    fn link(&mut self, cluster: u32, value: u32) {
        let at = self.fat_offset() + 4 * cluster as usize;
        self.bytes[at..at + 4].copy_from_slice(&value.to_le_bytes());
    }

    fn fill(&mut self, cluster: u32, data: &[u8]) {
        let at = self.cluster_offset(cluster);
        self.bytes[at..at + data.len()].copy_from_slice(data);
    }

    fn pattern(&mut self, cluster: u32, seed: u8) -> Vec<u8> {
        let size = self.cluster_size();
        let data: Vec<u8> = (0..size).map(|i| seed.wrapping_add((i % 251) as u8)).collect();
        self.fill(cluster, &data);
        data
    }

    fn mount(self) -> VFat<Image> {
        VFat::from(Image::new(self.bytes)).expect("a volume")
    }
}

fn regular(name: &[u8; 8], ext: &[u8; 3], attributes: u8, cluster: u32, size: u32) -> [u8; 32] {
    let mut r = [0u8; 32];
    r[..8].copy_from_slice(name);
    r[8..11].copy_from_slice(ext);
    r[11] = attributes;
    r[20..22].copy_from_slice(&((cluster >> 16) as u16).to_le_bytes());
    r[26..28].copy_from_slice(&(cluster as u16).to_le_bytes());
    r[28..32].copy_from_slice(&size.to_le_bytes());
    r
}

fn long_name(seq_no: u8, units: &[u16]) -> [u8; 32] {
    let mut padded = [0xFFFFu16; 13];
    for (i, u) in units.iter().enumerate() {
        padded[i] = *u;
    }
    if units.len() < 13 {
        padded[units.len()] = 0;
    }
    let mut r = [0u8; 32];
    r[0] = seq_no;
    r[11] = 0x0f;
    for k in 0..5 {
        r[1 + 2 * k..3 + 2 * k].copy_from_slice(&padded[k].to_le_bytes());
    }
    for k in 0..6 {
        r[14 + 2 * k..16 + 2 * k].copy_from_slice(&padded[5 + k].to_le_bytes());
    }
    for k in 0..2 {
        r[28 + 2 * k..30 + 2 * k].copy_from_slice(&padded[11 + k].to_le_bytes());
    }
    r
}

fn utf16(s: &str) -> Vec<u16> {
    s.encode_utf16().collect()
}

fn records(list: &[[u8; 32]]) -> Vec<u8> {
    let mut out = Vec::new();
    for r in list {
        out.extend_from_slice(r);
    }
    out
}

fn all_entries(bytes: Vec<u8>) -> Vec<Entry> {
    let mut iter = DirIter::over(bytes);
    let mut out = Vec::new();
    while let Some(e) = iter.next() {
        out.push(e);
    }
    out
}

fn names(entries: &[Entry]) -> Vec<String> {
    entries.iter().map(|e| e.name().to_string()).collect()
}

// ---- mounting ----------------------------------------------------------

#[test]
fn mount_reads_the_geometry_and_the_root() {
    let mut b = Builder::new(512, 1, 4);
    b.link(2, EOC);
    let mut vfat = b.mount();
    assert_eq!(vfat.root_cluster(), Cluster(2));
    let root = vfat.open("/").expect("the root");
    assert!(matches!(root, Entry::Dir(_)));
}

#[test]
fn mount_without_a_fat32_partition_is_not_found() {
    let mut b = Builder::new(512, 1, 1);
    b.bytes[446 + 4] = 0x83;
    assert!(matches!(VFat::from(Image::new(b.bytes)), Err(Error::NotFound)));
}

#[test]
fn mount_with_a_damaged_boot_record_reports_the_record() {
    let mut b = Builder::new(512, 1, 1);
    b.bytes[511] = 0;
    assert!(matches!(
        VFat::from(Image::new(b.bytes)),
        Err(Error::Mbr(fat32::Error::BadSignature))
    ));
    let mut b = Builder::new(512, 1, 1);
    b.bytes[446 + 16] = 0x01;
    assert!(matches!(
        VFat::from(Image::new(b.bytes)),
        Err(Error::Mbr(fat32::Error::UnknownBootIndicator(1)))
    ));
}

#[test]
fn mount_with_a_damaged_parameter_block_is_a_bad_signature() {
    let mut b = Builder::new(512, 1, 1);
    b.bytes[512 + 510] = 0x54;
    assert!(matches!(VFat::from(Image::new(b.bytes)), Err(Error::BadSignature)));
}

#[test]
fn mount_with_sectors_that_do_not_fit_the_device_is_invalid_data() {
    let mut b = Builder::new(512, 1, 1);
    b.bytes[512 + 11..512 + 13].copy_from_slice(&768u16.to_le_bytes());
    assert!(matches!(VFat::from(Image::new(b.bytes)), Err(Error::InvalidData)));
    let mut b = Builder::new(512, 1, 1);
    b.bytes[512 + 11..512 + 13].copy_from_slice(&256u16.to_le_bytes());
    assert!(matches!(VFat::from(Image::new(b.bytes)), Err(Error::InvalidData)));
    let mut b = Builder::new(512, 1, 1);
    b.bytes[512 + 11..512 + 13].copy_from_slice(&0u16.to_le_bytes());
    assert!(matches!(VFat::from(Image::new(b.bytes)), Err(Error::InvalidData)));
}

#[test]
fn mount_on_a_failing_device_is_an_io_error() {
    let b = Builder::new(512, 1, 1);
    let mut image = Image::new(b.bytes.clone());
    image.broken = Some(0);
    assert!(matches!(VFat::from(image), Err(Error::Mbr(fat32::Error::Io(_)))));
    let mut image = Image::new(b.bytes);
    image.broken = Some(1);
    assert!(matches!(VFat::from(image), Err(Error::Io(_))));
}

// ---- the sector cache --------------------------------------------------

#[test]
fn cache_maps_sectors_of_the_partition_to_runs_of_device_sectors() {
    let image = Image::new(vec![0u8; 512 * 64]);
    let cache = CachedDevice::new(image, Partition { start: 10, sector_size: 2048 });
    assert_eq!(cache.virtual_to_physical(0), (0, 1));
    assert_eq!(cache.virtual_to_physical(9), (9, 1));
    assert_eq!(cache.virtual_to_physical(10), (10, 4));
    assert_eq!(cache.virtual_to_physical(11), (14, 4));
    assert_eq!(cache.virtual_to_physical(13), (22, 4));
}

#[test]
fn cache_with_equal_sector_sizes_maps_every_sector_to_itself() {
    let image = Image::new(vec![0u8; 512 * 8]);
    let cache = CachedDevice::new(image, Partition { start: 3, sector_size: 512 });
    assert_eq!(cache.virtual_to_physical(2), (2, 1));
    assert_eq!(cache.virtual_to_physical(3), (3, 1));
    assert_eq!(cache.virtual_to_physical(7), (7, 1));
}

#[test]
fn cache_reads_a_sector_once() {
    let mut bytes = vec![0u8; 512 * 16];
    for (i, b) in bytes.iter_mut().enumerate() {
        *b = (i / 512) as u8;
    }
    let image = Image::new(bytes);
    let reads = image.reads.clone();
    let mut cache = CachedDevice::new(image, Partition { start: 4, sector_size: 1024 });
    let first = cache.get(5).expect("a sector").to_vec();
    assert_eq!(first.len(), 1024);
    assert!(first[..512].iter().all(|b| *b == 6));
    assert!(first[512..].iter().all(|b| *b == 7));
    assert_eq!(reads.get(), 2);
    let again = cache.get(5).expect("a sector").to_vec();
    assert_eq!(again, first);
    assert_eq!(reads.get(), 2);
}

#[test]
fn cache_pads_a_sector_before_the_partition_with_zeros() {
    let image = Image::new(vec![0xabu8; 512 * 16]);
    let mut cache = CachedDevice::new(image, Partition { start: 4, sector_size: 1024 });
    let sector = cache.get(1).expect("a sector");
    assert_eq!(sector.len(), 1024);
    assert!(sector[..512].iter().all(|b| *b == 0xab));
    assert!(sector[512..].iter().all(|b| *b == 0));
}

#[test]
fn cache_takes_a_short_read_for_an_error() {
    let image = Image::new(vec![1u8; 512 * 2 + 100]);
    let mut cache = CachedDevice::new(image, Partition { start: 0, sector_size: 512 });
    assert!(cache.get(1).is_ok());
    match cache.get(2) {
        Err(Error::Io(e)) => assert_eq!(e.kind(), std::io::ErrorKind::UnexpectedEof),
        _ => panic!("a short read must fail"),
    }
}

#[test]
fn cache_hands_on_the_error_of_the_device() {
    let mut image = Image::new(vec![1u8; 512 * 4]);
    image.broken = Some(3);
    let mut cache = CachedDevice::new(image, Partition { start: 0, sector_size: 512 });
    match cache.get(3) {
        Err(Error::Io(e)) => assert_eq!(e.kind(), std::io::ErrorKind::Other),
        _ => panic!("the device failed"),
    }
    assert!(cache.get(2).is_ok());
}

#[test]
fn cache_keeps_what_is_written_to_a_sector() {
    let image = Image::new(vec![9u8; 512 * 4]);
    let reads = image.reads.clone();
    let mut cache = CachedDevice::new(image, Partition { start: 0, sector_size: 512 });
    {
        let sector = cache.get_mut(2).expect("a sector");
        assert_eq!(sector.len(), 512);
        assert_eq!(sector[7], 9);
        sector[7] = 42;
    }
    assert_eq!(cache.get(2).expect("a sector")[7], 42);
    assert_eq!(cache.get(2).expect("a sector")[8], 9);
    assert_eq!(reads.get(), 1);
    assert!(cache.is_dirty(2));
    assert!(cache.get(1).is_ok());
    assert!(!cache.is_dirty(1));
    assert!(!cache.is_dirty(3));
    assert!(cache.get_mut(1).is_ok());
    assert!(cache.is_dirty(1));
}

#[test]
fn cache_copies_a_sector_into_the_front_of_a_buffer() {
    let mut bytes = vec![0u8; 512 * 4];
    for (i, b) in bytes.iter_mut().enumerate() {
        *b = (i % 256) as u8 ^ (i / 512) as u8;
    }
    let image = Image::new(bytes.clone());
    let mut cache = CachedDevice::new(image, Partition { start: 0, sector_size: 512 });
    let mut small = [0xeeu8; 16];
    assert_eq!(cache.read_sector(2, &mut small).expect("a read"), 16);
    assert_eq!(&small[..], &bytes[1024..1040]);
    let mut large = vec![0xeeu8; 600];
    assert_eq!(cache.read_sector(3, &mut large).expect("a read"), 512);
    assert_eq!(&large[..512], &bytes[1536..2048]);
    assert!(large[512..].iter().all(|b| *b == 0xee));
    assert!(matches!(cache.read_sector(4, &mut large), Err(Error::Io(_))));
}

// ---- cluster chains ----------------------------------------------------

#[test]
fn chain_is_read_in_the_order_of_the_table() {
    let mut b = Builder::new(512, 2, 6);
    b.link(2, 5);
    b.link(5, 3);
    b.link(3, EOC);
    let first = b.pattern(2, 1);
    let second = b.pattern(5, 2);
    let third = b.pattern(3, 3);
    b.pattern(4, 4);
    let mut vfat = b.mount();
    let mut buf = Vec::new();
    let n = vfat.read_chain(Cluster(2), &mut buf).expect("a chain");
    assert_eq!(n, 3 * 2 * 512);
    assert_eq!(buf.len(), n);
    assert_eq!(&buf[..1024], &first[..]);
    assert_eq!(&buf[1024..2048], &second[..]);
    assert_eq!(&buf[2048..], &third[..]);
}

#[test]
fn chain_of_one_cluster_is_one_cluster_long() {
    let mut b = Builder::new(512, 4, 3);
    b.link(3, 0x0FFF_FFF8);
    let data = b.pattern(3, 7);
    let mut vfat = b.mount();
    let mut buf = Vec::new();
    assert_eq!(vfat.read_chain(Cluster(3), &mut buf).expect("a chain"), 2048);
    assert_eq!(buf, data);
}

#[test]
fn chain_is_put_after_what_the_buffer_holds() {
    let mut b = Builder::new(512, 1, 3);
    b.link(2, EOC);
    let data = b.pattern(2, 7);
    let mut vfat = b.mount();
    let mut buf = vec![1u8, 2, 3];
    assert_eq!(vfat.read_chain(Cluster(2), &mut buf).expect("a chain"), 512);
    assert_eq!(&buf[..3], &[1, 2, 3]);
    assert_eq!(&buf[3..], &data[..]);
}

#[test]
fn chain_on_large_sectors_is_read_through_several_device_sectors() {
    let mut b = Builder::new(1024, 2, 4);
    b.link(2, 4);
    b.link(4, EOC);
    let first = b.pattern(2, 11);
    let second = b.pattern(4, 12);
    let mut vfat = b.mount();
    let mut buf = Vec::new();
    assert_eq!(vfat.read_chain(Cluster(2), &mut buf).expect("a chain"), 2 * 2 * 1024);
    assert_eq!(&buf[..2048], &first[..]);
    assert_eq!(&buf[2048..], &second[..]);
}

#[test]
fn chain_through_a_free_entry_is_invalid_data() {
    let mut b = Builder::new(512, 1, 4);
    b.link(2, 3);
    b.link(3, 0);
    b.link(4, EOC);
    let mut vfat = b.mount();
    let mut buf = vec![5u8; 4];
    assert!(matches!(vfat.read_chain(Cluster(2), &mut buf), Err(Error::InvalidData)));
    assert_eq!(buf, vec![5u8; 4]);
}

#[test]
fn chain_through_a_bad_entry_is_invalid_data() {
    let mut b = Builder::new(512, 1, 4);
    b.link(2, 3);
    b.link(3, 0x0FFF_FFF7);
    let mut vfat = b.mount();
    let mut buf = Vec::new();
    assert!(matches!(vfat.read_chain(Cluster(2), &mut buf), Err(Error::InvalidData)));
    assert!(buf.is_empty());
}

#[test]
fn chain_through_a_reserved_entry_is_invalid_data() {
    let mut b = Builder::new(512, 1, 4);
    b.link(2, 1);
    let mut vfat = b.mount();
    let mut buf = Vec::new();
    assert!(matches!(vfat.read_chain(Cluster(2), &mut buf), Err(Error::InvalidData)));
    b = Builder::new(512, 1, 4);
    b.link(2, 0x0FFF_FFF0);
    let mut vfat = b.mount();
    assert!(matches!(vfat.read_chain(Cluster(2), &mut buf), Err(Error::InvalidData)));
}

#[test]
fn chain_ignores_the_top_four_bits_of_an_entry() {
    let mut b = Builder::new(512, 1, 4);
    b.link(2, 0xF000_0003);
    b.link(3, 0xFFFF_FFFF);
    let first = b.pattern(2, 1);
    let second = b.pattern(3, 2);
    let mut vfat = b.mount();
    let mut buf = Vec::new();
    assert_eq!(vfat.read_chain(Cluster(2), &mut buf).expect("a chain"), 1024);
    assert_eq!(&buf[..512], &first[..]);
    assert_eq!(&buf[512..], &second[..]);
}

#[test]
fn chain_on_a_failing_device_is_an_io_error_and_leaves_the_buffer() {
    let mut b = Builder::new(512, 1, 4);
    b.link(2, 3);
    b.link(3, EOC);
    let mut image = Image::new(b.bytes);
    image.broken = Some(5);
    let mut vfat = VFat::from(image).expect("a volume");
    let mut buf = vec![8u8; 2];
    assert!(matches!(vfat.read_chain(Cluster(2), &mut buf), Err(Error::Io(_))));
    assert_eq!(buf, vec![8u8; 2]);
}

#[test]
fn visit_reads_one_cluster_and_names_the_next() {
    let mut b = Builder::new(512, 1, 4);
    b.link(2, 4);
    b.link(4, EOC);
    let first = b.pattern(2, 3);
    let mut vfat = b.mount();
    let mut buf = Vec::new();
    assert_eq!(vfat.visit(Cluster(2), &mut buf).expect("a cluster"), Some(Cluster(4)));
    assert_eq!(buf, first);
    assert_eq!(vfat.visit(Cluster(4), &mut buf).expect("a cluster"), None);
    assert_eq!(buf.len(), 1024);
    assert!(matches!(vfat.visit(Cluster(3), &mut buf), Err(Error::InvalidData)));
    assert_eq!(buf.len(), 1024);
}

#[test]
fn table_entries_are_found_in_the_second_sector_of_the_table() {
    let mut b = Builder::new(512, 1, 200);
    b.link(2, EOC);
    let mut vfat = b.mount();
    assert_eq!(vfat.fat_entry(Cluster(2)).expect("an entry").0, EOC);
    assert_eq!(vfat.fat_entry(Cluster(0)).expect("an entry").0, 0x0FFF_FFF8);
    // Entry 130 lies in the sector after the table: the first data cluster.
    let mut b = Builder::new(512, 1, 4);
    let mut data = vec![0u8; 512];
    data[8..12].copy_from_slice(&0x0123_4567u32.to_le_bytes());
    b.fill(2, &data);
    let mut vfat = b.mount();
    assert_eq!(vfat.fat_entry(Cluster(130)).expect("an entry").0, 0x0123_4567);
}

// ---- directories -------------------------------------------------------

#[test]
fn long_name_is_put_together_from_its_records() {
    let name = utf16("LONGFILENAME.TXT");
    let bytes = records(&[
        long_name(0x42, &name[13..]),
        long_name(0x01, &name[..13]),
        regular(b"LONGFI~1", b"TXT", 0x20, 9, 77),
        [0u8; 32],
    ]);
    let entries = all_entries(bytes);
    assert_eq!(names(&entries), vec!["LONGFILENAME.TXT".to_string()]);
    let file = entries[0].as_file().expect("a file");
    assert_eq!(file.metadata.size, 77);
    assert_eq!(file.start_cluster, Cluster(9));
}

#[test]
fn long_name_of_exactly_thirteen_units_has_no_terminator() {
    let name = utf16("ABCDEFGHIJKLM");
    let bytes = records(&[long_name(0x41, &name), regular(b"ABCDEF~1", b"   ", 0x20, 3, 0)]);
    assert_eq!(names(&all_entries(bytes)), vec!["ABCDEFGHIJKLM".to_string()]);
}

#[test]
fn long_name_ends_at_the_first_terminator() {
    let mut units = utf16("ab");
    units.push(0xFFFF);
    units.extend(utf16("cd"));
    let bytes = records(&[long_name(0x41, &units), regular(b"AB      ", b"   ", 0x20, 3, 0)]);
    assert_eq!(names(&all_entries(bytes)), vec!["ab".to_string()]);
}

#[test]
fn long_name_with_a_lone_surrogate_gets_a_placeholder() {
    let units = vec![0x0041, 0xD800, 0x0042, 0xD83D, 0xDE00];
    let bytes = records(&[long_name(0x41, &units), regular(b"A       ", b"   ", 0x20, 3, 0)]);
    assert_eq!(names(&all_entries(bytes)), vec!["A_B\u{1F600}".to_string()]);
}

#[test]
fn short_name_has_a_dot_only_before_an_extension() {
    let bytes = records(&[
        regular(b"README  ", b"TXT", 0x20, 3, 10),
        regular(b"README  ", b"   ", 0x20, 4, 10),
        regular(b"A B     ", b"C  ", 0x20, 5, 10),
        regular(b"FULLNAME", b"EXT", 0x20, 6, 10),
        regular(b"ZERO\0\0\0\0", b"\0\0\0", 0x20, 7, 10),
    ]);
    assert_eq!(
        names(&all_entries(bytes)),
        vec!["README.TXT", "README", "A B.C", "FULLNAME.EXT", "ZERO"]
    );
}

#[test]
fn short_name_with_bytes_that_are_not_utf8_gets_replacement_characters() {
    let bytes = records(&[
        regular(b"CAF\xc3\xa9   ", b"   ", 0x20, 3, 0),
        regular(b"BAD\xff    ", b"\xfe  ", 0x20, 4, 0),
    ]);
    assert_eq!(names(&all_entries(bytes)), vec!["CAF\u{e9}", "BAD\u{fffd}.\u{fffd}"]);
}

#[test]
fn deleted_record_never_shows_as_an_entry() {
    let mut gone = regular(b"GONE    ", b"TXT", 0x20, 3, 1);
    gone[0] = 0xe5;
    let bytes = records(&[
        regular(b"FIRST   ", b"   ", 0x20, 3, 1),
        gone,
        regular(b"SECOND  ", b"   ", 0x20, 4, 1),
    ]);
    assert_eq!(names(&all_entries(bytes)), vec!["FIRST", "SECOND"]);
}

#[test]
fn deleted_record_takes_the_long_name_before_it_with_it() {
    let mut gone = regular(b"GONE    ", b"TXT", 0x20, 3, 1);
    gone[0] = 0xe5;
    let bytes = records(&[
        long_name(0x41, &utf16("a long name")),
        gone,
        regular(b"KEPT    ", b"   ", 0x20, 4, 1),
    ]);
    assert_eq!(names(&all_entries(bytes)), vec!["KEPT"]);
}

#[test]
fn deleted_long_name_record_is_passed_over() {
    let bytes = records(&[
        long_name(0xe5, &utf16("stale")),
        long_name(0x41, &utf16("fresh name")),
        regular(b"FRESHN~1", b"   ", 0x20, 4, 1),
        long_name(0xe5, &utf16("stale")),
        regular(b"PLAIN   ", b"   ", 0x20, 5, 1),
    ]);
    assert_eq!(names(&all_entries(bytes)), vec!["fresh name", "PLAIN"]);
}

#[test]
fn end_mark_ends_the_directory() {
    let bytes = records(&[
        regular(b"FIRST   ", b"   ", 0x20, 3, 1),
        [0u8; 32],
        regular(b"AFTER   ", b"   ", 0x20, 4, 1),
    ]);
    let mut iter = DirIter::over(bytes);
    assert_eq!(iter.next().expect("an entry").name(), "FIRST");
    assert!(iter.next().is_none());
    assert!(iter.next().is_none());
}

#[test]
fn directory_of_only_an_end_mark_has_no_entries() {
    assert!(all_entries(vec![0u8; 512]).is_empty());
    assert!(all_entries(Vec::new()).is_empty());
    assert!(all_entries(vec![b'A'; 31]).is_empty());
}

#[test]
fn directory_bit_makes_a_directory() {
    let mut record = regular(b"SUB     ", b"   ", 0x10, 0x0012_3456, 0);
    record[14..16].copy_from_slice(&0x6000u16.to_le_bytes());
    record[16..18].copy_from_slice(&0x4d21u16.to_le_bytes());
    record[18..20].copy_from_slice(&0x4d22u16.to_le_bytes());
    record[22..24].copy_from_slice(&0x6821u16.to_le_bytes());
    record[24..26].copy_from_slice(&0x4d23u16.to_le_bytes());
    let entries = all_entries(records(&[record, regular(b"F       ", b"   ", 0x21, 7, 5)]));
    let dir = entries[0].as_dir().expect("a directory");
    assert!(entries[0].as_file().is_none());
    assert_eq!(dir.start_cluster, Cluster(0x0012_3456));
    assert_eq!(dir.metadata.attributes.0, 0x10);
    assert_eq!(dir.metadata.created.time.0, 0x6000);
    assert_eq!(dir.metadata.created.date.0, 0x4d21);
    assert_eq!(dir.metadata.accessed.0, 0x4d22);
    assert_eq!(dir.metadata.last_modified.time.0, 0x6821);
    assert_eq!(dir.metadata.last_modified.date.0, 0x4d23);
    let file = entries[1].as_file().expect("a file");
    assert!(entries[1].as_dir().is_none());
    assert_eq!(file.offset, 0);
    assert!(file.data.is_none());
    assert!(entries[1].metadata().read_only());
}

fn sample_volume() -> Builder {
    let mut b = Builder::new(512, 1, 10);
    // The root directory in clusters 2 and 6.
    b.link(2, 6);
    b.link(6, EOC);
    let mut root = records(&[
        regular(b"README  ", b"TXT", 0x20, 3, 700),
        regular(b"DOCS    ", b"   ", 0x10, 5, 0),
    ]);
    root.resize(512, b' ');
    for r in root.chunks_mut(32).skip(2) {
        r.copy_from_slice(&{
            let mut gone = regular(b"FILLER  ", b"   ", 0x20, 0, 0);
            gone[0] = 0xe5;
            gone
        });
    }
    b.fill(2, &root);
    let tail = records(&[regular(b"LAST    ", b"BIN", 0x20, 8, 3), [0u8; 32]]);
    b.fill(6, &tail);
    // README.TXT in clusters 3 and 4.
    b.link(3, 4);
    b.link(4, EOC);
    b.pattern(3, 10);
    b.pattern(4, 20);
    // DOCS in cluster 5.
    b.link(5, EOC);
    let name = utf16("Annual Report.pdf");
    let docs = records(&[
        regular(b".       ", b"   ", 0x10, 5, 0),
        regular(b"..      ", b"   ", 0x10, 0, 0),
        long_name(0x42, &name[13..]),
        long_name(0x01, &name[..13]),
        regular(b"ANNUAL~1", b"PDF", 0x20, 7, 4),
        [0u8; 32],
    ]);
    b.fill(5, &docs);
    b.link(7, EOC);
    b.fill(7, b"%PDF");
    b.link(8, EOC);
    b.fill(8, b"xyz");
    b
}

#[test]
fn directory_that_spans_clusters_lists_all_its_entries() {
    let mut vfat = sample_volume().mount();
    let root = vfat.open("/").expect("the root").into_dir().expect("a directory");
    let mut iter = root.entries(&mut vfat).expect("the entries");
    let mut found = Vec::new();
    while let Some(e) = iter.next() {
        found.push(e.name().to_string());
    }
    assert_eq!(found, vec!["README.TXT", "DOCS", "LAST.BIN"]);
}

#[test]
fn find_does_not_mind_the_case_of_ascii_letters() {
    let mut vfat = sample_volume().mount();
    let root = vfat.open("/").expect("the root").into_dir().expect("a directory");
    let lower = root.find(&mut vfat, "readme.txt").expect("an entry");
    let upper = root.find(&mut vfat, "README.TXT").expect("an entry");
    let mixed = root.find(&mut vfat, "ReadMe.Txt").expect("an entry");
    for e in [&lower, &upper, &mixed] {
        assert_eq!(e.name(), "README.TXT");
        assert_eq!(e.as_file().expect("a file").start_cluster, Cluster(3));
        assert_eq!(e.metadata().size, 700);
    }
    assert!(matches!(root.find(&mut vfat, "README"), Err(Error::NotFound)));
    assert!(matches!(root.find(&mut vfat, "readme.txt "), Err(Error::NotFound)));
}

#[test]
fn find_in_a_directory_with_a_broken_chain_is_invalid_data() {
    let mut b = sample_volume();
    b.link(6, 0);
    let mut vfat = b.mount();
    let root = Dir { metadata: Metadata::default(), start_cluster: Cluster(2) };
    assert!(matches!(root.find(&mut vfat, "README.TXT"), Err(Error::InvalidData)));
    assert!(matches!(root.entries(&mut vfat), Err(Error::InvalidData)));
}

// ---- paths -------------------------------------------------------------

#[test]
fn open_of_the_root_of_an_empty_volume_has_no_entries() {
    let mut b = Builder::new(512, 1, 2);
    b.link(2, EOC);
    let mut vfat = b.mount();
    let root = vfat.open("/").expect("the root");
    assert_eq!(root.name(), "");
    let dir = root.into_dir().expect("a directory");
    assert_eq!(dir.start_cluster, Cluster(2));
    let mut iter = dir.entries(&mut vfat).expect("the entries");
    assert!(iter.next().is_none());
}

#[test]
fn open_follows_a_path_through_directories() {
    let mut vfat = sample_volume().mount();
    let dir = vfat.open("/DOCS").expect("an entry");
    assert!(dir.as_dir().is_some());
    let file = vfat.open("/docs/annual report.PDF").expect("an entry");
    assert_eq!(file.name(), "Annual Report.pdf");
    assert_eq!(file.metadata().size, 4);
    let same = vfat.open("docs//./Annual Report.pdf").expect("an entry");
    assert_eq!(same.as_file().expect("a file").start_cluster, Cluster(7));
    let short = vfat.open("/DOCS/../DOCS/ANNUAL~1.PDF");
    assert!(matches!(short, Err(Error::NotFound)));
    assert_eq!(vfat.open("").expect("the root").as_dir().expect("a dir").start_cluster, Cluster(2));
}

#[test]
fn open_of_a_missing_entry_is_not_found() {
    let mut vfat = sample_volume().mount();
    assert!(matches!(vfat.open("/missing"), Err(Error::NotFound)));
    assert!(matches!(vfat.open("/DOCS/missing"), Err(Error::NotFound)));
}

#[test]
fn open_through_a_file_is_invalid_input() {
    let mut vfat = sample_volume().mount();
    assert!(matches!(vfat.open("/README.TXT/x"), Err(Error::InvalidInput)));
    assert!(vfat.open("/README.TXT/").is_ok());
}

#[test]
fn changes_to_the_volume_are_not_supported() {
    let mut vfat = sample_volume().mount();
    assert!(matches!(vfat.create_file("/new"), Err(Error::Unsupported)));
    assert!(matches!(vfat.create_dir("/new", true), Err(Error::Unsupported)));
    assert!(matches!(vfat.rename("/README.TXT", "/x"), Err(Error::Unsupported)));
    assert!(matches!(vfat.remove("/README.TXT", false), Err(Error::Unsupported)));
    let mut file = vfat.open("/README.TXT").expect("an entry").into_file().expect("a file");
    assert!(matches!(file.write(b"x"), Err(Error::Unsupported)));
    assert!(matches!(file.flush(), Err(Error::Unsupported)));
    assert!(matches!(file.sync(), Err(Error::Unsupported)));
}

// ---- files -------------------------------------------------------------

fn file_of(size: u32, data: Vec<u8>) -> File {
    let mut metadata = Metadata::default();
    metadata.size = size;
    let mut file = File::new(metadata, Cluster(2));
    file.data = Some(data);
    file
}

#[test]
fn seek_to_the_end_is_allowed_and_reads_nothing() {
    let mut vfat = sample_volume().mount();
    let mut file = vfat.open("/README.TXT").expect("an entry").into_file().expect("a file");
    assert_eq!(file.size(), 700);
    assert_eq!(file.seek(SeekFrom::Start(700)).expect("a seek"), 700);
    let mut buf = [7u8; 16];
    assert_eq!(file.read(&mut vfat, &mut buf).expect("a read"), 0);
    assert_eq!(buf, [7u8; 16]);
    assert_eq!(file.offset, 700);
    assert!(matches!(file.seek(SeekFrom::Start(701)), Err(Error::InvalidInput)));
    assert_eq!(file.offset, 700);
    assert!(matches!(file.seek(SeekFrom::Current(-701)), Err(Error::InvalidInput)));
    assert!(matches!(file.seek(SeekFrom::Current(1)), Err(Error::InvalidInput)));
    assert_eq!(file.offset, 700);
}

#[test]
fn seek_counts_from_the_start_the_end_and_the_place() {
    let mut file = file_of(100, vec![0u8; 512]);
    assert_eq!(file.seek(SeekFrom::Start(40)).expect("a seek"), 40);
    assert_eq!(file.seek(SeekFrom::Current(-15)).expect("a seek"), 25);
    assert_eq!(file.seek(SeekFrom::Current(75)).expect("a seek"), 100);
    assert_eq!(file.seek(SeekFrom::End(30)).expect("a seek"), 70);
    assert_eq!(file.seek(SeekFrom::End(0)).expect("a seek"), 100);
    assert_eq!(file.seek(SeekFrom::End(100)).expect("a seek"), 0);
    assert!(matches!(file.seek(SeekFrom::End(101)), Err(Error::InvalidInput)));
    assert!(matches!(file.seek(SeekFrom::End(-1)), Err(Error::InvalidInput)));
    assert!(matches!(file.seek(SeekFrom::End(i64::MIN)), Err(Error::InvalidInput)));
    assert!(matches!(file.seek(SeekFrom::Current(i64::MAX)), Err(Error::InvalidInput)));
    assert!(matches!(file.seek(SeekFrom::Start(u64::MAX)), Err(Error::InvalidInput)));
    assert_eq!(file.offset, 0);
}

#[test]
fn read_stops_at_the_declared_size() {
    let mut b = sample_volume();
    let first = b.pattern(3, 10);
    let second = b.pattern(4, 20);
    let mut vfat = b.mount();
    let mut file = vfat.open("/README.TXT").expect("an entry").into_file().expect("a file");
    let mut buf = vec![0u8; 600];
    assert_eq!(file.read(&mut vfat, &mut buf).expect("a read"), 600);
    assert_eq!(&buf[..512], &first[..]);
    assert_eq!(&buf[512..], &second[..88]);
    assert_eq!(file.offset, 600);
    let mut buf = vec![0xeeu8; 600];
    assert_eq!(file.read(&mut vfat, &mut buf).expect("a read"), 100);
    assert_eq!(&buf[..100], &second[88..188]);
    assert!(buf[100..].iter().all(|b| *b == 0xee));
    assert_eq!(file.read(&mut vfat, &mut buf).expect("a read"), 0);
    assert_eq!(file.data.as_ref().expect("the clusters").len(), 1024);
}

#[test]
fn read_takes_the_clusters_from_the_volume_once() {
    let b = sample_volume();
    let image = Image::new(b.bytes);
    let reads = image.reads.clone();
    let mut vfat = VFat::from(image).expect("a volume");
    let mut file = vfat.open("/LAST.BIN").expect("an entry").into_file().expect("a file");
    let mut buf = [0u8; 2];
    assert_eq!(file.read(&mut vfat, &mut buf).expect("a read"), 2);
    assert_eq!(&buf, b"xy");
    let served = reads.get();
    assert_eq!(file.read(&mut vfat, &mut buf).expect("a read"), 1);
    assert_eq!(buf[0], b'z');
    assert_eq!(reads.get(), served);
    file.initialize(&mut vfat).expect("nothing to do");
    assert_eq!(reads.get(), served);
}

#[test]
fn read_of_a_file_with_a_broken_chain_is_invalid_data() {
    let mut b = sample_volume();
    b.link(4, 0x0FFF_FFF7);
    let mut vfat = b.mount();
    let mut file = vfat.open("/README.TXT").expect("an entry").into_file().expect("a file");
    let mut buf = [1u8; 8];
    assert!(matches!(file.read(&mut vfat, &mut buf), Err(Error::InvalidData)));
    assert_eq!(buf, [1u8; 8]);
    assert_eq!(file.offset, 0);
    assert!(file.data.is_none());
}

#[test]
fn read_of_a_file_that_is_larger_than_its_clusters_is_invalid_data() {
    let mut file = file_of(100, vec![3u8; 64]);
    let mut vfat = sample_volume().mount();
    let mut buf = [0u8; 64];
    assert_eq!(file.read(&mut vfat, &mut buf).expect("a read"), 64);
    assert!(matches!(file.read(&mut vfat, &mut buf), Err(Error::InvalidData)));
    assert_eq!(file.offset, 64);
}

#[test]
fn read_past_the_end_reads_nothing() {
    let mut file = file_of(10, vec![3u8; 64]);
    file.offset = 11;
    let mut vfat = sample_volume().mount();
    let mut buf = [0u8; 4];
    assert_eq!(file.read(&mut vfat, &mut buf).expect("a read"), 0);
    assert_eq!(file.offset, 11);
    let mut empty: [u8; 0] = [];
    file.offset = 0;
    assert_eq!(file.read(&mut vfat, &mut empty).expect("a read"), 0);
}

#[test]
fn a_read_counts_only_if_it_filled_the_sector() {
    let mut data = vec![1u8];
    assert!(take_sector(&mut data, &[2, 3], Ok(2)).is_ok());
    assert_eq!(data, vec![1, 2, 3]);
    match take_sector(&mut data, &[4, 5], Ok(1)) {
        Err(Error::Io(e)) => assert_eq!(e.kind(), std::io::ErrorKind::UnexpectedEof),
        _ => panic!("a short read must fail"),
    }
    assert_eq!(data, vec![1, 2, 3]);
    let late = std::io::Error::new(std::io::ErrorKind::TimedOut, "late");
    match take_sector(&mut data, &[4, 5], Err(late)) {
        Err(Error::Io(e)) => assert_eq!(e.kind(), std::io::ErrorKind::TimedOut),
        _ => panic!("the device failed"),
    }
    assert_eq!(data, vec![1, 2, 3]);
}
