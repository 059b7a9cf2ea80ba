//! Directories: a chain of clusters read as a list of 32-byte records.
//!
//! A directory is decoded in one pass from its first record on. Records of
//! a long name come before the regular record that they name, last part
//! first; the pass gathers their code units until it meets that record.

use crate::bytes::{field, le_u16_at, le_u32_at, u16_at, u32_at};
use crate::text::{eq_ignore_ascii_case, long_name, long_name_string, same_name, short_name};
use crate::text::{lemma_same_name_transfers, short_name_string};
use crate::traits::BlockDevice;
use crate::vfat::cluster::Cluster;
use crate::vfat::entry::{Entry, EntryView};
use crate::vfat::error::Error;
use crate::vfat::file::File;
use crate::vfat::metadata::{Attributes, Date, Metadata, MetadataView, Time, Timestamp};
use crate::vfat::chain::Contents;
use crate::vfat::vfat::VFat;
use vstd::prelude::*;
use vstd::slice::slice_subrange;

verus! {

/// The number of bytes in one record of a directory.
pub const BYTES_IN_ENTRY: usize = 32;

/// The attribute byte of a record that holds a part of a long name.
pub const LONG_NAME_ATTRIBUTES: u8 = 0x0F;

/// The first byte of a record that was deleted.
pub const DELETED_MARK: u8 = 0xE5;

/// The first byte of the record after the last one of a directory.
pub const END_MARK: u8 = 0x00;

/// The attribute bit that marks a directory.
pub const DIRECTORY_BIT: u8 = 0x10;

#[derive(Debug)]
pub struct Dir {
    pub metadata: Metadata,
    pub start_cluster: Cluster,
}

/// A record that names a file or a directory by its short name.
#[derive(Copy, Clone, Debug)]
pub struct VFatRegularDirEntry {
    pub filename: [u8; 8],
    pub extension: [u8; 3],
    pub attributes: Attributes,
    pub _reserved: u8,
    pub created_cs: u8,
    pub created: Timestamp,
    pub accessed: Date,
    pub cluster_hi: u16,
    pub last_modified: Timestamp,
    pub cluster_lo: u16,
    pub size: u32,
}

/// A record that holds thirteen code units of a long name.
#[derive(Copy, Clone, Debug)]
pub struct VFatLfnDirEntry {
    pub seq_no: u8,
    pub chars1: [u8; 10],
    pub attributes: Attributes,
    pub dirtype: u8,
    pub checksum: u8,
    pub chars2: [u8; 12],
    pub _r: [u8; 2],
    pub chars3: [u8; 4],
}

/// A record of which only the bytes are known.
#[derive(Copy, Clone, Debug)]
pub struct VFatUnknownDirEntry {
    pub _bytes: [u8; 32],
}

/// An iterator over the entries of a directory: the bytes of the directory
/// and the place of the record at which the next entry is looked for.
pub struct DirIter {
    bytes: Vec<u8>,
    position: usize,
}

/// What a record is, by its attribute byte and its first byte.
pub enum RecordKind {
    /// A part of a long name.
    LongName,
    /// A part of a long name that was deleted.
    DeletedLongName,
    /// The end of the directory.
    End,
    /// A regular record that was deleted.
    Deleted,
    /// A regular record: a file or a directory.
    Regular,
}

/// The number of whole records in the bytes of a directory.
pub open spec fn record_count(bytes: Seq<u8>) -> int {
    bytes.len() as int / 32
}

/// Record `i` of a directory.
pub open spec fn record(bytes: Seq<u8>, i: int) -> Seq<u8> {
    bytes.subrange(32 * i, 32 * i + 32)
}

/// What the record `r` is. The attribute byte is looked at first.
pub open spec fn kind_of(r: Seq<u8>) -> RecordKind {
    if r[11] == LONG_NAME_ATTRIBUTES {
        if r[0] == DELETED_MARK {
            RecordKind::DeletedLongName
        } else {
            RecordKind::LongName
        }
    } else if r[0] == END_MARK {
        RecordKind::End
    } else if r[0] == DELETED_MARK {
        RecordKind::Deleted
    } else {
        RecordKind::Regular
    }
}

/// The code units that the bytes `b` hold, two bytes each, low byte first.
pub open spec fn units_of(b: Seq<u8>) -> Seq<u16> {
    Seq::new((b.len() / 2) as nat, |k: int| le_u16_at(b, 2 * k))
}

/// The thirteen code units of a long name record, in the order of the name.
pub open spec fn name_units(r: Seq<u8>) -> Seq<u16> {
    units_of(r.subrange(1, 11)) + units_of(r.subrange(14, 26)) + units_of(r.subrange(28, 32))
}

/// The entry that the regular record `r` stands for, with the code units
/// `pending` of the long name records before it. The long name is the name
/// if there is one; else the short name of the record is.
pub open spec fn entry_of(r: Seq<u8>, pending: Seq<u16>) -> EntryView {
    EntryView {
        is_dir: r[11] as int / 16 % 2 == 1,
        metadata: MetadataView {
            name: if pending.len() > 0 {
                long_name(pending)
            } else {
                short_name(r.subrange(0, 8), r.subrange(8, 11))
            },
            size: le_u32_at(r, 28),
            attributes: Attributes(r[11]),
            created: Timestamp { time: Time(le_u16_at(r, 14)), date: Date(le_u16_at(r, 16)) },
            accessed: Date(le_u16_at(r, 18)),
            last_modified: Timestamp {
                time: Time(le_u16_at(r, 22)),
                date: Date(le_u16_at(r, 24)),
            },
        },
        start_cluster: Cluster((le_u16_at(r, 20) as int * 65536 + le_u16_at(r, 26)) as u32),
    }
}

/// Looks for the next regular record from record `from` on, where `pending`
/// holds the code units of the long name records met so far. Gives the
/// place of that record and the code units that name it, or nothing if the
/// directory ends before.
///
/// A long name record puts its units before those gathered so far: the
/// parts of a name are stored last part first. A deleted long name record
/// is passed over. A deleted regular record takes the gathered units with it.
pub open spec fn scan(bytes: Seq<u8>, from: int, pending: Seq<u16>) -> Option<(int, Seq<u16>)>
    decreases record_count(bytes) - from,
{
    if from < 0 || from >= record_count(bytes) {
        None
    } else {
        match kind_of(record(bytes, from)) {
            RecordKind::LongName => scan(
                bytes,
                from + 1,
                name_units(record(bytes, from)) + pending,
            ),
            RecordKind::DeletedLongName => scan(bytes, from + 1, pending),
            RecordKind::End => None,
            RecordKind::Deleted => scan(bytes, from + 1, Seq::<u16>::empty()),
            RecordKind::Regular => Some((from, pending)),
        }
    }
}

/// The entries of a directory from record `from` on, in the order of the
/// records.
pub open spec fn listing(bytes: Seq<u8>, from: int) -> Seq<EntryView>
    decreases record_count(bytes) - from,
{
    match scan(bytes, from, Seq::<u16>::empty()) {
        None => Seq::<EntryView>::empty(),
        Some((at, pending)) => if from <= at < record_count(bytes) {
            seq![entry_of(record(bytes, at), pending)] + listing(bytes, at + 1)
        } else {
            Seq::<EntryView>::empty()
        },
    }
}

/// The place of the first of `entries[from..]` whose name is `name` but for
/// the case of ASCII letters.
pub open spec fn first_match(entries: Seq<EntryView>, name: Seq<char>, from: int) -> Option<int>
    decreases entries.len() - from,
{
    if from < 0 || from >= entries.len() {
        None
    } else if same_name(entries[from].metadata.name, name) {
        Some(from)
    } else {
        first_match(entries, name, from + 1)
    }
}

/// A scan that finds a regular record finds it at or after the place where
/// it began, and the record is neither deleted nor the end mark nor a part
/// of a long name.
pub proof fn lemma_scan_finds_regular(bytes: Seq<u8>, from: int, pending: Seq<u16>)
    ensures
        scan(bytes, from, pending) matches Some((at, _)) ==> {
            &&& from <= at < record_count(bytes)
            &&& kind_of(record(bytes, at)) is Regular
            &&& record(bytes, at)[0] != DELETED_MARK
            &&& record(bytes, at)[0] != END_MARK
            &&& record(bytes, at)[11] != LONG_NAME_ATTRIBUTES
        },
    decreases record_count(bytes) - from,
{
    if 0 <= from < record_count(bytes) {
        match kind_of(record(bytes, from)) {
            RecordKind::LongName => {
                lemma_scan_finds_regular(
                    bytes,
                    from + 1,
                    name_units(record(bytes, from)) + pending,
                );
            },
            RecordKind::DeletedLongName => {
                lemma_scan_finds_regular(bytes, from + 1, pending);
            },
            RecordKind::Deleted => {
                lemma_scan_finds_regular(bytes, from + 1, Seq::<u16>::empty());
            },
            _ => {},
        }
    }
}

impl VFatUnknownDirEntry {
    /// Takes the bytes of a record as they are.
    pub fn decode(r: &[u8]) -> (e: VFatUnknownDirEntry)
        requires
            r@.len() == BYTES_IN_ENTRY,
        ensures
            e._bytes@ == r@,
    {
        let e = VFatUnknownDirEntry { _bytes: field::<32>(r, 0) };
        assert(r@.subrange(0, 32) =~= r@);
        e
    }
}

impl VFatLfnDirEntry {
    /// Every field holds the bytes of the record `r` that belong to it.
    pub open spec fn holds(&self, r: Seq<u8>) -> bool {
        &&& self.seq_no == r[0]
        &&& self.chars1@ == r.subrange(1, 11)
        &&& self.attributes == Attributes(r[11])
        &&& self.dirtype == r[12]
        &&& self.checksum == r[13]
        &&& self.chars2@ == r.subrange(14, 26)
        &&& self._r@ == r.subrange(26, 28)
        &&& self.chars3@ == r.subrange(28, 32)
    }

    /// Reads a long name record from its bytes.
    pub fn decode(r: &[u8]) -> (e: VFatLfnDirEntry)
        requires
            r@.len() == BYTES_IN_ENTRY,
        ensures
            e.holds(r@),
    {
        VFatLfnDirEntry {
            seq_no: r[0],
            chars1: field::<10>(r, 1),
            attributes: Attributes(r[11]),
            dirtype: r[12],
            checksum: r[13],
            chars2: field::<12>(r, 14),
            _r: field::<2>(r, 26),
            chars3: field::<4>(r, 28),
        }
    }

    /// The thirteen code units of the record, in the order of the name.
    pub fn units(&self) -> (u: Vec<u16>)
        ensures
            u@ == units_of(self.chars1@) + units_of(self.chars2@) + units_of(self.chars3@),
    {
        let mut out: Vec<u16> = Vec::new();
        push_units(&mut out, self.chars1.as_slice());
        push_units(&mut out, self.chars2.as_slice());
        push_units(&mut out, self.chars3.as_slice());
        assert(out@ =~= units_of(self.chars1@) + units_of(self.chars2@) + units_of(self.chars3@));
        out
    }
}

/// Puts the code units that the bytes `b` hold at the end of `out`.
fn push_units(out: &mut Vec<u16>, b: &[u8])
    ensures
        final(out)@ == old(out)@ + units_of(b@),
{
    let n: usize = b.len() / 2;
    let mut k: usize = 0;
    assert(out@ =~= old(out)@ + units_of(b@).subrange(0, 0));
    while k < n
        invariant
            k <= n,
            n == b@.len() / 2,
            b.len() == b@.len(),
            out@ == old(out)@ + units_of(b@).subrange(0, k as int),
        decreases n - k,
    {
        out.push(u16_at(b, 2 * k));
        assert(out@ =~= old(out)@ + units_of(b@).subrange(0, k + 1));
        k += 1;
    }
    assert(units_of(b@).subrange(0, n as int) =~= units_of(b@));
}

impl VFatRegularDirEntry {
    /// Every field holds the bytes of the record `r` that belong to it.
    pub open spec fn holds(&self, r: Seq<u8>) -> bool {
        &&& self.filename@ == r.subrange(0, 8)
        &&& self.extension@ == r.subrange(8, 11)
        &&& self.attributes == Attributes(r[11])
        &&& self._reserved == r[12]
        &&& self.created_cs == r[13]
        &&& self.created == (Timestamp {
            time: Time(le_u16_at(r, 14)),
            date: Date(le_u16_at(r, 16)),
        })
        &&& self.accessed == Date(le_u16_at(r, 18))
        &&& self.cluster_hi == le_u16_at(r, 20)
        &&& self.last_modified == (Timestamp {
            time: Time(le_u16_at(r, 22)),
            date: Date(le_u16_at(r, 24)),
        })
        &&& self.cluster_lo == le_u16_at(r, 26)
        &&& self.size == le_u32_at(r, 28)
    }

    /// Reads a regular record from its bytes.
    pub fn decode(r: &[u8]) -> (e: VFatRegularDirEntry)
        requires
            r@.len() == BYTES_IN_ENTRY,
        ensures
            e.holds(r@),
    {
        VFatRegularDirEntry {
            filename: field::<8>(r, 0),
            extension: field::<3>(r, 8),
            attributes: Attributes(r[11]),
            _reserved: r[12],
            created_cs: r[13],
            created: Timestamp { time: Time(u16_at(r, 14)), date: Date(u16_at(r, 16)) },
            accessed: Date(u16_at(r, 18)),
            cluster_hi: u16_at(r, 20),
            last_modified: Timestamp { time: Time(u16_at(r, 22)), date: Date(u16_at(r, 24)) },
            cluster_lo: u16_at(r, 26),
            size: u32_at(r, 28),
        }
    }

    /// Makes the entry that the record stands for. The name is the long
    /// name that `pending` spells, if it holds any code units, and the short
    /// name of the record otherwise. The directory bit of the attributes
    /// decides between a directory and a file.
    pub fn into_entry(&self, pending: &[u16]) -> (e: Entry)
        ensures
            forall|r: Seq<u8>| #[trigger] self.holds(r) ==> e@ == entry_of(r, pending@),
            e.is_fresh(),
    {
        let name = if pending.len() > 0 {
            long_name_string(pending)
        } else {
            short_name_string(self.filename.as_slice(), self.extension.as_slice())
        };
        let hi: u16 = self.cluster_hi;
        let lo: u16 = self.cluster_lo;
        let start_cluster: u32 = ((hi as u32) << 16) | (lo as u32);
        assert(start_cluster == hi as int * 65536 + lo) by (bit_vector)
            requires
                start_cluster == ((hi as u32) << 16) | (lo as u32),
        ;
        let metadata = Metadata {
            name,
            size: self.size,
            attributes: self.attributes,
            created: self.created,
            accessed: self.accessed,
            last_modified: self.last_modified,
        };
        let a: u8 = self.attributes.0;
        assert((a & 0x10 != 0) == (a / 16 % 2 == 1)) by (bit_vector);
        if a & DIRECTORY_BIT != 0 {
            Entry::Dir(Dir { metadata, start_cluster: Cluster(start_cluster) })
        } else {
            Entry::File(File::new(metadata, Cluster(start_cluster)))
        }
    }
}

impl DirIter {
    /// The bytes of the directory.
    pub closed spec fn bytes(&self) -> Seq<u8> {
        self.bytes@
    }

    /// The place of the record at which the next entry is looked for.
    pub closed spec fn position(&self) -> int {
        self.position as int
    }

    /// The entries that the iterator has yet to give, in order.
    pub open spec fn remaining(&self) -> Seq<EntryView> {
        listing(self.bytes(), self.position())
    }

    /// An iterator over the entries that the bytes of a directory hold. A
    /// last record that is cut short is left out.
    pub fn over(bytes: Vec<u8>) -> (r: DirIter)
        ensures
            r.bytes() == bytes@,
            r.position() == 0,
    {
        DirIter { bytes, position: 0 }
    }

    /// Reads the chain of clusters of the directory `dir` from the volume
    /// and starts an iterator at its first record.
    ///
    /// # Errors
    ///
    /// The errors of reading the chain: `InvalidData` for a chain that is
    /// broken, `Io` for a device that fails.
    pub fn new<D: BlockDevice>(dir: &Dir, vfat: &mut VFat<D>) -> (r: Result<DirIter, Error>)
        requires
            old(vfat).wf(),
        ensures
            final(vfat).wf(),
            final(vfat).geometry() == old(vfat).geometry(),
            old(vfat).sectors().submap_of(final(vfat).sectors()),
            !(old(vfat).contents(dir.start_cluster) is Unread) ==> final(vfat).contents(
                dir.start_cluster,
            ) == old(vfat).contents(dir.start_cluster),
            match r {
                Ok(iter) => {
                    &&& final(vfat).contents(dir.start_cluster) == Contents::Bytes(iter.bytes())
                    &&& iter.position() == 0
                },
                Err(e) => {
                    &&& final(vfat).contents(dir.start_cluster) == (if e is InvalidData {
                        Contents::Broken
                    } else {
                        Contents::Unread
                    })
                    &&& e is InvalidData || e is Io
                },
            },
    {
        let mut buf: Vec<u8> = Vec::new();
        match vfat.read_chain(dir.start_cluster, &mut buf) {
            Ok(_) => {
                assert(buf@ =~= Seq::<u8>::empty() + buf@);
                Ok(DirIter { bytes: buf, position: 0 })
            },
            Err(e) => Err(e),
        }
    }

    /// Gives the next entry of the directory, or `None` after the last.
    ///
    /// The records are gone through from the place where the iterator
    /// stands. Long name records are gathered, deleted records are passed
    /// over, and the first regular record makes the entry. At the end mark
    /// the directory is over, whatever bytes may follow.
    pub fn next(&mut self) -> (r: Option<Entry>)
        ensures
            final(self).bytes() == old(self).bytes(),
            match r {
                Some(e) => {
                    &&& old(self).remaining().len() > 0
                    &&& e@ == old(self).remaining()[0]
                    &&& e.is_fresh()
                    &&& final(self).remaining() == old(self).remaining().drop_first()
                },
                None => {
                    &&& old(self).remaining().len() == 0
                    &&& final(self).remaining().len() == 0
                },
            },
    {
        let total: usize = self.bytes.len() / BYTES_IN_ENTRY;
        let mut pending: Vec<u16> = Vec::new();
        let ghost start = self.position as int;
        while self.position < total
            invariant
                self.bytes@ == old(self).bytes@,
                total == record_count(self.bytes@),
                self.bytes.len() == self.bytes@.len(),
                scan(self.bytes@, start, Seq::<u16>::empty()) == scan(
                    self.bytes@,
                    self.position as int,
                    pending@,
                ),
                start == old(self).position,
                start <= self.position,
            decreases total - self.position,
        {
            let at: usize = self.position;
            let raw = slice_subrange(
                self.bytes.as_slice(),
                BYTES_IN_ENTRY * at,
                BYTES_IN_ENTRY * at + BYTES_IN_ENTRY,
            );
            assert(raw@ == record(self.bytes@, at as int));
            let unknown = VFatUnknownDirEntry::decode(raw);
            if unknown._bytes[11] == LONG_NAME_ATTRIBUTES {
                let lfn = VFatLfnDirEntry::decode(raw);
                if lfn.seq_no != DELETED_MARK {
                    let mut units = lfn.units();
                    let ghost gathered = pending@;
                    units.append(&mut pending);
                    pending = units;
                    assert(pending@ == name_units(raw@) + gathered);
                }
                self.position = at + 1;
            } else if unknown._bytes[0] == END_MARK {
                self.position = total;
                assert(listing(self.bytes@, total as int) =~= Seq::<EntryView>::empty());
                return None;
            } else if unknown._bytes[0] == DELETED_MARK {
                pending = Vec::new();
                self.position = at + 1;
            } else {
                let regular = VFatRegularDirEntry::decode(raw);
                let entry = regular.into_entry(pending.as_slice());
                self.position = at + 1;
                proof {
                    assert(regular.holds(raw@));
                    assert(kind_of(raw@) is Regular);
                    assert(scan(self.bytes@, at as int, pending@) == Some((at as int, pending@)));
                    let rest = listing(self.bytes@, at + 1);
                    assert(listing(self.bytes@, start) == seq![entry@] + rest);
                    assert((seq![entry@] + rest).drop_first() =~= rest);
                }
                return Some(entry);
            }
        }
        assert(listing(self.bytes@, self.position as int) =~= Seq::<EntryView>::empty());
        None
    }
}

impl Dir {
    /// The entries of the directory on the volume, in the order of its
    /// records, if the volume has read the whole chain of the directory.
    pub open spec fn entries_spec<D: BlockDevice>(&self, vfat: &VFat<D>) -> Option<Seq<EntryView>> {
        match vfat.contents(self.start_cluster) {
            Contents::Bytes(b) => Some(listing(b, 0)),
            _ => None,
        }
    }

    /// Returns an iterator over the entries in this directory.
    ///
    /// # Errors
    ///
    /// The errors of reading the chain of the directory: `InvalidData` for a
    /// chain that is broken, `Io` for a device that fails.
    pub fn entries<D: BlockDevice>(&self, vfat: &mut VFat<D>) -> (r: Result<DirIter, Error>)
        requires
            old(vfat).wf(),
        ensures
            final(vfat).wf(),
            final(vfat).geometry() == old(vfat).geometry(),
            old(vfat).sectors().submap_of(final(vfat).sectors()),
            !(old(vfat).contents(self.start_cluster) is Unread) ==> final(vfat).contents(
                self.start_cluster,
            ) == old(vfat).contents(self.start_cluster),
            match r {
                Ok(iter) => {
                    &&& final(vfat).contents(self.start_cluster) == Contents::Bytes(iter.bytes())
                    &&& iter.position() == 0
                },
                Err(e) => {
                    &&& final(vfat).contents(self.start_cluster) == (if e is InvalidData {
                        Contents::Broken
                    } else {
                        Contents::Unread
                    })
                    &&& e is InvalidData || e is Io
                },
            },
    {
        DirIter::new(self, vfat)
    }

    /// Finds the entry named `name` in `self` and returns it. Comparison is
    /// case-insensitive for ASCII letters. Of several entries with the name
    /// the first is returned.
    ///
    /// # Errors
    ///
    /// If no entry with name `name` exists in `self`, an error of `NotFound`
    /// is returned. The errors of reading the chain of the directory are
    /// `InvalidData` for a chain that is broken and `Io` for a device that
    /// fails.
    pub fn find<D: BlockDevice>(&self, vfat: &mut VFat<D>, name: &str) -> (r: Result<Entry, Error>)
        requires
            old(vfat).wf(),
        ensures
            final(vfat).wf(),
            final(vfat).geometry() == old(vfat).geometry(),
            old(vfat).sectors().submap_of(final(vfat).sectors()),
            !(old(vfat).contents(self.start_cluster) is Unread) ==> final(vfat).contents(
                self.start_cluster,
            ) == old(vfat).contents(self.start_cluster),
            match r {
                Ok(e) => {
                    &&& self.entries_spec(final(vfat)) matches Some(entries)
                    &&& first_match(entries, name@, 0) matches Some(i)
                    &&& e@ == entries[i]
                    &&& e.is_fresh()
                },
                Err(Error::NotFound) => {
                    &&& self.entries_spec(final(vfat)) matches Some(entries)
                    &&& first_match(entries, name@, 0) is None
                },
                Err(Error::InvalidData) => final(vfat).contents(self.start_cluster) is Broken,
                Err(Error::Io(_)) => final(vfat).contents(self.start_cluster) is Unread,
                Err(_) => false,
            },
    {
        let mut iter = match self.entries(vfat) {
            Ok(iter) => iter,
            Err(e) => {
                return Err(e);
            },
        };
        let ghost entries = iter.remaining();
        let ghost seen: int = 0;
        assert(entries.skip(0) =~= entries);
        loop
            invariant
                vfat.wf(),
                vfat.geometry() == old(vfat).geometry(),
                old(vfat).sectors().submap_of(vfat.sectors()),
                !(old(vfat).contents(self.start_cluster) is Unread) ==> vfat.contents(
                    self.start_cluster,
                ) == old(vfat).contents(self.start_cluster),
                self.entries_spec(vfat) == Some(entries),
                0 <= seen <= entries.len(),
                iter.remaining() == entries.skip(seen),
                first_match(entries, name@, 0) == first_match(entries, name@, seen),
            decreases entries.len() - seen,
        {
            match iter.next() {
                None => {
                    assert(seen == entries.len());
                    return Err(Error::NotFound);
                },
                Some(entry) => {
                    assert(entries.skip(seen)[0] == entries[seen]);
                    if eq_ignore_ascii_case(entry.name(), name) {
                        assert(first_match(entries, name@, seen) == Some(seen));
                        return Ok(entry);
                    }
                    proof {
                        assert(first_match(entries, name@, seen) == first_match(
                            entries,
                            name@,
                            seen + 1,
                        ));
                        assert(entries.skip(seen).drop_first() =~= entries.skip(seen + 1));
                        seen = seen + 1;
                    }
                },
            }
        }
    }
}

/// Two names that are the same but for the case of ASCII letters find the
/// same entry in every list of entries.
pub proof fn lemma_lookup_ignores_ascii_case(
    entries: Seq<EntryView>,
    a: Seq<char>,
    b: Seq<char>,
    from: int,
)
    requires
        same_name(a, b),
    ensures
        first_match(entries, a, from) == first_match(entries, b, from),
    decreases entries.len() - from,
{
    if 0 <= from < entries.len() {
        let n = entries[from].metadata.name;
        lemma_same_name_transfers(a, b, n);
        assert(same_name(n, a) == same_name(a, n)) by {
            lemma_same_name_symmetric(n, a);
        }
        assert(same_name(n, b) == same_name(b, n)) by {
            lemma_same_name_symmetric(n, b);
        }
        lemma_lookup_ignores_ascii_case(entries, a, b, from + 1);
    }
}

/// Being the same name but for case does not depend on the order of the two.
pub proof fn lemma_same_name_symmetric(a: Seq<char>, b: Seq<char>)
    ensures
        same_name(a, b) == same_name(b, a),
{
    if same_name(a, b) {
        assert forall|i: int| 0 <= i < b.len() implies crate::text::ascii_fold(#[trigger] b[i])
            == crate::text::ascii_fold(a[i]) by {
            assert(crate::text::ascii_fold(a[i]) == crate::text::ascii_fold(b[i]));
        }
    }
    if same_name(b, a) {
        assert forall|i: int| 0 <= i < a.len() implies crate::text::ascii_fold(#[trigger] a[i])
            == crate::text::ascii_fold(b[i]) by {
            assert(crate::text::ascii_fold(b[i]) == crate::text::ascii_fold(a[i]));
        }
    }
}

/// Every entry of a directory was made from a regular record: one that is
/// not deleted, is not the end mark and is not a part of a long name. A
/// record that starts with the deleted mark never shows as an entry.
pub proof fn lemma_entries_come_from_live_records(bytes: Seq<u8>, from: int)
    ensures
        forall|i: int|
            0 <= i < listing(bytes, from).len() ==> exists|at: int, pending: Seq<u16>|
                {
                    &&& from <= at < record_count(bytes)
                    &&& record(bytes, at)[0] != DELETED_MARK
                    &&& record(bytes, at)[0] != END_MARK
                    &&& record(bytes, at)[11] != LONG_NAME_ATTRIBUTES
                    &&& #[trigger] listing(bytes, from)[i] == #[trigger] entry_of(
                        record(bytes, at),
                        pending,
                    )
                },
    decreases record_count(bytes) - from,
{
    lemma_scan_finds_regular(bytes, from, Seq::<u16>::empty());
    match scan(bytes, from, Seq::<u16>::empty()) {
        None => {},
        Some((at, pending)) => {
            lemma_entries_come_from_live_records(bytes, at + 1);
            let whole = listing(bytes, from);
            let rest = listing(bytes, at + 1);
            assert forall|i: int| 0 <= i < whole.len() implies exists|k: int, p: Seq<u16>|
                {
                    &&& from <= k < record_count(bytes)
                    &&& record(bytes, k)[0] != DELETED_MARK
                    &&& record(bytes, k)[0] != END_MARK
                    &&& record(bytes, k)[11] != LONG_NAME_ATTRIBUTES
                    &&& #[trigger] whole[i] == #[trigger] entry_of(record(bytes, k), p)
                } by {
                if i == 0 {
                    assert(whole[0] == entry_of(record(bytes, at), pending));
                } else {
                    assert(whole[i] == rest[i - 1]);
                    let (k, p) = choose|k: int, p: Seq<u16>|
                        {
                            &&& at + 1 <= k < record_count(bytes)
                            &&& record(bytes, k)[0] != DELETED_MARK
                            &&& record(bytes, k)[0] != END_MARK
                            &&& record(bytes, k)[11] != LONG_NAME_ATTRIBUTES
                            &&& #[trigger] rest[i - 1] == #[trigger] entry_of(record(bytes, k), p)
                        };
                    assert(whole[i] == entry_of(record(bytes, k), p));
                }
            }
        },
    }
}

/// A directory whose first record is the end mark has no entries.
pub proof fn lemma_end_mark_first_is_empty(bytes: Seq<u8>)
    requires
        bytes.len() >= 32,
        bytes[0] == END_MARK,
        bytes[11] != LONG_NAME_ATTRIBUTES,
    ensures
        listing(bytes, 0) == Seq::<EntryView>::empty(),
{
    assert(record(bytes, 0)[0] == bytes[0]);
    assert(record(bytes, 0)[11] == bytes[11]);
}

/// The places of the regular records that make the entries of a directory
/// from record `from` on.
pub open spec fn sources(bytes: Seq<u8>, from: int) -> Seq<int>
    decreases record_count(bytes) - from,
{
    match scan(bytes, from, Seq::<u16>::empty()) {
        None => Seq::<int>::empty(),
        Some((at, _)) => if from <= at < record_count(bytes) {
            seq![at] + sources(bytes, at + 1)
        } else {
            Seq::<int>::empty()
        },
    }
}

/// The entries of a directory come in the order of its records: each entry
/// is made from a regular record, and the record of a later entry lies
/// after the record of an earlier one.
pub proof fn lemma_entries_in_record_order(bytes: Seq<u8>, from: int)
    ensures
        sources(bytes, from).len() == listing(bytes, from).len(),
        forall|i: int|
            0 <= i < sources(bytes, from).len() ==> {
                &&& from <= #[trigger] sources(bytes, from)[i] < record_count(bytes)
                &&& kind_of(record(bytes, sources(bytes, from)[i])) is Regular
            },
        forall|i: int, j: int|
            0 <= i < j < sources(bytes, from).len() ==> #[trigger] sources(bytes, from)[i]
                < #[trigger] sources(bytes, from)[j],
    decreases record_count(bytes) - from,
{
    lemma_scan_finds_regular(bytes, from, Seq::<u16>::empty());
    match scan(bytes, from, Seq::<u16>::empty()) {
        None => {},
        Some((at, _)) => {
            lemma_entries_in_record_order(bytes, at + 1);
            let whole = sources(bytes, from);
            let rest = sources(bytes, at + 1);
            assert forall|i: int| 0 <= i < whole.len() implies {
                &&& from <= #[trigger] whole[i] < record_count(bytes)
                &&& kind_of(record(bytes, whole[i])) is Regular
            } by {
                if i > 0 {
                    assert(whole[i] == rest[i - 1]);
                }
            }
            assert forall|i: int, j: int| 0 <= i < j < whole.len() implies #[trigger] whole[i]
                < #[trigger] whole[j] by {
                assert(whole[j] == rest[j - 1]);
                if i > 0 {
                    assert(whole[i] == rest[i - 1]);
                }
            }
        },
    }
}

/// A regular record after two long name records has the name that the two
/// spell, the units of the second record before those of the first: the
/// parts of a long name are stored last part first.
pub proof fn lemma_long_name_of_two_records(bytes: Seq<u8>)
    requires
        record_count(bytes) >= 3,
        kind_of(record(bytes, 0)) is LongName,
        kind_of(record(bytes, 1)) is LongName,
        kind_of(record(bytes, 2)) is Regular,
    ensures
        listing(bytes, 0).len() > 0,
        listing(bytes, 0)[0].metadata.name == long_name(
            name_units(record(bytes, 1)) + name_units(record(bytes, 0)),
        ),
{
    let first = name_units(record(bytes, 0));
    let second = name_units(record(bytes, 1));
    assert(first + Seq::<u16>::empty() =~= first);
    assert(scan(bytes, 2, second + first) == Some((2int, second + first)));
    assert(scan(bytes, 1, first) == scan(bytes, 2, second + first));
    assert(scan(bytes, 0, Seq::<u16>::empty()) == scan(bytes, 1, first));
    assert((second + first).len() > 0) by {
        assert(units_of(record(bytes, 1).subrange(1, 11)).len() == 5);
    }
}

} // verus!
