//! The sector cache: the one place where the volume engine reads the device.
//!
//! The cache never evicts. Every sector that was read once stays in memory
//! for as long as the cache lives, so a volume that is read in full is held
//! in full.

use crate::traits::BlockDevice;
use crate::vfat::error::{short_read, Error};
use std::collections::hash_map::Entry;
use std::collections::HashMap;
use vstd::prelude::*;

verus! {

broadcast use vstd::std_specs::hash::group_hash_axioms;

/// One cached sector: its bytes, and whether they were handed out for writing.
#[derive(Debug)]
struct CacheEntry {
    data: Vec<u8>,
    dirty: bool,
}

/// Where a partition lies on its device and how large its sectors are.
pub struct Partition {
    /// The physical sector where the partition begins.
    pub start: u64,
    /// The size, in bytes, of a logical sector in the partition.
    pub sector_size: u64,
}

/// A device seen through a cache of its sectors. Sectors from the start of
/// the partition on have the size of a sector of the partition, whatever
/// the size of a sector of the device.
pub struct CachedDevice<D: BlockDevice> {
    device: D,
    cache: HashMap<u64, CacheEntry>,
    partition: Partition,
}

/// The first physical sector behind sector `virt`, where the partition
/// starts at sector `start` and one of its sectors spans `factor` physical
/// ones. Sectors before the partition are the physical sectors themselves.
pub open spec fn first_physical_sector(start: u64, factor: int, virt: u64) -> int {
    if virt < start {
        virt as int
    } else {
        start + (virt - start) * factor
    }
}

/// The number of physical sectors behind sector `virt`.
pub open spec fn physical_sector_count(start: u64, factor: int, virt: u64) -> int {
    if virt < start {
        1
    } else {
        factor
    }
}

/// Takes what the device handed back for one of its sectors. `chunk` is the
/// buffer that the device was given, as long as one of its sectors, and
/// `outcome` is what the read returned. If the device read the whole sector,
/// the bytes of `chunk` are put at the end of `data`.
///
/// # Errors
///
/// Returns `Io` with the error of the device if the read failed, and `Io`
/// if the device read less than the sector; `data` is then as it was.
pub fn take_sector(data: &mut Vec<u8>, chunk: &[u8], outcome: Result<usize, std::io::Error>) -> (r:
    Result<(), Error>)
    ensures
        match outcome {
            Ok(count) => if count >= chunk@.len() {
                r is Ok && final(data)@ == old(data)@ + chunk@
            } else {
                r matches Err(e) && e is Io && final(data)@ == old(data)@
            },
            Err(e) => r == Err::<(), Error>(Error::Io(e)) && final(data)@ == old(data)@,
        },
{
    match outcome {
        Err(err) => Err(Error::Io(err)),
        Ok(count) => {
            if count < chunk.len() {
                return Err(Error::Io(short_read()));
            }
            data.extend_from_slice(chunk);
            assert(data@ =~= old(data)@ + chunk@);
            Ok(())
        },
    }
}

impl<D: BlockDevice> CachedDevice<D> {
    /// The bytes of every sector that the cache holds, by sector number.
    pub closed spec fn sectors(&self) -> Map<u64, Seq<u8>> {
        Map::new(|n: u64| self.cache@.contains_key(n), |n: u64| self.cache@[n].data@)
    }

    /// The sectors that were handed out for writing.
    pub closed spec fn dirty(&self) -> Set<u64> {
        Set::new(|n: u64| self.cache@.contains_key(n) && self.cache@[n].dirty)
    }

    /// The first sector of the partition.
    pub closed spec fn start(&self) -> u64 {
        self.partition.start
    }

    /// The size in bytes of a sector of the partition, and of every cached buffer.
    pub closed spec fn logical_sector_bytes(&self) -> u64 {
        self.partition.sector_size
    }

    /// The size in bytes of a sector of the device.
    pub closed spec fn physical_sector_bytes(&self) -> u64 {
        self.device.sector_bytes()
    }

    /// The number of physical sectors that make up one sector of the partition.
    pub open spec fn factor(&self) -> int {
        self.logical_sector_bytes() as int / self.physical_sector_bytes() as int
    }

    /// A sector size of the partition can be laid over a sector size of the
    /// device: it is a multiple of it, and a buffer of that size can exist.
    pub open spec fn fits(logical: u64, physical: u64) -> bool {
        &&& 0 < physical <= logical
        &&& logical % physical == 0
        &&& logical <= usize::MAX
    }

    /// The sector sizes fit, and every cached buffer has the size of a
    /// sector of the partition.
    pub closed spec fn wf(&self) -> bool {
        &&& Self::fits(self.partition.sector_size, self.device.sector_bytes())
        &&& forall|n: u64| #[trigger]
            self.cache@.contains_key(n) ==> self.cache@[n].data@.len()
                == self.partition.sector_size
    }

    /// The physical sectors behind sector `virt` have numbers that fit in 64 bits.
    pub open spec fn addressable(&self, virt: u64) -> bool {
        first_physical_sector(self.start(), self.factor(), virt) + physical_sector_count(
            self.start(),
            self.factor(),
            virt,
        ) <= u64::MAX
    }

    /// In a well-formed cache every buffer has the size of a sector of the
    /// partition, and that size is a positive multiple of the device's.
    pub proof fn lemma_wf(&self)
        requires
            self.wf(),
        ensures
            Self::fits(self.logical_sector_bytes(), self.physical_sector_bytes()),
            self.factor() >= 1,
            self.factor() * self.physical_sector_bytes() == self.logical_sector_bytes(),
            forall|n: u64| #[trigger]
                self.sectors().contains_key(n) ==> self.sectors()[n].len()
                    == self.logical_sector_bytes(),
            self.dirty().subset_of(self.sectors().dom()),
    {
        let l = self.partition.sector_size as int;
        let p = self.device.sector_bytes() as int;
        assert(l / p >= 1 && (l / p) * p == l) by (nonlinear_arith)
            requires
                0 < p <= l,
                l % p == 0,
        ;
    }

    /// Creates a new `CachedDevice` that transparently caches sectors from
    /// `device` and maps physical sectors to logical sectors inside of
    /// `partition`. All reads from `CachedDevice` are performed on in-memory
    /// caches.
    ///
    /// The `partition` parameter determines the size of a logical sector and
    /// where logical sectors begin. An access to a sector `n` _before_
    /// `partition.start` is made to physical sector `n`. An access to a
    /// sector `n` at or after `partition.start` is made to the
    /// `partition.sector_size / device.sector_size()` physical sectors that
    /// lie behind it.
    ///
    /// `partition.sector_size` must be a positive integer multiple of
    /// `device.sector_size()`.
    pub fn new(device: D, partition: Partition) -> (r: CachedDevice<D>)
        requires
            Self::fits(partition.sector_size, device.sector_bytes()),
        ensures
            r.wf(),
            r.sectors() == Map::<u64, Seq<u8>>::empty(),
            r.dirty() == Set::<u64>::empty(),
            r.start() == partition.start,
            r.logical_sector_bytes() == partition.sector_size,
            r.physical_sector_bytes() == device.sector_bytes(),
    {
        let r = CachedDevice { device, cache: HashMap::new(), partition };
        assert(r.sectors() =~= Map::<u64, Seq<u8>>::empty());
        assert(r.dirty() =~= Set::<u64>::empty());
        r
    }

    /// Whether sector `sector` is cached and was handed out for writing.
    pub fn is_dirty(&self, sector: u64) -> (r: bool)
        ensures
            r == self.dirty().contains(sector),
    {
        match self.cache.get(&sector) {
            Some(entry) => entry.dirty,
            None => false,
        }
    }

    /// Maps a user's request for a sector `virt` to the physical sector and
    /// number of physical sectors required to access `virt`.
    pub fn virtual_to_physical(&self, virt: u64) -> (r: (u64, u64))
        requires
            self.wf(),
            self.addressable(virt),
        ensures
            r.0 == first_physical_sector(self.start(), self.factor(), virt),
            r.1 == physical_sector_count(self.start(), self.factor(), virt),
    {
        proof {
            self.lemma_wf();
        }
        if virt < self.partition.start {
            (virt, 1)
        } else {
            let factor = self.partition.sector_size / self.device.sector_size();
            let logical_offset = virt - self.partition.start;
            assert(logical_offset * factor <= u64::MAX) by (nonlinear_arith)
                requires
                    self.partition.start + logical_offset * factor + factor <= u64::MAX,
                    factor >= 1,
            ;
            let physical_offset = logical_offset * factor;
            let physical_sector = self.partition.start + physical_offset;
            (physical_sector, factor)
        }
    }

    /// Reads the physical sectors behind sector `virt` from the device into
    /// one buffer of the size of a logical sector. A sector before the
    /// partition fills the front of the buffer; the rest of it is zero.
    ///
    /// # Errors
    ///
    /// Returns `Io` if the device reports an error or hands back less than
    /// one of its sectors.
    pub fn read_sector_from_disk(&mut self, virt: u64) -> (r: Result<Vec<u8>, Error>)
        requires
            old(self).wf(),
            old(self).addressable(virt),
        ensures
            final(self).wf(),
            final(self).sectors() == old(self).sectors(),
            final(self).dirty() == old(self).dirty(),
            final(self).start() == old(self).start(),
            final(self).logical_sector_bytes() == old(self).logical_sector_bytes(),
            final(self).physical_sector_bytes() == old(self).physical_sector_bytes(),
            match r {
                Ok(data) => {
                    &&& data@.len() == old(self).logical_sector_bytes()
                    &&& virt < old(self).start() ==> forall|i: int|
                        old(self).physical_sector_bytes() <= i < data@.len() ==> data@[i] == 0
                },
                Err(e) => e is Io,
            },
    {
        proof {
            self.lemma_wf();
        }
        let (physical_sector, num_sectors) = self.virtual_to_physical(virt);
        let physical_size: usize = self.device.sector_size() as usize;
        let logical_size: usize = self.partition.sector_size as usize;
        let mut data: Vec<u8> = Vec::new();
        let mut i: u64 = 0;
        while i < num_sectors
            invariant
                i <= num_sectors,
                physical_sector + num_sectors <= u64::MAX,
                physical_size == self.device.sector_bytes(),
                logical_size == self.partition.sector_size,
                num_sectors * physical_size <= logical_size,
                data@.len() == i * physical_size,
                self.wf(),
                self.cache == old(self).cache,
                self.partition == old(self).partition,
                self.device.sector_bytes() == old(self).device.sector_bytes(),
            decreases num_sectors - i,
        {
            let mut chunk: Vec<u8> = vec![0u8; physical_size];
            let outcome = self.device.read_sector(physical_sector + i, chunk.as_mut_slice());
            match take_sector(&mut data, chunk.as_slice(), outcome) {
                Ok(_) => {},
                Err(e) => {
                    return Err(e);
                },
            }
            assert((i + 1) * physical_size == i * physical_size + physical_size
                && (i + 1) * physical_size <= num_sectors * physical_size) by (nonlinear_arith)
                requires
                    i < num_sectors,
            ;
            i += 1;
        }
        assert(data@.len() <= logical_size) by (nonlinear_arith)
            requires
                data@.len() == i * physical_size,
                i == num_sectors,
                num_sectors * physical_size <= logical_size,
        ;
        data.resize(logical_size, 0u8);
        Ok(data)
    }

    /// Returns a mutable reference to the cached sector `sector`. If the sector
    /// is not already cached, the sector is first read from the disk.
    ///
    /// The sector is marked dirty as a result of calling this method as it is
    /// presumed that the sector will be written to. If this is not intended,
    /// use `get()` instead. Nothing is ever written back to the device.
    ///
    /// # Errors
    ///
    /// Returns an error if there is an error reading the sector from the disk.
    /// A sector that the cache holds is handed out without error.
    pub fn get_mut(&mut self, sector: u64) -> (r: Result<&mut [u8], Error>)
        requires
            old(self).wf(),
            old(self).addressable(sector),
        ensures
            final(self).start() == old(self).start(),
            final(self).logical_sector_bytes() == old(self).logical_sector_bytes(),
            final(self).physical_sector_bytes() == old(self).physical_sector_bytes(),
            old(self).sectors().contains_key(sector) ==> r is Ok,
            match r {
                Ok(bytes) => {
                    &&& bytes@.len() == old(self).logical_sector_bytes()
                    &&& old(self).sectors().contains_key(sector) ==> bytes@ == old(self).sectors()[sector]
                    &&& final(self).sectors() == old(self).sectors().insert(sector, final(bytes)@)
                    &&& final(self).dirty() == old(self).dirty().insert(sector)
                    &&& final(bytes)@.len() == bytes@.len() ==> final(self).wf()
                },
                Err(e) => {
                    &&& e is Io
                    &&& final(self).wf()
                    &&& final(self).sectors() == old(self).sectors()
                    &&& final(self).dirty() == old(self).dirty()
                },
            },
    {
        if !self.cache.contains_key(&sector) {
            let data_bytes = match self.read_sector_from_disk(sector) {
                Ok(d) => d,
                Err(e) => {
                    return Err(e);
                },
            };
            self.cache.insert(sector, CacheEntry { data: data_bytes, dirty: true });
        }
        match self.cache.entry(sector) {
            Entry::Occupied(occupied) => {
                let cache: &mut CacheEntry = occupied.into_mut();
                cache.dirty = true;
                let bytes = cache.data.as_mut_slice();
                Ok(bytes)
            },
            Entry::Vacant(_) => {
                assert(false);
                Err(Error::InvalidData)
            },
        }
    }

    /// Returns a reference to the cached sector `sector`. If the sector is not
    /// already cached, the sector is first read from the disk.
    ///
    /// # Errors
    ///
    /// Returns an error if there is an error reading the sector from the disk.
    /// A sector that the cache holds is handed out without error.
    pub fn get(&mut self, sector: u64) -> (r: Result<&[u8], Error>)
        requires
            old(self).wf(),
            old(self).addressable(sector),
        ensures
            final(self).wf(),
            final(self).start() == old(self).start(),
            final(self).logical_sector_bytes() == old(self).logical_sector_bytes(),
            final(self).physical_sector_bytes() == old(self).physical_sector_bytes(),
            final(self).dirty() == old(self).dirty(),
            old(self).sectors().contains_key(sector) ==> r is Ok,
            match r {
                Ok(bytes) => {
                    &&& final(self).sectors().contains_key(sector)
                    &&& bytes@ == final(self).sectors()[sector]
                    &&& bytes@.len() == old(self).logical_sector_bytes()
                    &&& old(self).sectors().submap_of(final(self).sectors())
                    &&& final(self).sectors().dom() == old(self).sectors().dom().insert(sector)
                },
                Err(e) => {
                    &&& e is Io
                    &&& final(self).sectors() == old(self).sectors()
                    &&& !old(self).sectors().contains_key(sector)
                },
            },
    {
        if !self.cache.contains_key(&sector) {
            let data_bytes = match self.read_sector_from_disk(sector) {
                Ok(d) => d,
                Err(e) => {
                    return Err(e);
                },
            };
            self.cache.insert(sector, CacheEntry { data: data_bytes, dirty: false });
        }
        proof {
            assert(final(self).sectors().dom() =~= old(self).sectors().dom().insert(sector));
            assert(final(self).dirty() =~= old(self).dirty());
        }
        match self.cache.get(&sector) {
            Some(entry) => Ok(entry.data.as_slice()),
            None => {
                assert(false);
                Err(Error::InvalidData)
            },
        }
    }

    /// Reads sector `n` through the cache into the front of `buf`: as many
    /// bytes as a sector of the partition has, or as `buf` has room for,
    /// whichever is less. Returns the number of bytes read.
    ///
    /// # Errors
    ///
    /// Returns an error if there is an error reading the sector from the disk.
    pub fn read_sector(&mut self, n: u64, buf: &mut [u8]) -> (r: Result<usize, Error>)
        requires
            old(self).wf(),
            old(self).addressable(n),
        ensures
            final(self).wf(),
            final(self).start() == old(self).start(),
            final(self).logical_sector_bytes() == old(self).logical_sector_bytes(),
            final(self).physical_sector_bytes() == old(self).physical_sector_bytes(),
            final(self).dirty() == old(self).dirty(),
            old(self).sectors().submap_of(final(self).sectors()),
            final(buf)@.len() == old(buf)@.len(),
            old(self).sectors().contains_key(n) ==> r is Ok,
            match r {
                Ok(count) => {
                    &&& final(self).sectors().contains_key(n)
                    &&& final(self).sectors().dom() == old(self).sectors().dom().insert(n)
                    &&& count == if old(buf)@.len() <= old(self).logical_sector_bytes() {
                        old(buf)@.len() as int
                    } else {
                        old(self).logical_sector_bytes() as int
                    }
                    &&& final(buf)@ == final(self).sectors()[n].subrange(0, count as int) + old(buf)@.skip(count as int)
                },
                Err(e) => {
                    &&& e is Io
                    &&& final(self).sectors() == old(self).sectors()
                    &&& !old(self).sectors().contains_key(n)
                    &&& final(buf)@ == old(buf)@
                },
            },
    {
        let sector = match self.get(n) {
            Ok(sector) => sector,
            Err(e) => {
                return Err(e);
            },
        };
        let amount_to_read: usize = if buf.len() <= sector.len() {
            buf.len()
        } else {
            sector.len()
        };
        let mut i: usize = 0;
        while i < amount_to_read
            invariant
                i <= amount_to_read,
                amount_to_read <= buf@.len(),
                amount_to_read <= sector.len(),
                sector.len() == sector@.len(),
                buf@.len() == old(buf)@.len(),
                forall|j: int| 0 <= j < i ==> #[trigger] buf@[j] == sector@[j],
                forall|j: int| i <= j < buf@.len() ==> #[trigger] buf@[j] == old(buf)@[j],
            decreases amount_to_read - i,
        {
            buf[i] = sector[i];
            i += 1;
        }
        assert(buf@ =~= sector@.subrange(0, amount_to_read as int) + old(buf)@.skip(
            amount_to_read as int,
        ));
        Ok(amount_to_read)
    }
}

} // verus!
