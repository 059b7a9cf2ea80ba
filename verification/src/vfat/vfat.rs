//! The volume engine: a mounted volume, its table and its cluster chains.

use crate::bytes::{le_u16_at, u32_at};
use crate::mbr::{first_fat32_in_table, first_unknown_indicator, has_boot_signature};
use crate::mbr::{lemma_partition_table_round_trip, MasterBootRecord};
use crate::traits::BlockDevice;
use crate::vfat::cache::{CachedDevice, Partition};
use crate::vfat::chain::{chain_bytes, cluster_cached, cluster_data, contents_of, fat_cached};
use crate::vfat::chain::{fat_value, linked, origin, run_bytes, run_cached, sector_at, step, walk};
use crate::vfat::chain::{lemma_run_bytes_len, lemma_run_bytes_stable, lemma_walk_exhausted};
use crate::vfat::chain::{lemma_walk_extended, lemma_walk_finished, lemma_walk_stable};
use crate::vfat::chain::{Contents, Step, Walk, MAX_CHAIN_CLUSTERS};
use crate::vfat::cluster::Cluster;
use crate::vfat::ebpb::BiosParameterBlock;
use crate::vfat::error::Error;
use crate::vfat::fat::{FatEntry, Status};
use crate::vfat::geometry::{Geometry, FAT_ENTRY_SIZE};
use vstd::prelude::*;

verus! {

/// A mounted FAT32 volume: the sector cache over the device, and where the
/// table and the data lie.
pub struct VFat<D: BlockDevice> {
    device: CachedDevice<D>,
    geometry: Geometry,
}

/// A sector of `logical` bytes can hold a table entry and is made of whole
/// device sectors of `physical` bytes.
pub open spec fn usable_sector_sizes(logical: u16, physical: u64) -> bool {
    &&& logical >= FAT_ENTRY_SIZE
    &&& 0 < physical <= logical
    &&& logical as int % physical as int == 0
}

/// What mounting comes to on a device with sectors of `physical` bytes whose
/// first sector holds `m` and whose sector at the start of the first FAT32
/// partition, if there is one, holds `b`: where the partition starts and
/// the geometry of its volume, or the error.
pub open spec fn mounting(m: Seq<u8>, b: Seq<u8>, physical: u64) -> Result<(u64, Geometry), Error> {
    if !has_boot_signature(m) {
        Err(Error::Mbr(crate::mbr::Error::BadSignature))
    } else {
        match first_unknown_indicator(m, 0) {
            Some(i) => Err(Error::Mbr(crate::mbr::Error::UnknownBootIndicator(i))),
            None => match first_fat32_in_table(m, 0) {
                None => Err(Error::NotFound),
                Some(start) => if !has_boot_signature(b) {
                    Err(Error::BadSignature)
                } else if !usable_sector_sizes(le_u16_at(b, 11), physical) {
                    Err(Error::InvalidData)
                } else {
                    Ok((start as u64, Geometry::decoded(start, b)))
                },
            },
        }
    }
}

impl<D: BlockDevice> VFat<D> {
    /// Where the parts of the volume lie.
    pub closed spec fn geometry(&self) -> Geometry {
        self.geometry
    }

    /// The bytes of every sector that the volume has read so far, by sector
    /// number. Sectors are never dropped, so this only grows.
    pub closed spec fn sectors(&self) -> Map<u64, Seq<u8>> {
        self.device.sectors()
    }

    /// The size in bytes of a sector of the device under the volume.
    pub closed spec fn physical_sector_bytes(&self) -> u64 {
        self.device.physical_sector_bytes()
    }

    /// The first sector of the partition that holds the volume.
    pub closed spec fn partition_start(&self) -> u64 {
        self.device.start()
    }

    /// The cache is well formed, its sectors have the size that the
    /// geometry names, and the geometry is well formed.
    pub closed spec fn wf(&self) -> bool {
        &&& self.device.wf()
        &&& self.device.logical_sector_bytes() == self.geometry.bytes_per_sector
        &&& self.device.start() <= u32::MAX
        &&& self.geometry.wf()
    }

    /// What following the chain from cluster `start` through the sectors read
    /// so far comes to.
    pub open spec fn chain(&self, start: Cluster) -> Walk {
        walk(self.sectors(), self.geometry(), start, MAX_CHAIN_CLUSTERS as nat)
    }

    /// What reading the chain from cluster `start` through the sectors read
    /// so far gives.
    pub open spec fn contents(&self, start: Cluster) -> Contents {
        contents_of(self.sectors(), self.geometry(), start)
    }

    /// The cluster in which the root directory starts.
    pub fn root_cluster(&self) -> (r: Cluster)
        ensures
            r == self.geometry().root_dir_cluster,
    {
        self.geometry.root_dir_cluster
    }

    /// In a well-formed volume the geometry is well formed and every sector
    /// read so far has the size of a sector of the volume.
    pub proof fn lemma_wf(&self)
        requires
            self.wf(),
        ensures
            self.geometry().wf(),
            forall|n: u64| #[trigger]
                self.sectors().contains_key(n) ==> self.sectors()[n].len()
                    == self.geometry().bytes_per_sector,
    {
        self.device.lemma_wf();
    }

    /// Every sector that the table or the data region can hold is one that
    /// the cache can address.
    proof fn lemma_addressable(&self, sector: u64)
        requires
            self.wf(),
            sector <= 0x400_0000_0000,
        ensures
            self.device.addressable(sector),
    {
        self.device.lemma_wf();
        let f = self.device.factor();
        let p = self.device.physical_sector_bytes() as int;
        let start = self.device.start() as int;
        assert(f <= 0xFFFF) by (nonlinear_arith)
            requires
                f * p <= 0xFFFF,
                p >= 1,
                f >= 1,
        ;
        if sector >= start {
            assert((sector - start) * f <= 0x400_0000_0000 * 0xFFFF) by (nonlinear_arith)
                requires
                    0 <= sector - start <= 0x400_0000_0000,
                    1 <= f <= 0xFFFF,
            ;
        }
    }

    /// Where the partition starts and the geometry of the volume, for a
    /// result of mounting that is a volume.
    pub open spec fn outcome(r: Result<VFat<D>, Error>) -> Result<(u64, Geometry), Error> {
        match r {
            Ok(vfat) => Ok((vfat.partition_start(), vfat.geometry())),
            Err(e) => Err(e),
        }
    }

    /// Mounts the first FAT32 partition of `device`: reads the master boot
    /// record from sector 0 and the parameter block from the first sector of
    /// the partition, and works out where the table and the data lie.
    ///
    /// # Errors
    ///
    /// Returns `Mbr(err)` if the master boot record cannot be read or
    /// decoded, `NotFound` if its table names no FAT32 partition, `Io` if the
    /// device fails on the parameter block, `BadSignature` if that block does
    /// not end in the boot signature, and `InvalidData` if a sector of the
    /// volume cannot hold a table entry or is not made of whole sectors of
    /// the device.
    pub fn from(device: D) -> (r: Result<VFat<D>, Error>)
        requires
            device.sector_bytes() <= usize::MAX,
        ensures
            r matches Ok(vfat) ==> {
                &&& vfat.wf()
                &&& vfat.sectors() == Map::<u64, Seq<u8>>::empty()
                &&& vfat.physical_sector_bytes() == device.sector_bytes()
            },
            !(r matches Err(e) && e.is_io()) ==> exists|m: Seq<u8>, b: Seq<u8>| #[trigger]
                mounting(m, b, device.sector_bytes()) == Self::outcome(r),
    {
        let mut device = device;
        let ghost physical = device.sector_bytes();
        let mbr = match MasterBootRecord::from(&mut device) {
            Ok(mbr) => mbr,
            Err(e) => {
                proof {
                    if !(e is Io) {
                        let m = choose|s: Seq<u8>|
                            s.len() == physical && MasterBootRecord::decoding(
                                s,
                                Err::<MasterBootRecord, crate::mbr::Error>(e),
                            );
                        assert(mounting(m, m, physical) == Err::<(u64, Geometry), Error>(
                            Error::Mbr(e),
                        ));
                    }
                }
                return Err(Error::Mbr(e));
            },
        };
        let ghost m = choose|s: Seq<u8>|
            s.len() == physical && MasterBootRecord::decoding(
                s,
                Ok::<MasterBootRecord, crate::mbr::Error>(mbr),
            );
        proof {
            lemma_partition_table_round_trip(m, mbr);
        }
        let bpb_offset = match mbr.get_fat_partition_offset() {
            None => {
                proof {
                    assert(mounting(m, m, physical) == Err::<(u64, Geometry), Error>(
                        Error::NotFound,
                    ));
                }
                return Err(Error::NotFound);
            },
            Some(offset) => offset,
        };
        let bpb = match BiosParameterBlock::from(&mut device, bpb_offset as u64) {
            Ok(bpb) => bpb,
            Err(e) => {
                proof {
                    if !(e is Io) {
                        let b = choose|s: Seq<u8>|
                            s.len() == physical && BiosParameterBlock::decoding(
                                s,
                                Err::<BiosParameterBlock, Error>(e),
                            );
                        assert(mounting(m, b, physical) == Err::<(u64, Geometry), Error>(
                            Error::BadSignature,
                        ));
                    }
                }
                return Err(e);
            },
        };
        let ghost b = choose|s: Seq<u8>|
            s.len() == physical && BiosParameterBlock::decoding(
                s,
                Ok::<BiosParameterBlock, Error>(bpb),
            );
        let r = Self::assemble(device, bpb_offset, &bpb);
        proof {
            assert(usable_sector_sizes(bpb.bytes_per_sector, physical) <==> (bpb.bytes_per_sector
                >= FAT_ENTRY_SIZE && CachedDevice::<D>::fits(
                bpb.bytes_per_sector as u64,
                physical,
            )));
            assert(Geometry::of(bpb_offset, bpb) == Geometry::decoded(bpb_offset, b));
            assert(mounting(m, b, physical) == Self::outcome(r));
        }
        r
    }

    /// Puts a volume together from the device, the sector at which the
    /// partition starts and the parameter block of the partition.
    ///
    /// # Errors
    ///
    /// Returns `InvalidData` if a sector of the volume cannot hold a table
    /// entry, or is not made of whole sectors of the device.
    pub fn assemble(device: D, start: u32, bpb: &BiosParameterBlock) -> (r: Result<VFat<D>, Error>)
        ensures
            match r {
                Ok(vfat) => {
                    &&& bpb.bytes_per_sector >= FAT_ENTRY_SIZE
                    &&& CachedDevice::<D>::fits(bpb.bytes_per_sector as u64, device.sector_bytes())
                    &&& vfat.wf()
                    &&& vfat.geometry() == Geometry::of(start, *bpb)
                    &&& vfat.sectors() == Map::<u64, Seq<u8>>::empty()
                    &&& vfat.physical_sector_bytes() == device.sector_bytes()
                    &&& vfat.partition_start() == start
                },
                Err(e) => {
                    &&& e is InvalidData
                    &&& !(bpb.bytes_per_sector >= FAT_ENTRY_SIZE && CachedDevice::<D>::fits(
                        bpb.bytes_per_sector as u64,
                        device.sector_bytes(),
                    ))
                },
            },
    {
        let physical = device.sector_size();
        let logical = bpb.bytes_per_sector as u64;
        if bpb.bytes_per_sector < FAT_ENTRY_SIZE || physical == 0 || physical > logical || logical
            % physical != 0 {
            return Err(Error::InvalidData);
        }
        let fat_start_sector = start as u64 + bpb.reserved_sectors as u64;
        assert(bpb.sectors_per_fat * bpb.num_fats <= 0xFFFF_FFFF * 0xFF) by (nonlinear_arith)
            requires
                bpb.sectors_per_fat <= 0xFFFF_FFFF,
                bpb.num_fats <= 0xFF,
        ;
        let data_start_sector = fat_start_sector + (bpb.sectors_per_fat as u64) * (
        bpb.num_fats as u64);
        let geometry = Geometry {
            bytes_per_sector: bpb.bytes_per_sector,
            sectors_per_cluster: bpb.sectors_per_cluster,
            sectors_per_fat: bpb.sectors_per_fat,
            fat_start_sector,
            data_start_sector,
            root_dir_cluster: Cluster(bpb.root_cluster_num),
        };
        let partition = Partition { start: start as u64, sector_size: logical };
        Ok(VFat { device: CachedDevice::new(device, partition), geometry })
    }

    /// Reads the table entry of cluster `cluster` through the cache.
    ///
    /// # Errors
    ///
    /// Returns `Io` if the sector that holds the entry is not cached and the
    /// device fails to hand it over.
    pub fn fat_entry(&mut self, cluster: Cluster) -> (r: Result<FatEntry, Error>)
        requires
            old(self).wf(),
        ensures
            final(self).wf(),
            final(self).geometry() == old(self).geometry(),
            final(self).physical_sector_bytes() == old(self).physical_sector_bytes(),
            final(self).partition_start() == old(self).partition_start(),
            old(self).sectors().submap_of(final(self).sectors()),
            match r {
                Ok(entry) => {
                    &&& fat_cached(final(self).sectors(), final(self).geometry(), cluster)
                    &&& entry.0 == fat_value(final(self).sectors(), final(self).geometry(), cluster)
                },
                Err(e) => {
                    &&& e is Io
                    &&& final(self).sectors() == old(self).sectors()
                    &&& !fat_cached(old(self).sectors(), old(self).geometry(), cluster)
                },
            },
    {
        let entries_per_sector: u32 = (self.geometry.bytes_per_sector / FAT_ENTRY_SIZE) as u32;
        // The sector of the table that holds the entry, and the place of the
        // entry among the entries of that sector.
        let fat_sector_index: u32 = cluster.0 / entries_per_sector;
        let fat_entry_index: u32 = cluster.0 % entries_per_sector;
        let sector: u64 = self.geometry.fat_start_sector + fat_sector_index as u64;
        let idx: usize = (fat_entry_index * FAT_ENTRY_SIZE as u32) as usize;
        proof {
            self.lemma_addressable(sector);
            assert(sector == self.geometry.fat_sector(cluster));
            assert(idx == self.geometry.fat_offset(cluster));
            assert(idx + 4 <= self.geometry.bytes_per_sector) by (nonlinear_arith)
                requires
                    idx == fat_entry_index * 4,
                    fat_entry_index < entries_per_sector,
                    entries_per_sector == self.geometry.bytes_per_sector / 4,
            ;
        }
        match self.device.get(sector) {
            Ok(fat_entries) => Ok(FatEntry(u32_at(fat_entries, idx))),
            Err(e) => Err(e),
        }
    }

    /// Reads the sectors of cluster `cluster` through the cache and puts
    /// their bytes at the end of `buf`. Returns the number of bytes added:
    /// the size of a cluster.
    ///
    /// # Errors
    ///
    /// Returns `Io` if a sector of the cluster is not cached and the device
    /// fails to hand it over; `buf` is then as it was.
    pub fn read_cluster(&mut self, cluster: Cluster, buf: &mut Vec<u8>) -> (r: Result<usize, Error>)
        requires
            old(self).wf(),
        ensures
            final(self).wf(),
            final(self).geometry() == old(self).geometry(),
            final(self).physical_sector_bytes() == old(self).physical_sector_bytes(),
            final(self).partition_start() == old(self).partition_start(),
            old(self).sectors().submap_of(final(self).sectors()),
            match r {
                Ok(n) => {
                    &&& cluster_cached(final(self).sectors(), final(self).geometry(), cluster)
                    &&& final(buf)@ == old(buf)@ + cluster_data(
                        final(self).sectors(),
                        final(self).geometry(),
                        cluster,
                    )
                    &&& n == final(self).geometry().cluster_bytes()
                    &&& final(buf)@.len() == old(buf)@.len() + n
                },
                Err(e) => {
                    &&& e is Io
                    &&& final(buf)@ == old(buf)@
                    &&& !cluster_cached(final(self).sectors(), final(self).geometry(), cluster)
                },
            },
    {
        let count: u8 = self.geometry.sectors_per_cluster;
        let index: u64 = if cluster.0 >= 2 {
            (cluster.0 - 2) as u64
        } else {
            0
        };
        assert(index * count <= 0xFFFF_FFFF * 0xFF) by (nonlinear_arith)
            requires
                index <= 0xFFFF_FFFF,
                count <= 0xFF,
        ;
        let start_read_sector: u64 = self.geometry.data_start_sector + index * (count as u64);
        let old_len: usize = buf.len();
        let mut i: u8 = 0;
        while i < count
            invariant
                i <= count,
                count == self.geometry.sectors_per_cluster,
                start_read_sector == self.geometry.first_sector(cluster),
                start_read_sector + count <= 0x400_0000_0000,
                self.wf(),
                self.geometry == old(self).geometry,
                self.physical_sector_bytes() == old(self).physical_sector_bytes(),
                self.partition_start() == old(self).partition_start(),
                old(self).sectors().submap_of(self.sectors()),
                old_len == old(buf)@.len(),
                run_cached(self.sectors(), start_read_sector as int, i as int),
                buf@ == old(buf)@ + run_bytes(self.sectors(), start_read_sector as int, i as int),
            decreases count - i,
        {
            let ghost before = self.sectors();
            proof {
                self.lemma_addressable((start_read_sector + i) as u64);
            }
            match self.device.get(start_read_sector + i as u64) {
                Ok(bytes) => {
                    buf.extend_from_slice(bytes);
                },
                Err(e) => {
                    buf.truncate(old_len);
                    proof {
                        assert(!self.sectors().contains_key(
                            sector_at(start_read_sector as int, i as int),
                        ));
                        assert(buf@ =~= old(buf)@);
                    }
                    return Err(e);
                },
            }
            proof {
                let after = self.sectors();
                vstd::map_lib::lemma_submap_of_trans(old(self).sectors(), before, after);
                lemma_run_bytes_stable(before, after, start_read_sector as int, i as int);
                assert(after.contains_key(sector_at(start_read_sector as int, i as int)));
                assert forall|j: int| 0 <= j < i + 1 implies after.contains_key(
                    #[trigger] sector_at(start_read_sector as int, j),
                ) by {
                    if j < i {
                        assert(before.contains_key(sector_at(start_read_sector as int, j)));
                    }
                }
                assert(buf@ =~= old(buf)@ + run_bytes(after, start_read_sector as int, i + 1));
            }
            i += 1;
        }
        proof {
            self.lemma_wf();
            lemma_run_bytes_len(
                self.sectors(),
                start_read_sector as int,
                count as int,
                self.geometry.bytes_per_sector as int,
            );
        }
        Ok(buf.len() - old_len)
    }

    /// Looks at one cluster of a chain: reads its table entry and, if the
    /// cluster belongs to a chain, puts its bytes at the end of `buf`.
    /// Returns the cluster that the chain goes on with, or `None` at the end
    /// of the chain.
    ///
    /// # Errors
    ///
    /// Returns `InvalidData` if the table entry is free, reserved or bad.
    /// Returns `Io` if a sector is not cached and the device fails to hand it
    /// over. After an error `buf` is as it was.
    pub fn visit(&mut self, cluster: Cluster, buf: &mut Vec<u8>) -> (r: Result<
        Option<Cluster>,
        Error,
    >)
        requires
            old(self).wf(),
        ensures
            final(self).wf(),
            final(self).geometry() == old(self).geometry(),
            final(self).physical_sector_bytes() == old(self).physical_sector_bytes(),
            final(self).partition_start() == old(self).partition_start(),
            old(self).sectors().submap_of(final(self).sectors()),
            match r {
                Ok(next) => {
                    &&& step(final(self).sectors(), final(self).geometry(), cluster) == (match next {
                        Some(n) => Step::Next(n),
                        None => Step::Last,
                    })
                    &&& final(buf)@ == old(buf)@ + cluster_data(
                        final(self).sectors(),
                        final(self).geometry(),
                        cluster,
                    )
                },
                Err(e) => {
                    &&& final(buf)@ == old(buf)@
                    &&& step(final(self).sectors(), final(self).geometry(), cluster) == (
                    if e is InvalidData {
                        Step::Broken
                    } else {
                        Step::Unread
                    })
                    &&& e is InvalidData || e is Io
                },
            },
    {
        let ghost before = self.sectors();
        let fat_entry = match self.fat_entry(cluster) {
            Ok(entry) => entry,
            Err(e) => {
                return Err(e);
            },
        };
        let ghost middle = self.sectors();
        let next = match fat_entry.status() {
            Status::Data(next) => Some(next),
            Status::Eoc(_) => None,
            _ => {
                return Err(Error::InvalidData);
            },
        };
        match self.read_cluster(cluster, buf) {
            Ok(_) => {},
            Err(e) => {
                proof {
                    vstd::map_lib::lemma_submap_of_trans(before, middle, self.sectors());
                }
                return Err(e);
            },
        }
        proof {
            vstd::map_lib::lemma_submap_of_trans(before, middle, self.sectors());
            let k = self.geometry.fat_sector(cluster) as u64;
            assert(middle.dom().contains(k) && self.sectors().dom().contains(k));
        }
        Ok(next)
    }

    /// Reads all of the clusters chained from the cluster `start` and puts
    /// their bytes at the end of `buf`, whole clusters in the order of the
    /// chain. Returns the number of bytes added.
    ///
    /// The table entry of a cluster is read before its data. A chain of more
    /// than `MAX_CHAIN_CLUSTERS` clusters is taken to have no end.
    ///
    /// # Errors
    ///
    /// Returns `InvalidData` if the chain comes to an entry that is free,
    /// reserved or bad, or has no end. Returns `Io` if a sector on the way is
    /// not cached and the device fails to hand it over. After an error `buf`
    /// is as it was.
    pub fn read_chain(&mut self, start: Cluster, buf: &mut Vec<u8>) -> (r: Result<usize, Error>)
        requires
            old(self).wf(),
        ensures
            final(self).wf(),
            final(self).geometry() == old(self).geometry(),
            final(self).physical_sector_bytes() == old(self).physical_sector_bytes(),
            final(self).partition_start() == old(self).partition_start(),
            old(self).sectors().submap_of(final(self).sectors()),
            !(old(self).chain(start) is Unread) ==> final(self).chain(start) == old(self).chain(
                start,
            ),
            !(old(self).contents(start) is Unread) ==> final(self).contents(start) == old(self).contents(start),
            match r {
                Ok(n) => {
                    &&& final(self).chain(start) matches Walk::Chain(chain)
                    &&& final(buf)@ == old(buf)@ + chain_bytes(
                        final(self).sectors(),
                        final(self).geometry(),
                        chain,
                    )
                    &&& n == chain.len() * final(self).geometry().cluster_bytes()
                    &&& final(buf)@.len() == old(buf)@.len() + n
                },
                Err(e) => {
                    &&& final(buf)@ == old(buf)@
                    &&& final(self).chain(start) == (if e is InvalidData {
                        Walk::Broken
                    } else {
                        Walk::Unread
                    })
                    &&& e is InvalidData || e is Io
                },
            },
    {
        let old_len: usize = buf.len();
        let mut cluster_cursor: Cluster = start;
        let mut steps: u32 = 0;
        let ghost visited: Seq<Cluster> = Seq::<Cluster>::empty();
        let ghost g = self.geometry;
        assert(buf@ =~= old(buf)@ + chain_bytes(self.sectors(), g, visited));
        loop
            invariant
                self.wf(),
                self.geometry == g,
                g == old(self).geometry,
                self.physical_sector_bytes() == old(self).physical_sector_bytes(),
                self.partition_start() == old(self).partition_start(),
                old(self).sectors().submap_of(self.sectors()),
                old_len == old(buf)@.len(),
                steps == visited.len(),
                steps <= MAX_CHAIN_CLUSTERS,
                linked(self.sectors(), g, visited, cluster_cursor),
                origin(visited, cluster_cursor) == start,
                buf@ == old(buf)@ + chain_bytes(self.sectors(), g, visited),
            decreases MAX_CHAIN_CLUSTERS - steps,
        {
            if steps >= MAX_CHAIN_CLUSTERS {
                buf.truncate(old_len);
                proof {
                    lemma_walk_exhausted(self.sectors(), g, visited, cluster_cursor);
                    self.lemma_chain_settled(old(self), start);
                }
                return Err(Error::InvalidData);
            }
            let ghost before = self.sectors();
            match self.visit(cluster_cursor, buf) {
                Ok(Some(next)) => {
                    proof {
                        vstd::map_lib::lemma_submap_of_trans(old(self).sectors(), before, self.sectors());
                        lemma_walk_extended(before, self.sectors(), g, visited, cluster_cursor, next);
                        assert(buf@ =~= old(buf)@ + chain_bytes(
                            self.sectors(),
                            g,
                            visited.push(cluster_cursor),
                        ));
                        visited = visited.push(cluster_cursor);
                    }
                    cluster_cursor = next;
                    steps += 1;
                },
                Ok(None) => {
                    proof {
                        vstd::map_lib::lemma_submap_of_trans(old(self).sectors(), before, self.sectors());
                        self.lemma_wf();
                        lemma_walk_finished(before, self.sectors(), g, visited, cluster_cursor);
                        assert(buf@ =~= old(buf)@ + chain_bytes(
                            self.sectors(),
                            g,
                            visited.push(cluster_cursor),
                        ));
                        self.lemma_chain_settled(old(self), start);
                    }
                    return Ok(buf.len() - old_len);
                },
                Err(e) => {
                    buf.truncate(old_len);
                    proof {
                        vstd::map_lib::lemma_submap_of_trans(old(self).sectors(), before, self.sectors());
                        self.lemma_wf();
                        lemma_walk_finished(before, self.sectors(), g, visited, cluster_cursor);
                        self.lemma_chain_settled(old(self), start);
                    }
                    return Err(e);
                },
            }
        }
    }

    /// A chain that an earlier state of the volume could follow to its end,
    /// or to its fault, comes out the same in every later state.
    pub proof fn lemma_chain_settled(&self, earlier: &VFat<D>, start: Cluster)
        requires
            earlier.sectors().submap_of(self.sectors()),
            earlier.geometry() == self.geometry(),
        ensures
            !(earlier.chain(start) is Unread) ==> self.chain(start) == earlier.chain(start),
            !(earlier.contents(start) is Unread) ==> self.contents(start) == earlier.contents(
                start,
            ),
    {
        if !(earlier.chain(start) is Unread) {
            lemma_walk_stable(
                earlier.sectors(),
                self.sectors(),
                self.geometry(),
                start,
                MAX_CHAIN_CLUSTERS as nat,
            );
        }
    }
}

} // verus!
