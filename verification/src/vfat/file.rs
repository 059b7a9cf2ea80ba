//! Files: a position in a chain of clusters, read as a stream of bytes.

use crate::traits::BlockDevice;
use crate::vfat::cluster::Cluster;
use crate::vfat::error::Error;
use crate::vfat::metadata::Metadata;
use crate::vfat::chain::Contents;
use crate::vfat::vfat::VFat;
use vstd::prelude::*;

verus! {

#[derive(Debug)]
pub struct File {
    pub metadata: Metadata,
    pub start_cluster: Cluster,
    /// The place in the file at which the next read starts.
    pub offset: u32,
    /// The bytes of the file's clusters, once they have been read.
    pub data: Option<Vec<u8>>,
}

/// A place in a file to seek to, counted from one of three points.
#[derive(Debug, Clone, Copy)]
pub enum SeekFrom {
    /// So many bytes after the start of the file.
    Start(u64),
    /// So many bytes before the end of the file.
    End(i64),
    /// So many bytes after the place at which the file stands.
    Current(i64),
}

/// The offset from the start that a seek aims at, in a file of `size`
/// bytes that stands at `offset`.
pub open spec fn seek_target(size: u32, offset: u32, pos: SeekFrom) -> int {
    match pos {
        SeekFrom::Start(n) => n as int,
        SeekFrom::End(n) => size - n,
        SeekFrom::Current(n) => offset + n,
    }
}

/// The number of bytes that a read into a buffer of `room` bytes takes from
/// a file of `size` bytes that stands at `offset`.
pub open spec fn read_len(size: u32, offset: u32, room: int) -> int {
    let left = if offset <= size {
        size - offset
    } else {
        0
    };
    if room <= left {
        room
    } else {
        left
    }
}

impl File {
    /// The bytes of the file's clusters, if they have been read.
    pub open spec fn contents(&self) -> Option<Seq<u8>> {
        match self.data {
            Some(d) => Some(d@),
            None => None,
        }
    }

    /// A file that stands at its start and has not been read yet.
    pub fn new(metadata: Metadata, start_cluster: Cluster) -> (r: File)
        ensures
            r.metadata == metadata,
            r.start_cluster == start_cluster,
            r.offset == 0,
            r.data is None,
    {
        File { metadata, start_cluster, offset: 0u32, data: None }
    }

    /// Reads the clusters of the file from the volume, unless that was done
    /// before: the file reads its clusters once and keeps them.
    ///
    /// # Errors
    ///
    /// The errors of reading the chain of the file: `InvalidData` for a
    /// chain that is broken, `Io` for a device that fails. The file then
    /// still holds no data.
    pub fn initialize<D: BlockDevice>(&mut self, vfat: &mut VFat<D>) -> (r: Result<(), Error>)
        requires
            old(vfat).wf(),
        ensures
            final(vfat).wf(),
            final(vfat).geometry() == old(vfat).geometry(),
            old(vfat).sectors().submap_of(final(vfat).sectors()),
            final(self).metadata == old(self).metadata,
            final(self).start_cluster == old(self).start_cluster,
            final(self).offset == old(self).offset,
            old(self).data is Some ==> r is Ok && final(self).data == old(self).data && final(vfat).sectors() == old(vfat).sectors(),
            old(self).data is None ==> (match r {
                Ok(_) => final(vfat).contents(old(self).start_cluster) matches Contents::Bytes(b)
                    && final(self).contents() == Some(b),
                Err(e) => {
                    &&& final(self).data is None
                    &&& final(vfat).contents(old(self).start_cluster) == (if e is InvalidData {
                        Contents::Broken
                    } else {
                        Contents::Unread
                    })
                    &&& e is InvalidData || e is Io
                },
            }),
    {
        match self.data {
            Some(_) => Ok(()),
            None => {
                let mut tmp_buf: Vec<u8> = Vec::new();
                match vfat.read_chain(self.start_cluster, &mut tmp_buf) {
                    Ok(_) => {
                        assert(tmp_buf@ =~= Seq::<u8>::empty() + tmp_buf@);
                        self.data = Some(tmp_buf);
                        Ok(())
                    },
                    Err(e) => Err(e),
                }
            },
        }
    }

    /// Seek to offset `pos` in the file.
    ///
    /// A seek to the end of the file is allowed. A seek _beyond_ the end of
    /// the file returns an `InvalidInput` error.
    ///
    /// If the seek operation completes successfully, this method returns the
    /// new position from the start of the stream.
    ///
    /// # Errors
    ///
    /// Seeking before the start of a file or beyond the end of the file
    /// results in an `InvalidInput` error, and the file stays where it stands.
    pub fn seek(&mut self, pos: SeekFrom) -> (r: Result<u64, Error>)
        ensures
            final(self).metadata == old(self).metadata,
            final(self).start_cluster == old(self).start_cluster,
            final(self).data == old(self).data,
            ({
                let target = seek_target(old(self).metadata.size, old(self).offset, pos);
                if 0 <= target <= old(self).metadata.size {
                    r == Ok::<u64, Error>(target as u64) && final(self).offset == target
                } else {
                    r == Err::<u64, Error>(Error::InvalidInput) && final(self).offset == old(self).offset
                }
            }),
    {
        let size: i128 = self.metadata.size as i128;
        let new_offset: i128 = match pos {
            SeekFrom::Start(offset) => offset as i128,
            SeekFrom::End(offset) => size - offset as i128,
            SeekFrom::Current(offset) => self.offset as i128 + offset as i128,
        };
        if new_offset < 0 || new_offset > size {
            return Err(Error::InvalidInput);
        }
        self.offset = new_offset as u32;
        Ok(self.offset as u64)
    }

    /// The size of the file in bytes, as its directory entry declares it.
    pub fn size(&self) -> (r: u64)
        ensures
            r == self.metadata.size,
    {
        self.metadata.size as u64
    }

    /// Copies bytes from the place at which the file stands into `buf`, as
    /// many as `buf` has room for and the file has left, and moves on by
    /// that many. At the end of the file nothing is copied and 0 is
    /// returned. The clusters of the file are read from `vfat` on the first
    /// read.
    ///
    /// # Errors
    ///
    /// The errors of `initialize`, and `InvalidData` if the clusters of the
    /// file hold less than the file's declared size asks for. The file then
    /// stays where it stands and `buf` is as it was.
    pub fn read<D: BlockDevice>(&mut self, vfat: &mut VFat<D>, buf: &mut [u8]) -> (r: Result<
        usize,
        Error,
    >)
        requires
            old(vfat).wf(),
        ensures
            final(vfat).wf(),
            final(vfat).geometry() == old(vfat).geometry(),
            old(vfat).sectors().submap_of(final(vfat).sectors()),
            final(self).metadata == old(self).metadata,
            final(self).start_cluster == old(self).start_cluster,
            final(buf)@.len() == old(buf)@.len(),
            old(self).data is Some ==> final(self).data == old(self).data,
            match r {
                Ok(n) => {
                    &&& n == read_len(
                        old(self).metadata.size,
                        old(self).offset,
                        old(buf)@.len() as int,
                    )
                    &&& final(self).offset == old(self).offset + n
                    &&& final(self).contents() matches Some(d)
                    &&& old(self).offset + n <= d.len()
                    &&& final(buf)@ == d.subrange(
                        old(self).offset as int,
                        old(self).offset + n,
                    ) + old(buf)@.skip(n as int)
                    &&& old(self).data is None ==> final(vfat).contents(old(self).start_cluster)
                        == Contents::Bytes(d)
                },
                Err(e) => {
                    &&& final(self).offset == old(self).offset
                    &&& final(buf)@ == old(buf)@
                    &&& match final(self).contents() {
                        Some(d) => {
                            &&& e is InvalidData
                            &&& d.len() < old(self).offset + read_len(
                                old(self).metadata.size,
                                old(self).offset,
                                old(buf)@.len() as int,
                            )
                            &&& old(self).data is None ==> final(vfat).contents(
                                old(self).start_cluster,
                            ) == Contents::Bytes(d)
                        },
                        None => {
                            &&& old(self).data is None
                            &&& final(vfat).contents(old(self).start_cluster) == (
                            if e is InvalidData {
                                Contents::Broken
                            } else {
                                Contents::Unread
                            })
                            &&& e is InvalidData || e is Io
                        },
                    }
                },
            },
    {
        if self.data.is_none() {
            match self.initialize(vfat) {
                Ok(_) => {},
                Err(e) => {
                    return Err(e);
                },
            }
        }
        let left: usize = if self.offset <= self.metadata.size {
            (self.metadata.size - self.offset) as usize
        } else {
            0
        };
        let num_bytes_to_read: usize = if buf.len() <= left {
            buf.len()
        } else {
            left
        };
        let start: usize = self.offset as usize;
        match &self.data {
            None => {
                assert(false);
                Err(Error::InvalidData)
            },
            Some(data) => {
                if data.len() < start || data.len() - start < num_bytes_to_read {
                    return Err(Error::InvalidData);
                }
                let mut i: usize = 0;
                while i < num_bytes_to_read
                    invariant
                        i <= num_bytes_to_read,
                        num_bytes_to_read <= buf@.len(),
                        start + num_bytes_to_read <= data.len(),
                        buf@.len() == old(buf)@.len(),
                        forall|j: int| 0 <= j < i ==> #[trigger] buf@[j] == data@[start + j],
                        forall|j: int| i <= j < buf@.len() ==> #[trigger] buf@[j] == old(buf)@[j],
                    decreases num_bytes_to_read - i,
                {
                    buf[i] = data[start + i];
                    i += 1;
                }
                assert(buf@ =~= data@.subrange(start as int, start + num_bytes_to_read) + old(buf)@.skip(num_bytes_to_read as int));
                self.offset = self.offset + num_bytes_to_read as u32;
                Ok(num_bytes_to_read)
            },
        }
    }

    /// Writing to a file is not supported: the volume is read-only.
    pub fn write(&mut self, _buf: &[u8]) -> (r: Result<usize, Error>)
        ensures
            r == Err::<usize, Error>(Error::Unsupported),
            *final(self) == *old(self),
    {
        Err(Error::Unsupported)
    }

    /// Nothing is ever written, so there is nothing to flush: not supported.
    pub fn flush(&mut self) -> (r: Result<(), Error>)
        ensures
            r == Err::<(), Error>(Error::Unsupported),
            *final(self) == *old(self),
    {
        Err(Error::Unsupported)
    }

    /// Nothing is ever written, so there is nothing to sync: not supported.
    pub fn sync(&mut self) -> (r: Result<(), Error>)
        ensures
            r == Err::<(), Error>(Error::Unsupported),
            *final(self) == *old(self),
    {
        Err(Error::Unsupported)
    }
}

/// A seek to the size of a file is allowed and a read from there takes
/// nothing; a seek to one byte more, or to before the start, is refused.
pub proof fn lemma_seek_and_read_at_the_end(size: u32, offset: u32, room: int, back: i64)
    requires
        0 <= room,
        back > offset,
    ensures
        0 <= seek_target(size, offset, SeekFrom::Start(size as u64)) <= size,
        read_len(size, size, room) == 0,
        seek_target(size, offset, SeekFrom::Start((size + 1) as u64)) > size,
        seek_target(size, offset, SeekFrom::Current((-back) as i64)) < 0,
{
}

} // verus!
