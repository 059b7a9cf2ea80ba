//! The errors of the volume engine.

use vstd::prelude::*;
use vstd::std_specs::convert::FromSpecImpl;

verus! {

#[derive(Debug)]
pub enum Error {
    /// The master boot record could not be read or decoded.
    Mbr(crate::mbr::Error),
    /// The block device reported an error, or handed back less than a sector.
    Io(std::io::Error),
    /// The boot sector of the partition does not end in the boot signature.
    BadSignature,
    /// The disk holds no FAT32 partition, or a directory holds no entry of
    /// the name that was looked up.
    NotFound,
    /// The volume contradicts itself: a cluster chain runs into an entry
    /// that is free, reserved or bad, or never ends.
    InvalidData,
    /// The caller asked for something that cannot be: a seek outside the
    /// file, or a path that goes through a file.
    InvalidInput,
    /// The request would change the volume, which is read-only.
    Unsupported,
}

impl Error {
    /// The error came from the block device, not from what the volume holds.
    pub open spec fn is_io(self) -> bool {
        self is Io || (self matches Error::Mbr(e) && e is Io)
    }
}

/// Calls `std::io::Error::from` on `ErrorKind::UnexpectedEof`, which makes
/// the error that stands for a device that handed back less than a sector.
/// Nothing is claimed of the value.
#[verifier::external_body]
pub(crate) fn short_read() -> std::io::Error {
    std::io::Error::from(std::io::ErrorKind::UnexpectedEof)
}

impl From<crate::mbr::Error> for Error {
    fn from(e: crate::mbr::Error) -> (r: Error) {
        Error::Mbr(e)
    }
}

impl FromSpecImpl<crate::mbr::Error> for Error {
    open spec fn obeys_from_spec() -> bool {
        true
    }

    open spec fn from_spec(e: crate::mbr::Error) -> Error {
        Error::Mbr(e)
    }
}

impl From<std::io::Error> for Error {
    fn from(e: std::io::Error) -> (r: Error) {
        Error::Io(e)
    }
}

impl FromSpecImpl<std::io::Error> for Error {
    open spec fn obeys_from_spec() -> bool {
        true
    }

    open spec fn from_spec(e: std::io::Error) -> Error {
        Error::Io(e)
    }
}

} // verus!
