//! What the driver asks of the disk under it.

use vstd::prelude::*;

verus! {

/// The error of the standard library's I/O, as devices report it. The
/// driver hands such errors on and never looks inside one.
#[verifier::external_type_specification]
#[verifier::external_body]
pub struct ExIoError(std::io::Error);

/// A device that is read one sector at a time.
///
/// The driver trusts two things of an implementation: that the size of a
/// sector never changes, and that a read leaves the length of the buffer
/// alone. It trusts nothing of the bytes that a read hands back, nor that a
/// read succeeds.
///
/// An implementation in unverified code writes `sector_bytes` as an
/// ordinary method that returns what `sector_size` returns.
pub trait BlockDevice {
    /// The number of bytes in one sector of the device.
    spec fn sector_bytes(&self) -> u64;

    /// Sector size in bytes.
    fn sector_size(&self) -> (n: u64)
        ensures
            n == self.sector_bytes(),
    ;

    /// Read sector number `n` into `buf`.
    ///
    /// `self.sector_size()` or `buf.len()` bytes, whichever is less, are
    /// read into the front of `buf`. The number of bytes read is returned.
    ///
    /// # Errors
    ///
    /// Returns an error if seeking or reading from `self` fails.
    fn read_sector(&mut self, n: u64, buf: &mut [u8]) -> (r: Result<usize, std::io::Error>)
        ensures
            final(self).sector_bytes() == old(self).sector_bytes(),
            final(buf)@.len() == old(buf)@.len(),
    ;
}

} // verus!
