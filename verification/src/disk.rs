//! A sector-addressed block device held in memory.
//!
//! The filesystem reads and writes whole sectors through this type only. Its
//! mathematical view is the flat sequence of all bytes on the device; every
//! transfer is specified exactly against that sequence. A transfer fails with
//! `DiskNotAvailable` when the device is disabled or the requested range lies
//! beyond the end of the device (which is how space exhaustion surfaces).

use vstd::prelude::*;

use crate::errors::FileSystemError;
use crate::SECTOR_SIZE;

verus! {

/// The block device: a fixed array of bytes addressed by sector.
pub struct Disk {
    /// The raw bytes of the device, sector `l` occupying bytes `512*l ..
    /// 512*(l+1)`.
    pub data: Vec<u8>,
    /// Whether the device answers at all; a disabled device fails every
    /// transfer with `DiskNotAvailable`.
    pub enabled: bool,
}

/// The bytes of `d` replaced by `b` starting at byte offset `512 * lba`.
pub open spec fn spec_write_bytes(d: Seq<u8>, lba: int, b: Seq<u8>) -> Seq<u8> {
    Seq::new(d.len(), |i: int| if 512 * lba <= i < 512 * lba + b.len() { b[i - 512 * lba] } else { d[i] })
}

/// The `n` sectors of `d` starting at sector `lba`, as one byte sequence.
pub open spec fn spec_sector_bytes(d: Seq<u8>, lba: int, n: int) -> Seq<u8> {
    d.subrange(512 * lba, 512 * (lba + n))
}

/// Reading back the sectors a write just covered yields exactly the bytes
/// that were written.
pub proof fn lemma_read_back_after_write(d: Seq<u8>, lba: int, b: Seq<u8>, n: int)
    requires
        0 <= lba,
        0 <= n,
        b.len() == 512 * n,
        512 * (lba + n) <= d.len(),
    ensures
        spec_sector_bytes(spec_write_bytes(d, lba, b), lba, n) == b,
{
    assert(spec_sector_bytes(spec_write_bytes(d, lba, b), lba, n) =~= b);
}

/// A write leaves every sector range that does not overlap it unchanged.
pub proof fn lemma_write_frame(d: Seq<u8>, lba: int, b: Seq<u8>, olba: int, n: int)
    requires
        0 <= olba,
        0 <= n,
        512 * (olba + n) <= d.len(),
        (512 * (olba + n) <= 512 * lba) || (512 * lba + b.len() <= 512 * olba),
    ensures
        spec_sector_bytes(spec_write_bytes(d, lba, b), olba, n) == spec_sector_bytes(d, olba, n),
{
    assert(spec_sector_bytes(spec_write_bytes(d, lba, b), olba, n) =~= spec_sector_bytes(
        d,
        olba,
        n,
    ));
}

impl View for Disk {
    type V = Seq<u8>;

    open spec fn view(&self) -> Seq<u8> {
        self.data@
    }
}

impl Disk {
    /// Whether a transfer of `count` sectors starting at `lba` can succeed.
    pub open spec fn can_access(self, lba: u16, count: u16) -> bool {
        self.enabled && 512 * (lba + count) <= self@.len()
    }

    /// A fresh, enabled device of `sector_count` zeroed sectors.
    pub fn new(sector_count: u16) -> (r: Disk)
        ensures
            r.enabled,
            r@ == Seq::new(512 * sector_count as nat, |i: int| 0u8),
    {
        let data: Vec<u8> = vec![0u8; 512 * sector_count as usize];
        proof {
            assert(data@ =~= Seq::new(512 * sector_count as nat, |i: int| 0u8));
        }
        Disk { data, enabled: true }
    }

    /// An enabled device over an existing byte image.
    pub fn from_bytes(data: Vec<u8>) -> (r: Disk)
        ensures
            r.enabled,
            r@ == data@,
    {
        Disk { data, enabled: true }
    }

    /// The raw byte image of the device.
    pub fn bytes(&self) -> (r: &Vec<u8>)
        ensures
            r@ == self@,
    {
        &self.data
    }

    /// Whether a transfer of `count` sectors at `lba` would succeed, without
    /// performing it.
    pub fn accessible(&self, lba: u16, count: u16) -> (r: bool)
        ensures
            r == self.can_access(lba, count),
    {
        self.enabled && (lba as usize + count as usize) * SECTOR_SIZE <= self.data.len()
    }

    /// Availability probe: succeeds exactly when the device is enabled.
    pub fn check(&self) -> (r: Result<(), FileSystemError>)
        ensures
            r is Ok <==> self.enabled,
            r is Err ==> r == Result::<(), FileSystemError>::Err(FileSystemError::DiskNotAvailable),
    {
        if self.enabled {
            Ok(())
        } else {
            Err(FileSystemError::DiskNotAvailable)
        }
    }

    /// Reads `count` whole sectors starting at sector `lba`.
    pub fn read(&self, lba: u16, count: u16) -> (r: Result<Vec<u8>, FileSystemError>)
        ensures
            r is Ok <==> self.can_access(lba, count),
            r matches Ok(v) ==> v@ == spec_sector_bytes(self@, lba as int, count as int),
            r is Err ==> r == Result::<Vec<u8>, FileSystemError>::Err(FileSystemError::DiskNotAvailable),
    {
        let end: usize = (lba as usize + count as usize) * SECTOR_SIZE;
        if !self.enabled || end > self.data.len() {
            return Err(FileSystemError::DiskNotAvailable);
        }
        let start: usize = lba as usize * SECTOR_SIZE;
        let mut v: Vec<u8> = Vec::new();
        let mut i: usize = 0;
        let total: usize = count as usize * SECTOR_SIZE;
        while i < total
            invariant
                total == 512 * count as int,
                start == 512 * lba as int,
                start + total <= self.data.len(),
                i <= total,
                v@.len() == i,
                forall|j: int| 0 <= j < i ==> v@[j] == self.data@[start + j],
            decreases total - i,
        {
            v.push(self.data[start + i]);
            i += 1;
        }
        proof {
            assert(v@ =~= spec_sector_bytes(self@, lba as int, count as int));
        }
        Ok(v)
    }

    /// Writes `count` whole sectors starting at sector `lba`.
    pub fn write(&mut self, lba: u16, count: u16, buf: &[u8]) -> (r: Result<(), FileSystemError>)
        requires
            buf@.len() == 512 * count as int,
        ensures
            r is Ok <==> old(self).can_access(lba, count),
            r is Ok ==> final(self)@ == spec_write_bytes(old(self)@, lba as int, buf@),
            r is Err ==> *final(self) == *old(self) && r == Result::<(), FileSystemError>::Err(
                FileSystemError::DiskNotAvailable,
            ),
            final(self).enabled == old(self).enabled,
            final(self)@.len() == old(self)@.len(),
    {
        let end: usize = (lba as usize + count as usize) * SECTOR_SIZE;
        if !self.enabled || end > self.data.len() {
            return Err(FileSystemError::DiskNotAvailable);
        }
        let start: usize = lba as usize * SECTOR_SIZE;
        let mut i: usize = 0;
        while i < buf.len()
            invariant
                buf@.len() == 512 * count as int,
                start == 512 * lba as int,
                start + buf@.len() <= self.data.len(),
                i <= buf@.len(),
                self.data@.len() == old(self)@.len(),
                self.enabled == old(self).enabled,
                forall|j: int| start <= j < start + i ==> self.data@[j] == buf@[j - start],
                forall|j: int| 0 <= j < self.data@.len() && !(start <= j < start + i)
                    ==> self.data@[j] == old(self)@[j],
            decreases buf@.len() - i,
        {
            self.data[start + i] = buf[i];
            i += 1;
        }
        proof {
            assert(self@ =~= spec_write_bytes(old(self)@, lba as int, buf@));
        }
        Ok(())
    }
}

} // verus!
