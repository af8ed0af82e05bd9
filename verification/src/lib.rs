//! A verified FAT-style filesystem core: a sector allocator, per-directory
//! allocation tables, fixed-capacity directory records, and an orchestrating
//! API that resolves paths and performs file and directory operations against
//! a sector-addressed block device.

use vstd::prelude::*;

pub mod allocator;
pub mod api;
pub mod codec;
pub mod directory;
pub mod disk;
pub mod errors;
pub mod fat;

verus! {

/// Size in bytes of one disk sector, the minimum unit of I/O.
pub const SECTOR_SIZE: usize = 512;

/// Packs text into one sector image: the bytes of `data`, zero-padded to a
/// full sector.
pub fn to_buffer(data: &[u8]) -> (r: Vec<u8>)
    requires
        data@.len() <= 512,
    ensures
        r@.len() == 512,
        forall|i: int| 0 <= i < data@.len() ==> r@[i] == data@[i],
        forall|i: int| data@.len() <= i < 512 ==> r@[i] == 0,
{
    let mut out: Vec<u8> = Vec::new();
    let mut i: usize = 0;
    while i < SECTOR_SIZE
        invariant
            data@.len() <= 512,
            i <= 512,
            out@.len() == i,
            forall|j: int| 0 <= j < i && j < data@.len() ==> out@[j] == data@[j],
            forall|j: int| data@.len() <= j < i ==> out@[j] == 0,
        decreases SECTOR_SIZE - i,
    {
        if i < data.len() {
            out.push(data[i]);
        } else {
            out.push(0u8);
        }
        i += 1;
    }
    out
}

} // verus!
