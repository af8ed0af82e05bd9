//! The global sector allocator.
//!
//! Free sectors are handed out from a stack of reclaimed sector numbers
//! (most recently freed first) and, when that stack is empty, from a
//! monotonically increasing watermark. The allocator persists itself in one
//! dedicated sector as a magic value, the watermark, and the packed freed
//! list. The allocation invariant: a sector is either below the watermark and
//! not in the freed list (allocated), in the freed list (reusable), or at or
//! above the watermark (never handed out).

use vstd::prelude::*;

use crate::codec::{read_le16, spec_le16, spec_lo16, spec_hi16, split_le16};
use crate::disk::{spec_sector_bytes, Disk};
use crate::errors::FileSystemError;

verus! {

/// First sector past the fixed metadata region; the watermark starts here.
pub const FIRST_USABLE_SECTOR: u16 = 21;

/// Sector holding the persisted allocator state.
pub const ALLOCATOR_SECTOR: u16 = 19;

/// Sector holding the root directory's allocation table.
pub const ROOT_FAT_SECTOR: u16 = 20;

/// Sector where the root directory record begins.
pub const ROOT_DIR_SECTOR: u16 = 0;

/// Magic value heading the allocator's persisted sector.
pub const ALLOCATOR_MAGIC: u16 = 0x22;

/// How many freed sector numbers fit in the persisted sector after the
/// magic value and the watermark.
pub const MAX_PERSISTED_FREED: usize = 254;

/// The global sector allocator: a watermark plus a stack of freed sectors.
pub struct SectorAllocator {
    /// The watermark: the next never-allocated sector.
    pub next_free: u16,
    /// Reclaimed sectors, reused most recently freed first.
    pub freed_sectors: Vec<u16>,
}

/// The persisted byte image of allocator state: magic, watermark, then the
/// first 254 freed sectors, all little-endian, zero-padded to one sector.
pub open spec fn spec_encode_alloc(next_free: u16, freed: Seq<u16>) -> Seq<u8> {
    Seq::new(512, |i: int|
        if i == 0 {
            spec_lo16(ALLOCATOR_MAGIC)
        } else if i == 1 {
            spec_hi16(ALLOCATOR_MAGIC)
        } else if i == 2 {
            spec_lo16(next_free)
        } else if i == 3 {
            spec_hi16(next_free)
        } else if i < 4 + 2 * freed.len() && i < 512 {
            if (i - 4) % 2 == 0 {
                spec_lo16(freed[(i - 4) / 2])
            } else {
                spec_hi16(freed[(i - 4) / 2])
            }
        } else {
            0u8
        })
}

/// The freed list read back from slots `k..254` of a persisted sector:
/// nonzero values in order, zero slots skipped.
pub open spec fn spec_decode_freed(b: Seq<u8>, k: int) -> Seq<u16>
    decreases 254 - k,
{
    if k < 0 || k >= 254 {
        Seq::empty()
    } else if spec_le16(b[4 + 2 * k], b[5 + 2 * k]) == 0 {
        spec_decode_freed(b, k + 1)
    } else {
        seq![spec_le16(b[4 + 2 * k], b[5 + 2 * k])] + spec_decode_freed(b, k + 1)
    }
}

/// Whether a persisted sector carries the allocator magic value.
pub open spec fn spec_alloc_magic_ok(b: Seq<u8>) -> bool {
    spec_le16(b[0], b[1]) == ALLOCATOR_MAGIC
}

/// The watermark recorded in a persisted sector.
pub open spec fn spec_alloc_watermark(b: Seq<u8>) -> u16 {
    spec_le16(b[2], b[3])
}

/// Decoding the image of a freed list of at most 254 nonzero sectors yields
/// the list back.
pub proof fn lemma_alloc_freed_roundtrip(next_free: u16, freed: Seq<u16>, k: int)
    requires
        freed.len() <= 254,
        forall|i: int| 0 <= i < freed.len() ==> freed[i] != 0,
        0 <= k <= freed.len(),
    ensures
        spec_decode_freed(spec_encode_alloc(next_free, freed), k) == freed.skip(k),
    decreases 254 - k,
{
    let b = spec_encode_alloc(next_free, freed);
    if k >= 254 {
        assert(freed.skip(k) =~= Seq::empty());
    } else if k < freed.len() {
        assert(b[4 + 2 * k] == spec_lo16(freed[k]));
        assert(b[5 + 2 * k] == spec_hi16(freed[k]));
        crate::codec::lemma_le16_roundtrip(freed[k]);
        lemma_alloc_freed_roundtrip(next_free, freed, k + 1);
        assert(freed.skip(k) =~= seq![freed[k]] + freed.skip(k + 1));
    } else {
        // Every remaining slot is zero padding.
        lemma_decode_freed_of_zeros(b, k, freed.len() as int);
        assert(freed.skip(k) =~= Seq::empty());
    }
}

/// Allocator state written to its sector image and read back is unchanged:
/// the image validates, and watermark and freed list come back exactly, for
/// any state the allocation invariant admits (at most 254 freed sectors fit
/// the persisted form).
pub proof fn lemma_alloc_image_roundtrip(next_free: u16, freed: Seq<u16>)
    requires
        freed.len() <= 254,
        forall|i: int| 0 <= i < freed.len() ==> freed[i] != 0,
    ensures
        spec_alloc_magic_ok(spec_encode_alloc(next_free, freed)),
        spec_alloc_watermark(spec_encode_alloc(next_free, freed)) == next_free,
        spec_decode_freed(spec_encode_alloc(next_free, freed), 0) == freed,
{
    let b = spec_encode_alloc(next_free, freed);
    crate::codec::lemma_le16_roundtrip(ALLOCATOR_MAGIC);
    crate::codec::lemma_le16_roundtrip(next_free);
    assert(b[0] == spec_lo16(ALLOCATOR_MAGIC) && b[1] == spec_hi16(ALLOCATOR_MAGIC));
    assert(b[2] == spec_lo16(next_free) && b[3] == spec_hi16(next_free));
    lemma_alloc_freed_roundtrip(next_free, freed, 0);
    assert(freed.skip(0) =~= freed);
}

/// Slots that hold only zeros decode to the empty freed list.
proof fn lemma_decode_freed_of_zeros(b: Seq<u8>, k: int, from: int)
    requires
        0 <= from <= k,
        forall|i: int| 4 + 2 * from <= i < 512 && 0 <= i < b.len() ==> b[i] == 0,
        b.len() == 512,
    ensures
        spec_decode_freed(b, k) == Seq::<u16>::empty(),
    decreases 254 - k,
{
    if 0 <= k < 254 {
        assert(b[4 + 2 * k] == 0 && b[5 + 2 * k] == 0);
        assert(spec_le16(0, 0) == 0);
        lemma_decode_freed_of_zeros(b, k + 1, from);
    }
}

/// Freeing two sectors and then allocating twice returns them most recently
/// freed first: the freed list is a stack.
pub proof fn lemma_freed_stack_order(freed: Seq<u16>, a: u16, b: u16)
    ensures
        freed.push(a).push(b).last() == b,
        freed.push(a).push(b).drop_last() == freed.push(a),
        freed.push(a).last() == a,
        freed.push(a).drop_last() == freed,
{
    assert(freed.push(a).push(b).drop_last() =~= freed.push(a));
    assert(freed.push(a).drop_last() =~= freed);
}

/// A sequence is its own full-length prefix.
pub proof fn lemma_take_full(s: Seq<u16>)
    ensures
        s.take(s.len() as int) == s,
{
    assert(s.take(s.len() as int) =~= s);
}

/// Pushing onto a sequence leaves its prefixes unchanged.
pub proof fn lemma_take_push(s: Seq<u16>, x: u16, n: int)
    requires
        0 <= n <= s.len(),
    ensures
        s.push(x).take(n) == s.take(n),
{
    assert(s.push(x).take(n) =~= s.take(n));
}

/// Appending to a sequence leaves its prefixes unchanged.
pub proof fn lemma_take_concat(s: Seq<u16>, t: Seq<u16>, n: int)
    requires
        0 <= n <= s.len(),
    ensures
        (s + t).take(n) == s.take(n),
{
    assert((s + t).take(n) =~= s.take(n));
}

/// A sequence that extends `t` as a prefix shares every shorter prefix of
/// `t`.
pub proof fn lemma_take_chain(s: Seq<u16>, t: Seq<u16>, n: int)
    requires
        0 <= n <= t.len(),
        t.len() <= s.len(),
        s.take(t.len() as int) == t,
    ensures
        s.take(n) == t.take(n),
{
    assert(forall|i: int| 0 <= i < t.len() ==> s[i] == #[trigger] t[i]) by {
        assert(forall|i: int| 0 <= i < t.len() ==> #[trigger] t[i] == s.take(t.len() as int)[i]);
    }
    assert(s.take(n) =~= t.take(n));
}

impl SectorAllocator {
    /// The allocation invariant on the in-memory state: every freed sector is
    /// nonzero (zero is the terminator in the persisted form) and lies below
    /// the watermark, and the watermark never retreats into the metadata
    /// region.
    pub open spec fn wf(&self) -> bool {
        &&& self.next_free >= FIRST_USABLE_SECTOR
        &&& forall|i: int| 0 <= i < self.freed_sectors@.len() ==> 0 < #[trigger] self.freed_sectors@[i]
            < self.next_free
    }

    /// A fresh allocator: watermark at the first usable sector, nothing freed.
    pub fn new() -> (r: SectorAllocator)
        ensures
            r.wf(),
            r.next_free == FIRST_USABLE_SECTOR,
            r.freed_sectors@ == Seq::<u16>::empty(),
    {
        let r = SectorAllocator { next_free: FIRST_USABLE_SECTOR, freed_sectors: Vec::new() };
        proof {
            assert(r.freed_sectors@ =~= Seq::<u16>::empty());
        }
        r
    }

    /// The sector the next `get_free_sector` call will return, without
    /// reserving it.
    pub fn peek_free_sector(&self) -> (r: u16)
        requires
            self.wf(),
        ensures
            r == (if self.freed_sectors@.len() > 0 {
                self.freed_sectors@.last()
            } else {
                self.next_free
            }),
    {
        if self.freed_sectors.len() > 0 {
            self.freed_sectors[self.freed_sectors.len() - 1]
        } else {
            self.next_free
        }
    }

    /// Reserves one sector: the most recently freed when any is available
    /// (LIFO reuse), otherwise the watermark, which then advances.
    pub fn get_free_sector(&mut self) -> (r: u16)
        requires
            old(self).wf(),
            old(self).next_free < 0xFFFF,
        ensures
            final(self).wf(),
            old(self).freed_sectors@.len() > 0 ==> r == old(self).freed_sectors@.last()
                && final(self).freed_sectors@ == old(self).freed_sectors@.drop_last()
                && final(self).next_free == old(self).next_free,
            old(self).freed_sectors@.len() == 0 ==> r == old(self).next_free
                && final(self).next_free == old(self).next_free + 1
                && final(self).freed_sectors@ == old(self).freed_sectors@,
            r < final(self).next_free,
    {
        if self.freed_sectors.len() > 0 {
            let r = match self.freed_sectors.pop() {
                Some(s) => s,
                None => 0,  // unreachable: the stack is nonempty
            };
            return r;
        }
        self.get_free_sectors(1)
    }

    /// Reserves `count` contiguous fresh sectors from the watermark, never
    /// consulting the freed list (contiguity cannot come from a sparse list).
    pub fn get_free_sectors(&mut self, count: u16) -> (r: u16)
        requires
            old(self).wf(),
            old(self).next_free + count <= 0xFFFF,
        ensures
            final(self).wf(),
            r == old(self).next_free,
            final(self).next_free == old(self).next_free + count,
            final(self).freed_sectors@ == old(self).freed_sectors@,
    {
        self.next_free += count;
        self.next_free - count
    }

    /// Returns `sector` to the freed stack. Only an allocated sector — one
    /// below the watermark and outside the metadata terminator value zero —
    /// may be freed, preserving the allocation invariant.
    pub fn free(&mut self, sector: u16)
        requires
            old(self).wf(),
            0 < sector < old(self).next_free,
        ensures
            final(self).wf(),
            final(self).freed_sectors@ == old(self).freed_sectors@.push(sector),
            final(self).next_free == old(self).next_free,
    {
        self.freed_sectors.push(sector);
    }

    /// Returns a directory's full eight-sector span to the freed stack.
    pub fn free_directory(&mut self, sector: u16)
        requires
            old(self).wf(),
            0 < sector,
            sector + 8 <= old(self).next_free,
        ensures
            final(self).wf(),
            final(self).freed_sectors@ == old(self).freed_sectors@ + Seq::new(8, |i: int| (sector
                + i) as u16),
            final(self).next_free == old(self).next_free,
    {
        let mut offset: u16 = 0;
        while offset < 8
            invariant
                old(self).wf(),
                self.wf(),
                0 < sector,
                sector + 8 <= self.next_free,
                self.next_free == old(self).next_free,
                offset <= 8,
                self.freed_sectors@ == old(self).freed_sectors@ + Seq::new(
                    offset as nat,
                    |i: int| (sector + i) as u16,
                ),
            decreases 8 - offset,
        {
            self.freed_sectors.push(sector + offset);
            proof {
                assert(self.freed_sectors@ =~= old(self).freed_sectors@ + Seq::new(
                    offset as nat + 1,
                    |i: int| (sector + i) as u16,
                ));
            }
            offset += 1;
        }
    }

    /// The one-sector persisted image: magic, watermark, then the freed list
    /// (its first 254 entries; later entries do not fit and are dropped).
    pub fn to_bitmap(&self) -> (r: Vec<u8>)
        requires
            self.wf(),
        ensures
            r@.len() == 512,
            self.freed_sectors@.len() <= 254 ==> r@ == spec_encode_alloc(
                self.next_free,
                self.freed_sectors@,
            ),
            self.freed_sectors@.len() > 254 ==> r@ == spec_encode_alloc(
                self.next_free,
                self.freed_sectors@.take(254),
            ),
    {
        let ghost kept: Seq<u16> = if self.freed_sectors@.len() <= 254 {
            self.freed_sectors@
        } else {
            self.freed_sectors@.take(254)
        };
        let mut v: Vec<u8> = Vec::new();
        let (m0, m1) = split_le16(ALLOCATOR_MAGIC);
        v.push(m0);
        v.push(m1);
        let (n0, n1) = split_le16(self.next_free);
        v.push(n0);
        v.push(n1);
        let count: usize = if self.freed_sectors.len() <= MAX_PERSISTED_FREED {
            self.freed_sectors.len()
        } else {
            MAX_PERSISTED_FREED
        };
        let mut k: usize = 0;
        while k < count
            invariant
                self.wf(),
                count == kept.len(),
                count <= 254,
                kept == (if self.freed_sectors@.len() <= 254 {
                    self.freed_sectors@
                } else {
                    self.freed_sectors@.take(254)
                }),
                k <= count,
                v@.len() == 4 + 2 * k,
                forall|j: int| 0 <= j < 4 + 2 * k ==> v@[j] == spec_encode_alloc(
                    self.next_free,
                    kept,
                )[j],
            decreases count - k,
        {
            let (lo, hi) = split_le16(self.freed_sectors[k]);
            v.push(lo);
            v.push(hi);
            proof {
                assert(kept[k as int] == self.freed_sectors@[k as int]);
                assert((2 * k as int) % 2 == 0 && (2 * k as int) / 2 == k as int);
                assert((2 * k as int + 1) % 2 == 1 && (2 * k as int + 1) / 2 == k as int);
            }
            k += 1;
        }
        let mut pad: usize = 4 + 2 * count;
        while pad < 512
            invariant
                self.wf(),
                count == kept.len(),
                count <= 254,
                kept == (if self.freed_sectors@.len() <= 254 {
                    self.freed_sectors@
                } else {
                    self.freed_sectors@.take(254)
                }),
                4 + 2 * count <= pad <= 512,
                v@.len() == pad,
                forall|j: int| 0 <= j < pad ==> v@[j] == spec_encode_alloc(self.next_free, kept)[j],
            decreases 512 - pad,
        {
            v.push(0u8);
            pad += 1;
        }
        proof {
            assert(v@ =~= spec_encode_alloc(self.next_free, kept));
        }
        v
    }

    /// Reads allocator state back from a persisted sector. Fails with
    /// `InvalidSectorAllocator` when the magic value is absent or the
    /// recorded state breaks the allocation invariant, so that the caller
    /// reinitializes a fresh allocator rather than trusting partial data.
    pub fn from_bitmap(buffer: &Vec<u8>) -> (r: Result<SectorAllocator, FileSystemError>)
        requires
            buffer@.len() == 512,
        ensures
            r matches Ok(a) ==> a.wf() && a.next_free == spec_alloc_watermark(buffer@)
                && a.freed_sectors@ == spec_decode_freed(buffer@, 0) && spec_alloc_magic_ok(
                buffer@,
            ),
            r is Err ==> r == Result::<SectorAllocator, FileSystemError>::Err(
                FileSystemError::InvalidSectorAllocator,
            ),
            (spec_alloc_magic_ok(buffer@) && spec_alloc_watermark(buffer@) >= FIRST_USABLE_SECTOR
                && (forall|i: int| 0 <= i < spec_decode_freed(buffer@, 0).len()
                ==> #[trigger] spec_decode_freed(buffer@, 0)[i] < spec_alloc_watermark(buffer@)))
                <==> r is Ok,
    {
        if read_le16(buffer.as_slice(), 0) != ALLOCATOR_MAGIC {
            return Err(FileSystemError::InvalidSectorAllocator);
        }
        let next_free = read_le16(buffer.as_slice(), 2);
        if next_free < FIRST_USABLE_SECTOR {
            return Err(FileSystemError::InvalidSectorAllocator);
        }
        let mut freed: Vec<u16> = Vec::new();
        let mut k: usize = 0;
        while k < MAX_PERSISTED_FREED
            invariant
                buffer@.len() == 512,
                next_free == spec_alloc_watermark(buffer@),
                k <= 254,
                spec_decode_freed(buffer@, 0) == freed@ + spec_decode_freed(buffer@, k as int),
                forall|i: int| 0 <= i < freed@.len() ==> 0 < #[trigger] freed@[i] < next_free,
            decreases MAX_PERSISTED_FREED - k,
        {
            let s = read_le16(buffer.as_slice(), 4 + 2 * k);
            if s != 0 {
                if s >= next_free {
                    proof {
                        assert(spec_decode_freed(buffer@, k as int) == seq![s]
                            + spec_decode_freed(buffer@, k as int + 1));
                        assert(spec_decode_freed(buffer@, 0)[freed@.len() as int] == s);
                    }
                    return Err(FileSystemError::InvalidSectorAllocator);
                }
                freed.push(s);
                proof {
                    assert(spec_decode_freed(buffer@, 0) =~= freed@ + spec_decode_freed(
                        buffer@,
                        k as int + 1,
                    ));
                }
            } else {
                proof {
                    assert(spec_decode_freed(buffer@, k as int) == spec_decode_freed(
                        buffer@,
                        k as int + 1,
                    ));
                }
            }
            k += 1;
        }
        proof {
            assert(spec_decode_freed(buffer@, 254) == Seq::<u16>::empty());
            assert(freed@ =~= spec_decode_freed(buffer@, 0));
        }
        Ok(SectorAllocator { next_free, freed_sectors: freed })
    }

    /// Persists the allocator to its dedicated sector.
    pub fn save(&self, disk: &mut Disk) -> (r: Result<(), FileSystemError>)
        requires
            self.wf(),
        ensures
            r is Ok <==> old(disk).can_access(ALLOCATOR_SECTOR, 1),
            r is Ok && self.freed_sectors@.len() <= 254 ==> final(disk)@ == crate::disk::spec_write_bytes(
                old(disk)@,
                ALLOCATOR_SECTOR as int,
                spec_encode_alloc(self.next_free, self.freed_sectors@),
            ),
            r is Ok && self.freed_sectors@.len() > 254 ==> final(disk)@ == crate::disk::spec_write_bytes(
                old(disk)@,
                ALLOCATOR_SECTOR as int,
                spec_encode_alloc(self.next_free, self.freed_sectors@.take(254)),
            ),
            r is Err ==> *final(disk) == *old(disk) && r == Result::<(), FileSystemError>::Err(
                FileSystemError::DiskNotAvailable,
            ),
            final(disk).enabled == old(disk).enabled,
            final(disk)@.len() == old(disk)@.len(),
    {
        let buff = self.to_bitmap();
        disk.write(ALLOCATOR_SECTOR, 1, buff.as_slice())
    }

    /// Loads allocator state from its dedicated sector: it succeeds exactly
    /// when the sector is readable and its image carries the magic value and
    /// a state the allocation invariant admits.
    pub fn load(disk: &Disk) -> (r: Result<SectorAllocator, FileSystemError>)
        ensures
            !disk.can_access(ALLOCATOR_SECTOR, 1) ==> r == Result::<
                SectorAllocator,
                FileSystemError,
            >::Err(FileSystemError::DiskNotAvailable),
            r matches Ok(a) ==> disk.can_access(ALLOCATOR_SECTOR, 1) && a.wf() && a.next_free
                == spec_alloc_watermark(spec_sector_bytes(disk@, ALLOCATOR_SECTOR as int, 1))
                && a.freed_sectors@ == spec_decode_freed(
                spec_sector_bytes(disk@, ALLOCATOR_SECTOR as int, 1),
                0,
            ),
            disk.can_access(ALLOCATOR_SECTOR, 1) && r is Err ==> r == Result::<
                SectorAllocator,
                FileSystemError,
            >::Err(FileSystemError::InvalidSectorAllocator),
            ({
                let b = spec_sector_bytes(disk@, ALLOCATOR_SECTOR as int, 1);
                (disk.can_access(ALLOCATOR_SECTOR, 1) && spec_alloc_magic_ok(b)
                    && spec_alloc_watermark(b) >= FIRST_USABLE_SECTOR && (forall|i: int|
                    0 <= i < spec_decode_freed(b, 0).len() ==> #[trigger] spec_decode_freed(
                    b,
                    0,
                )[i] < spec_alloc_watermark(b))) <==> r is Ok
            }),
    {
        let tmp = match disk.read(ALLOCATOR_SECTOR, 1) {
            Ok(b) => b,
            Err(e) => {
                return Err(e);
            },
        };
        Self::from_bitmap(&tmp)
    }

    /// Loads the persisted allocator; an invalid image is replaced by a
    /// fresh allocator, saved back at once. Only device failure is an error:
    /// a valid image mounts exactly as stored with the device untouched, an
    /// invalid one yields a fresh allocator whose image replaces it.
    pub fn load_or_create(disk: &mut Disk) -> (r: Result<SectorAllocator, FileSystemError>)
        ensures
            r is Ok <==> old(disk).can_access(ALLOCATOR_SECTOR, 1),
            r matches Ok(a) ==> a.wf(),
            r is Err ==> r == Result::<SectorAllocator, FileSystemError>::Err(
                FileSystemError::DiskNotAvailable,
            ),
            final(disk).enabled == old(disk).enabled,
            final(disk)@.len() == old(disk)@.len(),
            final(disk)@ == old(disk)@ || final(disk)@ == crate::disk::spec_write_bytes(
                old(disk)@,
                ALLOCATOR_SECTOR as int,
                spec_encode_alloc(FIRST_USABLE_SECTOR, Seq::<u16>::empty()),
            ),
            r matches Ok(a) ==> ({
                let b = spec_sector_bytes(old(disk)@, ALLOCATOR_SECTOR as int, 1);
                if spec_alloc_magic_ok(b) && spec_alloc_watermark(b) >= FIRST_USABLE_SECTOR && (
                forall|i: int| 0 <= i < spec_decode_freed(b, 0).len()
                    ==> #[trigger] spec_decode_freed(b, 0)[i] < spec_alloc_watermark(b)) {
                    a.next_free == spec_alloc_watermark(b) && a.freed_sectors@
                        == spec_decode_freed(b, 0) && final(disk)@ == old(disk)@
                } else {
                    a.next_free == FIRST_USABLE_SECTOR && a.freed_sectors@.len() == 0
                        && final(disk)@ == crate::disk::spec_write_bytes(
                        old(disk)@,
                        ALLOCATOR_SECTOR as int,
                        spec_encode_alloc(FIRST_USABLE_SECTOR, Seq::<u16>::empty()),
                    )
                }
            }),
    {
        match Self::load(disk) {
            Ok(allocator) => Ok(allocator),
            Err(FileSystemError::InvalidSectorAllocator) => {
                let allocator = SectorAllocator::new();
                match allocator.save(disk) {
                    Ok(()) => Ok(allocator),
                    Err(e) => Err(e),
                }
            },
            Err(e) => Err(e),
        }
    }
}

} // verus!
