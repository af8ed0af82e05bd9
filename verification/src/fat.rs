//! The per-directory allocation table.
//!
//! An `AllocationTable` is a fixed array of 256 packed 16-bit entries that
//! occupies exactly one sector. Entry 0 is reserved: a table is valid only if
//! it holds the table magic value there. Each other entry records the
//! allocation state of one slot: free, end of chain, bad, or used with a
//! 12-bit sector number.

use vstd::prelude::*;

use crate::codec::{read_le16, spec_le16, spec_lo16, spec_hi16, split_le16};
use crate::disk::{spec_sector_bytes, Disk};
use crate::errors::FileSystemError;
use crate::SECTOR_SIZE;

verus! {

/// Bit mask of the 4-bit type tag of a packed entry.
pub const ENTRY_TYPE_MASK: u16 = 0xF000;

/// Bit mask of the 12-bit sector payload of a packed entry.
pub const ENTRY_SECTOR_MASK: u16 = 0x0FFF;

/// Type tag of a free entry.
pub const ENTRY_TYPE_FREE: u16 = 0x0000;

/// Type tag of an end-of-chain entry.
pub const ENTRY_TYPE_EOF: u16 = 0x1000;

/// Type tag of a bad entry.
pub const ENTRY_TYPE_BAD: u16 = 0x2000;

/// Type tag of a used entry.
pub const ENTRY_TYPE_USED: u16 = 0x3000;

/// Magic value that occupies entry 0 of an initialized table.
pub const FAT_MAGIC: u16 = 0xF1A7;

/// Number of entries in one table; 256 two-byte entries fill one sector.
pub const FAT_ENTRY_COUNT: usize = 256;

/// One packed allocation entry: a 4-bit type tag and a 12-bit sector number.
#[derive(Debug, Clone, Copy, PartialEq, Eq, Structural)]
pub struct FATEntry(pub u16);

impl FATEntry {
    /// The type tag bits of the entry.
    pub open spec fn spec_type(self) -> u16 {
        self.0 & ENTRY_TYPE_MASK
    }

    /// The sector payload bits of the entry.
    pub open spec fn spec_sector(self) -> u16 {
        self.0 & ENTRY_SECTOR_MASK
    }

    /// Whether the entry is free.
    pub open spec fn spec_is_free(self) -> bool {
        self.spec_type() == ENTRY_TYPE_FREE
    }

    /// Whether the entry is used.
    pub open spec fn spec_is_used(self) -> bool {
        self.spec_type() == ENTRY_TYPE_USED
    }

    /// A fresh free entry.
    pub fn new_free() -> (r: FATEntry)
        ensures
            r.0 == ENTRY_TYPE_FREE,
            r.spec_is_free(),
    {
        proof {
            assert(0u16 & 0xF000u16 == 0u16) by (bit_vector);
        }
        FATEntry(ENTRY_TYPE_FREE)
    }

    /// A fresh end-of-chain entry.
    pub fn new_eof() -> (r: FATEntry)
        ensures
            r.0 == ENTRY_TYPE_EOF,
            r.spec_type() == ENTRY_TYPE_EOF,
    {
        proof {
            assert(0x1000u16 & 0xF000u16 == 0x1000u16) by (bit_vector);
        }
        FATEntry(ENTRY_TYPE_EOF)
    }

    /// A used entry recording `sector`; fails with `BadSector` when the
    /// sector number does not fit in 12 bits.
    pub fn new_used(sector: u16) -> (r: Result<FATEntry, FileSystemError>)
        ensures
            r is Ok <==> sector <= ENTRY_SECTOR_MASK,
            r matches Ok(e) ==> e.0 == (ENTRY_TYPE_USED | sector) && e.spec_is_used()
                && e.spec_sector() == sector,
            r is Err ==> r == Result::<FATEntry, FileSystemError>::Err(FileSystemError::BadSector),
    {
        if sector > ENTRY_SECTOR_MASK {
            return Err(FileSystemError::BadSector);
        }
        proof {
            lemma_used_entry_fields(sector);
        }
        Ok(FATEntry(ENTRY_TYPE_USED | (sector & ENTRY_SECTOR_MASK)))
    }

    /// The type tag bits of the entry.
    pub fn get_type(&self) -> (r: u16)
        ensures
            r == self.spec_type(),
    {
        self.0 & ENTRY_TYPE_MASK
    }

    /// The recorded sector of a used entry; any other entry has no sector and
    /// yields `UnusedSector`.
    pub fn get_sector(&self) -> (r: Result<u16, FileSystemError>)
        ensures
            r is Ok <==> self.spec_is_used(),
            r matches Ok(s) ==> s == self.spec_sector(),
            r is Err ==> r == Result::<u16, FileSystemError>::Err(FileSystemError::UnusedSector),
    {
        if self.is_used() {
            Ok(self.0 & ENTRY_SECTOR_MASK)
        } else {
            Err(FileSystemError::UnusedSector)
        }
    }

    /// Whether the entry is free.
    pub fn is_free(&self) -> (r: bool)
        ensures
            r == self.spec_is_free(),
    {
        self.get_type() == ENTRY_TYPE_FREE
    }

    /// Whether the entry is an end-of-chain marker.
    pub fn is_eof(&self) -> (r: bool)
        ensures
            r == (self.spec_type() == ENTRY_TYPE_EOF),
    {
        self.get_type() == ENTRY_TYPE_EOF
    }

    /// Whether the entry is used.
    pub fn is_used(&self) -> (r: bool)
        ensures
            r == self.spec_is_used(),
    {
        self.get_type() == ENTRY_TYPE_USED
    }

    /// Whether the entry is marked bad.
    pub fn is_bad(&self) -> (r: bool)
        ensures
            r == (self.spec_type() == ENTRY_TYPE_BAD),
    {
        self.get_type() == ENTRY_TYPE_BAD
    }

    /// The packed 16-bit representation of the entry.
    pub fn as_bin(&self) -> (r: u16)
        ensures
            r == self.0,
    {
        self.0
    }
}

/// Building a used entry from a 12-bit sector number and reading the sector
/// back is the identity, and the entry is neither free nor end-of-chain.
pub proof fn lemma_used_entry_fields(sector: u16)
    requires
        sector <= ENTRY_SECTOR_MASK,
    ensures
        FATEntry(ENTRY_TYPE_USED | (sector & ENTRY_SECTOR_MASK)).spec_is_used(),
        FATEntry(ENTRY_TYPE_USED | (sector & ENTRY_SECTOR_MASK)).spec_sector() == sector,
        ENTRY_TYPE_USED | (sector & ENTRY_SECTOR_MASK) == ENTRY_TYPE_USED | sector,
{
    assert((0x3000u16 | (sector & 0x0FFFu16)) & 0xF000u16 == 0x3000u16) by (bit_vector);
    assert(sector <= 0x0FFFu16 ==> (0x3000u16 | (sector & 0x0FFFu16)) & 0x0FFFu16 == sector)
        by (bit_vector);
    assert(sector <= 0x0FFFu16 ==> 0x3000u16 | (sector & 0x0FFFu16) == 0x3000u16 | sector)
        by (bit_vector);
}

/// The allocation table of one directory.
pub struct FAT {
    /// The 256 packed entries; entry 0 carries the magic value.
    pub entries: Vec<FATEntry>,
}

/// The byte image of a table: each entry as two little-endian bytes.
pub open spec fn spec_encode_fat(t: Seq<FATEntry>) -> Seq<u8> {
    Seq::new(512, |i: int| if i % 2 == 0 { spec_lo16(t[i / 2].0) } else { spec_hi16(t[i / 2].0) })
}

/// The table read back from one sector's bytes.
pub open spec fn spec_decode_fat(b: Seq<u8>) -> Seq<FATEntry> {
    Seq::new(256, |k: int| FATEntry(spec_le16(b[2 * k], b[2 * k + 1])))
}

/// The table stored at sector `lba` of a disk image.
pub open spec fn spec_fat_at(d: Seq<u8>, lba: int) -> Seq<FATEntry> {
    spec_decode_fat(spec_sector_bytes(d, lba, 1))
}

/// Whether a table model holds the magic value in entry 0.
pub open spec fn spec_fat_valid(t: Seq<FATEntry>) -> bool {
    t.len() == 256 && t[0].0 == FAT_MAGIC
}

/// The smallest free index of a table model, scanning from index 1; the
/// result is 256 when no entry is free.
pub open spec fn spec_first_free(t: Seq<FATEntry>, from: int) -> int
    decreases 256 - from,
{
    if from < 1 || from >= 256 {
        256
    } else if t[from].spec_is_free() {
        from
    } else {
        spec_first_free(t, from + 1)
    }
}

/// The sectors recorded by the used entries among the first `i` slots of a
/// table, in slot order: what reclaiming the table must return.
pub open spec fn spec_used_sectors_below(t: Seq<FATEntry>, i: int) -> Seq<u16>
    decreases i,
{
    if i <= 0 {
        Seq::empty()
    } else if t[i - 1].spec_is_used() {
        spec_used_sectors_below(t, i - 1).push(t[i - 1].spec_sector())
    } else {
        spec_used_sectors_below(t, i - 1)
    }
}

/// Decoding the byte image of a table yields the table back.
pub proof fn lemma_fat_roundtrip(t: Seq<FATEntry>)
    requires
        t.len() == 256,
    ensures
        spec_decode_fat(spec_encode_fat(t)) == t,
{
    let b = spec_encode_fat(t);
    assert forall|k: int| 0 <= k < 256 implies spec_decode_fat(b)[k] == t[k] by {
        assert(b[2 * k] == spec_lo16(t[k].0));
        assert(b[2 * k + 1] == spec_hi16(t[k].0));
        crate::codec::lemma_le16_roundtrip(t[k].0);
    }
    assert(spec_decode_fat(b) =~= t);
}

impl View for FAT {
    type V = Seq<FATEntry>;

    open spec fn view(&self) -> Seq<FATEntry> {
        self.entries@
    }
}

impl FAT {
    /// Structural well-formedness: exactly 256 entries.
    pub open spec fn wf(&self) -> bool {
        self@.len() == 256
    }

    /// A fresh table: magic in entry 0, every other entry free.
    pub fn new() -> (r: FAT)
        ensures
            r.wf(),
            spec_fat_valid(r@),
            forall|i: int| 1 <= i < 256 ==> r@[i].spec_is_free(),
    {
        let mut entries: Vec<FATEntry> = Vec::new();
        entries.push(FATEntry(FAT_MAGIC));
        let mut i: usize = 1;
        while i < FAT_ENTRY_COUNT
            invariant
                1 <= i <= 256,
                entries@.len() == i,
                entries@[0].0 == FAT_MAGIC,
                forall|j: int| 1 <= j < i ==> entries@[j].spec_is_free(),
            decreases FAT_ENTRY_COUNT - i,
        {
            entries.push(FATEntry::new_free());
            i += 1;
        }
        FAT { entries }
    }

    /// Whether entry 0 holds the table magic value.
    pub fn is_valid(&self) -> (r: bool)
        requires
            self.wf(),
        ensures
            r == spec_fat_valid(self@),
    {
        self.entries[0].as_bin() == FAT_MAGIC
    }

    /// The first free index, scanning from index 1 (index 0 is reserved);
    /// `OutOfSpace` when every slot from 1 on is taken.
    pub fn first_free_entry(&self) -> (r: Result<usize, FileSystemError>)
        requires
            self.wf(),
        ensures
            r is Ok <==> spec_first_free(self@, 1) < 256,
            r matches Ok(i) ==> i == spec_first_free(self@, 1) && 1 <= i < 256
                && self@[i as int].spec_is_free(),
            r is Err ==> r == Result::<usize, FileSystemError>::Err(FileSystemError::OutOfSpace),
    {
        proof {
            lemma_first_free_bounds(self@, 1);
        }
        let mut i: usize = 1;
        while i < FAT_ENTRY_COUNT
            invariant
                self.wf(),
                1 <= i <= 256,
                spec_first_free(self@, 1) >= i,
            decreases FAT_ENTRY_COUNT - i,
        {
            if self.entries[i].is_free() {
                proof {
                    lemma_first_free_bounds(self@, 1);
                }
                return Ok(i);
            }
            proof {
                lemma_first_free_bounds(self@, 1);
            }
            i += 1;
        }
        proof {
            lemma_first_free_bounds(self@, 1);
        }
        Err(FileSystemError::OutOfSpace)
    }

    /// Writes `entry` at the first free index; `OutOfSpace` when the table is
    /// full, leaving it unchanged.
    pub fn add_entry(&mut self, entry: FATEntry) -> (r: Result<(), FileSystemError>)
        requires
            old(self).wf(),
        ensures
            final(self).wf(),
            r is Ok <==> spec_first_free(old(self)@, 1) < 256,
            r is Ok ==> final(self)@ == old(self)@.update(spec_first_free(old(self)@, 1), entry),
            r is Err ==> *final(self) == *old(self) && r == Result::<(), FileSystemError>::Err(
                FileSystemError::OutOfSpace,
            ),
    {
        match self.first_free_entry() {
            Ok(index) => {
                self.entries[index] = entry;
                Ok(())
            },
            Err(e) => Err(e),
        }
    }

    /// Resets the slot at `index` to free. This is bookkeeping only: the
    /// underlying disk sector must be returned to the allocator separately.
    pub fn remove_entry(&mut self, index: u16) -> (r: Result<(), FileSystemError>)
        requires
            old(self).wf(),
            index < 256,
        ensures
            final(self).wf(),
            r is Ok,
            final(self)@ == old(self)@.update(index as int, FATEntry(ENTRY_TYPE_FREE)),
            final(self)@[index as int].spec_is_free(),
    {
        let free = FATEntry::new_free();
        self.entries[index as usize] = free;
        Ok(())
    }

    /// The one-sector byte image of the table.
    pub fn encode(&self) -> (r: Vec<u8>)
        requires
            self.wf(),
        ensures
            r@ == spec_encode_fat(self@),
            r@.len() == 512,
    {
        let mut v: Vec<u8> = Vec::new();
        let mut k: usize = 0;
        while k < FAT_ENTRY_COUNT
            invariant
                self.wf(),
                k <= 256,
                v@.len() == 2 * k,
                forall|j: int| 0 <= j < 2 * k ==> v@[j] == spec_encode_fat(self@)[j],
            decreases FAT_ENTRY_COUNT - k,
        {
            let (lo, hi) = split_le16(self.entries[k].as_bin());
            v.push(lo);
            v.push(hi);
            proof {
                assert(forall|j: int|
                    0 <= j < 2 * (k + 1) ==> v@[j] == spec_encode_fat(self@)[j]) by {
                    assert((2 * k as int) % 2 == 0 && (2 * k as int) / 2 == k as int);
                    assert((2 * k as int + 1) % 2 == 1 && (2 * k as int + 1) / 2 == k as int);
                };
            }
            k += 1;
        }
        proof {
            assert(v@ =~= spec_encode_fat(self@));
        }
        v
    }

    /// A table read back from one sector's bytes.
    pub fn decode(buffer: &Vec<u8>) -> (r: FAT)
        requires
            buffer@.len() == 512,
        ensures
            r.wf(),
            r@ == spec_decode_fat(buffer@),
    {
        let mut entries: Vec<FATEntry> = Vec::new();
        let mut k: usize = 0;
        while k < FAT_ENTRY_COUNT
            invariant
                buffer@.len() == 512,
                k <= 256,
                entries@.len() == k,
                forall|j: int| 0 <= j < k ==> entries@[j] == spec_decode_fat(buffer@)[j],
            decreases FAT_ENTRY_COUNT - k,
        {
            let raw = read_le16(buffer.as_slice(), 2 * k);
            entries.push(FATEntry(raw));
            k += 1;
        }
        proof {
            assert(entries@ =~= spec_decode_fat(buffer@));
        }
        FAT { entries }
    }

    /// Persists the table to the sector `lba` of the disk.
    pub fn save(&self, disk: &mut Disk, lba: u16) -> (r: Result<(), FileSystemError>)
        requires
            self.wf(),
        ensures
            r is Ok <==> old(disk).can_access(lba, 1),
            r is Ok ==> final(disk)@ == crate::disk::spec_write_bytes(
                old(disk)@,
                lba as int,
                spec_encode_fat(self@),
            ),
            r is Ok ==> spec_fat_at(final(disk)@, lba as int) == self@,
            r is Err ==> *final(disk) == *old(disk) && r == Result::<(), FileSystemError>::Err(
                FileSystemError::DiskNotAvailable,
            ),
            final(disk).enabled == old(disk).enabled,
            final(disk)@.len() == old(disk)@.len(),
    {
        let bytes = self.encode();
        let r = disk.write(lba, 1, bytes.as_slice());
        proof {
            if r is Ok {
                crate::disk::lemma_read_back_after_write(
                    old(disk)@,
                    lba as int,
                    spec_encode_fat(self@),
                    1,
                );
                lemma_fat_roundtrip(self@);
            }
        }
        r
    }

    /// Loads the table stored at sector `lba` of the disk. No validity check
    /// is made here; callers consult `is_valid` where the format demands it.
    pub fn load(disk: &Disk, lba: u16) -> (r: Result<FAT, FileSystemError>)
        ensures
            r is Ok <==> disk.can_access(lba, 1),
            r matches Ok(f) ==> f.wf() && f@ == spec_fat_at(disk@, lba as int),
            r is Err ==> r == Result::<FAT, FileSystemError>::Err(FileSystemError::DiskNotAvailable),
    {
        let buffer = match disk.read(lba, 1) {
            Ok(b) => b,
            Err(e) => {
                return Err(e);
            },
        };
        Ok(FAT::decode(&buffer))
    }
}

/// The first free index is never below `from` nor above 256, and every index
/// it skips is not free.
pub proof fn lemma_first_free_bounds(t: Seq<FATEntry>, from: int)
    requires
        1 <= from,
    ensures
        from <= spec_first_free(t, from) || spec_first_free(t, from) == 256,
        spec_first_free(t, from) <= 256,
        forall|j: int| from <= j < spec_first_free(t, from) ==> !t[j].spec_is_free(),
        spec_first_free(t, from) < 256 ==> t[spec_first_free(t, from)].spec_is_free(),
    decreases 256 - from,
{
    if from < 256 && !t[from].spec_is_free() {
        lemma_first_free_bounds(t, from + 1);
    }
}

} // verus!
