//! Directory records and their entries.
//!
//! A directory is a header (a 32-bit magic value and the sector of the
//! directory's own allocation table) followed by a fixed array of 253
//! fixed-width entries; the whole record spans eight sectors on disk. An
//! entry names one child with up to 13 name bytes (zero-padded, truncated on
//! overflow), the child's slot in the owning directory's allocation table (or
//! a sector pointer for subdirectories), and a type byte. A slot whose name
//! bytes are all zero is empty and free for reuse. Name comparison is exact,
//! byte for byte.

use vstd::prelude::*;

use crate::codec::{
    read_le16, read_le32, spec_byte32, spec_le16, spec_le32, spec_lo16, spec_hi16, split_le16,
    split_le32,
};
use crate::disk::{spec_sector_bytes, Disk};
use crate::errors::FileSystemError;

verus! {

/// Entry type byte of a subdirectory.
pub const DIR_ENTRY_TYPE: u8 = 0x10;

/// Entry type byte of a regular file.
pub const FILE_ENTRY_TYPE: u8 = 0x05;

/// Magic value carried in the header of every valid directory record.
pub const DIRECTORY_MAGIC: u32 = 0xdead;

/// Number of entry slots in one directory record.
pub const DIR_ENTRY_COUNT: usize = 253;

/// Capacity in bytes of an entry's name field.
pub const NAME_CAPACITY: usize = 13;

/// Number of sectors spanned by one directory record on disk.
pub const DIR_SECTOR_SPAN: u16 = 8;

/// Size in bytes of one directory record on disk.
pub const DIR_BYTES: usize = 4096;

/// Size in bytes of one encoded directory entry.
pub const ENTRY_BYTES: usize = 16;

/// Byte offset of the entry array inside an encoded directory record.
pub const ENTRIES_OFFSET: usize = 6;

/// One directory entry, naming one child of a directory.
#[derive(Debug)]
pub struct DirEntry {
    /// The name, zero-padded to 13 bytes; all-zero means the slot is empty.
    pub filename: Vec<u8>,
    /// Slot in the owning directory's allocation table for files; starting
    /// sector of the child record for subdirectories.
    pub first_cluster: u16,
    /// `FILE_ENTRY_TYPE` or `DIR_ENTRY_TYPE`.
    pub entry_type: u8,
}

/// The mathematical model of a directory entry.
#[verifier::ext_equal]
pub ghost struct DirEntryView {
    pub filename: Seq<u8>,
    pub first_cluster: u16,
    pub entry_type: u8,
}

/// The mathematical model of a directory record.
#[verifier::ext_equal]
pub ghost struct DirectoryView {
    pub magic: u32,
    pub fat_sector: u16,
    pub entries: Seq<DirEntryView>,
}

impl View for DirEntry {
    type V = DirEntryView;

    open spec fn view(&self) -> DirEntryView {
        DirEntryView {
            filename: self.filename@,
            first_cluster: self.first_cluster,
            entry_type: self.entry_type,
        }
    }
}

/// The index of the first zero byte of `f` at or after `from`, or `f.len()`
/// when none follows.
pub open spec fn spec_name_end(f: Seq<u8>, from: int) -> int
    decreases f.len() - from,
{
    if from < 0 || from >= f.len() {
        f.len() as int
    } else if f[from] == 0 {
        from
    } else {
        spec_name_end(f, from + 1)
    }
}

/// The name stored in a name field: its bytes up to the first zero.
pub open spec fn spec_name_of(f: Seq<u8>) -> Seq<u8> {
    f.subrange(0, spec_name_end(f, 0))
}

/// Whether a name field marks an empty slot: every byte zero.
pub open spec fn spec_slot_empty(f: Seq<u8>) -> bool {
    forall|j: int| 0 <= j < f.len() ==> f[j] == 0
}

/// A name field holding the first 13 bytes of `name`, zero-padded.
pub open spec fn spec_stored_name(name: Seq<u8>) -> Seq<u8> {
    Seq::new(13, |i: int| if i < name.len() { name[i] } else { 0u8 })
}

/// The model of an empty slot.
pub open spec fn spec_empty_entry() -> DirEntryView {
    DirEntryView {
        filename: Seq::new(13, |i: int| 0u8),
        first_cluster: 0,
        entry_type: FILE_ENTRY_TYPE,
    }
}

/// The first-zero scan lands between `from` and the length, skips only
/// nonzero bytes, and stops on a zero byte.
pub proof fn lemma_name_end_bounds(f: Seq<u8>, from: int)
    requires
        0 <= from,
    ensures
        from <= spec_name_end(f, from) || spec_name_end(f, from) == f.len(),
        spec_name_end(f, from) <= f.len(),
        forall|j: int| from <= j < spec_name_end(f, from) ==> f[j] != 0,
        spec_name_end(f, from) < f.len() ==> f[spec_name_end(f, from)] == 0,
    decreases f.len() - from,
{
    if from < f.len() && f[from] != 0 {
        lemma_name_end_bounds(f, from + 1);
    }
}

/// A name of at most 13 nonzero bytes is read back unchanged from the name
/// field that stores it, and a nonempty name marks the slot nonempty.
pub proof fn lemma_stored_name_roundtrip(name: Seq<u8>)
    requires
        name.len() <= 13,
        forall|i: int| 0 <= i < name.len() ==> name[i] != 0,
    ensures
        spec_name_of(spec_stored_name(name)) == name,
        name.len() > 0 ==> !spec_slot_empty(spec_stored_name(name)),
{
    let f = spec_stored_name(name);
    lemma_name_end_bounds(f, 0);
    let end = spec_name_end(f, 0);
    if end < name.len() {
        assert(f[end] == name[end]);
        assert(false);
    }
    if end > name.len() {
        assert(f[name.len() as int] == 0);
        assert(false);
    }
    assert(spec_name_of(f) =~= name);
    if name.len() > 0 {
        assert(f[0] == name[0]);
    }
}

impl DirEntry {
    /// Structural well-formedness: the name field holds exactly 13 bytes.
    pub open spec fn wf(&self) -> bool {
        self.filename@.len() == 13
    }

    /// A fresh entry naming `filename` (truncated to 13 bytes, zero-padded).
    pub fn new(filename: &[u8], first_cluster: u16, entry_type: u8) -> (r: DirEntry)
        ensures
            r.wf(),
            r@.filename == spec_stored_name(filename@),
            r@.first_cluster == first_cluster,
            r@.entry_type == entry_type,
    {
        let mut name: Vec<u8> = Vec::new();
        let mut i: usize = 0;
        while i < NAME_CAPACITY
            invariant
                i <= 13,
                name@.len() == i,
                forall|j: int| 0 <= j < i ==> name@[j] == spec_stored_name(filename@)[j],
            decreases NAME_CAPACITY - i,
        {
            if i < filename.len() {
                name.push(filename[i]);
            } else {
                name.push(0u8);
            }
            i += 1;
        }
        proof {
            assert(name@ =~= spec_stored_name(filename@));
        }
        DirEntry { filename: name, first_cluster, entry_type }
    }

    /// A fresh empty slot.
    pub fn empty() -> (r: DirEntry)
        ensures
            r.wf(),
            r@ == spec_empty_entry(),
            spec_slot_empty(r@.filename),
    {
        let mut name: Vec<u8> = Vec::new();
        let mut i: usize = 0;
        while i < NAME_CAPACITY
            invariant
                i <= 13,
                name@.len() == i,
                forall|j: int| 0 <= j < i ==> name@[j] == 0u8,
            decreases NAME_CAPACITY - i,
        {
            name.push(0u8);
            i += 1;
        }
        let r = DirEntry { filename: name, first_cluster: 0, entry_type: FILE_ENTRY_TYPE };
        proof {
            assert(r@.filename =~= spec_empty_entry().filename);
            assert(r@ =~= spec_empty_entry());
        }
        r
    }

    /// Whether this slot is empty (every name byte zero).
    pub fn is_empty(&self) -> (r: bool)
        requires
            self.wf(),
        ensures
            r == spec_slot_empty(self@.filename),
    {
        let mut i: usize = 0;
        while i < NAME_CAPACITY
            invariant
                self.wf(),
                i <= 13,
                forall|j: int| 0 <= j < i ==> self@.filename[j] == 0,
            decreases NAME_CAPACITY - i,
        {
            if self.filename[i] != 0 {
                return false;
            }
            i += 1;
        }
        true
    }

    /// The stored name: the name bytes up to the first zero.
    pub fn name(&self) -> (r: Vec<u8>)
        requires
            self.wf(),
        ensures
            r@ == spec_name_of(self@.filename),
    {
        proof {
            lemma_name_end_bounds(self@.filename, 0);
        }
        let mut out: Vec<u8> = Vec::new();
        let mut i: usize = 0;
        while i < NAME_CAPACITY
            invariant
                self.wf(),
                i <= 13,
                out@.len() == i,
                spec_name_end(self@.filename, 0) >= i,
                forall|j: int| 0 <= j < i ==> out@[j] == self@.filename[j],
            decreases NAME_CAPACITY - i,
        {
            let b = self.filename[i];
            if b == 0 {
                proof {
                    lemma_name_end_bounds(self@.filename, 0);
                    assert(out@ =~= spec_name_of(self@.filename));
                }
                return out;
            }
            out.push(b);
            proof {
                lemma_name_end_bounds(self@.filename, 0);
            }
            i += 1;
        }
        proof {
            lemma_name_end_bounds(self@.filename, 0);
            assert(out@ =~= spec_name_of(self@.filename));
        }
        out
    }

    /// Whether the stored name equals `name` exactly, byte for byte.
    pub fn matches_name(&self, name: &[u8]) -> (r: bool)
        requires
            self.wf(),
        ensures
            r == (spec_name_of(self@.filename) == name@),
    {
        let stored = self.name();
        if stored.len() != name.len() {
            proof {
                assert(spec_name_of(self@.filename) != name@);
            }
            return false;
        }
        let mut i: usize = 0;
        while i < stored.len()
            invariant
                stored@ == spec_name_of(self@.filename),
                stored@.len() == name@.len(),
                i <= stored@.len(),
                forall|j: int| 0 <= j < i ==> stored@[j] == name@[j],
            decreases stored@.len() - i,
        {
            if stored[i] != name[i] {
                return false;
            }
            i += 1;
        }
        proof {
            assert(stored@ =~= name@);
        }
        true
    }
}

impl Clone for DirEntry {
    /// A clone is equal to the original, field for field.
    fn clone(&self) -> (r: DirEntry)
        ensures
            r@ == self@,
    {
        let mut name: Vec<u8> = Vec::new();
        let mut i: usize = 0;
        while i < self.filename.len()
            invariant
                i <= self.filename@.len(),
                name@.len() == i,
                forall|j: int| 0 <= j < i ==> name@[j] == self.filename@[j],
            decreases self.filename@.len() - i,
        {
            name.push(self.filename[i]);
            i += 1;
        }
        proof {
            assert(name@ =~= self.filename@);
        }
        DirEntry {
            filename: name,
            first_cluster: self.first_cluster,
            entry_type: self.entry_type,
        }
    }
}

/// The 16-byte image of one entry: 13 name bytes, the cluster (little
/// endian), and the type byte.
pub open spec fn spec_encode_entry(e: DirEntryView) -> Seq<u8> {
    Seq::new(16, |j: int|
        if j < 13 {
            e.filename[j]
        } else if j == 13 {
            spec_lo16(e.first_cluster)
        } else if j == 14 {
            spec_hi16(e.first_cluster)
        } else {
            e.entry_type
        })
}

/// The entry read back from a 16-byte image.
pub open spec fn spec_decode_entry(b: Seq<u8>) -> DirEntryView {
    DirEntryView {
        filename: b.subrange(0, 13),
        first_cluster: spec_le16(b[13], b[14]),
        entry_type: b[15],
    }
}

/// The 4096-byte image of a directory record: magic, table sector, 253
/// encoded entries, zero padding.
pub open spec fn spec_encode_dir(d: DirectoryView) -> Seq<u8> {
    Seq::new(4096, |i: int|
        if i < 4 {
            spec_byte32(d.magic, i)
        } else if i == 4 {
            spec_lo16(d.fat_sector)
        } else if i == 5 {
            spec_hi16(d.fat_sector)
        } else if i < 6 + 16 * 253 {
            spec_encode_entry(d.entries[(i - 6) / 16])[(i - 6) % 16]
        } else {
            0u8
        })
}

/// The directory record read back from a 4096-byte image.
pub open spec fn spec_decode_dir(b: Seq<u8>) -> DirectoryView {
    DirectoryView {
        magic: spec_le32(b[0], b[1], b[2], b[3]),
        fat_sector: spec_le16(b[4], b[5]),
        entries: Seq::new(253, |k: int| spec_decode_entry(b.subrange(6 + 16 * k, 22 + 16 * k))),
    }
}

/// The directory record stored in the eight sectors starting at `lba` of a
/// disk image.
pub open spec fn spec_dir_at(d: Seq<u8>, lba: int) -> DirectoryView {
    spec_decode_dir(spec_sector_bytes(d, lba, 8))
}

/// Byte `6 + 16*k + j` of an encoded directory record belongs to entry `k`
/// at offset `j`.
pub proof fn lemma_entry_byte(d: DirectoryView, k: int, j: int)
    requires
        0 <= k < 253,
        0 <= j < 16,
    ensures
        spec_encode_dir(d)[6 + 16 * k + j] == spec_encode_entry(d.entries[k])[j],
{
    let i = 6 + 16 * k + j;
    assert(6 <= i < 6 + 16 * 253) by (nonlinear_arith)
        requires
            0 <= k < 253,
            0 <= j < 16,
            i == 6 + 16 * k + j,
    ;
    vstd::arithmetic::div_mod::lemma_fundamental_div_mod_converse(i - 6, 16, k, j);
}

/// Decoding the byte image of a well-formed directory yields it back.
pub proof fn lemma_dir_roundtrip(d: DirectoryView)
    requires
        d.entries.len() == 253,
        forall|k: int| 0 <= k < 253 ==> (#[trigger] d.entries[k]).filename.len() == 13,
    ensures
        spec_decode_dir(spec_encode_dir(d)) == d,
{
    let b = spec_encode_dir(d);
    let back = spec_decode_dir(b);
    crate::codec::lemma_le32_roundtrip(d.magic);
    crate::codec::lemma_le16_roundtrip(d.fat_sector);
    assert forall|k: int| 0 <= k < 253 implies back.entries[k] == d.entries[k] by {
        let sub = b.subrange(6 + 16 * k, 22 + 16 * k);
        assert forall|j: int| 0 <= j < 16 implies sub[j] == spec_encode_entry(d.entries[k])[j] by {
            lemma_entry_byte(d, k, j);
        }
        crate::codec::lemma_le16_roundtrip(d.entries[k].first_cluster);
        assert(back.entries[k].filename =~= d.entries[k].filename);
        assert(back.entries[k] =~= d.entries[k]);
    }
    assert(back.entries =~= d.entries);
    assert(back =~= d);
}

/// A directory record: header plus a fixed array of entry slots.
#[derive(Debug)]
pub struct Directory {
    /// Holds `DIRECTORY_MAGIC` in every record that was validly initialized.
    pub magic: u32,
    /// Sector of this directory's own allocation table.
    pub fat_sector: u16,
    /// The 253 entry slots.
    pub entries: Vec<DirEntry>,
}

impl View for Directory {
    type V = DirectoryView;

    open spec fn view(&self) -> DirectoryView {
        DirectoryView {
            magic: self.magic,
            fat_sector: self.fat_sector,
            entries: Seq::new(self.entries@.len(), |i: int| self.entries@[i]@),
        }
    }
}

/// The first index at or after `from` whose slot is nonempty and stores
/// `name`, or 253 when none does.
pub open spec fn spec_find_entry(entries: Seq<DirEntryView>, name: Seq<u8>, from: int) -> int
    decreases 253 - from,
{
    if from < 0 || from >= 253 {
        253
    } else if !spec_slot_empty(entries[from].filename) && spec_name_of(entries[from].filename)
        == name {
        from
    } else {
        spec_find_entry(entries, name, from + 1)
    }
}

/// The first empty slot at or after `from`, or 253 when the table is full.
pub open spec fn spec_first_empty(entries: Seq<DirEntryView>, from: int) -> int
    decreases 253 - from,
{
    if from < 0 || from >= 253 {
        253
    } else if spec_slot_empty(entries[from].filename) {
        from
    } else {
        spec_first_empty(entries, from + 1)
    }
}

/// The name scan lands between `from` and 253, skips only slots that are
/// empty or named otherwise, and stops on a match.
pub proof fn lemma_find_entry_bounds(entries: Seq<DirEntryView>, name: Seq<u8>, from: int)
    requires
        0 <= from,
    ensures
        from <= spec_find_entry(entries, name, from) || spec_find_entry(entries, name, from)
            == 253,
        spec_find_entry(entries, name, from) <= 253,
        forall|j: int| from <= j < spec_find_entry(entries, name, from)
            ==> spec_slot_empty(entries[j].filename) || spec_name_of(entries[j].filename) != name,
        spec_find_entry(entries, name, from) < 253 ==> !spec_slot_empty(
            entries[spec_find_entry(entries, name, from)].filename,
        ) && spec_name_of(entries[spec_find_entry(entries, name, from)].filename) == name,
    decreases 253 - from,
{
    if from < 253 && (spec_slot_empty(entries[from].filename) || spec_name_of(
        entries[from].filename,
    ) != name) {
        lemma_find_entry_bounds(entries, name, from + 1);
    }
}

/// The empty-slot scan lands between `from` and 253, skips only nonempty
/// slots, and stops on an empty one.
pub proof fn lemma_first_empty_bounds(entries: Seq<DirEntryView>, from: int)
    requires
        0 <= from,
    ensures
        from <= spec_first_empty(entries, from) || spec_first_empty(entries, from) == 253,
        spec_first_empty(entries, from) <= 253,
        forall|j: int| from <= j < spec_first_empty(entries, from) ==> !spec_slot_empty(
            entries[j].filename,
        ),
        spec_first_empty(entries, from) < 253 ==> spec_slot_empty(
            entries[spec_first_empty(entries, from)].filename,
        ),
    decreases 253 - from,
{
    if from < 253 && !spec_slot_empty(entries[from].filename) {
        lemma_first_empty_bounds(entries, from + 1);
    }
}

/// An entry just written into the first empty slot under a fresh name is
/// exactly what a lookup of that name then finds: creation makes the child
/// visible under the name it was given (names of up to 13 nonzero bytes are
/// stored without loss).
pub proof fn lemma_added_entry_is_found(
    entries: Seq<DirEntryView>,
    name: Seq<u8>,
    entry: DirEntryView,
)
    requires
        entries.len() == 253,
        spec_find_entry(entries, name, 0) == 253,
        spec_first_empty(entries, 0) < 253,
        entry.filename == spec_stored_name(name),
        0 < name.len() <= 13,
        forall|i: int| 0 <= i < name.len() ==> name[i] != 0,
    ensures
        spec_find_entry(entries.update(spec_first_empty(entries, 0), entry), name, 0)
            == spec_first_empty(entries, 0),
{
    let k = spec_first_empty(entries, 0);
    lemma_first_empty_bounds(entries, 0);
    let updated = entries.update(k, entry);
    lemma_stored_name_roundtrip(name);
    lemma_find_entry_bounds(entries, name, 0);
    lemma_find_entry_bounds(updated, name, 0);
    let found = spec_find_entry(updated, name, 0);
    if found < k {
        // The scan would have to stop on a slot the old table already
        // matched with, yet the name was absent.
        assert(!spec_slot_empty(updated[found].filename));
        assert(spec_name_of(updated[found].filename) == name);
        assert(entries[found].filename =~= updated[found].filename);
        assert(!spec_slot_empty(entries[found].filename));
        assert(spec_name_of(entries[found].filename) == name);
        assert(false);
    }
    if k < found {
        // The scan would have to skip the slot that now matches.
        assert(updated[k] == entry);
        assert(!spec_slot_empty(updated[k].filename));
        assert(spec_name_of(updated[k].filename) == name);
        assert(false);
    }
}

/// Freeing one slot of a full entry table makes exactly that slot the next
/// insertion point: adding after removing reuses the freed slot.
pub proof fn lemma_slot_reuse(entries: Seq<DirEntryView>, i: int)
    requires
        entries.len() == 253,
        0 <= i < 253,
        spec_first_empty(entries, 0) == 253,
    ensures
        spec_first_empty(entries.update(i, spec_empty_entry()), 0) == i,
{
    let cleared = entries.update(i, spec_empty_entry());
    lemma_first_empty_bounds(entries, 0);
    lemma_first_empty_bounds(cleared, 0);
    assert(spec_slot_empty(cleared[i].filename));
    let fe = spec_first_empty(cleared, 0);
    if fe < i {
        assert(!spec_slot_empty(entries[fe].filename));
        assert(cleared[fe] == entries[fe]);
    }
}

/// The child-directory clusters among the first `i` slots, in slot order:
/// nonempty directory-typed entries whose name is neither `.` nor `..`.
pub open spec fn spec_child_dirs_below(entries: Seq<DirEntryView>, i: int) -> Seq<u16>
    decreases i,
{
    if i <= 0 {
        Seq::empty()
    } else {
        let e = entries[i - 1];
        let rest = spec_child_dirs_below(entries, i - 1);
        if !spec_slot_empty(e.filename) && e.entry_type == DIR_ENTRY_TYPE && spec_name_of(
            e.filename,
        ) != seq![46u8] && spec_name_of(e.filename) != seq![46u8, 46u8] {
            rest.push(e.first_cluster)
        } else {
            rest
        }
    }
}

/// The nonempty slots of an entry table, in slot order.
pub open spec fn spec_nonempty_entries(entries: Seq<DirEntryView>) -> Seq<DirEntryView>
    decreases entries.len(),
{
    if entries.len() == 0 {
        Seq::empty()
    } else if spec_slot_empty(entries.last().filename) {
        spec_nonempty_entries(entries.drop_last())
    } else {
        spec_nonempty_entries(entries.drop_last()) + seq![entries.last()]
    }
}

/// Every nonempty slot shows up in the listing: what a directory holds is
/// what enumerating its nonempty entries reports.
pub proof fn lemma_listing_contains(entries: Seq<DirEntryView>, i: int)
    requires
        0 <= i < entries.len(),
        !spec_slot_empty(entries[i].filename),
    ensures
        spec_nonempty_entries(entries).contains(entries[i]),
    decreases entries.len(),
{
    let last = entries.last();
    if i == entries.len() - 1 {
        let listed = spec_nonempty_entries(entries);
        assert(listed == spec_nonempty_entries(entries.drop_last()) + seq![last]);
        assert(listed[listed.len() - 1] == last);
    } else {
        assert(entries.drop_last()[i] == entries[i]);
        lemma_listing_contains(entries.drop_last(), i);
        let prefix = spec_nonempty_entries(entries.drop_last());
        let j = choose|j: int| 0 <= j < prefix.len() && prefix[j] == entries[i];
        if spec_slot_empty(last.filename) {
            assert(spec_nonempty_entries(entries)[j] == entries[i]);
        } else {
            assert((prefix + seq![last])[j] == prefix[j]);
            assert(spec_nonempty_entries(entries)[j] == entries[i]);
        }
    }
}

impl Directory {
    /// Structural well-formedness: 253 slots, each with a 13-byte name field.
    pub open spec fn wf(&self) -> bool {
        &&& self.entries@.len() == 253
        &&& forall|i: int| 0 <= i < 253 ==> (#[trigger] self.entries@[i]).wf()
    }

    /// A fresh directory record: valid magic, given table sector, all slots
    /// empty.
    pub fn new(fat_sector: u16) -> (r: Directory)
        ensures
            r.wf(),
            r@.magic == DIRECTORY_MAGIC,
            r@.fat_sector == fat_sector,
            forall|i: int| 0 <= i < 253 ==> r@.entries[i] == spec_empty_entry(),
            r@.entries.len() == 253,
    {
        let mut entries: Vec<DirEntry> = Vec::new();
        let mut i: usize = 0;
        while i < DIR_ENTRY_COUNT
            invariant
                i <= 253,
                entries@.len() == i,
                forall|j: int| 0 <= j < i ==> (#[trigger] entries@[j]).wf() && entries@[j]@
                    == spec_empty_entry(),
            decreases DIR_ENTRY_COUNT - i,
        {
            entries.push(DirEntry::empty());
            i += 1;
        }
        Directory { magic: DIRECTORY_MAGIC, fat_sector, entries }
    }

    /// The entry slots, in order.
    pub fn get_entries(&self) -> (r: &Vec<DirEntry>)
        ensures
            r == &self.entries,
    {
        &self.entries
    }

    /// The child-directory clusters listed in this record, in slot order:
    /// what removing the directory must reclaim recursively.
    pub fn child_dirs(&self) -> (r: Vec<u16>)
        requires
            self.wf(),
        ensures
            r@ == spec_child_dirs_below(self@.entries, 253),
    {
        let dot: Vec<u8> = vec![46u8];
        let dotdot: Vec<u8> = vec![46u8, 46u8];
        proof {
            assert(dot@ =~= seq![46u8]);
            assert(dotdot@ =~= seq![46u8, 46u8]);
        }
        let mut children: Vec<u16> = Vec::new();
        let mut j: usize = 0;
        while j < DIR_ENTRY_COUNT
            invariant
                self.wf(),
                dot@ == seq![46u8],
                dotdot@ == seq![46u8, 46u8],
                j <= 253,
                children@ == spec_child_dirs_below(self@.entries, j as int),
            decreases DIR_ENTRY_COUNT - j,
        {
            let child = &self.entries[j];
            proof {
                assert(child@ == self@.entries[j as int]);
            }
            if !child.is_empty() && child.entry_type == DIR_ENTRY_TYPE && !child.matches_name(
                dot.as_slice(),
            ) && !child.matches_name(dotdot.as_slice()) {
                children.push(child.first_cluster);
            }
            proof {
                assert(children@ =~= spec_child_dirs_below(self@.entries, j as int + 1));
            }
            j += 1;
        }
        children
    }

    /// The nonempty entries, in slot order: what a listing shows.
    pub fn nonempty_entries(&self) -> (r: Vec<DirEntry>)
        requires
            self.wf(),
        ensures
            Seq::new(r@.len(), |j: int| r@[j]@) == spec_nonempty_entries(self@.entries),
            forall|j: int| 0 <= j < r@.len() ==> (#[trigger] r@[j]).wf(),
    {
        let mut out: Vec<DirEntry> = Vec::new();
        let mut i: usize = 0;
        while i < DIR_ENTRY_COUNT
            invariant
                self.wf(),
                i <= 253,
                Seq::new(out@.len(), |j: int| out@[j]@) == spec_nonempty_entries(
                    self@.entries.take(i as int),
                ),
                forall|j: int| 0 <= j < out@.len() ==> (#[trigger] out@[j]).wf(),
            decreases DIR_ENTRY_COUNT - i,
        {
            let ghost taken = self@.entries.take(i as int + 1);
            proof {
                assert(taken.drop_last() =~= self@.entries.take(i as int));
                assert(taken.last() == self@.entries[i as int]);
            }
            if !self.entries[i].is_empty() {
                proof {
                    assert(!spec_slot_empty(self@.entries[i as int].filename));
                }
                out.push(self.entries[i].clone());
                proof {
                    assert(Seq::new(out@.len(), |j: int| out@[j]@) =~= spec_nonempty_entries(
                        taken,
                    ));
                }
            } else {
                proof {
                    assert(spec_slot_empty(self@.entries[i as int].filename));
                    assert(Seq::new(out@.len(), |j: int| out@[j]@) =~= spec_nonempty_entries(
                        taken,
                    ));
                }
            }
            i += 1;
        }
        proof {
            assert(self@.entries.take(253) =~= self@.entries);
        }
        out
    }

    /// Whether any slot is empty, so that one more entry fits.
    pub fn has_empty_slot(&self) -> (r: bool)
        requires
            self.wf(),
        ensures
            r == (spec_first_empty(self@.entries, 0) < 253),
    {
        proof {
            lemma_first_empty_bounds(self@.entries, 0);
        }
        let mut i: usize = 0;
        while i < DIR_ENTRY_COUNT
            invariant
                self.wf(),
                i <= 253,
                spec_first_empty(self@.entries, 0) >= i,
            decreases DIR_ENTRY_COUNT - i,
        {
            if self.entries[i].is_empty() {
                proof {
                    assert(spec_slot_empty(self@.entries[i as int].filename));
                    lemma_first_empty_bounds(self@.entries, 0);
                }
                return true;
            }
            proof {
                assert(!spec_slot_empty(self@.entries[i as int].filename));
                lemma_first_empty_bounds(self@.entries, 0);
            }
            i += 1;
        }
        false
    }

    /// Writes `entry` into the first empty slot; `OutOfSpace` when every slot
    /// is taken, leaving the record unchanged.
    pub fn add_entry(&mut self, entry: DirEntry) -> (r: Result<(), FileSystemError>)
        requires
            old(self).wf(),
            entry.wf(),
        ensures
            final(self).wf(),
            r is Ok <==> spec_first_empty(old(self)@.entries, 0) < 253,
            r is Ok ==> final(self)@.entries == old(self)@.entries.update(
                spec_first_empty(old(self)@.entries, 0),
                entry@,
            ),
            r is Err ==> *final(self) == *old(self) && r == Result::<(), FileSystemError>::Err(
                FileSystemError::OutOfSpace,
            ),
            final(self)@.magic == old(self)@.magic,
            final(self)@.fat_sector == old(self)@.fat_sector,
    {
        proof {
            lemma_first_empty_bounds(self@.entries, 0);
        }
        let mut i: usize = 0;
        while i < DIR_ENTRY_COUNT
            invariant
                old(self).wf(),
                *self == *old(self),
                entry.wf(),
                i <= 253,
                spec_first_empty(self@.entries, 0) >= i,
            decreases DIR_ENTRY_COUNT - i,
        {
            if self.entries[i].is_empty() {
                proof {
                    assert(spec_slot_empty(self@.entries[i as int].filename));
                    lemma_first_empty_bounds(self@.entries, 0);
                    assert(spec_first_empty(self@.entries, 0) == i as int);
                }
                self.entries[i] = entry;
                proof {
                    assert(self@.entries =~= old(self)@.entries.update(i as int, entry@));
                }
                return Ok(());
            }
            proof {
                assert(!spec_slot_empty(self@.entries[i as int].filename));
                lemma_first_empty_bounds(self@.entries, 0);
            }
            i += 1;
        }
        Err(FileSystemError::OutOfSpace)
    }

    /// Finds the first nonempty slot whose stored name is exactly `name`;
    /// `FileNotFound` when no slot matches.
    pub fn get_entry(&self, name: &[u8]) -> (r: Result<DirEntry, FileSystemError>)
        requires
            self.wf(),
        ensures
            r is Ok <==> spec_find_entry(self@.entries, name@, 0) < 253,
            r matches Ok(e) ==> e.wf() && e@ == self@.entries[spec_find_entry(
                self@.entries,
                name@,
                0,
            )],
            r is Err ==> r == Result::<DirEntry, FileSystemError>::Err(FileSystemError::FileNotFound),
    {
        proof {
            lemma_find_entry_bounds(self@.entries, name@, 0);
        }
        let mut i: usize = 0;
        while i < DIR_ENTRY_COUNT
            invariant
                self.wf(),
                i <= 253,
                spec_find_entry(self@.entries, name@, 0) >= i,
            decreases DIR_ENTRY_COUNT - i,
        {
            if !self.entries[i].is_empty() && self.entries[i].matches_name(name) {
                proof {
                    assert(!spec_slot_empty(self@.entries[i as int].filename));
                    assert(spec_name_of(self@.entries[i as int].filename) == name@);
                    lemma_find_entry_bounds(self@.entries, name@, 0);
                    assert(spec_find_entry(self@.entries, name@, 0) == i as int);
                }
                let found = self.entries[i].clone();
                proof {
                    assert(found@ == self@.entries[i as int]);
                }
                return Ok(found);
            }
            proof {
                assert(spec_slot_empty(self@.entries[i as int].filename) || spec_name_of(
                    self@.entries[i as int].filename,
                ) != name@);
                lemma_find_entry_bounds(self@.entries, name@, 0);
            }
            i += 1;
        }
        Err(FileSystemError::FileNotFound)
    }

    /// Empties every slot whose stored name is exactly `name`; slots that do
    /// not match are untouched, and no match is silently a no-op.
    pub fn remove_entry(&mut self, name: &[u8])
        requires
            old(self).wf(),
        ensures
            final(self).wf(),
            final(self)@.entries.len() == 253,
            forall|i: int| 0 <= i < 253 ==> final(self)@.entries[i] == (
                if spec_name_of(old(self)@.entries[i].filename) == name@ {
                    spec_empty_entry()
                } else {
                    old(self)@.entries[i]
                }),
            final(self)@.magic == old(self)@.magic,
            final(self)@.fat_sector == old(self)@.fat_sector,
    {
        let mut i: usize = 0;
        while i < DIR_ENTRY_COUNT
            invariant
                old(self).wf(),
                self.wf(),
                i <= 253,
                self@.magic == old(self)@.magic,
                self@.fat_sector == old(self)@.fat_sector,
                self@.entries.len() == 253,
                forall|j: int| i <= j < 253 ==> self@.entries[j] == old(self)@.entries[j],
                forall|j: int| 0 <= j < i ==> self@.entries[j] == (
                    if spec_name_of(old(self)@.entries[j].filename) == name@ {
                        spec_empty_entry()
                    } else {
                        old(self)@.entries[j]
                    }),
            decreases DIR_ENTRY_COUNT - i,
        {
            let matched = self.entries[i].matches_name(name);
            proof {
                assert(self@.entries[i as int] == old(self)@.entries[i as int]);
                assert(matched == (spec_name_of(old(self)@.entries[i as int].filename) == name@));
            }
            let ghost prev = self@.entries;
            if matched {
                self.entries[i] = DirEntry::empty();
                proof {
                    assert(self@.entries[i as int] == spec_empty_entry());
                    assert(forall|j: int| 0 <= j < 253 && j != i ==> self@.entries[j] == prev[j]);
                }
            }
            proof {
                assert forall|j: int| 0 <= j < i + 1 implies self@.entries[j] == (
                    if spec_name_of(old(self)@.entries[j].filename) == name@ {
                        spec_empty_entry()
                    } else {
                        old(self)@.entries[j]
                    }) by {
                    if j < i {
                        assert(self@.entries[j] == prev[j]);
                    }
                }
            }
            i += 1;
        }
    }

    /// The eight-sector byte image of the record.
    pub fn encode(&self) -> (r: Vec<u8>)
        requires
            self.wf(),
        ensures
            r@ == spec_encode_dir(self@),
            r@.len() == 4096,
    {
        let mut v: Vec<u8> = Vec::new();
        let (m0, m1, m2, m3) = split_le32(self.magic);
        v.push(m0);
        v.push(m1);
        v.push(m2);
        v.push(m3);
        let (f0, f1) = split_le16(self.fat_sector);
        v.push(f0);
        v.push(f1);
        let mut k: usize = 0;
        while k < DIR_ENTRY_COUNT
            invariant
                self.wf(),
                k <= 253,
                v@.len() == 6 + 16 * k,
                forall|j: int| 0 <= j < 6 + 16 * k ==> v@[j] == spec_encode_dir(self@)[j],
            decreases DIR_ENTRY_COUNT - k,
        {
            let e = &self.entries[k];
            let mut b: usize = 0;
            while b < NAME_CAPACITY
                invariant
                    self.wf(),
                    k < 253,
                    e == &self.entries[k as int],
                    b <= 13,
                    v@.len() == 6 + 16 * k + b,
                    forall|j: int| 0 <= j < 6 + 16 * k ==> v@[j] == spec_encode_dir(self@)[j],
                    forall|j: int| 0 <= j < b ==> v@[6 + 16 * (k as int) + j] == spec_encode_entry(
                        self@.entries[k as int],
                    )[j],
                decreases NAME_CAPACITY - b,
            {
                v.push(e.filename[b]);
                b += 1;
            }
            let (c0, c1) = split_le16(e.first_cluster);
            v.push(c0);
            v.push(c1);
            v.push(e.entry_type);
            proof {
                assert forall|j: int| 0 <= j < 6 + 16 * (k + 1) implies v@[j] == spec_encode_dir(
                    self@,
                )[j] by {
                    if 6 + 16 * k <= j {
                        lemma_entry_byte(self@, k as int, j - (6 + 16 * k));
                    }
                }
            }
            k += 1;
        }
        let mut pad: usize = 6 + 16 * DIR_ENTRY_COUNT;
        while pad < DIR_BYTES
            invariant
                self.wf(),
                6 + 16 * 253 <= pad <= 4096,
                v@.len() == pad,
                forall|j: int| 0 <= j < pad ==> v@[j] == spec_encode_dir(self@)[j],
            decreases DIR_BYTES - pad,
        {
            v.push(0u8);
            pad += 1;
        }
        proof {
            assert(v@ =~= spec_encode_dir(self@));
        }
        v
    }

    /// The record read back from an eight-sector byte image. No validity
    /// check is made here; `load` rejects a bad magic value.
    pub fn decode(buffer: &Vec<u8>) -> (r: Directory)
        requires
            buffer@.len() == 4096,
        ensures
            r.wf(),
            r@ == spec_decode_dir(buffer@),
    {
        let magic = read_le32(buffer.as_slice(), 0);
        let fat_sector = read_le16(buffer.as_slice(), 4);
        let mut entries: Vec<DirEntry> = Vec::new();
        let mut k: usize = 0;
        while k < DIR_ENTRY_COUNT
            invariant
                buffer@.len() == 4096,
                k <= 253,
                entries@.len() == k,
                forall|j: int| 0 <= j < k ==> (#[trigger] entries@[j]).wf() && entries@[j]@
                    == spec_decode_dir(buffer@).entries[j],
            decreases DIR_ENTRY_COUNT - k,
        {
            let off: usize = ENTRIES_OFFSET + ENTRY_BYTES * k;
            let mut name: Vec<u8> = Vec::new();
            let mut b: usize = 0;
            while b < NAME_CAPACITY
                invariant
                    buffer@.len() == 4096,
                    k < 253,
                    off == 6 + 16 * k,
                    b <= 13,
                    name@.len() == b,
                    forall|j: int| 0 <= j < b ==> name@[j] == buffer@[off + j],
                decreases NAME_CAPACITY - b,
            {
                name.push(buffer[off + b]);
                b += 1;
            }
            let first_cluster = read_le16(buffer.as_slice(), off + 13);
            let entry_type = buffer[off + 15];
            let e = DirEntry { filename: name, first_cluster, entry_type };
            proof {
                let sub = buffer@.subrange(6 + 16 * (k as int), 22 + 16 * (k as int));
                assert(e@.filename =~= sub.subrange(0, 13));
                assert(e@ =~= spec_decode_entry(sub));
            }
            entries.push(e);
            k += 1;
        }
        let r = Directory { magic, fat_sector, entries };
        proof {
            assert(r@.entries =~= spec_decode_dir(buffer@).entries);
            assert(r@ =~= spec_decode_dir(buffer@));
        }
        r
    }

    /// Persists the record to the eight sectors starting at `lba`.
    pub fn save(&self, disk: &mut Disk, lba: u16) -> (r: Result<(), FileSystemError>)
        requires
            self.wf(),
        ensures
            r is Ok <==> old(disk).can_access(lba, 8),
            r is Ok ==> final(disk)@ == crate::disk::spec_write_bytes(
                old(disk)@,
                lba as int,
                spec_encode_dir(self@),
            ),
            r is Ok ==> spec_dir_at(final(disk)@, lba as int) == self@,
            r is Err ==> *final(disk) == *old(disk) && r == Result::<(), FileSystemError>::Err(
                FileSystemError::DiskNotAvailable,
            ),
            final(disk).enabled == old(disk).enabled,
            final(disk)@.len() == old(disk)@.len(),
    {
        let bytes = self.encode();
        let r = disk.write(lba, 8, bytes.as_slice());
        proof {
            if r is Ok {
                crate::disk::lemma_read_back_after_write(
                    old(disk)@,
                    lba as int,
                    spec_encode_dir(self@),
                    8,
                );
                lemma_dir_roundtrip(self@);
            }
        }
        r
    }

    /// Loads the record stored at `lba`, rejecting one whose magic value does
    /// not validate with `InvalidDirectory` (distinct from device failure).
    pub fn load(disk: &Disk, lba: u16) -> (r: Result<Directory, FileSystemError>)
        ensures
            r is Ok <==> disk.can_access(lba, 8) && spec_dir_at(disk@, lba as int).magic
                == DIRECTORY_MAGIC,
            r matches Ok(d) ==> d.wf() && d@ == spec_dir_at(disk@, lba as int),
            !disk.can_access(lba, 8) ==> r == Result::<Directory, FileSystemError>::Err(
                FileSystemError::DiskNotAvailable,
            ),
            disk.can_access(lba, 8) && spec_dir_at(disk@, lba as int).magic != DIRECTORY_MAGIC
                ==> r == Result::<Directory, FileSystemError>::Err(
                FileSystemError::InvalidDirectory,
            ),
    {
        let buffer = match disk.read(lba, 8) {
            Ok(b) => b,
            Err(e) => {
                return Err(e);
            },
        };
        let d = Directory::decode(&buffer);
        if d.magic != DIRECTORY_MAGIC {
            return Err(FileSystemError::InvalidDirectory);
        }
        Ok(d)
    }
}

} // verus!
