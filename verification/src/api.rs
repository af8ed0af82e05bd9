//! The orchestrating filesystem API.
//!
//! `FAtApi` owns the block device, the global sector allocator, the root
//! allocation table and root directory, and the working-directory path. Every
//! operation resolves the working directory by walking named segments from
//! the implicit root record, performs its reads and writes against the
//! device, and persists what it changed before returning.

use vstd::prelude::*;

use crate::allocator::{
    SectorAllocator, ALLOCATOR_SECTOR, FIRST_USABLE_SECTOR, ROOT_DIR_SECTOR, ROOT_FAT_SECTOR,
};
use crate::directory::{
    spec_dir_at, spec_find_entry, spec_first_empty, spec_slot_empty, DirEntry, Directory,
    DirectoryView,
    DIRECTORY_MAGIC, DIR_ENTRY_TYPE,
};
use crate::disk::Disk;
use crate::errors::FileSystemError;
use crate::fat::{spec_fat_at, spec_fat_valid, FAT, FATEntry};
use crate::SECTOR_SIZE;

verus! {

/// Outcome of resolving a working-directory path against a disk image.
pub ghost enum Resolve {
    /// The path names a directory: its model and its starting sector.
    Found { dir: DirectoryView, lba: u16 },
    /// Some segment names no entry of its directory (`DirectoryNotFound`).
    MissingSegment,
    /// Some segment names an entry that is not a directory
    /// (`DirectoryNotFound`).
    NotADir,
    /// A record on the walk fails magic validation (`InvalidDirectory`).
    BadMagic,
    /// The device refused a read on the walk (`DiskNotAvailable`).
    NoDevice,
}

/// The root directory record: stored at the fixed root sector, its table
/// sector forced to the fixed root-table sector rather than trusted from
/// disk.
pub open spec fn spec_root_dir(d: Seq<u8>) -> DirectoryView {
    DirectoryView {
        magic: spec_dir_at(d, ROOT_DIR_SECTOR as int).magic,
        fat_sector: ROOT_FAT_SECTOR,
        entries: spec_dir_at(d, ROOT_DIR_SECTOR as int).entries,
    }
}

/// Whether the eight-sector record at `lba` can be read from the device.
pub open spec fn spec_can_read_dir(d: Seq<u8>, enabled: bool, lba: u16) -> bool {
    enabled && 512 * (lba + 8) <= d.len()
}

/// One resolution walk starting from the directory `cur` at `cur_lba`,
/// consuming `path` segment by segment.
pub open spec fn spec_resolve_from(
    d: Seq<u8>,
    enabled: bool,
    cur: DirectoryView,
    cur_lba: u16,
    path: Seq<Seq<u8>>,
) -> Resolve
    decreases path.len(),
{
    if path.len() == 0 {
        Resolve::Found { dir: cur, lba: cur_lba }
    } else {
        let idx = spec_find_entry(cur.entries, path[0], 0);
        if idx == 253 {
            Resolve::MissingSegment
        } else {
            let e = cur.entries[idx];
            if e.entry_type != DIR_ENTRY_TYPE {
                Resolve::NotADir
            } else if !spec_can_read_dir(d, enabled, e.first_cluster) {
                Resolve::NoDevice
            } else if spec_dir_at(d, e.first_cluster as int).magic != DIRECTORY_MAGIC {
                Resolve::BadMagic
            } else {
                spec_resolve_from(
                    d,
                    enabled,
                    spec_dir_at(d, e.first_cluster as int),
                    e.first_cluster,
                    path.drop_first(),
                )
            }
        }
    }
}

/// Resolution of a whole working-directory path: load the root record, then
/// walk the segments.
pub open spec fn spec_resolve(d: Seq<u8>, enabled: bool, path: Seq<Seq<u8>>) -> Resolve {
    if !spec_can_read_dir(d, enabled, ROOT_DIR_SECTOR) {
        Resolve::NoDevice
    } else if spec_dir_at(d, ROOT_DIR_SECTOR as int).magic != DIRECTORY_MAGIC {
        Resolve::BadMagic
    } else {
        spec_resolve_from(d, enabled, spec_root_dir(d), ROOT_DIR_SECTOR, path)
    }
}

/// The error that a failed resolution surfaces.
pub open spec fn spec_resolve_err(r: Resolve) -> FileSystemError {
    match r {
        Resolve::Found { .. } => FileSystemError::DirectoryNotFound,  // a successful walk surfaces no error
        Resolve::MissingSegment => FileSystemError::DirectoryNotFound,
        Resolve::NotADir => FileSystemError::DirectoryNotFound,
        Resolve::BadMagic => FileSystemError::InvalidDirectory,
        Resolve::NoDevice => FileSystemError::DiskNotAvailable,
    }
}


/// Outcome of looking up the sector that a new node's parent lives at: the
/// walk one segment short of the working directory, then the last segment's
/// entry.
pub ghost enum ParentLookup {
    /// The parent directory record starts at this sector.
    Sector { lba: u16 },
    /// The lookup fails with this error.
    Fail { err: FileSystemError },
}

/// The parent sector of the working directory: the root when the path is
/// empty, otherwise the cluster recorded for the last segment inside the
/// directory the remaining segments name.
pub open spec fn spec_parent_lookup(d: Seq<u8>, enabled: bool, path: Seq<Seq<u8>>) -> ParentLookup {
    if path.len() == 0 {
        ParentLookup::Sector { lba: ROOT_DIR_SECTOR }
    } else {
        match spec_resolve(d, enabled, path.drop_last()) {
            Resolve::Found { dir, .. } => {
                let idx = spec_find_entry(dir.entries, path.last(), 0);
                if idx == 253 {
                    ParentLookup::Fail { err: FileSystemError::FileNotFound }
                } else {
                    ParentLookup::Sector { lba: dir.entries[idx].first_cluster }
                }
            },
            r => ParentLookup::Fail { err: spec_resolve_err(r) },
        }
    }
}

/// Conditions under which removing the childless directory record at `tgt`
/// (linked from the parent record at `parent_lba`) must succeed: the record
/// is readable and validates, its table is readable, every sector its table
/// records is admissible (nonzero, below the watermark `next_free`), the
/// record's own sectors lie below the watermark, it lists no child
/// directories, and the parent record is writable.
pub open spec fn spec_childless_removal_ok(
    d: Seq<u8>,
    enabled: bool,
    next_free: u16,
    tgt: u16,
    parent_lba: u16,
) -> bool {
    let rec = spec_dir_at(d, tgt as int);
    let fat = spec_fat_at(d, rec.fat_sector as int);
    &&& enabled && 512 * (tgt + 8) <= d.len()
    &&& rec.magic == DIRECTORY_MAGIC
    &&& enabled && 512 * (rec.fat_sector + 1) <= d.len()
    &&& forall|i: int| 0 <= i < 256 && (#[trigger] fat[i]).spec_is_used() ==> 0 < fat[
        i
    ].spec_sector() < next_free
    &&& 0 < rec.fat_sector < next_free
    &&& 0 < tgt && tgt + 8 <= next_free
    &&& crate::directory::spec_child_dirs_below(rec.entries, 253).len() == 0
    &&& enabled && 512 * (parent_lba + 8) <= d.len()
}

/// The sectors that reclaiming the directory record at `tgt` returns to the
/// allocator, in order: the sectors its table holds used, its table's own
/// sector, and its eight-sector span.
pub open spec fn spec_reclaimed_sectors(d: Seq<u8>, tgt: u16) -> Seq<u16> {
    let rec = spec_dir_at(d, tgt as int);
    let fat = spec_fat_at(d, rec.fat_sector as int);
    crate::fat::spec_used_sectors_below(fat, 256) + seq![rec.fat_sector] + Seq::new(
        8,
        |k: int| (tgt + k) as u16,
    )
}

/// Outcome of locating a named file's data sector in the working directory.
pub ghost enum DataLookup {
    /// The file exists; its contents live in this sector.
    Data { sector: u16 },
    /// The lookup fails with this error.
    Fail { err: FileSystemError },
}

/// Locating the data sector of `name`: resolve the working directory, load
/// its allocation table, find the entry, and read the used slot it points at.
pub open spec fn spec_locate_data(
    d: Seq<u8>,
    enabled: bool,
    path: Seq<Seq<u8>>,
    name: Seq<u8>,
) -> DataLookup {
    match spec_resolve(d, enabled, path) {
        Resolve::Found { dir, .. } => {
            if !(enabled && 512 * (dir.fat_sector + 1) <= d.len()) {
                DataLookup::Fail { err: FileSystemError::DiskNotAvailable }
            } else {
                let fat = spec_fat_at(d, dir.fat_sector as int);
                let idx = spec_find_entry(dir.entries, name, 0);
                if idx == 253 {
                    DataLookup::Fail { err: FileSystemError::FileNotFound }
                } else {
                    let e = dir.entries[idx];
                    if e.entry_type == DIR_ENTRY_TYPE {
                        DataLookup::Fail { err: FileSystemError::NotAFile }
                    } else if e.first_cluster >= 256 {
                        DataLookup::Fail { err: FileSystemError::IndexOutOfBounds }
                    } else if !fat[e.first_cluster as int].spec_is_used() {
                        DataLookup::Fail { err: FileSystemError::UnusedSector }
                    } else {
                        DataLookup::Data { sector: fat[e.first_cluster as int].spec_sector() }
                    }
                }
            }
        },
        r => DataLookup::Fail { err: spec_resolve_err(r) },
    }
}

/// The orchestrator: device, allocator, root structures, and working
/// directory.
pub struct FAtApi {
    /// The block device all structures persist to.
    pub disk: Disk,
    /// The global sector allocator.
    pub allocator: SectorAllocator,
    /// The root directory's allocation table, held in memory.
    pub table: FAT,
    /// The root directory record, held in memory.
    pub directory: Directory,
    /// The working-directory path, as name segments from the root.
    pub working_dir: Vec<Vec<u8>>,
}

impl FAtApi {
    /// Structural well-formedness of the whole filesystem state.
    pub open spec fn wf(&self) -> bool {
        &&& self.allocator.wf()
        &&& self.table.wf()
        &&& self.directory.wf()
    }

    /// The working-directory path as a sequence of name segments.
    pub open spec fn spec_path(&self) -> Seq<Seq<u8>> {
        self.working_dir.deep_view()
    }

    /// Resolution of the current working directory against the device.
    pub open spec fn spec_resolve_cwd(&self) -> Resolve {
        spec_resolve(self.disk@, self.disk.enabled, self.spec_path())
    }

    /// Mounts the filesystem on `disk`. The persisted allocator and the root
    /// directory are reinitialized fresh when their magic values are absent;
    /// a root allocation table that fails validation is unrecoverable (there
    /// is no backing store to rebuild it from), as is a failing device.
    pub fn new(mut disk: Disk) -> (r: Result<FAtApi, FileSystemError>)
        ensures
            r is Ok <==> disk.enabled && 512 * (FIRST_USABLE_SECTOR as int) <= disk@.len()
                && spec_fat_valid(spec_fat_at(disk@, ROOT_FAT_SECTOR as int)),
            r matches Ok(api) ==> api.wf() && api.working_dir@.len() == 0 && api.table@
                == spec_fat_at(disk@, ROOT_FAT_SECTOR as int) && api.disk.enabled
                && api.disk@.len() == disk@.len(),
            r matches Ok(api) ==> (if spec_dir_at(disk@, ROOT_DIR_SECTOR as int).magic
                == DIRECTORY_MAGIC {
                api.directory@ == spec_root_dir(disk@)
            } else {
                api.directory@.magic == DIRECTORY_MAGIC && api.directory@.fat_sector
                    == ROOT_FAT_SECTOR && (forall|i: int| 0 <= i < 253 ==> spec_slot_empty(
                    #[trigger] api.directory@.entries[i].filename,
                ))
            }),
            r is Err ==> (!disk.enabled || 512 * (FIRST_USABLE_SECTOR as int) > disk@.len() ==> r == Result::<FAtApi, FileSystemError>::Err(
                FileSystemError::DiskNotAvailable,
            )),
            r is Err && disk.enabled && 512 * (FIRST_USABLE_SECTOR as int) <= disk@.len()
                ==> r == Result::<FAtApi, FileSystemError>::Err(FileSystemError::InvalidDirectory),
            r matches Ok(api) ==> ({
                let b = crate::disk::spec_sector_bytes(disk@, ALLOCATOR_SECTOR as int, 1);
                let stored_ok = crate::allocator::spec_alloc_magic_ok(b)
                    && crate::allocator::spec_alloc_watermark(b) >= FIRST_USABLE_SECTOR && (
                forall|i: int| 0 <= i < crate::allocator::spec_decode_freed(b, 0).len()
                    ==> #[trigger] crate::allocator::spec_decode_freed(b, 0)[i]
                    < crate::allocator::spec_alloc_watermark(b));
                let after_alloc = if stored_ok {
                    disk@
                } else {
                    crate::disk::spec_write_bytes(
                        disk@,
                        ALLOCATOR_SECTOR as int,
                        crate::allocator::spec_encode_alloc(
                            FIRST_USABLE_SECTOR,
                            Seq::<u16>::empty(),
                        ),
                    )
                };
                &&& (stored_ok ==> api.allocator.next_free
                    == crate::allocator::spec_alloc_watermark(b) && api.allocator.freed_sectors@
                    == crate::allocator::spec_decode_freed(b, 0))
                &&& (!stored_ok ==> api.allocator.next_free == FIRST_USABLE_SECTOR
                    && api.allocator.freed_sectors@.len() == 0)
                &&& (spec_dir_at(disk@, ROOT_DIR_SECTOR as int).magic == DIRECTORY_MAGIC
                    ==> api.disk@ == after_alloc)
                &&& (spec_dir_at(disk@, ROOT_DIR_SECTOR as int).magic != DIRECTORY_MAGIC
                    ==> api.disk@ == crate::disk::spec_write_bytes(
                    after_alloc,
                    ROOT_DIR_SECTOR as int,
                    crate::directory::spec_encode_dir(
                        crate::directory::DirectoryView {
                            magic: DIRECTORY_MAGIC,
                            fat_sector: ROOT_FAT_SECTOR,
                            entries: Seq::new(253, |i: int| crate::directory::spec_empty_entry()),
                        },
                    ),
                ))
            }),
    {
        let ghost d0 = disk@;
        if !disk.enabled {
            return Err(FileSystemError::DiskNotAvailable);
        }
        if disk.bytes().len() < SECTOR_SIZE * FIRST_USABLE_SECTOR as usize {
            return Err(FileSystemError::DiskNotAvailable);
        }
        let allocator = match SectorAllocator::load_or_create(&mut disk) {
            Ok(a) => a,
            Err(e) => {
                return Err(e);
            },
        };
        proof {
            // The allocator may have rewritten its own sector only; the root
            // table and root record read below are what the device held.
            lemma_metadata_frames(d0, disk@);
        }
        let table = match FAT::load(&disk, ROOT_FAT_SECTOR) {
            Ok(t) => t,
            Err(e) => {
                return Err(e);
            },
        };
        if !table.is_valid() {
            return Err(FileSystemError::InvalidDirectory);
        }
        let directory = match Directory::load(&disk, ROOT_DIR_SECTOR) {
            Ok(mut dir) => {
                dir.fat_sector = ROOT_FAT_SECTOR;
                dir
            },
            Err(FileSystemError::InvalidDirectory) => {
                let dir = Directory::new(ROOT_FAT_SECTOR);
                proof {
                    assert(dir@.entries =~= Seq::new(
                        253,
                        |i: int| crate::directory::spec_empty_entry(),
                    ));
                    assert(dir@ =~= (crate::directory::DirectoryView {
                        magic: DIRECTORY_MAGIC,
                        fat_sector: ROOT_FAT_SECTOR,
                        entries: Seq::new(253, |i: int| crate::directory::spec_empty_entry()),
                    }));
                }
                match dir.save(&mut disk, ROOT_DIR_SECTOR) {
                    Ok(()) => dir,
                    Err(e) => {
                        return Err(e);
                    },
                }
            },
            Err(e) => {
                return Err(e);
            },
        };
        Ok(FAtApi { disk, allocator, table, directory, working_dir: Vec::new() })
    }

    /// Initializes a fresh filesystem on `disk` — a new allocator, root
    /// table, and empty root directory, all persisted — and mounts it.
    pub fn format(mut disk: Disk) -> (r: Result<FAtApi, FileSystemError>)
        ensures
            r is Ok <==> disk.enabled && 512 * (FIRST_USABLE_SECTOR as int) <= disk@.len(),
            r matches Ok(api) ==> api.wf() && api.working_dir@.len() == 0 && api.disk.enabled
                && api.disk@.len() == disk@.len() && spec_fat_valid(
                spec_fat_at(api.disk@, ROOT_FAT_SECTOR as int),
            ) && spec_dir_at(api.disk@, ROOT_DIR_SECTOR as int).magic == DIRECTORY_MAGIC
                && api.allocator.next_free == FIRST_USABLE_SECTOR
                && api.allocator.freed_sectors@.len() == 0 && (forall|i: int| 0 <= i < 253
                ==> spec_slot_empty(
                #[trigger] spec_dir_at(api.disk@, ROOT_DIR_SECTOR as int).entries[i].filename,
            )) && (forall|i: int| 1 <= i < 256 ==> spec_fat_at(
                api.disk@,
                ROOT_FAT_SECTOR as int,
            )[i].spec_is_free()),
            r is Err ==> r == Result::<FAtApi, FileSystemError>::Err(
                FileSystemError::DiskNotAvailable,
            ),
    {
        if !disk.enabled {
            return Err(FileSystemError::DiskNotAvailable);
        }
        if disk.bytes().len() < SECTOR_SIZE * FIRST_USABLE_SECTOR as usize {
            return Err(FileSystemError::DiskNotAvailable);
        }
        let allocator = SectorAllocator::new();
        match allocator.save(&mut disk) {
            Ok(()) => {},
            Err(e) => {
                return Err(e);
            },
        }
        let ghost d1 = disk@;
        let table = FAT::new();
        match table.save(&mut disk, ROOT_FAT_SECTOR) {
            Ok(()) => {},
            Err(e) => {
                return Err(e);
            },
        }
        let ghost d2 = disk@;
        let directory = Directory::new(ROOT_FAT_SECTOR);
        match directory.save(&mut disk, ROOT_DIR_SECTOR) {
            Ok(()) => {},
            Err(e) => {
                return Err(e);
            },
        }
        proof {
            // The root-table sector lies outside the root record's span.
            crate::disk::lemma_write_frame(
                d2,
                ROOT_DIR_SECTOR as int,
                crate::directory::spec_encode_dir(directory@),
                ROOT_FAT_SECTOR as int,
                1,
            );
            assert(spec_fat_at(disk@, ROOT_FAT_SECTOR as int) == table@);
        }
        Ok(FAtApi { disk, allocator, table, directory, working_dir: Vec::new() })
    }

    /// Loads the directory that `name` names inside `directory`: the entry
    /// must exist, be directory-typed, and its record must validate. A
    /// missing or mistyped segment is `DirectoryNotFound`.
    fn get_directory_table_by_name(&self, directory: &Directory, name: &[u8]) -> (r: Result<
        (Directory, u16),
        FileSystemError,
    >)
        requires
            directory.wf(),
        ensures
            ({
                let idx = spec_find_entry(directory@.entries, name@, 0);
                &&& (idx == 253 ==> r == Result::<(Directory, u16), FileSystemError>::Err(
                    FileSystemError::DirectoryNotFound,
                ))
                &&& (idx < 253 && directory@.entries[idx].entry_type != DIR_ENTRY_TYPE ==> r
                    == Result::<(Directory, u16), FileSystemError>::Err(
                    FileSystemError::DirectoryNotFound,
                ))
                &&& (idx < 253 && directory@.entries[idx].entry_type == DIR_ENTRY_TYPE
                    && !spec_can_read_dir(
                    self.disk@,
                    self.disk.enabled,
                    directory@.entries[idx].first_cluster,
                ) ==> r == Result::<(Directory, u16), FileSystemError>::Err(
                    FileSystemError::DiskNotAvailable,
                ))
                &&& (idx < 253 && directory@.entries[idx].entry_type == DIR_ENTRY_TYPE
                    && spec_can_read_dir(
                    self.disk@,
                    self.disk.enabled,
                    directory@.entries[idx].first_cluster,
                ) && spec_dir_at(self.disk@, directory@.entries[idx].first_cluster as int).magic
                    != DIRECTORY_MAGIC ==> r == Result::<(Directory, u16), FileSystemError>::Err(
                    FileSystemError::InvalidDirectory,
                ))
                &&& (r matches Ok(p) ==> idx < 253 && directory@.entries[idx].entry_type
                    == DIR_ENTRY_TYPE && p.1 == directory@.entries[idx].first_cluster && p.0.wf()
                    && p.0@ == spec_dir_at(self.disk@, p.1 as int) && p.0@.magic
                    == DIRECTORY_MAGIC)
                &&& (idx < 253 && directory@.entries[idx].entry_type == DIR_ENTRY_TYPE
                    && spec_can_read_dir(
                    self.disk@,
                    self.disk.enabled,
                    directory@.entries[idx].first_cluster,
                ) && spec_dir_at(self.disk@, directory@.entries[idx].first_cluster as int).magic
                    == DIRECTORY_MAGIC ==> r is Ok)
            }),
    {
        let entry = match directory.get_entry(name) {
            Ok(e) => e,
            Err(_) => {
                return Err(FileSystemError::DirectoryNotFound);
            },
        };
        if entry.entry_type != DIR_ENTRY_TYPE {
            return Err(FileSystemError::DirectoryNotFound);
        }
        match Directory::load(&self.disk, entry.first_cluster) {
            Ok(dir) => Ok((dir, entry.first_cluster)),
            Err(e) => Err(e),
        }
    }

    /// Resolves the first `count` segments of the working-directory path:
    /// the record that prefix names and its sector.
    fn resolve_path(&self, count: usize) -> (r: Result<(Directory, u16), FileSystemError>)
        requires
            count <= self.working_dir@.len(),
        ensures
            ({
                let prefix = self.spec_path().take(count as int);
                &&& (r matches Ok(p) ==> spec_resolve(self.disk@, self.disk.enabled, prefix) == (
                    Resolve::Found { dir: p.0@, lba: p.1 }) && p.0.wf())
                &&& (r matches Err(e) ==> !(spec_resolve(self.disk@, self.disk.enabled, prefix)
                    is Found) && e == spec_resolve_err(
                    spec_resolve(self.disk@, self.disk.enabled, prefix),
                ))
            }),
    {
        let ghost path = self.spec_path().take(count as int);
        proof {
            assert(path.len() == count);
        }
        let mut current = match Directory::load(&self.disk, ROOT_DIR_SECTOR) {
            Ok(mut dir) => {
                dir.fat_sector = ROOT_FAT_SECTOR;
                dir
            },
            Err(e) => {
                return Err(e);
            },
        };
        let mut lba: u16 = ROOT_DIR_SECTOR;
        proof {
            assert(current@ =~= spec_root_dir(self.disk@));
            assert(path.skip(0) =~= path);
        }
        let mut i: usize = 0;
        while i < count
            invariant
                count <= self.working_dir@.len(),
                self.working_dir.deep_view().len() == self.working_dir@.len(),
                self.working_dir.deep_view().take(count as int) == path,
                path.len() == count,
                i <= count,
                current.wf(),
                spec_resolve(self.disk@, self.disk.enabled, path) == spec_resolve_from(
                    self.disk@,
                    self.disk.enabled,
                    current@,
                    lba,
                    path.skip(i as int),
                ),
            decreases count - i,
        {
            let segment = &self.working_dir[i];
            proof {
                assert(path.skip(i as int)[0] == path[i as int]);
                assert(path[i as int] == self.working_dir.deep_view()[i as int]);
                assert(path[i as int] =~= segment@);
            }
            let res = self.get_directory_table_by_name(&current, segment.as_slice());
            proof {
                let rest = path.skip(i as int);
                let idx = spec_find_entry(current@.entries, segment@, 0);
                crate::directory::lemma_find_entry_bounds(current@.entries, segment@, 0);
                assert(rest[0] == segment@);
                assert(spec_resolve_from(self.disk@, self.disk.enabled, current@, lba, rest) == (
                    if idx == 253 {
                        Resolve::MissingSegment
                    } else if current@.entries[idx].entry_type != DIR_ENTRY_TYPE {
                        Resolve::NotADir
                    } else if !spec_can_read_dir(
                        self.disk@,
                        self.disk.enabled,
                        current@.entries[idx].first_cluster,
                    ) {
                        Resolve::NoDevice
                    } else if spec_dir_at(
                        self.disk@,
                        current@.entries[idx].first_cluster as int,
                    ).magic != DIRECTORY_MAGIC {
                        Resolve::BadMagic
                    } else {
                        spec_resolve_from(
                            self.disk@,
                            self.disk.enabled,
                            spec_dir_at(self.disk@, current@.entries[idx].first_cluster as int),
                            current@.entries[idx].first_cluster,
                            rest.drop_first(),
                        )
                    }));
            }
            let next = match res {
                Ok(p) => p,
                Err(e) => {
                    proof {
                        assert(!(spec_resolve(self.disk@, self.disk.enabled, path) is Found));
                        assert(e == spec_resolve_err(
                            spec_resolve(self.disk@, self.disk.enabled, path),
                        ));
                    }
                    return Err(e);
                },
            };
            current = next.0;
            lba = next.1;
            proof {
                assert(path.skip(i as int).drop_first() =~= path.skip(i as int + 1));
            }
            i += 1;
        }
        proof {
            assert(path.skip(i as int) =~= Seq::<Seq<u8>>::empty());
        }
        Ok((current, lba))
    }

    /// Resolves the working directory: the record it names and its sector.
    fn get_current_directory(&self) -> (r: Result<(Directory, u16), FileSystemError>)
        ensures
            r matches Ok(p) ==> self.spec_resolve_cwd() == (Resolve::Found {
                dir: p.0@,
                lba: p.1,
            }) && p.0.wf(),
            r matches Err(e) ==> !(self.spec_resolve_cwd() is Found) && e == spec_resolve_err(
                self.spec_resolve_cwd(),
            ),
    {
        proof {
            assert(self.spec_path().take(self.working_dir@.len() as int) =~= self.spec_path());
        }
        self.resolve_path(self.working_dir.len())
    }

    /// The sector a new node's parent lives at: the walk one segment short
    /// of the working directory, then the last segment's entry.
    fn get_parent_sector(&self) -> (r: Result<u16, FileSystemError>)
        ensures
            ({
                let lookup = spec_parent_lookup(self.disk@, self.disk.enabled, self.spec_path());
                &&& (lookup matches ParentLookup::Sector { lba } ==> r == Result::<
                    u16,
                    FileSystemError,
                >::Ok(lba))
                &&& (lookup matches ParentLookup::Fail { err } ==> r == Result::<
                    u16,
                    FileSystemError,
                >::Err(err))
            }),
    {
        if self.working_dir.len() == 0 {
            return Ok(ROOT_DIR_SECTOR);
        }
        let count = self.working_dir.len() - 1;
        proof {
            assert(self.spec_path().take(count as int) =~= self.spec_path().drop_last());
        }
        let pdir = match self.resolve_path(count) {
            Ok(p) => p.0,
            Err(e) => {
                return Err(e);
            },
        };
        let last = &self.working_dir[count];
        proof {
            assert(self.spec_path().last() == self.working_dir.deep_view()[count as int]);
            assert(self.spec_path().last() =~= last@);
            crate::directory::lemma_find_entry_bounds(pdir@.entries, last@, 0);
        }
        match pdir.get_entry(last.as_slice()) {
            Ok(e) => Ok(e.first_cluster),
            Err(e) => Err(e),
        }
    }


    /// Persists the allocator, as the end of every mutating command does.
    pub fn save(&mut self) -> (r: Result<(), FileSystemError>)
        requires
            old(self).wf(),
        ensures
            final(self).wf(),
            r is Ok <==> old(self).disk.can_access(ALLOCATOR_SECTOR, 1),
            r is Err ==> *final(self) == *old(self) && r == Result::<(), FileSystemError>::Err(
                FileSystemError::DiskNotAvailable,
            ),
            final(self).allocator == old(self).allocator,
            final(self).table == old(self).table,
            final(self).directory == old(self).directory,
            final(self).working_dir == old(self).working_dir,
            final(self).disk.enabled == old(self).disk.enabled,
            final(self).disk@.len() == old(self).disk@.len(),
            r is Ok && old(self).allocator.freed_sectors@.len() <= 254 ==> final(self).disk@
                == crate::disk::spec_write_bytes(
                old(self).disk@,
                ALLOCATOR_SECTOR as int,
                crate::allocator::spec_encode_alloc(
                    old(self).allocator.next_free,
                    old(self).allocator.freed_sectors@,
                ),
            ),
            r is Ok && old(self).allocator.freed_sectors@.len() > 254 ==> final(self).disk@
                == crate::disk::spec_write_bytes(
                old(self).disk@,
                ALLOCATOR_SECTOR as int,
                crate::allocator::spec_encode_alloc(
                    old(self).allocator.next_free,
                    old(self).allocator.freed_sectors@.take(254),
                ),
            ),
    {
        self.allocator.save(&mut self.disk)
    }

    /// Adds `entry` to the root allocation table (in memory only).
    pub fn add_entry(&mut self, entry: FATEntry) -> (r: Result<(), FileSystemError>)
        requires
            old(self).wf(),
        ensures
            final(self).wf(),
            r is Ok <==> crate::fat::spec_first_free(old(self).table@, 1) < 256,
            r is Ok ==> final(self).table@ == old(self).table@.update(
                crate::fat::spec_first_free(old(self).table@, 1),
                entry,
            ),
            r is Err ==> *final(self) == *old(self) && r == Result::<(), FileSystemError>::Err(
                FileSystemError::OutOfSpace,
            ),
            final(self).disk == old(self).disk,
            final(self).allocator == old(self).allocator,
            final(self).directory == old(self).directory,
            final(self).working_dir == old(self).working_dir,
    {
        self.table.add_entry(entry)
    }

    /// Reads entry `entry_index` of the root allocation table; index 0 is
    /// reserved and out of range.
    pub fn get_entry(&self, entry_index: usize) -> (r: Result<FATEntry, FileSystemError>)
        requires
            self.wf(),
        ensures
            r is Ok <==> 1 <= entry_index < 256,
            r matches Ok(e) ==> e == self.table@[entry_index as int],
            r is Err ==> r == Result::<FATEntry, FileSystemError>::Err(
                FileSystemError::IndexOutOfBounds,
            ),
    {
        if entry_index >= crate::fat::FAT_ENTRY_COUNT || entry_index < 1 {
            return Err(FileSystemError::IndexOutOfBounds);
        }
        Ok(self.table.entries[entry_index])
    }

    /// The sector recorded in entry `entry_index` of the root table; fails
    /// for an out-of-range index or an entry that is not used.
    pub fn get_sector(&self, entry_index: usize) -> (r: Result<u16, FileSystemError>)
        requires
            self.wf(),
        ensures
            !(1 <= entry_index < 256) ==> r == Result::<u16, FileSystemError>::Err(
                FileSystemError::IndexOutOfBounds,
            ),
            1 <= entry_index < 256 && !self.table@[entry_index as int].spec_is_used() ==> r
                == Result::<u16, FileSystemError>::Err(FileSystemError::UnusedSector),
            1 <= entry_index < 256 && self.table@[entry_index as int].spec_is_used() ==> r
                == Result::<u16, FileSystemError>::Ok(
                self.table@[entry_index as int].spec_sector(),
            ),
    {
        let entry = match self.get_entry(entry_index) {
            Ok(e) => e,
            Err(e) => {
                return Err(e);
            },
        };
        entry.get_sector()
    }

    /// The table slot recorded for `name` in the root directory record.
    pub fn index_by_name(&self, name: &[u8]) -> (r: Result<u16, FileSystemError>)
        requires
            self.wf(),
        ensures
            r is Ok <==> spec_find_entry(self.directory@.entries, name@, 0) < 253,
            r matches Ok(c) ==> c == self.directory@.entries[spec_find_entry(
                self.directory@.entries,
                name@,
                0,
            )].first_cluster,
            r is Err ==> r == Result::<u16, FileSystemError>::Err(FileSystemError::FileNotFound),
    {
        match self.directory.get_entry(name) {
            Ok(e) => Ok(e.first_cluster),
            Err(e) => Err(e),
        }
    }

    /// Whether the working directory holds a directory-typed entry named
    /// `name`; "not present" is `Ok(false)`, other failures propagate.
    pub fn search_directory(&self, name: &[u8]) -> (r: Result<bool, FileSystemError>)
        ensures
            r matches Ok(b) ==> (self.spec_resolve_cwd() matches Resolve::Found { dir, .. }
                && b == (spec_find_entry(dir.entries, name@, 0) < 253 && dir.entries[
                spec_find_entry(dir.entries, name@, 0)
            ].entry_type == DIR_ENTRY_TYPE)),
            r matches Err(e) ==> !(self.spec_resolve_cwd() is Found) && e == spec_resolve_err(
                self.spec_resolve_cwd(),
            ),
    {
        let dir = match self.get_current_directory() {
            Ok(p) => p.0,
            Err(e) => {
                return Err(e);
            },
        };
        proof {
            crate::directory::lemma_find_entry_bounds(dir@.entries, name@, 0);
        }
        match dir.get_entry(name) {
            Ok(entry) => Ok(entry.entry_type == DIR_ENTRY_TYPE),
            Err(FileSystemError::FileNotFound) => Ok(false),
            Err(e) => Err(e),
        }
    }

    /// Reads the whole data sector of the file `name` in the working
    /// directory.
    pub fn get_data(&self, name: &[u8]) -> (r: Result<Vec<u8>, FileSystemError>)
        ensures
            ({
                let lk = spec_locate_data(self.disk@, self.disk.enabled, self.spec_path(), name@);
                &&& (lk matches DataLookup::Fail { err } ==> r == Result::<
                    Vec<u8>,
                    FileSystemError,
                >::Err(err))
                &&& (lk matches DataLookup::Data { sector } ==> (
                    if self.disk.can_access(sector, 1) {
                        r matches Ok(v) && v@ == crate::disk::spec_sector_bytes(
                            self.disk@,
                            sector as int,
                            1,
                        )
                    } else {
                        r == Result::<Vec<u8>, FileSystemError>::Err(
                            FileSystemError::DiskNotAvailable,
                        )
                    }))
            }),
    {
        let dir = match self.get_current_directory() {
            Ok(p) => p.0,
            Err(e) => {
                return Err(e);
            },
        };
        proof {
            crate::directory::lemma_find_entry_bounds(dir@.entries, name@, 0);
        }
        let fat = match self.get_current_fat(&dir) {
            Ok(f) => f,
            Err(e) => {
                return Err(e);
            },
        };
        let entry = match dir.get_entry(name) {
            Ok(e) => e,
            Err(e) => {
                return Err(e);
            },
        };
        if entry.entry_type == DIR_ENTRY_TYPE {
            return Err(FileSystemError::NotAFile);
        }
        if entry.first_cluster >= 256 {
            return Err(FileSystemError::IndexOutOfBounds);
        }
        let fat_entry = fat.entries[entry.first_cluster as usize];
        let sector = match fat_entry.get_sector() {
            Ok(s) => s,
            Err(e) => {
                return Err(e);
            },
        };
        self.disk.read(sector, 1)
    }

    /// Overwrites the whole data sector of the file `name` in the working
    /// directory.
    pub fn change_data(&mut self, name: &[u8], buffer: &[u8]) -> (r: Result<(), FileSystemError>)
        requires
            buffer@.len() == 512,
        ensures
            ({
                let lk = spec_locate_data(
                    old(self).disk@,
                    old(self).disk.enabled,
                    old(self).spec_path(),
                    name@,
                );
                &&& (lk matches DataLookup::Fail { err } ==> r == Result::<
                    (),
                    FileSystemError,
                >::Err(err) && *final(self) == *old(self))
                &&& (lk matches DataLookup::Data { sector } ==> (
                    if old(self).disk.can_access(sector, 1) {
                        r is Ok && final(self).disk@ == crate::disk::spec_write_bytes(
                            old(self).disk@,
                            sector as int,
                            buffer@,
                        )
                    } else {
                        r == Result::<(), FileSystemError>::Err(FileSystemError::DiskNotAvailable)
                            && *final(self) == *old(self)
                    }))
            }),
            final(self).allocator == old(self).allocator,
            final(self).table == old(self).table,
            final(self).directory == old(self).directory,
            final(self).working_dir == old(self).working_dir,
            final(self).disk.enabled == old(self).disk.enabled,
            final(self).disk@.len() == old(self).disk@.len(),
    {
        let dir = match self.get_current_directory() {
            Ok(p) => p.0,
            Err(e) => {
                return Err(e);
            },
        };
        proof {
            crate::directory::lemma_find_entry_bounds(dir@.entries, name@, 0);
        }
        let fat = match self.get_current_fat(&dir) {
            Ok(f) => f,
            Err(e) => {
                return Err(e);
            },
        };
        let entry = match dir.get_entry(name) {
            Ok(e) => e,
            Err(e) => {
                return Err(e);
            },
        };
        if entry.entry_type == DIR_ENTRY_TYPE {
            return Err(FileSystemError::NotAFile);
        }
        if entry.first_cluster >= 256 {
            return Err(FileSystemError::IndexOutOfBounds);
        }
        let fat_entry = fat.entries[entry.first_cluster as usize];
        let sector = match fat_entry.get_sector() {
            Ok(s) => s,
            Err(e) => {
                return Err(e);
            },
        };
        self.disk.write(sector, 1, buffer)
    }

    /// The nonempty entries of the working directory, in slot order: what a
    /// listing shows.
    pub fn list_dir(&self) -> (r: Result<Vec<DirEntry>, FileSystemError>)
        ensures
            r matches Ok(v) ==> (self.spec_resolve_cwd() matches Resolve::Found { dir, .. }
                && Seq::new(v@.len(), |j: int| v@[j]@)
                == crate::directory::spec_nonempty_entries(dir.entries)),
            r matches Err(e) ==> !(self.spec_resolve_cwd() is Found) && e == spec_resolve_err(
                self.spec_resolve_cwd(),
            ),
    {
        let dir = match self.get_current_directory() {
            Ok(p) => p.0,
            Err(e) => {
                return Err(e);
            },
        };
        Ok(dir.nonempty_entries())
    }


    /// Creates an empty file named `name` in the root structures held in
    /// memory (table and directory caches); only the zeroed data sector is
    /// written to disk. Capacity and naming conflicts are checked before any
    /// state changes.
    pub fn new_entry(&mut self, name: &[u8]) -> (r: Result<(), FileSystemError>)
        requires
            old(self).wf(),
            old(self).allocator.next_free < 0xFFFF,
        ensures
            final(self).wf(),
            final(self).working_dir == old(self).working_dir,
            ({
                let found = spec_find_entry(old(self).directory@.entries, name@, 0) < 253;
                let fat_free = crate::fat::spec_first_free(old(self).table@, 1);
                let dir_free = spec_first_empty(old(self).directory@.entries, 0);
                let sector = if old(self).allocator.freed_sectors@.len() > 0 {
                    old(self).allocator.freed_sectors@.last()
                } else {
                    old(self).allocator.next_free
                };
                &&& (found ==> r == Result::<(), FileSystemError>::Err(
                    FileSystemError::FileAlreadyExists,
                ) && *final(self) == *old(self))
                &&& (!found && fat_free == 256 ==> r == Result::<(), FileSystemError>::Err(
                    FileSystemError::OutOfSpace,
                ) && *final(self) == *old(self))
                &&& (!found && fat_free < 256 && dir_free == 253 ==> r == Result::<
                    (),
                    FileSystemError,
                >::Err(FileSystemError::OutOfSpace) && *final(self) == *old(self))
                &&& (!found && fat_free < 256 && dir_free < 253 && sector
                    > crate::fat::ENTRY_SECTOR_MASK ==> r == Result::<(), FileSystemError>::Err(
                    FileSystemError::BadSector,
                ) && *final(self) == *old(self))
                &&& (!found && fat_free < 256 && dir_free < 253 && sector
                    <= crate::fat::ENTRY_SECTOR_MASK && !old(self).disk.can_access(sector, 1)
                    ==> r == Result::<(), FileSystemError>::Err(FileSystemError::DiskNotAvailable)
                    && *final(self) == *old(self))
                &&& (!found && fat_free < 256 && dir_free < 253 && sector
                    <= crate::fat::ENTRY_SECTOR_MASK && old(self).disk.can_access(sector, 1)
                    ==> r is Ok && final(self).disk@ == crate::disk::spec_write_bytes(
                    old(self).disk@,
                    sector as int,
                    Seq::new(512, |i: int| 0u8),
                ) && final(self).table@ == old(self).table@.update(
                    fat_free,
                    FATEntry(crate::fat::ENTRY_TYPE_USED | sector),
                ) && final(self).directory@.entries == old(self).directory@.entries.update(
                    dir_free,
                    crate::directory::DirEntryView {
                        filename: crate::directory::spec_stored_name(name@),
                        first_cluster: fat_free as u16,
                        entry_type: crate::directory::FILE_ENTRY_TYPE,
                    },
                ) && final(self).directory@.magic == old(self).directory@.magic
                    && final(self).directory@.fat_sector == old(self).directory@.fat_sector
                    && (if old(self).allocator.freed_sectors@.len() > 0 {
                    final(self).allocator.freed_sectors@
                        == old(self).allocator.freed_sectors@.drop_last()
                        && final(self).allocator.next_free == old(self).allocator.next_free
                } else {
                    final(self).allocator.freed_sectors@ == old(self).allocator.freed_sectors@
                        && final(self).allocator.next_free == old(self).allocator.next_free + 1
                }))
            }),
    {
        proof {
            crate::directory::lemma_find_entry_bounds(self.directory@.entries, name@, 0);
        }
        match self.directory.get_entry(name) {
            Ok(_) => {
                return Err(FileSystemError::FileAlreadyExists);
            },
            Err(_) => {},
        }
        let index = match self.table.first_free_entry() {
            Ok(i) => i,
            Err(e) => {
                return Err(e);
            },
        };
        if !self.directory.has_empty_slot() {
            return Err(FileSystemError::OutOfSpace);
        }
        let sector = self.allocator.peek_free_sector();
        let used = match FATEntry::new_used(sector) {
            Ok(e) => e,
            Err(e) => {
                return Err(e);
            },
        };
        let zero: Vec<u8> = vec![0u8; SECTOR_SIZE];
        proof {
            assert(zero@ =~= Seq::new(512, |i: int| 0u8));
        }
        match self.disk.write(sector, 1, zero.as_slice()) {
            Ok(()) => {},
            Err(e) => {
                return Err(e);
            },
        }
        let _taken = self.allocator.get_free_sector();
        match self.table.add_entry(used) {
            Ok(()) => {},
            Err(e) => {
                return Err(e);
            },
        }
        match self.directory.add_entry(DirEntry::new(name, index as u16, crate::directory::FILE_ENTRY_TYPE)) {
            Ok(()) => {},
            Err(e) => {
                return Err(e);
            },
        }
        Ok(())
    }


    /// Creates an empty file named `name` in the working directory: one data
    /// sector is reserved and zeroed, marked used in the directory's
    /// allocation table, and a file entry is linked in; allocator, table, and
    /// directory are all persisted. Conflicts, capacity, and device access
    /// are checked before any state changes.
    pub fn add_file(&mut self, name: &[u8]) -> (r: Result<(), FileSystemError>)
        requires
            old(self).wf(),
            old(self).allocator.next_free < 0xFFFF,
        ensures
            final(self).wf(),
            final(self).table == old(self).table,
            final(self).directory == old(self).directory,
            final(self).working_dir == old(self).working_dir,
            final(self).disk.enabled == old(self).disk.enabled,
            final(self).disk@.len() == old(self).disk@.len(),
            !(old(self).spec_resolve_cwd() is Found) ==> r == Result::<(), FileSystemError>::Err(
                spec_resolve_err(old(self).spec_resolve_cwd()),
            ) && *final(self) == *old(self),
            old(self).spec_resolve_cwd() matches Resolve::Found { dir, lba } ==> ({
                let fatok = old(self).disk.can_access(dir.fat_sector, 1);
                let found = spec_find_entry(dir.entries, name@, 0) < 253;
                let fat_free = crate::fat::spec_first_free(
                    spec_fat_at(old(self).disk@, dir.fat_sector as int),
                    1,
                );
                let dir_free = spec_first_empty(dir.entries, 0);
                let sector = if old(self).allocator.freed_sectors@.len() > 0 {
                    old(self).allocator.freed_sectors@.last()
                } else {
                    old(self).allocator.next_free
                };
                let writes_ok = old(self).disk.can_access(ALLOCATOR_SECTOR, 1) && old(self).disk.can_access(sector, 1) && old(self).disk.can_access(dir.fat_sector, 1)
                    && old(self).disk.can_access(lba, 8);
                &&& (!fatok ==> r == Result::<(), FileSystemError>::Err(
                    FileSystemError::DiskNotAvailable,
                ) && *final(self) == *old(self))
                &&& (fatok && found ==> r == Result::<(), FileSystemError>::Err(
                    FileSystemError::FileAlreadyExists,
                ) && *final(self) == *old(self))
                &&& (fatok && !found && fat_free == 256 ==> r == Result::<(), FileSystemError>::Err(
                    FileSystemError::OutOfSpace,
                ) && *final(self) == *old(self))
                &&& (fatok && !found && fat_free < 256 && dir_free == 253 ==> r == Result::<
                    (),
                    FileSystemError,
                >::Err(FileSystemError::OutOfSpace) && *final(self) == *old(self))
                &&& (fatok && !found && fat_free < 256 && dir_free < 253 && sector
                    > crate::fat::ENTRY_SECTOR_MASK ==> r == Result::<(), FileSystemError>::Err(
                    FileSystemError::BadSector,
                ) && *final(self) == *old(self))
                &&& (fatok && !found && fat_free < 256 && dir_free < 253 && sector
                    <= crate::fat::ENTRY_SECTOR_MASK && !writes_ok ==> r == Result::<
                    (),
                    FileSystemError,
                >::Err(FileSystemError::DiskNotAvailable) && *final(self) == *old(self))
                &&& (fatok && !found && fat_free < 256 && dir_free < 253 && sector
                    <= crate::fat::ENTRY_SECTOR_MASK && writes_ok ==> r is Ok && spec_dir_at(
                    final(self).disk@,
                    lba as int,
                ) == (crate::directory::DirectoryView {
                    magic: dir.magic,
                    fat_sector: dir.fat_sector,
                    entries: dir.entries.update(
                        dir_free,
                        crate::directory::DirEntryView {
                            filename: crate::directory::spec_stored_name(name@),
                            first_cluster: fat_free as u16,
                            entry_type: crate::directory::FILE_ENTRY_TYPE,
                        },
                    ),
                }) && (if old(self).allocator.freed_sectors@.len() > 0 {
                    final(self).allocator.freed_sectors@
                        == old(self).allocator.freed_sectors@.drop_last()
                        && final(self).allocator.next_free == old(self).allocator.next_free
                } else {
                    final(self).allocator.freed_sectors@ == old(self).allocator.freed_sectors@
                        && final(self).allocator.next_free == old(self).allocator.next_free + 1
                }) && ((lba + 8 <= dir.fat_sector || dir.fat_sector < lba) ==> spec_fat_at(
                    final(self).disk@,
                    dir.fat_sector as int,
                ) == spec_fat_at(old(self).disk@, dir.fat_sector as int).update(
                    fat_free,
                    FATEntry(crate::fat::ENTRY_TYPE_USED | sector),
                )) && ((sector != dir.fat_sector && (sector < lba || lba + 8 <= sector))
                    ==> crate::disk::spec_sector_bytes(final(self).disk@, sector as int, 1)
                    == Seq::new(512, |i: int| 0u8)) && ((ALLOCATOR_SECTOR != sector
                    && ALLOCATOR_SECTOR != dir.fat_sector && (ALLOCATOR_SECTOR < lba || lba + 8
                    <= ALLOCATOR_SECTOR) && final(self).allocator.freed_sectors@.len() <= 254)
                    ==> crate::disk::spec_sector_bytes(
                    final(self).disk@,
                    ALLOCATOR_SECTOR as int,
                    1,
                ) == crate::allocator::spec_encode_alloc(
                    final(self).allocator.next_free,
                    final(self).allocator.freed_sectors@,
                )))
            }),
    {
        let resolved = match self.get_current_directory() {
            Ok(p) => p,
            Err(e) => {
                return Err(e);
            },
        };
        let mut dir = resolved.0;
        let lba = resolved.1;
        let mut fat = match self.get_current_fat(&dir) {
            Ok(f) => f,
            Err(e) => {
                return Err(e);
            },
        };
        proof {
            crate::directory::lemma_find_entry_bounds(dir@.entries, name@, 0);
        }
        match dir.get_entry(name) {
            Ok(_) => {
                return Err(FileSystemError::FileAlreadyExists);
            },
            Err(_) => {},
        }
        let index = match fat.first_free_entry() {
            Ok(i) => i,
            Err(e) => {
                return Err(e);
            },
        };
        if !dir.has_empty_slot() {
            return Err(FileSystemError::OutOfSpace);
        }
        let sector = self.allocator.peek_free_sector();
        let used = match FATEntry::new_used(sector) {
            Ok(e) => e,
            Err(e) => {
                return Err(e);
            },
        };
        if !(self.disk.accessible(ALLOCATOR_SECTOR, 1) && self.disk.accessible(sector, 1)
            && self.disk.accessible(dir.fat_sector, 1) && self.disk.accessible(lba, 8)) {
            return Err(FileSystemError::DiskNotAvailable);
        }
        let ghost d_start = self.disk@;
        let taken = self.allocator.get_free_sector();
        match self.allocator.save(&mut self.disk) {
            Ok(()) => {},
            Err(e) => {
                return Err(e);
            },
        }
        let ghost d_alloc = self.disk@;
        let zero: Vec<u8> = vec![0u8; SECTOR_SIZE];
        proof {
            assert(zero@ =~= Seq::new(512, |i: int| 0u8));
        }
        match self.disk.write(taken, 1, zero.as_slice()) {
            Ok(()) => {},
            Err(e) => {
                return Err(e);
            },
        }
        let ghost d_zero = self.disk@;
        match fat.add_entry(used) {
            Ok(()) => {},
            Err(e) => {
                return Err(e);
            },
        }
        match dir.add_entry(
            DirEntry::new(name, index as u16, crate::directory::FILE_ENTRY_TYPE),
        ) {
            Ok(()) => {},
            Err(e) => {
                return Err(e);
            },
        }
        match fat.save(&mut self.disk, dir.fat_sector) {
            Ok(()) => {},
            Err(e) => {
                return Err(e);
            },
        }
        let ghost d_after_fat = self.disk@;
        match dir.save(&mut self.disk, lba) {
            Ok(()) => {},
            Err(e) => {
                return Err(e);
            },
        }
        proof {
            // A table stored outside the directory record's span survives the
            // record's write.
            if lba + 8 <= dir.fat_sector || dir.fat_sector < lba {
                crate::disk::lemma_write_frame(
                    d_after_fat,
                    lba as int,
                    crate::directory::spec_encode_dir(dir@),
                    dir.fat_sector as int,
                    1,
                );
            }
            // The zero-filled data sector survives the table and record
            // writes when it lies outside both.
            if taken != dir.fat_sector && (taken < lba || lba + 8 <= taken) {
                crate::disk::lemma_read_back_after_write(d_alloc, taken as int, zero@, 1);
                crate::disk::lemma_write_frame(
                    d_zero,
                    dir.fat_sector as int,
                    crate::fat::spec_encode_fat(fat@),
                    taken as int,
                    1,
                );
                crate::disk::lemma_write_frame(
                    d_after_fat,
                    lba as int,
                    crate::directory::spec_encode_dir(dir@),
                    taken as int,
                    1,
                );
            }
            // The persisted allocator image survives the three later writes
            // when its sector lies outside all of them.
            if ALLOCATOR_SECTOR != taken && ALLOCATOR_SECTOR != dir.fat_sector && (
            ALLOCATOR_SECTOR < lba || lba + 8 <= ALLOCATOR_SECTOR)
                && self.allocator.freed_sectors.len() <= 254 {
                crate::disk::lemma_read_back_after_write(
                    d_start,
                    ALLOCATOR_SECTOR as int,
                    crate::allocator::spec_encode_alloc(
                        self.allocator.next_free,
                        self.allocator.freed_sectors@,
                    ),
                    1,
                );
                crate::disk::lemma_write_frame(d_alloc, taken as int, zero@, ALLOCATOR_SECTOR as int, 1);
                crate::disk::lemma_write_frame(
                    d_zero,
                    dir.fat_sector as int,
                    crate::fat::spec_encode_fat(fat@),
                    ALLOCATOR_SECTOR as int,
                    1,
                );
                crate::disk::lemma_write_frame(
                    d_after_fat,
                    lba as int,
                    crate::directory::spec_encode_dir(dir@),
                    ALLOCATOR_SECTOR as int,
                    1,
                );
            }
        }
        Ok(())
    }


    /// Creates a subdirectory named `name` in the working directory: nine
    /// contiguous fresh sectors are reserved (one for the new directory's
    /// allocation table, eight for its record), the new record is created
    /// with `.` pointing at its own first sector and `..` at the parent
    /// sector that the one-segment-short walk finds, and the new name is
    /// linked into the working directory. Conflicts, capacity, and device
    /// access are checked before any state changes.
    pub fn new_dir(&mut self, name: &[u8]) -> (r: Result<(), FileSystemError>)
        requires
            old(self).wf(),
        ensures
            final(self).wf(),
            final(self).table == old(self).table,
            final(self).directory == old(self).directory,
            final(self).working_dir == old(self).working_dir,
            final(self).disk.enabled == old(self).disk.enabled,
            final(self).disk@.len() == old(self).disk@.len(),
            !(old(self).spec_resolve_cwd() is Found) ==> r == Result::<(), FileSystemError>::Err(
                spec_resolve_err(old(self).spec_resolve_cwd()),
            ) && *final(self) == *old(self),
            old(self).spec_resolve_cwd() matches Resolve::Found { dir, lba } ==> ({
                let found = spec_find_entry(dir.entries, name@, 0) < 253;
                let parent_free = spec_first_empty(dir.entries, 0);
                let base = old(self).allocator.next_free;
                let room = base + 9 <= 0xFFFF;
                let writes_ok = old(self).disk.can_access(ALLOCATOR_SECTOR, 1) && old(self).disk.can_access(base, 1) && old(self).disk.can_access((base + 1) as u16, 8)
                    && old(self).disk.can_access(lba, 8);
                &&& (found ==> r == Result::<(), FileSystemError>::Err(
                    FileSystemError::DirAlreadyExists,
                ) && *final(self) == *old(self))
                &&& (!found && parent_free == 253 ==> r == Result::<(), FileSystemError>::Err(
                    FileSystemError::OutOfSpace,
                ) && *final(self) == *old(self))
                &&& (!found && parent_free < 253 ==> (spec_parent_lookup(
                    old(self).disk@,
                    old(self).disk.enabled,
                    old(self).spec_path(),
                ) matches ParentLookup::Fail { err } ==> r == Result::<(), FileSystemError>::Err(
                    err,
                ) && *final(self) == *old(self)))
                &&& (!found && parent_free < 253 && (spec_parent_lookup(
                    old(self).disk@,
                    old(self).disk.enabled,
                    old(self).spec_path(),
                ) is Sector) && !room ==> r == Result::<
                    (),
                    FileSystemError,
                >::Err(FileSystemError::OutOfSpace) && *final(self) == *old(self))
                &&& (!found && parent_free < 253 && (spec_parent_lookup(
                    old(self).disk@,
                    old(self).disk.enabled,
                    old(self).spec_path(),
                ) is Sector) && room && !writes_ok ==> r == Result::<
                    (),
                    FileSystemError,
                >::Err(FileSystemError::DiskNotAvailable) && *final(self) == *old(self))
                &&& (!found && parent_free < 253 && (spec_parent_lookup(
                    old(self).disk@,
                    old(self).disk.enabled,
                    old(self).spec_path(),
                ) is Sector) && room && writes_ok ==> r is Ok && final(self).allocator.next_free == base + 9 && final(self).allocator.freed_sectors@ == old(self).allocator.freed_sectors@ && spec_dir_at(final(self).disk@, lba as int) == (
                crate::directory::DirectoryView {
                    magic: dir.magic,
                    fat_sector: dir.fat_sector,
                    entries: dir.entries.update(
                        parent_free,
                        crate::directory::DirEntryView {
                            filename: crate::directory::spec_stored_name(name@),
                            first_cluster: (base + 1) as u16,
                            entry_type: DIR_ENTRY_TYPE,
                        },
                    ),
                }) && (lba + 8 <= base ==> spec_dir_at(final(self).disk@, base as int + 1) == (
                crate::directory::DirectoryView {
                    magic: DIRECTORY_MAGIC,
                    fat_sector: base,
                    entries: Seq::new(253, |i: int| crate::directory::spec_empty_entry()).update(
                        0,
                        crate::directory::DirEntryView {
                            filename: crate::directory::spec_stored_name(seq![46u8]),
                            first_cluster: (base + 1) as u16,
                            entry_type: DIR_ENTRY_TYPE,
                        },
                    ).update(
                        1,
                        crate::directory::DirEntryView {
                            filename: crate::directory::spec_stored_name(seq![46u8, 46u8]),
                            first_cluster: (match spec_parent_lookup(
                                old(self).disk@,
                                old(self).disk.enabled,
                                old(self).spec_path(),
                            ) {
                                ParentLookup::Sector { lba: parent_lba } => parent_lba,
                                ParentLookup::Fail { .. } => lba,
                            }),
                            entry_type: DIR_ENTRY_TYPE,
                        },
                    ),
                }) && spec_fat_valid(spec_fat_at(final(self).disk@, base as int))))
            }),
    {
        let resolved = match self.get_current_directory() {
            Ok(p) => p,
            Err(e) => {
                return Err(e);
            },
        };
        let mut parent = resolved.0;
        let lba = resolved.1;
        proof {
            crate::directory::lemma_find_entry_bounds(parent@.entries, name@, 0);
        }
        match parent.get_entry(name) {
            Ok(_) => {
                return Err(FileSystemError::DirAlreadyExists);
            },
            Err(_) => {},
        }
        if !parent.has_empty_slot() {
            return Err(FileSystemError::OutOfSpace);
        }
        let parent_sector = match self.get_parent_sector() {
            Ok(p) => p,
            Err(e) => {
                return Err(e);
            },
        };
        if self.allocator.next_free > 0xFFFF - 9 {
            return Err(FileSystemError::OutOfSpace);
        }
        let base = self.allocator.next_free;
        if !(self.disk.accessible(ALLOCATOR_SECTOR, 1) && self.disk.accessible(base, 1)
            && self.disk.accessible(base + 1, 8) && self.disk.accessible(lba, 8)) {
            return Err(FileSystemError::DiskNotAvailable);
        }
        let fat_sector = self.allocator.get_free_sectors(9);
        match self.allocator.save(&mut self.disk) {
            Ok(()) => {},
            Err(e) => {
                return Err(e);
            },
        }
        let fat = FAT::new();
        match fat.save(&mut self.disk, fat_sector) {
            Ok(()) => {},
            Err(e) => {
                return Err(e);
            },
        }
        let ghost d_after_fat = self.disk@;
        let dir_sector = fat_sector + 1;
        let mut dir = Directory::new(fat_sector);
        let dot: Vec<u8> = vec![46u8];
        let dotdot: Vec<u8> = vec![46u8, 46u8];
        proof {
            assert(spec_slot_empty(crate::directory::spec_empty_entry().filename));
            assert(spec_first_empty(dir@.entries, 0) == 0);
        }
        match dir.add_entry(DirEntry::new(dot.as_slice(), dir_sector, DIR_ENTRY_TYPE)) {
            Ok(()) => {},
            Err(e) => {
                return Err(e);
            },
        }
        proof {
            assert(dot@ =~= seq![46u8]);
            assert(dotdot@ =~= seq![46u8, 46u8]);
            assert(crate::directory::spec_stored_name(dot@)[0] == 46u8);
            assert(!spec_slot_empty(dir@.entries[0].filename));
            assert(spec_slot_empty(dir@.entries[1].filename));
            assert(spec_first_empty(dir@.entries, 0) == 1) by {
                assert(spec_first_empty(dir@.entries, 1) == 1);
            }
        }
        match dir.add_entry(DirEntry::new(dotdot.as_slice(), parent_sector, DIR_ENTRY_TYPE)) {
            Ok(()) => {},
            Err(e) => {
                return Err(e);
            },
        }
        match dir.save(&mut self.disk, dir_sector) {
            Ok(()) => {},
            Err(e) => {
                return Err(e);
            },
        }
        let ghost d_after_dir = self.disk@;
        match parent.add_entry(DirEntry::new(name, dir_sector, DIR_ENTRY_TYPE)) {
            Ok(()) => {},
            Err(e) => {
                return Err(e);
            },
        }
        match parent.save(&mut self.disk, lba) {
            Ok(()) => {},
            Err(e) => {
                return Err(e);
            },
        }
        proof {
            // The new record and its table lie above the parent record when
            // the parent sits below the old watermark; the parent write then
            // leaves them untouched.
            if lba + 8 <= base {
                crate::disk::lemma_write_frame(
                    d_after_dir,
                    lba as int,
                    crate::directory::spec_encode_dir(parent@),
                    fat_sector as int + 1,
                    8,
                );
                crate::disk::lemma_write_frame(
                    d_after_dir,
                    lba as int,
                    crate::directory::spec_encode_dir(parent@),
                    fat_sector as int,
                    1,
                );
                crate::disk::lemma_write_frame(
                    d_after_fat,
                    fat_sector as int + 1,
                    crate::directory::spec_encode_dir(dir@),
                    fat_sector as int,
                    1,
                );
            }
        }
        Ok(())
    }


    /// Removes the file `name` from `dir` (located at `lba`): its data
    /// sector returns to the allocator, its table slot is cleared, and its
    /// entry is emptied, with table and directory persisted. `NotAFile` when
    /// the entry names a directory.
    fn remove_file_by_name(&mut self, name: &[u8], dir: &mut Directory, lba: u16) -> (r: Result<
        (),
        FileSystemError,
    >)
        requires
            old(self).wf(),
            old(dir).wf(),
        ensures
            final(self).wf(),
            final(dir).wf(),
            final(self).table == old(self).table,
            final(self).directory == old(self).directory,
            final(self).working_dir == old(self).working_dir,
            final(self).disk.enabled == old(self).disk.enabled,
            final(self).disk@.len() == old(self).disk@.len(),
            final(self).allocator.next_free == old(self).allocator.next_free,
            final(self).allocator.freed_sectors@.len() >= old(self).allocator.freed_sectors@.len(),
            final(self).allocator.freed_sectors@.take(
                old(self).allocator.freed_sectors@.len() as int,
            ) == old(self).allocator.freed_sectors@,
            ({
                let idx = spec_find_entry(old(dir)@.entries, name@, 0);
                &&& (idx == 253 ==> r == Result::<(), FileSystemError>::Err(
                    FileSystemError::FileNotFound,
                ) && *final(self) == *old(self) && *final(dir) == *old(dir))
                &&& (idx < 253 && old(dir)@.entries[idx].entry_type
                    != crate::directory::FILE_ENTRY_TYPE ==> r == Result::<
                    (),
                    FileSystemError,
                >::Err(FileSystemError::NotAFile) && *final(self) == *old(self) && *final(dir)
                    == *old(dir))
                &&& (idx < 253 && old(dir)@.entries[idx].entry_type
                    == crate::directory::FILE_ENTRY_TYPE ==> ({
                    let fatok = old(self).disk.can_access(old(dir).fat_sector, 1);
                    let cluster = old(dir)@.entries[idx].first_cluster;
                    let fat = spec_fat_at(old(self).disk@, old(dir)@.fat_sector as int);
                    &&& (!fatok ==> r == Result::<(), FileSystemError>::Err(
                        FileSystemError::DiskNotAvailable,
                    ) && *final(self) == *old(self) && *final(dir) == *old(dir))
                    &&& (fatok && cluster >= 256 ==> r == Result::<(), FileSystemError>::Err(
                        FileSystemError::IndexOutOfBounds,
                    ) && *final(self) == *old(self) && *final(dir) == *old(dir))
                    &&& (fatok && cluster < 256 && !fat[cluster as int].spec_is_used() ==> r
                        == Result::<(), FileSystemError>::Err(FileSystemError::UnusedSector)
                        && *final(self) == *old(self) && *final(dir) == *old(dir))
                    &&& (fatok && cluster < 256 && fat[cluster as int].spec_is_used() ==> ({
                        let sector = fat[cluster as int].spec_sector();
                        let writes_ok = old(self).disk.can_access(lba, 8);
                        &&& (!(0 < sector < old(self).allocator.next_free) ==> r == Result::<
                            (),
                            FileSystemError,
                        >::Err(FileSystemError::BadSector) && *final(self) == *old(self)
                            && *final(dir) == *old(dir))
                        &&& (0 < sector < old(self).allocator.next_free && !writes_ok ==> r
                            == Result::<(), FileSystemError>::Err(
                            FileSystemError::DiskNotAvailable,
                        ) && *final(self) == *old(self) && *final(dir) == *old(dir))
                        &&& (0 < sector < old(self).allocator.next_free && writes_ok ==> r is Ok
                            && final(self).allocator.freed_sectors@
                            == old(self).allocator.freed_sectors@.push(sector) && final(dir)@.magic
                            == old(dir)@.magic && final(dir)@.fat_sector == old(dir)@.fat_sector
                            && final(dir)@.entries.len() == 253 && (forall|j: int| 0 <= j < 253
                            ==> final(dir)@.entries[j] == (
                            if crate::directory::spec_name_of(old(dir)@.entries[j].filename)
                                == name@ {
                                crate::directory::spec_empty_entry()
                            } else {
                                old(dir)@.entries[j]
                            })) && spec_dir_at(final(self).disk@, lba as int) == final(dir)@
                            && ((lba + 8 <= old(dir)@.fat_sector || old(dir)@.fat_sector < lba)
                            ==> spec_fat_at(final(self).disk@, old(dir)@.fat_sector as int)
                            == fat.update(cluster as int, FATEntry(crate::fat::ENTRY_TYPE_FREE))))
                    }))
                }))
            }),
    {
        proof {
            crate::directory::lemma_find_entry_bounds(dir@.entries, name@, 0);
            crate::allocator::lemma_take_full(old(self).allocator.freed_sectors@);
        }
        let entry = match dir.get_entry(name) {
            Ok(e) => e,
            Err(e) => {
                return Err(e);
            },
        };
        if entry.entry_type != crate::directory::FILE_ENTRY_TYPE {
            return Err(FileSystemError::NotAFile);
        }
        let mut fat = match FAT::load(&self.disk, dir.fat_sector) {
            Ok(f) => f,
            Err(e) => {
                return Err(e);
            },
        };
        if entry.first_cluster >= 256 {
            return Err(FileSystemError::IndexOutOfBounds);
        }
        let fat_entry = fat.entries[entry.first_cluster as usize];
        let sector = match fat_entry.get_sector() {
            Ok(s) => s,
            Err(e) => {
                return Err(e);
            },
        };
        if !(0 < sector && sector < self.allocator.next_free) {
            return Err(FileSystemError::BadSector);
        }
        if !self.disk.accessible(lba, 8) {
            return Err(FileSystemError::DiskNotAvailable);
        }
        let ghost freed_before = self.allocator.freed_sectors@;
        self.allocator.free(sector);
        proof {
            crate::allocator::lemma_take_push(
                freed_before,
                sector,
                old(self).allocator.freed_sectors@.len() as int,
            );
        }
        match fat.remove_entry(entry.first_cluster) {
            Ok(()) => {},
            Err(e) => {
                return Err(e);
            },
        }
        match fat.save(&mut self.disk, dir.fat_sector) {
            Ok(()) => {},
            Err(e) => {
                return Err(e);
            },
        }
        let ghost d_after_fat = self.disk@;
        dir.remove_entry(name);
        match dir.save(&mut self.disk, lba) {
            Ok(()) => {},
            Err(e) => {
                return Err(e);
            },
        }
        proof {
            // A table stored outside the directory record's span survives the
            // record's write.
            if lba + 8 <= dir.fat_sector || dir.fat_sector < lba {
                crate::disk::lemma_write_frame(
                    d_after_fat,
                    lba as int,
                    crate::directory::spec_encode_dir(dir@),
                    dir.fat_sector as int,
                    1,
                );
            }
        }
        Ok(())
    }

    /// Frees to the allocator every sector recorded by a used slot of
    /// `fat`, clearing each such slot; a recorded sector the allocation
    /// invariant cannot admit (zero, or at or beyond the watermark) is
    /// `BadSector`.
    fn free_used_slots(&mut self, fat: &mut FAT) -> (r: Result<(), FileSystemError>)
        requires
            old(self).wf(),
            old(fat).wf(),
        ensures
            final(self).wf(),
            final(fat).wf(),
            final(self).table == old(self).table,
            final(self).directory == old(self).directory,
            final(self).working_dir == old(self).working_dir,
            final(self).disk == old(self).disk,
            final(self).allocator.next_free == old(self).allocator.next_free,
            final(self).allocator.freed_sectors@.len() >= old(self).allocator.freed_sectors@.len(),
            final(self).allocator.freed_sectors@.take(
                old(self).allocator.freed_sectors@.len() as int,
            ) == old(self).allocator.freed_sectors@,
            ({
                let sectors_ok = forall|i: int| 0 <= i < 256 && (#[trigger] old(
                    fat,
                )@[i]).spec_is_used() ==> 0 < old(fat)@[i].spec_sector() < old(self).allocator.next_free;
                &&& (sectors_ok <==> r is Ok)
                &&& (!sectors_ok ==> r == Result::<(), FileSystemError>::Err(
                    FileSystemError::BadSector,
                ))
                &&& (r is Ok ==> final(self).allocator.freed_sectors@ == old(self).allocator.freed_sectors@ + crate::fat::spec_used_sectors_below(old(fat)@, 256)
                    && (forall|j: int| 0 <= j < 256 ==> final(fat)@[j] == (
                    if (#[trigger] old(fat)@[j]).spec_is_used() {
                        FATEntry(crate::fat::ENTRY_TYPE_FREE)
                    } else {
                        old(fat)@[j]
                    })))
            }),
    {
        proof {
            crate::allocator::lemma_take_full(old(self).allocator.freed_sectors@);
        }
        let ghost fat0 = fat@;
        let mut i: usize = 0;
        while i < crate::fat::FAT_ENTRY_COUNT
            invariant
                self.wf(),
                fat.wf(),
                i <= 256,
                fat0 == old(fat)@,
                fat0.len() == 256,
                self.table == old(self).table,
                self.directory == old(self).directory,
                self.working_dir == old(self).working_dir,
                self.disk == old(self).disk,
                self.allocator.next_free == old(self).allocator.next_free,
                forall|j: int| i <= j < 256 ==> fat@[j] == fat0[j],
                forall|j: int| 0 <= j < i ==> fat@[j] == (if (#[trigger] fat0[j]).spec_is_used() {
                    FATEntry(crate::fat::ENTRY_TYPE_FREE)
                } else {
                    fat0[j]
                }),
                self.allocator.freed_sectors@ == old(self).allocator.freed_sectors@
                    + crate::fat::spec_used_sectors_below(fat0, i as int),
                forall|j: int| 0 <= j < i && (#[trigger] fat0[j]).spec_is_used() ==> 0
                    < fat0[j].spec_sector() < old(self).allocator.next_free,
                self.allocator.freed_sectors@.len() >= old(self).allocator.freed_sectors@.len(),
                self.allocator.freed_sectors@.take(
                    old(self).allocator.freed_sectors@.len() as int,
                ) == old(self).allocator.freed_sectors@,
            decreases crate::fat::FAT_ENTRY_COUNT - i,
        {
            if fat.entries[i].is_used() {
                let s = match fat.entries[i].get_sector() {
                    Ok(s) => s,
                    Err(e) => {
                        return Err(e);
                    },
                };
                if !(0 < s && s < self.allocator.next_free) {
                    proof {
                        assert(old(fat)@[i as int].spec_is_used());
                        assert(!(0 < old(fat)@[i as int].spec_sector() < old(self).allocator.next_free));
                    }
                    return Err(FileSystemError::BadSector);
                }
                let ghost freed_before = self.allocator.freed_sectors@;
                self.allocator.free(s);
                proof {
                    assert(self.allocator.freed_sectors@ =~= old(self).allocator.freed_sectors@
                        + crate::fat::spec_used_sectors_below(fat0, i as int + 1));
                    crate::allocator::lemma_take_push(
                        freed_before,
                        s,
                        old(self).allocator.freed_sectors@.len() as int,
                    );
                }
                match fat.remove_entry(i as u16) {
                    Ok(()) => {},
                    Err(e) => {
                        return Err(e);
                    },
                }
            }
            i += 1;
        }
        Ok(())
    }

    /// Reclaims one directory record at `cur_lba`: every used slot of its
    /// allocation table is freed to the allocator and cleared, the emptied
    /// table is persisted and its sector freed, the record's magic value is
    /// zeroed on disk, and the record's own eight-sector span is freed.
    /// Returns the child-directory clusters listed in the record, for the
    /// caller to reclaim in turn. A sector that the allocation invariant
    /// cannot admit (zero, or at or beyond the watermark) is `BadSector`.
    #[verifier::rlimit(100)]
    fn reclaim_directory(&mut self, cur_lba: u16) -> (r: Result<Vec<u16>, FileSystemError>)
        requires
            old(self).wf(),
        ensures
            final(self).wf(),
            final(self).table == old(self).table,
            final(self).directory == old(self).directory,
            final(self).working_dir == old(self).working_dir,
            final(self).disk.enabled == old(self).disk.enabled,
            final(self).disk@.len() == old(self).disk@.len(),
            final(self).allocator.next_free == old(self).allocator.next_free,
            final(self).allocator.freed_sectors@.len() >= old(self).allocator.freed_sectors@.len(),
            final(self).allocator.freed_sectors@.take(
                old(self).allocator.freed_sectors@.len() as int,
            ) == old(self).allocator.freed_sectors@,
            ({
                let rec = spec_dir_at(old(self).disk@, cur_lba as int);
                let fat = spec_fat_at(old(self).disk@, rec.fat_sector as int);
                let readable = old(self).disk.can_access(cur_lba, 8);
                let valid = rec.magic == DIRECTORY_MAGIC;
                let fat_ok = old(self).disk.can_access(rec.fat_sector, 1);
                let sectors_ok = forall|i: int| 0 <= i < 256 && (#[trigger] fat[i]).spec_is_used()
                    ==> 0 < fat[i].spec_sector() < old(self).allocator.next_free;
                let fs_ok = 0 < rec.fat_sector < old(self).allocator.next_free;
                let span_ok = 0 < cur_lba && cur_lba + 8 <= old(self).allocator.next_free;
                &&& (!readable ==> r == Result::<Vec<u16>, FileSystemError>::Err(
                    FileSystemError::DiskNotAvailable,
                ) && *final(self) == *old(self))
                &&& (readable && !valid ==> r == Result::<Vec<u16>, FileSystemError>::Err(
                    FileSystemError::InvalidDirectory,
                ) && *final(self) == *old(self))
                &&& (readable && valid && !fat_ok ==> r == Result::<Vec<u16>, FileSystemError>::Err(
                    FileSystemError::DiskNotAvailable,
                ) && *final(self) == *old(self))
                &&& (readable && valid && fat_ok && !(sectors_ok && fs_ok && span_ok) ==> r
                    == Result::<Vec<u16>, FileSystemError>::Err(FileSystemError::BadSector))
                &&& ((readable && valid && fat_ok && sectors_ok && fs_ok && span_ok) <==> r is Ok)
                &&& (r matches Ok(children) ==> children@ == crate::directory::spec_child_dirs_below(
                    rec.entries,
                    253,
                ) && final(self).allocator.freed_sectors@ == old(self).allocator.freed_sectors@
                    + crate::fat::spec_used_sectors_below(fat, 256) + seq![rec.fat_sector]
                    + Seq::new(8, |k: int| (cur_lba + k) as u16) && spec_dir_at(
                    final(self).disk@,
                    cur_lba as int,
                ) == (crate::directory::DirectoryView {
                    magic: 0,
                    fat_sector: rec.fat_sector,
                    entries: rec.entries,
                }))
            }),
    {
        proof {
            crate::allocator::lemma_take_full(old(self).allocator.freed_sectors@);
        }
        let mut cur = match Directory::load(&self.disk, cur_lba) {
            Ok(d) => d,
            Err(e) => {
                return Err(e);
            },
        };
        let mut fat = match FAT::load(&self.disk, cur.fat_sector) {
            Ok(f) => f,
            Err(e) => {
                return Err(e);
            },
        };
        let ghost rec = spec_dir_at(old(self).disk@, cur_lba as int);
        match self.free_used_slots(&mut fat) {
            Ok(()) => {},
            Err(e) => {
                return Err(e);
            },
        }
        let children = cur.child_dirs();
        // Clear the reserved slot, persist the emptied table, and return the
        // record's own sectors.
        match fat.remove_entry(0) {
            Ok(()) => {},
            Err(e) => {
                return Err(e);
            },
        }
        match fat.save(&mut self.disk, cur.fat_sector) {
            Ok(()) => {},
            Err(e) => {
                return Err(e);
            },
        }
        if !(0 < cur.fat_sector && cur.fat_sector < self.allocator.next_free) {
            return Err(FileSystemError::BadSector);
        }
        let ghost freed_mid = self.allocator.freed_sectors@;
        self.allocator.free(cur.fat_sector);
        proof {
            assert(self.allocator.freed_sectors@ =~= old(self).allocator.freed_sectors@
                + crate::fat::spec_used_sectors_below(
                spec_fat_at(old(self).disk@, rec.fat_sector as int),
                256,
            ) + seq![rec.fat_sector]);
            crate::allocator::lemma_take_push(
                freed_mid,
                cur.fat_sector,
                old(self).allocator.freed_sectors@.len() as int,
            );
        }
        cur.magic = 0;
        proof {
            assert(cur@ =~= (crate::directory::DirectoryView {
                magic: 0,
                fat_sector: rec.fat_sector,
                entries: rec.entries,
            }));
        }
        match cur.save(&mut self.disk, cur_lba) {
            Ok(()) => {},
            Err(e) => {
                return Err(e);
            },
        }
        if !(0 < cur_lba && cur_lba as u32 + 8 <= self.allocator.next_free as u32) {
            return Err(FileSystemError::BadSector);
        }
        let ghost freed_tail = self.allocator.freed_sectors@;
        self.allocator.free_directory(cur_lba);
        proof {
            assert(self.allocator.freed_sectors@ =~= old(self).allocator.freed_sectors@
                + crate::fat::spec_used_sectors_below(
                spec_fat_at(old(self).disk@, rec.fat_sector as int),
                256,
            ) + seq![rec.fat_sector] + Seq::new(8, |k: int| (cur_lba + k) as u16));
            crate::allocator::lemma_take_concat(
                freed_tail,
                Seq::new(8, |k: int| (cur_lba + k) as u16),
                old(self).allocator.freed_sectors@.len() as int,
            );
        }
        Ok(children)
    }

    /// Removes the directory `name` from `dir` (located at `lba`), together
    /// with everything below it, returning every sector the tree consumed to
    /// the allocator. The named record is reclaimed first; the children it
    /// listed are then reclaimed from an explicit work list rather than the
    /// call stack, each contributing its own children. A structure too deep
    /// or cyclic to be a real tree is reported as `InvalidDirectory`.
    fn remove_dir_by_name(&mut self, name: &[u8], dir: &mut Directory, lba: u16) -> (r: Result<
        (),
        FileSystemError,
    >)
        requires
            old(self).wf(),
            old(dir).wf(),
        ensures
            final(self).wf(),
            final(dir).wf(),
            final(self).table == old(self).table,
            final(self).directory == old(self).directory,
            final(self).working_dir == old(self).working_dir,
            final(self).disk.enabled == old(self).disk.enabled,
            final(self).disk@.len() == old(self).disk@.len(),
            final(self).allocator.next_free == old(self).allocator.next_free,
            // Sectors are only ever returned to the allocator, never taken.
            final(self).allocator.freed_sectors@.len() >= old(self).allocator.freed_sectors@.len(),
            final(self).allocator.freed_sectors@.take(
                old(self).allocator.freed_sectors@.len() as int,
            ) == old(self).allocator.freed_sectors@,
            ({
                let idx = spec_find_entry(old(dir)@.entries, name@, 0);
                &&& (idx == 253 ==> r == Result::<(), FileSystemError>::Err(
                    FileSystemError::FileNotFound,
                ) && *final(self) == *old(self) && *final(dir) == *old(dir))
                &&& (idx < 253 && old(dir)@.entries[idx].entry_type != DIR_ENTRY_TYPE ==> r
                    == Result::<(), FileSystemError>::Err(FileSystemError::NotADirectory)
                    && *final(self) == *old(self) && *final(dir) == *old(dir))
                &&& (r is Ok ==> final(dir)@.magic == old(dir)@.magic && final(dir)@.fat_sector
                    == old(dir)@.fat_sector && final(dir)@.entries.len() == 253 && (forall|j: int|
                    0 <= j < 253 ==> final(dir)@.entries[j] == (
                    if crate::directory::spec_name_of(old(dir)@.entries[j].filename) == name@ {
                        crate::directory::spec_empty_entry()
                    } else {
                        old(dir)@.entries[j]
                    })) && spec_dir_at(final(self).disk@, lba as int) == final(dir)@)
                &&& (idx < 253 && old(dir)@.entries[idx].entry_type == DIR_ENTRY_TYPE ==> r
                    != Result::<(), FileSystemError>::Err(FileSystemError::FileNotFound))
                &&& (idx < 253 && old(dir)@.entries[idx].entry_type == DIR_ENTRY_TYPE ==> ({
                    // A childless directory is reclaimed in full: its used
                    // data sectors, its table sector, and its whole span.
                    let tgt = old(dir)@.entries[idx].first_cluster;
                    spec_childless_removal_ok(
                        old(self).disk@,
                        old(self).disk.enabled,
                        old(self).allocator.next_free,
                        tgt,
                        lba,
                    ) ==> r is Ok && final(self).allocator.freed_sectors@ == old(self).allocator.freed_sectors@ + spec_reclaimed_sectors(old(self).disk@, tgt)
                }))
            }),
    {
        proof {
            crate::directory::lemma_find_entry_bounds(dir@.entries, name@, 0);
            crate::allocator::lemma_take_full(old(self).allocator.freed_sectors@);
        }
        let entry = match dir.get_entry(name) {
            Ok(e) => e,
            Err(e) => {
                return Err(e);
            },
        };
        if entry.entry_type != DIR_ENTRY_TYPE {
            return Err(FileSystemError::NotADirectory);
        }
        let mut pending = match self.reclaim_directory(entry.first_cluster) {
            Ok(children) => children,
            Err(e) => {
                return Err(e);
            },
        };
        if pending.len() > 0 {
            proof {
                // A childless target lists no children, so this branch is
                // beyond its case.
                assert(!spec_childless_removal_ok(
                    old(self).disk@,
                    old(self).disk.enabled,
                    old(self).allocator.next_free,
                    entry.first_cluster,
                    lba,
                ));
            }
            let mut fuel: usize = 8192;
            while pending.len() > 0
                invariant
                    !spec_childless_removal_ok(
                        old(self).disk@,
                        old(self).disk.enabled,
                        old(self).allocator.next_free,
                        old(dir)@.entries[spec_find_entry(old(dir)@.entries, name@, 0)].first_cluster,
                        lba,
                    ),
                    self.wf(),
                    *dir == *old(dir),
                    dir.wf(),
                    spec_find_entry(old(dir)@.entries, name@, 0) < 253,
                    old(dir)@.entries[spec_find_entry(old(dir)@.entries, name@, 0)].entry_type
                        == DIR_ENTRY_TYPE,
                    self.table == old(self).table,
                    self.directory == old(self).directory,
                    self.working_dir == old(self).working_dir,
                    self.disk.enabled == old(self).disk.enabled,
                    self.disk@.len() == old(self).disk@.len(),
                    self.allocator.next_free == old(self).allocator.next_free,
                    self.allocator.freed_sectors@.len()
                        >= old(self).allocator.freed_sectors@.len(),
                    self.allocator.freed_sectors@.take(
                        old(self).allocator.freed_sectors@.len() as int,
                    ) == old(self).allocator.freed_sectors@,
                    fuel <= 8192,
                decreases fuel,
            {
                if fuel == 0 {
                    return Err(FileSystemError::InvalidDirectory);
                }
                fuel -= 1;
                let cur_lba = match pending.pop() {
                    Some(l) => l,
                    None => 0,  // unreachable: the work list is nonempty
                };
                let ghost freed_prev = self.allocator.freed_sectors@;
                let step = self.reclaim_directory(cur_lba);
                proof {
                    crate::allocator::lemma_take_chain(
                        self.allocator.freed_sectors@,
                        freed_prev,
                        old(self).allocator.freed_sectors@.len() as int,
                    );
                }
                let mut kids = match step {
                    Ok(k) => k,
                    Err(e) => {
                        return Err(e);
                    },
                };
                pending.append(&mut kids);
            }
        }
        dir.remove_entry(name);
        match dir.save(&mut self.disk, lba) {
            Ok(()) => {},
            Err(e) => {
                return Err(e);
            },
        }
        Ok(())
    }

    /// Removes the entry `name` from the working directory: as a file first,
    /// and on `NotAFile` as a directory tree.
    pub fn remove_entry(&mut self, name: &[u8]) -> (r: Result<(), FileSystemError>)
        requires
            old(self).wf(),
        ensures
            final(self).wf(),
            final(self).table == old(self).table,
            final(self).directory == old(self).directory,
            final(self).working_dir == old(self).working_dir,
            final(self).disk.enabled == old(self).disk.enabled,
            final(self).disk@.len() == old(self).disk@.len(),
            final(self).allocator.next_free == old(self).allocator.next_free,
            final(self).allocator.freed_sectors@.len() >= old(self).allocator.freed_sectors@.len(),
            final(self).allocator.freed_sectors@.take(
                old(self).allocator.freed_sectors@.len() as int,
            ) == old(self).allocator.freed_sectors@,
            !(old(self).spec_resolve_cwd() is Found) ==> r == Result::<(), FileSystemError>::Err(
                spec_resolve_err(old(self).spec_resolve_cwd()),
            ) && *final(self) == *old(self),
            old(self).spec_resolve_cwd() matches Resolve::Found { dir, lba } ==> ({
                let idx = spec_find_entry(dir.entries, name@, 0);
                &&& (idx == 253 ==> r == Result::<(), FileSystemError>::Err(
                    FileSystemError::FileNotFound,
                ) && *final(self) == *old(self))
                &&& (r == Result::<(), FileSystemError>::Err(FileSystemError::FileNotFound)
                    ==> idx == 253)
                &&& (r is Ok ==> spec_dir_at(final(self).disk@, lba as int).entries.len() == 253
                    && (forall|j: int| 0 <= j < 253 ==> spec_dir_at(
                    final(self).disk@,
                    lba as int,
                ).entries[j] == (
                    if crate::directory::spec_name_of(dir.entries[j].filename) == name@ {
                        crate::directory::spec_empty_entry()
                    } else {
                        dir.entries[j]
                    })))
                &&& (idx < 253 && dir.entries[idx].entry_type == crate::directory::FILE_ENTRY_TYPE
                    ==> ({
                    let fatok = old(self).disk.can_access(dir.fat_sector, 1);
                    let cluster = dir.entries[idx].first_cluster;
                    let fat = spec_fat_at(old(self).disk@, dir.fat_sector as int);
                    &&& (!fatok ==> r == Result::<(), FileSystemError>::Err(
                        FileSystemError::DiskNotAvailable,
                    ) && *final(self) == *old(self))
                    &&& (fatok && cluster >= 256 ==> r == Result::<(), FileSystemError>::Err(
                        FileSystemError::IndexOutOfBounds,
                    ) && *final(self) == *old(self))
                    &&& (fatok && cluster < 256 && !fat[cluster as int].spec_is_used() ==> r
                        == Result::<(), FileSystemError>::Err(FileSystemError::UnusedSector)
                        && *final(self) == *old(self))
                    &&& (fatok && cluster < 256 && fat[cluster as int].spec_is_used() ==> ({
                        let sector = fat[cluster as int].spec_sector();
                        &&& (!(0 < sector < old(self).allocator.next_free) ==> r == Result::<
                            (),
                            FileSystemError,
                        >::Err(FileSystemError::BadSector) && *final(self) == *old(self))
                        &&& (0 < sector < old(self).allocator.next_free && !old(self).disk.can_access(lba, 8) ==> r == Result::<(), FileSystemError>::Err(
                            FileSystemError::DiskNotAvailable,
                        ) && *final(self) == *old(self))
                        &&& (0 < sector < old(self).allocator.next_free && old(self).disk.can_access(lba, 8) ==> r is Ok && final(self).allocator.freed_sectors@ == old(self).allocator.freed_sectors@.push(
                            sector,
                        ) && ((lba + 8 <= dir.fat_sector || dir.fat_sector < lba) ==> spec_fat_at(
                            final(self).disk@,
                            dir.fat_sector as int,
                        ) == fat.update(
                            cluster as int,
                            FATEntry(crate::fat::ENTRY_TYPE_FREE),
                        )))
                    }))
                }))
                &&& (idx < 253 && dir.entries[idx].entry_type != crate::directory::FILE_ENTRY_TYPE
                    && dir.entries[idx].entry_type != DIR_ENTRY_TYPE ==> r == Result::<
                    (),
                    FileSystemError,
                >::Err(FileSystemError::NotADirectory) && *final(self) == *old(self))
                &&& (idx < 253 && dir.entries[idx].entry_type == DIR_ENTRY_TYPE ==> (
                spec_childless_removal_ok(
                    old(self).disk@,
                    old(self).disk.enabled,
                    old(self).allocator.next_free,
                    dir.entries[idx].first_cluster,
                    lba,
                ) ==> r is Ok && final(self).allocator.freed_sectors@ == old(self).allocator.freed_sectors@ + spec_reclaimed_sectors(
                    old(self).disk@,
                    dir.entries[idx].first_cluster,
                )))
            }),
    {
        proof {
            crate::allocator::lemma_take_full(old(self).allocator.freed_sectors@);
        }
        let resolved = match self.get_current_directory() {
            Ok(p) => p,
            Err(e) => {
                return Err(e);
            },
        };
        let mut dir = resolved.0;
        let lba = resolved.1;
        proof {
            crate::directory::lemma_find_entry_bounds(dir@.entries, name@, 0);
        }
        let first = self.remove_file_by_name(name, &mut dir, lba);
        match first {
            Ok(()) => Ok(()),
            Err(FileSystemError::NotAFile) => self.remove_dir_by_name(name, &mut dir, lba),
            Err(e) => Err(e),
        }
    }


    /// How many of the first `i` bytes of `data` are zero.
    pub open spec fn spec_zeros_before(data: Seq<u8>, i: int) -> int
        decreases i,
    {
        if i <= 0 {
            0
        } else {
            Self::spec_zeros_before(data, i - 1) + (if data[i - 1] == 0 {
                1int
            } else {
                0int
            })
        }
    }

    /// A sector image with `extra` appended: every zero byte of `data` is
    /// replaced, in order, by the next byte of `extra`.
    pub open spec fn spec_append_merge(data: Seq<u8>, extra: Seq<u8>) -> Seq<u8> {
        Seq::new(data.len(), |i: int|
            if data[i] != 0 {
                data[i]
            } else {
                extra[Self::spec_zeros_before(data, i)]
            })
    }

    /// Appends `extra` into the file `name`: its sector is read, every zero
    /// byte is filled in order from `extra`, and the sector is written back.
    pub fn append_data(&mut self, name: &[u8], extra: &[u8]) -> (r: Result<(), FileSystemError>)
        requires
            old(self).wf(),
            extra@.len() == 512,
        ensures
            final(self).wf(),
            final(self).allocator == old(self).allocator,
            final(self).table == old(self).table,
            final(self).directory == old(self).directory,
            final(self).working_dir == old(self).working_dir,
            final(self).disk.enabled == old(self).disk.enabled,
            final(self).disk@.len() == old(self).disk@.len(),
            ({
                let lk = spec_locate_data(
                    old(self).disk@,
                    old(self).disk.enabled,
                    old(self).spec_path(),
                    name@,
                );
                &&& (lk matches DataLookup::Fail { err } ==> r == Result::<
                    (),
                    FileSystemError,
                >::Err(err) && *final(self) == *old(self))
                &&& (lk matches DataLookup::Data { sector } ==> (
                    if old(self).disk.can_access(sector, 1) {
                        r is Ok && final(self).disk@ == crate::disk::spec_write_bytes(
                            old(self).disk@,
                            sector as int,
                            Self::spec_append_merge(
                                crate::disk::spec_sector_bytes(old(self).disk@, sector as int, 1),
                                extra@,
                            ),
                        )
                    } else {
                        r == Result::<(), FileSystemError>::Err(FileSystemError::DiskNotAvailable)
                            && *final(self) == *old(self)
                    }))
            }),
    {
        let data = match self.get_data(name) {
            Ok(d) => d,
            Err(e) => {
                return Err(e);
            },
        };
        let merged = append_merge(&data, extra);
        self.change_data(name, merged.as_slice())
    }

    /// Changes into the directory `name` of the working directory, or back to
    /// the parent when `name` is `..`; the working-directory path is the only
    /// state that changes.
    pub fn cd(&mut self, name: &[u8]) -> (r: Result<(), FileSystemError>)
        ensures
            final(self).disk == old(self).disk,
            final(self).allocator == old(self).allocator,
            final(self).table == old(self).table,
            final(self).directory == old(self).directory,
            name@ == seq![46u8, 46u8] ==> r is Ok && (if old(self).spec_path().len() > 0 {
                final(self).spec_path() == old(self).spec_path().drop_last()
            } else {
                final(self).spec_path() == old(self).spec_path()
            }),
            name@ != seq![46u8, 46u8] && !(old(self).spec_resolve_cwd() is Found) ==> r
                == Result::<(), FileSystemError>::Err(
                spec_resolve_err(old(self).spec_resolve_cwd()),
            ) && *final(self) == *old(self),
            name@ != seq![46u8, 46u8] ==> (old(self).spec_resolve_cwd() matches Resolve::Found {
                dir,
                ..
            } ==> ({
                let idx = spec_find_entry(dir.entries, name@, 0);
                &&& (idx < 253 && dir.entries[idx].entry_type == DIR_ENTRY_TYPE ==> r is Ok
                    && final(self).spec_path() == old(self).spec_path().push(name@))
                &&& (!(idx < 253 && dir.entries[idx].entry_type == DIR_ENTRY_TYPE) ==> r
                    == Result::<(), FileSystemError>::Err(FileSystemError::DirectoryNotFound)
                    && *final(self) == *old(self))
            })),
    {
        let ghost oldpath = self.spec_path();
        if name.len() == 2 && name[0] == 46 && name[1] == 46 {
            proof {
                assert(name@ =~= seq![46u8, 46u8]);
            }
            let popped = self.working_dir.pop();
            proof {
                if oldpath.len() > 0 {
                    assert(self.spec_path() =~= oldpath.drop_last());
                } else {
                    assert(self.spec_path() =~= oldpath);
                }
            }
            return Ok(());
        }
        proof {
            assert(name@ != seq![46u8, 46u8]);
        }
        let found = match self.search_directory(name) {
            Ok(b) => b,
            Err(e) => {
                return Err(e);
            },
        };
        if !found {
            return Err(FileSystemError::DirectoryNotFound);
        }
        let segment = vstd::slice::slice_to_vec(name);
        proof {
            assert(segment.deep_view() =~= name@);
        }
        self.working_dir.push(segment);
        proof {
            assert(self.spec_path() =~= oldpath.push(name@));
        }
        Ok(())
    }

    /// Loads the allocation table owned by `directory`.
    fn get_current_fat(&self, directory: &Directory) -> (r: Result<FAT, FileSystemError>)
        ensures
            r is Ok <==> self.disk.can_access(directory.fat_sector, 1),
            r matches Ok(f) ==> f.wf() && f@ == spec_fat_at(
                self.disk@,
                directory@.fat_sector as int,
            ),
            r is Err ==> r == Result::<FAT, FileSystemError>::Err(FileSystemError::DiskNotAvailable),
    {
        FAT::load(&self.disk, directory.fat_sector)
    }
}

/// Rewriting the allocator's own sector leaves the root table and the root
/// record unchanged.
proof fn lemma_metadata_frames(d0: Seq<u8>, d1: Seq<u8>)
    requires
        d0.len() == d1.len(),
        d1 == d0 || d1 == crate::disk::spec_write_bytes(
            d0,
            ALLOCATOR_SECTOR as int,
            crate::allocator::spec_encode_alloc(FIRST_USABLE_SECTOR, Seq::<u16>::empty()),
        ),
        512 * (FIRST_USABLE_SECTOR as int) <= d0.len(),
    ensures
        spec_fat_at(d1, ROOT_FAT_SECTOR as int) == spec_fat_at(d0, ROOT_FAT_SECTOR as int),
        spec_dir_at(d1, ROOT_DIR_SECTOR as int) == spec_dir_at(d0, ROOT_DIR_SECTOR as int),
{
    if d1 != d0 {
        let b = crate::allocator::spec_encode_alloc(FIRST_USABLE_SECTOR, Seq::<u16>::empty());
        crate::disk::lemma_write_frame(d0, ALLOCATOR_SECTOR as int, b, ROOT_FAT_SECTOR as int, 1);
        crate::disk::lemma_write_frame(d0, ALLOCATOR_SECTOR as int, b, ROOT_DIR_SECTOR as int, 8);
    }
}


/// Fills every zero byte of `data`, in order, with the next byte of `extra`.
fn append_merge(data: &Vec<u8>, extra: &[u8]) -> (r: Vec<u8>)
    requires
        data@.len() == 512,
        extra@.len() == 512,
    ensures
        r@ == FAtApi::spec_append_merge(data@, extra@),
        r@.len() == 512,
{
    proof {
        lemma_zeros_before_bound(data@, 0);
    }
    let mut out: Vec<u8> = Vec::new();
    let mut taken: usize = 0;
    let mut i: usize = 0;
    while i < 512
        invariant
            data@.len() == 512,
            extra@.len() == 512,
            i <= 512,
            out@.len() == i,
            taken == FAtApi::spec_zeros_before(data@, i as int),
            0 <= taken <= i,
            forall|j: int| 0 <= j < i ==> out@[j] == FAtApi::spec_append_merge(data@, extra@)[j],
        decreases 512 - i,
    {
        if data[i] != 0 {
            out.push(data[i]);
        } else {
            out.push(extra[taken]);
            taken += 1;
        }
        i += 1;
    }
    proof {
        assert(out@ =~= FAtApi::spec_append_merge(data@, extra@));
    }
    out
}

/// The zero count over a prefix never exceeds the prefix length.
proof fn lemma_zeros_before_bound(data: Seq<u8>, i: int)
    ensures
        0 <= FAtApi::spec_zeros_before(data, i) <= (if i >= 0 { i } else { 0 }),
    decreases (if i >= 0 { i } else { 0 }),
{
    if i > 0 {
        lemma_zeros_before_bound(data, i - 1);
    }
}

/// Entering a directory and then going back up restores the working path
/// exactly: popping a pushed segment is the identity.
pub proof fn lemma_path_push_pop(path: Seq<Seq<u8>>, segment: Seq<u8>)
    ensures
        path.push(segment).drop_last() == path,
{
    assert(path.push(segment).drop_last() =~= path);
}

} // verus!
