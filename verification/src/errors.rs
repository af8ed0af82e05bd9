//! The error taxonomy of the filesystem layer.

use vstd::prelude::*;

verus! {

/// Every fallible filesystem operation reports one of these conditions.
///
/// Structural corruption (`InvalidDirectory`, `InvalidSectorAllocator`) is
/// recoverable for non-root structures; capacity exhaustion (`OutOfSpace`,
/// `BadSector`) leaves no mutation behind; logical conflicts are checked
/// before any mutation; `DiskNotAvailable` reports device failure; and
/// `IndexOutOfBounds` / `UnusedSector` indicate a bookkeeping violation that
/// normal input never triggers.
#[derive(Debug, Clone, Copy, PartialEq, Eq, Structural)]
pub enum FileSystemError {
    FileNotFound,
    DirectoryNotFound,
    AccessDenied,
    OutOfSpace,
    IndexOutOfBounds,
    UnusedSector,
    DiskNotAvailable,
    BadSector,
    FileAlreadyExists,
    DirAlreadyExists,
    NotAFile,
    NotADirectory,
    InvalidDirectory,
    InvalidSectorAllocator,
}

} // verus!
