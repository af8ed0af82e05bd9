use ryos::allocator::SectorAllocator;
use ryos::directory::{DirEntry, Directory, DIR_ENTRY_TYPE, FILE_ENTRY_TYPE};
use ryos::disk::Disk;
use ryos::errors::FileSystemError;
use ryos::fat::{FATEntry, FAT};
use ryos::to_buffer;

#[test]
fn used_entry_sector_roundtrip() {
    for s in [0u16, 1, 7, 0x0ABC, 0x0FFF] {
        let e = FATEntry::new_used(s).unwrap();
        assert!(e.is_used());
        assert_eq!(e.get_sector(), Ok(s));
    }
}

#[test]
fn oversized_sector_is_rejected() {
    assert_eq!(FATEntry::new_used(0x1000), Err(FileSystemError::BadSector));
    assert_eq!(FATEntry::new_used(u16::MAX), Err(FileSystemError::BadSector));
}

#[test]
fn non_used_entries_have_no_sector() {
    assert_eq!(FATEntry::new_free().get_sector(), Err(FileSystemError::UnusedSector));
    assert_eq!(FATEntry::new_eof().get_sector(), Err(FileSystemError::UnusedSector));
    assert!(FATEntry::new_free().is_free());
    assert!(FATEntry::new_eof().is_eof());
    assert!(!FATEntry::new_free().is_bad());
}

#[test]
fn allocator_reuses_lifo() {
    let mut a = SectorAllocator::new();
    a.free(5);
    a.free(9);
    assert_eq!(a.get_free_sector(), 9);
    assert_eq!(a.get_free_sector(), 5);
}

#[test]
fn allocator_watermark_advances_when_nothing_is_freed() {
    let mut a = SectorAllocator::new();
    let first = a.get_free_sector();
    let second = a.get_free_sector();
    assert_eq!(second, first + 1);
    let base = a.get_free_sectors(9);
    assert_eq!(base, first + 2);
    assert_eq!(a.next_free, first + 11);
}

#[test]
fn allocator_free_directory_returns_whole_span() {
    let mut a = SectorAllocator::new();
    let base = a.get_free_sectors(8);
    a.free_directory(base);
    assert_eq!(a.freed_sectors.len(), 8);
    for off in 0..8u16 {
        assert!(a.freed_sectors.contains(&(base + off)));
    }
}

#[test]
fn allocator_persists_through_its_sector_image() {
    let mut a = SectorAllocator::new();
    a.next_free = 30;
    a.free(5);
    a.free(9);
    let image = a.to_bitmap();
    let back = SectorAllocator::from_bitmap(&image).unwrap();
    assert_eq!(back.next_free, 30);
    assert_eq!(back.freed_sectors, vec![5, 9]);
}

#[test]
fn allocator_image_without_magic_is_invalid() {
    let image = vec![0u8; 512];
    assert!(matches!(
        SectorAllocator::from_bitmap(&image),
        Err(FileSystemError::InvalidSectorAllocator)
    ));
}

#[test]
fn fat_persists_through_its_sector_image() {
    let mut fat = FAT::new();
    fat.add_entry(FATEntry::new_used(33).unwrap()).unwrap();
    fat.add_entry(FATEntry::new_eof()).unwrap();
    let image = fat.encode();
    let back = FAT::decode(&image);
    assert!(back.is_valid());
    assert_eq!(back.entries[1].get_sector(), Ok(33));
    assert!(back.entries[2].is_eof());
    assert!(back.entries[3].is_free());
}

#[test]
fn fat_first_free_skips_reserved_entry() {
    let fat = FAT::new();
    assert!(fat.is_valid());
    assert_eq!(fat.first_free_entry().unwrap(), 1);
}

#[test]
fn fat_fills_up() {
    let mut fat = FAT::new();
    for _ in 1..256 {
        fat.add_entry(FATEntry::new_eof()).unwrap();
    }
    assert_eq!(fat.add_entry(FATEntry::new_eof()), Err(FileSystemError::OutOfSpace));
}

#[test]
fn directory_capacity_and_slot_reuse() {
    let mut dir = Directory::new(0);
    for i in 0..253u16 {
        let name = format!("f{}", i);
        dir.add_entry(DirEntry::new(name.as_bytes(), i, FILE_ENTRY_TYPE))
            .unwrap();
    }
    assert_eq!(
        dir.add_entry(DirEntry::new(b"extra", 0, FILE_ENTRY_TYPE)),
        Err(FileSystemError::OutOfSpace)
    );
    dir.remove_entry(b"f7");
    assert!(dir.get_entries()[7].is_empty());
    dir.add_entry(DirEntry::new(b"again", 9, FILE_ENTRY_TYPE)).unwrap();
    assert!(dir.get_entries()[7].matches_name(b"again"));
}

#[test]
fn directory_lookup_is_exact_match() {
    let mut dir = Directory::new(0);
    dir.add_entry(DirEntry::new(b"notes.txt", 3, FILE_ENTRY_TYPE)).unwrap();
    assert_eq!(dir.get_entry(b"notes.txt").unwrap().first_cluster, 3);
    assert!(matches!(dir.get_entry(b"notes"), Err(FileSystemError::FileNotFound)));
    assert!(matches!(dir.get_entry(b"NOTES.TXT"), Err(FileSystemError::FileNotFound)));
}

#[test]
fn directory_names_truncate_to_capacity() {
    let entry = DirEntry::new(b"averylongfilename.txt", 1, FILE_ENTRY_TYPE);
    assert_eq!(entry.name(), b"averylongfile".to_vec());
}

#[test]
fn directory_persists_through_its_record_image() {
    let mut dir = Directory::new(44);
    dir.add_entry(DirEntry::new(b"sub", 30, DIR_ENTRY_TYPE)).unwrap();
    dir.add_entry(DirEntry::new(b"file", 2, FILE_ENTRY_TYPE)).unwrap();
    let image = dir.encode();
    assert_eq!(image.len(), 4096);
    let back = Directory::decode(&image);
    assert_eq!(back.magic, dir.magic);
    assert_eq!(back.fat_sector, 44);
    assert_eq!(back.get_entry(b"sub").unwrap().first_cluster, 30);
    assert_eq!(back.get_entry(b"sub").unwrap().entry_type, DIR_ENTRY_TYPE);
    assert_eq!(back.get_entry(b"file").unwrap().first_cluster, 2);
}

#[test]
fn directory_load_rejects_corrupt_magic() {
    let mut disk = Disk::new(64);
    let dir = Directory::new(20);
    dir.save(&mut disk, 0).unwrap();
    assert!(Directory::load(&disk, 0).is_ok());
    // Zero the magic value in the record's first sector.
    let mut first = disk.read(0, 1).unwrap();
    for b in first.iter_mut().take(4) {
        *b = 0;
    }
    disk.write(0, 1, &first).unwrap();
    assert!(matches!(Directory::load(&disk, 0), Err(FileSystemError::InvalidDirectory)));
}

#[test]
fn disk_read_back_what_was_written() {
    let mut disk = Disk::new(64);
    let sector = to_buffer(b"hello sector");
    disk.write(40, 1, &sector).unwrap();
    let back = disk.read(40, 1).unwrap();
    assert_eq!(back, sector);
}

#[test]
fn disk_rejects_out_of_range_transfers() {
    let mut disk = Disk::new(4);
    assert!(matches!(disk.read(4, 1), Err(FileSystemError::DiskNotAvailable)));
    let sector = vec![0u8; 512];
    assert!(matches!(disk.write(100, 1, &sector), Err(FileSystemError::DiskNotAvailable)));
    disk.enabled = false;
    assert!(matches!(disk.read(0, 1), Err(FileSystemError::DiskNotAvailable)));
    assert!(matches!(disk.check(), Err(FileSystemError::DiskNotAvailable)));
}

#[test]
fn to_buffer_pads_with_zeros() {
    let buf = to_buffer(b"hi");
    assert_eq!(buf.len(), 512);
    assert_eq!(&buf[..2], b"hi");
    assert!(buf[2..].iter().all(|&b| b == 0));
}
