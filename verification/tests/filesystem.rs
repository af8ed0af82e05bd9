use ryos::api::FAtApi;
use ryos::directory::{Directory, DIR_ENTRY_TYPE};
use ryos::fat::FAT;
use ryos::disk::Disk;
use ryos::errors::FileSystemError;
use ryos::to_buffer;

fn fresh_fs() -> FAtApi {
    FAtApi::format(Disk::new(128)).unwrap()
}

fn listing(fs: &FAtApi) -> Vec<Vec<u8>> {
    fs.list_dir().unwrap().iter().map(|e| e.name()).collect()
}

#[test]
fn touch_write_cat_rm_roundtrip() {
    let mut fs = fresh_fs();
    fs.add_file(b"a.txt").unwrap();
    assert!(listing(&fs).contains(&b"a.txt".to_vec()));

    fs.change_data(b"a.txt", &to_buffer(b"hi")).unwrap();
    let data = fs.get_data(b"a.txt").unwrap();
    assert_eq!(&data[..2], b"hi");
    assert!(data[2..].iter().all(|&b| b == 0));

    // The file's data sector was the first usable sector.
    fs.remove_entry(b"a.txt").unwrap();
    assert!(!listing(&fs).contains(&b"a.txt".to_vec()));
    assert!(fs.allocator.freed_sectors.contains(&21));
}

#[test]
fn mkdir_and_cd_restore_working_directory() {
    let mut fs = fresh_fs();
    fs.new_dir(b"d").unwrap();
    let before = fs.working_dir.clone();
    fs.cd(b"d").unwrap();
    assert_eq!(fs.working_dir, vec![b"d".to_vec()]);
    fs.cd(b"..").unwrap();
    assert_eq!(fs.working_dir, before);
}

#[test]
fn cd_at_root_stays_at_root() {
    let mut fs = fresh_fs();
    fs.cd(b"..").unwrap();
    assert!(fs.working_dir.is_empty());
}

#[test]
fn cd_into_missing_directory_fails() {
    let mut fs = fresh_fs();
    assert!(matches!(fs.cd(b"nope"), Err(FileSystemError::DirectoryNotFound)));
    fs.add_file(b"plain").unwrap();
    assert!(matches!(fs.cd(b"plain"), Err(FileSystemError::DirectoryNotFound)));
}

#[test]
fn new_dir_links_self_and_parent() {
    let mut fs = fresh_fs();
    // On a fresh filesystem the next nine sectors start at the watermark:
    // one for the new table, eight for the record itself.
    let base = fs.allocator.next_free;
    fs.new_dir(b"sub").unwrap();
    let sub = Directory::load(&fs.disk, base + 1).unwrap();
    let dot = sub.get_entry(b".").unwrap();
    assert_eq!(dot.first_cluster, base + 1);
    assert_eq!(dot.entry_type, DIR_ENTRY_TYPE);
    let dotdot = sub.get_entry(b"..").unwrap();
    assert_eq!(dotdot.first_cluster, 0);
    assert_eq!(dotdot.entry_type, DIR_ENTRY_TYPE);
    // The parent lists the new name, pointing at the record.
    let root = Directory::load(&fs.disk, 0).unwrap();
    assert_eq!(root.get_entry(b"sub").unwrap().first_cluster, base + 1);
}

#[test]
fn nested_directories_resolve() {
    let mut fs = fresh_fs();
    fs.new_dir(b"outer").unwrap();
    fs.cd(b"outer").unwrap();
    fs.new_dir(b"inner").unwrap();
    fs.cd(b"inner").unwrap();
    fs.add_file(b"deep.txt").unwrap();
    fs.change_data(b"deep.txt", &to_buffer(b"deep")).unwrap();
    assert_eq!(&fs.get_data(b"deep.txt").unwrap()[..4], b"deep");
    fs.cd(b"..").unwrap();
    fs.cd(b"..").unwrap();
    assert!(fs.working_dir.is_empty());
    assert!(listing(&fs).contains(&b"outer".to_vec()));
    assert!(!listing(&fs).contains(&b"deep.txt".to_vec()));
}

#[test]
fn removing_a_tree_leaks_no_sectors() {
    let mut fs = fresh_fs();
    let allocated_before = fs.allocator.next_free as usize - fs.allocator.freed_sectors.len();
    fs.new_dir(b"top").unwrap();
    fs.cd(b"top").unwrap();
    fs.add_file(b"one").unwrap();
    fs.new_dir(b"mid").unwrap();
    fs.cd(b"mid").unwrap();
    fs.add_file(b"two").unwrap();
    fs.add_file(b"three").unwrap();
    fs.cd(b"..").unwrap();
    fs.cd(b"..").unwrap();
    let allocated_during = fs.allocator.next_free as usize - fs.allocator.freed_sectors.len();
    assert!(allocated_during > allocated_before);
    fs.remove_entry(b"top").unwrap();
    let allocated_after = fs.allocator.next_free as usize - fs.allocator.freed_sectors.len();
    assert_eq!(allocated_after, allocated_before);
}

#[test]
fn append_extends_file_contents() {
    let mut fs = fresh_fs();
    fs.add_file(b"log").unwrap();
    fs.change_data(b"log", &to_buffer(b"hi")).unwrap();
    fs.append_data(b"log", &to_buffer(b"!")).unwrap();
    assert_eq!(&fs.get_data(b"log").unwrap()[..3], b"hi!");
}

#[test]
fn duplicate_names_are_refused() {
    let mut fs = fresh_fs();
    fs.add_file(b"x").unwrap();
    assert!(matches!(fs.add_file(b"x"), Err(FileSystemError::FileAlreadyExists)));
    fs.new_dir(b"d").unwrap();
    assert!(matches!(fs.new_dir(b"d"), Err(FileSystemError::DirAlreadyExists)));
    // A directory of that name also blocks a new file, and the other way
    // round.
    assert!(matches!(fs.add_file(b"d"), Err(FileSystemError::FileAlreadyExists)));
    assert!(matches!(fs.new_dir(b"x"), Err(FileSystemError::DirAlreadyExists)));
}

#[test]
fn data_operations_need_a_file() {
    let mut fs = fresh_fs();
    fs.new_dir(b"d").unwrap();
    assert!(matches!(fs.get_data(b"d"), Err(FileSystemError::NotAFile)));
    assert!(matches!(
        fs.change_data(b"d", &to_buffer(b"no")),
        Err(FileSystemError::NotAFile)
    ));
    assert!(matches!(fs.get_data(b"missing"), Err(FileSystemError::FileNotFound)));
    assert!(matches!(fs.remove_entry(b"missing"), Err(FileSystemError::FileNotFound)));
}

#[test]
fn search_directory_distinguishes_kinds() {
    let mut fs = fresh_fs();
    fs.new_dir(b"d").unwrap();
    fs.add_file(b"f").unwrap();
    assert_eq!(fs.search_directory(b"d").unwrap(), true);
    assert_eq!(fs.search_directory(b"f").unwrap(), false);
    assert_eq!(fs.search_directory(b"absent").unwrap(), false);
}

#[test]
fn root_table_api_bounds() {
    let mut fs = fresh_fs();
    assert!(matches!(fs.get_entry(0), Err(FileSystemError::IndexOutOfBounds)));
    assert!(matches!(fs.get_entry(256), Err(FileSystemError::IndexOutOfBounds)));
    assert!(matches!(fs.get_sector(5), Err(FileSystemError::UnusedSector)));
    fs.new_entry(b"cached").unwrap();
    assert_eq!(fs.index_by_name(b"cached").unwrap(), 1);
    assert_eq!(fs.get_sector(1).unwrap(), 21);
}

#[test]
fn state_survives_remount() {
    let mut fs = fresh_fs();
    fs.add_file(b"keep").unwrap();
    fs.change_data(b"keep", &to_buffer(b"still here")).unwrap();
    fs.save().unwrap();
    let disk = fs.disk;
    let fs2 = FAtApi::new(disk).unwrap();
    assert_eq!(&fs2.get_data(b"keep").unwrap()[..10], b"still here");
}

#[test]
fn corrupt_root_table_is_fatal_at_startup() {
    let fs = fresh_fs();
    let mut disk = fs.disk;
    // Zero the root allocation table's magic entry.
    let mut table = disk.read(20, 1).unwrap();
    table[0] = 0;
    table[1] = 0;
    disk.write(20, 1, &table).unwrap();
    assert!(matches!(FAtApi::new(disk), Err(FileSystemError::InvalidDirectory)));
}

#[test]
fn corrupt_root_directory_is_reformatted_at_startup() {
    let fs = fresh_fs();
    let mut disk = fs.disk;
    let mut first = disk.read(0, 1).unwrap();
    for b in first.iter_mut().take(4) {
        *b = 0;
    }
    disk.write(0, 1, &first).unwrap();
    let fs2 = FAtApi::new(disk).unwrap();
    assert!(fs2.list_dir().unwrap().is_empty());
}

#[test]
fn disabled_device_fails_everything() {
    let mut disk = Disk::new(64);
    disk.enabled = false;
    assert!(matches!(FAtApi::new(disk), Err(FileSystemError::DiskNotAvailable)));
    let mut disk2 = Disk::new(64);
    disk2.enabled = false;
    assert!(matches!(FAtApi::format(disk2), Err(FileSystemError::DiskNotAvailable)));
}

#[test]
fn entry_of_unknown_kind_is_not_a_directory() {
    let mut fs = fresh_fs();
    fs.add_file(b"odd").unwrap();
    // Corrupt the entry's type byte on disk: neither file nor directory.
    let mut first = fs.disk.read(0, 1).unwrap();
    first[6 + 15] = 0x99;
    fs.disk.write(0, 1, &first).unwrap();
    assert!(matches!(fs.remove_entry(b"odd"), Err(FileSystemError::NotADirectory)));
}

#[test]
fn name_at_full_capacity_is_kept_exactly() {
    let mut fs = fresh_fs();
    fs.add_file(b"exactly13byte").unwrap();
    assert!(listing(&fs).contains(&b"exactly13byte".to_vec()));
    assert!(fs.get_data(b"exactly13byte").is_ok());
    // A fourteenth byte is truncated away, so only the stored prefix matches.
    fs.add_file(b"fourteen-bytes").unwrap();
    assert!(matches!(
        fs.get_data(b"fourteen-bytes"),
        Err(FileSystemError::FileNotFound)
    ));
    assert!(fs.get_data(b"fourteen-byte").is_ok());
}

#[test]
fn empty_name_is_indistinguishable_from_a_free_slot() {
    let mut fs = fresh_fs();
    // An all-zero name marks a slot empty, so the new entry is invisible.
    fs.add_file(b"").unwrap();
    assert!(listing(&fs).is_empty());
    assert!(matches!(fs.get_data(b""), Err(FileSystemError::FileNotFound)));
}

#[test]
fn stale_working_directory_segment_is_directory_not_found() {
    let mut fs = fresh_fs();
    fs.new_dir(b"d").unwrap();
    fs.cd(b"d").unwrap();
    // Empty the root record's slot naming "d": the working-directory walk
    // now has a missing segment, which path resolution reports as
    // DirectoryNotFound.
    let mut first = fs.disk.read(0, 1).unwrap();
    for b in first.iter_mut().skip(6).take(13) {
        *b = 0;
    }
    fs.disk.write(0, 1, &first).unwrap();
    assert!(matches!(fs.list_dir(), Err(FileSystemError::DirectoryNotFound)));
    assert!(matches!(fs.get_data(b"x"), Err(FileSystemError::DirectoryNotFound)));
}

#[test]
fn removing_a_file_clears_its_table_slot() {
    let mut fs = fresh_fs();
    fs.add_file(b"a.txt").unwrap();
    let table_before = FAT::load(&fs.disk, 20).unwrap();
    assert!(table_before.entries[1].is_used());
    fs.remove_entry(b"a.txt").unwrap();
    let table_after = FAT::load(&fs.disk, 20).unwrap();
    assert!(table_after.entries[1].is_free());
    assert!(fs.allocator.freed_sectors.contains(&21));
}

#[test]
fn removing_a_childless_directory_reclaims_its_nine_sectors() {
    let mut fs = fresh_fs();
    // The new directory takes the watermark's next nine sectors: its table
    // at 21, its record at 22..30.
    fs.new_dir(b"solo").unwrap();
    assert!(fs.allocator.freed_sectors.is_empty());
    fs.remove_entry(b"solo").unwrap();
    assert_eq!(fs.allocator.freed_sectors, vec![21, 22, 23, 24, 25, 26, 27, 28, 29]);
    // Its record's magic was zeroed on disk.
    assert!(matches!(Directory::load(&fs.disk, 22), Err(FileSystemError::InvalidDirectory)));
}

