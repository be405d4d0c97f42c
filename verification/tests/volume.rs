use fat32rs::BootSector;
use fat32rs::DeviceError;
use fat32rs::DirEntry;
use fat32rs::Fat32;
use fat32rs::Fs;
use fat32rs::RamDisk;

fn put_u16(v: &mut Vec<u8>, off: usize, x: u16) {
    v[off] = x as u8;
    v[off + 1] = (x >> 8) as u8;
}

fn put_u32(v: &mut Vec<u8>, off: usize, x: u32) {
    v[off] = x as u8;
    v[off + 1] = (x >> 8) as u8;
    v[off + 2] = (x >> 16) as u8;
    v[off + 3] = (x >> 24) as u8;
}

fn put_name(v: &mut Vec<u8>, off: usize, name: &[u8; 11]) {
    for i in 0..11 {
        v[off + i] = name[i];
    }
}

// A small synthetic volume: sector 0 the boot sector, sector 1 the single
// FAT copy, sectors 2.. the data clusters (one sector per cluster, so
// cluster c lives in sector c).
//
// FAT:       2 -> 3 -> 4 -> end-of-chain; 5 -> end-of-chain
// cluster 2: the root directory: a deleted slot, a long-name fragment,
//            file "HELLO   TXT", directory "TEST", file "DATA"
// cluster 3: the "TEST" directory: one file "INNER   BIN"
fn volume_data() -> Vec<u8> {
    let mut v = vec![0u8; 512 * 6];
    // boot sector
    put_u16(&mut v, 0x0B, 512); // bytes per sector
    v[0x0D] = 1; // sectors per cluster
    put_u16(&mut v, 0x0E, 1); // reserved sectors
    v[0x10] = 1; // FAT copies
    put_u32(&mut v, 0x24, 1); // FAT size in sectors
    put_u32(&mut v, 0x2C, 2); // root cluster
    // FAT entries, 4 bytes each, entry c at byte 4 * c of sector 1
    put_u32(&mut v, 512 + 4 * 2, 3);
    put_u32(&mut v, 512 + 4 * 3, 4);
    // entry 4: end-of-chain, spelled out byte for byte
    v[512 + 4 * 4] = 0xF8;
    v[512 + 4 * 4 + 1] = 0xFF;
    v[512 + 4 * 4 + 2] = 0xFF;
    v[512 + 4 * 4 + 3] = 0x0F;
    put_u32(&mut v, 512 + 4 * 5, 0x0FFF_FFFF);
    // root directory, cluster 2 = sector 2
    let root = 512 * 2;
    v[root] = 0xE5; // deleted entry
    v[root + 32] = 0x41; // long-name fragment
    v[root + 32 + 0x0B] = 0x0F;
    put_name(&mut v, root + 64, b"HELLO   TXT"); // a plain file
    v[root + 64 + 0x0B] = 0x20;
    put_u16(&mut v, root + 64 + 0x14, 0);
    put_u16(&mut v, root + 64 + 0x1A, 5);
    put_u32(&mut v, root + 64 + 0x1C, 1234);
    put_name(&mut v, root + 96, b"TEST       "); // a subdirectory
    v[root + 96 + 0x0B] = 0x10;
    put_u16(&mut v, root + 96 + 0x1A, 3);
    put_name(&mut v, root + 128, b"DATA       "); // a file, not a directory
    v[root + 128 + 0x0B] = 0x20;
    put_u16(&mut v, root + 128 + 0x1A, 4);
    // the TEST directory, cluster 3 = sector 3
    let sub = 512 * 3;
    put_name(&mut v, sub, b"INNER   BIN");
    v[sub + 0x0B] = 0x20;
    put_u32(&mut v, sub + 0x1C, 77);
    v
}

#[test]
fn test_boot_sector_fields() {
    // One 512-byte block holding only a boot sector.
    let mut data = vec![0u8; 512];
    put_u16(&mut data, 0x0B, 512);
    data[0x0D] = 1;
    put_u16(&mut data, 0x0E, 32);
    data[0x10] = 2;
    put_u32(&mut data, 0x24, 100);
    put_u32(&mut data, 0x2C, 2);
    let disk = RamDisk::new(&data, 512);
    let boot = BootSector::read_from(&disk).unwrap();
    assert_eq!(boot.bytes_per_sector, 512);
    assert_eq!(boot.sectors_per_cluster, 1);
    assert_eq!(boot.reserved_sectors, 32);
    assert_eq!(boot.fat_count, 2);
    assert_eq!(boot.fat_size_sectors, 100);
    assert_eq!(boot.root_cluster, 2);
}

#[test]
fn test_boot_sector_wrong_block_size() {
    let data = vec![0u8; 512];
    let disk = RamDisk::new(&data, 256);
    assert!(matches!(BootSector::read_from(&disk), Err(DeviceError::ReadFailed)));
}

#[test]
fn test_cluster_two_maps_to_first_data_sector() {
    // reserved = 32, 2 FAT copies of 100 sectors: data begins at 232.
    let mut data = vec![0u8; 512];
    put_u16(&mut data, 0x0B, 512);
    data[0x0D] = 8;
    put_u16(&mut data, 0x0E, 32);
    data[0x10] = 2;
    put_u32(&mut data, 0x24, 100);
    put_u32(&mut data, 0x2C, 2);
    let disk = RamDisk::new(&data, 512);
    let fat = Fat32::new(disk).unwrap();
    assert_eq!(fat.cluster_to_sector(2), 232);
    // later clusters advance by sectors-per-cluster
    assert_eq!(fat.cluster_to_sector(3), 240);
    assert_eq!(fat.cluster_to_sector(10), 232 + 8 * 8);
}

#[test]
fn test_fat_entry_end_of_chain_mask() {
    // The entry of cluster 4 is stored as [0xF8, 0xFF, 0xFF, 0x0F]:
    // masked to 28 bits it reads back as 0x0FFFFFF8, an end-of-chain mark.
    let data = volume_data();
    let disk = RamDisk::new(&data, 512);
    let fat = Fat32::new(disk).unwrap();
    assert_eq!(fat.read_fat_entry(4).unwrap(), 0x0FFF_FFF8);
    assert_eq!(fat.read_fat_entry(2).unwrap(), 3);
    assert_eq!(fat.read_fat_entry(3).unwrap(), 4);
}

#[test]
fn test_cluster_chain_three_entries() {
    let data = volume_data();
    let disk = RamDisk::new(&data, 512);
    let fat = Fat32::new(disk).unwrap();
    let mut out = vec![0u32; 10];
    let count = fat.cluster_chain(2, &mut out).unwrap();
    assert_eq!(count, 3);
    assert_eq!(&out[..3], &[2, 3, 4]);
    // the end-of-chain marker itself is never written to the output
    assert!(out.iter().all(|&c| c < 0x0FFF_FFF8));
    // untouched capacity keeps its old contents
    assert_eq!(&out[3..], &[0, 0, 0, 0, 0, 0, 0]);
}

#[test]
fn test_cluster_chain_truncates_at_capacity() {
    let data = volume_data();
    let disk = RamDisk::new(&data, 512);
    let fat = Fat32::new(disk).unwrap();
    let mut out = vec![0u32; 2];
    let count = fat.cluster_chain(2, &mut out).unwrap();
    assert_eq!(count, 2); // silent truncation, not an error
    assert_eq!(out, vec![2, 3]);
}

#[test]
fn test_read_directory_skips_dead_slots() {
    // One deleted entry, one long-name fragment, and valid entries:
    // only the valid ones come out, in slot order.
    let data = volume_data();
    let disk = RamDisk::new(&data, 512);
    let fat = Fat32::new(disk).unwrap();
    let mut out = vec![
        DirEntry { name: [0; 11], attr: 0, first_cluster: 0, size: 0 };
        8
    ];
    let count = fat.read_directory_cluster(2, &mut out).unwrap();
    assert_eq!(count, 3);
    assert_eq!(out[0].name, *b"HELLO   TXT");
    assert_eq!(out[0].attr, 0x20);
    assert_eq!(out[0].first_cluster, 5);
    assert_eq!(out[0].size, 1234);
    assert_eq!(out[1].name, *b"TEST       ");
    assert_eq!(out[1].attr, 0x10);
    assert_eq!(out[1].first_cluster, 3);
    assert_eq!(out[2].name, *b"DATA       ");
}

#[test]
fn test_read_directory_truncates_at_capacity() {
    let data = volume_data();
    let disk = RamDisk::new(&data, 512);
    let fat = Fat32::new(disk).unwrap();
    let mut out = vec![
        DirEntry { name: [0; 11], attr: 0, first_cluster: 0, size: 0 };
        2
    ];
    let count = fat.read_directory_cluster(2, &mut out).unwrap();
    assert_eq!(count, 2);
    assert_eq!(out[0].name, *b"HELLO   TXT");
    assert_eq!(out[1].name, *b"TEST       ");
}

#[test]
fn test_from_bytes_decodes_valid_entry() {
    let mut slot = vec![0u8; 32];
    for (i, b) in b"NOTES   TXT".iter().enumerate() {
        slot[i] = *b;
    }
    slot[0x0B] = 0x20;
    put_u16(&mut slot, 0x14, 0x0001); // cluster high half
    put_u16(&mut slot, 0x1A, 0x0002); // cluster low half
    put_u32(&mut slot, 0x1C, 9876);
    let e = DirEntry::from_bytes(&slot).unwrap();
    assert_eq!(e.name, *b"NOTES   TXT");
    assert_eq!(e.attr, 0x20);
    assert_eq!(e.first_cluster, 0x0001_0002);
    assert_eq!(e.size, 9876);
    assert!(e.is_file());
    assert!(!e.is_directory());
}

#[test]
fn test_from_bytes_rejects_dead_slots() {
    let live = {
        let mut s = vec![0u8; 32];
        s[0] = b'A';
        s
    };
    assert!(DirEntry::from_bytes(&live).is_some());

    let mut end = live.clone();
    end[0] = 0x00;
    assert!(DirEntry::from_bytes(&end).is_none());

    let mut deleted = live.clone();
    deleted[0] = 0xE5;
    assert!(DirEntry::from_bytes(&deleted).is_none());

    let mut long_name = live.clone();
    long_name[0x0B] = 0x0F;
    assert!(DirEntry::from_bytes(&long_name).is_none());

    assert!(DirEntry::from_bytes(&live[..31]).is_none());
}

#[test]
fn test_matches_name_folds_case_and_pads() {
    let e = DirEntry { name: *b"TEST       ", attr: 0x10, first_cluster: 3, size: 0 };
    assert!(e.matches_name("TEST"));
    assert!(e.matches_name("test"));
    assert!(e.matches_name("TeSt"));
    assert!(!e.matches_name("TES"));
    assert!(!e.matches_name("TESTS"));
    assert!(!e.matches_name(""));
    // names longer than 11 bytes are truncated
    let long = DirEntry { name: *b"ABCDEFGHIJK", attr: 0x10, first_cluster: 3, size: 0 };
    assert!(long.matches_name("abcdefghijklmnop"));
}

#[test]
fn test_cd_into_subdirectory() {
    let data = volume_data();
    let disk = RamDisk::new(&data, 512);
    let mut fs = Fs::new(disk).unwrap();
    assert_eq!(fs.current_cluster(), 2);
    fs.cd("TEST").unwrap();
    assert_eq!(fs.current_cluster(), 3);
    let mut out = vec![
        DirEntry { name: [0; 11], attr: 0, first_cluster: 0, size: 0 };
        8
    ];
    let count = fs.ls(&mut out).unwrap();
    assert_eq!(count, 1);
    assert_eq!(out[0].name, *b"INNER   BIN");
    assert_eq!(out[0].size, 77);
}

#[test]
fn test_cd_fails_without_matching_directory() {
    let data = volume_data();
    let disk = RamDisk::new(&data, 512);
    let mut fs = Fs::new(disk).unwrap();
    // absent name
    assert!(matches!(fs.cd("NOPE"), Err(DeviceError::ReadFailed)));
    // a file of the requested name is not a directory
    assert!(matches!(fs.cd("DATA"), Err(DeviceError::ReadFailed)));
    // the cursor did not move
    assert_eq!(fs.current_cluster(), 2);
}

#[test]
fn test_ls_is_idempotent() {
    let data = volume_data();
    let disk = RamDisk::new(&data, 512);
    let fs = Fs::new(disk).unwrap();
    let mut first = vec![
        DirEntry { name: [0; 11], attr: 0, first_cluster: 0, size: 0 };
        8
    ];
    let mut second = first.clone();
    let n1 = fs.ls(&mut first).unwrap();
    let n2 = fs.ls(&mut second).unwrap();
    assert_eq!(n1, n2);
    assert_eq!(first, second);
}

#[test]
fn test_mount_fails_on_wrong_block_size() {
    let data = volume_data();
    let disk = RamDisk::new(&data, 1024);
    assert!(matches!(Fs::new(disk), Err(DeviceError::ReadFailed)));
}

#[test]
fn test_mount_fails_on_empty_device() {
    let data: Vec<u8> = Vec::new();
    let disk = RamDisk::new(&data, 512);
    assert!(matches!(Fs::new(disk), Err(DeviceError::OutOfBounds)));
}
