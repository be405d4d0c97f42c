use fat32rs::DeviceBlock;
use fat32rs::DeviceError;
use fat32rs::RamDisk;

// A simple disk with predictable bytes 0..16, in 4-byte blocks.
fn disk_data() -> Vec<u8> {
    vec![0, 1, 2, 3, 4, 5, 6, 7, 8, 9, 10, 11, 12, 13, 14, 15]
}

#[test]
fn test_block_size() {
    let data = disk_data();
    let disk = RamDisk::new(&data, 4);
    assert_eq!(disk.block_size(), 4);
}

#[test]
fn test_block_count() {
    let data = disk_data();
    let disk = RamDisk::new(&data, 4);
    assert_eq!(disk.block_count(), 16 / 4); // 4 blocks
}

#[test]
fn test_read_first_block() {
    let data = disk_data();
    let disk = RamDisk::new(&data, 4);
    let mut buf = vec![0u8; 4];

    disk.read(0, &mut buf).unwrap();

    assert_eq!(buf, vec![0, 1, 2, 3]);
}

#[test]
fn test_read_second_block() {
    let data = disk_data();
    let disk = RamDisk::new(&data, 4);
    let mut buf = vec![0u8; 4];

    disk.read(1, &mut buf).unwrap();

    assert_eq!(buf, vec![4, 5, 6, 7]);
}

#[test]
fn test_read_last_block() {
    let data = disk_data();
    let disk = RamDisk::new(&data, 4);
    let mut buf = vec![0u8; 4];

    disk.read(3, &mut buf).unwrap();

    assert_eq!(buf, vec![12, 13, 14, 15]);
}

#[test]
fn test_out_of_bounds_block() {
    let data = disk_data();
    let disk = RamDisk::new(&data, 4);
    let mut buf = vec![0u8; 4];

    let result = disk.read(4, &mut buf); // block 4 does not exist

    assert!(matches!(result, Err(DeviceError::OutOfBounds)));
}

#[test]
fn test_wrong_buffer_size() {
    let data = disk_data();
    let disk = RamDisk::new(&data, 4);
    let mut buf = vec![0u8; 2]; // too small

    let result = disk.read(0, &mut buf);

    assert!(matches!(result, Err(DeviceError::ReadFailed)));
}

#[test]
fn test_every_valid_block_reads_its_range() {
    let data = disk_data();
    let disk = RamDisk::new(&data, 4);
    for b in 0..4u64 {
        let mut buf = vec![0u8; 4];
        disk.read(b, &mut buf).unwrap();
        let start = b as usize * 4;
        assert_eq!(buf, data[start..start + 4].to_vec());
    }
}

#[test]
fn test_wrong_buffer_size_regardless_of_index() {
    let data = disk_data();
    let disk = RamDisk::new(&data, 4);
    // Too small, too large, and an out-of-range index: the buffer check wins.
    let mut small = vec![0u8; 3];
    let mut large = vec![0u8; 5];
    assert!(matches!(disk.read(0, &mut small), Err(DeviceError::ReadFailed)));
    assert!(matches!(disk.read(99, &mut large), Err(DeviceError::ReadFailed)));
    assert!(matches!(disk.read(99, &mut small), Err(DeviceError::ReadFailed)));
}

#[test]
fn test_partial_trailing_block_not_addressable() {
    // 10 bytes in 4-byte blocks: only 2 whole blocks.
    let data: Vec<u8> = (0..10).collect();
    let disk = RamDisk::new(&data, 4);
    assert_eq!(disk.block_count(), 2);
    let mut buf = vec![0u8; 4];
    assert!(disk.read(1, &mut buf).is_ok());
    assert!(matches!(disk.read(2, &mut buf), Err(DeviceError::OutOfBounds)));
}
