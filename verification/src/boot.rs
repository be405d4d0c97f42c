//! Boot-sector decoding.
//!
//! The first 512-byte block of a FAT32 volume holds the geometry fields at
//! fixed offsets. Decoding is unconditional: no signature or sanity check
//! is made, so malformed values (a zero sectors-per-cluster, say) are
//! returned as read and must be guarded against downstream.

use vstd::prelude::*;
use crate::bytes::le16;
use crate::bytes::le32;
use crate::bytes::le32_at;
use crate::bytes::read_le16;
use crate::bytes::read_le32;
use crate::device::DeviceBlock;
use crate::device::DeviceError;

verus! {

/// The geometry of a FAT32 volume, as stored in its boot sector.
#[derive(Debug, Clone, Copy)]
pub struct BootSector {
    pub bytes_per_sector: u16,
    pub sectors_per_cluster: u8,
    pub reserved_sectors: u16,
    pub fat_count: u8,
    pub fat_size_sectors: u32,
    pub root_cluster: u32,
}

/// The geometry encoded in boot-sector bytes `block`: bytes-per-sector at
/// offset 0x0B, sectors-per-cluster at 0x0D, reserved sectors at 0x0E,
/// FAT count at 0x10, FAT size at 0x24, and root cluster at 0x2C, every
/// multi-byte field little-endian.
pub open spec fn spec_boot_sector(block: Seq<u8>) -> BootSector
    recommends
        block.len() >= 0x30,
{
    BootSector {
        bytes_per_sector: le16(block[0x0B], block[0x0C]),
        sectors_per_cluster: block[0x0D],
        reserved_sectors: le16(block[0x0E], block[0x0F]),
        fat_count: block[0x10],
        fat_size_sectors: le32_at(block, 0x24),
        root_cluster: le32_at(block, 0x2C),
    }
}

impl BootSector {
    /// Reads block 0 of `device` and decodes it as a boot sector.
    ///
    /// Fails with `ReadFailed` when the device's block size is not 512,
    /// with `OutOfBounds` when the device cannot serve block 0, and
    /// otherwise returns exactly the geometry encoded in block 0.
    pub fn read_from<D: DeviceBlock>(device: &D) -> (r: Result<Self, DeviceError>)
        ensures
            device.spec_block_size() != 512 ==> r == Err::<BootSector, DeviceError>(
                DeviceError::ReadFailed,
            ),
            device.spec_block_size() == 512 && !device.spec_valid_block(0) ==> r == Err::<
                BootSector,
                DeviceError,
            >(DeviceError::OutOfBounds),
            device.spec_block_size() == 512 && device.spec_valid_block(0) ==> r == Ok::<
                BootSector,
                DeviceError,
            >(spec_boot_sector(device.spec_block(0))),
    {
        if device.block_size() != 512 {
            return Err(DeviceError::ReadFailed);
        }

        let mut block: Vec<u8> = Vec::new();
        let mut i: usize = 0;
        while i < 512
            invariant
                block@.len() == i,
                i <= 512,
            decreases 512 - i,
        {
            block.push(0);
            i += 1;
        }

        match device.read(0, &mut block) {
            Ok(()) => {}
            Err(e) => {
                return Err(e);
            }
        }

        let bytes_per_sector = read_le16(block[0x0B], block[0x0C]);
        let sectors_per_cluster = block[0x0D];
        let reserved_sectors = read_le16(block[0x0E], block[0x0F]);
        let fat_count = block[0x10];
        let fat_size_sectors = read_le32(block[0x24], block[0x25], block[0x26], block[0x27]);
        let root_cluster = read_le32(block[0x2C], block[0x2D], block[0x2E], block[0x2F]);

        Ok(
            Self {
                bytes_per_sector,
                sectors_per_cluster,
                reserved_sectors,
                fat_count,
                fat_size_sectors,
                root_cluster,
            },
        )
    }
}

} // verus!
