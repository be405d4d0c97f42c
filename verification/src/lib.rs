//! A read-only FAT32 decoder and navigator over a raw block device.
//!
//! The crate decodes the boot sector of a FAT32 volume, resolves FAT
//! entries and cluster chains, decodes 32-byte directory entries, and
//! keeps a "current directory" cursor with `list` and `change directory`
//! operations. No dynamic structure beyond caller-supplied buffers is
//! used, and nothing is ever written to the device.

pub mod boot;
pub mod bytes;
pub mod device;
pub mod dir;
pub mod fat;
pub mod fs;

pub use boot::BootSector;
pub use device::DeviceBlock;
pub use device::DeviceError;
pub use device::RamDisk;
pub use dir::DirEntry;
pub use fat::Fat32;
pub use fs::Fs;
