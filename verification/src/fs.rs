//! Filesystem navigation: a current-directory cursor over a mounted
//! volume, with list and change-directory operations.
//!
//! The cursor is the only mutable state; it starts at the root cluster and
//! moves only when a change of directory succeeds.

use vstd::prelude::*;
use vstd::string::StringSliceAdditionalSpecFns;
use crate::boot::spec_boot_sector;
use crate::device::DeviceBlock;
use crate::device::DeviceError;
use crate::dir::DirEntry;
use crate::dir::DirEntryV;
use crate::dir::spec_fat_name;
use crate::fat::Fat32;

verus! {

/// How many directory entries a change of directory examines at most: the
/// fixed size of its internal scratch buffer.
pub const CD_SCRATCH_ENTRIES: usize = 64;

/// The first entry of `entries` that is a directory (attribute bit 0x10
/// set) and whose stored 11-byte name equals `fat_name`.
pub open spec fn spec_first_match(entries: Seq<DirEntryV>, fat_name: Seq<u8>) -> Option<DirEntryV>
    decreases entries.len(),
{
    if entries.len() == 0 {
        None
    } else if entries[0].attr & 0x10 != 0 && entries[0].name == fat_name {
        Some(entries[0])
    } else {
        spec_first_match(entries.drop_first(), fat_name)
    }
}

/// A FAT32 volume together with a current-directory cursor.
pub struct Fs<D: DeviceBlock> {
    pub(crate) fat: Fat32<D>,
    pub(crate) cwd_cluster: u32,
}

impl<D: DeviceBlock> Fs<D> {
    /// The mounted volume.
    pub closed spec fn spec_fat(&self) -> Fat32<D> {
        self.fat
    }

    /// The cluster of the current directory.
    pub closed spec fn spec_cwd(&self) -> u32 {
        self.cwd_cluster
    }

    /// The volume's derived geometry is consistent and the cursor points
    /// at a data cluster (clusters 0 and 1 are reserved).
    pub open spec fn wf(&self) -> bool {
        &&& self.spec_fat().wf()
        &&& self.spec_cwd() >= 2
    }

    /// What a listing with room for `cap` entries yields: the first `cap`
    /// live entries of the current directory's cluster.
    pub open spec fn spec_list_entries(&self, cap: nat) -> Seq<DirEntryV> {
        let total = self.spec_fat().spec_cluster_entries(self.spec_cwd());
        total.take(vstd::math::min(cap as int, total.len() as int))
    }

    /// Mounts `device` and places the cursor at the root directory.
    ///
    /// Fails exactly as mounting does: `ReadFailed` when the device's
    /// block size is not 512, `OutOfBounds` when it cannot serve block 0.
    /// The cursor is only usable (`wf`) when the volume's root cluster is
    /// a data cluster, at least 2.
    pub fn new(device: D) -> (r: Result<Self, DeviceError>)
        ensures
            device.spec_block_size() != 512 ==> r == Err::<Self, DeviceError>(
                DeviceError::ReadFailed,
            ),
            device.spec_block_size() == 512 && !device.spec_valid_block(0) ==> r == Err::<
                Self,
                DeviceError,
            >(DeviceError::OutOfBounds),
            device.spec_block_size() == 512 && device.spec_valid_block(0) ==> (r matches Ok(fs) && {
                let boot = spec_boot_sector(device.spec_block(0));
                &&& fs.spec_fat().wf()
                &&& fs.spec_fat().spec_device() == device
                &&& fs.spec_fat().spec_boot() == boot
                &&& fs.spec_cwd() == boot.root_cluster
                &&& boot.root_cluster >= 2 ==> fs.wf()
            }),
    {
        let fat = match Fat32::new(device) {
            Ok(f) => f,
            Err(e) => {
                return Err(e);
            }
        };
        let root = fat.boot_sector().root_cluster;
        Ok(Self { fat, cwd_cluster: root })
    }

    /// The cluster the cursor currently points at.
    pub fn current_cluster(&self) -> (r: u32)
        ensures
            r == self.spec_cwd(),
    {
        self.cwd_cluster
    }

    /// Lists the current directory into `out`, up to its length, and
    /// returns how many entries were written; entries past that count are
    /// left unchanged. Listing moves nothing: the cursor is untouched.
    pub fn ls(&self, out: &mut Vec<DirEntry>) -> (r: Result<usize, DeviceError>)
        requires
            self.wf(),
        ensures
            final(out)@.len() == old(out)@.len(),
            r matches Ok(n) ==> {
                let listed = self.spec_list_entries(old(out)@.len() as nat);
                &&& n == listed.len()
                &&& final(out).deep_view() == listed + old(out).deep_view().skip(n as int)
            },
            self.spec_fat().spec_cluster_readable(self.spec_cwd()) ==> r is Ok,
            self.spec_fat().spec_device().spec_block_size() == 512 && r is Err ==> r == Err::<
                usize,
                DeviceError,
            >(DeviceError::OutOfBounds),
    {
        self.fat.read_directory_cluster(self.cwd_cluster, out)
    }

    /// Moves the cursor to the subdirectory of the current directory named
    /// `name`, compared under the FAT 8.3 rule (upper-cased, truncated to
    /// 11 bytes, space-padded). At most `CD_SCRATCH_ENTRIES` entries of
    /// the current directory are examined. When no directory entry of
    /// that name is found among them — even if a plain file of that name
    /// exists — the cursor stays and the call fails with `ReadFailed`.
    pub fn cd(&mut self, name: &str) -> (r: Result<(), DeviceError>)
        requires
            old(self).wf(),
        ensures
            final(self).spec_fat() == old(self).spec_fat(),
            r is Err ==> *final(self) == *old(self),
            r matches Ok(()) ==> {
                let listed = old(self).spec_list_entries(CD_SCRATCH_ENTRIES as nat);
                let m = spec_first_match(listed, spec_fat_name(name.spec_bytes()));
                &&& m is Some
                &&& final(self).spec_cwd() == m->Some_0.first_cluster
            },
            old(self).spec_fat().spec_cluster_readable(old(self).spec_cwd()) ==> {
                let listed = old(self).spec_list_entries(CD_SCRATCH_ENTRIES as nat);
                let m = spec_first_match(listed, spec_fat_name(name.spec_bytes()));
                &&& (r is Ok <==> m is Some)
                &&& (m is None ==> r == Err::<(), DeviceError>(DeviceError::ReadFailed))
            },
    {
        let ghost listed = self.spec_list_entries(CD_SCRATCH_ENTRIES as nat);
        let ghost target = spec_fat_name(name.spec_bytes());

        let mut entries: Vec<DirEntry> = Vec::new();
        let mut k: usize = 0;
        while k < CD_SCRATCH_ENTRIES
            invariant
                entries@.len() == k,
                k <= CD_SCRATCH_ENTRIES,
            decreases CD_SCRATCH_ENTRIES - k,
        {
            entries.push(DirEntry { name: [0u8; 11], attr: 0, first_cluster: 0, size: 0 });
            k += 1;
        }

        let count = match self.fat.read_directory_cluster(self.cwd_cluster, &mut entries) {
            Ok(c) => c,
            Err(e) => {
                return Err(e);
            }
        };
        proof {
            assert(count == listed.len());
            assert(entries.deep_view().take(count as int) =~= listed);
            assert(listed.skip(0) =~= listed);
        }

        let mut idx: usize = 0;
        while idx < count
            invariant
                self == old(self),
                self.wf(),
                count == listed.len(),
                idx <= count,
                count <= entries@.len(),
                listed == old(self).spec_list_entries(CD_SCRATCH_ENTRIES as nat),
                target == spec_fat_name(name.spec_bytes()),
                entries.deep_view().take(count as int) == listed,
                spec_first_match(listed, target) == spec_first_match(
                    listed.skip(idx as int),
                    target,
                ),
            decreases count - idx,
        {
            let entry = entries[idx];
            proof {
                assert(entry@ == entries.deep_view().take(count as int)[idx as int]);
                assert(listed.skip(idx as int)[0] == listed[idx as int]);
            }
            if entry.is_directory() && entry.matches_name(name) {
                self.cwd_cluster = entry.first_cluster;
                return Ok(());
            }
            proof {
                assert(listed.skip(idx as int).drop_first() =~= listed.skip(idx as int + 1));
            }
            idx += 1;
        }
        proof {
            assert(listed.skip(count as int) =~= Seq::<DirEntryV>::empty());
        }
        Err(DeviceError::ReadFailed)
    }

    /// Listing is idempotent: without an intervening change of directory,
    /// two listings of the same filesystem with the same capacity yield
    /// identical entries, since what a listing yields is a function of the
    /// filesystem state and the capacity alone.
    pub proof fn lemma_list_idempotent(
        &self,
        cap: nat,
        first: Seq<DirEntryV>,
        second: Seq<DirEntryV>,
    )
        requires
            first == self.spec_list_entries(cap),
            second == self.spec_list_entries(cap),
        ensures
            first == second,
    {
    }
}

} // verus!
