//! The FAT engine: offset arithmetic over the volume geometry, FAT entry
//! resolution, cluster-chain walking, and decoding of one directory
//! cluster.
//!
//! A mounted volume reads its boot sector exactly once; the derived
//! geometry (first FAT sector, first data sector) is fixed for the life of
//! the value, which `wf` records.

use vstd::prelude::*;
use vstd::arithmetic::div_mod::lemma_fundamental_div_mod;
use vstd::arithmetic::div_mod::lemma_fundamental_div_mod_converse_mod;
use vstd::arithmetic::div_mod::lemma_mod_bound;
use crate::boot::BootSector;
use crate::boot::spec_boot_sector;
use crate::bytes::le32_at;
use crate::bytes::read_le32;
use crate::device::DeviceBlock;
use crate::device::DeviceError;
use crate::dir::DirEntry;
use crate::dir::DirEntryV;
use crate::dir::lemma_sector_entries_prefix;
use crate::dir::spec_sector_entries;

verus! {

/// FAT entry values at or above this marker end a cluster chain.
pub const END_OF_CHAIN: u32 = 0x0FFF_FFF8;

/// Only the low 28 bits of a FAT entry are significant.
pub const FAT_ENTRY_MASK: u32 = 0x0FFF_FFFF;

/// A mounted FAT32 volume: the device, its boot-sector geometry, and the
/// derived first FAT sector and first data sector.
pub struct Fat32<D: DeviceBlock> {
    pub(crate) device: D,
    pub(crate) boot: BootSector,
    pub(crate) first_fat_sector: u64,
    pub(crate) first_data_sector: u64,
}

impl<D: DeviceBlock> Fat32<D> {
    /// The underlying block device.
    pub closed spec fn spec_device(&self) -> D {
        self.device
    }

    /// The boot-sector geometry the volume was mounted with.
    pub closed spec fn spec_boot(&self) -> BootSector {
        self.boot
    }

    /// The first sector of the first FAT copy.
    pub closed spec fn spec_first_fat_sector(&self) -> u64 {
        self.first_fat_sector
    }

    /// The first sector of the data region.
    pub closed spec fn spec_first_data_sector(&self) -> u64 {
        self.first_data_sector
    }

    /// The volume's boot-sector geometry.
    pub fn boot_sector(&self) -> (r: BootSector)
        ensures
            r == self.spec_boot(),
    {
        self.boot
    }

    /// The derived geometry is consistent with the boot sector: the FAT
    /// region starts right after the reserved sectors, and the data region
    /// right after the FAT copies.
    pub open spec fn wf(&self) -> bool {
        &&& self.spec_first_fat_sector() == self.spec_boot().reserved_sectors
        &&& self.spec_first_data_sector() == self.spec_boot().reserved_sectors
            + self.spec_boot().fat_count * self.spec_boot().fat_size_sectors
    }

    /// Mounts `device` as a FAT32 volume, reading its boot sector once.
    ///
    /// Fails exactly as boot-sector decoding does: `ReadFailed` when the
    /// device's block size is not 512, `OutOfBounds` when it cannot serve
    /// block 0.
    pub fn new(device: D) -> (r: Result<Self, DeviceError>)
        ensures
            device.spec_block_size() != 512 ==> r == Err::<Self, DeviceError>(
                DeviceError::ReadFailed,
            ),
            device.spec_block_size() == 512 && !device.spec_valid_block(0) ==> r == Err::<
                Self,
                DeviceError,
            >(DeviceError::OutOfBounds),
            device.spec_block_size() == 512 && device.spec_valid_block(0) ==> (r matches Ok(f)
                && f.wf() && f.spec_device() == device && f.spec_boot() == spec_boot_sector(
                device.spec_block(0),
            )),
    {
        let boot = match BootSector::read_from(&device) {
            Ok(b) => b,
            Err(e) => {
                return Err(e);
            }
        };
        let first_fat_sector = boot.reserved_sectors as u64;
        assert(boot.fat_count as int * boot.fat_size_sectors as int <= 255 * 0xFFFF_FFFF)
            by (nonlinear_arith)
            requires
                boot.fat_count <= 255,
                boot.fat_size_sectors <= 0xFFFF_FFFFu32,
        ;
        let first_data_sector = first_fat_sector + boot.fat_count as u64
            * boot.fat_size_sectors as u64;

        Ok(Self { device, boot, first_fat_sector, first_data_sector })
    }

    /// The sector at which data cluster `cluster` begins, counting from
    /// the first data sector in runs of sectors-per-cluster. Meaningful
    /// for `cluster >= 2` only: clusters 0 and 1 are reserved.
    pub open spec fn spec_cluster_sector(&self, cluster: u32) -> int
        recommends
            cluster >= 2,
    {
        self.spec_first_data_sector() + (cluster - 2) * self.spec_boot().sectors_per_cluster
    }

    /// Maps a data cluster to its first sector.
    pub fn cluster_to_sector(&self, cluster: u32) -> (r: u64)
        requires
            self.wf(),
            cluster >= 2,
        ensures
            r == self.spec_cluster_sector(cluster),
    {
        let cluster_index = (cluster - 2) as u64;
        assert(cluster_index as int * self.boot.sectors_per_cluster as int <= 0xFFFF_FFFF * 255)
            by (nonlinear_arith)
            requires
                cluster_index <= 0xFFFF_FFFFu64,
                self.boot.sectors_per_cluster <= 255,
        ;
        assert(self.boot.fat_count as int * self.boot.fat_size_sectors as int <= 255
            * 0xFFFF_FFFF) by (nonlinear_arith)
            requires
                self.boot.fat_count <= 255,
                self.boot.fat_size_sectors <= 0xFFFF_FFFFu32,
        ;
        assert(self.first_data_sector <= 0xFFFF + 255 * 0xFFFF_FFFF);
        self.first_data_sector + cluster_index * self.boot.sectors_per_cluster as u64
    }

    /// The sector of the first FAT copy that holds the entry of `cluster`.
    pub open spec fn spec_fat_sector(&self, cluster: u32) -> int
        recommends
            self.spec_boot().bytes_per_sector >= 1,
    {
        self.spec_first_fat_sector() + (cluster * 4) / (self.spec_boot().bytes_per_sector as int)
    }

    /// The byte offset of the entry of `cluster` within that sector.
    pub open spec fn spec_fat_offset(&self, cluster: u32) -> int
        recommends
            self.spec_boot().bytes_per_sector >= 1,
    {
        (cluster * 4) % (self.spec_boot().bytes_per_sector as int)
    }

    /// The FAT entry of `cluster`: the 32-bit little-endian value at its
    /// offset in the FAT region, masked to the 28 significant bits. Its
    /// meaning is the next cluster of the chain, or end-of-chain when at
    /// or above `END_OF_CHAIN`.
    pub open spec fn spec_fat_entry(&self, cluster: u32) -> u32
        recommends
            self.spec_boot().bytes_per_sector >= 1,
            self.spec_fat_offset(cluster) + 4 <= 512,
    {
        le32_at(
            self.spec_device().spec_block(self.spec_fat_sector(cluster) as u64),
            self.spec_fat_offset(cluster),
        ) & FAT_ENTRY_MASK
    }

    /// Every FAT entry of the volume lies wholly inside the 512-byte
    /// sector buffer it is read from.
    pub open spec fn spec_fat_offsets_fit(&self) -> bool {
        forall|c: u32| #[trigger] self.spec_fat_offset(c) + 4 <= 512
    }

    /// Resolves the FAT entry of `cluster` with one sector read.
    pub fn read_fat_entry(&self, cluster: u32) -> (r: Result<u32, DeviceError>)
        requires
            self.wf(),
            self.spec_boot().bytes_per_sector >= 1,
            self.spec_fat_offset(cluster) + 4 <= 512,
        ensures
            self.spec_device().spec_block_size() != 512 ==> r == Err::<u32, DeviceError>(
                DeviceError::ReadFailed,
            ),
            self.spec_device().spec_block_size() == 512 && !self.spec_device().spec_valid_block(
                self.spec_fat_sector(cluster) as u64,
            ) ==> r == Err::<u32, DeviceError>(DeviceError::OutOfBounds),
            self.spec_device().spec_block_size() == 512 && self.spec_device().spec_valid_block(
                self.spec_fat_sector(cluster) as u64,
            ) ==> r == Ok::<u32, DeviceError>(self.spec_fat_entry(cluster)),
    {
        let fat_offset = cluster as u64 * 4;
        let bps = self.boot.bytes_per_sector as u64;
        assert(fat_offset as int / bps as int <= fat_offset as int) by (nonlinear_arith)
            requires
                bps >= 1,
                fat_offset >= 0,
        ;
        let sector = self.first_fat_sector + fat_offset / bps;
        proof {
            lemma_mod_bound(fat_offset as int, bps as int);
        }
        let offset = (fat_offset % bps) as usize;

        let mut buf: Vec<u8> = Vec::new();
        let mut i: usize = 0;
        while i < 512
            invariant
                buf@.len() == i,
                i <= 512,
            decreases 512 - i,
        {
            buf.push(0);
            i += 1;
        }

        match self.device.read(sector, &mut buf) {
            Ok(()) => {}
            Err(e) => {
                return Err(e);
            }
        }

        let entry = read_le32(buf[offset], buf[offset + 1], buf[offset + 2], buf[offset + 3])
            & FAT_ENTRY_MASK;
        Ok(entry)
    }

    /// With 512-byte sectors every FAT entry offset is a multiple of four
    /// no higher than 508, so all entries fit their sector buffers.
    pub proof fn lemma_fat_offsets_fit_512(&self)
        requires
            self.spec_boot().bytes_per_sector == 512,
        ensures
            self.spec_fat_offsets_fit(),
    {
        assert forall|c: u32| #[trigger] self.spec_fat_offset(c) + 4 <= 512 by {
            let q = (c * 4) / 512;
            let r = (c * 4) % 512;
            lemma_fundamental_div_mod(c * 4, 512);
            lemma_mod_bound(c * 4, 512);
            // the remainder of a multiple of 4 by 512 is itself a multiple of 4
            let cq = c as int / 128;
            let cr = c as int % 128;
            lemma_fundamental_div_mod(c as int, 128);
            lemma_mod_bound(c as int, 128);
            assert(c * 4 == cq * 512 + cr * 4) by (nonlinear_arith)
                requires
                    c == 128 * cq + cr,
            ;
            lemma_fundamental_div_mod_converse_mod(c * 4, 512, cq, cr * 4);
            assert(r == cr * 4);
        }
    }

    /// The cluster chain starting at `start`, holding at most `cap`
    /// clusters: each cluster is followed by its FAT entry, until an entry
    /// at or above `END_OF_CHAIN` ends the chain or the bound truncates it.
    /// The end-of-chain marker itself is never part of the chain.
    pub open spec fn spec_chain(&self, start: u32, cap: nat) -> Seq<u32>
        recommends
            self.spec_boot().bytes_per_sector >= 1,
        decreases cap,
    {
        if cap == 0 {
            Seq::empty()
        } else if self.spec_fat_entry(start) >= END_OF_CHAIN {
            seq![start]
        } else {
            seq![start] + self.spec_chain(self.spec_fat_entry(start), (cap - 1) as nat)
        }
    }

    /// The end-of-chain marker is never written to a chain: it is detected
    /// on the next-pointer, so every cluster after the starting one was a
    /// FAT entry below `END_OF_CHAIN`.
    pub proof fn lemma_chain_interior_below_end_of_chain(&self, start: u32, cap: nat)
        ensures
            forall|i: int|
                1 <= i < self.spec_chain(start, cap).len() ==> #[trigger] self.spec_chain(
                    start,
                    cap,
                )[i] < END_OF_CHAIN,
        decreases cap,
    {
        if cap > 0 && self.spec_fat_entry(start) < END_OF_CHAIN {
            let next = self.spec_fat_entry(start);
            self.lemma_chain_interior_below_end_of_chain(next, (cap - 1) as nat);
            let tail = self.spec_chain(next, (cap - 1) as nat);
            assert forall|i: int|
                1 <= i < self.spec_chain(start, cap).len() implies #[trigger] self.spec_chain(
                start,
                cap,
            )[i] < END_OF_CHAIN by {
                assert(self.spec_chain(start, cap)[i] == tail[i - 1]);
                if i == 1 {
                    assert(tail[0] == next);
                }
            }
        }
    }

    /// Whether the device can serve the FAT sector of every cluster of
    /// `chain`.
    pub open spec fn spec_chain_readable(&self, chain: Seq<u32>) -> bool {
        forall|i: int|
            0 <= i < chain.len() ==> self.spec_device().spec_valid_block(
                self.spec_fat_sector(#[trigger] chain[i]) as u64,
            )
    }

    /// Walks the cluster chain from `start` into `out`, writing at most
    /// `out.len()` clusters and returning how many were written. Running
    /// out of room truncates the walk silently; it is not an error. The
    /// entries of `out` past the returned count are left unchanged.
    pub fn cluster_chain(&self, start: u32, out: &mut Vec<u32>) -> (r: Result<
        usize,
        DeviceError,
    >)
        requires
            self.wf(),
            self.spec_boot().bytes_per_sector >= 1,
            self.spec_fat_offsets_fit(),
        ensures
            final(out)@.len() == old(out)@.len(),
            r is Ok <==> old(out)@.len() == 0 || (self.spec_device().spec_block_size() == 512
                && self.spec_chain_readable(self.spec_chain(start, old(out)@.len() as nat))),
            r matches Ok(n) ==> {
                let chain = self.spec_chain(start, old(out)@.len() as nat);
                &&& n == chain.len()
                &&& final(out)@ == chain + old(out)@.skip(chain.len() as int)
            },
            old(out)@.len() > 0 && self.spec_device().spec_block_size() != 512 ==> r == Err::<
                usize,
                DeviceError,
            >(DeviceError::ReadFailed),
            self.spec_device().spec_block_size() == 512 && r is Err ==> r == Err::<
                usize,
                DeviceError,
            >(DeviceError::OutOfBounds),
    {
        let cap = out.len();
        let ghost full = self.spec_chain(start, cap as nat);
        let mut current = start;
        let mut count: usize = 0;
        let mut done = false;
        while !done && count < cap
            invariant
                self.wf(),
                self.spec_boot().bytes_per_sector >= 1,
                self.spec_fat_offsets_fit(),
                full == self.spec_chain(start, cap as nat),
                cap == old(out)@.len(),
                out@.len() == cap,
                count <= cap,
                out@.skip(count as int) == old(out)@.skip(count as int),
                count > 0 ==> self.spec_device().spec_block_size() == 512,
                self.spec_chain_readable(out@.take(count as int)),
                !done ==> full == out@.take(count as int) + self.spec_chain(
                    current,
                    (cap - count) as nat,
                ),
                done ==> full == out@.take(count as int),
                done ==> count > 0,
            decreases cap - count,
        {
            let ghost pre = out@;
            let ghost rest = self.spec_chain(current, (cap - count) as nat);
            out[count] = current;
            count += 1;
            proof {
                assert(out@.take(count as int) =~= pre.take(count - 1) + seq![current]);
                assert forall|j: int| 0 <= j < out@.len() - count implies out@.skip(
                    count as int,
                )[j] == old(out)@.skip(count as int)[j] by {
                    assert(pre.skip(count - 1)[j + 1] == old(out)@.skip(count - 1)[j + 1]);
                }
                assert(out@.skip(count as int) =~= old(out)@.skip(count as int));
                assert(rest[0] == current);
                assert(full[count - 1] == current);
            }
            match self.read_fat_entry(current) {
                Err(e) => {
                    proof {
                        if self.spec_device().spec_block_size() == 512 {
                            assert(!self.spec_device().spec_valid_block(
                                self.spec_fat_sector(current) as u64,
                            ));
                            assert(!self.spec_chain_readable(full));
                        }
                    }
                    return Err(e);
                }
                Ok(next) => {
                    proof {
                        assert(next == self.spec_fat_entry(current));
                        assert forall|i: int| 0 <= i < count implies self
                            .spec_device()
                            .spec_valid_block(
                                self.spec_fat_sector(#[trigger] out@.take(count as int)[i]) as u64,
                            ) by {
                            if i < count - 1 {
                                assert(out@.take(count as int)[i] == pre.take(count - 1)[i]);
                            }
                        }
                    }
                    if next >= END_OF_CHAIN {
                        done = true;
                        proof {
                            assert(rest =~= seq![current]);
                            assert(full =~= out@.take(count as int));
                        }
                    } else {
                        current = next;
                        proof {
                            assert(rest =~= seq![rest[0]] + self.spec_chain(
                                next,
                                (cap - count) as nat,
                            ));
                            assert(full =~= out@.take(count as int) + self.spec_chain(
                                next,
                                (cap - count) as nat,
                            ));
                        }
                    }
                }
            }
        }
        proof {
            if !done {
                assert(count == cap);
                assert(self.spec_chain(current, 0) =~= Seq::<u32>::empty());
                assert(full =~= out@.take(count as int));
            }
            assert(out@ =~= full + old(out)@.skip(full.len() as int));
        }
        Ok(count)
    }

    /// The `i`-th sector of the cluster beginning at
    /// `spec_cluster_sector(cluster)`.
    pub open spec fn spec_cluster_sector_at(&self, cluster: u32, i: int) -> u64 {
        (self.spec_cluster_sector(cluster) + i) as u64
    }

    /// Whether the device can serve every sector of cluster `cluster`.
    pub open spec fn spec_cluster_readable(&self, cluster: u32) -> bool {
        &&& self.spec_device().spec_block_size() == 512
        &&& forall|i: int|
            0 <= i < self.spec_boot().sectors_per_cluster ==> self.spec_device().spec_valid_block(
                #[trigger] self.spec_cluster_sector_at(cluster, i),
            )
    }

    /// The live entries of the first `n` sectors of cluster `cluster`, in
    /// on-disk order.
    pub open spec fn spec_sectors_entries(&self, cluster: u32, n: int) -> Seq<DirEntryV>
        decreases n,
    {
        if n <= 0 {
            Seq::empty()
        } else {
            self.spec_sectors_entries(cluster, n - 1) + spec_sector_entries(
                self.spec_device().spec_block(self.spec_cluster_sector_at(cluster, n - 1)),
                16,
            )
        }
    }

    /// All live directory entries stored in the single cluster `cluster`,
    /// in on-disk order. Chains past this cluster are not followed.
    pub open spec fn spec_cluster_entries(&self, cluster: u32) -> Seq<DirEntryV> {
        self.spec_sectors_entries(cluster, self.spec_boot().sectors_per_cluster as int)
    }

    /// Scanning more sectors of a cluster only appends entries.
    pub proof fn lemma_sectors_entries_prefix(&self, cluster: u32, m: int, n: int)
        requires
            0 <= m <= n,
        ensures
            self.spec_sectors_entries(cluster, m).len() <= self.spec_sectors_entries(
                cluster,
                n,
            ).len(),
            forall|k: int|
                0 <= k < self.spec_sectors_entries(cluster, m).len() ==> self.spec_sectors_entries(
                    cluster,
                    n,
                )[k] == self.spec_sectors_entries(cluster, m)[k],
        decreases n,
    {
        if m < n {
            self.lemma_sectors_entries_prefix(cluster, m, n - 1);
        }
    }

    /// The entries gathered after `i` whole sectors and `j` slots of the
    /// next sector open the whole cluster's entries.
    proof fn lemma_partial_entries_prefix(&self, cluster: u32, i: int, buf: Seq<u8>, j: int)
        requires
            0 <= i < self.spec_boot().sectors_per_cluster as int,
            0 <= j <= 16,
            buf == self.spec_device().spec_block(self.spec_cluster_sector_at(cluster, i)),
        ensures
            ({
                let part = self.spec_sectors_entries(cluster, i) + spec_sector_entries(buf, j);
                let total = self.spec_cluster_entries(cluster);
                &&& part.len() <= total.len()
                &&& forall|k: int| 0 <= k < part.len() ==> total[k] == part[k]
            }),
    {
        lemma_sector_entries_prefix(buf, j, 16);
        self.lemma_sectors_entries_prefix(
            cluster,
            i + 1,
            self.spec_boot().sectors_per_cluster as int,
        );
        assert(self.spec_sectors_entries(cluster, i + 1) == self.spec_sectors_entries(cluster, i)
            + spec_sector_entries(buf, 16));
    }

    /// Decodes the directory entries of the single cluster `cluster` into
    /// `out`, skipping dead slots, and returns how many entries were
    /// written. Decoding stops, successfully, as soon as `out` is full,
    /// even if unscanned slots remain; entries of `out` past the returned
    /// count are left unchanged. Cluster chains are not followed: callers
    /// that need a whole multi-cluster directory walk the chain themselves.
    pub fn read_directory_cluster(&self, cluster: u32, out: &mut Vec<DirEntry>) -> (r: Result<
        usize,
        DeviceError,
    >)
        requires
            self.wf(),
            cluster >= 2,
        ensures
            final(out)@.len() == old(out)@.len(),
            r matches Ok(n) ==> {
                let total = self.spec_cluster_entries(cluster);
                &&& n == vstd::math::min(old(out)@.len() as int, total.len() as int)
                &&& final(out).deep_view() == total.take(n as int) + old(out).deep_view().skip(
                    n as int,
                )
            },
            self.spec_cluster_readable(cluster) ==> r is Ok,
            self.spec_device().spec_block_size() != 512 && self.spec_boot().sectors_per_cluster
                > 0 ==> r == Err::<usize, DeviceError>(DeviceError::ReadFailed),
            self.spec_device().spec_block_size() == 512 && r is Err ==> r == Err::<
                usize,
                DeviceError,
            >(DeviceError::OutOfBounds),
    {
        let first_sector = self.cluster_to_sector(cluster);
        proof {
            assert((cluster - 2) as int * self.boot.sectors_per_cluster as int <= 0xFFFF_FFFF
                * 255) by (nonlinear_arith)
                requires
                    2 <= cluster <= 0xFFFF_FFFFu32,
                    self.boot.sectors_per_cluster <= 255,
            ;
            assert(self.boot.fat_count as int * self.boot.fat_size_sectors as int <= 255
                * 0xFFFF_FFFF) by (nonlinear_arith)
                requires
                    self.boot.fat_count <= 255,
                    self.boot.fat_size_sectors <= 0xFFFF_FFFFu32,
            ;
        }
        let spc = self.boot.sectors_per_cluster;
        let cap = out.len();
        let ghost total = self.spec_cluster_entries(cluster);

        let mut sector_buf: Vec<u8> = Vec::new();
        let mut z: usize = 0;
        while z < 512
            invariant
                sector_buf@.len() == z,
                z <= 512,
            decreases 512 - z,
        {
            sector_buf.push(0);
            z += 1;
        }

        let mut entry_count: usize = 0;
        let mut i: u8 = 0;
        while i < spc
            invariant
                self.wf(),
                cluster >= 2,
                spc == self.spec_boot().sectors_per_cluster,
                first_sector == self.spec_cluster_sector(cluster),
                total == self.spec_cluster_entries(cluster),
                i <= spc,
                i > 0 ==> self.spec_device().spec_block_size() == 512,
                first_sector <= 0xFFFF + 510 * 0xFFFF_FFFFu64,
                cap == old(out)@.len(),
                out@.len() == cap,
                entry_count as int == vstd::math::min(
                    cap as int,
                    self.spec_sectors_entries(cluster, i as int).len() as int,
                ),
                sector_buf@.len() == 512,
                out.deep_view().take(entry_count as int) == self.spec_sectors_entries(
                    cluster,
                    i as int,
                ).take(entry_count as int),
                out.deep_view().skip(entry_count as int) == old(out).deep_view().skip(
                    entry_count as int,
                ),
            decreases spc - i,
        {
            let sector = first_sector + i as u64;
            assert(sector == self.spec_cluster_sector_at(cluster, i as int));
            match self.device.read(sector, &mut sector_buf) {
                Ok(()) => {}
                Err(e) => {
                    assert(!self.spec_cluster_readable(cluster));
                    return Err(e);
                }
            }

            let ghost prev = self.spec_sectors_entries(cluster, i as int);
            let mut j: usize = 0;
            while j < 16
                invariant
                    self.wf(),
                    cluster >= 2,
                    spc == self.spec_boot().sectors_per_cluster,
                    i < spc,
                    self.spec_device().spec_block_size() == 512,
                    total == self.spec_cluster_entries(cluster),
                    cap == old(out)@.len(),
                    out@.len() == cap,
                    j <= 16,
                    sector_buf@.len() == 512,
                    sector_buf@ == self.spec_device().spec_block(
                        self.spec_cluster_sector_at(cluster, i as int),
                    ),
                    prev == self.spec_sectors_entries(cluster, i as int),
                    entry_count as int == vstd::math::min(
                        cap as int,
                        (prev + spec_sector_entries(sector_buf@, j as int)).len() as int,
                    ),
                    out.deep_view().take(entry_count as int) == (prev + spec_sector_entries(
                        sector_buf@,
                        j as int,
                    )).take(entry_count as int),
                    out.deep_view().skip(entry_count as int) == old(out).deep_view().skip(
                        entry_count as int,
                    ),
                decreases 16 - j,
            {
                let ghost cur = prev + spec_sector_entries(sector_buf@, j as int);
                if entry_count >= cap {
                    proof {
                        self.lemma_partial_entries_prefix(
                            cluster,
                            i as int,
                            sector_buf@,
                            j as int,
                        );
                        assert(total.len() >= cur.len() >= cap);
                        assert(out.deep_view().take(cap as int) =~= total.take(cap as int));
                        assert(out.deep_view() =~= total.take(entry_count as int) + old(
                            out,
                        ).deep_view().skip(entry_count as int));
                    }
                    return Ok(entry_count);
                }
                let offset = j * 32;
                let slot = vstd::slice::slice_subrange(sector_buf.as_slice(), offset, offset + 32);
                assert(slot@ == sector_buf@.subrange(32 * (j as int), 32 * (j as int + 1)));
                let ghost cur_next = prev + spec_sector_entries(sector_buf@, j as int + 1);
                match DirEntry::from_bytes(slot) {
                    Some(e) => {
                        proof {
                            assert(cur_next =~= cur + seq![e@]);
                            assert(entry_count == cur.len());
                        }
                        let ghost pre_dv = out.deep_view();
                        out[entry_count] = e;
                        entry_count += 1;
                        proof {
                            assert(out.deep_view().take(entry_count as int) =~= pre_dv.take(
                                entry_count - 1,
                            ) + seq![e@]);
                            assert(out.deep_view().take(entry_count as int) =~= cur_next.take(
                                entry_count as int,
                            ));
                            assert forall|k: int| 0 <= k < out@.len() - entry_count implies out
                                .deep_view()
                                .skip(entry_count as int)[k] == old(out).deep_view().skip(
                                entry_count as int,
                            )[k] by {
                                assert(pre_dv.skip(entry_count - 1)[k + 1] == old(
                                    out,
                                ).deep_view().skip(entry_count - 1)[k + 1]);
                            }
                            assert(out.deep_view().skip(entry_count as int) =~= old(
                                out,
                            ).deep_view().skip(entry_count as int));
                        }
                    }
                    None => {
                        proof {
                            assert(cur_next =~= cur);
                            assert(out.deep_view().take(entry_count as int) =~= cur_next.take(
                                entry_count as int,
                            ));
                        }
                    }
                }
                j += 1;
            }
            proof {
                assert(self.spec_sectors_entries(cluster, i as int + 1) == prev
                    + spec_sector_entries(
                    self.spec_device().spec_block(self.spec_cluster_sector_at(cluster, i as int)),
                    16,
                ));
            }
            i += 1;
        }
        proof {
            assert(self.spec_sectors_entries(cluster, spc as int) == total);
            assert(out.deep_view() =~= total.take(entry_count as int) + old(out).deep_view().skip(
                entry_count as int,
            ));
        }
        Ok(entry_count)
    }

    /// Cluster 2 is always the first data cluster: it begins at the first
    /// data sector, at offset zero into the data region.
    pub proof fn lemma_cluster_two_is_first_data_sector(&self)
        requires
            self.wf(),
        ensures
            self.spec_cluster_sector(2) == self.spec_first_data_sector(),
    {
    }
}

} // verus!
