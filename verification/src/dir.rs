//! Directory-entry decoding.
//!
//! A FAT32 directory is an array of fixed 32-byte slots. A slot whose
//! first byte is 0x00 (end of directory) or 0xE5 (deleted), or whose
//! attribute byte is 0x0F (a long-name fragment), carries no short-name
//! entry and is skipped; every other slot decodes to a `DirEntry`.

use vstd::prelude::*;
use vstd::string::StringSliceAdditionalSpecFns;
use crate::bytes::le16;
use crate::bytes::le32_at;
use crate::bytes::read_le16;
use crate::bytes::read_le32;

verus! {

/// The mathematical content of a directory entry: the 11-byte stored name,
/// the attribute byte, the starting cluster, and the size in bytes.
#[verifier::ext_equal]
pub struct DirEntryV {
    pub name: Seq<u8>,
    pub attr: u8,
    pub first_cluster: u32,
    pub size: u32,
}

/// One decoded directory entry: an 8.3 name as the 11 raw bytes stored on
/// disk (space-padded, upper case), the attribute byte, the entry's first
/// cluster, and its size in bytes.
#[derive(Debug, Clone, Copy, PartialEq, Eq)]
pub struct DirEntry {
    pub name: [u8; 11],
    pub attr: u8,
    pub first_cluster: u32,
    pub size: u32,
}

impl View for DirEntry {
    type V = DirEntryV;

    open spec fn view(&self) -> DirEntryV {
        DirEntryV {
            name: self.name@,
            attr: self.attr,
            first_cluster: self.first_cluster,
            size: self.size,
        }
    }
}

impl DeepView for DirEntry {
    type V = DirEntryV;

    open spec fn deep_view(&self) -> DirEntryV {
        self.view()
    }
}

/// Whether the 32-byte slot `b` holds a live short-name entry: neither
/// end-of-directory (first byte 0x00), nor deleted (0xE5), nor a long-name
/// fragment (attribute 0x0F).
pub open spec fn spec_slot_live(b: Seq<u8>) -> bool
    recommends
        b.len() == 32,
{
    b[0] != 0x00 && b[0] != 0xE5 && b[0x0B] != 0x0F
}

/// The entry encoded in the 32-byte slot `b`: the name is bytes 0..11, the
/// attribute byte 0x0B, the first cluster the 16-bit high half at 0x14
/// over the low half at 0x1A, and the size the 32-bit field at 0x1C.
pub open spec fn spec_decode_slot(b: Seq<u8>) -> DirEntryV
    recommends
        b.len() == 32,
{
    DirEntryV {
        name: b.subrange(0, 11),
        attr: b[0x0B],
        first_cluster: (le16(b[0x14], b[0x15]) * 0x10000 + le16(b[0x1A], b[0x1B])) as u32,
        size: le32_at(b, 0x1C),
    }
}

/// The live entries among the first `n` 32-byte slots of the sector bytes
/// `s`, in slot order: dead slots contribute nothing, live slots decode.
pub open spec fn spec_sector_entries(s: Seq<u8>, n: int) -> Seq<DirEntryV>
    recommends
        32 * n <= s.len(),
    decreases n,
{
    if n <= 0 {
        Seq::empty()
    } else {
        let slot = s.subrange(32 * (n - 1), 32 * n);
        spec_sector_entries(s, n - 1) + if spec_slot_live(slot) {
            seq![spec_decode_slot(slot)]
        } else {
            Seq::empty()
        }
    }
}

/// Scanning more slots of a sector only appends entries: the entries of
/// the first `m` slots open every scan of `n >= m` slots.
pub proof fn lemma_sector_entries_prefix(s: Seq<u8>, m: int, n: int)
    requires
        0 <= m <= n,
    ensures
        spec_sector_entries(s, m).len() <= spec_sector_entries(s, n).len(),
        forall|k: int|
            0 <= k < spec_sector_entries(s, m).len() ==> spec_sector_entries(s, n)[k]
                == spec_sector_entries(s, m)[k],
    decreases n,
{
    if m < n {
        lemma_sector_entries_prefix(s, m, n - 1);
    }
}

/// The ASCII upper-case fold of one byte.
pub open spec fn spec_upper(b: u8) -> u8 {
    if 0x61 <= b && b <= 0x7A {
        (b - 0x20) as u8
    } else {
        b
    }
}

/// The 11-byte FAT form of a queried name: its bytes upper-cased, truncated
/// to 11, and right-padded with spaces. No dot is inserted between base and
/// extension; callers supply the raw 11-byte layout.
pub open spec fn spec_fat_name(bytes: Seq<u8>) -> Seq<u8> {
    Seq::new(11, |i: int| if i < bytes.len() { spec_upper(bytes[i]) } else { 0x20 })
}

/// Upper-cases one ASCII byte, leaving every other byte as it is.
fn ascii_upper(b: u8) -> (r: u8)
    ensures
        r == spec_upper(b),
{
    if b >= 0x61 && b <= 0x7A {
        b - 0x20
    } else {
        b
    }
}

impl DirEntry {
    /// Whether the directory attribute bit (0x10) is set.
    pub fn is_directory(&self) -> (r: bool)
        ensures
            r == (self.attr & 0x10 != 0),
    {
        self.attr & 0x10 != 0
    }

    /// Whether the archive attribute bit (0x20) is set.
    pub fn is_file(&self) -> (r: bool)
        ensures
            r == (self.attr & 0x20 != 0),
    {
        self.attr & 0x20 != 0
    }

    /// Decodes one 32-byte directory slot, returning `None` exactly when
    /// the slot is not 32 bytes long or holds no live short-name entry.
    pub fn from_bytes(bytes: &[u8]) -> (r: Option<Self>)
        ensures
            r is Some <==> bytes@.len() == 32 && spec_slot_live(bytes@),
            r matches Some(e) ==> e@ == spec_decode_slot(bytes@),
    {
        if bytes.len() != 32 {
            return None;
        }

        let first_byte = bytes[0];
        if first_byte == 0x00 || first_byte == 0xE5 {
            return None;
        }

        let attr = bytes[0x0B];
        if attr == 0x0F {
            return None;
        }

        let mut name = [0u8; 11];
        let mut i: usize = 0;
        while i < 11
            invariant
                i <= 11,
                bytes@.len() == 32,
                forall|k: int| 0 <= k < i ==> name@[k] == bytes@[k],
            decreases 11 - i,
        {
            name[i] = bytes[i];
            i += 1;
        }

        let cluster_high = read_le16(bytes[0x14], bytes[0x15]);
        let cluster_low = read_le16(bytes[0x1A], bytes[0x1B]);
        let first_cluster = cluster_high as u32 * 0x10000 + cluster_low as u32;

        let size = read_le32(bytes[0x1C], bytes[0x1D], bytes[0x1E], bytes[0x1F]);

        let e = Self { name, attr, first_cluster, size };
        proof {
            assert(e.name@ =~= bytes@.subrange(0, 11));
            assert(e@ =~= spec_decode_slot(bytes@));
        }
        Some(e)
    }

    /// Whether this entry's stored name equals `name` under the FAT 8.3
    /// comparison rule: both sides taken as raw bytes, upper-cased,
    /// truncated to 11 bytes, and space-padded on the right.
    pub fn matches_name(&self, name: &str) -> (r: bool)
        ensures
            r == (self.name@ == spec_fat_name(name.spec_bytes())),
    {
        let bytes = name.as_bytes();
        let n = if bytes.len() < 11 {
            bytes.len()
        } else {
            11
        };

        let mut fat_name = [0x20u8; 11];
        let mut i: usize = 0;
        while i < n
            invariant
                i <= n,
                n <= 11,
                n <= bytes@.len(),
                forall|k: int| 0 <= k < i ==> fat_name@[k] == spec_upper(bytes@[k]),
                forall|k: int| i <= k < 11 ==> fat_name@[k] == 0x20,
            decreases n - i,
        {
            fat_name[i] = ascii_upper(bytes[i]);
            i += 1;
        }
        proof {
            assert(fat_name@ =~= spec_fat_name(bytes@));
        }

        let mut j: usize = 0;
        while j < 11
            invariant
                j <= 11,
                bytes@ == name.spec_bytes(),
                fat_name@ == spec_fat_name(bytes@),
                forall|k: int| 0 <= k < j ==> self.name@[k] == fat_name@[k],
            decreases 11 - j,
        {
            if self.name[j] != fat_name[j] {
                assert(self.name@ != spec_fat_name(name.spec_bytes()));
                return false;
            }
            j += 1;
        }
        proof {
            assert(self.name@ =~= spec_fat_name(bytes@));
        }
        true
    }
}

} // verus!
