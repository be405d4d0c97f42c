//! The block-device interface and an in-memory reference device.
//!
//! A block source serves fixed-size blocks by numeric index. The trait
//! contract pins its behaviour completely: a buffer of the wrong length is
//! refused with `ReadFailed` whatever the index, an index past the end is
//! refused with `OutOfBounds`, and otherwise the buffer is overwritten with
//! exactly the addressed block. `RamDisk` serves blocks out of a borrowed
//! byte slice and is proved to meet that contract.

use vstd::prelude::*;
use vstd::arithmetic::div_mod::lemma_fundamental_div_mod;
use vstd::arithmetic::div_mod::lemma_mod_bound;
use vstd::arithmetic::mul::lemma_mul_inequality;
use vstd::slice::slice_index_get;

verus! {

/// How a block-device operation can fail. `OutOfBounds` reports a block
/// index past the backing storage; `ReadFailed` covers every other
/// precondition or I/O failure, including a buffer of the wrong size and a
/// directory-navigation target that was not found.
#[derive(Debug, Clone, Copy, PartialEq, Eq)]
pub enum DeviceError {
    OutOfBounds,
    ReadFailed,
}

/// A source of fixed-size blocks addressed by index.
///
/// `spec_block_size` is the size every read buffer must have,
/// `spec_valid_block` says which indices the source can serve, and
/// `spec_block` is the content served for a valid index.
pub trait DeviceBlock: Sized {
    /// The fixed size, in bytes, of one block.
    spec fn spec_block_size(&self) -> usize;

    /// Whether `block_id` addresses a block this source can serve.
    spec fn spec_valid_block(&self, block_id: u64) -> bool;

    /// The bytes of block `block_id`, meaningful when it is valid.
    spec fn spec_block(&self, block_id: u64) -> Seq<u8>;

    /// Fills `buffer` with the content of block `block_id`.
    ///
    /// The buffer must be exactly one block long, or the read fails with
    /// `ReadFailed` and leaves the buffer unchanged; an invalid index fails
    /// with `OutOfBounds`; otherwise the buffer is fully overwritten.
    fn read(&self, block_id: u64, buffer: &mut Vec<u8>) -> (r: Result<(), DeviceError>)
        ensures
            final(buffer)@.len() == old(buffer)@.len(),
            old(buffer)@.len() != self.spec_block_size() ==> r == Err::<(), DeviceError>(
                DeviceError::ReadFailed,
            ) && final(buffer)@ == old(buffer)@,
            old(buffer)@.len() == self.spec_block_size() && !self.spec_valid_block(block_id)
                ==> r == Err::<(), DeviceError>(DeviceError::OutOfBounds),
            old(buffer)@.len() == self.spec_block_size() && self.spec_valid_block(block_id) ==> r
                == Ok::<(), DeviceError>(()) && final(buffer)@ == self.spec_block(block_id),
    ;

    /// Reports the fixed block size.
    fn block_size(&self) -> (r: usize)
        ensures
            r == self.spec_block_size(),
    ;
}

/// An in-memory block device over a borrowed byte slice, split into
/// consecutive blocks of a fixed size. Bytes past the last whole block are
/// not addressable.
pub struct RamDisk<'a> {
    data: &'a [u8],
    block_size: usize,
}

impl<'a> RamDisk<'a> {
    /// The backing bytes.
    pub closed spec fn spec_data(&self) -> Seq<u8> {
        self.data@
    }

    /// Wraps `data` as a device with blocks of `block_size` bytes.
    pub fn new(data: &'a [u8], block_size: usize) -> (r: Self)
        ensures
            r.spec_data() == data@,
            r.spec_block_size() == block_size,
    {
        Self { data, block_size }
    }

    /// The number of whole blocks the backing bytes hold.
    pub fn block_count(&self) -> (r: usize)
        requires
            self.spec_block_size() >= 1,
        ensures
            r == self.spec_data().len() as int / self.spec_block_size() as int,
    {
        self.data.len() / self.block_size
    }
}

/// For a positive divisor `b`, `a * b <= c` exactly when `a <= c / b`.
proof fn lemma_mul_le_iff_le_div(a: int, b: int, c: int)
    requires
        b >= 1,
    ensures
        a * b <= c <==> a <= c / b,
{
    let q = c / b;
    let r = c % b;
    lemma_fundamental_div_mod(c, b);
    lemma_mod_bound(c, b);
    if a <= q {
        lemma_mul_inequality(a, q, b);
        assert(a * b <= q * b);
        assert(q * b == b * q);
    }
    if a * b <= c {
        if a > q {
            lemma_mul_inequality(q + 1, a, b);
            assert((q + 1) * b <= a * b);
            assert((q + 1) * b == b * q + b) by (nonlinear_arith);
        }
    }
}

impl<'a> DeviceBlock for RamDisk<'a> {
    closed spec fn spec_block_size(&self) -> usize {
        self.block_size
    }

    closed spec fn spec_valid_block(&self, block_id: u64) -> bool {
        block_id as int * self.block_size as int + self.block_size as int <= self.data@.len()
    }

    closed spec fn spec_block(&self, block_id: u64) -> Seq<u8> {
        self.data@.subrange(
            block_id as int * self.block_size as int,
            block_id as int * self.block_size as int + self.block_size as int,
        )
    }

    fn read(&self, block_id: u64, buffer: &mut Vec<u8>) -> (r: Result<(), DeviceError>) {
        if buffer.len() != self.block_size {
            return Err(DeviceError::ReadFailed);
        }
        if self.block_size == 0 {
            // Zero-sized blocks: every index is in range and every block is empty.
            assert(buffer@ =~= self.spec_block(block_id));
            return Ok(());
        }
        let len = self.data.len();
        if len < self.block_size {
            proof {
                lemma_mul_le_iff_le_div(block_id as int + 1, self.block_size as int, len as int);
                assert((block_id as int + 1) * self.block_size as int == block_id as int
                    * self.block_size as int + self.block_size as int) by (nonlinear_arith);
                vstd::arithmetic::div_mod::lemma_basic_div(len as int, self.block_size as int);
            }
            return Err(DeviceError::OutOfBounds);
        }
        let max_id = ((len - self.block_size) / self.block_size) as u64;
        proof {
            lemma_mul_le_iff_le_div(
                block_id as int,
                self.block_size as int,
                len - self.block_size,
            );
        }
        if block_id > max_id {
            return Err(DeviceError::OutOfBounds);
        }
        let start = (block_id as usize) * self.block_size;
        let ghost gstart = block_id as int * self.block_size as int;
        assert(start == gstart && gstart + self.block_size <= len);
        let mut i: usize = 0;
        while i < self.block_size
            invariant
                i <= self.block_size,
                start == gstart,
                len == self.data@.len(),
                gstart + self.block_size <= self.data@.len(),
                buffer@.len() == self.block_size,
                forall|k: int| 0 <= k < i ==> buffer@[k] == self.data@[gstart + k],
            decreases self.block_size - i,
        {
            let b = *slice_index_get(self.data, start + i);
            buffer[i] = b;
            i += 1;
        }
        assert(buffer@ =~= self.spec_block(block_id));
        Ok(())
    }

    fn block_size(&self) -> (r: usize) {
        self.block_size
    }
}

/// The read model of `RamDisk` in terms of its block count: an index is
/// one the device can serve exactly when it lies below the block count,
/// and the block served is the corresponding range of the backing bytes,
/// `[block_id * block_size, (block_id + 1) * block_size)`. Together with
/// the `DeviceBlock` contract this pins every read down: a buffer of the
/// wrong length fails with `ReadFailed` whatever the index, an index at or
/// past the block count fails with `OutOfBounds`, and an index below it
/// fills the buffer with that byte range.
pub proof fn lemma_ramdisk_read_model(d: &RamDisk, block_id: u64)
    requires
        d.spec_block_size() >= 1,
    ensures
        d.spec_valid_block(block_id) <==> (block_id as int) < d.spec_data().len() as int
            / d.spec_block_size() as int,
        d.spec_valid_block(block_id) ==> d.spec_block(block_id) =~= d.spec_data().subrange(
            block_id as int * d.spec_block_size() as int,
            (block_id as int + 1) * d.spec_block_size() as int,
        ),
{
    let bs = d.spec_block_size() as int;
    let len = d.spec_data().len() as int;
    lemma_mul_le_iff_le_div(block_id as int + 1, bs, len);
    assert((block_id as int + 1) * bs == block_id as int * bs + bs) by (nonlinear_arith);
}

} // verus!
