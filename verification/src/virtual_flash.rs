//! A simulated flash window: a byte buffer mapped to a range of addresses,
//! written block by block and fingerprinted as a whole.

use crate::hash::{absorbed, hasher_finalize, hasher_new, hasher_update, sha256_digest};
use crate::uf2::block::{BlockFields, UF2Block, PAYLOAD_CAPACITY};
use crate::uf2::UF2;
use crate::Params;
use vstd::prelude::*;
use vstd::slice::slice_subrange;

verus! {

/// Bytes handed to the hasher at a time.
pub const HASH_CHUNK: usize = 64;

/// Why a block cannot be written to a flash window.
#[derive(Debug, Clone, Copy, PartialEq, Eq, Structural)]
pub enum FlashError {
    /// The block's address window is not inside the flash window.
    OutOfRange,
    /// The block declares more payload bytes than a record can hold.
    PayloadTooLarge,
}

/// A flash window: the buffer `data` stands for the addresses from `offset`
/// up to `offset + data.len()`, and `position` is the buffer index at which
/// the next sequential read or write takes place.
#[derive(Debug)]
pub struct VirtualFlash {
    pub offset: u32,
    pub data: Vec<u8>,
    pub position: usize,
}

/// What a flash window holds, as mathematical values.
pub struct FlashState {
    pub start_addr: u32,
    pub contents: Seq<u8>,
    pub position: int,
}

/// Whether the `len` bytes at `address` lie inside the window of `flash_size`
/// bytes that starts at `start_addr`.
pub open spec fn window_fits(address: u32, len: u32, start_addr: u32, flash_size: int) -> bool {
    start_addr <= address && address + len <= start_addr + flash_size
}

/// What address translation gives: the buffer index of `address`, or
/// `OutOfRange` where the window of `len` bytes at `address` does not fit.
pub open spec fn translate_outcome(
    address: u32,
    len: u32,
    start_addr: u32,
    flash_size: int,
) -> Result<usize, FlashError> {
    if window_fits(address, len, start_addr, flash_size) {
        Ok((address - start_addr) as usize)
    } else {
        Err(FlashError::OutOfRange)
    }
}

/// `buffer` with the bytes of `payload` in place of those from index `at` on,
/// and every other byte as it was.
pub open spec fn overwrite(buffer: Seq<u8>, at: int, payload: Seq<u8>) -> Seq<u8> {
    Seq::new(
        buffer.len(),
        |i: int|
            if at <= i < at + payload.len() {
                payload[i - at]
            } else {
                buffer[i]
            },
    )
}

impl FlashState {
    /// What writing one block gives: `OutOfRange` where the block's window
    /// does not fit, else `PayloadTooLarge` where its `len` exceeds a
    /// record's capacity, else the flash with the block's payload at its
    /// address and the cursor behind it.
    pub open spec fn write_block(self, block: BlockFields) -> Result<FlashState, FlashError> {
        if !window_fits(block.address, block.len, self.start_addr, self.contents.len() as int) {
            Err(FlashError::OutOfRange)
        } else if block.len > PAYLOAD_CAPACITY {
            Err(FlashError::PayloadTooLarge)
        } else {
            Ok(
                FlashState {
                    start_addr: self.start_addr,
                    contents: overwrite(
                        self.contents,
                        block.address - self.start_addr,
                        block.payload(),
                    ),
                    position: block.address - self.start_addr + block.len,
                },
            )
        }
    }

    /// What writing a sequence of blocks gives. The blocks before the last
    /// are written first: where that run failed, its outcome stands and the
    /// last block is not written; where it succeeded, the last block is
    /// written to the flash that the run left, and a refusal of it leaves that
    /// flash as it was. So the blocks are written in order up to the first
    /// that is refused.
    pub open spec fn write_uf2(self, blocks: Seq<BlockFields>) -> (
        FlashState,
        Result<(), FlashError>,
    )
        decreases blocks.len(),
    {
        if blocks.len() == 0 {
            (self, Ok(()))
        } else {
            let before = self.write_uf2(blocks.drop_last());
            match before.1 {
                Err(error) => before,
                Ok(()) => match before.0.write_block(blocks.last()) {
                    Ok(next) => (next, Ok(())),
                    Err(error) => (before.0, Err(error)),
                },
            }
        }
    }

    /// The fingerprint of the flash: the SHA-256 digest of its whole buffer.
    pub open spec fn digest(self) -> Seq<u8> {
        sha256_digest(self.contents)
    }
}

/// A run that has failed on a prefix of the blocks has the same outcome on
/// all of them: nothing is written after the first refusal.
pub proof fn lemma_failure_is_final(state: FlashState, blocks: Seq<BlockFields>, failed: int)
    requires
        0 <= failed <= blocks.len(),
        state.write_uf2(blocks.take(failed)).1 is Err,
    ensures
        state.write_uf2(blocks) == state.write_uf2(blocks.take(failed)),
    decreases blocks.len(),
{
    if failed == blocks.len() {
        assert(blocks.take(failed) =~= blocks);
    } else {
        assert(blocks.drop_last().take(failed) =~= blocks.take(failed));
        lemma_failure_is_final(state, blocks.drop_last(), failed);
    }
}

impl View for VirtualFlash {
    type V = FlashState;

    open spec fn view(&self) -> FlashState {
        FlashState {
            start_addr: self.offset,
            contents: self.data@,
            position: self.position as int,
        }
    }
}

/// Translates a block's address window into a buffer index, with the bounds
/// check that the translation depends on.
pub fn translate(address: u32, len: u32, start_addr: u32, flash_size: usize) -> (result: Result<
    usize,
    FlashError,
>)
    ensures
        result == translate_outcome(address, len, start_addr, flash_size as int),
{
    if address < start_addr {
        return Err(FlashError::OutOfRange);
    }
    let index: u32 = address - start_addr;
    if index as u64 + len as u64 > flash_size as u64 {
        return Err(FlashError::OutOfRange);
    }
    Ok(index as usize)
}

impl VirtualFlash {
    /// The buffer is no longer than a 32-bit size can say, and the cursor is
    /// inside it or at its end.
    pub open spec fn wf(&self) -> bool {
        &&& self.data@.len() <= u32::MAX
        &&& self.position <= self.data@.len()
    }

    /// A zero-filled flash of `size` bytes at `flash_start_addr`.
    pub fn new(flash_start_addr: u32, size: u32) -> (flash: VirtualFlash)
        ensures
            flash.wf(),
            flash@ == (FlashState {
                start_addr: flash_start_addr,
                contents: Seq::new(size as nat, |i: int| 0u8),
                position: 0,
            }),
    {
        let flash = VirtualFlash {
            offset: flash_start_addr,
            data: vec![0u8; size as usize],
            position: 0,
        };
        assert(flash.data@ =~= Seq::new(size as nat, |i: int| 0u8));
        flash
    }

    /// A zero-filled flash with the window that `params` gives.
    pub fn new_from_params<T>(params: &Params<T>) -> (flash: VirtualFlash)
        ensures
            flash.wf(),
            flash@ == (FlashState {
                start_addr: params.start_addr,
                contents: Seq::new(params.flash_size as nat, |i: int| 0u8),
                position: 0,
            }),
    {
        Self::new(params.start_addr, params.flash_size)
    }
    /// The address that the cursor stands at.
    #[inline]
    pub fn address(&self) -> (address: u64)
        requires
            self.wf(),
        ensures
            address == self@.start_addr + self@.position,
    {
        self.offset as u64 + self.position as u64
    }

    /// Moves the cursor to `address`, which must lie inside the flash window
    /// or at its end.
    #[inline]
    pub fn set_address(&mut self, address: u32) -> (result: Result<(), FlashError>)
        ensures
            final(self).offset == old(self).offset,
            final(self).data == old(self).data,
            old(self).wf() ==> final(self).wf(),
            match result {
                Ok(()) => {
                    &&& window_fits(address, 0, old(self).offset, old(self).data@.len() as int)
                    &&& final(self).position == address - old(self).offset
                },
                Err(error) => {
                    &&& error == FlashError::OutOfRange
                    &&& !window_fits(address, 0, old(self).offset, old(self).data@.len() as int)
                    &&& final(self).position == old(self).position
                },
            },
    {
        match translate(address, 0, self.offset, self.data.len()) {
            Ok(index) => {
                self.position = index;
                Ok(())
            },
            Err(error) => Err(error),
        }
    }

    /// Moves the cursor to the first byte of the flash.
    #[inline]
    pub fn seek_start(&mut self)
        ensures
            final(self).offset == old(self).offset,
            final(self).data == old(self).data,
            final(self).position == 0,
            old(self).wf() ==> final(self).wf(),
    {
        self.position = 0;
    }

    /// Gives up the flash for its buffer.
    pub fn into_contents(self) -> (contents: Vec<u8>)
        ensures
            contents == self.data,
    {
        self.data
    }

    /// The buffer of the flash.
    pub fn get_contents_ref(&self) -> (contents: &Vec<u8>)
        ensures
            *contents == self.data,
    {
        &self.data
    }

    /// The buffer of the flash, for the caller to change.
    pub fn get_contents_mut(&mut self) -> (contents: &mut Vec<u8>)
        ensures
            *contents == old(self).data,
            final(self).data == *final(contents),
            final(self).offset == old(self).offset,
            final(self).position == old(self).position,
    {
        &mut self.data
    }

    /// Number of bytes in the flash.
    pub fn flash_size(&self) -> (size: u32)
        requires
            self.wf(),
        ensures
            size == self@.contents.len(),
    {
        self.get_contents_ref().len() as u32
    }

    /// Copies `bytes` into the buffer at the cursor and leaves the cursor
    /// behind them.
    fn write_bytes(&mut self, bytes: &[u8])
        requires
            old(self).position + bytes@.len() <= old(self).data.len(),
        ensures
            final(self).offset == old(self).offset,
            final(self).data@ == overwrite(old(self).data@, old(self).position as int, bytes@),
            final(self).position == old(self).position + bytes@.len(),
    {
        let start: usize = self.position;
        let count: usize = bytes.len();
        let mut i: usize = 0;
        while i < count
            invariant
                i <= count,
                count == bytes@.len(),
                start + count <= self.data.len(),
                self.data@.len() == old(self).data@.len(),
                self.offset == old(self).offset,
                self.position == start,
                start == old(self).position,
                forall|j: int|
                    0 <= j < self.data@.len() ==> self.data@[j] == if start <= j < start + i {
                        bytes@[j - start]
                    } else {
                        old(self).data@[j]
                    },
            decreases count - i,
        {
            self.data.set(start + i, bytes[i]);
            i += 1;
        }
        self.position = start + count;
        assert(self.data@ =~= overwrite(old(self).data@, start as int, bytes@));
    }

    /// Writes the block's payload at the block's address, over whatever the
    /// flash held there. A block whose window does not lie inside the flash
    /// is refused as `OutOfRange`, one that fits but declares more payload
    /// than a record holds as `PayloadTooLarge`; a refused block leaves the
    /// flash as it was.
    pub fn write_block(&mut self, block: UF2Block) -> (result: Result<(), FlashError>)
        ensures
            match result {
                Ok(()) => old(self)@.write_block(block@) == Ok::<FlashState, FlashError>(
                    final(self)@,
                ),
                Err(error) => {
                    &&& old(self)@.write_block(block@) == Err::<FlashState, FlashError>(error)
                    &&& *final(self) == *old(self)
                },
            },
            old(self).wf() ==> final(self).wf(),
    {
        let index: usize = match translate(block.address, block.len, self.offset, self.data.len()) {
            Ok(index) => index,
            Err(error) => {
                return Err(error);
            },
        };
        if block.len as usize > PAYLOAD_CAPACITY {
            return Err(FlashError::PayloadTooLarge);
        }
        self.position = index;
        self.write_bytes(block.contents());
        Ok(())
    }

    /// Writes every block of the container, in the container's order. The
    /// first block that is refused ends the run: the blocks before it stay
    /// written, it and the blocks after it are not.
    pub fn write_uf2(&mut self, bin: UF2) -> (result: Result<(), FlashError>)
        ensures
            old(self)@.write_uf2(bin@) == (final(self)@, result),
            old(self).wf() ==> final(self).wf(),
    {
        let count: usize = bin.blocks.len();
        let mut i: usize = 0;
        while i < count
            invariant
                i <= count,
                count == bin.blocks@.len(),
                old(self).wf() ==> self.wf(),
                old(self)@.write_uf2(bin@.take(i as int)) == (self@, Ok::<(), FlashError>(())),
            decreases count - i,
        {
            let ghost written = bin@.take(i + 1);
            assert(written.drop_last() =~= bin@.take(i as int));
            assert(written.last() == bin.blocks@[i as int]@);
            match self.write_block(bin.blocks[i]) {
                Ok(()) => {},
                Err(error) => {
                    proof {
                        lemma_failure_is_final(old(self)@, bin@, i + 1);
                    }
                    return Err(error);
                },
            }
            i += 1;
        }
        assert(bin@.take(i as int) =~= bin@);
        Ok(())
    }

    /// The SHA-256 digest of the whole buffer, from its first byte to its
    /// last. The buffer is read through the cursor, which starts over at the
    /// first byte and is left at the end; the buffer itself is not changed.
    pub fn sha256(&mut self) -> (digest: [u8; 32])
        ensures
            digest@ == old(self)@.digest(),
            final(self).offset == old(self).offset,
            final(self).data == old(self).data,
            final(self).position == old(self).data@.len(),
            old(self).wf() ==> final(self).wf(),
    {
        let mut hasher = hasher_new();
        self.seek_start();
        let total: usize = self.data.len();
        while self.position < total
            invariant
                self.offset == old(self).offset,
                self.data == old(self).data,
                total == self.data@.len(),
                self.position <= total,
                absorbed(hasher) == self.data@.subrange(0, self.position as int),
            decreases total - self.position,
        {
            let start: usize = self.position;
            let end: usize = if total - start > HASH_CHUNK {
                start + HASH_CHUNK
            } else {
                total
            };
            let chunk: &[u8] = slice_subrange(self.data.as_slice(), start, end);
            hasher_update(&mut hasher, chunk);
            assert(self.data@.subrange(0, start as int) + chunk@ =~= self.data@.subrange(
                0,
                end as int,
            ));
            self.position = end;
        }
        assert(self.data@.subrange(0, total as int) =~= self.data@);
        hasher_finalize(hasher)
    }
}

} // verus!
