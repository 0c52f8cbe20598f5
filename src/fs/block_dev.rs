//! Fixed-size-block storage as the filesystem sees it.
use vstd::prelude::*;
use crate::fs::simple_fs::FileSystemError;

verus! {

/// Bytes per device block.
pub const DEVICE_BLOCK_SIZE: usize = 512;

/// `d` with `data` written at byte offset `off`.
pub open spec fn write_range(d: Seq<u8>, off: int, data: Seq<u8>) -> Seq<u8> {
    d.subrange(0, off) + data + d.subrange(off + data.len(), d.len() as int)
}

/// Block `b` of the byte image `d`.
pub open spec fn block_at(d: Seq<u8>, b: int) -> Seq<u8> {
    d.subrange(b * 512, b * 512 + 512)
}

/// Block `b` of `d` exists.
pub open spec fn has_block(d: Seq<u8>, b: int) -> bool {
    0 <= b && b * 512 + 512 <= d.len()
}

/// `d` with block `b` replaced by `data`.
pub open spec fn with_block(d: Seq<u8>, b: int, data: Seq<u8>) -> Seq<u8> {
    write_range(d, b * 512, data)
}

/// Storage that presents itself as a sequence of 512-byte blocks. A
/// transfer that succeeds moves exactly the bytes asked for. A reliable
/// device completes every transfer that lies inside it; any other device may
/// fail a transfer.
pub trait BlockDevice {
    /// The device's whole contents, block 0 first.
    spec fn contents(&self) -> Seq<u8>;

    /// The device completes every transfer that lies inside it.
    spec fn reliable(&self) -> bool;

    /// Reads consecutive blocks starting at `block_id` into `buffer`.
    fn read_blocks(&mut self, block_id: u64, buffer: &mut [u8]) -> (r: Result<(), FileSystemError>)
        requires
            old(buffer)@.len() > 0,
            old(buffer)@.len() % 512 == 0,
        ensures
            final(self).contents() == old(self).contents(),
            final(self).reliable() == old(self).reliable(),
            final(buffer)@.len() == old(buffer)@.len(),
            old(self).reliable() && block_id * 512 + old(buffer)@.len() <= old(self).contents().len() ==> r is Ok,
            r is Ok ==> block_id * 512 + old(buffer)@.len() <= old(self).contents().len()
                && final(buffer)@ == old(self).contents().subrange(
                block_id * 512,
                block_id * 512 + old(buffer)@.len(),
            ),
    ;

    /// Writes `buffer` to consecutive blocks starting at `block_id`.
    fn write_blocks(&mut self, block_id: u64, buffer: &[u8]) -> (r: Result<(), FileSystemError>)
        requires
            buffer@.len() > 0,
            buffer@.len() % 512 == 0,
        ensures
            final(self).contents().len() == old(self).contents().len(),
            final(self).reliable() == old(self).reliable(),
            old(self).reliable() && block_id * 512 + buffer@.len() <= old(self).contents().len() ==> r is Ok,
            r is Ok ==> block_id * 512 + buffer@.len() <= old(self).contents().len()
                && final(self).contents() == write_range(
                old(self).contents(),
                block_id * 512,
                buffer@,
            ),
    ;

    /// Number of blocks on the device.
    fn capacity(&self) -> (r: usize)
        ensures
            r == self.contents().len() / 512,
    ;
}

/// Failures reported by a block device.
#[derive(Debug, Clone, Copy, PartialEq, Eq, Structural)]
pub enum BlockError {
    InvalidBlockId,
    Read,
    Write,
    InvalidDataStream,
}

} // verus!
