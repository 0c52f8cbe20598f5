//! Storage read and written one block at a time.
use vstd::prelude::*;
use crate::fs::block_dev::write_range;

verus! {

/// Data held within a block device.
#[derive(Debug)]
pub struct BlockData {
    pub data: Vec<u8>,
}

/// Failures of single-block transfers.
#[derive(Debug, Clone, Copy, PartialEq, Eq, Structural)]
pub enum BlockError {
    InvalidBlockId,
    Read,
    Write,
    InvalidDataStream,
}

/// A device read and written one block at a time. A reliable device
/// completes every transfer that lies inside it.
pub trait BlockDevice {
    /// The device's whole contents, block 0 first.
    spec fn image(&self) -> Seq<u8>;

    /// Bytes per block.
    spec fn spec_block_size(&self) -> nat;

    /// The device completes every transfer that lies inside it.
    spec fn reliable(&self) -> bool;

    /// Reads block `block_id` into `buffer`, which is one block long.
    fn read_block(&mut self, block_id: u64, buffer: &mut [u8]) -> (r: Result<(), BlockError>)
        requires
            old(buffer)@.len() == old(self).spec_block_size(),
        ensures
            final(self).image() == old(self).image(),
            final(self).spec_block_size() == old(self).spec_block_size(),
            final(self).reliable() == old(self).reliable(),
            final(buffer)@.len() == old(buffer)@.len(),
            old(self).reliable() && (block_id + 1) * old(self).spec_block_size() <= old(self).image().len() ==> r is Ok,
            r is Ok ==> (block_id + 1) * old(self).spec_block_size() <= old(self).image().len()
                && final(buffer)@ == old(self).image().subrange(
                block_id * old(self).spec_block_size(),
                (block_id + 1) * old(self).spec_block_size(),
            ),
    ;

    /// Writes `buffer`, at most one block long, at the start of block `block_id`.
    fn write_block(&mut self, block_id: u64, buffer: &[u8]) -> (r: Result<(), BlockError>)
        ensures
            final(self).image().len() == old(self).image().len(),
            final(self).spec_block_size() == old(self).spec_block_size(),
            final(self).reliable() == old(self).reliable(),
            old(self).reliable() && buffer@.len() <= old(self).spec_block_size() && block_id
                * old(self).spec_block_size() + buffer@.len() <= old(self).image().len() ==> r is Ok,
            r is Ok ==> buffer@.len() <= old(self).spec_block_size() && block_id * old(self).spec_block_size()
                + buffer@.len() <= old(self).image().len() && final(self).image() == write_range(
                old(self).image(),
                block_id * old(self).spec_block_size(),
                buffer@,
            ),
    ;

    fn block_size(&mut self) -> (r: usize)
        ensures
            r == old(self).spec_block_size(),
            final(self).image() == old(self).image(),
            final(self).spec_block_size() == old(self).spec_block_size(),
            final(self).reliable() == old(self).reliable(),
    ;

    fn block_count(&mut self) -> (r: u64)
        ensures
            r == old(self).image().len() / old(self).spec_block_size(),
            final(self).image() == old(self).image(),
            final(self).spec_block_size() == old(self).spec_block_size(),
            final(self).reliable() == old(self).reliable(),
    ;
}

} // verus!
