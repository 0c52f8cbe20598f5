//! A block device held in memory.
use vstd::prelude::*;
use crate::fs::block_dev::{BlockDevice, DEVICE_BLOCK_SIZE, write_range};
use crate::fs::simple_fs::FileSystemError;
use crate::storage::block_repr::{BlockDevice as SingleBlockDevice, BlockError};

verus! {

/// A disk image kept in memory as one byte vector of 512-byte blocks. It
/// completes every transfer that lies inside it and refuses any other.
pub struct DiskImage {
    data: Vec<u8>,
}

impl DiskImage {
    /// An empty image with 512-byte blocks.
    pub fn new() -> (r: DiskImage)
        ensures
            r.contents() == Seq::<u8>::empty(),
    {
        DiskImage { data: Vec::new() }
    }

    /// An image holding `data`, read as 512-byte blocks.
    pub fn load_from_memory(data: Vec<u8>) -> (r: DiskImage)
        ensures
            r.contents() == data@,
    {
        DiskImage { data }
    }

    /// An image of `blocks` zeroed blocks.
    pub fn zeroed(blocks: usize) -> (r: DiskImage)
        requires
            blocks * 512 <= usize::MAX,
        ensures
            r.contents() == Seq::new((blocks * 512) as nat, |i: int| 0u8),
    {
        let data = vec![0u8; blocks * 512];
        assert(data@ =~= Seq::new((blocks * 512) as nat, |i: int| 0u8));
        DiskImage { data }
    }

    /// The image's bytes.
    pub fn as_bytes(&self) -> (r: &[u8])
        ensures
            r@ == self.contents(),
    {
        self.data.as_slice()
    }

    /// Whether `len` bytes starting at block `block_id` lie inside the image;
    /// then also the byte offset of that block.
    fn span(&self, block_id: u64, len: usize) -> (r: Option<usize>)
        ensures
            r is Some <==> block_id * 512 + len <= self.data@.len(),
            r matches Some(start) ==> start == block_id * 512,
    {
        let n = self.data.len();
        if block_id > (n / 512) as u64 {
            return None;
        }
        let start = (block_id as usize) * 512;
        if len > n - start {
            None
        } else {
            Some(start)
        }
    }
}

impl Default for DiskImage {
    fn default() -> (r: DiskImage)
        ensures
            r.contents() == Seq::<u8>::empty(),
    {
        DiskImage::new()
    }
}

impl BlockDevice for DiskImage {
    closed spec fn contents(&self) -> Seq<u8> {
        self.data@
    }

    /// An image in memory completes every transfer inside it.
    open spec fn reliable(&self) -> bool {
        true
    }

    /// Fails with `BlockError` when the blocks lie past the end of the image.
    fn read_blocks(&mut self, block_id: u64, buffer: &mut [u8]) -> (r: Result<(), FileSystemError>) {
        let start = match self.span(block_id, buffer.len()) {
            Some(s) => s,
            None => return Err(FileSystemError::BlockError),
        };
        let len = buffer.len();
        let mut i: usize = 0;
        while i < len
            invariant
                len == buffer@.len(),
                start == block_id * 512,
                start + len <= self.data.len(),
                i <= len,
                forall|j: int| 0 <= j < i ==> buffer@[j] == self.data@[start + j],
            decreases len - i,
        {
            buffer[i] = self.data[start + i];
            i = i + 1;
        }
        assert(buffer@ =~= self.data@.subrange(start as int, start + len));
        Ok(())
    }

    /// Fails with `BlockError` when the blocks lie past the end of the image.
    fn write_blocks(&mut self, block_id: u64, buffer: &[u8]) -> (r: Result<(), FileSystemError>) {
        let start = match self.span(block_id, buffer.len()) {
            Some(s) => s,
            None => return Err(FileSystemError::BlockError),
        };
        let len = buffer.len();
        let ghost d0 = self.data@;
        let mut i: usize = 0;
        while i < len
            invariant
                len == buffer@.len(),
                start == block_id * 512,
                start + len <= self.data.len(),
                self.data@.len() == d0.len(),
                i <= len,
                forall|j: int| 0 <= j < start ==> self.data@[j] == d0[j],
                forall|j: int| start + len <= j < d0.len() ==> self.data@[j] == d0[j],
                forall|j: int| start <= j < start + i ==> self.data@[j] == buffer@[j - start],
                forall|j: int| start + i <= j < start + len ==> self.data@[j] == d0[j],
            decreases len - i,
        {
            self.data.set(start + i, buffer[i]);
            i = i + 1;
        }
        assert(self.data@ =~= write_range(d0, start as int, buffer@));
        Ok(())
    }

    fn capacity(&self) -> (r: usize) {
        self.data.len() / 512
    }
}

impl SingleBlockDevice for DiskImage {
    closed spec fn image(&self) -> Seq<u8> {
        self.data@
    }

    closed spec fn spec_block_size(&self) -> nat {
        512
    }

    open spec fn reliable(&self) -> bool {
        true
    }

    /// Fails with `Read` when the block lies past the end of the image.
    fn read_block(&mut self, block_id: u64, buffer: &mut [u8]) -> (r: Result<(), BlockError>) {
        match BlockDevice::read_blocks(self, block_id, buffer) {
            Ok(()) => Ok(()),
            Err(_) => Err(BlockError::Read),
        }
    }

    /// Fails with `Write` when the buffer is longer than a block or the
    /// block lies past the end of the image.
    fn write_block(&mut self, block_id: u64, buffer: &[u8]) -> (r: Result<(), BlockError>) {
        if buffer.len() > DEVICE_BLOCK_SIZE {
            return Err(BlockError::Write);
        }
        let start = match self.span(block_id, buffer.len()) {
            Some(s) => s,
            None => return Err(BlockError::Write),
        };
        let len = buffer.len();
        let ghost d0 = self.data@;
        let mut i: usize = 0;
        while i < len
            invariant
                len == buffer@.len(),
                start == block_id * 512,
                start + len <= self.data.len(),
                self.data@.len() == d0.len(),
                i <= len,
                forall|j: int| 0 <= j < start ==> self.data@[j] == d0[j],
                forall|j: int| start + len <= j < d0.len() ==> self.data@[j] == d0[j],
                forall|j: int| start <= j < start + i ==> self.data@[j] == buffer@[j - start],
                forall|j: int| start + i <= j < start + len ==> self.data@[j] == d0[j],
            decreases len - i,
        {
            self.data.set(start + i, buffer[i]);
            i = i + 1;
        }
        assert(self.data@ =~= write_range(d0, start as int, buffer@));
        Ok(())
    }

    fn block_size(&mut self) -> (r: usize) {
        DEVICE_BLOCK_SIZE
    }

    fn block_count(&mut self) -> (r: u64) {
        (self.data.len() / DEVICE_BLOCK_SIZE) as u64
    }
}

} // verus!
