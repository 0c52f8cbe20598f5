//! The simple filesystem over a block device.
use vstd::prelude::*;
use vstd::string::StringSliceAdditionalSpecFns;
use crate::fs::block_dev::{BlockDevice, block_at, has_block, with_block, write_range};
use crate::fs::codec::{le_bytes, push_le, read_le, lemma_byte_base_values, lemma_le_value_bound};
use crate::fs::layout::{
    bit_of, dirent_bytes, entry_inode, entry_name_is, entry_name_len, entry_used, file_type_code,
    inode_direct_at, words_le, DIRENT_NAME_FILL, DIRENT_USED, DIR_ENTRIES_PER_BLOCK,
    DIR_ENTRY_SIZE, DIR_NAME_MAX, DIRECT_POINTERS,
    Bitmap, DiskInode, DiskSuperBlock, FileType, Inode, SuperBlock, all_set, inode_bytes,
    inode_decodes_to, inode_mode_code, is_first_clear, set_bit_bytes, superblock_bytes,
    superblock_from_bytes, BLOCK_SIZE, DATA_BITMAP_BLOCK, INODES_PER_BLOCK, INODE_BITMAP_BLOCK,
    INODE_SIZE, INODE_TABLE_START_BLOCK, MAGIC_NUMBER, SUPERBLOCK_BLOCK, SUPERBLOCK_SIZE,
};

verus! {

/// Failures of filesystem operations.
#[derive(Debug, Clone, Copy, PartialEq, Eq, Structural)]
pub enum FileSystemError {
    FormatFailed,
    MountFailed,
    BlockError,
    NoSpace,
    NameTooLong,
    CorruptLayout,
    InvalidSuperBlock,
    FileExists,
}

/// The superblock that formatting a device of `capacity` blocks writes: a
/// tenth of the blocks (rounded down) hold inodes, the data region follows.
pub open spec fn layout_for(capacity: u64) -> SuperBlock {
    let itb = capacity / 10;
    SuperBlock {
        total_blocks: capacity,
        inode_bitmap_block: 1,
        data_bitmap_block: 2,
        inode_table_start_block: 3,
        inode_count: (itb * 4) as u64,
        data_block_start: (3 + itb) as u64,
        data_block_count: (capacity - (3 + itb)) as u64,
        magic_number: MAGIC_NUMBER,
    }
}

/// A device of `capacity` blocks has room for the metadata blocks.
pub open spec fn layout_fits(capacity: u64) -> bool {
    3 + capacity / 10 <= capacity
}

/// `sb` is the superblock that formatting a device of its size writes.
pub open spec fn layout_consistent(sb: SuperBlock) -> bool {
    layout_fits(sb.total_blocks) && sb == layout_for(sb.total_blocks)
}

pub open spec fn zeros(n: nat) -> Seq<u8> {
    Seq::new(n, |i: int| 0u8)
}

/// The image after formatting: the superblock in block 0 (zero-padded) and
/// empty inode and data bitmaps in blocks 1 and 2.
pub open spec fn formatted(d: Seq<u8>, sb: SuperBlock) -> Seq<u8> {
    with_block(
        with_block(with_block(d, 0, superblock_bytes(sb) + zeros(448)), 1, zeros(512)),
        2,
        zeros(512),
    )
}

/// The superblock stored in the first 64 bytes of the image `c`.
pub open spec fn stored_superblock(c: Seq<u8>) -> SuperBlock {
    superblock_from_bytes(c.subrange(0, 64))
}

/// The image `c` holds a superblock that mounts: the layout that
/// formatting an image of its size writes.
pub open spec fn mountable(c: Seq<u8>) -> bool {
    layout_consistent(stored_superblock(c)) && stored_superblock(c).total_blocks == c.len() / 512
}

/// Block holding inode `idx`.
pub open spec fn inode_block(idx: int) -> int {
    3 + idx / 4
}

/// Byte offset of inode `idx` inside its block.
pub open spec fn inode_offset(idx: int) -> int {
    (idx % 4) * 128
}

/// The encoded inode `idx` in the image `d`.
pub open spec fn inode_slot(d: Seq<u8>, idx: int) -> Seq<u8> {
    block_at(d, inode_block(idx)).subrange(inode_offset(idx), inode_offset(idx) + 128)
}

/// `d` with the encoded inode `idx` replaced by `bytes`.
pub open spec fn with_inode(d: Seq<u8>, idx: int, bytes: Seq<u8>) -> Seq<u8> {
    with_block(d, inode_block(idx), write_range(block_at(d, inode_block(idx)), inode_offset(idx), bytes))
}

/// The smallest clear bit of `m`, where there is one.
pub open spec fn first_clear(m: Seq<u8>) -> int {
    choose|i: int| is_first_clear(m, i)
}

proof fn lemma_first_clear_unique(m: Seq<u8>, i: int)
    requires
        is_first_clear(m, i),
    ensures
        first_clear(m) == i,
{
    let j = first_clear(m);
    assert(is_first_clear(m, j));
    if j < i {
        assert(crate::fs::layout::bit_of(m, j));
    } else if i < j {
        assert(crate::fs::layout::bit_of(m, i));
    }
}

/// `buf` with `data` copied in at byte offset `off`.
fn copy_into(buf: &mut Vec<u8>, off: usize, data: &[u8])
    requires
        off + data@.len() <= old(buf)@.len(),
    ensures
        final(buf)@ == write_range(old(buf)@, off as int, data@),
        final(buf)@.len() == old(buf)@.len(),
{
    let ghost b0 = buf@;
    let n = data.len();
    let mut j: usize = 0;
    while j < n
        invariant
            n == data@.len(),
            off + n <= buf.len(),
            buf@.len() == b0.len(),
            j <= n,
            forall|k: int| 0 <= k < off ==> buf@[k] == b0[k],
            forall|k: int| off + n <= k < b0.len() ==> buf@[k] == b0[k],
            forall|k: int| off <= k < off + j ==> buf@[k] == data@[k - off],
            forall|k: int| off + j <= k < off + n ==> buf@[k] == b0[k],
        decreases n - j,
    {
        buf.set(off + j, data[j]);
        j = j + 1;
    }
    assert(buf@ =~= write_range(b0, off as int, data@));
}

/// The direct pointers of a fresh inode: `first` and nine zeros.
pub open spec fn fresh_direct(first: u64) -> Seq<u64> {
    Seq::new(10, |k: int| if k == 0 { first } else { 0u64 })
}

/// The encoding of a fresh inode: zero size and times, `first` as its only
/// block pointer, owner 0 and the given mode and link count.
pub open spec fn fresh_inode_bytes(mode: FileType, link_count: u16, first: u64) -> Seq<u8> {
    le_bytes(0, 8) + le_bytes(0, 8) + le_bytes(0, 8) + le_bytes(0, 8) + words_le(
        fresh_direct(first),
    ) + le_bytes(0, 8) + le_bytes(file_type_code(mode) as nat, 2) + le_bytes(0, 2) + le_bytes(
        0,
        2,
    ) + le_bytes(link_count as nat, 2)
}

/// A fresh inode with the given mode, link count and first block pointer.
fn fresh_inode(mode: FileType, link_count: u16, first: u64) -> (r: Inode)
    ensures
        inode_bytes(r) == fresh_inode_bytes(mode, link_count, first),
        r.mode == mode,
        r.link_count == link_count,
        r.direct_pointers@ == fresh_direct(first),
{
    let mut direct_pointers = [0u64; 10];
    direct_pointers[0] = first;
    let r = Inode {
        mode,
        user_id: 0,
        group_id: 0,
        link_count,
        size_in_bytes: 0,
        last_access_time: 0,
        last_modification_time: 0,
        creation_time: 0,
        direct_pointers,
        indirect_pointer: 0,
    };
    assert(r.direct_pointers@ =~= fresh_direct(first));
    r
}

/// A name a file in the root directory may have: 1 to 52 bytes.
pub open spec fn name_ok(name: Seq<u8>) -> bool {
    0 < name.len() <= 52
}

/// Some used entry of directory block `b` holds `name`.
pub open spec fn name_taken(b: Seq<u8>, name: Seq<u8>) -> bool {
    exists|i: int| 0 <= i < 8 && #[trigger] entry_used(b, i) && entry_name_is(b, i, name)
}

/// `s` is the first entry of directory block `b` without the USED flag.
pub open spec fn is_first_unused(b: Seq<u8>, s: int) -> bool {
    &&& 0 <= s < 8
    &&& !entry_used(b, s)
    &&& forall|j: int| 0 <= j < s ==> #[trigger] entry_used(b, j)
}

pub open spec fn first_unused(b: Seq<u8>) -> int {
    choose|s: int| is_first_unused(b, s)
}

/// Every entry of directory block `b` is in use.
pub open spec fn all_used(b: Seq<u8>) -> bool {
    forall|j: int| 0 <= j < 8 ==> #[trigger] entry_used(b, j)
}

proof fn lemma_first_unused_unique(b: Seq<u8>, s: int)
    requires
        is_first_unused(b, s),
    ensures
        first_unused(b) == s,
{
    let t = first_unused(b);
    assert(is_first_unused(b, t));
    if t < s {
        assert(entry_used(b, t));
    } else if s < t {
        assert(entry_used(b, s));
    }
}

/// The encoded root inode in image `d`.
pub open spec fn root_slot(d: Seq<u8>) -> Seq<u8> {
    inode_slot(d, 0)
}

/// Inode 0 of `d` can be read: its block exists and its mode code names a
/// file type.
pub open spec fn root_readable(d: Seq<u8>) -> bool {
    has_block(d, 3) && inode_mode_code(root_slot(d)) <= 2
}

/// The root inode in `d` describes a directory.
pub open spec fn root_is_dir(d: Seq<u8>) -> bool {
    inode_mode_code(root_slot(d)) == 2
}

/// The root directory's data block according to `d`.
pub open spec fn root_dir_block(d: Seq<u8>) -> int {
    inode_direct_at(root_slot(d), 0) as int
}

/// The root of `d` is a directory whose data block lies inside the image.
pub open spec fn root_dir_ok(d: Seq<u8>) -> bool {
    root_readable(d) && root_is_dir(d) && root_dir_block(d) != 0 && has_block(d, root_dir_block(d))
}

/// The root directory's data block in `d`.
pub open spec fn root_dir(d: Seq<u8>) -> Seq<u8> {
    block_at(d, root_dir_block(d))
}

/// Everything creating the file `name` in `d` needs: a valid new name, a
/// sound root directory with an unused entry, a free inode, and that
/// inode's block inside the image.
pub open spec fn file_creatable(d: Seq<u8>, name: Seq<u8>) -> bool {
    &&& name_ok(name) && root_dir_ok(d)
    &&& !name_taken(root_dir(d), name) && !all_used(root_dir(d))
    &&& has_block(d, 1) && !all_set(block_at(d, 1))
    &&& has_block(d, inode_block(first_clear(block_at(d, 1))))
}

/// The image after creating the file `name` in the root directory, whose
/// data block is `db`: the first free inode is marked in the inode bitmap,
/// written as an empty file with one link, and named in the first unused
/// entry of the directory block.
pub open spec fn created(d: Seq<u8>, name: Seq<u8>, db: int) -> Seq<u8> {
    let bm = block_at(d, 1);
    let i = first_clear(bm);
    let d1 = with_block(d, 1, set_bit_bytes(bm, i));
    let d2 = with_inode(d1, i, fresh_inode_bytes(FileType::File, 1, 0));
    let dir = block_at(d, db);
    with_block(d2, db, write_range(dir, first_unused(dir) * 64, dirent_bytes(i as u64, name)))
}

/// The root directory's data block: `.` and `..` in entries 0 and 1, both
/// naming inode 0.
pub open spec fn root_dir_entries() -> Seq<u8> {
    write_range(
        write_range(zeros(512), 0, dirent_bytes(0, seq![46u8])),
        64,
        dirent_bytes(0, seq![46u8, 46u8]),
    )
}

/// `bm` with bit 0 set.
pub open spec fn with_bit0(bm: Seq<u8>) -> Seq<u8> {
    if bit_of(bm, 0) {
        bm
    } else {
        set_bit_bytes(bm, 0)
    }
}

/// The image after inode 0 is marked used in the inode bitmap.
pub open spec fn root_marked(d: Seq<u8>) -> Seq<u8> {
    with_block(d, 1, with_bit0(block_at(d, 1)))
}

/// The data block that setting up the root directory in `d`, formatted as
/// `sb`, takes: the first free one of the data bitmap.
pub open spec fn root_data_block(d: Seq<u8>, sb: SuperBlock) -> int {
    sb.data_block_start + first_clear(block_at(root_marked(d), 2))
}

/// The image after the root directory is set up in `d` formatted as `sb`:
/// inode 0 marked used, the first free data block taken, inode 0 written as
/// a directory with two links pointing at it, and that block holding `.`
/// and `..`.
pub open spec fn root_initialized(d: Seq<u8>, sb: SuperBlock) -> Seq<u8> {
    let d1 = with_block(d, 1, with_bit0(block_at(d, 1)));
    let dm = block_at(d1, 2);
    let k = first_clear(dm);
    let db = sb.data_block_start + k;
    let d2 = with_block(d1, 2, set_bit_bytes(dm, k));
    let d3 = with_inode(d2, 0, fresh_inode_bytes(FileType::Directory, 2, db as u64));
    with_block(d3, db, root_dir_entries())
}

/// SFS - the simple filesystem: a device and its superblock.
pub struct SFS<D: BlockDevice> {
    device: D,
    superblock: SuperBlock,
}

impl<D: BlockDevice> SFS<D> {
    pub closed spec fn sb(&self) -> SuperBlock {
        self.superblock
    }

    /// The device's contents.
    pub closed spec fn disk(&self) -> Seq<u8> {
        self.device.contents()
    }

    /// The device completes every transfer that lies inside it.
    pub closed spec fn reliable(&self) -> bool {
        self.device.reliable()
    }

    pub open spec fn wf(&self) -> bool {
        layout_consistent(self.sb())
    }

    pub fn superblock(&self) -> (r: SuperBlock)
        ensures
            r == self.sb(),
    {
        self.superblock
    }

    /// Gives the device back.
    pub fn into_device(self) -> (r: D)
        ensures
            r.contents() == self.disk(),
    {
        self.device
    }

    /// Formats `device`: writes the superblock computed from its capacity to
    /// block 0 and empty bitmaps to blocks 1 and 2. Fails with `FormatFailed`
    /// when the device is too small for the metadata blocks, and with
    /// `BlockError` when a write fails; a reliable device that is large
    /// enough is formatted.
    pub fn format(device: D) -> (r: Result<Self, FileSystemError>)
        ensures
            device.reliable() && layout_fits((device.contents().len() / 512) as u64) ==> r is Ok,
            r matches Ok(fs) ==> fs.reliable() == device.reliable(),
            r matches Ok(fs) ==> fs.wf() && fs.sb() == layout_for(
                (device.contents().len() / 512) as u64,
            ) && fs.disk() == formatted(device.contents(), fs.sb()),
            r matches Err(e) ==> e == FileSystemError::FormatFailed || e
                == FileSystemError::BlockError,
            r == Err::<Self, _>(FileSystemError::FormatFailed) <==> !layout_fits(
                (device.contents().len() / 512) as u64,
            ),
    {
        let mut device = device;
        let capacity: u64 = device.capacity() as u64;
        let inode_table_blocks = capacity / 10;
        if capacity < INODE_TABLE_START_BLOCK || inode_table_blocks > capacity - INODE_TABLE_START_BLOCK {
            return Err(FileSystemError::FormatFailed);
        }
        assert(inode_table_blocks * 4 <= capacity) by (nonlinear_arith)
            requires
                inode_table_blocks == capacity / 10,
        ;
        let inode_count = inode_table_blocks * (INODES_PER_BLOCK as u64);
        let data_block_start = INODE_TABLE_START_BLOCK + inode_table_blocks;
        let data_block_count = capacity - data_block_start;
        let sb = SuperBlock {
            total_blocks: capacity,
            inode_bitmap_block: INODE_BITMAP_BLOCK,
            data_bitmap_block: DATA_BITMAP_BLOCK,
            inode_table_start_block: INODE_TABLE_START_BLOCK,
            inode_count,
            data_block_start,
            data_block_count,
            magic_number: MAGIC_NUMBER,
        };
        let dsb = DiskSuperBlock::new(&sb);
        let sb_bytes = dsb.as_bytes();
        let mut superblock_buffer: Vec<u8> = vec![0u8; BLOCK_SIZE];
        let mut i: usize = 0;
        while i < SUPERBLOCK_SIZE
            invariant
                i <= 64,
                sb_bytes@ == superblock_bytes(sb),
                sb_bytes@.len() == 64,
                superblock_buffer@.len() == 512,
                forall|j: int| 0 <= j < i ==> superblock_buffer@[j] == sb_bytes@[j],
                forall|j: int| 64 <= j < 512 ==> superblock_buffer@[j] == 0,
            decreases 64 - i,
        {
            superblock_buffer.set(i, sb_bytes[i]);
            i = i + 1;
        }
        assert(superblock_buffer@ =~= superblock_bytes(sb) + zeros(448));
        let ghost d0 = device.contents();
        if device.write_blocks(SUPERBLOCK_BLOCK, superblock_buffer.as_slice()).is_err() {
            return Err(FileSystemError::BlockError);
        }
        let empty_bitmap_block: Vec<u8> = vec![0u8; BLOCK_SIZE];
        assert(empty_bitmap_block@ =~= zeros(512));
        if device.write_blocks(INODE_BITMAP_BLOCK, empty_bitmap_block.as_slice()).is_err() {
            return Err(FileSystemError::BlockError);
        }
        if device.write_blocks(DATA_BITMAP_BLOCK, empty_bitmap_block.as_slice()).is_err() {
            return Err(FileSystemError::BlockError);
        }
        Ok(SFS { device, superblock: sb })
    }

    /// Mounts the filesystem on `device`: block 0 must hold a superblock with
    /// the magic number (else `InvalidSuperBlock`) describing the layout that
    /// formatting this device writes (else `CorruptLayout`). A failed read of
    /// block 0 is a `BlockError`.
    pub fn mount(device: D) -> (r: Result<Self, FileSystemError>)
        ensures
            r matches Ok(fs) ==> fs.wf() && has_block(device.contents(), 0) && fs.sb()
                == stored_superblock(device.contents()) && fs.disk() == device.contents()
                && fs.sb().total_blocks == device.contents().len() / 512 && fs.reliable() == device.reliable(),
            r is Ok ==> has_block(device.contents(), 0) && mountable(device.contents()),
            device.reliable() && has_block(device.contents(), 0) && mountable(device.contents()) ==> r is Ok,
            r matches Err(e) ==> e == FileSystemError::InvalidSuperBlock || e
                == FileSystemError::CorruptLayout || e == FileSystemError::BlockError,
            r == Err::<Self, _>(FileSystemError::InvalidSuperBlock) ==> has_block(device.contents(), 0)
                && stored_superblock(device.contents()).magic_number != MAGIC_NUMBER,
            r == Err::<Self, _>(FileSystemError::CorruptLayout) ==> has_block(device.contents(), 0)
                && stored_superblock(device.contents()).magic_number == MAGIC_NUMBER
                && !mountable(device.contents()),
            r == Err::<Self, _>(FileSystemError::BlockError) ==> !(device.reliable() && has_block(device.contents(), 0)),
    {
        let mut device = device;
        let mut buffer: Vec<u8> = vec![0u8; BLOCK_SIZE];
        if device.read_blocks(SUPERBLOCK_BLOCK, buffer.as_mut_slice()).is_err() {
            return Err(FileSystemError::BlockError);
        }
        let dsb = match DiskSuperBlock::read_from(slice_prefix(buffer.as_slice(), SUPERBLOCK_SIZE)) {
            Some(d) => d,
            None => return Err(FileSystemError::InvalidSuperBlock),
        };
        let superblock = dsb.to_superblock();
        proof {
            assert(buffer@.subrange(0, 64) =~= device.contents().subrange(0, 64));
        }
        if superblock.magic_number != MAGIC_NUMBER {
            return Err(FileSystemError::InvalidSuperBlock);
        }
        let capacity = device.capacity() as u64;
        let total = superblock.total_blocks;
        if total != capacity || total < INODE_TABLE_START_BLOCK || total / 10 > total - INODE_TABLE_START_BLOCK {
            return Err(FileSystemError::CorruptLayout);
        }
        let itb = total / 10;
        assert(itb * 4 <= total) by (nonlinear_arith)
            requires
                itb == total / 10,
        ;
        if superblock.inode_bitmap_block != INODE_BITMAP_BLOCK
            || superblock.data_bitmap_block != DATA_BITMAP_BLOCK
            || superblock.inode_table_start_block != INODE_TABLE_START_BLOCK
            || superblock.inode_count != itb * (INODES_PER_BLOCK as u64)
            || superblock.data_block_start != INODE_TABLE_START_BLOCK + itb
            || superblock.data_block_count != total - (INODE_TABLE_START_BLOCK + itb) {
            return Err(FileSystemError::CorruptLayout);
        }
        Ok(SFS { device, superblock })
    }

    /// Reads bitmap block `block`, sets its first clear bit, writes it back
    /// and returns the bit's index.
    fn allocate_in_bitmap(&mut self, block: u64) -> (r: Result<u64, FileSystemError>)
        requires
            block == 1 || block == 2,
        ensures
            final(self).sb() == old(self).sb(),
            final(self).reliable() == old(self).reliable(),
            final(self).disk().len() == old(self).disk().len(),
            r matches Ok(i) ==> has_block(old(self).disk(), block as int) && i < 4096
                && is_first_clear(block_at(old(self).disk(), block as int), i as int)
                && final(self).disk() == with_block(
                old(self).disk(),
                block as int,
                set_bit_bytes(block_at(old(self).disk(), block as int), i as int),
            ),
            r matches Err(e) ==> e == FileSystemError::NoSpace || e == FileSystemError::BlockError,
            r == Err::<u64, _>(FileSystemError::NoSpace) ==> has_block(old(self).disk(), block as int)
                && all_set(block_at(old(self).disk(), block as int)) && final(self).disk() == old(self).disk(),
            old(self).reliable() && has_block(old(self).disk(), block as int) && !all_set(block_at(old(self).disk(), block as int)) ==> r is Ok,
            old(self).reliable() && has_block(old(self).disk(), block as int) && all_set(block_at(old(self).disk(), block as int))
                ==> r == Err::<u64, _>(FileSystemError::NoSpace),
    {
        let mut bitmap_buffer: Vec<u8> = vec![0u8; BLOCK_SIZE];
        if self.device.read_blocks(block, bitmap_buffer.as_mut_slice()).is_err() {
            return Err(FileSystemError::BlockError);
        }
        let mut bitmap = Bitmap::new(bitmap_buffer);
        let free_index = match bitmap.find_and_set_first_free() {
            Some(i) => i,
            None => return Err(FileSystemError::NoSpace),
        };
        let bitmap_buffer = bitmap.map;
        if self.device.write_blocks(block, bitmap_buffer.as_slice()).is_err() {
            return Err(FileSystemError::BlockError);
        }
        Ok(free_index as u64)
    }

    /// Takes the first free inode: reads the inode bitmap, sets its first
    /// clear bit, writes it back and returns the bit's index. Fails with
    /// `NoSpace` when every bit is set.
    pub fn allocate_inode(&mut self) -> (r: Result<u64, FileSystemError>)
        requires
            old(self).wf(),
        ensures
            final(self).wf(),
            final(self).sb() == old(self).sb(),
            final(self).reliable() == old(self).reliable(),
            final(self).disk().len() == old(self).disk().len(),
            r matches Ok(i) ==> has_block(old(self).disk(), 1) && i < 4096 && is_first_clear(
                block_at(old(self).disk(), 1),
                i as int,
            ) && final(self).disk() == with_block(
                old(self).disk(),
                1,
                set_bit_bytes(block_at(old(self).disk(), 1), i as int),
            ),
            r matches Err(e) ==> e == FileSystemError::NoSpace || e == FileSystemError::BlockError,
            r == Err::<u64, _>(FileSystemError::NoSpace) ==> has_block(old(self).disk(), 1)
                && all_set(block_at(old(self).disk(), 1)) && final(self).disk() == old(self).disk(),
            old(self).reliable() && has_block(old(self).disk(), 1) && !all_set(block_at(old(self).disk(), 1)) ==> r is Ok,
            old(self).reliable() && has_block(old(self).disk(), 1) && all_set(block_at(old(self).disk(), 1))
                ==> r == Err::<u64, _>(FileSystemError::NoSpace),
    {
        self.allocate_in_bitmap(INODE_BITMAP_BLOCK)
    }

    /// Takes the first free data block in the same way, against the data
    /// bitmap; returns its absolute block number `data_block_start + index`.
    pub fn allocate_data_block(&mut self) -> (r: Result<u64, FileSystemError>)
        requires
            old(self).wf(),
        ensures
            final(self).wf(),
            final(self).sb() == old(self).sb(),
            final(self).reliable() == old(self).reliable(),
            final(self).disk().len() == old(self).disk().len(),
            r matches Ok(b) ==> has_block(old(self).disk(), 2) && b >= old(self).sb().data_block_start
                && b - old(self).sb().data_block_start < 4096 && is_first_clear(
                block_at(old(self).disk(), 2),
                b - old(self).sb().data_block_start,
            ) && final(self).disk() == with_block(
                old(self).disk(),
                2,
                set_bit_bytes(block_at(old(self).disk(), 2), b - old(self).sb().data_block_start),
            ),
            r matches Err(e) ==> e == FileSystemError::NoSpace || e == FileSystemError::BlockError,
            r == Err::<u64, _>(FileSystemError::NoSpace) ==> has_block(old(self).disk(), 2)
                && all_set(block_at(old(self).disk(), 2)) && final(self).disk() == old(self).disk(),
            old(self).reliable() && has_block(old(self).disk(), 2) && !all_set(block_at(old(self).disk(), 2)) ==> r is Ok,
            old(self).reliable() && has_block(old(self).disk(), 2) && all_set(block_at(old(self).disk(), 2))
                ==> r == Err::<u64, _>(FileSystemError::NoSpace),
    {
        let free_index = self.allocate_in_bitmap(DATA_BITMAP_BLOCK)?;
        Ok(self.superblock.data_block_start + free_index)
    }

    /// Reads inode `inode_index` from block `3 + inode_index / 4` at byte
    /// offset `(inode_index % 4) * 128`. A record whose mode names no file
    /// type is reported as `BlockError`.
    pub fn read_inode(&mut self, inode_index: u64) -> (r: Result<Inode, FileSystemError>)
        requires
            old(self).wf(),
        ensures
            final(self).wf(),
            final(self).sb() == old(self).sb(),
            final(self).reliable() == old(self).reliable(),
            final(self).disk() == old(self).disk(),
            r matches Ok(i) ==> has_block(old(self).disk(), inode_block(inode_index as int))
                && inode_decodes_to(inode_slot(old(self).disk(), inode_index as int), i),
            r matches Err(e) ==> e == FileSystemError::BlockError,
            has_block(old(self).disk(), inode_block(inode_index as int)) && inode_mode_code(
                inode_slot(old(self).disk(), inode_index as int),
            ) > 2 ==> r is Err,
            old(self).reliable() && has_block(old(self).disk(), inode_block(inode_index as int)) && inode_mode_code(
                inode_slot(old(self).disk(), inode_index as int),
            ) <= 2 ==> r is Ok,
    {
        let block_num = self.superblock.inode_table_start_block + inode_index / (INODES_PER_BLOCK as u64);
        let offset_in_block = (inode_index % (INODES_PER_BLOCK as u64)) as usize * INODE_SIZE;
        let mut buffer: Vec<u8> = vec![0u8; BLOCK_SIZE];
        if self.device.read_blocks(block_num, buffer.as_mut_slice()).is_err() {
            return Err(FileSystemError::BlockError);
        }
        let slot = vstd::slice::slice_subrange(buffer.as_slice(), offset_in_block, offset_in_block + INODE_SIZE);
        assert(slot@ =~= inode_slot(old(self).disk(), inode_index as int));
        let disk_inode = match DiskInode::read_from(slot) {
            Some(d) => d,
            None => return Err(FileSystemError::BlockError),
        };
        match disk_inode.to_inode() {
            Some(inode) => Ok(inode),
            None => Err(FileSystemError::BlockError),
        }
    }

    /// Writes `inode` as inode `inode_idx`: reads the containing block,
    /// replaces the inode's 128 bytes and writes the block back.
    pub fn write_inode(&mut self, inode: Inode, inode_idx: u64) -> (r: Result<(), FileSystemError>)
        requires
            old(self).wf(),
        ensures
            final(self).wf(),
            final(self).sb() == old(self).sb(),
            final(self).reliable() == old(self).reliable(),
            final(self).disk().len() == old(self).disk().len(),
            r is Ok ==> has_block(old(self).disk(), inode_block(inode_idx as int)) && final(self).disk() == with_inode(old(self).disk(), inode_idx as int, inode_bytes(inode)),
            r matches Err(e) ==> e == FileSystemError::BlockError,
            old(self).reliable() && has_block(old(self).disk(), inode_block(inode_idx as int)) ==> r is Ok,
    {
        let block_num = self.superblock.inode_table_start_block + inode_idx / (INODES_PER_BLOCK as u64);
        let offset_in_block = (inode_idx % (INODES_PER_BLOCK as u64)) as usize * INODE_SIZE;
        let mut buffer: Vec<u8> = vec![0u8; BLOCK_SIZE];
        if self.device.read_blocks(block_num, buffer.as_mut_slice()).is_err() {
            return Err(FileSystemError::BlockError);
        }
        let disk_inode = DiskInode::new(&inode);
        copy_into(&mut buffer, offset_in_block, disk_inode.as_bytes());
        if self.device.write_blocks(block_num, buffer.as_slice()).is_err() {
            return Err(FileSystemError::BlockError);
        }
        Ok(())
    }

    /// Writes a used directory entry naming inode `inode` as `name` into
    /// entry `slot` of the directory block `block`. Fails with `NameTooLong`
    /// for names over 52 bytes.
    pub fn write_dirent_into_block(&self, block: &mut Vec<u8>, slot: usize, inode: u64, name: &[u8]) -> (r: Result<(), FileSystemError>)
        requires
            old(block)@.len() == 512,
            slot < 8,
        ensures
            final(block)@.len() == 512,
            name@.len() > 52 ==> r == Err::<(), _>(FileSystemError::NameTooLong) && final(block)@ == old(block)@,
            name@.len() <= 52 ==> r is Ok && final(block)@ == write_range(old(block)@, slot * 64, dirent_bytes(inode, name@)),
    {
        if name.len() > DIR_NAME_MAX {
            return Err(FileSystemError::NameTooLong);
        }
        let mut entry: Vec<u8> = Vec::new();
        push_le(&mut entry, inode, 8);
        push_le(&mut entry, name.len() as u64, 2);
        push_le(&mut entry, DIRENT_USED as u64, 2);
        let ghost head = entry@;
        let n = name.len();
        let mut k: usize = 0;
        while k < n
            invariant
                n == name@.len(),
                k <= n,
                entry@ == head + name@.subrange(0, k as int),
            decreases n - k,
        {
            entry.push(name[k]);
            k = k + 1;
            assert(entry@ =~= head + name@.subrange(0, k as int));
        }
        assert(name@.subrange(0, n as int) =~= name@);
        let ghost named = entry@;
        let mut k: usize = n;
        while k < DIR_NAME_MAX
            invariant
                n <= k <= 52,
                entry@ == named + Seq::new((k - n) as nat, |i: int| 8u8),
            decreases 52 - k,
        {
            entry.push(DIRENT_NAME_FILL);
            k = k + 1;
            assert(entry@ =~= named + Seq::new((k - n) as nat, |i: int| 8u8));
        }
        proof {
            crate::fs::codec::lemma_le_bytes_len(inode as nat, 8);
            crate::fs::codec::lemma_le_bytes_len(n as nat, 2);
            crate::fs::codec::lemma_le_bytes_len(1, 2);
            assert(entry@ =~= dirent_bytes(inode, name@));
        }
        copy_into(block, slot * DIR_ENTRY_SIZE, entry.as_slice());
        Ok(())
    }

    /// The first entry of directory block `block` whose USED flag is clear.
    pub fn find_free_dir_slot(&self, block: &[u8]) -> (r: Option<usize>)
        requires
            block@.len() == 512,
        ensures
            r matches Some(s) ==> is_first_unused(block@, s as int),
            r is None ==> all_used(block@),
    {
        let mut i: usize = 0;
        while i < DIR_ENTRIES_PER_BLOCK
            invariant
                block@.len() == 512,
                i <= 8,
                forall|j: int| 0 <= j < i ==> #[trigger] entry_used(block@, j),
            decreases 8 - i,
        {
            if !entry_is_used(block, i) {
                return Some(i);
            }
            i = i + 1;
        }
        None
    }

    /// Creates the root directory: marks inode 0 used, takes a data block,
    /// writes inode 0 as a directory with two links pointing at that block,
    /// and writes `.` and `..` (both inode 0) into entries 0 and 1 of it.
    pub fn init_root_directory(&mut self) -> (r: Result<(), FileSystemError>)
        requires
            old(self).wf(),
        ensures
            final(self).wf(),
            final(self).sb() == old(self).sb(),
            final(self).reliable() == old(self).reliable(),
            final(self).disk().len() == old(self).disk().len(),
            r is Ok ==> final(self).disk() == root_initialized(old(self).disk(), old(self).sb()),
            r matches Err(e) ==> e == FileSystemError::BlockError || e == FileSystemError::NoSpace,
            r == Err::<(), _>(FileSystemError::NoSpace) ==> has_block(old(self).disk(), 1) && has_block(old(self).disk(), 2) && all_set(
                block_at(root_marked(old(self).disk()), 2),
            ),
            old(self).reliable() && has_block(old(self).disk(), 3) && all_set(block_at(root_marked(old(self).disk()), 2))
                ==> r == Err::<(), _>(FileSystemError::NoSpace),
            old(self).reliable() && has_block(old(self).disk(), 3) && !all_set(block_at(root_marked(old(self).disk()), 2))
                && has_block(old(self).disk(), root_data_block(old(self).disk(), old(self).sb())) ==> r is Ok,
    {
        let ghost d0 = self.disk();
        let mut ibuf: Vec<u8> = vec![0u8; BLOCK_SIZE];
        if self.device.read_blocks(INODE_BITMAP_BLOCK, ibuf.as_mut_slice()).is_err() {
            return Err(FileSystemError::BlockError);
        }
        let mut bm = Bitmap::new(ibuf);
        if !bm.is_set(0) {
            let _ = bm.set(0);
        }
        let ibuf = bm.map;
        assert(ibuf@ == with_bit0(block_at(d0, 1)));
        if self.device.write_blocks(INODE_BITMAP_BLOCK, ibuf.as_slice()).is_err() {
            return Err(FileSystemError::BlockError);
        }
        let ghost d1 = self.disk();
        assert(d1 == root_marked(d0));
        let data_block = self.allocate_data_block()?;
        proof {
            lemma_first_clear_unique(block_at(d1, 2), data_block - self.superblock.data_block_start);
        }
        let root = fresh_inode(FileType::Directory, 2, data_block);
        self.write_inode(root, 0)?;
        let mut dir_block: Vec<u8> = vec![0u8; BLOCK_SIZE];
        assert(dir_block@ =~= zeros(512));
        let dot: Vec<u8> = vec![46u8];
        let dot_dot: Vec<u8> = vec![46u8, 46u8];
        assert(dot@ =~= seq![46u8]);
        assert(dot_dot@ =~= seq![46u8, 46u8]);
        self.write_dirent_into_block(&mut dir_block, 0, 0, dot.as_slice())?;
        self.write_dirent_into_block(&mut dir_block, 1, 0, dot_dot.as_slice())?;
        if self.device.write_blocks(data_block, dir_block.as_slice()).is_err() {
            return Err(FileSystemError::BlockError);
        }
        Ok(())
    }

    /// Names inode `inode` as `name` in the first unused entry of the root
    /// directory's data block. Fails with `NameTooLong` for names over 52
    /// bytes, `CorruptLayout` when the root has no data block, and `NoSpace`
    /// when every entry is in use; the device is then unchanged.
    pub fn add_root_dir_entry(&mut self, inode: u64, name: &str) -> (r: Result<(), FileSystemError>)
        requires
            old(self).wf(),
        ensures
            final(self).wf(),
            final(self).sb() == old(self).sb(),
            final(self).reliable() == old(self).reliable(),
            final(self).disk().len() == old(self).disk().len(),
            name.spec_bytes().len() > 52 ==> r == Err::<(), _>(FileSystemError::NameTooLong),
            r == Err::<(), _>(FileSystemError::NameTooLong) ==> name.spec_bytes().len() > 52 && final(self).disk() == old(self).disk(),
            r is Ok ==> {
                let d = old(self).disk();
                let db = root_dir_block(d);
                &&& name.spec_bytes().len() <= 52 && root_readable(d)
                &&& db != 0 && has_block(d, db) && !all_used(block_at(d, db))
                &&& final(self).disk() == with_block(d, db, write_range(block_at(d, db), first_unused(block_at(d, db)) * 64, dirent_bytes(inode, name.spec_bytes())))
            },
            r matches Err(e) ==> e == FileSystemError::NameTooLong || e == FileSystemError::CorruptLayout || e == FileSystemError::NoSpace || e == FileSystemError::BlockError,
            r == Err::<(), _>(FileSystemError::CorruptLayout) ==> name.spec_bytes().len() <= 52 && root_readable(old(self).disk())
                && root_dir_block(old(self).disk()) == 0 && final(self).disk() == old(self).disk(),
            r == Err::<(), _>(FileSystemError::NoSpace) ==> {
                let d = old(self).disk();
                let db = root_dir_block(d);
                &&& name.spec_bytes().len() <= 52 && root_readable(d)
                &&& db != 0 && has_block(d, db) && all_used(block_at(d, db))
                &&& final(self).disk() == d
            },
            r == Err::<(), _>(FileSystemError::BlockError) ==> !(old(self).reliable() && root_readable(old(self).disk())
                && (root_dir_block(old(self).disk()) == 0 || has_block(old(self).disk(), root_dir_block(old(self).disk())))),
    {
        let ghost d0 = self.disk();
        let name = name.as_bytes();
        if name.len() > DIR_NAME_MAX {
            return Err(FileSystemError::NameTooLong);
        }
        let root = self.read_inode(0)?;
        let block = root.direct_pointers[0];
        assert(block as int == root_dir_block(d0));
        if block == 0 {
            return Err(FileSystemError::CorruptLayout);
        }
        let mut dir_block: Vec<u8> = vec![0u8; BLOCK_SIZE];
        if self.device.read_blocks(block, dir_block.as_mut_slice()).is_err() {
            return Err(FileSystemError::BlockError);
        }
        let slot = match self.find_free_dir_slot(dir_block.as_slice()) {
            Some(s) => s,
            None => return Err(FileSystemError::NoSpace),
        };
        proof {
            lemma_first_unused_unique(dir_block@, slot as int);
        }
        self.write_dirent_into_block(&mut dir_block, slot, inode, name)?;
        if self.device.write_blocks(block, dir_block.as_slice()).is_err() {
            return Err(FileSystemError::BlockError);
        }
        Ok(())
    }

    /// Creates an empty file called `name` in the root directory and returns
    /// its inode index and the directory block. Fails with `NameTooLong` for
    /// an empty name or one over 52 bytes, `CorruptLayout` when inode 0 is not
    /// a directory or has no data block, `FileExists` when a used entry holds
    /// the name, and `NoSpace` when no entry is unused or no inode is free;
    /// the device is then unchanged. On a reliable device these are the only
    /// failures.
    fn create_file_in_root(&mut self, name: &str) -> (r: Result<(u64, u64), FileSystemError>)
        requires
            old(self).wf(),
        ensures
            final(self).wf(),
            final(self).sb() == old(self).sb(),
            final(self).reliable() == old(self).reliable(),
            final(self).disk().len() == old(self).disk().len(),
            !name_ok(name.spec_bytes()) ==> r == Err::<(u64, u64), _>(FileSystemError::NameTooLong),
            r == Err::<(u64, u64), _>(FileSystemError::NameTooLong) ==> !name_ok(name.spec_bytes())
                && final(self).disk() == old(self).disk(),
            r matches Ok((i, db)) ==> {
                let d = old(self).disk();
                &&& file_creatable(d, name.spec_bytes())
                &&& is_first_clear(block_at(d, 1), i as int) && i as int == first_clear(block_at(d, 1))
                &&& db as int == root_dir_block(d)
                &&& final(self).disk() == created(d, name.spec_bytes(), db as int)
            },
            r matches Err(e) ==> e == FileSystemError::NameTooLong || e == FileSystemError::CorruptLayout
                || e == FileSystemError::FileExists || e == FileSystemError::NoSpace
                || e == FileSystemError::BlockError,
            r == Err::<(u64, u64), _>(FileSystemError::CorruptLayout) ==> {
                let d = old(self).disk();
                &&& name_ok(name.spec_bytes()) && root_readable(d)
                &&& !root_is_dir(d) || root_dir_block(d) == 0
                &&& final(self).disk() == d
            },
            r == Err::<(u64, u64), _>(FileSystemError::FileExists) ==> {
                let d = old(self).disk();
                &&& name_ok(name.spec_bytes()) && root_dir_ok(d)
                &&& name_taken(root_dir(d), name.spec_bytes())
                &&& final(self).disk() == d
            },
            r == Err::<(u64, u64), _>(FileSystemError::NoSpace) ==> {
                let d = old(self).disk();
                &&& name_ok(name.spec_bytes()) && root_dir_ok(d)
                &&& !name_taken(root_dir(d), name.spec_bytes())
                &&& all_used(root_dir(d)) || (has_block(d, 1) && all_set(block_at(d, 1)))
                &&& final(self).disk() == d
            },
            old(self).reliable() && name_ok(name.spec_bytes()) && root_readable(old(self).disk())
                && (!root_is_dir(old(self).disk()) || root_dir_block(old(self).disk()) == 0)
                ==> r == Err::<(u64, u64), _>(FileSystemError::CorruptLayout),
            old(self).reliable() && name_ok(name.spec_bytes()) && root_dir_ok(old(self).disk())
                && name_taken(root_dir(old(self).disk()), name.spec_bytes())
                ==> r == Err::<(u64, u64), _>(FileSystemError::FileExists),
            old(self).reliable() && name_ok(name.spec_bytes()) && root_dir_ok(old(self).disk())
                && !name_taken(root_dir(old(self).disk()), name.spec_bytes())
                && (all_used(root_dir(old(self).disk())) || (has_block(old(self).disk(), 1) && all_set(block_at(old(self).disk(), 1))))
                ==> r == Err::<(u64, u64), _>(FileSystemError::NoSpace),
            old(self).reliable() && file_creatable(old(self).disk(), name.spec_bytes()) ==> r is Ok,
    {
        let ghost d0 = self.disk();
        let name_bytes = name.as_bytes();
        if name_bytes.len() > DIR_NAME_MAX || name_bytes.len() == 0 {
            return Err(FileSystemError::NameTooLong);
        }
        let root_dir_inode = self.read_inode(0)?;
        if root_dir_inode.mode != FileType::Directory {
            return Err(FileSystemError::CorruptLayout);
        }
        let dir_block = root_dir_inode.direct_pointers[0];
        assert(dir_block as int == root_dir_block(d0));
        if dir_block == 0 {
            return Err(FileSystemError::CorruptLayout);
        }
        let mut dir_block_buf: Vec<u8> = vec![0u8; BLOCK_SIZE];
        if self.device.read_blocks(dir_block, dir_block_buf.as_mut_slice()).is_err() {
            return Err(FileSystemError::BlockError);
        }
        let ghost dir = dir_block_buf@;
        let mut empty_slot_index: Option<usize> = None;
        let mut i: usize = 0;
        while i < DIR_ENTRIES_PER_BLOCK
            invariant
                dir_block_buf@ == dir,
                dir.len() == 512,
                name_bytes@.len() <= 52,
                name_ok(name_bytes@),
                name_bytes@ == name.spec_bytes(),
                has_block(d0, 3),
                root_is_dir(d0),
                dir_block as int == root_dir_block(d0),
                dir_block != 0,
                has_block(d0, dir_block as int),
                dir == block_at(d0, dir_block as int),
                d0 == old(self).disk(),
                self.disk() == d0,
                self.sb() == old(self).sb(),
                self.reliable() == old(self).reliable(),
                self.wf(),
                i <= 8,
                forall|j: int| 0 <= j < i ==> !(#[trigger] entry_used(dir, j) && entry_name_is(dir, j, name_bytes@)),
                empty_slot_index matches Some(s) ==> s < i && is_first_unused(dir, s as int),
                empty_slot_index is None ==> forall|j: int| 0 <= j < i ==> #[trigger] entry_used(dir, j),
            decreases 8 - i,
        {
            if entry_is_used(dir_block_buf.as_slice(), i) {
                if entry_has_name(dir_block_buf.as_slice(), i, name_bytes) {
                    assert(entry_used(dir, i as int) && entry_name_is(dir, i as int, name_bytes@));
                    return Err(FileSystemError::FileExists);
                }
            } else if empty_slot_index.is_none() {
                empty_slot_index = Some(i);
            }
            i = i + 1;
        }
        let slot_index = match empty_slot_index {
            Some(s) => s,
            None => return Err(FileSystemError::NoSpace),
        };
        proof {
            lemma_first_unused_unique(dir, slot_index as int);
        }
        let inode_index = self.allocate_inode()?;
        proof {
            lemma_first_clear_unique(block_at(d0, 1), inode_index as int);
        }
        let new_inode = fresh_inode(FileType::File, 1, 0);
        self.write_inode(new_inode, inode_index)?;
        self.write_dirent_into_block(&mut dir_block_buf, slot_index, inode_index, name_bytes)?;
        if self.device.write_blocks(dir_block, dir_block_buf.as_slice()).is_err() {
            return Err(FileSystemError::BlockError);
        }
        Ok((inode_index, dir_block))
    }

    /// Creates an empty file called `name` in the root directory and returns
    /// a handle holding its inode index. Name errors come back as
    /// `InvalidName`, a name already present as `FileExists`, lack of room as
    /// `NoSpace`, a damaged root as `Corrupt`, and device failures as
    /// `CreationFailed`; on a reliable device the last does not occur where
    /// the conditions below decide.
    pub fn create_file(&mut self, name: &str) -> (r: Result<FileHandler, FileError>)
        requires
            old(self).wf(),
        ensures
            final(self).wf(),
            final(self).sb() == old(self).sb(),
            final(self).reliable() == old(self).reliable(),
            final(self).disk().len() == old(self).disk().len(),
            !name_ok(name.spec_bytes()) ==> r == Err::<FileHandler, _>(FileError::InvalidName),
            r == Err::<FileHandler, _>(FileError::InvalidName) ==> !name_ok(name.spec_bytes())
                && final(self).disk() == old(self).disk(),
            r matches Ok(h) ==> {
                let d = old(self).disk();
                &&& file_creatable(d, name.spec_bytes())
                &&& h.0 as int == first_clear(block_at(d, 1))
                &&& final(self).disk() == created(d, name.spec_bytes(), root_dir_block(d))
            },
            r matches Err(e) ==> e == FileError::InvalidName || e == FileError::Corrupt
                || e == FileError::FileExists || e == FileError::NoSpace
                || e == FileError::CreationFailed,
            r == Err::<FileHandler, _>(FileError::Corrupt) ==> {
                let d = old(self).disk();
                &&& name_ok(name.spec_bytes()) && root_readable(d)
                &&& !root_is_dir(d) || root_dir_block(d) == 0
                &&& final(self).disk() == d
            },
            r == Err::<FileHandler, _>(FileError::FileExists) ==> {
                let d = old(self).disk();
                &&& name_ok(name.spec_bytes()) && root_dir_ok(d)
                &&& name_taken(root_dir(d), name.spec_bytes())
                &&& final(self).disk() == d
            },
            r == Err::<FileHandler, _>(FileError::NoSpace) ==> {
                let d = old(self).disk();
                &&& name_ok(name.spec_bytes()) && root_dir_ok(d)
                &&& !name_taken(root_dir(d), name.spec_bytes())
                &&& all_used(root_dir(d)) || (has_block(d, 1) && all_set(block_at(d, 1)))
                &&& final(self).disk() == d
            },
            old(self).reliable() && name_ok(name.spec_bytes()) && root_readable(old(self).disk())
                && (!root_is_dir(old(self).disk()) || root_dir_block(old(self).disk()) == 0)
                ==> r == Err::<FileHandler, _>(FileError::Corrupt),
            old(self).reliable() && name_ok(name.spec_bytes()) && root_dir_ok(old(self).disk())
                && name_taken(root_dir(old(self).disk()), name.spec_bytes())
                ==> r == Err::<FileHandler, _>(FileError::FileExists),
            old(self).reliable() && name_ok(name.spec_bytes()) && root_dir_ok(old(self).disk())
                && !name_taken(root_dir(old(self).disk()), name.spec_bytes())
                && (all_used(root_dir(old(self).disk())) || (has_block(old(self).disk(), 1) && all_set(block_at(old(self).disk(), 1))))
                ==> r == Err::<FileHandler, _>(FileError::NoSpace),
            old(self).reliable() && file_creatable(old(self).disk(), name.spec_bytes()) ==> r is Ok,
    {
        match self.create_file_in_root(name) {
            Ok((inode_index, _dir_block)) => Ok(FileHandler(inode_index as usize)),
            Err(FileSystemError::NameTooLong) => Err(FileError::InvalidName),
            Err(FileSystemError::NoSpace) => Err(FileError::NoSpace),
            Err(FileSystemError::CorruptLayout) => Err(FileError::Corrupt),
            Err(FileSystemError::FileExists) => Err(FileError::FileExists),
            Err(_) => Err(FileError::CreationFailed),
        }
    }
}

/// Holds the inode index of a file.
#[derive(Debug, Clone, Copy, PartialEq, Eq, Structural)]
pub struct FileHandler(pub usize);

/// Failures of the user-facing filesystem operations.
#[derive(Debug, Clone, Copy, PartialEq, Eq, Structural)]
pub enum FileError {
    BlockReadError,
    DirectoryFull,
    BlockWriteError,
    FileNotFound,
    FileExists,
    CreationFailed,
    NoSpace,
    InvalidHandle,
    InvalidName,
    Corrupt,
}

/// The operations a filesystem offers its users.
pub trait FileSystem {
    /// Creates an empty file called `name`.
    fn create_file(&mut self, name: &str) -> Result<FileHandler, FileError>
        requires
            old(self).fs_ready(),
    ;

    /// The filesystem is in a state its operations accept.
    spec fn fs_ready(&self) -> bool;
}

impl<D: BlockDevice> FileSystem for SFS<D> {
    open spec fn fs_ready(&self) -> bool {
        self.wf()
    }

    fn create_file(&mut self, name: &str) -> Result<FileHandler, FileError> {
        SFS::<D>::create_file(self, name)
    }
}

/// Whether entry `i` of `block` has its USED flag set.
fn entry_is_used(block: &[u8], i: usize) -> (r: bool)
    requires
        i < 8,
        block@.len() == 512,
    ensures
        r == entry_used(block@, i as int),
{
    proof {
        lemma_byte_base_values();
    }
    let flags = read_le(block, i * DIR_ENTRY_SIZE + 10, 2);
    assert((flags & 1) != 0 <==> flags % 2 == 1) by (bit_vector);
    (flags & (DIRENT_USED as u64)) != 0

}

/// Whether entry `i` of `block` holds the name `name`.
fn entry_has_name(block: &[u8], i: usize, name: &[u8]) -> (r: bool)
    requires
        i < 8,
        block@.len() == 512,
        name@.len() <= 52,
    ensures
        r == entry_name_is(block@, i as int, name@),
{
    proof {
        lemma_byte_base_values();
    }
    let base = i * DIR_ENTRY_SIZE;
    let name_len = read_le(block, base + 8, 2);
    if name_len != name.len() as u64 {
        return false;
    }
    let n = name.len();
    let mut k: usize = 0;
    while k < n
        invariant
            n == name@.len(),
            n <= 52,
            block@.len() == 512,
            base == i * 64,
            i < 8,
            k <= n,
            forall|j: int| 0 <= j < k ==> block@[base + 12 + j] == name@[j],
        decreases n - k,
    {
        if block[base + 12 + k] != name[k] {
            assert(block@.subrange(base + 12, base + 12 + n)[k as int] != name@[k as int]);
            return false;
        }
        k = k + 1;
    }
    assert(block@.subrange(base + 12, base + 12 + n) =~= name@);
    true
}

/// The first `n` elements of `s`.
fn slice_prefix(s: &[u8], n: usize) -> (r: &[u8])
    requires
        n <= s@.len(),
    ensures
        r@ == s@.subrange(0, n as int),
{
    vstd::slice::slice_subrange(s, 0, n)
}

} // verus!
