//! On-disk layout: block addresses, the superblock and inode records and their
//! byte-exact little-endian forms, and the allocation bitmap.
use vstd::prelude::*;
use crate::fs::codec::{le_bytes, le_value, push_le, read_le, lemma_le_round_trip, lemma_le_bytes_len, lemma_byte_base_values};

verus! {

pub const BLOCK_SIZE: usize = 512;
pub const INODE_SIZE: usize = 128;
pub const INODES_PER_BLOCK: usize = 4;

/// Size in bytes of the encoded superblock.
pub const SUPERBLOCK_SIZE: usize = 64;

pub const SUPERBLOCK_BLOCK: u64 = 0;
pub const INODE_BITMAP_BLOCK: u64 = 1;
pub const DATA_BITMAP_BLOCK: u64 = 2;
pub const INODE_TABLE_START_BLOCK: u64 = 3;

pub const MAGIC_NUMBER: u32 = 0xDEAD_BEEF;

/// Byte offset of the magic number inside the encoded superblock.
pub const MAGIC_OFFSET: usize = 56;

/// In-memory form of the filesystem's root metadata record (block 0).
#[derive(Debug, Clone, Copy, PartialEq, Eq, Structural)]
pub struct SuperBlock {
    pub total_blocks: u64,
    pub inode_bitmap_block: u64,
    pub data_bitmap_block: u64,
    pub inode_table_start_block: u64,
    pub inode_count: u64,
    pub data_block_start: u64,
    pub data_block_count: u64,
    pub magic_number: u32,
}

/// The 64 bytes of a superblock on disk: seven 64-bit fields, the magic
/// number and a zero pad word, all little-endian.
pub open spec fn superblock_bytes(sb: SuperBlock) -> Seq<u8> {
    le_bytes(sb.total_blocks as nat, 8) + le_bytes(sb.inode_bitmap_block as nat, 8) + le_bytes(
        sb.data_bitmap_block as nat,
        8,
    ) + le_bytes(sb.inode_table_start_block as nat, 8) + le_bytes(sb.inode_count as nat, 8)
        + le_bytes(sb.data_block_start as nat, 8) + le_bytes(sb.data_block_count as nat, 8)
        + le_bytes(sb.magic_number as nat, 4) + le_bytes(0, 4)
}

/// The superblock whose fields are read from the first 60 bytes of `b`.
pub open spec fn superblock_from_bytes(b: Seq<u8>) -> SuperBlock {
    SuperBlock {
        total_blocks: le_value(b.subrange(0, 8)) as u64,
        inode_bitmap_block: le_value(b.subrange(8, 16)) as u64,
        data_bitmap_block: le_value(b.subrange(16, 24)) as u64,
        inode_table_start_block: le_value(b.subrange(24, 32)) as u64,
        inode_count: le_value(b.subrange(32, 40)) as u64,
        data_block_start: le_value(b.subrange(40, 48)) as u64,
        data_block_count: le_value(b.subrange(48, 56)) as u64,
        magic_number: le_value(b.subrange(56, 60)) as u32,
    }
}

proof fn lemma_superblock_pieces(sb: SuperBlock)
    ensures
        superblock_bytes(sb).len() == 64,
        superblock_bytes(sb).subrange(0, 8) == le_bytes(sb.total_blocks as nat, 8),
        superblock_bytes(sb).subrange(8, 16) == le_bytes(sb.inode_bitmap_block as nat, 8),
        superblock_bytes(sb).subrange(16, 24) == le_bytes(sb.data_bitmap_block as nat, 8),
        superblock_bytes(sb).subrange(24, 32) == le_bytes(sb.inode_table_start_block as nat, 8),
        superblock_bytes(sb).subrange(32, 40) == le_bytes(sb.inode_count as nat, 8),
        superblock_bytes(sb).subrange(40, 48) == le_bytes(sb.data_block_start as nat, 8),
        superblock_bytes(sb).subrange(48, 56) == le_bytes(sb.data_block_count as nat, 8),
        superblock_bytes(sb).subrange(56, 60) == le_bytes(sb.magic_number as nat, 4),
        superblock_bytes(sb).subrange(60, 64) == le_bytes(0, 4),
{
    lemma_le_bytes_len(sb.total_blocks as nat, 8);
    lemma_le_bytes_len(sb.inode_bitmap_block as nat, 8);
    lemma_le_bytes_len(sb.data_bitmap_block as nat, 8);
    lemma_le_bytes_len(sb.inode_table_start_block as nat, 8);
    lemma_le_bytes_len(sb.inode_count as nat, 8);
    lemma_le_bytes_len(sb.data_block_start as nat, 8);
    lemma_le_bytes_len(sb.data_block_count as nat, 8);
    lemma_le_bytes_len(sb.magic_number as nat, 4);
    lemma_le_bytes_len(0, 4);
    let b = superblock_bytes(sb);
    assert(b.subrange(0, 8) =~= le_bytes(sb.total_blocks as nat, 8));
    assert(b.subrange(8, 16) =~= le_bytes(sb.inode_bitmap_block as nat, 8));
    assert(b.subrange(16, 24) =~= le_bytes(sb.data_bitmap_block as nat, 8));
    assert(b.subrange(24, 32) =~= le_bytes(sb.inode_table_start_block as nat, 8));
    assert(b.subrange(32, 40) =~= le_bytes(sb.inode_count as nat, 8));
    assert(b.subrange(40, 48) =~= le_bytes(sb.data_block_start as nat, 8));
    assert(b.subrange(48, 56) =~= le_bytes(sb.data_block_count as nat, 8));
    assert(b.subrange(56, 60) =~= le_bytes(sb.magic_number as nat, 4));
    assert(b.subrange(60, 64) =~= le_bytes(0, 4));
}

/// Decoding the encoded superblock gives it back; the encoding is 64 bytes
/// long and holds the little-endian magic number at byte offset 56.
pub proof fn superblock_round_trip(sb: SuperBlock)
    ensures
        superblock_from_bytes(superblock_bytes(sb)) == sb,
        superblock_bytes(sb).len() == SUPERBLOCK_SIZE,
        superblock_bytes(sb).subrange(MAGIC_OFFSET as int, MAGIC_OFFSET + 4) == le_bytes(
            sb.magic_number as nat,
            4,
        ),
{
    lemma_superblock_pieces(sb);
    lemma_byte_base_values();
    lemma_le_round_trip(sb.total_blocks as nat, 8);
    lemma_le_round_trip(sb.inode_bitmap_block as nat, 8);
    lemma_le_round_trip(sb.data_bitmap_block as nat, 8);
    lemma_le_round_trip(sb.inode_table_start_block as nat, 8);
    lemma_le_round_trip(sb.inode_count as nat, 8);
    lemma_le_round_trip(sb.data_block_start as nat, 8);
    lemma_le_round_trip(sb.data_block_count as nat, 8);
    lemma_le_round_trip(sb.magic_number as nat, 4);
}

/// Byte-exact on-disk form of a superblock.
pub struct DiskSuperBlock {
    bytes: Vec<u8>,
}

impl DiskSuperBlock {
    pub closed spec fn view(&self) -> Seq<u8> {
        self.bytes@
    }

    #[verifier::type_invariant]
    spec fn inv(&self) -> bool {
        self.bytes@.len() == SUPERBLOCK_SIZE
    }

    /// Encodes `sb`.
    pub fn new(sb: &SuperBlock) -> (r: DiskSuperBlock)
        ensures
            r.view() == superblock_bytes(*sb),
    {
        let mut bytes: Vec<u8> = Vec::new();
        push_le(&mut bytes, sb.total_blocks, 8);
        push_le(&mut bytes, sb.inode_bitmap_block, 8);
        push_le(&mut bytes, sb.data_bitmap_block, 8);
        push_le(&mut bytes, sb.inode_table_start_block, 8);
        push_le(&mut bytes, sb.inode_count, 8);
        push_le(&mut bytes, sb.data_block_start, 8);
        push_le(&mut bytes, sb.data_block_count, 8);
        push_le(&mut bytes, sb.magic_number as u64, 4);
        push_le(&mut bytes, 0, 4);
        proof {
            lemma_superblock_pieces(*sb);
            assert(bytes@ =~= superblock_bytes(*sb));
        }
        DiskSuperBlock { bytes }
    }

    /// Takes a superblock record from exactly 64 bytes; other lengths are refused.
    pub fn read_from(src: &[u8]) -> (r: Option<DiskSuperBlock>)
        ensures
            r is Some <==> src@.len() == SUPERBLOCK_SIZE,
            r matches Some(d) ==> d.view() == src@,
    {
        if src.len() != SUPERBLOCK_SIZE {
            return None;
        }
        let mut bytes: Vec<u8> = Vec::new();
        let mut i: usize = 0;
        while i < src.len()
            invariant
                i <= src@.len(),
                bytes@ == src@.subrange(0, i as int),
            decreases src@.len() - i,
        {
            bytes.push(src[i]);
            i = i + 1;
            assert(bytes@ =~= src@.subrange(0, i as int));
        }
        assert(bytes@ =~= src@);
        Some(DiskSuperBlock { bytes })
    }

    pub fn as_bytes(&self) -> (r: &[u8])
        ensures
            r@ == self.view(),
            r@.len() == SUPERBLOCK_SIZE,
    {
        proof {
            use_type_invariant(self);
        }
        self.bytes.as_slice()
    }

    /// Decodes the record.
    pub fn to_superblock(&self) -> (r: SuperBlock)
        ensures
            r == superblock_from_bytes(self.view()),
    {
        proof {
            use_type_invariant(self);
            lemma_byte_base_values();
        }
        let b = self.bytes.as_slice();
        let total_blocks = read_le(b, 0, 8);
        let inode_bitmap_block = read_le(b, 8, 8);
        let data_bitmap_block = read_le(b, 16, 8);
        let inode_table_start_block = read_le(b, 24, 8);
        let inode_count = read_le(b, 32, 8);
        let data_block_start = read_le(b, 40, 8);
        let data_block_count = read_le(b, 48, 8);
        let magic = read_le(b, 56, 4);
        proof {
            crate::fs::codec::lemma_le_value_bound(b@.subrange(56, 60));
        }
        SuperBlock {
            total_blocks,
            inode_bitmap_block,
            data_bitmap_block,
            inode_table_start_block,
            inode_count,
            data_block_start,
            data_block_count,
            magic_number: magic as u32,
        }
    }
}


/// Kind of object an inode describes; stored on disk as a 16-bit code.
#[derive(Debug, Clone, Copy, PartialEq, Eq, Structural)]
pub enum FileType {
    Unknown,
    File,
    Directory,
}

pub open spec fn file_type_code(t: FileType) -> u16 {
    match t {
        FileType::Unknown => 0,
        FileType::File => 1,
        FileType::Directory => 2,
    }
}

impl FileType {
    /// The on-disk code: 0 = Unknown, 1 = File, 2 = Directory.
    pub fn as_u16(self) -> (r: u16)
        ensures
            r == file_type_code(self),
    {
        match self {
            FileType::Unknown => 0,
            FileType::File => 1,
            FileType::Directory => 2,
        }
    }

    /// The file type with on-disk code `v`; `None` for any other code.
    pub fn from_u16(v: u16) -> (r: Option<FileType>)
        ensures
            r is Some <==> v <= 2,
            r matches Some(t) ==> file_type_code(t) == v,
    {
        match v {
            0 => Some(FileType::Unknown),
            1 => Some(FileType::File),
            2 => Some(FileType::Directory),
            _ => None,
        }
    }
}

pub const DIRECT_POINTERS: usize = 10;

/// In-memory form of a file's metadata record.
#[derive(Debug, Clone, Copy)]
pub struct Inode {
    pub mode: FileType,
    pub user_id: u16,
    pub group_id: u16,
    pub link_count: u16,
    pub size_in_bytes: u64,
    pub last_access_time: u64,
    pub last_modification_time: u64,
    pub creation_time: u64,
    pub direct_pointers: [u64; 10],
    pub indirect_pointer: u64,
}

/// Little-endian bytes of a sequence of 64-bit words, one after another.
pub open spec fn words_le(s: Seq<u64>) -> Seq<u8>
    decreases s.len(),
{
    if s.len() == 0 {
        Seq::empty()
    } else {
        words_le(s.drop_last()) + le_bytes(s.last() as nat, 8)
    }
}

/// The 128 bytes of an inode on disk: the 64-bit fields first (sizes, times,
/// ten direct pointers, the indirect pointer), then the four 16-bit fields.
pub open spec fn inode_bytes(i: Inode) -> Seq<u8> {
    le_bytes(i.size_in_bytes as nat, 8) + le_bytes(i.last_access_time as nat, 8) + le_bytes(
        i.last_modification_time as nat,
        8,
    ) + le_bytes(i.creation_time as nat, 8) + words_le(i.direct_pointers@) + le_bytes(
        i.indirect_pointer as nat,
        8,
    ) + le_bytes(file_type_code(i.mode) as nat, 2) + le_bytes(i.user_id as nat, 2) + le_bytes(
        i.group_id as nat,
        2,
    ) + le_bytes(i.link_count as nat, 2)
}

/// Byte offset of the mode field inside an encoded inode.
pub const INODE_MODE_OFFSET: usize = 120;

/// Byte offset of the first direct pointer inside an encoded inode.
pub const INODE_DIRECT_OFFSET: usize = 32;

/// The 16-bit mode code held in an encoded inode.
pub open spec fn inode_mode_code(b: Seq<u8>) -> nat {
    le_value(b.subrange(120, 122))
}

/// The `k`-th direct pointer held in an encoded inode.
pub open spec fn inode_direct_at(b: Seq<u8>, k: int) -> nat {
    le_value(b.subrange(32 + 8 * k, 40 + 8 * k))
}

/// `b` holds exactly the fields of `i`.
pub open spec fn inode_decodes_to(b: Seq<u8>, i: Inode) -> bool {
    &&& b.len() == INODE_SIZE
    &&& i.size_in_bytes as nat == le_value(b.subrange(0, 8))
    &&& i.last_access_time as nat == le_value(b.subrange(8, 16))
    &&& i.last_modification_time as nat == le_value(b.subrange(16, 24))
    &&& i.creation_time as nat == le_value(b.subrange(24, 32))
    &&& forall|k: int| 0 <= k < 10 ==> #[trigger] i.direct_pointers@[k] as nat == inode_direct_at(b, k)
    &&& i.indirect_pointer as nat == le_value(b.subrange(112, 120))
    &&& file_type_code(i.mode) as nat == inode_mode_code(b)
    &&& i.user_id as nat == le_value(b.subrange(122, 124))
    &&& i.group_id as nat == le_value(b.subrange(124, 126))
    &&& i.link_count as nat == le_value(b.subrange(126, 128))
}

proof fn lemma_words_le(s: Seq<u64>)
    ensures
        words_le(s).len() == 8 * s.len(),
        forall|k: int|
            0 <= k < s.len() ==> #[trigger] words_le(s).subrange(8 * k, 8 * k + 8) == le_bytes(
                s[k] as nat,
                8,
            ),
    decreases s.len(),
{
    if s.len() > 0 {
        let p = s.drop_last();
        lemma_words_le(p);
        lemma_le_bytes_len(s.last() as nat, 8);
        assert forall|k: int| 0 <= k < s.len() implies #[trigger] words_le(s).subrange(
            8 * k,
            8 * k + 8,
        ) == le_bytes(s[k] as nat, 8) by {
            if k < p.len() {
                assert(words_le(s).subrange(8 * k, 8 * k + 8) =~= words_le(p).subrange(
                    8 * k,
                    8 * k + 8,
                ));
            } else {
                assert(words_le(s).subrange(8 * k, 8 * k + 8) =~= le_bytes(s.last() as nat, 8));
            }
        }
    }
}

proof fn lemma_inode_pieces(i: Inode)
    ensures
        inode_bytes(i).len() == INODE_SIZE,
        inode_bytes(i).subrange(0, 8) == le_bytes(i.size_in_bytes as nat, 8),
        inode_bytes(i).subrange(8, 16) == le_bytes(i.last_access_time as nat, 8),
        inode_bytes(i).subrange(16, 24) == le_bytes(i.last_modification_time as nat, 8),
        inode_bytes(i).subrange(24, 32) == le_bytes(i.creation_time as nat, 8),
        inode_bytes(i).subrange(32, 112) == words_le(i.direct_pointers@),
        forall|k: int|
            0 <= k < 10 ==> #[trigger] inode_bytes(i).subrange(32 + 8 * k, 40 + 8 * k) == le_bytes(
                i.direct_pointers@[k] as nat,
                8,
            ),
        inode_bytes(i).subrange(112, 120) == le_bytes(i.indirect_pointer as nat, 8),
        inode_bytes(i).subrange(120, 122) == le_bytes(file_type_code(i.mode) as nat, 2),
        inode_bytes(i).subrange(122, 124) == le_bytes(i.user_id as nat, 2),
        inode_bytes(i).subrange(124, 126) == le_bytes(i.group_id as nat, 2),
        inode_bytes(i).subrange(126, 128) == le_bytes(i.link_count as nat, 2),
{
    let d = i.direct_pointers@;
    lemma_words_le(d);
    lemma_le_bytes_len(i.size_in_bytes as nat, 8);
    lemma_le_bytes_len(i.last_access_time as nat, 8);
    lemma_le_bytes_len(i.last_modification_time as nat, 8);
    lemma_le_bytes_len(i.creation_time as nat, 8);
    lemma_le_bytes_len(i.indirect_pointer as nat, 8);
    lemma_le_bytes_len(file_type_code(i.mode) as nat, 2);
    lemma_le_bytes_len(i.user_id as nat, 2);
    lemma_le_bytes_len(i.group_id as nat, 2);
    lemma_le_bytes_len(i.link_count as nat, 2);
    let b = inode_bytes(i);
    assert(b.subrange(0, 8) =~= le_bytes(i.size_in_bytes as nat, 8));
    assert(b.subrange(8, 16) =~= le_bytes(i.last_access_time as nat, 8));
    assert(b.subrange(16, 24) =~= le_bytes(i.last_modification_time as nat, 8));
    assert(b.subrange(24, 32) =~= le_bytes(i.creation_time as nat, 8));
    assert(b.subrange(32, 112) =~= words_le(d));
    assert forall|k: int| 0 <= k < 10 implies #[trigger] b.subrange(32 + 8 * k, 40 + 8 * k)
        == le_bytes(d[k] as nat, 8) by {
        assert(b.subrange(32 + 8 * k, 40 + 8 * k) =~= words_le(d).subrange(8 * k, 8 * k + 8));
    }
    assert(b.subrange(112, 120) =~= le_bytes(i.indirect_pointer as nat, 8));
    assert(b.subrange(120, 122) =~= le_bytes(file_type_code(i.mode) as nat, 2));
    assert(b.subrange(122, 124) =~= le_bytes(i.user_id as nat, 2));
    assert(b.subrange(124, 126) =~= le_bytes(i.group_id as nat, 2));
    assert(b.subrange(126, 128) =~= le_bytes(i.link_count as nat, 2));
}

/// Decoding the encoded inode gives it back and nothing else; the encoding is
/// 128 bytes long.
pub proof fn inode_round_trip(i: Inode, j: Inode)
    ensures
        inode_bytes(i).len() == INODE_SIZE,
        inode_decodes_to(inode_bytes(i), i),
        inode_decodes_to(inode_bytes(i), j) ==> j == i,
{
    lemma_inode_pieces(i);
    lemma_byte_base_values();
    lemma_le_round_trip(i.size_in_bytes as nat, 8);
    lemma_le_round_trip(i.last_access_time as nat, 8);
    lemma_le_round_trip(i.last_modification_time as nat, 8);
    lemma_le_round_trip(i.creation_time as nat, 8);
    lemma_le_round_trip(i.indirect_pointer as nat, 8);
    lemma_le_round_trip(file_type_code(i.mode) as nat, 2);
    lemma_le_round_trip(i.user_id as nat, 2);
    lemma_le_round_trip(i.group_id as nat, 2);
    lemma_le_round_trip(i.link_count as nat, 2);
    assert forall|k: int| 0 <= k < 10 implies #[trigger] i.direct_pointers@[k] as nat
        == inode_direct_at(inode_bytes(i), k) by {
        lemma_le_round_trip(i.direct_pointers@[k] as nat, 8);
    }
    if inode_decodes_to(inode_bytes(i), j) {
        assert(j.mode == i.mode);
        assert forall|k: int| 0 <= k < 10 implies j.direct_pointers[k] == i.direct_pointers[k] by {
            assert(j.direct_pointers@[k] as nat == inode_direct_at(inode_bytes(i), k));
            assert(i.direct_pointers@[k] as nat == inode_direct_at(inode_bytes(i), k));
        }
        assert(j.direct_pointers =~= i.direct_pointers);
    }
}

/// Byte-exact on-disk form of an inode.
pub struct DiskInode {
    bytes: Vec<u8>,
}

impl DiskInode {
    pub closed spec fn view(&self) -> Seq<u8> {
        self.bytes@
    }

    #[verifier::type_invariant]
    spec fn inv(&self) -> bool {
        self.bytes@.len() == INODE_SIZE
    }

    /// Encodes `inode`.
    pub fn new(inode: &Inode) -> (r: DiskInode)
        ensures
            r.view() == inode_bytes(*inode),
    {
        let mut bytes: Vec<u8> = Vec::new();
        push_le(&mut bytes, inode.size_in_bytes, 8);
        push_le(&mut bytes, inode.last_access_time, 8);
        push_le(&mut bytes, inode.last_modification_time, 8);
        push_le(&mut bytes, inode.creation_time, 8);
        let ghost head = bytes@;
        let mut k: usize = 0;
        while k < DIRECT_POINTERS
            invariant
                k <= 10,
                bytes@ == head + words_le(inode.direct_pointers@.take(k as int)),
            decreases 10 - k,
        {
            let ghost before = inode.direct_pointers@.take(k as int);
            push_le(&mut bytes, inode.direct_pointers[k], 8);
            proof {
                let after = inode.direct_pointers@.take(k + 1);
                assert(after.drop_last() =~= before);
                assert(bytes@ =~= head + words_le(after));
            }
            k = k + 1;
        }
        assert(inode.direct_pointers@.take(10) =~= inode.direct_pointers@);
        push_le(&mut bytes, inode.indirect_pointer, 8);
        push_le(&mut bytes, inode.mode.as_u16() as u64, 2);
        push_le(&mut bytes, inode.user_id as u64, 2);
        push_le(&mut bytes, inode.group_id as u64, 2);
        push_le(&mut bytes, inode.link_count as u64, 2);
        proof {
            lemma_inode_pieces(*inode);
            assert(bytes@ =~= inode_bytes(*inode));
        }
        DiskInode { bytes }
    }

    /// Takes an inode record from exactly 128 bytes; other lengths are refused.
    pub fn read_from(src: &[u8]) -> (r: Option<DiskInode>)
        ensures
            r is Some <==> src@.len() == INODE_SIZE,
            r matches Some(d) ==> d.view() == src@,
    {
        if src.len() != INODE_SIZE {
            return None;
        }
        let mut bytes: Vec<u8> = Vec::new();
        let mut i: usize = 0;
        while i < src.len()
            invariant
                i <= src@.len(),
                bytes@ == src@.subrange(0, i as int),
            decreases src@.len() - i,
        {
            bytes.push(src[i]);
            i = i + 1;
            assert(bytes@ =~= src@.subrange(0, i as int));
        }
        assert(bytes@ =~= src@);
        Some(DiskInode { bytes })
    }

    pub fn as_bytes(&self) -> (r: &[u8])
        ensures
            r@ == self.view(),
            r@.len() == INODE_SIZE,
    {
        proof {
            use_type_invariant(self);
        }
        self.bytes.as_slice()
    }

    /// Decodes the record; `None` when the mode code names no file type.
    pub fn to_inode(&self) -> (r: Option<Inode>)
        ensures
            r is Some <==> inode_mode_code(self.view()) <= 2,
            r matches Some(i) ==> inode_decodes_to(self.view(), i),
    {
        proof {
            use_type_invariant(self);
            lemma_byte_base_values();
        }
        let b = self.bytes.as_slice();
        let mode_code = read_le(b, INODE_MODE_OFFSET, 2);
        proof {
            crate::fs::codec::lemma_le_value_bound(b@.subrange(120, 122));
            crate::fs::codec::lemma_le_value_bound(b@.subrange(122, 124));
            crate::fs::codec::lemma_le_value_bound(b@.subrange(124, 126));
            crate::fs::codec::lemma_le_value_bound(b@.subrange(126, 128));
        }
        let mode = match FileType::from_u16(mode_code as u16) {
            Some(t) => t,
            None => return None,
        };
        let mut direct_pointers = [0u64; 10];
        let mut k: usize = 0;
        while k < DIRECT_POINTERS
            invariant
                k <= 10,
                b@ == self.view(),
                b@.len() == INODE_SIZE,
                forall|j: int| 0 <= j < k ==> #[trigger] direct_pointers@[j] as nat == inode_direct_at(b@, j),
            decreases 10 - k,
        {
            let v = read_le(b, INODE_DIRECT_OFFSET + 8 * k, 8);
            direct_pointers[k] = v;
            k = k + 1;
        }
        let inode = Inode {
            mode,
            user_id: read_le(b, 122, 2) as u16,
            group_id: read_le(b, 124, 2) as u16,
            link_count: read_le(b, 126, 2) as u16,
            size_in_bytes: read_le(b, 0, 8),
            last_access_time: read_le(b, 8, 8),
            last_modification_time: read_le(b, 16, 8),
            creation_time: read_le(b, 24, 8),
            direct_pointers,
            indirect_pointer: read_le(b, 112, 8),
        };
        Some(inode)
    }
}

/// Whether bit `i` of the bitmap `m` is set; bits are numbered LSB-first
/// within each byte.
pub open spec fn bit_of(m: Seq<u8>, i: int) -> bool {
    m[i / 8] & (1u8 << ((i % 8) as u8)) != 0
}

/// `m` with bit `i` set.
pub open spec fn set_bit_bytes(m: Seq<u8>, i: int) -> Seq<u8> {
    m.update(i / 8, m[i / 8] | (1u8 << ((i % 8) as u8)))
}

/// `m` with bit `i` cleared.
pub open spec fn clear_bit_bytes(m: Seq<u8>, i: int) -> Seq<u8> {
    m.update(i / 8, m[i / 8] & !(1u8 << ((i % 8) as u8)))
}

/// `i` is the smallest clear bit of `m`.
pub open spec fn is_first_clear(m: Seq<u8>, i: int) -> bool {
    &&& 0 <= i < m.len() * 8
    &&& !bit_of(m, i)
    &&& forall|j: int| 0 <= j < i ==> #[trigger] bit_of(m, j)
}

/// Every bit of `m` is set.
pub open spec fn all_set(m: Seq<u8>) -> bool {
    forall|j: int| 0 <= j < m.len() * 8 ==> #[trigger] bit_of(m, j)
}

proof fn lemma_bit_ops(b: u8, k: u8, j: u8)
    requires
        k < 8,
        j < 8,
    ensures
        (b | (1u8 << k)) & (1u8 << j) != 0 <==> (j == k || b & (1u8 << j) != 0),
        (b & !(1u8 << k)) & (1u8 << j) != 0 <==> (j != k && b & (1u8 << j) != 0),
        b == 0xFF ==> b & (1u8 << j) != 0,
{
    assert((b | (1u8 << k)) & (1u8 << j) != 0 <==> (j == k || b & (1u8 << j) != 0))
        by (bit_vector)
        requires
            k < 8,
            j < 8,
    ;
    assert((b & !(1u8 << k)) & (1u8 << j) != 0 <==> (j != k && b & (1u8 << j) != 0))
        by (bit_vector)
        requires
            k < 8,
            j < 8,
    ;
    assert(b == 0xFF ==> b & (1u8 << j) != 0) by (bit_vector)
        requires
            j < 8,
    ;
}

/// Setting bit `i` sets it and leaves every other bit as it was; clearing
/// bit `i` clears it and leaves every other bit as it was.
pub proof fn bitmap_update_laws(m: Seq<u8>, i: int, j: int)
    requires
        0 <= i < m.len() * 8,
        0 <= j < m.len() * 8,
    ensures
        set_bit_bytes(m, i).len() == m.len(),
        clear_bit_bytes(m, i).len() == m.len(),
        bit_of(set_bit_bytes(m, i), j) == (j == i || bit_of(m, j)),
        bit_of(clear_bit_bytes(m, i), j) == (j != i && bit_of(m, j)),
{
    lemma_bit_ops(m[i / 8], (i % 8) as u8, (j % 8) as u8);
    if i / 8 == j / 8 {
        assert(j == i <==> (j % 8) as u8 == (i % 8) as u8);
    }
}

/// Allocation state of a pool of resources, one bit per resource.
#[derive(Debug)]
pub struct Bitmap {
    pub map: Vec<u8>,
}

impl Bitmap {
    /// Creates a bitmap over the given bytes.
    pub fn new(map: Vec<u8>) -> (r: Bitmap)
        ensures
            r.map@ == map@,
    {
        Bitmap { map }
    }

    /// Whether the bit at bit index `idx` is set.
    pub fn is_set(&self, idx: usize) -> (r: bool)
        requires
            idx < self.map@.len() * 8,
        ensures
            r == bit_of(self.map@, idx as int),
    {
        let byte_index = idx / 8;
        let bit_index = idx % 8;
        (self.map[byte_index] & (1u8 << (bit_index as u8))) != 0
    }

    /// Sets bit `idx`; fails with `AlreadyAllocated` if it was set.
    pub fn set(&mut self, idx: usize) -> (r: Result<(), BitmapError>)
        requires
            idx < old(self).map@.len() * 8,
        ensures
            r is Err <==> bit_of(old(self).map@, idx as int),
            r matches Err(e) ==> e == BitmapError::AlreadyAllocated && final(self).map@ == old(self).map@,
            r is Ok ==> final(self).map@ == set_bit_bytes(old(self).map@, idx as int),
    {
        if self.is_set(idx) {
            return Err(BitmapError::AlreadyAllocated);
        }
        let byte_index = idx / 8;
        let bit_index = idx % 8;
        let b = self.map[byte_index] | (1u8 << (bit_index as u8));
        self.map.set(byte_index, b);
        Ok(())
    }

    /// Clears bit `idx`; fails with `AlreadyCleared` if it was clear.
    pub fn clear(&mut self, idx: usize) -> (r: Result<(), BitmapError>)
        requires
            idx < old(self).map@.len() * 8,
        ensures
            r is Err <==> !bit_of(old(self).map@, idx as int),
            r matches Err(e) ==> e == BitmapError::AlreadyCleared && final(self).map@ == old(self).map@,
            r is Ok ==> final(self).map@ == clear_bit_bytes(old(self).map@, idx as int),
    {
        if !self.is_set(idx) {
            return Err(BitmapError::AlreadyCleared);
        }
        let byte_index = idx / 8;
        let bit_index = idx % 8;
        let b = self.map[byte_index] & !(1u8 << (bit_index as u8));
        self.map.set(byte_index, b);
        Ok(())
    }

    /// Finds the smallest clear bit, sets it and returns its index; `None`
    /// when every bit is set.
    pub fn find_and_set_first_free(&mut self) -> (r: Option<usize>)
        requires
            old(self).map@.len() * 8 <= usize::MAX,
        ensures
            r is None <==> all_set(old(self).map@),
            r is None ==> final(self).map@ == old(self).map@,
            r matches Some(i) ==> is_first_clear(old(self).map@, i as int) && final(self).map@
                == set_bit_bytes(old(self).map@, i as int),
    {
        let n = self.map.len();
        let mut byte_idx: usize = 0;
        while byte_idx < n
            invariant
                n == self.map@.len(),
                n * 8 <= usize::MAX,
                self.map@ == old(self).map@,
                byte_idx <= n,
                forall|j: int| 0 <= j < byte_idx * 8 ==> #[trigger] bit_of(self.map@, j),
            decreases n - byte_idx,
        {
            let byte = self.map[byte_idx];
            if byte != 0xFF {
                let base = byte_idx * 8;
                let mut bit: usize = 0;
                while bit < 8
                    invariant
                        n == self.map@.len(),
                        n * 8 <= usize::MAX,
                        self.map@ == old(self).map@,
                        byte_idx < n,
                        base == byte_idx * 8,
                        byte == self.map@[byte_idx as int],
                        bit <= 8,
                        forall|j: int| 0 <= j < base + bit ==> #[trigger] bit_of(self.map@, j),
                    decreases 8 - bit,
                {
                    let idx = base + bit;
                    assert(idx / 8 == byte_idx && idx % 8 == bit);
                    if (byte & (1u8 << (bit as u8))) == 0 {
                        let _ = self.set(idx);
                        return Some(idx);
                    }
                    bit = bit + 1;
                }
            } else {
                assert forall|j: int| byte_idx * 8 <= j < byte_idx * 8 + 8 implies #[trigger] bit_of(
                    self.map@,
                    j,
                ) by {
                    assert(j / 8 == byte_idx);
                    lemma_bit_ops(byte, 0, (j % 8) as u8);
                }
            }
            byte_idx = byte_idx + 1;
        }
        None
    }
}

/// Failures of a bitmap update.
#[derive(Debug, Clone, Copy, PartialEq, Eq, Structural)]
pub enum BitmapError {
    AlreadyAllocated,
    AlreadyCleared,
}

/// Size in bytes of one directory entry: inode (8), name length (2), flags
/// (2) and the name itself, padded to a power of two.
pub const DIR_ENTRY_SIZE: usize = 64;
pub const DIR_NAME_MAX: usize = 52;
pub const DIR_ENTRIES_PER_BLOCK: usize = 8;
/// Flag bit of a directory entry that is in use.
pub const DIRENT_USED: u16 = 1;
/// Byte that fills the unused tail of an entry's name field.
pub const DIRENT_NAME_FILL: u8 = 8;

/// The 64 bytes of a used directory entry for `name` naming inode `inode`.
pub open spec fn dirent_bytes(inode: u64, name: Seq<u8>) -> Seq<u8> {
    le_bytes(inode as nat, 8) + le_bytes(name.len(), 2) + le_bytes(1, 2) + name + Seq::new(
        (52 - name.len()) as nat,
        |i: int| 8u8,
    )
}

/// Inode number held by entry `i` of directory block `b`.
pub open spec fn entry_inode(b: Seq<u8>, i: int) -> nat {
    le_value(b.subrange(64 * i, 64 * i + 8))
}

/// Name length held by entry `i` of directory block `b`.
pub open spec fn entry_name_len(b: Seq<u8>, i: int) -> nat {
    le_value(b.subrange(64 * i + 8, 64 * i + 10))
}

/// Entry `i` of directory block `b` has its USED flag set.
pub open spec fn entry_used(b: Seq<u8>, i: int) -> bool {
    le_value(b.subrange(64 * i + 10, 64 * i + 12)) % 2 == 1
}

/// Entry `i` of directory block `b` holds the name `name`.
pub open spec fn entry_name_is(b: Seq<u8>, i: int, name: Seq<u8>) -> bool {
    &&& name.len() <= 52
    &&& entry_name_len(b, i) == name.len()
    &&& b.subrange(64 * i + 12, 64 * i + 12 + name.len()) == name
}

} // verus!
