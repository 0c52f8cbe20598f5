use blog_kernel::fs::block_dev::BlockDevice;
use blog_kernel::fs::disk_handler::DiskImage;
use blog_kernel::fs::layout::{
    Bitmap, BitmapError, DiskInode, DiskSuperBlock, FileType, Inode, SuperBlock, MAGIC_NUMBER,
};
use blog_kernel::fs::simple_fs::{FileError, FileHandler, FileSystem, FileSystemError, SFS};
use blog_kernel::storage::block_repr::{BlockDevice as SingleBlockDevice, BlockError};

fn formatted(blocks: usize) -> SFS<DiskImage> {
    SFS::format(DiskImage::zeroed(blocks)).expect("format")
}

#[test]
fn bitmap_set_then_is_set() {
    let mut bm = Bitmap::new(vec![0u8; 4]);
    for i in 0..32 {
        assert!(!bm.is_set(i));
        assert_eq!(bm.set(i), Ok(()));
        assert!(bm.is_set(i));
    }
    assert_eq!(bm.map, vec![0xFF; 4]);
}

#[test]
fn bitmap_clear_then_is_clear() {
    let mut bm = Bitmap::new(vec![0xFFu8; 2]);
    assert_eq!(bm.clear(9), Ok(()));
    assert!(!bm.is_set(9));
    assert!(bm.is_set(8));
    assert!(bm.is_set(10));
    assert_eq!(bm.map, vec![0xFF, 0xFD]);
}

#[test]
fn bitmap_set_twice_is_already_allocated() {
    let mut bm = Bitmap::new(vec![0u8; 1]);
    assert_eq!(bm.set(3), Ok(()));
    assert_eq!(bm.set(3), Err(BitmapError::AlreadyAllocated));
    assert_eq!(bm.map, vec![0x08]);
}

#[test]
fn bitmap_clear_clear_bit_is_already_cleared() {
    let mut bm = Bitmap::new(vec![0u8; 1]);
    assert_eq!(bm.clear(5), Err(BitmapError::AlreadyCleared));
    assert_eq!(bm.map, vec![0]);
}

#[test]
fn bitmap_first_free_is_smallest_clear() {
    let mut bm = Bitmap::new(vec![0xFF, 0b1110_1111, 0x00]);
    assert_eq!(bm.find_and_set_first_free(), Some(12));
    assert!(bm.is_set(12));
    assert_eq!(bm.find_and_set_first_free(), Some(16));
    assert_eq!(bm.map, vec![0xFF, 0xFF, 0x01]);
}

#[test]
fn bitmap_full_has_no_free_bit() {
    let mut bm = Bitmap::new(vec![0xFF; 3]);
    assert_eq!(bm.find_and_set_first_free(), None);
    assert_eq!(bm.map, vec![0xFF; 3]);
    let mut empty = Bitmap::new(Vec::new());
    assert_eq!(empty.find_and_set_first_free(), None);
}

fn sample_superblock() -> SuperBlock {
    SuperBlock {
        total_blocks: 2048,
        inode_bitmap_block: 1,
        data_bitmap_block: 2,
        inode_table_start_block: 3,
        inode_count: 816,
        data_block_start: 207,
        data_block_count: 1841,
        magic_number: MAGIC_NUMBER,
    }
}

#[test]
fn superblock_round_trip_values() {
    let sb = SuperBlock {
        total_blocks: u64::MAX,
        inode_bitmap_block: 0x0102_0304_0506_0708,
        data_bitmap_block: 0,
        inode_table_start_block: 1,
        inode_count: 2,
        data_block_start: 3,
        data_block_count: 4,
        magic_number: 0x1234_5678,
    };
    let d = DiskSuperBlock::new(&sb);
    assert_eq!(d.as_bytes().len(), 64);
    assert_eq!(&d.as_bytes()[8..16], &[8, 7, 6, 5, 4, 3, 2, 1]);
    assert_eq!(d.to_superblock(), sb);
    let again = DiskSuperBlock::read_from(d.as_bytes()).expect("64 bytes");
    assert_eq!(again.to_superblock(), sb);
    assert!(DiskSuperBlock::read_from(&[0u8; 63]).is_none());
}

#[test]
fn superblock_magic_at_offset_56() {
    let d = DiskSuperBlock::new(&sample_superblock());
    assert_eq!(&d.as_bytes()[56..60], &[0xEF, 0xBE, 0xAD, 0xDE]);
    assert_eq!(&d.as_bytes()[60..64], &[0, 0, 0, 0]);
}

fn sample_inode() -> Inode {
    Inode {
        mode: FileType::Directory,
        user_id: 0x0102,
        group_id: 7,
        link_count: 2,
        size_in_bytes: 4096,
        last_access_time: 11,
        last_modification_time: 12,
        creation_time: 13,
        direct_pointers: [1, 2, 3, 4, 5, 6, 7, 8, 9, u64::MAX],
        indirect_pointer: 99,
    }
}

#[test]
fn inode_round_trip_values() {
    let i = sample_inode();
    let d = DiskInode::new(&i);
    let b = d.as_bytes();
    assert_eq!(b.len(), 128);
    assert_eq!(&b[0..8], &4096u64.to_le_bytes());
    assert_eq!(&b[32..40], &1u64.to_le_bytes());
    assert_eq!(&b[104..112], &u64::MAX.to_le_bytes());
    assert_eq!(&b[112..120], &99u64.to_le_bytes());
    assert_eq!(&b[120..128], &[2, 0, 2, 1, 7, 0, 2, 0]);
    let j = d.to_inode().expect("valid mode");
    assert_eq!(j.mode, i.mode);
    assert_eq!(j.user_id, i.user_id);
    assert_eq!(j.group_id, i.group_id);
    assert_eq!(j.link_count, i.link_count);
    assert_eq!(j.size_in_bytes, i.size_in_bytes);
    assert_eq!(j.last_access_time, i.last_access_time);
    assert_eq!(j.last_modification_time, i.last_modification_time);
    assert_eq!(j.creation_time, i.creation_time);
    assert_eq!(j.direct_pointers, i.direct_pointers);
    assert_eq!(j.indirect_pointer, i.indirect_pointer);
}

#[test]
fn inode_with_unknown_mode_code_is_refused() {
    let mut raw = DiskInode::new(&sample_inode()).as_bytes().to_vec();
    raw[120] = 3;
    let d = DiskInode::read_from(&raw).expect("128 bytes");
    assert!(d.to_inode().is_none());
    assert!(DiskInode::read_from(&raw[..127]).is_none());
}

#[test]
fn file_type_codes() {
    assert_eq!(FileType::Unknown.as_u16(), 0);
    assert_eq!(FileType::File.as_u16(), 1);
    assert_eq!(FileType::Directory.as_u16(), 2);
    assert_eq!(FileType::from_u16(2), Some(FileType::Directory));
    assert_eq!(FileType::from_u16(7), None);
}

#[test]
fn format_2048_block_layout() {
    let fs = formatted(2048);
    let sb = fs.superblock();
    assert_eq!(sb.total_blocks, 2048);
    assert_eq!(sb.inode_table_start_block, 3);
    assert_eq!(sb.inode_count, 816);
    assert_eq!(sb.data_block_start, 207);
    assert_eq!(sb.data_block_count, 1841);
    assert_eq!(sb.data_block_start - sb.inode_table_start_block, 204);
    assert_eq!(sb.magic_number, 0xDEAD_BEEF);
}

#[test]
fn format_writes_bit_exact_superblock() {
    let fs = formatted(2048);
    let disk = fs.into_device();
    let b = disk.as_bytes();
    let mut expected: Vec<u8> = Vec::new();
    for v in [2048u64, 1, 2, 3, 816, 207, 1841] {
        expected.extend_from_slice(&v.to_le_bytes());
    }
    expected.extend_from_slice(&[0xEF, 0xBE, 0xAD, 0xDE, 0, 0, 0, 0]);
    assert_eq!(&b[0..64], &expected[..]);
    assert!(b[64..512].iter().all(|&x| x == 0));
    assert!(b[512..1536].iter().all(|&x| x == 0));
}

#[test]
fn format_too_small_device_fails() {
    assert!(matches!(SFS::format(DiskImage::zeroed(2)), Err(FileSystemError::FormatFailed)));
    assert!(SFS::format(DiskImage::zeroed(3)).is_ok());
}

#[test]
fn format_on_empty_image_is_block_error() {
    assert!(matches!(SFS::format(DiskImage::new()), Err(FileSystemError::FormatFailed)));
    let mut tiny = DiskImage::load_from_memory(vec![0u8; 3 * 512]);
    assert_eq!(BlockDevice::capacity(&tiny), 3);
    assert_eq!(tiny.write_blocks(3, &[0u8; 512]), Err(FileSystemError::BlockError));
}

#[test]
fn mount_after_format() {
    let disk = formatted(1024).into_device();
    let fs = SFS::mount(disk).ok().expect("mount");
    assert_eq!(fs.superblock().total_blocks, 1024);
    assert_eq!(fs.superblock().data_block_start, 105);
}

#[test]
fn mount_unformatted_is_invalid_superblock() {
    assert!(matches!(SFS::mount(DiskImage::zeroed(64)), Err(FileSystemError::InvalidSuperBlock)));
    assert!(matches!(SFS::mount(DiskImage::new()), Err(FileSystemError::BlockError)));
}

#[test]
fn mount_inconsistent_layout_is_corrupt() {
    let mut raw = formatted(1024).into_device().as_bytes().to_vec();
    raw[32] = 0xFF;
    assert!(matches!(SFS::mount(DiskImage::load_from_memory(raw)), Err(FileSystemError::CorruptLayout)));
    let moved = formatted(1024).into_device().as_bytes().to_vec();
    let mut bigger = moved.clone();
    bigger.extend_from_slice(&[0u8; 512]);
    assert!(matches!(SFS::mount(DiskImage::load_from_memory(bigger)), Err(FileSystemError::CorruptLayout)));
}

#[test]
fn allocate_inode_takes_bits_in_order() {
    let mut fs = formatted(64);
    assert_eq!(fs.allocate_inode(), Ok(0));
    assert_eq!(fs.allocate_inode(), Ok(1));
    assert_eq!(fs.allocate_inode(), Ok(2));
    let disk = fs.into_device();
    assert_eq!(disk.as_bytes()[512], 0b0000_0111);
}

#[test]
fn allocate_data_block_is_absolute() {
    let mut fs = formatted(64);
    let start = fs.superblock().data_block_start;
    assert_eq!(start, 9);
    assert_eq!(fs.allocate_data_block(), Ok(9));
    assert_eq!(fs.allocate_data_block(), Ok(10));
}

#[test]
fn allocate_inode_no_space_when_bitmap_full() {
    let mut raw = formatted(64).into_device().as_bytes().to_vec();
    for b in &mut raw[512..1024] {
        *b = 0xFF;
    }
    let mut fs = SFS::mount(DiskImage::load_from_memory(raw)).ok().expect("mount");
    assert_eq!(fs.allocate_inode(), Err(FileSystemError::NoSpace));
    assert_eq!(fs.allocate_data_block(), Ok(9));
}

#[test]
fn write_then_read_inode() {
    let mut fs = formatted(64);
    let i = sample_inode();
    assert_eq!(fs.write_inode(i, 5), Ok(()));
    let j = fs.read_inode(5).expect("read");
    assert_eq!(j.direct_pointers, i.direct_pointers);
    assert_eq!(j.mode, FileType::Directory);
    let disk = fs.into_device();
    let off = 4 * 512 + 128;
    assert_eq!(&disk.as_bytes()[off..off + 8], &4096u64.to_le_bytes());
}

#[test]
fn read_inode_out_of_device_is_block_error() {
    let mut fs = formatted(64);
    assert!(matches!(fs.read_inode(4000), Err(FileSystemError::BlockError)));
}

#[test]
fn dirent_name_too_long() {
    let fs = formatted(64);
    let mut block = vec![0u8; 512];
    assert_eq!(fs.write_dirent_into_block(&mut block, 0, 1, &[b'a'; 53]), Err(FileSystemError::NameTooLong));
    assert_eq!(fs.write_dirent_into_block(&mut block, 2, 7, b"ab"), Ok(()));
    assert_eq!(&block[128..140], &[7, 0, 0, 0, 0, 0, 0, 0, 2, 0, 1, 0]);
    assert_eq!(&block[140..142], b"ab");
    assert_eq!(block[142], 8);
    assert_eq!(fs.find_free_dir_slot(&block), Some(0));
}

#[test]
fn used_entry_naming_inode_zero_is_not_free() {
    let fs = formatted(64);
    let mut block = vec![0u8; 512];
    assert_eq!(fs.write_dirent_into_block(&mut block, 0, 0, b"."), Ok(()));
    assert_eq!(fs.find_free_dir_slot(&block), Some(1));
    for slot in 1..8 {
        assert_eq!(fs.write_dirent_into_block(&mut block, slot, 0, b"x"), Ok(()));
    }
    assert_eq!(fs.find_free_dir_slot(&block), None);
}

#[test]
fn add_root_dir_entry_errors() {
    let mut fs = formatted(128);
    assert_eq!(fs.add_root_dir_entry(3, "a"), Err(FileSystemError::CorruptLayout));
    fs.init_root_directory().expect("root");
    for k in 0..6 {
        assert_eq!(fs.add_root_dir_entry(k + 1, "e"), Ok(()));
    }
    assert_eq!(fs.add_root_dir_entry(9, "full"), Err(FileSystemError::NoSpace));
}

#[test]
fn root_directory_layout() {
    let mut fs = formatted(2048);
    assert_eq!(fs.init_root_directory(), Ok(()));
    let root = fs.read_inode(0).expect("root");
    assert_eq!(root.mode, FileType::Directory);
    assert_eq!(root.link_count, 2);
    assert_eq!(root.direct_pointers[0], 207);
    let disk = fs.into_device();
    let b = disk.as_bytes();
    assert_eq!(b[512], 1);
    assert_eq!(b[1024], 1);
    let dir = &b[207 * 512..208 * 512];
    assert_eq!(&dir[0..12], &[0, 0, 0, 0, 0, 0, 0, 0, 1, 0, 1, 0]);
    assert_eq!(dir[12], b'.');
    assert_eq!(&dir[64..76], &[0, 0, 0, 0, 0, 0, 0, 0, 2, 0, 1, 0]);
    assert_eq!(&dir[76..78], b"..");
}

#[test]
fn create_file_in_fresh_filesystem() {
    let mut fs = formatted(2048);
    fs.init_root_directory().expect("root");
    assert_eq!(fs.create_file("hello.txt"), Ok(FileHandler(1)));
    assert_eq!(fs.create_file("hello.txt"), Err(FileError::FileExists));
    let f = fs.read_inode(1).expect("file inode");
    assert_eq!(f.mode, FileType::File);
    assert_eq!(f.link_count, 1);
    assert_eq!(f.size_in_bytes, 0);
    assert_eq!(fs.create_file("other"), Ok(FileHandler(2)));
}

#[test]
fn create_file_through_trait() {
    let mut fs = formatted(128);
    fs.init_root_directory().expect("root");
    let h = FileSystem::create_file(&mut fs, "a");
    assert_eq!(h, Ok(FileHandler(1)));
}

#[test]
fn create_file_name_errors() {
    let mut fs = formatted(128);
    fs.init_root_directory().expect("root");
    assert_eq!(fs.create_file(""), Err(FileError::InvalidName));
    let long = "x".repeat(53);
    assert_eq!(fs.create_file(&long), Err(FileError::InvalidName));
    let max = "y".repeat(52);
    assert_eq!(fs.create_file(&max), Ok(FileHandler(1)));
}

#[test]
fn create_file_directory_full() {
    let mut fs = formatted(128);
    fs.init_root_directory().expect("root");
    for k in 0..6 {
        let name = format!("f{}", k);
        assert_eq!(fs.create_file(&name), Ok(FileHandler(k + 1)));
    }
    assert_eq!(fs.create_file("one-more"), Err(FileError::NoSpace));
}

#[test]
fn create_file_without_root_is_corrupt() {
    let mut fs = formatted(128);
    assert_eq!(fs.create_file("a"), Err(FileError::Corrupt));
}

#[test]
fn create_file_on_failing_device() {
    let mut fs = formatted(3);
    assert_eq!(fs.create_file("a"), Err(FileError::CreationFailed));
    assert_eq!(fs.init_root_directory(), Err(FileSystemError::BlockError));
}

#[test]
fn add_root_dir_entry_uses_first_reusable_slot() {
    let mut fs = formatted(128);
    fs.init_root_directory().expect("root");
    assert_eq!(fs.add_root_dir_entry(9, "n"), Ok(()));
    assert_eq!(fs.add_root_dir_entry(9, &"z".repeat(53)), Err(FileSystemError::NameTooLong));
    let root = fs.read_inode(0).expect("root");
    let block = root.direct_pointers[0] as usize;
    let disk = fs.into_device();
    let dir = &disk.as_bytes()[block * 512..block * 512 + 512];
    assert_eq!(dir[12], b'.');
    assert_eq!(&dir[76..78], b"..");
    assert_eq!(dir[128], 9);
    assert_eq!(dir[140], b'n');
}

#[test]
fn disk_image_single_block_transfers() {
    let mut d = DiskImage::zeroed(2);
    assert_eq!(SingleBlockDevice::block_size(&mut d), 512);
    assert_eq!(SingleBlockDevice::block_count(&mut d), 2);
    assert_eq!(d.write_block(1, &[5u8; 10]), Ok(()));
    let mut buf = vec![0u8; 512];
    assert_eq!(d.read_block(1, &mut buf), Ok(()));
    assert_eq!(&buf[..11], &[5, 5, 5, 5, 5, 5, 5, 5, 5, 5, 0]);
    assert_eq!(d.read_block(2, &mut buf), Err(BlockError::Read));
    assert_eq!(d.write_block(0, &[0u8; 513]), Err(BlockError::Write));
    assert_eq!(d.write_block(2, &[0u8; 1]), Err(BlockError::Write));
}
