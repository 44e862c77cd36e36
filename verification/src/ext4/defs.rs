//! ext4 on-disk constants and record types.
use vstd::prelude::*;

verus! {

pub const EXT4_SUPERBLOCK_OFFSET: usize = 1024;
pub const EXT4_SUPERBLOCK_SIZE: usize = 1024;
pub const EXT4_MAX_DESC_SIZE: usize = 64;
pub const EXT4_MAX_NAME_LEN: usize = 255;
pub const EXT4_SUPER_MAGIC: u16 = 0xEF53;
pub const EXT4_CHECKSUM_CRC32C: u8 = 1;

pub const RO_COMPAT_SPARSE_SUPER: u32 = 0x0001;
pub const RO_COMPAT_LARGE_FILE: u32 = 0x0002;
pub const RO_COMPAT_HUGE_FILE: u32 = 0x0008;
pub const RO_COMPAT_GDT_CSUM: u32 = 0x0010;
pub const RO_COMPAT_DIR_NLINK: u32 = 0x0020;
pub const RO_COMPAT_EXTRA_ISIZE: u32 = 0x0040;
pub const RO_COMPAT_METADATA_CSUM: u32 = 0x0400;

pub const INCOMPAT_FILETYPE: u32 = 0x0002;
pub const INCOMPAT_EXTENTS: u32 = 0x0040;
pub const INCOMPAT_BIT64: u32 = 0x0080;
pub const INCOMPAT_FLEX_BG: u32 = 0x0200;
pub const INCOMPAT_CSUM_SEED: u32 = 0x2000;

pub const INODE_FLAG_INDEX: u32 = 0x0000_1000;
pub const INODE_FLAG_EXTENTS: u32 = 0x0008_0000;
pub const INODE_FLAG_INLINE_DATA: u32 = 0x1000_0000;

/// Incompat feature bits this layer can mount.
pub const SUPPORTED_INCOMPAT: u32 = 0x0002 | 0x0040 | 0x0080 | 0x0200 | 0x2000;
/// Read-only-compat feature bits this layer can mount.
pub const SUPPORTED_RO_COMPAT: u32 = 0x0001 | 0x0002 | 0x0008 | 0x0010 | 0x0020 | 0x0040 | 0x0400;

pub const EXT4_EXTENT_MAGIC: u16 = 0xF30A;
pub const EXT4_DIRENTRY_DIR_CSUM: u8 = 0xDE;

pub const SB_MAGIC_OFF: usize = 0x38;
pub const SB_INODES_COUNT_OFF: usize = 0x00;
pub const SB_LOG_BLOCK_SIZE_OFF: usize = 0x18;
pub const SB_BLOCKS_COUNT_LO_OFF: usize = 0x04;
pub const SB_BLOCKS_COUNT_HI_OFF: usize = 0x150;
pub const SB_FREE_BLOCKS_COUNT_LO_OFF: usize = 0x0C;
pub const SB_FREE_INODES_COUNT_OFF: usize = 0x10;
pub const SB_FREE_BLOCKS_COUNT_HI_OFF: usize = 0x158;
pub const SB_FIRST_DATA_BLOCK_OFF: usize = 0x14;
pub const SB_BLOCKS_PER_GROUP_OFF: usize = 0x20;
pub const SB_INODES_PER_GROUP_OFF: usize = 0x28;
pub const SB_INODE_SIZE_OFF: usize = 0x58;
pub const SB_DESC_SIZE_OFF: usize = 0xFE;
pub const SB_FEATURE_COMPAT_OFF: usize = 0x5C;
pub const SB_FEATURE_INCOMPAT_OFF: usize = 0x60;
pub const SB_FEATURE_RO_COMPAT_OFF: usize = 0x64;
pub const SB_UUID_OFF: usize = 0x68;
pub const SB_HASH_SEED_OFF: usize = 0xEC;
pub const SB_FLAGS_OFF: usize = 0x160;
pub const SB_CHECKSUM_TYPE_OFF: usize = 0x175;
pub const SB_CHECKSUM_SEED_OFF: usize = 0x270;
pub const SB_CHECKSUM_OFF: usize = 0x3FC;
pub const SB_FIRST_META_BG_OFF: usize = 0x104;

pub const GD_BLOCK_BITMAP_LO_OFF: usize = 0x00;
pub const GD_INODE_BITMAP_LO_OFF: usize = 0x04;
pub const GD_INODE_TABLE_LO_OFF: usize = 0x08;
pub const GD_FREE_BLOCKS_LO_OFF: usize = 0x0C;
pub const GD_FREE_INODES_LO_OFF: usize = 0x0E;
pub const GD_USED_DIRS_LO_OFF: usize = 0x10;
pub const GD_FLAGS_OFF: usize = 0x12;
pub const GD_BLOCK_BITMAP_CSUM_LO_OFF: usize = 0x18;
pub const GD_INODE_BITMAP_CSUM_LO_OFF: usize = 0x1A;
pub const GD_ITABLE_UNUSED_LO_OFF: usize = 0x1C;
pub const GD_CHECKSUM_OFF: usize = 0x1E;
pub const GD_BLOCK_BITMAP_HI_OFF: usize = 0x20;
pub const GD_INODE_BITMAP_HI_OFF: usize = 0x24;
pub const GD_INODE_TABLE_HI_OFF: usize = 0x28;
pub const GD_FREE_BLOCKS_HI_OFF: usize = 0x2C;
pub const GD_FREE_INODES_HI_OFF: usize = 0x2E;
pub const GD_USED_DIRS_HI_OFF: usize = 0x30;
pub const GD_ITABLE_UNUSED_HI_OFF: usize = 0x32;
pub const GD_BLOCK_BITMAP_CSUM_HI_OFF: usize = 0x38;
pub const GD_INODE_BITMAP_CSUM_HI_OFF: usize = 0x3A;

pub const EXT4_BG_INODE_UNINIT: u16 = 0x0001;
pub const EXT4_BG_BLOCK_UNINIT: u16 = 0x0002;

pub const EXTENT_HEADER_SIZE: usize = 12;
pub const EXTENT_ENTRY_SIZE: usize = 12;
pub const DIR_ENTRY_HEADER_SIZE: usize = 8;
pub const DIR_ENTRY_TAIL_SIZE: usize = 12;

pub const INODE_BLOCK_ARRAY_OFF: usize = 0x28;
pub const INODE_BLOCK_ARRAY_SIZE: usize = 60;
/// Longest initialized extent.
pub const EXT_INIT_MAX_LEN: u16 = 32768;
/// Entries of the extent root kept inside the inode.
pub const ROOT_EXTENT_MAX: u16 = 4;

/// Whether every bit of `f` is set in `x`.
pub open spec fn has_bits(x: u32, f: u32) -> bool {
    x & f == f
}

/// Whether every bit of `f` is set in `x`.
pub fn flags_contain(x: u32, f: u32) -> (b: bool)
    ensures
        b == has_bits(x, f),
{
    x & f == f
}

/// The raw ext4 superblock.
pub struct Ext4Superblock {
    pub raw: Vec<u8>,
}

/// A parsed block group descriptor with its raw bytes.
pub struct Ext4GroupDesc {
    pub raw: Vec<u8>,
    pub raw_len: u8,
    pub block_bitmap: u64,
    pub inode_bitmap: u64,
    pub inode_table_first_block: u64,
    pub free_blocks_count: u32,
    pub free_inodes_count: u32,
    pub used_dirs_count: u32,
    pub flags: u16,
    pub itable_unused: u32,
    pub block_bitmap_csum: u32,
    pub inode_bitmap_csum: u32,
    pub checksum: u16,
}

/// A block or inode bitmap and where it lives.
pub struct Ext4BitmapBlock {
    pub pblk: u64,
    pub raw: Vec<u8>,
}

/// A parsed inode record with its raw bytes.
pub struct Ext4Inode {
    pub raw: Vec<u8>,
    pub ino: u32,
    pub i_mode: u16,
    pub i_uid: u16,
    pub i_gid: u16,
    pub i_links_count: u16,
    pub i_atime: u32,
    pub i_ctime: u32,
    pub i_mtime: u32,
    pub i_size: u64,
    pub i_blocks: u64,
    pub i_flags: u32,
    pub i_generation: u32,
    pub i_file_acl: u64,
    pub i_extra_isize: u16,
}

/// Header of an extent node.
#[derive(Clone, Copy, PartialEq, Eq, Structural, Debug)]
pub struct ExtentHeader {
    pub eh_magic: u16,
    pub eh_entries: u16,
    pub eh_max: u16,
    pub eh_depth: u16,
    pub eh_generation: u32,
}

/// An index entry of an interior extent node.
#[derive(Clone, Copy, PartialEq, Eq, Structural, Debug)]
pub struct ExtentIdx {
    pub ei_block: u32,
    pub ei_leaf: u64,
}

/// A leaf extent: `ee_len_raw` blocks from logical `ee_block` at physical `ee_start`.
#[derive(Clone, Copy, PartialEq, Eq, Structural, Debug)]
pub struct ExtentLeaf {
    pub ee_block: u32,
    pub ee_len_raw: u16,
    pub ee_start: u64,
}

/// A parsed extent node with its raw bytes.
pub struct ExtentBlock {
    pub pblk: u64,
    pub raw: Vec<u8>,
    pub header: ExtentHeader,
    pub idx: Vec<ExtentIdx>,
    pub leaf: Vec<ExtentLeaf>,
    pub tail_checksum: Option<u32>,
}

/// A directory entry; `name` holds the `name_len` bytes of the name.
pub struct DirEntry2 {
    pub inode: u32,
    pub rec_len: u16,
    pub name_len: u8,
    pub file_type: u8,
    pub name: Vec<u8>,
    pub entry_off: u16,
}

/// A parsed directory block with its raw bytes.
pub struct DirBlock {
    pub pblk: u64,
    pub raw: Vec<u8>,
    pub entries: Vec<DirEntry2>,
}

/// File types recorded in directory entries.
#[derive(Clone, Copy, PartialEq, Eq, Structural, Debug)]
pub enum Ext4DirEntryFileType {
    Unknown,
    Regular,
    Directory,
    CharacterDevice,
    BlockDevice,
    Fifo,
    Socket,
    Symlink,
}

/// On-disk code of a directory-entry file type.
pub open spec fn spec_file_type_code(t: Ext4DirEntryFileType) -> u8 {
    match t {
        Ext4DirEntryFileType::Unknown => 0,
        Ext4DirEntryFileType::Regular => 1,
        Ext4DirEntryFileType::Directory => 2,
        Ext4DirEntryFileType::CharacterDevice => 3,
        Ext4DirEntryFileType::BlockDevice => 4,
        Ext4DirEntryFileType::Fifo => 5,
        Ext4DirEntryFileType::Socket => 6,
        Ext4DirEntryFileType::Symlink => 7,
    }
}

impl Ext4DirEntryFileType {
    /// On-disk code of the file type.
    pub fn as_u8(self) -> (r: u8)
        ensures
            r == spec_file_type_code(self),
    {
        match self {
            Ext4DirEntryFileType::Unknown => 0,
            Ext4DirEntryFileType::Regular => 1,
            Ext4DirEntryFileType::Directory => 2,
            Ext4DirEntryFileType::CharacterDevice => 3,
            Ext4DirEntryFileType::BlockDevice => 4,
            Ext4DirEntryFileType::Fifo => 5,
            Ext4DirEntryFileType::Socket => 6,
            Ext4DirEntryFileType::Symlink => 7,
        }
    }

    /// The file type of an on-disk code, if it names one.
    pub fn try_from_u8(v: u8) -> (r: Option<Ext4DirEntryFileType>)
        ensures
            match r {
                Some(t) => spec_file_type_code(t) == v,
                None => v > 7,
            },
    {
        match v {
            0 => Some(Ext4DirEntryFileType::Unknown),
            1 => Some(Ext4DirEntryFileType::Regular),
            2 => Some(Ext4DirEntryFileType::Directory),
            3 => Some(Ext4DirEntryFileType::CharacterDevice),
            4 => Some(Ext4DirEntryFileType::BlockDevice),
            5 => Some(Ext4DirEntryFileType::Fifo),
            6 => Some(Ext4DirEntryFileType::Socket),
            7 => Some(Ext4DirEntryFileType::Symlink),
            _ => None,
        }
    }
}

impl Ext4GroupDesc {
    /// Well-formedness: the raw buffer holds the descriptor's bytes.
    pub open spec fn wf(&self) -> bool {
        self.raw@.len() == EXT4_MAX_DESC_SIZE && self.raw_len as usize <= EXT4_MAX_DESC_SIZE
    }

    /// The descriptor's bytes.
    pub fn raw_slice(&self) -> (r: &[u8])
        requires
            self.wf(),
        ensures
            r@ == self.raw@.subrange(0, self.raw_len as int),
    {
        vstd::slice::slice_subrange(self.raw.as_slice(), 0, self.raw_len as usize)
    }

    /// A copy of the descriptor's bytes, for mutation by the caller.
    pub fn raw_slice_mut(&self) -> (r: Vec<u8>)
        requires
            self.wf(),
        ensures
            r@ == self.raw@.subrange(0, self.raw_len as int),
    {
        crate::bytes::copy_range(self.raw.as_slice(), 0, self.raw_len as usize)
    }
}

/// The value of a directory entry, with its name as a sequence.
pub struct DirEntryModel {
    pub inode: u32,
    pub rec_len: u16,
    pub name_len: u8,
    pub file_type: u8,
    pub name: Seq<u8>,
    pub entry_off: u16,
}

impl View for DirEntry2 {
    type V = DirEntryModel;

    open spec fn view(&self) -> DirEntryModel {
        DirEntryModel {
            inode: self.inode,
            rec_len: self.rec_len,
            name_len: self.name_len,
            file_type: self.file_type,
            name: self.name@,
            entry_off: self.entry_off,
        }
    }
}

impl DirEntry2 {
    /// The first `name_len` bytes of the entry's name buffer (all of it when the buffer is
    /// shorter).
    pub fn name_slice(&self) -> (r: &[u8])
        ensures
            r@ == self.name@.subrange(0, if self.name_len as int <= self.name@.len() { self.name_len as int }
                else { self.name@.len() as int }),
            r@.len() == self.name_len || (r@.len() == self.name@.len() && self.name@.len() < self.name_len),
    {
        let n = if (self.name_len as usize) <= self.name.len() { self.name_len as usize } else { self.name.len() };
        vstd::slice::slice_subrange(self.name.as_slice(), 0, n)
    }
}

} // verus!
