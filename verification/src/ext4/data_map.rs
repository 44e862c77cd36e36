//! Walking a file's sorted extent list alongside its bytes, and the checks and small edits
//! that file operations make on inode records.
use vstd::prelude::*;
use crate::errno::{Errno, SysResult};
use crate::vfs::{DirResult, FileType};
use super::defs::{Ext4Inode, ExtentLeaf, DirEntry2, Ext4DirEntryFileType, has_bits, flags_contain, spec_file_type_code,
    INODE_FLAG_EXTENTS, INODE_FLAG_INLINE_DATA, INODE_BLOCK_ARRAY_OFF, INODE_BLOCK_ARRAY_SIZE, EXT_INIT_MAX_LEN};
use super::extent_map::{ext_len, pends_bounded, extent_len_u32};
use crate::bytes::splice;

verus! {

pub const MODE_TYPE_MASK: u16 = 0xF000;
pub const MODE_DIR: u16 = 0x4000;
pub const MODE_REG: u16 = 0x8000;
pub const MODE_LNK: u16 = 0xA000;
pub const MODE_CHR: u16 = 0x2000;
pub const MODE_BLK: u16 = 0x6000;
pub const MODE_FIFO: u16 = 0x1000;
pub const MODE_SOCK: u16 = 0xC000;

/// The type bits of a mode.
pub open spec fn mode_type(mode: u16) -> u16 {
    mode & MODE_TYPE_MASK
}

/// One past the last logical block of a leaf, by its block count.
pub open spec fn ext_end(e: ExtentLeaf) -> int {
    e.ee_block + ext_len(e.ee_len_raw)
}

/// The leaf covers logical block `lblk` and its end fits 32 bits.
pub open spec fn covers(e: ExtentLeaf, lblk: int) -> bool {
    ext_end(e) <= u32::MAX && e.ee_block <= lblk < ext_end(e)
}

/// Where a cursor at `i` comes to rest for `lblk`: the first leaf from `i` on whose end fits
/// 32 bits and lies past `lblk`, or the end of the list.
pub open spec fn cursor_after(s: Seq<ExtentLeaf>, i: int, lblk: int) -> int
    decreases s.len() - i,
{
    if i >= s.len() || i < 0 {
        i
    } else if ext_end(s[i]) <= u32::MAX && lblk < ext_end(s[i]) {
        i
    } else {
        cursor_after(s, i + 1, lblk)
    }
}

/// The leaf at the cursor, when it covers `lblk` and (for reads) is initialised.
pub open spec fn leaf_at_cursor(s: Seq<ExtentLeaf>, i: int, lblk: int, for_read: bool) -> Option<ExtentLeaf> {
    if 0 <= i < s.len() && (!for_read || s[i].ee_len_raw <= EXT_INIT_MAX_LEN) && covers(s[i], lblk) {
        Some(s[i])
    } else {
        None
    }
}

/// The physical block that the leaf at the cursor gives `lblk`, if any.
pub open spec fn pblk_at_cursor(s: Seq<ExtentLeaf>, i: int, lblk: int, for_read: bool) -> Option<u64> {
    match leaf_at_cursor(s, i, lblk, for_read) {
        Some(e) => Some((e.ee_start + (lblk - e.ee_block)) as u64),
        None => None,
    }
}

/// Moves the cursor to the first leaf from it on that ends past `lblk`.
pub fn advance_extent_cursor(extents: &[ExtentLeaf], extent_idx: &mut usize, lblk: u32)
    requires
        *old(extent_idx) <= extents@.len(),
    ensures
        *final(extent_idx) == cursor_after(extents@, *old(extent_idx) as int, lblk as int),
        *final(extent_idx) <= extents@.len(),
{
    while *extent_idx < extents.len()
        invariant
            *extent_idx <= extents@.len(),
            cursor_after(extents@, *old(extent_idx) as int, lblk as int) == cursor_after(extents@, *extent_idx as int, lblk as int),
        ensures
            *extent_idx <= extents@.len(),
            cursor_after(extents@, *old(extent_idx) as int, lblk as int) == *extent_idx as int,
        decreases extents@.len() - *extent_idx,
    {
        let end = match extent_end_lblk(extents[*extent_idx]) {
            Some(e) => e,
            None => {
                *extent_idx = *extent_idx + 1;
                continue;
            },
        };
        if lblk < end {
            break;
        }
        *extent_idx = *extent_idx + 1;
    }
}

/// The number of blocks a raw extent length describes.
pub fn extent_len_blocks(raw: u16) -> (r: u32)
    ensures
        r == ext_len(raw),
{
    extent_len_u32(raw)
}

/// One past the leaf's last logical block, when that fits 32 bits.
pub fn extent_end_lblk(extent: ExtentLeaf) -> (r: Option<u32>)
    ensures
        match r {
            Some(end) => end == ext_end(extent),
            None => ext_end(extent) > u32::MAX,
        },
{
    extent.ee_block.checked_add(extent_len_blocks(extent.ee_len_raw))
}

/// Whether the leaf covers logical block `lblk` (a leaf whose end overflows covers nothing).
pub fn extent_contains_lblk(extent: ExtentLeaf, lblk: u32) -> (r: bool)
    ensures
        r == covers(extent, lblk as int),
{
    match extent_end_lblk(extent) {
        Some(end) => extent.ee_block <= lblk && lblk < end,
        None => false,
    }
}

/// The physical block to read for `lblk` through the leaf at the cursor: none for a hole or
/// an uninitialised leaf.
pub fn mapped_read_pblk(extents: &[ExtentLeaf], extent_idx: usize, lblk: u32) -> (r: Option<u64>)
    requires
        pends_bounded(extents@),
    ensures
        r == pblk_at_cursor(extents@, extent_idx as int, lblk as int, true),
{
    match mapped_extent_for_read(extents, extent_idx, lblk) {
        Some(extent) => Some(extent.ee_start + (lblk - extent.ee_block) as u64),
        None => None,
    }
}

/// The physical block to write for `lblk` through the leaf at the cursor: none for a hole.
pub fn mapped_write_pblk(extents: &[ExtentLeaf], extent_idx: usize, lblk: u32) -> (r: Option<u64>)
    requires
        pends_bounded(extents@),
    ensures
        r == pblk_at_cursor(extents@, extent_idx as int, lblk as int, false),
{
    match mapped_extent_for_write(extents, extent_idx, lblk) {
        Some(extent) => Some(extent.ee_start + (lblk - extent.ee_block) as u64),
        None => None,
    }
}

/// The leaf at the cursor, when it is initialised and covers `lblk`.
pub fn mapped_extent_for_read(extents: &[ExtentLeaf], extent_idx: usize, lblk: u32) -> (r: Option<ExtentLeaf>)
    requires
        pends_bounded(extents@),
    ensures
        r == leaf_at_cursor(extents@, extent_idx as int, lblk as int, true),
        r matches Some(e) ==> e.ee_start + ext_len(e.ee_len_raw) <= u64::MAX,
{
    if extent_idx >= extents.len() {
        return None;
    }
    let extent = extents[extent_idx];
    if extent.ee_len_raw > EXT_INIT_MAX_LEN || !extent_contains_lblk(extent, lblk) {
        return None;
    }
    Some(extent)
}

/// The leaf at the cursor, when it covers `lblk`.
pub fn mapped_extent_for_write(extents: &[ExtentLeaf], extent_idx: usize, lblk: u32) -> (r: Option<ExtentLeaf>)
    requires
        pends_bounded(extents@),
    ensures
        r == leaf_at_cursor(extents@, extent_idx as int, lblk as int, false),
        r matches Some(e) ==> e.ee_start + ext_len(e.ee_len_raw) <= u64::MAX,
{
    if extent_idx >= extents.len() {
        return None;
    }
    let extent = extents[extent_idx];
    if !extent_contains_lblk(extent, lblk) {
        return None;
    }
    Some(extent)
}

/// How many whole blocks from `lblk` on can be moved in one go through the leaf: as many as
/// the remaining bytes fill and the leaf still covers.
pub open spec fn run_len(e: ExtentLeaf, lblk: int, remaining: int, block_size: int) -> int {
    if ext_end(e) > u32::MAX {
        0
    } else {
        let run = if ext_end(e) > lblk { ext_end(e) - lblk } else { 0 };
        let whole = remaining / block_size;
        if whole < run { whole } else { run }
    }
}

/// The number of whole blocks from `lblk` that the leaf covers and the remaining bytes fill.
pub fn full_block_run_len(extent: ExtentLeaf, lblk: u32, remaining_bytes: usize, block_size: usize) -> (r: usize)
    requires
        block_size > 0,
    ensures
        r == run_len(extent, lblk as int, remaining_bytes as int, block_size as int),
{
    let end_lblk = match extent_end_lblk(extent) {
        Some(e) => e,
        None => return 0,
    };
    let run_blocks = end_lblk.saturating_sub(lblk) as usize;
    let whole = remaining_bytes / block_size;
    if whole < run_blocks { whole } else { run_blocks }
}

/// How many blocks from `lblk` lie before the leaf at the cursor (without bound past the
/// last leaf).
pub open spec fn hole_len(s: Seq<ExtentLeaf>, i: int, lblk: int) -> int {
    if 0 <= i < s.len() {
        if s[i].ee_block > lblk { s[i].ee_block - lblk } else { 0 }
    } else {
        usize::MAX as int
    }
}

/// The number of unmapped blocks from `lblk` up to the leaf at the cursor.
pub fn hole_run_blocks(extents: &[ExtentLeaf], extent_idx: usize, lblk: u32) -> (r: usize)
    ensures
        r == hole_len(extents@, extent_idx as int, lblk as int),
{
    if extent_idx < extents.len() {
        extents[extent_idx].ee_block.saturating_sub(lblk) as usize
    } else {
        usize::MAX
    }
}

/// Why a directory inode cannot be read, if it cannot: `ENOTDIR` for another type,
/// `EOPNOTSUPP` for inline data.
pub open spec fn dir_readable_error(i: Ext4Inode) -> Option<Errno> {
    if mode_type(i.i_mode) != MODE_DIR {
        Some(Errno::ENOTDIR)
    } else if has_bits(i.i_flags, INODE_FLAG_INLINE_DATA) {
        Some(Errno::EOPNOTSUPP)
    } else {
        None
    }
}

/// Why a directory inode cannot be changed, if it cannot: it cannot be read, or it does not
/// use extents (`EOPNOTSUPP`).
pub open spec fn dir_writable_error(i: Ext4Inode) -> Option<Errno> {
    match dir_readable_error(i) {
        Some(e) => Some(e),
        None => if !has_bits(i.i_flags, INODE_FLAG_EXTENTS) { Some(Errno::EOPNOTSUPP) } else { None },
    }
}

/// Gives the result of a check that fails with `e`, if any.
pub open spec fn check_result(e: Option<Errno>) -> SysResult<()> {
    match e {
        Some(x) => Err(x),
        None => Ok(()),
    }
}

/// Checks that the inode is a directory whose entries can be read.
pub fn ensure_dir_readable(inode: &Ext4Inode) -> (r: SysResult<()>)
    ensures
        r == check_result(dir_readable_error(*inode)),
{
    if inode.i_mode & MODE_TYPE_MASK != MODE_DIR {
        return Err(Errno::ENOTDIR);
    }
    if flags_contain(inode.i_flags, INODE_FLAG_INLINE_DATA) {
        return Err(Errno::EOPNOTSUPP);
    }
    Ok(())
}

/// Checks that the inode is a directory whose entries can be changed.
pub fn ensure_dir_writable(inode: &Ext4Inode) -> (r: SysResult<()>)
    ensures
        r == check_result(dir_writable_error(*inode)),
{
    ensure_dir_readable(inode)?;
    if !flags_contain(inode.i_flags, INODE_FLAG_EXTENTS) {
        return Err(Errno::EOPNOTSUPP);
    }
    Ok(())
}

/// The directory-entry type of a mode, if the mode names one.
pub open spec fn dirent_type_of(mode: u16) -> Option<Ext4DirEntryFileType> {
    let t = mode_type(mode);
    if t == MODE_REG { Some(Ext4DirEntryFileType::Regular) }
    else if t == MODE_DIR { Some(Ext4DirEntryFileType::Directory) }
    else if t == MODE_LNK { Some(Ext4DirEntryFileType::Symlink) }
    else if t == MODE_CHR { Some(Ext4DirEntryFileType::CharacterDevice) }
    else if t == MODE_BLK { Some(Ext4DirEntryFileType::BlockDevice) }
    else if t == MODE_FIFO { Some(Ext4DirEntryFileType::Fifo) }
    else if t == MODE_SOCK { Some(Ext4DirEntryFileType::Socket) }
    else { None }
}

/// The directory-entry type of a mode; `EOPNOTSUPP` when its type bits name none.
pub fn dirent_file_type(mode: u16) -> (r: SysResult<Ext4DirEntryFileType>)
    ensures
        match dirent_type_of(mode) {
            Some(t) => r == Ok::<Ext4DirEntryFileType, Errno>(t),
            None => r == Err::<Ext4DirEntryFileType, Errno>(Errno::EOPNOTSUPP),
        },
{
    let t = mode & MODE_TYPE_MASK;
    if t == MODE_REG { Ok(Ext4DirEntryFileType::Regular) }
    else if t == MODE_DIR { Ok(Ext4DirEntryFileType::Directory) }
    else if t == MODE_LNK { Ok(Ext4DirEntryFileType::Symlink) }
    else if t == MODE_CHR { Ok(Ext4DirEntryFileType::CharacterDevice) }
    else if t == MODE_BLK { Ok(Ext4DirEntryFileType::BlockDevice) }
    else if t == MODE_FIFO { Ok(Ext4DirEntryFileType::Fifo) }
    else if t == MODE_SOCK { Ok(Ext4DirEntryFileType::Socket) }
    else { Err(Errno::EOPNOTSUPP) }
}

/// The block array of a device inode: zero, with the low 32 bits of `dev` at byte 4 when
/// they need more than 16 bits, else at byte 0.
pub open spec fn device_block(dev: u64) -> Seq<u8> {
    let d = (dev as int % 0x1_0000_0000) as u32;
    let off: int = if d & 0xFFFF_0000u32 != 0 { 4 } else { 0 };
    splice(Seq::new(INODE_BLOCK_ARRAY_SIZE as nat, |k: int| 0u8), off, crate::bytes::le_bytes32(d))
}

/// Stores the device number of a character or block device into the block array.
pub fn set_device(inode: &mut Ext4Inode, dev: u64)
    requires
        old(inode).raw@.len() >= INODE_BLOCK_ARRAY_OFF + INODE_BLOCK_ARRAY_SIZE,
    ensures
        final(inode).raw@ == splice(old(inode).raw@, INODE_BLOCK_ARRAY_OFF as int, device_block(dev)),
        *final(inode) == (Ext4Inode { raw: final(inode).raw, ..*old(inode) }),
{
    let d = (dev % 0x1_0000_0000) as u32;
    let offset: usize = if d & 0xFFFF_0000u32 != 0 { 4 } else { 0 };
    let mut block: Vec<u8> = vec![0u8; INODE_BLOCK_ARRAY_SIZE];
    let ghost z = block@;
    let bytes = crate::bytes::u32_to_le_bytes(d);
    crate::bytes::copy_into(&mut block, offset, bytes.as_slice());
    proof {
        assert(block@ =~= device_block(dev)) by {
            assert(z =~= Seq::new(INODE_BLOCK_ARRAY_SIZE as nat, |k: int| 0u8));
        }
    }
    inode.set_i_block(block.as_slice());
}

/// Stores a short symlink target in the block array itself: the rest zeroed, extents off,
/// the size the target's length and no blocks counted.
pub fn set_fast_symlink(inode: &mut Ext4Inode, target: &[u8])
    requires
        old(inode).raw@.len() >= INODE_BLOCK_ARRAY_OFF + INODE_BLOCK_ARRAY_SIZE,
        target@.len() <= INODE_BLOCK_ARRAY_SIZE,
    ensures
        final(inode).raw@ == splice(old(inode).raw@, INODE_BLOCK_ARRAY_OFF as int,
            target@ + Seq::new((INODE_BLOCK_ARRAY_SIZE - target@.len()) as nat, |k: int| 0u8)),
        *final(inode) == (Ext4Inode {
            raw: final(inode).raw,
            i_flags: old(inode).i_flags & !INODE_FLAG_EXTENTS,
            i_size: target@.len() as u64,
            i_blocks: 0,
            ..*old(inode)
        }),
{
    let mut block: Vec<u8> = vec![0u8; INODE_BLOCK_ARRAY_SIZE];
    crate::bytes::copy_into(&mut block, 0, target);
    proof {
        assert(block@ =~= target@ + Seq::new((INODE_BLOCK_ARRAY_SIZE - target@.len()) as nat, |k: int| 0u8));
    }
    inode.set_i_block(block.as_slice());
    inode.i_flags = inode.i_flags & !INODE_FLAG_EXTENTS;
    inode.i_size = target.len() as u64;
    inode.i_blocks = 0;
}

/// Why an inode's storage cannot be released on unlink, if it cannot: an external attribute
/// block, a directory, or a block-mapped inode that still holds blocks.
pub open spec fn unlink_cleanup_error(i: Ext4Inode) -> Option<Errno> {
    if i.i_file_acl != 0 {
        Some(Errno::EOPNOTSUPP)
    } else if mode_type(i.i_mode) == MODE_DIR {
        Some(Errno::EISDIR)
    } else if has_bits(i.i_flags, INODE_FLAG_EXTENTS) || has_bits(i.i_flags, INODE_FLAG_INLINE_DATA) {
        None
    } else if i.i_blocks != 0 {
        Some(Errno::EOPNOTSUPP)
    } else {
        None
    }
}

/// Checks that the storage of an inode being unlinked can be released.
pub fn ensure_unlink_cleanup_supported(inode: &Ext4Inode) -> (r: SysResult<()>)
    ensures
        r == check_result(unlink_cleanup_error(*inode)),
{
    if inode.i_file_acl != 0 {
        return Err(Errno::EOPNOTSUPP);
    }
    if inode.i_mode & MODE_TYPE_MASK == MODE_DIR {
        return Err(Errno::EISDIR);
    }
    if flags_contain(inode.i_flags, INODE_FLAG_EXTENTS) || flags_contain(inode.i_flags, INODE_FLAG_INLINE_DATA) {
        return Ok(());
    }
    if inode.i_blocks != 0 {
        return Err(Errno::EOPNOTSUPP);
    }
    Ok(())
}

/// Why a directory being removed cannot have its storage released, if it cannot.
pub open spec fn rmdir_cleanup_error(i: Ext4Inode) -> Option<Errno> {
    if i.i_file_acl != 0 {
        Some(Errno::EOPNOTSUPP)
    } else if mode_type(i.i_mode) != MODE_DIR {
        Some(Errno::ENOTDIR)
    } else {
        dir_writable_error(i)
    }
}

/// Checks that a directory being removed can have its storage released.
pub fn ensure_rmdir_cleanup_supported(inode: &Ext4Inode) -> (r: SysResult<()>)
    ensures
        r == check_result(rmdir_cleanup_error(*inode)),
{
    if inode.i_file_acl != 0 {
        return Err(Errno::EOPNOTSUPP);
    }
    if inode.i_mode & MODE_TYPE_MASK != MODE_DIR {
        return Err(Errno::ENOTDIR);
    }
    ensure_dir_writable(inode)
}

/// Why a rename source of one type cannot replace a target of another, if it cannot.
pub open spec fn rename_type_error(source_mode_type: u16, target_mode_type: u16) -> Option<Errno> {
    if source_mode_type == MODE_DIR && target_mode_type != MODE_DIR {
        Some(Errno::ENOTDIR)
    } else if source_mode_type != MODE_DIR && target_mode_type == MODE_DIR {
        Some(Errno::EISDIR)
    } else {
        None
    }
}

/// Checks that a directory replaces only a directory, and a non-directory only a
/// non-directory.
pub fn check_rename_target_type(source_mode_type: u16, target_mode_type: u16) -> (r: SysResult<()>)
    ensures
        r == check_result(rename_type_error(source_mode_type, target_mode_type)),
{
    if source_mode_type == MODE_DIR && target_mode_type != MODE_DIR {
        return Err(Errno::ENOTDIR);
    }
    if source_mode_type != MODE_DIR && target_mode_type == MODE_DIR {
        return Err(Errno::EISDIR);
    }
    Ok(())
}

/// The file type a directory entry's type code names.
pub open spec fn file_type_of_code(ft: u8) -> FileType {
    if ft == 1 { FileType::Regular }
    else if ft == 2 { FileType::Directory }
    else if ft == 3 { FileType::CharDevice }
    else if ft == 4 { FileType::BlockDevice }
    else if ft == 5 { FileType::Fifo }
    else if ft == 6 { FileType::Socket }
    else if ft == 7 { FileType::Symlink }
    else { FileType::Unknown }
}

/// The file type read from a directory entry agrees with the inode it was written for: the
/// entry type code that a mode's type bits give names, when read back, the mode's own file type.
pub proof fn law_entry_type_agrees_with_mode(mode: u16)
    ensures
        dirent_type_of(mode) matches Some(t) ==> file_type_of_code(spec_file_type_code(t))
            == crate::vfs::spec_file_type_of_mode(mode as u32),
{
    assert((mode as u32) & 0o170000u32 == ((mode & 0xF000u16) as u32)) by (bit_vector);
}

/// The ext4 directory entry type codes: 1 regular file, 2 directory, 3 character device,
/// 4 block device, 5 FIFO, 6 socket, 7 symbolic link; any other code names no known type.
pub proof fn law_entry_type_codes(ft: u8)
    ensures
        ft == 1 <==> file_type_of_code(ft) == FileType::Regular,
        ft == 2 <==> file_type_of_code(ft) == FileType::Directory,
        ft == 3 <==> file_type_of_code(ft) == FileType::CharDevice,
        ft == 4 <==> file_type_of_code(ft) == FileType::BlockDevice,
        ft == 5 <==> file_type_of_code(ft) == FileType::Fifo,
        ft == 6 <==> file_type_of_code(ft) == FileType::Socket,
        ft == 7 <==> file_type_of_code(ft) == FileType::Symlink,
        (ft == 0 || ft > 7) <==> file_type_of_code(ft) == FileType::Unknown,
{
}

/// The file type a directory entry's type code names.
pub fn ext4_file_type(ft: u8) -> (r: FileType)
    ensures
        r == file_type_of_code(ft),
{
    match Ext4DirEntryFileType::try_from_u8(ft) {
        Some(Ext4DirEntryFileType::Regular) => FileType::Regular,
        Some(Ext4DirEntryFileType::Directory) => FileType::Directory,
        Some(Ext4DirEntryFileType::CharacterDevice) => FileType::CharDevice,
        Some(Ext4DirEntryFileType::BlockDevice) => FileType::BlockDevice,
        Some(Ext4DirEntryFileType::Fifo) => FileType::Fifo,
        Some(Ext4DirEntryFileType::Socket) => FileType::Socket,
        Some(Ext4DirEntryFileType::Symlink) => FileType::Symlink,
        Some(Ext4DirEntryFileType::Unknown) => FileType::Unknown,
        None => FileType::Unknown,
    }
}

/// What a directory listing reports of an entry: its inode, its name bytes (and their length)
/// and its type.
pub fn to_dir_result(entry: &DirEntry2) -> (r: DirResult)
    requires
        entry.name@.len() <= u16::MAX,
        super::dir::dirent_wf(*entry),
    ensures
        r.ino == entry.inode,
        r.name@ == entry.name@,
        r.file_type == file_type_of_code(entry.file_type),
        r.len == entry.name@.len(),
{
    let name = vstd::slice::slice_to_vec(entry.name_slice());
    assert(entry.name@.subrange(0, entry.name@.len() as int) =~= entry.name@);
    let len = name.len() as u16;
    DirResult { name, ino: entry.inode, file_type: ext4_file_type(entry.file_type), len }
}

/// A regular file whose data lives in blocks (not inline) goes through the page cache.
pub open spec fn cacheable(i: Ext4Inode) -> bool {
    mode_type(i.i_mode) == MODE_REG && !has_bits(i.i_flags, INODE_FLAG_INLINE_DATA)
}

/// Whether the file's data goes through the page cache.
pub fn is_cacheable_file(inode: &Ext4Inode) -> (r: bool)
    ensures
        r == cacheable(*inode),
{
    inode.i_mode & MODE_TYPE_MASK == MODE_REG && !flags_contain(inode.i_flags, INODE_FLAG_INLINE_DATA)
}

/// Why the file's data cannot be reached through extents, if it cannot.
pub open spec fn extent_data_error(i: Ext4Inode) -> Option<Errno> {
    if has_bits(i.i_flags, INODE_FLAG_INLINE_DATA) {
        Some(Errno::EOPNOTSUPP)
    } else if !has_bits(i.i_flags, INODE_FLAG_EXTENTS) {
        Some(Errno::EOPNOTSUPP)
    } else {
        None
    }
}

/// Checks that the file's data lives in extent-mapped blocks.
pub fn ensure_extent_data_supported(inode: &Ext4Inode) -> (r: SysResult<()>)
    ensures
        r == check_result(extent_data_error(*inode)),
{
    if flags_contain(inode.i_flags, INODE_FLAG_INLINE_DATA) {
        return Err(Errno::EOPNOTSUPP);
    }
    if !flags_contain(inode.i_flags, INODE_FLAG_EXTENTS) {
        return Err(Errno::EOPNOTSUPP);
    }
    Ok(())
}

/// What checking a write of `len` bytes at `offset` gives: the end offset, or the error
/// (`EISDIR` for a directory, `EINVAL` for another non-regular file or an end past `usize`).
pub open spec fn regular_write_end(i: Ext4Inode, offset: int, len: int) -> SysResult<usize> {
    if mode_type(i.i_mode) == MODE_DIR {
        Err(Errno::EISDIR)
    } else if mode_type(i.i_mode) != MODE_REG {
        Err(Errno::EINVAL)
    } else {
        match extent_data_error(i) {
            Some(e) => Err(e),
            None => if offset + len > usize::MAX { Err(Errno::EINVAL) } else { Ok((offset + len) as usize) },
        }
    }
}

/// Checks a write of `len` bytes at `offset` into a regular, extent-mapped file and gives
/// where it ends.
pub fn validate_regular_write(inode: &Ext4Inode, offset: usize, len: usize) -> (r: SysResult<usize>)
    ensures
        r == regular_write_end(*inode, offset as int, len as int),
{
    let mode_type = inode.i_mode & MODE_TYPE_MASK;
    if mode_type == MODE_DIR {
        return Err(Errno::EISDIR);
    }
    if mode_type != MODE_REG {
        return Err(Errno::EINVAL);
    }
    ensure_extent_data_supported(inode)?;
    match offset.checked_add(len) {
        Some(end) => Ok(end),
        None => Err(Errno::EINVAL),
    }
}

} // verus!
