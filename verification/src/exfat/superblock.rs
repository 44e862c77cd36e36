//! The exFAT volume: its allocation chains, directory records and file contents, and the
//! inode numbers handed out for the files found.
use vstd::prelude::*;
use vstd::slice::slice_subrange;
use crate::blockdev::BlockDevice;
use crate::bytes::{le16, le32, le64, read_u16, read_u32, read_u64};
use crate::errno::{Errno, SysResult};
use crate::bytes::copy_into;
use crate::uapi::{FileStat, Statfs};
use crate::vfs::{statfs_flags, ST_RDONLY};
use crate::vfs::{DirResult, FileType};
use crate::exfat::info::{ExfatInfo, MIN_CLUSTER};
use crate::exfat::name::{decode_name, name_spec};

verus! {

pub const ROOT_INO: u32 = 1;
pub const DIR_ENTRY_SIZE: u64 = 32;
pub const FILE_ENTRY: u8 = 0x85;
pub const STREAM_ENTRY: u8 = 0xc0;
pub const FILENAME_ENTRY: u8 = 0xc1;
pub const ATTR_DIRECTORY: u16 = 0x10;
pub const STREAM_NO_FAT_CHAIN: u8 = 0x02;
pub const BAD_CLUSTER: u32 = 0xffff_fff7;
pub const END_CLUSTER: u32 = 0xffff_fff8;
pub const EXFAT_SUPER_MAGIC: u64 = 0x2011_bab0;

/// What identifies a file across lookups: the root, or the place of its directory entry.
#[derive(Clone, Copy, Debug, PartialEq, Eq, Structural)]
pub enum InodeKey {
    Root,
    Entry { parent_cluster: u32, entry_offset: u64 },
}

/// What the volume knows of a file it has handed an inode number to.
#[derive(Clone, Copy, Debug, PartialEq, Eq, Structural)]
pub struct InodeMeta {
    pub ino: u32,
    pub key: InodeKey,
    pub parent_ino: u32,
    pub first_cluster: u32,
    pub data_length: u64,
    pub is_dir: bool,
    pub no_fat_chain: bool,
}

/// A file found in a directory: where it is and what it is.
#[derive(Clone, Copy, Debug, PartialEq, Eq, Structural)]
pub struct RecordInfo {
    pub key: InodeKey,
    pub parent_ino: u32,
    pub first_cluster: u32,
    pub data_length: u64,
    pub is_dir: bool,
    pub no_fat_chain: bool,
}

/// A file found in a directory, with its name as UTF-8 bytes.
pub struct DirectoryRecord {
    pub info: RecordInfo,
    pub name: Vec<u8>,
}

/// The stream extension entry of a file: where its data lies and how long its name is.
#[derive(Clone, Copy, Debug, PartialEq, Eq, Structural)]
pub struct StreamEntry {
    pub no_fat_chain: bool,
    pub name_len: u8,
    pub first_cluster: u32,
    pub data_length: u64,
}

/// The mounted volume: its device, layout and the files numbered so far.
pub struct SuperBlockInner {
    pub dev: BlockDevice,
    pub info: ExfatInfo,
    pub next_ino: u32,
    pub metas: Vec<InodeMeta>,
}

/// The bytes `n` at `off` of a device holding `d`, if they lie on it.
pub open spec fn dev_read(d: Seq<u8>, off: int, n: int) -> Option<Seq<u8>> {
    if 0 <= off && off + n <= d.len() { Some(d.subrange(off, off + n)) } else { None }
}

/// `c` is a cluster of the heap.
pub open spec fn valid_cluster(info: ExfatInfo, c: int) -> bool {
    info.cluster_count + 1 <= u32::MAX && 2 <= c <= info.cluster_count + 1
}

/// The device offset of cluster `c`.
pub open spec fn cluster_offset_spec(info: ExfatInfo, c: int) -> Result<u64, Errno> {
    let sectors = (c - 2) * info.sectors_per_cluster;
    let sector = info.cluster_heap_offset + sectors;
    if !valid_cluster(info, c) || sectors > u64::MAX || sector > u64::MAX || sector * info.sector_size > u64::MAX {
        Err(Errno::EIO)
    } else {
        Ok((sector * info.sector_size) as u64)
    }
}

/// The cluster after `c` in its allocation chain: `None` at the chain's end, `EIO` for a
/// bad, free or out-of-heap entry or one that cannot be read.
pub open spec fn next_spec(d: Seq<u8>, info: ExfatInfo, c: int) -> Result<Option<u32>, Errno> {
    let table = info.fat_offset * info.sector_size;
    let off = table + c * 4;
    if !valid_cluster(info, c) || table > u64::MAX || off > u64::MAX || off + 4 > d.len() {
        Err(Errno::EIO)
    } else {
        let v = le32(d, off);
        if v == BAD_CLUSTER {
            Err(Errno::EIO)
        } else if v >= END_CLUSTER {
            Ok(None)
        } else if v >= 2 && valid_cluster(info, v) {
            Ok(Some(v as u32))
        } else {
            Err(Errno::EIO)
        }
    }
}

/// The cluster `n` steps along the chain from `c`.
pub open spec fn walk_spec(d: Seq<u8>, info: ExfatInfo, c: u32, n: nat) -> Result<Option<u32>, Errno>
    decreases n,
{
    if n == 0 {
        Ok(Some(c))
    } else {
        match next_spec(d, info, c as int) {
            Ok(Some(x)) => walk_spec(d, info, x, (n - 1) as nat),
            other => other,
        }
    }
}

/// The cluster holding byte `off` of a file, `None` when the file has no cluster there.
pub open spec fn cluster_for_spec(d: Seq<u8>, info: ExfatInfo, meta: InodeMeta, off: u64) -> Result<Option<u32>, Errno> {
    let idx = off / info.cluster_size;
    if meta.first_cluster == 0 {
        Ok(None)
    } else if meta.no_fat_chain {
        let c = meta.first_cluster + idx;
        if c > u32::MAX || !valid_cluster(info, c) {
            Err(Errno::EIO)
        } else {
            Ok(Some(c as u32))
        }
    } else if !valid_cluster(info, meta.first_cluster as int) {
        Err(Errno::EIO)
    } else {
        walk_spec(d, info, meta.first_cluster, idx as nat)
    }
}

/// The 32-byte directory entry `index` of directory `dir` and its device offset; `None`
/// past the directory's end.
pub open spec fn entry_spec(d: Seq<u8>, info: ExfatInfo, dir: InodeMeta, index: int) -> Result<Option<(Seq<u8>, u64)>, Errno> {
    let logical = index * 32;
    if index < 0 || logical > u64::MAX {
        Err(Errno::EIO)
    } else if dir.data_length != 0 && logical + 32 > dir.data_length {
        Ok(None)
    } else {
        match cluster_for_spec(d, info, dir, logical as u64) {
            Err(e) => Err(e),
            Ok(None) => Ok(None),
            Ok(Some(c)) => {
                let co = (logical as u64) % info.cluster_size;
                if co + 32 > info.cluster_size {
                    Err(Errno::EIO)
                } else {
                    match cluster_offset_spec(info, c as int) {
                        Err(e) => Err(e),
                        Ok(base) => {
                            let off = base + co;
                            if off > u64::MAX {
                                Err(Errno::EIO)
                            } else {
                                match dev_read(d, off, 32) {
                                    None => Err(Errno::EIO),
                                    Some(b) => Ok(Some((b, off as u64))),
                                }
                            }
                        },
                    }
                }
            },
        }
    }
}

/// The stream extension entry `e`.
pub open spec fn stream_of(e: Seq<u8>) -> StreamEntry {
    StreamEntry {
        no_fat_chain: e[1] & STREAM_NO_FAT_CHAIN != 0,
        name_len: e[3],
        first_cluster: le32(e, 20) as u32,
        data_length: le64(e, 24) as u64,
    }
}

/// The fifteen name units of a file name entry `e`.
pub open spec fn name_units_of(e: Seq<u8>) -> Seq<u16> {
    Seq::new(15, |i: int| le16(e, 2 + 2 * i) as u16)
}

/// The stream and name units known after the secondary entry `e`.
pub open spec fn scan_step(acc: (Option<StreamEntry>, Seq<u16>), e: Seq<u8>) -> (Option<StreamEntry>, Seq<u16>) {
    if e[0] == STREAM_ENTRY {
        (Some(stream_of(e)), acc.1)
    } else if e[0] == FILENAME_ENTRY {
        (acc.0, acc.1 + name_units_of(e))
    } else {
        acc
    }
}

/// The stream and name units of the first `n` secondary entries after entry `index`.
pub open spec fn scan_spec(d: Seq<u8>, info: ExfatInfo, dir: InodeMeta, index: int, n: nat)
    -> Result<(Option<StreamEntry>, Seq<u16>), Errno>
    decreases n,
{
    if n == 0 {
        Ok((None, Seq::empty()))
    } else {
        match scan_spec(d, info, dir, index, (n - 1) as nat) {
            Err(e) => Err(e),
            Ok(acc) => match entry_spec(d, info, dir, index + n) {
                Err(e) => Err(e),
                Ok(None) => Err(Errno::EIO),
                Ok(Some(p)) => Ok(scan_step(acc, p.0)),
            },
        }
    }
}

/// A failure among the first secondary entries is the failure of the whole scan.
proof fn lemma_scan_err(d: Seq<u8>, info: ExfatInfo, dir: InodeMeta, index: int, n: nat, m: nat)
    requires
        n <= m,
        scan_spec(d, info, dir, index, n) is Err,
    ensures
        scan_spec(d, info, dir, index, m) == scan_spec(d, info, dir, index, n),
    decreases m,
{
    if n < m {
        lemma_scan_err(d, info, dir, index, n, (m - 1) as nat);
    }
}

/// The file that the file entry `fe` at device offset `off`, entry `index` of `dir`, and its
/// `sc` secondary entries describe; `None` for a set without a stream or with an empty name.
pub open spec fn set_spec(d: Seq<u8>, info: ExfatInfo, dir: InodeMeta, fe: Seq<u8>, off: u64, index: int, sc: nat)
    -> Result<Option<(RecordInfo, Seq<u8>)>, Errno>
{
    match scan_spec(d, info, dir, index, sc) {
        Err(e) => Err(e),
        Ok((None, _)) => Ok(None),
        Ok((Some(st), units)) => if st.name_len > units.len() {
            Err(Errno::EIO)
        } else {
            match name_spec(units.subrange(0, st.name_len as int)) {
                Err(e) => Err(e),
                Ok(name) => if name.len() == 0 {
                    Ok(None)
                } else {
                    Ok(Some((RecordInfo {
                        key: InodeKey::Entry { parent_cluster: dir.first_cluster, entry_offset: off },
                        parent_ino: dir.ino,
                        first_cluster: st.first_cluster,
                        data_length: st.data_length,
                        is_dir: (le16(fe, 4) as u16) & ATTR_DIRECTORY != 0,
                        no_fat_chain: st.no_fat_chain,
                    }, name)))
                },
            }
        },
    }
}

/// `r` put in front of `rest`, when there is one.
pub open spec fn opt_cons(r: Option<(RecordInfo, Seq<u8>)>, rest: Seq<(RecordInfo, Seq<u8>)>) -> Seq<(RecordInfo, Seq<u8>)> {
    match r {
        Some(x) => seq![x] + rest,
        None => rest,
    }
}

/// The files recorded in directory `dir` from entry `index` on, in entry order.
pub open spec fn records_spec(d: Seq<u8>, info: ExfatInfo, dir: InodeMeta, index: int)
    -> Result<Seq<(RecordInfo, Seq<u8>)>, Errno>
    decreases 0x1000_0000_0000_0000 - index,
{
    if index < 0 || index * 32 > u64::MAX {
        Err(Errno::EIO)
    } else {
        match entry_spec(d, info, dir, index) {
            Err(e) => Err(e),
            Ok(None) => Ok(Seq::empty()),
            Ok(Some(p)) => {
                let e = p.0;
                if e[0] == 0 {
                    Ok(Seq::empty())
                } else if e[0] == FILE_ENTRY && e[1] == 0 {
                    records_spec(d, info, dir, index + 1)
                } else if e[0] == FILE_ENTRY {
                    match set_spec(d, info, dir, e, p.1, index, e[1] as nat) {
                        Err(x) => Err(x),
                        Ok(r) => match records_spec(d, info, dir, index + e[1] + 1) {
                            Err(x) => Err(x),
                            Ok(rest) => Ok(opt_cons(r, rest)),
                        },
                    }
                } else {
                    records_spec(d, info, dir, index + 1)
                }
            },
        }
    }
}

/// The one-or-none records of an entry set, as a listing.
pub open spec fn opt_seq(r: Option<(RecordInfo, Seq<u8>)>) -> Seq<(RecordInfo, Seq<u8>)> {
    match r {
        Some(x) => seq![x],
        None => Seq::empty(),
    }
}

proof fn lemma_prepend_records(a: Seq<(RecordInfo, Seq<u8>)>, b: Seq<(RecordInfo, Seq<u8>)>, rest: Result<Seq<(RecordInfo, Seq<u8>)>, Errno>)
    ensures
        prepend_records(a, prepend_records(b, rest)) == prepend_records(a + b, rest),
{
    match rest {
        Ok(x) => {
            assert(a + (b + x) =~= (a + b) + x);
        },
        Err(_) => {},
    }
}

/// Every file recorded in a directory has that directory as its parent.
pub proof fn lemma_records_parent(d: Seq<u8>, info: ExfatInfo, dir: InodeMeta, index: int)
    ensures
        records_spec(d, info, dir, index) matches Ok(l) ==> forall|k: int| 0 <= k < l.len() ==> (#[trigger] l[k]).0.parent_ino == dir.ino,
    decreases 0x1000_0000_0000_0000 - index,
{
    if index >= 0 && index * 32 <= u64::MAX {
        match entry_spec(d, info, dir, index) {
            Ok(Some(p)) => {
                let e = p.0;
                if e[0] != 0 {
                    if e[0] == FILE_ENTRY && e[1] != 0 {
                        lemma_records_parent(d, info, dir, index + e[1] + 1);
                        match records_spec(d, info, dir, index) {
                            Ok(l) => {
                                let r = set_spec(d, info, dir, e, p.1, index, e[1] as nat)->Ok_0;
                                let rest = records_spec(d, info, dir, index + e[1] + 1)->Ok_0;
                                assert forall|k: int| 0 <= k < l.len() implies (#[trigger] l[k]).0.parent_ino == dir.ino by {
                                    match r {
                                        Some(x) => {
                                            if k > 0 {
                                                assert(l[k] == rest[k - 1]);
                                            }
                                        },
                                        None => {},
                                    }
                                }
                            },
                            Err(_) => {},
                        }
                    } else {
                        lemma_records_parent(d, info, dir, index + 1);
                    }
                }
            },
            _ => {},
        }
    }
}

/// The records of a vector, as values.
pub open spec fn records_view(v: Seq<DirectoryRecord>) -> Seq<(RecordInfo, Seq<u8>)> {
    Seq::new(v.len(), |i: int| (v[i].info, v[i].name@))
}

/// `a` put in front of the rest of a listing, when the rest can be read.
pub open spec fn prepend_records(a: Seq<(RecordInfo, Seq<u8>)>, rest: Result<Seq<(RecordInfo, Seq<u8>)>, Errno>)
    -> Result<Seq<(RecordInfo, Seq<u8>)>, Errno>
{
    match rest {
        Ok(s) => Ok(a + s),
        Err(e) => Err(e),
    }
}

/// The file numbered `ino`, if the volume has handed that number out.
pub open spec fn meta_of(s: Seq<InodeMeta>, ino: int) -> Option<InodeMeta> {
    if 1 <= ino <= s.len() { Some(s[ino - 1]) } else { None }
}

/// The inode number already given to the file at `key`, if any.
pub open spec fn known_ino(s: Seq<InodeMeta>, key: InodeKey) -> Option<u32> {
    if exists|k: int| 0 <= k < s.len() && (#[trigger] s[k]).key == key {
        Some(s[choose|k: int| 0 <= k < s.len() && (#[trigger] s[k]).key == key].ino)
    } else {
        None
    }
}

/// What the volume knows of a file found in a directory once it is numbered `ino`.
pub open spec fn meta_from(rec: RecordInfo, ino: u32) -> InodeMeta {
    InodeMeta {
        ino,
        key: rec.key,
        parent_ino: rec.parent_ino,
        first_cluster: rec.first_cluster,
        data_length: rec.data_length,
        is_dir: rec.is_dir,
        no_fat_chain: rec.no_fat_chain,
    }
}

/// The number of the file `rec` and the numbered files after it is numbered: its earlier
/// number, or the next one.
pub open spec fn ensure_spec(s: Seq<InodeMeta>, rec: RecordInfo) -> (u32, Seq<InodeMeta>) {
    match known_ino(s, rec.key) {
        Some(ino) => (ino, s),
        None => ((s.len() + 1) as u32, s.push(meta_from(rec, (s.len() + 1) as u32))),
    }
}

/// The position of the first record named `name`.
pub open spec fn first_named(l: Seq<(RecordInfo, Seq<u8>)>, name: Seq<u8>) -> Option<int> {
    if exists|k: int| 0 <= k < l.len() && (#[trigger] l[k]).1 == name {
        Some(choose|k: int| 0 <= k < l.len() && (#[trigger] l[k]).1 == name
            && forall|j: int| 0 <= j < k ==> (#[trigger] l[j]).1 != name)
    } else {
        None
    }
}

/// The size a file reports: a directory without a recorded length is one cluster long.
pub open spec fn size_of(info: ExfatInfo, m: InodeMeta) -> u64 {
    if m.is_dir && m.data_length == 0 { info.cluster_size } else { m.data_length }
}

/// The mode a file reports: its type and read and execute permission for all.
pub open spec fn mode_of(m: InodeMeta) -> u32 {
    if m.is_dir { 0o040555 } else { 0o100555 }
}

/// The `stat` record of file `ino`.
pub open spec fn stat_of(info: ExfatInfo, ino: u32, m: InodeMeta) -> FileStat {
    FileStat {
        st_ino: ino as u64,
        st_mode: mode_of(m),
        st_nlink: if m.is_dir { 2 } else { 1 },
        st_size: (size_of(info, m) as int % 0x1_0000_0000_0000_0000) as i64,
        st_blksize: (info.cluster_size as u32) as i32,
        st_blocks: (size_of(info, m) / 512 + if size_of(info, m) % 512 != 0 { 1int } else { 0int }) as u64,
        ..FileStat::zeroed_spec()
    }
}

/// The next cluster of a file's data after `c`.
pub open spec fn advance_spec(d: Seq<u8>, info: ExfatInfo, meta: InodeMeta, c: u32) -> Result<u32, Errno> {
    if meta.no_fat_chain {
        if c + 1 > u32::MAX || !valid_cluster(info, c + 1) { Err(Errno::EIO) } else { Ok((c + 1) as u32) }
    } else {
        match next_spec(d, info, c as int) {
            Err(e) => Err(e),
            Ok(None) => Err(Errno::EIO),
            Ok(Some(x)) => Ok(x),
        }
    }
}

/// The `remaining` bytes of a file from position `current`, which lies in cluster `c`.
pub open spec fn chunks_spec(d: Seq<u8>, info: ExfatInfo, meta: InodeMeta, c: u32, current: int, remaining: int)
    -> Result<Seq<u8>, Errno>
    decreases remaining,
{
    if remaining <= 0 || info.cluster_size == 0 || current < 0 {
        Ok(Seq::empty())
    } else {
        let co = current % (info.cluster_size as int);
        let n = if remaining < info.cluster_size - co { remaining } else { info.cluster_size - co };
        match cluster_offset_spec(info, c as int) {
            Err(e) => Err(e),
            Ok(base) => if base + co > u64::MAX {
                Err(Errno::EIO)
            } else {
                match dev_read(d, base + co, n) {
                    None => Err(Errno::EIO),
                    Some(bytes) => if n == remaining {
                        Ok(bytes)
                    } else {
                        match advance_spec(d, info, meta, c) {
                            Err(e) => Err(e),
                            Ok(c2) => match chunks_spec(d, info, meta, c2, current + n, remaining - n) {
                                Err(e) => Err(e),
                                Ok(rest) => Ok(bytes + rest),
                            },
                        }
                    },
                }
            },
        }
    }
}

/// The bytes that reading `buf_len` bytes at `off` of the regular file `meta` gives.
pub open spec fn read_spec(d: Seq<u8>, info: ExfatInfo, meta: InodeMeta, off: int, buf_len: int) -> Result<Seq<u8>, Errno> {
    if meta.is_dir {
        Err(Errno::EISDIR)
    } else if buf_len == 0 || off >= meta.data_length {
        Ok(Seq::empty())
    } else {
        let n = if buf_len < meta.data_length - off { buf_len } else { meta.data_length - off };
        match cluster_for_spec(d, info, meta, off as u64) {
            Err(e) => Err(e),
            Ok(None) => Err(Errno::EIO),
            Ok(Some(c)) => chunks_spec(d, info, meta, c, off, n),
        }
    }
}

/// `a` put in front of the rest of a read, when the rest can be read.
pub open spec fn prepend_bytes(a: Seq<u8>, rest: Result<Seq<u8>, Errno>) -> Result<Seq<u8>, Errno> {
    match rest {
        Ok(s) => Ok(a + s),
        Err(e) => Err(e),
    }
}

/// What looking `name` up in directory `ino` answers (`r`), and the numbered files after it
/// (`t`), on a device holding `d` with files `s` numbered before.
pub open spec fn lookup_outcome(d: Seq<u8>, info: ExfatInfo, s: Seq<InodeMeta>, ino: u32, name: Seq<u8>, r: SysResult<u32>, t: Seq<InodeMeta>) -> bool {
    match meta_of(s, ino as int) {
        None => r == Err::<u32, Errno>(Errno::ENOENT) && t == s,
        Some(m) => if !m.is_dir {
            r == Err::<u32, Errno>(Errno::ENOTDIR) && t == s
        } else if name == seq![0x2eu8] {
            r == Ok::<u32, Errno>(m.ino) && t == s
        } else if name == seq![0x2eu8, 0x2eu8] {
            r == Ok::<u32, Errno>(m.parent_ino) && t == s
        } else {
            match records_spec(d, info, m, 0) {
                Err(e) => r == Err::<u32, Errno>(e) && t == s,
                Ok(l) => match first_named(l, name) {
                    None => r == Err::<u32, Errno>(Errno::ENOENT) && t == s,
                    Some(k) => (r->Ok_0, t) == ensure_spec(s, l[k].0) && r is Ok,
                },
            }
        },
    }
}

/// Looking up `name` in directory `ino` reaches a file that has no number yet.
pub open spec fn lookup_numbers_new(d: Seq<u8>, info: ExfatInfo, s: Seq<InodeMeta>, ino: u32, name: Seq<u8>) -> bool {
    &&& meta_of(s, ino as int) matches Some(m)
    &&& m.is_dir
    &&& name != seq![0x2eu8]
    &&& name != seq![0x2eu8, 0x2eu8]
    &&& records_spec(d, info, m, 0) matches Ok(l)
    &&& first_named(l, name) matches Some(k)
    &&& known_ino(s, l[k].0.key) is None
}

/// Asking for entry `index` of directory `ino` reaches a file that has no number yet.
pub open spec fn dent_numbers_new(d: Seq<u8>, info: ExfatInfo, s: Seq<InodeMeta>, ino: u32, index: usize) -> bool {
    &&& meta_of(s, ino as int) matches Some(m)
    &&& m.is_dir
    &&& index >= 2
    &&& records_spec(d, info, m, 0) matches Ok(l)
    &&& index - 2 < l.len()
    &&& index < usize::MAX
    &&& known_ino(s, l[index - 2].0.key) is None
}

/// What asking for entry `index` of directory `ino` answers (`r`), and the numbered files
/// after it (`t`), on a device holding `d` with files `s` numbered before.
pub open spec fn dent_outcome(d: Seq<u8>, info: ExfatInfo, s: Seq<InodeMeta>, ino: u32, index: usize,
    r: SysResult<Option<(DirResult, usize)>>, t: Seq<InodeMeta>) -> bool {
    match meta_of(s, ino as int) {
        None => r matches Err(e) && e == Errno::ENOENT && t == s,
        Some(m) => if !m.is_dir {
            r matches Err(e) && e == Errno::ENOTDIR && t == s
        } else if index == 0 {
            r matches Ok(Some(p)) && p.0.name@ == seq![0x2eu8] && p.0.ino == m.ino
                && p.0.file_type == FileType::Directory && p.0.len == 1 && p.1 == 1
                && t == s
        } else if index == 1 {
            r matches Ok(Some(p)) && p.0.name@ == seq![0x2eu8, 0x2eu8] && p.0.ino == m.parent_ino
                && p.0.file_type == FileType::Directory && p.0.len == 2 && p.1 == 2
                && t == s
        } else {
            match records_spec(d, info, m, 0) {
                Err(e) => r matches Err(x) && x == e && t == s,
                Ok(l) => if index - 2 < l.len() && index < usize::MAX {
                    let rec = l[index - 2];
                    let numbered = ensure_spec(s, rec.0);
                    r matches Ok(Some(p)) && p.0.name@ == rec.1 && p.0.ino == numbered.0
                        && p.0.file_type == (if rec.0.is_dir { FileType::Directory } else { FileType::Regular })
                        && p.0.len == rec.1.len() as u16 && p.1 == index + 1
                        && t == numbered.1
                } else {
                    r matches Ok(None) && t == s
                },
            }
        },
    }
}

/// Looking a name up again gives the number the first lookup gave, and numbers nothing new.
pub proof fn law_lookup_stable(d: Seq<u8>, info: ExfatInfo, s: Seq<InodeMeta>, dir: u32, name: Seq<u8>,
    i: u32, t: Seq<InodeMeta>, r2: SysResult<u32>, t2: Seq<InodeMeta>)
    requires
        lookup_outcome(d, info, s, dir, name, Ok(i), t),
        lookup_outcome(d, info, t, dir, name, r2, t2),
    ensures
        r2 == Ok::<u32, Errno>(i),
        t2 == t,
{
    let m = meta_of(s, dir as int)->Some_0;
    if t != s {
        assert(t[dir - 1] == s[dir - 1]);
    }
    assert(meta_of(t, dir as int) == meta_of(s, dir as int));
    if m.is_dir && name != seq![0x2eu8] && name != seq![0x2eu8, 0x2eu8] {
        let l = records_spec(d, info, m, 0)->Ok_0;
        let k = first_named(l, name)->Some_0;
        let key = l[k].0.key;
        match known_ino(s, key) {
            Some(_) => {},
            None => {
                let n = s.len() as int;
                assert(t[n].key == key);
                let q = choose|q: int| 0 <= q < t.len() && (#[trigger] t[q]).key == key;
                if q < n {
                    assert(s[q].key == key);
                }
            },
        }
    }
}

/// A number that a lookup answers is one the volume has handed out.
pub proof fn law_lookup_numbered(d: Seq<u8>, info: ExfatInfo, s: Seq<InodeMeta>, dir: u32, name: Seq<u8>,
    i: u32, t: Seq<InodeMeta>)
    requires
        lookup_outcome(d, info, s, dir, name, Ok(i), t),
        forall|k: int| 0 <= k < s.len() ==> (#[trigger] s[k]).ino == k + 1,
        forall|k: int| 0 <= k < s.len() ==> 1 <= (#[trigger] s[k]).parent_ino <= s.len(),
        s.len() < u32::MAX,
    ensures
        meta_of(t, i as int) is Some,
{
    let m = meta_of(s, dir as int)->Some_0;
    if m.is_dir && name != seq![0x2eu8] && name != seq![0x2eu8, 0x2eu8] {
        let l = records_spec(d, info, m, 0)->Ok_0;
        let k = first_named(l, name)->Some_0;
        let key = l[k].0.key;
        match known_ino(s, key) {
            Some(_) => {
                let q = choose|q: int| 0 <= q < s.len() && (#[trigger] s[q]).key == key;
                assert(s[q].ino == q + 1);
            },
            None => {},
        }
    } else if m.is_dir {
        assert(s[dir - 1].ino == dir);
        assert(1 <= s[dir - 1].parent_ino <= s.len());
    }
}

impl SuperBlockInner {
    /// The layout is usable: clusters have a size and inode numbers are dense from the root.
    pub open spec fn wf(&self) -> bool {
        &&& self.info.cluster_size > 0
        &&& self.next_ino == self.metas@.len() + 1
        &&& self.metas@.len() >= 1
        &&& forall|i: int| 0 <= i < self.metas@.len() ==> (#[trigger] self.metas@[i]).ino == i + 1
        &&& forall|i: int| 0 <= i < self.metas@.len() ==> 1 <= (#[trigger] self.metas@[i]).parent_ino <= self.metas@.len()
        &&& forall|i: int, j: int| #![trigger self.metas@[i], self.metas@[j]]
            0 <= i < j < self.metas@.len() ==> self.metas@[i].key != self.metas@[j].key
    }

    /// Reads the `n` bytes at device offset `off`; `EIO` where they leave the device.
    fn read_at(&self, off: u64, n: usize) -> (r: SysResult<Vec<u8>>)
        ensures
            match dev_read(self.dev@, off as int, n as int) {
                Some(b) => r matches Ok(v) && v@ == b,
                None => r == Err::<Vec<u8>, Errno>(Errno::EIO),
            },
    {
        let size = self.dev.size();
        if off > usize::MAX as u64 {
            return Err(Errno::EIO);
        }
        let mut buf: Vec<u8> = vec![0u8; n];
        match self.dev.read_at(off as usize, &mut buf) {
            Ok(()) => Ok(buf),
            Err(()) => Err(Errno::EIO),
        }
    }

    /// Whether `cluster` is a cluster of the heap; `EIO` if not.
    fn check_cluster(&self, cluster: u32) -> (r: SysResult<()>)
        ensures
            r is Ok <==> valid_cluster(self.info, cluster as int),
            r is Err ==> r == Err::<(), Errno>(Errno::EIO),
    {
        let max_cluster = match self.info.cluster_count.checked_add(1) {
            Some(m) => m,
            None => {
                return Err(Errno::EIO);
            },
        };
        if MIN_CLUSTER <= cluster && cluster <= max_cluster {
            Ok(())
        } else {
            Err(Errno::EIO)
        }
    }

    /// The device offset of `cluster`.
    fn cluster_offset(&self, cluster: u32) -> (r: SysResult<u64>)
        ensures
            r == cluster_offset_spec(self.info, cluster as int),
    {
        self.check_cluster(cluster)?;
        let cluster_index = (cluster - MIN_CLUSTER) as u64;
        let sectors = match cluster_index.checked_mul(self.info.sectors_per_cluster) {
            Some(v) => v,
            None => {
                return Err(Errno::EIO);
            },
        };
        let sector = match self.info.cluster_heap_offset.checked_add(sectors) {
            Some(v) => v,
            None => {
                return Err(Errno::EIO);
            },
        };
        match sector.checked_mul(self.info.sector_size) {
            Some(v) => Ok(v),
            None => Err(Errno::EIO),
        }
    }

    /// The cluster after `cluster` in its allocation chain.
    fn next_cluster(&self, cluster: u32) -> (r: SysResult<Option<u32>>)
        ensures
            r == next_spec(self.dev@, self.info, cluster as int),
    {
        self.check_cluster(cluster)?;
        let table = match self.info.fat_offset.checked_mul(self.info.sector_size) {
            Some(v) => v,
            None => {
                return Err(Errno::EIO);
            },
        };
        let fat_offset = match table.checked_add(cluster as u64 * 4) {
            Some(v) => v,
            None => {
                return Err(Errno::EIO);
            },
        };
        let raw = self.read_at(fat_offset, 4)?;
        let next = read_u32(&raw, 0);
        proof {
            assert(raw@ == self.dev@.subrange(fat_offset as int, fat_offset + 4));
            assert(le32(raw@, 0) == le32(self.dev@, fat_offset as int));
        }
        if next == BAD_CLUSTER {
            Err(Errno::EIO)
        } else if next >= END_CLUSTER {
            Ok(None)
        } else if next >= MIN_CLUSTER {
            self.check_cluster(next)?;
            Ok(Some(next))
        } else {
            Err(Errno::EIO)
        }
    }

    /// The cluster holding byte `logical_offset` of the file `meta`.
    fn cluster_for_logical_offset(&self, meta: &InodeMeta, logical_offset: u64) -> (r: SysResult<Option<u32>>)
        requires
            self.wf(),
        ensures
            r == cluster_for_spec(self.dev@, self.info, *meta, logical_offset),
    {
        if meta.first_cluster == 0 {
            return Ok(None);
        }
        let cluster_index = logical_offset / self.info.cluster_size;
        if meta.no_fat_chain {
            if cluster_index > u32::MAX as u64 {
                return Err(Errno::EIO);
            }
            let cluster = match meta.first_cluster.checked_add(cluster_index as u32) {
                Some(c) => c,
                None => {
                    return Err(Errno::EIO);
                },
            };
            self.check_cluster(cluster)?;
            return Ok(Some(cluster));
        }
        let mut cluster = meta.first_cluster;
        self.check_cluster(cluster)?;
        let mut i: u64 = 0;
        while i < cluster_index
            invariant
                i <= cluster_index,
                meta.first_cluster != 0,
                !meta.no_fat_chain,
                valid_cluster(self.info, meta.first_cluster as int),
                self.info.cluster_size > 0,
                cluster_index == logical_offset / self.info.cluster_size,
                walk_spec(self.dev@, self.info, meta.first_cluster, cluster_index as nat)
                    == walk_spec(self.dev@, self.info, cluster, (cluster_index - i) as nat),
            decreases cluster_index - i,
        {
            proof {
                let n = (cluster_index - i) as nat;
                assert(walk_spec(self.dev@, self.info, cluster, n) == (match next_spec(self.dev@, self.info, cluster as int) {
                    Ok(Some(x)) => walk_spec(self.dev@, self.info, x, (n - 1) as nat),
                    other => other,
                }));
            }
            match self.next_cluster(cluster)? {
                Some(next) => {
                    cluster = next;
                },
                None => {
                    return Ok(None);
                },
            }
            i += 1;
        }
        Ok(Some(cluster))
    }

    /// Directory entry `index` of `dir` with its device offset; `None` past the directory.
    fn read_directory_entry(&self, dir: &InodeMeta, index: u64) -> (r: SysResult<Option<(Vec<u8>, u64)>>)
        requires
            self.wf(),
        ensures
            match entry_spec(self.dev@, self.info, *dir, index as int) {
                Err(e) => r == Err::<Option<(Vec<u8>, u64)>, Errno>(e),
                Ok(None) => r matches Ok(None),
                Ok(Some(p)) => r matches Ok(Some(q)) && q.0@ == p.0 && q.1 == p.1,
            },
    {
        let logical_offset = match index.checked_mul(DIR_ENTRY_SIZE) {
            Some(v) => v,
            None => {
                return Err(Errno::EIO);
            },
        };
        if dir.data_length != 0 && (dir.data_length < DIR_ENTRY_SIZE || logical_offset > dir.data_length - DIR_ENTRY_SIZE) {
            return Ok(None);
        }
        let cluster = match self.cluster_for_logical_offset(dir, logical_offset)? {
            Some(c) => c,
            None => {
                return Ok(None);
            },
        };
        let cluster_offset = logical_offset % self.info.cluster_size;
        if cluster_offset > self.info.cluster_size || self.info.cluster_size - cluster_offset < DIR_ENTRY_SIZE {
            return Err(Errno::EIO);
        }
        let base = self.cluster_offset(cluster)?;
        let device_offset = match base.checked_add(cluster_offset) {
            Some(v) => v,
            None => {
                return Err(Errno::EIO);
            },
        };
        let entry = self.read_at(device_offset, 32)?;
        Ok(Some((entry, device_offset)))
    }

    /// The file that the file entry `file_entry` at `entry_offset`, entry `entry_index` of
    /// `dir`, and its `secondary_count` secondary entries describe.
    fn parse_file_entry_set(
        &self,
        dir: &InodeMeta,
        file_entry: &[u8],
        entry_offset: u64,
        entry_index: u64,
        secondary_count: u8,
    ) -> (r: SysResult<Option<DirectoryRecord>>)
        requires
            self.wf(),
            file_entry@.len() == 32,
            entry_index * 32 <= u64::MAX,
        ensures
            match set_spec(self.dev@, self.info, *dir, file_entry@, entry_offset, entry_index as int, secondary_count as nat) {
                Err(e) => r == Err::<Option<DirectoryRecord>, Errno>(e),
                Ok(None) => r matches Ok(None),
                Ok(Some(x)) => r matches Ok(Some(rec)) && rec.info == x.0 && rec.name@ == x.1,
            },
    {
        let mut stream: Option<StreamEntry> = None;
        let mut name_units: Vec<u16> = Vec::new();
        let mut secondary_index: u8 = 0;
        while secondary_index < secondary_count
            invariant
                self.wf(),
                secondary_index <= secondary_count,
                entry_index * 32 <= u64::MAX,
                scan_spec(self.dev@, self.info, *dir, entry_index as int, secondary_index as nat) == Ok::<(Option<StreamEntry>, Seq<u16>), Errno>((stream, name_units@)),
            decreases secondary_count - secondary_index,
        {
            let ghost acc = (stream, name_units@);
            let at = entry_index + secondary_index as u64 + 1;
            let got = self.read_directory_entry(dir, at);
            proof {
                if !(got matches Ok(Some(_))) {
                    lemma_scan_err(self.dev@, self.info, *dir, entry_index as int, (secondary_index + 1) as nat, secondary_count as nat);
                }
            }
            let entry = match got? {
                Some(p) => p.0,
                None => {
                    return Err(Errno::EIO);
                },
            };
            if entry[0] == STREAM_ENTRY {
                stream = Some(StreamEntry {
                    no_fat_chain: entry[1] & STREAM_NO_FAT_CHAIN != 0,
                    name_len: entry[3],
                    first_cluster: read_u32(&entry, 20),
                    data_length: read_u64(&entry, 24),
                });
            } else if entry[0] == FILENAME_ENTRY {
                let mut unit_index: usize = 0;
                while unit_index < 15
                    invariant
                        unit_index <= 15,
                        entry@.len() == 32,
                        name_units@ == acc.1 + name_units_of(entry@).subrange(0, unit_index as int),
                    decreases 15 - unit_index,
                {
                    let u = read_u16(&entry, 2 + unit_index * 2);
                    name_units.push(u);
                    proof {
                        assert(name_units@ =~= acc.1 + name_units_of(entry@).subrange(0, unit_index + 1));
                    }
                    unit_index += 1;
                }
                proof {
                    assert(name_units_of(entry@).subrange(0, 15) =~= name_units_of(entry@));
                }
            }
            proof {
                assert(scan_spec(self.dev@, self.info, *dir, entry_index as int, (secondary_index + 1) as nat)
                    == Ok::<(Option<StreamEntry>, Seq<u16>), Errno>(scan_step(acc, entry@)));
            }
            secondary_index += 1;
        }
        let st = match stream {
            Some(st) => st,
            None => {
                return Ok(None);
            },
        };
        let name_len = st.name_len as usize;
        if name_len > name_units.len() {
            return Err(Errno::EIO);
        }
        let name = decode_name(slice_subrange(name_units.as_slice(), 0, name_len))?;
        if name.len() == 0 {
            return Ok(None);
        }
        let is_dir = read_u16(file_entry, 4) & ATTR_DIRECTORY != 0;
        Ok(Some(DirectoryRecord {
            info: RecordInfo {
                key: InodeKey::Entry { parent_cluster: dir.first_cluster, entry_offset },
                parent_ino: dir.ino,
                first_cluster: st.first_cluster,
                data_length: st.data_length,
                is_dir,
                no_fat_chain: st.no_fat_chain,
            },
            name,
        }))
    }

    /// The files recorded in directory `dir`, in entry order.
    fn read_directory_records(&self, dir: &InodeMeta) -> (r: SysResult<Vec<DirectoryRecord>>)
        requires
            self.wf(),
        ensures
            match records_spec(self.dev@, self.info, *dir, 0) {
                Ok(l) => r matches Ok(v) && records_view(v@) == l,
                Err(e) => r == Err::<Vec<DirectoryRecord>, Errno>(e),
            },
    {
        let mut records: Vec<DirectoryRecord> = Vec::new();
        let mut index: u64 = 0;
        proof {
            match records_spec(self.dev@, self.info, *dir, 0) {
                Ok(l) => {
                    assert(records_view(records@) + l =~= l);
                },
                Err(_) => {},
            }
        }
        loop
            invariant
                self.wf(),
                index <= 0x1000_0000_0000_0000,
                records_spec(self.dev@, self.info, *dir, 0)
                    == prepend_records(records_view(records@), records_spec(self.dev@, self.info, *dir, index as int)),
            decreases 0x1000_0000_0000_0000 - index,
        {
            let ghost a = records_view(records@);
            let ghost cur = records_spec(self.dev@, self.info, *dir, index as int);
            let got = self.read_directory_entry(dir, index)?;
            let (entry, entry_offset) = match got {
                Some(p) => p,
                None => {
                    proof {
                        assert(a + Seq::<(RecordInfo, Seq<u8>)>::empty() =~= a);
                    }
                    return Ok(records);
                },
            };
            if entry[0] == 0 {
                proof {
                    assert(a + Seq::<(RecordInfo, Seq<u8>)>::empty() =~= a);
                }
                return Ok(records);
            } else if entry[0] == FILE_ENTRY {
                let secondary_count = entry[1];
                if secondary_count == 0 {
                    index += 1;
                } else {
                    let set = self.parse_file_entry_set(dir, entry.as_slice(), entry_offset, index, secondary_count)?;
                    let ghost next = records_spec(self.dev@, self.info, *dir, index + secondary_count + 1);
                    let ghost r = set_spec(self.dev@, self.info, *dir, entry@, entry_offset, index as int, secondary_count as nat)->Ok_0;
                    proof {
                        assert(cur == prepend_records(opt_seq(r), next)) by {
                            match next {
                                Ok(rest) => {
                                    match r {
                                        Some(x) => {},
                                        None => {
                                            assert(Seq::<(RecordInfo, Seq<u8>)>::empty() + rest =~= rest);
                                        },
                                    }
                                },
                                Err(_) => {},
                            }
                        }
                        lemma_prepend_records(a, opt_seq(r), next);
                    }
                    match set {
                        Some(rec) => {
                            records.push(rec);
                            proof {
                                assert(records_view(records@) =~= a + opt_seq(r));
                            }
                        },
                        None => {
                            proof {
                                assert(records_view(records@) =~= a + opt_seq(r));
                            }
                        },
                    }
                    index += secondary_count as u64 + 1;
                }
            } else {
                index += 1;
            }
        }
    }

    /// The volume on `dev`, with only its root directory numbered.
    pub fn new(dev: BlockDevice) -> (r: SysResult<SuperBlockInner>)
        ensures
            match crate::exfat::info::read_from_spec(dev@) {
                Ok(info) => r matches Ok(sb) && sb.wf() && sb.dev@ == dev@ && sb.info == info
                    && sb.metas@ == seq![InodeMeta {
                        ino: ROOT_INO,
                        key: InodeKey::Root,
                        parent_ino: ROOT_INO,
                        first_cluster: info.root_cluster,
                        data_length: 0,
                        is_dir: true,
                        no_fat_chain: false,
                    }],
                Err(e) => r matches Err(x) && x == e,
            },
    {
        let info = ExfatInfo::read_from(&dev)?;
        let root = InodeMeta {
            ino: ROOT_INO,
            key: InodeKey::Root,
            parent_ino: ROOT_INO,
            first_cluster: info.root_cluster,
            data_length: 0,
            is_dir: true,
            no_fat_chain: false,
        };
        let mut metas: Vec<InodeMeta> = Vec::new();
        metas.push(root);
        Ok(SuperBlockInner { dev, info, next_ino: ROOT_INO + 1, metas })
    }

    /// The file numbered `ino`; `ENOENT` if the number was not handed out.
    fn get_meta(&self, ino: u32) -> (r: SysResult<InodeMeta>)
        requires
            self.wf(),
        ensures
            match meta_of(self.metas@, ino as int) {
                Some(m) => r == Ok::<InodeMeta, Errno>(m),
                None => r == Err::<InodeMeta, Errno>(Errno::ENOENT),
            },
    {
        if ino >= 1 && (ino as usize) <= self.metas.len() {
            Ok(self.metas[ino as usize - 1])
        } else {
            Err(Errno::ENOENT)
        }
    }

    /// Whether the number `ino` was handed out.
    pub fn has_inode(&self, ino: u32) -> (r: bool)
        requires
            self.wf(),
        ensures
            r == meta_of(self.metas@, ino as int).is_some(),
    {
        ino >= 1 && (ino as usize) <= self.metas.len()
    }

    /// The size that a file reports.
    fn directory_size(&self, meta: &InodeMeta) -> (r: u64)
        ensures
            r == (if meta.data_length == 0 { self.info.cluster_size } else { meta.data_length }),
    {
        if meta.data_length == 0 { self.info.cluster_size } else { meta.data_length }
    }

    /// The size of file `ino`.
    pub fn inode_size(&self, ino: u32) -> (r: SysResult<u64>)
        requires
            self.wf(),
        ensures
            match meta_of(self.metas@, ino as int) {
                Some(m) => r == Ok::<u64, Errno>(size_of(self.info, m)),
                None => r == Err::<u64, Errno>(Errno::ENOENT),
            },
    {
        let meta = self.get_meta(ino)?;
        if meta.is_dir {
            Ok(self.directory_size(&meta))
        } else {
            Ok(meta.data_length)
        }
    }

    /// The mode of file `ino`: its type with read and execute permission for all.
    pub fn inode_mode(&self, ino: u32) -> (r: SysResult<u32>)
        requires
            self.wf(),
        ensures
            match meta_of(self.metas@, ino as int) {
                Some(m) => r == Ok::<u32, Errno>(mode_of(m)),
                None => r == Err::<u32, Errno>(Errno::ENOENT),
            },
    {
        let meta = self.get_meta(ino)?;
        let file_type = if meta.is_dir { crate::vfs::S_IFDIR } else { crate::vfs::S_IFREG };
        assert(0o040000u32 | 0o555u32 == 0o040555u32 && 0o100000u32 | 0o555u32 == 0o100555u32) by (bit_vector);
        Ok(file_type | 0o555)
    }

    /// The type of file `ino`.
    pub fn inode_type(&self, ino: u32) -> (r: SysResult<FileType>)
        requires
            self.wf(),
        ensures
            match meta_of(self.metas@, ino as int) {
                Some(m) => r == Ok::<FileType, Errno>(if m.is_dir { FileType::Directory } else { FileType::Regular }),
                None => r == Err::<FileType, Errno>(Errno::ENOENT),
            },
    {
        if self.get_meta(ino)?.is_dir {
            Ok(FileType::Directory)
        } else {
            Ok(FileType::Regular)
        }
    }

    /// The `stat` record of file `ino`.
    pub fn inode_stat(&self, ino: u32) -> (r: SysResult<FileStat>)
        requires
            self.wf(),
        ensures
            match meta_of(self.metas@, ino as int) {
                Some(m) => r == Ok::<FileStat, Errno>(stat_of(self.info, ino, m)),
                None => r == Err::<FileStat, Errno>(Errno::ENOENT),
            },
    {
        let meta = self.get_meta(ino)?;
        let mut stat = FileStat::zeroed();
        stat.st_ino = ino as u64;
        stat.st_mode = self.inode_mode(ino)?;
        stat.st_nlink = if meta.is_dir { 2 } else { 1 };
        let size = if meta.is_dir { self.directory_size(&meta) } else { meta.data_length };
        stat.st_size = size as i64;
        stat.st_blksize = (self.info.cluster_size as u32) as i32;
        stat.st_blocks = size / 512 + if size % 512 != 0 { 1 } else { 0 };
        Ok(stat)
    }

    /// The number of the file `record`: its earlier number, or the next one.
    fn ensure_inode(&mut self, record: &RecordInfo) -> (r: u32)
        requires
            old(self).wf(),
            old(self).next_ino < u32::MAX || known_ino(old(self).metas@, record.key) is Some,
            1 <= record.parent_ino <= old(self).metas@.len(),
        ensures
            final(self).wf(),
            final(self).dev@ == old(self).dev@,
            final(self).info == old(self).info,
            (r, final(self).metas@) == ensure_spec(old(self).metas@, *record),
    {
        let mut i: usize = 0;
        while i < self.metas.len()
            invariant
                self.wf(),
                i <= self.metas@.len(),
                self.metas@ == old(self).metas@,
                self.next_ino == old(self).next_ino,
                self.dev@ == old(self).dev@,
                self.info == old(self).info,
                forall|k: int| 0 <= k < i ==> (#[trigger] self.metas@[k]).key != record.key,
            decreases self.metas@.len() - i,
        {
            if self.metas[i].key == record.key {
                proof {
                    let s = self.metas@;
                    let k = choose|k: int| 0 <= k < s.len() && (#[trigger] s[k]).key == record.key;
                    if k != i {
                        if k < i {
                            assert(s[k].key != s[i as int].key);
                        } else {
                            assert(s[i as int].key != s[k].key);
                        }
                    }
                }
                return self.metas[i].ino;
            }
            i += 1;
        }
        proof {
            if known_ino(self.metas@, record.key) is Some {
                let k = choose|k: int| 0 <= k < self.metas@.len() && (#[trigger] self.metas@[k]).key == record.key;
                assert(self.metas@[k].key != record.key);
            }
        }
        let ino = self.next_ino;
        self.next_ino = self.next_ino + 1;
        let meta = InodeMeta {
            ino,
            key: record.key,
            parent_ino: record.parent_ino,
            first_cluster: record.first_cluster,
            data_length: record.data_length,
            is_dir: record.is_dir,
            no_fat_chain: record.no_fat_chain,
        };
        self.metas.push(meta);
        ino
    }

    /// The number of the file named `name` in directory `ino`, numbering it if it is new;
    /// `.` and `..` name the directory and its parent.
    pub fn lookup(&mut self, ino: u32, name: &[u8]) -> (r: SysResult<u32>)
        requires
            old(self).wf(),
            old(self).next_ino < u32::MAX || !lookup_numbers_new(old(self).dev@, old(self).info, old(self).metas@, ino, name@),
        ensures
            final(self).wf(),
            final(self).dev@ == old(self).dev@,
            final(self).info == old(self).info,
            lookup_outcome(old(self).dev@, old(self).info, old(self).metas@, ino, name@, r, final(self).metas@),
    {
        let meta = self.get_meta(ino)?;
        if !meta.is_dir {
            return Err(Errno::ENOTDIR);
        }
        if name.len() == 1 && name[0] == 0x2e {
            assert(name@ =~= seq![0x2eu8]);
            return Ok(meta.ino);
        }
        if name.len() == 2 && name[0] == 0x2e && name[1] == 0x2e {
            assert(name@ =~= seq![0x2eu8, 0x2eu8]);
            return Ok(meta.parent_ino);
        }
        proof {
            if name@ == seq![0x2eu8] {
                assert(name@.len() == 1 && name@[0] == 0x2e);
            }
            if name@ == seq![0x2eu8, 0x2eu8] {
                assert(name@.len() == 2 && name@[0] == 0x2e && name@[1] == 0x2e);
            }
        }
        let records = self.read_directory_records(&meta)?;
        let ghost l = records_view(records@);
        proof {
            lemma_records_parent(self.dev@, self.info, meta, 0);
            assert(meta.ino == ino);
        }
        let mut i: usize = 0;
        while i < records.len()
            invariant
                meta_of(old(self).metas@, ino as int) == Some(meta),
                meta.is_dir,
                name@ != seq![0x2eu8],
                name@ != seq![0x2eu8, 0x2eu8],
                records_spec(old(self).dev@, old(self).info, meta, 0) == Ok::<Seq<(RecordInfo, Seq<u8>)>, Errno>(l),
                self.wf(),
                self.next_ino < u32::MAX || !lookup_numbers_new(old(self).dev@, old(self).info, old(self).metas@, ino, name@),
                self.metas@ == old(self).metas@,
                self.dev@ == old(self).dev@,
                self.info == old(self).info,
                l == records_view(records@),
                i <= records@.len(),
                forall|j: int| 0 <= j < i ==> (#[trigger] l[j]).1 != name@,
                forall|k: int| 0 <= k < l.len() ==> (#[trigger] l[k]).0.parent_ino == ino,
                1 <= ino <= self.metas@.len(),
            decreases records@.len() - i,
        {
            if crate::bytes::bytes_eq(records[i].name.as_slice(), name) {
                proof {
                    assert(l[i as int].1 == name@);
                    let k = choose|k: int| 0 <= k < l.len() && (#[trigger] l[k]).1 == name@
                        && forall|j: int| 0 <= j < k ==> (#[trigger] l[j]).1 != name@;
                    if k < i {
                        assert(l[k].1 != name@);
                    } else if k > i {
                        assert(l[i as int].1 != name@);
                    }
                    assert(first_named(l, name@) == Some(i as int));
                    assert(l[i as int].0 == records@[i as int].info);
                }
                let found = self.ensure_inode(&records[i].info);
                return Ok(found);
            }
            i += 1;
        }
        Err(Errno::ENOENT)
    }

    /// Entry `index` of directory `ino` and the index after it: `.` and `..` first, then
    /// the files recorded, each numbered as it is reported.
    pub fn get_dent(&mut self, ino: u32, index: usize) -> (r: SysResult<Option<(DirResult, usize)>>)
        requires
            old(self).wf(),
            old(self).next_ino < u32::MAX || !dent_numbers_new(old(self).dev@, old(self).info, old(self).metas@, ino, index),
        ensures
            final(self).wf(),
            final(self).dev@ == old(self).dev@,
            final(self).info == old(self).info,
            dent_outcome(old(self).dev@, old(self).info, old(self).metas@, ino, index, r, final(self).metas@),
    {
        let meta = self.get_meta(ino)?;
        if !meta.is_dir {
            return Err(Errno::ENOTDIR);
        }
        if index == 0 {
            let name = vec![0x2eu8];
            assert(name@ =~= seq![0x2eu8]);
            return Ok(Some((DirResult { name, ino: meta.ino, file_type: FileType::Directory, len: 1 }, 1)));
        }
        if index == 1 {
            let name = vec![0x2eu8, 0x2eu8];
            assert(name@ =~= seq![0x2eu8, 0x2eu8]);
            return Ok(Some((DirResult { name, ino: meta.parent_ino, file_type: FileType::Directory, len: 2 }, 2)));
        }
        let records = self.read_directory_records(&meta)?;
        if index - 2 >= records.len() || index == usize::MAX {
            return Ok(None);
        }
        proof {
            lemma_records_parent(self.dev@, self.info, meta, 0);
            assert(records_view(records@)[index - 2].0.parent_ino == meta.ino);
        }
        let record = &records[index - 2];
        let file_type = if record.info.is_dir { FileType::Directory } else { FileType::Regular };
        let name = vstd::slice::slice_to_vec(record.name.as_slice());
        let len = name.len() as u16;
        let found = self.ensure_inode(&record.info);
        Ok(Some((DirResult { name, ino: found, file_type, len }, index + 1)))
    }

    /// Reads file `ino` at byte `offset` into the front of `buf`, as far as the file and the
    /// buffer reach, and answers how many bytes were read.
    pub fn read_inode(&self, ino: u32, buf: &mut Vec<u8>, offset: usize) -> (r: SysResult<usize>)
        requires
            self.wf(),
        ensures
            final(buf)@.len() == old(buf)@.len(),
            match meta_of(self.metas@, ino as int) {
                None => r == Err::<usize, Errno>(Errno::ENOENT) && final(buf)@ == old(buf)@,
                Some(m) => match read_spec(self.dev@, self.info, m, offset as int, old(buf)@.len() as int) {
                    Ok(bytes) => r == Ok::<usize, Errno>(bytes.len() as usize)
                        && final(buf)@.subrange(0, bytes.len() as int) == bytes
                        && final(buf)@.subrange(bytes.len() as int, old(buf)@.len() as int)
                            == old(buf)@.subrange(bytes.len() as int, old(buf)@.len() as int),
                    Err(e) => r == Err::<usize, Errno>(e),
                },
            },
    {
        let meta = self.get_meta(ino)?;
        if meta.is_dir {
            return Err(Errno::EISDIR);
        }
        if buf.len() == 0 {
            proof {
                assert(old(buf)@.subrange(0, 0) =~= Seq::<u8>::empty());
            }
            return Ok(0);
        }
        let off = offset as u64;
        if off >= meta.data_length {
            proof {
                assert(old(buf)@.subrange(0, 0) =~= Seq::<u8>::empty());
            }
            return Ok(0);
        }
        let read_len: usize = if (buf.len() as u64) < meta.data_length - off { buf.len() } else { (meta.data_length - off) as usize };
        let mut cluster = match self.cluster_for_logical_offset(&meta, off)? {
            Some(c) => c,
            None => {
                return Err(Errno::EIO);
            },
        };
        let ghost total = read_spec(self.dev@, self.info, meta, offset as int, old(buf)@.len() as int);
        let mut copied: usize = 0;
        let mut current: u64 = off;
        proof {
            match chunks_spec(self.dev@, self.info, meta, cluster, off as int, read_len as int) {
                Ok(x) => {
                    assert(buf@.subrange(0, 0) + x =~= x);
                },
                Err(_) => {},
            }
        }
        loop
            invariant
                self.wf(),
                meta_of(self.metas@, ino as int) == Some(meta),
                !meta.is_dir,
                buf@.len() == old(buf)@.len(),
                0 < read_len <= buf@.len(),
                read_len == (if old(buf)@.len() < meta.data_length - off { old(buf)@.len() as int } else { meta.data_length - off }),
                copied < read_len,
                current == off + copied,
                off == offset,
                off < meta.data_length,
                total == read_spec(self.dev@, self.info, meta, offset as int, old(buf)@.len() as int),
                total == prepend_bytes(buf@.subrange(0, copied as int),
                    chunks_spec(self.dev@, self.info, meta, cluster, current as int, (read_len - copied) as int)),
                forall|i: int| copied <= i < buf@.len() ==> #[trigger] buf@[i] == old(buf)@[i],
            decreases read_len - copied,
        {
            let ghost prefix = buf@.subrange(0, copied as int);
            let ghost remaining = (read_len - copied) as int;
            let cluster_offset = current % self.info.cluster_size;
            let copy_len: usize = if ((read_len - copied) as u64) < self.info.cluster_size - cluster_offset {
                read_len - copied
            } else {
                (self.info.cluster_size - cluster_offset) as usize
            };
            let base = self.cluster_offset(cluster)?;
            let device_offset = match base.checked_add(cluster_offset) {
                Some(v) => v,
                None => {
                    return Err(Errno::EIO);
                },
            };
            let chunk = self.read_at(device_offset, copy_len)?;
            let ghost b0 = buf@;
            copy_into(buf, copied, chunk.as_slice());
            proof {
                assert(buf@.subrange(0, copied + copy_len) =~= prefix + chunk@);
                assert forall|i: int| copied + copy_len <= i < buf@.len() implies #[trigger] buf@[i] == old(buf)@[i] by {
                    assert(buf@[i] == b0[i]);
                }
            }
            copied += copy_len;
            current += copy_len as u64;
            if copied == read_len {
                proof {
                    assert(buf@.subrange(0, read_len as int) =~= prefix + chunk@);
                    assert(buf@.subrange(read_len as int, buf@.len() as int) =~= old(buf)@.subrange(read_len as int, old(buf)@.len() as int));
                }
                return Ok(copied);
            }
            let next = if meta.no_fat_chain {
                match cluster.checked_add(1) {
                    Some(c) => c,
                    None => {
                        return Err(Errno::EIO);
                    },
                }
            } else {
                match self.next_cluster(cluster)? {
                    Some(c) => c,
                    None => {
                        return Err(Errno::EIO);
                    },
                }
            };
            self.check_cluster(next)?;
            proof {
                let rest = chunks_spec(self.dev@, self.info, meta, next, current as int, (read_len - copied) as int);
                match rest {
                    Ok(x) => {
                        assert(prefix + (chunk@ + x) =~= (prefix + chunk@) + x);
                    },
                    Err(_) => {},
                }
            }
            cluster = next;
        }
    }
}

/// A mounted read-only exFAT volume.
pub struct SuperBlock {
    pub inner: SuperBlockInner,
}

impl SuperBlock {
    /// Mounts the volume on `dev`: `EIO` when its boot sector cannot be read, `EINVAL` when
    /// it describes no consistent exFAT volume on the device.
    pub fn new(dev: BlockDevice) -> (r: SysResult<SuperBlock>)
        ensures
            match crate::exfat::info::read_from_spec(dev@) {
                Ok(info) => r matches Ok(sb) && sb.inner.wf() && sb.inner.dev@ == dev@ && sb.inner.info == info
                    && sb.inner.metas@.len() == 1 && sb.inner.metas@[0].ino == ROOT_INO
                    && sb.inner.metas@[0].key == InodeKey::Root && sb.inner.metas@[0].first_cluster == info.root_cluster
                    && sb.inner.metas@[0].is_dir,
                Err(e) => r matches Err(x) && x == e,
            },
    {
        let inner = SuperBlockInner::new(dev)?;
        Ok(SuperBlock { inner })
    }

    /// The number of the root directory.
    pub fn get_root_ino(&self) -> (r: u32)
        ensures
            r == ROOT_INO,
    {
        ROOT_INO
    }

    /// The file numbered `ino`; `ENOENT` if that number was not handed out.
    pub fn get_inode(&self, ino: u32) -> (r: SysResult<crate::exfat::inode::Inode>)
        requires
            self.inner.wf(),
        ensures
            match meta_of(self.inner.metas@, ino as int) {
                Some(_) => r matches Ok(i) && i.ino == ino,
                None => r matches Err(e) && e == Errno::ENOENT,
            },
    {
        if !self.inner.has_inode(ino) {
            return Err(Errno::ENOENT);
        }
        Ok(crate::exfat::inode::Inode::new(ino))
    }

    /// The `statfs` record of the volume: clusters as blocks, none free, read-only.
    pub fn statfs(&self) -> (r: Statfs)
        ensures
            r == (Statfs {
                f_type: EXFAT_SUPER_MAGIC,
                f_bsize: self.inner.info.cluster_size,
                f_blocks: self.inner.info.cluster_count as u64,
                f_bfree: 0,
                f_bavail: 0,
                f_files: self.inner.metas@.len() as u64,
                f_ffree: 0,
                f_fsid: 0,
                f_namelen: 255,
                f_frsize: self.inner.info.cluster_size,
                f_flag: ST_RDONLY,
            }),
    {
        Statfs {
            f_type: EXFAT_SUPER_MAGIC,
            f_bsize: self.inner.info.cluster_size,
            f_blocks: self.inner.info.cluster_count as u64,
            f_bfree: 0,
            f_bavail: 0,
            f_files: self.inner.metas.len() as u64,
            f_ffree: 0,
            f_fsid: 0,
            f_namelen: 255,
            f_frsize: self.inner.info.cluster_size,
            f_flag: statfs_flags(self.is_readonly()),
        }
    }

    /// The volume is never written.
    pub fn is_readonly(&self) -> (r: bool)
        ensures
            r,
    {
        true
    }
}

} // verus!
