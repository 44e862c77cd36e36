# kernelx_fs

The file-system layer of a small Unix-like kernel, as a Verus-verified library: the on-disk
logic of ext4 and exFAT, the page cache of an open ext4 file, the device file system's nodes
(pseudo-terminals, the real-time clock, loop devices) and the open-file rules of the VFS.
Every function in `src/` carries a `requires`/`ensures` contract that Verus proves. How much a
contract pins down varies: the parsers, the allocators, the page cache and the directory-entry
edits state their results and the blocks they leave behind; several multi-step namespace
operations (rename, unlink, the write-back of an extent-mapped file) state their errors and
some effects but not the whole state they leave.

Layout:

- `src/ext4/` — ext4: superblock and group descriptors, inode records, extent trees, directory
  blocks and hashed names, block and inode allocation, the data paths of files (through the
  page cache, with write-back), and the namespace operations (create, link, unlink, rename,
  truncate, symlinks).
- `src/exfat/` — a read-only exFAT volume: boot sector checks, allocation chains, directory
  entry sets, UTF-16 names, file reads.
- `src/devfs/` — device nodes: null, zero, urandom, block and character devices, loop devices,
  the real-time clock and pseudo-terminal pairs.
- `src/vfs.rs`, `src/file.rs` — modes, file types, open-file flags, seeking and readiness.
- `src/blockdev.rs`, `src/bytes.rs`, `src/crc.rs`, `src/errno.rs`, `src/uapi.rs` — a block
  device held as a byte image, little-endian fields, checksums, error numbers, records.
- `app/main.rs` — a command-line viewer of exFAT and ext4 images built on the library.
- `tests/` — tests on concrete values, run against the compiled library.
