//! The device file system's inode numbering and the nodes it starts with.
use vstd::prelude::*;
use super::nodes::DeviceType;

verus! {

/// The `statfs` magic of the device file system.
pub const DEVFS_MAGIC: u64 = 0x9fa1;

/// Number of loop devices created at start.
pub const LOOP_DEVICES: u32 = 16;

/// The kind of node the device file system holds at start.
#[derive(Clone, Copy, PartialEq, Eq, Structural, Debug)]
pub enum InitialNode {
    Null,
    Zero,
    URandom,
    /// The `pts` directory, where pseudo-terminal slaves appear.
    PtsDir,
    Ptmx,
    /// The `misc` directory.
    MiscDir,
    Rtc,
    Loop(u32),
}

/// The mode of the directories made at start: a directory with permissions 0o755.
pub const DEVFS_DIR_MODE: u32 = 0o040755;

/// A node made at start: what it is, its inode number and the inode number of the directory
/// that holds it.
#[derive(Clone, Copy, PartialEq, Eq, Structural, Debug)]
pub struct DevfsEntry {
    pub node: InitialNode,
    pub ino: u32,
    pub parent: u32,
}

/// Hands out inode numbers in order.
pub struct InodeNumbers {
    pub next: u32,
}

impl InodeNumbers {
    /// Numbers starting at `first`.
    pub fn new(first: u32) -> (r: Self)
        ensures
            r.next == first,
    {
        InodeNumbers { next: first }
    }

    /// The next number.
    pub fn alloc_inode_number(&mut self) -> (r: u32)
        requires
            old(self).next < u32::MAX,
        ensures
            r == old(self).next,
            final(self).next == old(self).next + 1,
    {
        let n = self.next;
        self.next = n + 1;
        n
    }
}

/// The node at position `k` of the start-up list: null, zero, urandom, the `pts` directory,
/// ptmx, the `misc` directory, the clock (inside `misc`), then loop devices 0 to 15.
pub open spec fn initial_node(k: int) -> InitialNode {
    if k == 0 { InitialNode::Null }
    else if k == 1 { InitialNode::Zero }
    else if k == 2 { InitialNode::URandom }
    else if k == 3 { InitialNode::PtsDir }
    else if k == 4 { InitialNode::Ptmx }
    else if k == 5 { InitialNode::MiscDir }
    else if k == 6 { InitialNode::Rtc }
    else { InitialNode::Loop((k - 7) as u32) }
}

/// The entry at position `k` of the start-up tree, numbers taken in order from `first`: the
/// clock sits in `misc`, everything else in the root `root`.
pub open spec fn initial_entry(k: int, first: u32, root: u32) -> DevfsEntry {
    DevfsEntry {
        node: initial_node(k),
        ino: (first + k) as u32,
        parent: if k == 6 { (first + 5) as u32 } else { root },
    }
}

/// The tree the device file system starts with, in creation order: under the root `root`,
/// null, zero, urandom, the `pts` directory, ptmx, the `misc` directory holding the clock,
/// and loop devices 0 to 15; each node takes the next inode number.
pub fn init(numbers: &mut InodeNumbers, root: u32) -> (r: Vec<DevfsEntry>)
    requires
        old(numbers).next <= u32::MAX - 23,
    ensures
        r@.len() == 23,
        forall|k: int| 0 <= k < 23 ==> #[trigger] r@[k] == initial_entry(k, old(numbers).next, root),
        final(numbers).next == old(numbers).next + 23,
{
    let mut v: Vec<DevfsEntry> = Vec::new();
    let ghost first = numbers.next;
    let a = numbers.alloc_inode_number();
    v.push(DevfsEntry { node: InitialNode::Null, ino: a, parent: root });
    let b = numbers.alloc_inode_number();
    v.push(DevfsEntry { node: InitialNode::Zero, ino: b, parent: root });
    let c = numbers.alloc_inode_number();
    v.push(DevfsEntry { node: InitialNode::URandom, ino: c, parent: root });
    let pts = numbers.alloc_inode_number();
    v.push(DevfsEntry { node: InitialNode::PtsDir, ino: pts, parent: root });
    let d = numbers.alloc_inode_number();
    v.push(DevfsEntry { node: InitialNode::Ptmx, ino: d, parent: root });
    let misc = numbers.alloc_inode_number();
    v.push(DevfsEntry { node: InitialNode::MiscDir, ino: misc, parent: root });
    let e = numbers.alloc_inode_number();
    v.push(DevfsEntry { node: InitialNode::Rtc, ino: e, parent: misc });
    let mut i: u32 = 0;
    while i < LOOP_DEVICES
        invariant
            i <= LOOP_DEVICES,
            v@.len() == 7 + i,
            numbers.next == first + 7 + i,
            first <= u32::MAX - 23,
            forall|k: int| 0 <= k < 7 + i ==> #[trigger] v@[k] == initial_entry(k, first, root),
        decreases LOOP_DEVICES - i,
    {
        let n = numbers.alloc_inode_number();
        v.push(DevfsEntry { node: InitialNode::Loop(i), ino: n, parent: root });
        i += 1;
    }
    v
}

/// The node a newly registered driver gets, with the inode number it takes: character and
/// block drivers get one, a clock none (and takes no number).
pub fn add_device(numbers: &mut InodeNumbers, t: DeviceType) -> (r: Option<(DeviceType, u32)>)
    requires
        old(numbers).next < u32::MAX,
    ensures
        t == DeviceType::Rtc ==> r is None && final(numbers).next == old(numbers).next,
        t != DeviceType::Rtc ==> r == Some((t, old(numbers).next)) && final(numbers).next == old(numbers).next + 1,
{
    match t {
        DeviceType::Char => {
            let ino = numbers.alloc_inode_number();
            Some((DeviceType::Char, ino))
        },
        DeviceType::Block => {
            let ino = numbers.alloc_inode_number();
            Some((DeviceType::Block, ino))
        },
        DeviceType::Rtc => None,
    }
}

/// What the device file system reports of itself.
pub struct DevfsInfo;

impl DevfsInfo {
    /// Its `statfs` magic.
    pub fn statfs_magic() -> (r: u64)
        ensures
            r == DEVFS_MAGIC,
    {
        DEVFS_MAGIC
    }
}

/// The device file system type: every mount gets the one tree built at start.
pub struct FileSystem;

} // verus!
