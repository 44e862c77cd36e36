//! The exFAT boot sector: where the allocation table and the cluster heap lie.
use vstd::prelude::*;
use crate::blockdev::BlockDevice;
use crate::bytes::{le32, le64, read_u32, read_u64};
use crate::errno::{Errno, SysResult};

verus! {

pub const BOOT_SECTOR_SIZE: usize = 512;
pub const BOOT_SIGNATURE_OFFSET: usize = 510;
/// The lowest cluster number of the cluster heap.
pub const MIN_CLUSTER: u32 = 2;

/// Where the allocation table and the cluster heap of a volume lie, and its sizes.
#[derive(Clone, Copy, Debug, PartialEq, Eq, Structural)]
pub struct ExfatInfo {
    pub fat_offset: u64,
    pub cluster_heap_offset: u64,
    pub cluster_count: u32,
    pub root_cluster: u32,
    pub sector_size: u64,
    pub sectors_per_cluster: u64,
    pub cluster_size: u64,
}

/// Two to the power `k`.
pub open spec fn pow2_of(k: nat) -> nat
    decreases k,
{
    if k == 0 { 1 } else { 2 * pow2_of((k - 1) as nat) }
}

/// The file-system name field reads "EXFAT   ".
pub open spec fn fs_name_ok(b: Seq<u8>) -> bool {
    b.subrange(3, 11) == seq![0x45u8, 0x58u8, 0x46u8, 0x41u8, 0x54u8, 0x20u8, 0x20u8, 0x20u8]
}

/// The layout that the boot sector `b` describes.
pub open spec fn boot_info(b: Seq<u8>) -> ExfatInfo {
    let ss = pow2_of(b[108] as nat);
    let spc = pow2_of(b[109] as nat);
    ExfatInfo {
        fat_offset: le32(b, 80) as u64,
        cluster_heap_offset: le32(b, 88) as u64,
        cluster_count: le32(b, 92) as u32,
        root_cluster: le32(b, 96) as u32,
        sector_size: ss as u64,
        sectors_per_cluster: spc as u64,
        cluster_size: (ss * spc) as u64,
    }
}

/// The boot sector `b` describes a consistent volume that fits in `dev_len` bytes.
pub open spec fn boot_ok(b: Seq<u8>, dev_len: int) -> bool {
    let fat_offset = le32(b, 80);
    let fat_length = le32(b, 84);
    let heap = le32(b, 88);
    let count = le32(b, 92);
    let root = le32(b, 96);
    let volume_length = le64(b, 72);
    let ss = pow2_of(b[108] as nat);
    let spc = pow2_of(b[109] as nat);
    let fats = b[110] as int;
    &&& fs_name_ok(b)
    &&& b[510] == 0x55 && b[511] == 0xaa
    &&& 9 <= b[108] <= 12 && b[109] <= 25
    &&& fat_offset != 0 && fat_length != 0 && heap != 0 && count != 0 && fats != 0
    &&& fat_length * ss >= (count + 2) * 4
    &&& fat_offset + fat_length * fats <= heap
    &&& heap + count * spc <= volume_length
    &&& volume_length * ss <= dev_len
    &&& count + 1 <= u32::MAX
    &&& 2 <= root <= count + 1
}

/// What reading the boot sector of a device of contents `d` gives.
pub open spec fn read_from_spec(d: Seq<u8>) -> Result<ExfatInfo, Errno> {
    if d.len() < 512 {
        Err(Errno::EIO)
    } else if boot_ok(d.subrange(0, 512), d.len() as int) {
        Ok(boot_info(d.subrange(0, 512)))
    } else {
        Err(Errno::EINVAL)
    }
}

/// Two to the power `k`, for `k` up to 25.
fn pow2_u64(k: u8) -> (r: u64)
    requires
        k <= 25,
    ensures
        r == pow2_of(k as nat),
        1 <= r <= 0x200_0000,
{
    let mut r: u64 = 1;
    let mut i: u8 = 0;
    proof {
        lemma_pow2_25();
    }
    while i < k
        invariant
            i <= k <= 25,
            r == pow2_of(i as nat),
            pow2_of(25) == 0x200_0000,
        decreases k - i,
    {
        proof {
            lemma_pow2_mono((i + 1) as nat, 25);
        }
        r = r * 2;
        i = i + 1;
    }
    proof {
        lemma_pow2_mono(k as nat, 25);
        lemma_pow2_mono(0, k as nat);
    }
    r
}

proof fn lemma_pow2_mono(a: nat, b: nat)
    requires
        a <= b,
    ensures
        pow2_of(a) <= pow2_of(b),
    decreases b,
{
    if a < b {
        lemma_pow2_mono(a, (b - 1) as nat);
    }
}

proof fn lemma_pow2_25()
    ensures
        pow2_of(25) == 0x200_0000,
{
    reveal_with_fuel(pow2_of, 26);
}

impl ExfatInfo {
    /// Reads and checks the boot sector of the device: `EIO` when it cannot be read,
    /// `EINVAL` when it does not describe a consistent exFAT volume on the device.
    pub fn read_from(dev: &BlockDevice) -> (r: SysResult<ExfatInfo>)
        ensures
            r == read_from_spec(dev@),
            r matches Ok(i) ==> i.cluster_size > 0,
    {
        let mut boot: Vec<u8> = vec![0u8; BOOT_SECTOR_SIZE];
        if dev.read_at(0, &mut boot).is_err() {
            return Err(Errno::EIO);
        }
        let ghost b = boot@;
        assert(b == dev@.subrange(0, 512));
        let name_ok = boot[3] == 0x45 && boot[4] == 0x58 && boot[5] == 0x46 && boot[6] == 0x41
            && boot[7] == 0x54 && boot[8] == 0x20 && boot[9] == 0x20 && boot[10] == 0x20;
        proof {
            if name_ok {
                assert(b.subrange(3, 11) =~= seq![0x45u8, 0x58u8, 0x46u8, 0x41u8, 0x54u8, 0x20u8, 0x20u8, 0x20u8]);
            } else {
                if fs_name_ok(b) {
                    assert(b.subrange(3, 11)[0] == b[3]);
                    assert(b.subrange(3, 11)[1] == b[4]);
                    assert(b.subrange(3, 11)[2] == b[5]);
                    assert(b.subrange(3, 11)[3] == b[6]);
                    assert(b.subrange(3, 11)[4] == b[7]);
                    assert(b.subrange(3, 11)[5] == b[8]);
                    assert(b.subrange(3, 11)[6] == b[9]);
                    assert(b.subrange(3, 11)[7] == b[10]);
                }
            }
        }
        if !name_ok {
            return Err(Errno::EINVAL);
        }
        if boot[BOOT_SIGNATURE_OFFSET] != 0x55 || boot[BOOT_SIGNATURE_OFFSET + 1] != 0xaa {
            return Err(Errno::EINVAL);
        }
        let fat_offset = read_u32(&boot, 80) as u64;
        let fat_length = read_u32(&boot, 84) as u64;
        let cluster_heap_offset = read_u32(&boot, 88) as u64;
        let cluster_count = read_u32(&boot, 92);
        let root_cluster = read_u32(&boot, 96);
        let volume_length = read_u64(&boot, 72);
        let sector_shift = boot[108];
        let sectors_per_cluster_shift = boot[109];
        let number_of_fats = boot[110];

        if sector_shift < 9 || sector_shift > 12 || sectors_per_cluster_shift > 25 {
            return Err(Errno::EINVAL);
        }
        if fat_offset == 0 || fat_length == 0 || cluster_heap_offset == 0 || cluster_count == 0 || number_of_fats == 0 {
            return Err(Errno::EINVAL);
        }
        let sector_size = pow2_u64(sector_shift);
        let sectors_per_cluster = pow2_u64(sectors_per_cluster_shift);
        assert(sector_size * sectors_per_cluster <= 0x200_0000 * 0x200_0000) by (nonlinear_arith)
            requires
                sector_size <= 0x200_0000,
                sectors_per_cluster <= 0x200_0000,
        ;
        let cluster_size = sector_size * sectors_per_cluster;
        assert(cluster_size > 0) by (nonlinear_arith)
            requires
                cluster_size == sector_size * sectors_per_cluster,
                sector_size >= 1,
                sectors_per_cluster >= 1,
        ;
        assert(fat_length * (number_of_fats as u64) <= 0xffff_ffff * 0xff) by (nonlinear_arith)
            requires
                fat_length <= 0xffff_ffff,
                number_of_fats <= 0xff,
        ;
        let all_fats_end = fat_offset + fat_length * (number_of_fats as u64);
        assert(fat_length * sector_size <= 0xffff_ffff * 0x200_0000) by (nonlinear_arith)
            requires
                fat_length <= 0xffff_ffff,
                sector_size <= 0x200_0000,
        ;
        let fat_bytes = fat_length * sector_size;
        let needed_fat_bytes = (cluster_count as u64 + MIN_CLUSTER as u64) * 4;
        assert((cluster_count as u64) * sectors_per_cluster <= 0xffff_ffff * 0x200_0000) by (nonlinear_arith)
            requires
                cluster_count <= 0xffff_ffff,
                sectors_per_cluster <= 0x200_0000,
        ;
        let cluster_heap_end = cluster_heap_offset + (cluster_count as u64) * sectors_per_cluster;
        if fat_bytes < needed_fat_bytes || all_fats_end > cluster_heap_offset || cluster_heap_end > volume_length {
            return Err(Errno::EINVAL);
        }
        let device_bytes = dev.size() as u64;
        let volume_bytes = match volume_length.checked_mul(sector_size) {
            Some(v) => v,
            None => {
                return Err(Errno::EINVAL);
            },
        };
        if volume_bytes > device_bytes {
            return Err(Errno::EINVAL);
        }
        let info = ExfatInfo {
            fat_offset,
            cluster_heap_offset,
            cluster_count,
            root_cluster,
            sector_size,
            sectors_per_cluster,
            cluster_size,
        };
        if info.check_root_cluster().is_err() {
            return Err(Errno::EINVAL);
        }
        Ok(info)
    }

    /// Whether the root directory's cluster is a cluster of the heap.
    fn check_root_cluster(&self) -> (r: SysResult<()>)
        ensures
            r is Ok <==> (self.cluster_count + 1 <= u32::MAX && 2 <= self.root_cluster <= self.cluster_count + 1),
            r is Err ==> r == Err::<(), Errno>(Errno::EINVAL),
    {
        let max_cluster = match self.cluster_count.checked_add(1) {
            Some(m) => m,
            None => {
                return Err(Errno::EINVAL);
            },
        };
        if MIN_CLUSTER <= self.root_cluster && self.root_cluster <= max_cluster {
            Ok(())
        } else {
            Err(Errno::EINVAL)
        }
    }
}

} // verus!
