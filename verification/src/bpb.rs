//! The BIOS parameter block (BPB) of a boot sector.
//!
//! Floppies carry the MS-DOS block, in little-endian. The partitions of
//! a hard disk carry the Human68k variant, in big-endian and with other offsets.

use crate::bytes::{be16, be32, has_at, le16, le32, read_be16, read_be32, read_le16, read_le32,
    stands_at};
use crate::error::FsError;
use vstd::prelude::*;

verus! {

/// The geometry that a boot sector describes.
#[derive(Clone, Copy, Debug, PartialEq, Eq, Structural)]
pub struct Bpb {
    pub bytes_per_sector: u16,
    pub sectors_per_cluster: u8,
    pub reserved_sectors: u16,
    pub num_fats: u8,
    pub root_entries: u16,
    pub total_sectors: u32,
    pub sectors_per_fat: u16,
    pub sectors_per_track: u16,
    pub num_heads: u16,
}

/// The sector sizes that a parameter block may name.
pub open spec fn usual_sector_size(n: u16) -> bool {
    n == 256 || n == 512 || n == 1024 || n == 2048
}

/// The fields of a floppy's parameter block, taken as they stand.
pub open spec fn floppy_fields(b: Seq<u8>) -> Bpb {
    Bpb {
        bytes_per_sector: le16(b, 0x0B),
        sectors_per_cluster: b[0x0D],
        reserved_sectors: le16(b, 0x0E),
        num_fats: b[0x10],
        root_entries: le16(b, 0x11),
        total_sectors: if le16(b, 0x13) != 0 {
            le16(b, 0x13) as u32
        } else {
            le32(b, 0x20)
        },
        sectors_per_fat: le16(b, 0x16),
        sectors_per_track: le16(b, 0x18),
        num_heads: le16(b, 0x1A),
    }
}

/// The fields of a hard-disk partition's parameter block, taken as they stand.
pub open spec fn hdd_fields(b: Seq<u8>) -> Bpb {
    Bpb {
        bytes_per_sector: be16(b, 0x12),
        sectors_per_cluster: b[0x14],
        reserved_sectors: be16(b, 0x16),
        num_fats: b[0x15],
        root_entries: be16(b, 0x18),
        total_sectors: if be16(b, 0x1A) != 0 {
            be16(b, 0x1A) as u32
        } else {
            be32(b, 0x1E)
        },
        sectors_per_fat: b[0x1D] as u16,
        sectors_per_track: 0,
        num_heads: 0,
    }
}

/// What `Bpb::parse` makes of a boot sector.
pub open spec fn floppy_bpb(b: Seq<u8>) -> Result<Bpb, FsError> {
    let f = floppy_fields(b);
    if b.len() < 36 {
        Err(FsError::BootSectorTooShort)
    } else if !usual_sector_size(f.bytes_per_sector) {
        Err(FsError::BytesPerSector(f.bytes_per_sector))
    } else if f.num_fats == 0 || f.num_fats > 2 {
        Err(FsError::FatCopies(f.num_fats))
    } else {
        Ok(f)
    }
}

/// What `Bpb::parse_hdd` makes of a boot sector.
pub open spec fn hdd_bpb(b: Seq<u8>) -> Result<Bpb, FsError> {
    let f = hdd_fields(b);
    if b.len() < 0x22 {
        Err(FsError::HddBootSectorTooShort)
    } else if !usual_sector_size(f.bytes_per_sector) {
        Err(FsError::HddBytesPerSector(f.bytes_per_sector))
    } else if f.num_fats == 0 || f.num_fats > 2 {
        Err(FsError::HddFatCopies(f.num_fats))
    } else {
        Ok(f)
    }
}

/// The letters `Hudson soft`.
pub open spec fn hudson_mark() -> Seq<u8> {
    seq![0x48u8, 0x75, 0x64, 0x73, 0x6F, 0x6E, 0x20, 0x73, 0x6F, 0x66, 0x74]
}

/// Whether a boot sector bears the mark of the Hudson disk imaging tool in one
/// of its first eight positions.
pub open spec fn hudson_signed(b: Seq<u8>) -> bool {
    b.len() >= 0x12 && exists|at: int| 0 <= at < 8 && #[trigger] stands_at(b, at, hudson_mark())
}

/// The geometry of the standard 2HD floppy of 1232 KiB.
pub open spec fn standard_2hd() -> Bpb {
    Bpb {
        bytes_per_sector: 1024,
        sectors_per_cluster: 1,
        reserved_sectors: 1,
        num_fats: 2,
        root_entries: 192,
        total_sectors: 1232,
        sectors_per_fat: 2,
        sectors_per_track: 8,
        num_heads: 2,
    }
}

/// What `Bpb::parse_floppy` makes of a boot sector: the block as it stands, or
/// else the standard geometry if the Hudson tool wrote the disk.
pub open spec fn floppy_or_hudson_bpb(b: Seq<u8>) -> Result<Bpb, FsError> {
    match floppy_bpb(b) {
        Ok(bpb) => Ok(bpb),
        Err(e) => if hudson_signed(b) {
            Ok(standard_2hd())
        } else {
            Err(e)
        },
    }
}

impl Bpb {
    /// The sector on which the first FAT starts.
    pub open spec fn fat_sector(self) -> int {
        self.reserved_sectors as int
    }

    /// The sector on which the root directory starts.
    pub open spec fn root_sector(self) -> int {
        self.fat_sector() + self.num_fats as int * self.sectors_per_fat as int
    }

    /// The number of sectors of a root directory of 32-byte entries, rounded up.
    pub open spec fn root_length(self) -> int {
        (self.root_entries as int * 32 + self.bytes_per_sector as int - 1)
            / self.bytes_per_sector as int
    }

    /// The sector on which the data area, and with it cluster 2, starts.
    pub open spec fn data_sector(self) -> int {
        self.root_sector() + self.root_length()
    }

    /// The first sector of a cluster.
    pub open spec fn cluster_sector(self, cluster: int) -> int {
        self.data_sector() + (cluster - 2) * self.sectors_per_cluster as int
    }

    /// The geometry of the standard 2HD floppy of 1232 KiB, for disks whose
    /// parameter block is damaged but whose layout is the usual one.
    pub fn default_2hd_1232k() -> (r: Self)
        ensures
            r == standard_2hd(),
    {
        Bpb {
            bytes_per_sector: 1024,
            sectors_per_cluster: 1,
            reserved_sectors: 1,
            num_fats: 2,
            root_entries: 192,
            total_sectors: 1232,
            sectors_per_fat: 2,
            sectors_per_track: 8,
            num_heads: 2,
        }
    }

    /// Reads the parameter block of a floppy. Where it makes no sense but the
    /// disk was written by the Hudson imaging tool, the standard geometry is
    /// taken in its place.
    pub fn parse_floppy(boot_sector: &[u8]) -> (r: Result<Self, FsError>)
        ensures
            r == floppy_or_hudson_bpb(boot_sector@),
    {
        match Self::parse(boot_sector) {
            Ok(bpb) => Ok(bpb),
            Err(e) => {
                if Self::looks_like_hudson_dim(boot_sector) {
                    Ok(Self::default_2hd_1232k())
                } else {
                    Err(e)
                }
            },
        }
    }

    /// Whether the boot sector bears the mark `Hudson soft` where the name of
    /// the formatting program stands.
    pub fn looks_like_hudson_dim(boot_sector: &[u8]) -> (r: bool)
        ensures
            r == hudson_signed(boot_sector@),
    {
        if boot_sector.len() < 0x12 {
            return false;
        }
        let needle: [u8; 11] = [0x48, 0x75, 0x64, 0x73, 0x6F, 0x6E, 0x20, 0x73, 0x6F, 0x66, 0x74];
        assert(needle@ =~= hudson_mark());
        let mut at: usize = 0;
        while at < 8
            invariant
                at <= 8,
                boot_sector@.len() >= 0x12,
                needle@ == hudson_mark(),
                forall|k: int| 0 <= k < at ==> !#[trigger] stands_at(
                    boot_sector@,
                    k,
                    hudson_mark(),
                ),
            decreases 8 - at,
        {
            if has_at(boot_sector, at, needle.as_slice()) {
                return true;
            }
            at = at + 1;
        }
        false
    }

    /// Reads the parameter block of a floppy.
    pub fn parse(boot_sector: &[u8]) -> (r: Result<Self, FsError>)
        ensures
            r == floppy_bpb(boot_sector@),
    {
        if boot_sector.len() < 36 {
            return Err(FsError::BootSectorTooShort);
        }
        let bytes_per_sector: u16 = read_le16(boot_sector, 0x0B);
        let sectors_per_cluster: u8 = boot_sector[0x0D];
        let reserved_sectors: u16 = read_le16(boot_sector, 0x0E);
        let num_fats: u8 = boot_sector[0x10];
        let root_entries: u16 = read_le16(boot_sector, 0x11);
        let total_sectors_16: u16 = read_le16(boot_sector, 0x13);
        let sectors_per_fat: u16 = read_le16(boot_sector, 0x16);
        let sectors_per_track: u16 = read_le16(boot_sector, 0x18);
        let num_heads: u16 = read_le16(boot_sector, 0x1A);
        // Large disks leave the short count at zero and use the long one.
        let total_sectors: u32 = if total_sectors_16 != 0 {
            total_sectors_16 as u32
        } else {
            read_le32(boot_sector, 0x20)
        };
        if !matches!(bytes_per_sector, 256 | 512 | 1024 | 2048) {
            return Err(FsError::BytesPerSector(bytes_per_sector));
        }
        if num_fats == 0 || num_fats > 2 {
            return Err(FsError::FatCopies(num_fats));
        }
        Ok(
            Bpb {
                bytes_per_sector,
                sectors_per_cluster,
                reserved_sectors,
                num_fats,
                root_entries,
                total_sectors,
                sectors_per_fat,
                sectors_per_track,
                num_heads,
            },
        )
    }

    /// The sector on which the first FAT starts.
    pub fn fat_start(&self) -> (r: u32)
        ensures
            r == self.fat_sector(),
    {
        self.reserved_sectors as u32
    }

    /// The sector on which the root directory starts.
    pub fn root_dir_start(&self) -> (r: u32)
        ensures
            r == self.root_sector(),
    {
        let ghost fats = self.num_fats as int;
        let ghost each = self.sectors_per_fat as int;
        assert(0 <= fats * each <= 255 * 65535) by (nonlinear_arith)
            requires
                0 <= fats <= 255,
                0 <= each <= 65535,
        ;
        self.fat_start() + (self.num_fats as u32) * (self.sectors_per_fat as u32)
    }

    /// The number of sectors of the root directory.
    pub fn root_dir_sectors(&self) -> (r: u32)
        requires
            self.bytes_per_sector > 0,
        ensures
            r == self.root_length(),
            r <= 65535 * 32,
    {
        let bytes: u32 = (self.root_entries as u32) * 32;
        let ghost size = self.bytes_per_sector as int;
        assert(0 <= (bytes + size - 1) / size <= bytes) by (nonlinear_arith)
            requires
                size > 0,
                bytes >= 0,
        ;
        (bytes + (self.bytes_per_sector as u32 - 1)) / self.bytes_per_sector as u32
    }

    /// The sector on which the data area starts.
    pub fn data_start(&self) -> (r: u32)
        requires
            self.bytes_per_sector > 0,
        ensures
            r == self.data_sector(),
            r <= 0x0200_0000,
    {
        let ghost fats = self.num_fats as int;
        let ghost each = self.sectors_per_fat as int;
        assert(0 <= fats * each <= 255 * 65535) by (nonlinear_arith)
            requires
                0 <= fats <= 255,
                0 <= each <= 65535,
        ;
        self.root_dir_start() + self.root_dir_sectors()
    }

    /// The first sector of a cluster; the data area starts with cluster 2.
    pub fn cluster_to_sector(&self, cluster: u16) -> (r: u32)
        requires
            self.bytes_per_sector > 0,
            cluster >= 2,
        ensures
            r == self.cluster_sector(cluster as int),
            r <= 0x0400_0000,
    {
        let ghost before = cluster as int - 2;
        let ghost each = self.sectors_per_cluster as int;
        assert(0 <= before * each <= 65533 * 255) by (nonlinear_arith)
            requires
                0 <= before <= 65533,
                0 <= each <= 255,
        ;
        self.data_start() + (cluster as u32 - 2) * self.sectors_per_cluster as u32
    }

    /// Reads the parameter block of a hard-disk partition: big-endian numbers, a
    /// jump of two bytes, a name of sixteen, and one byte for the sectors of a FAT.
    pub fn parse_hdd(boot_sector: &[u8]) -> (r: Result<Self, FsError>)
        ensures
            r == hdd_bpb(boot_sector@),
    {
        if boot_sector.len() < 0x22 {
            return Err(FsError::HddBootSectorTooShort);
        }
        let bytes_per_sector: u16 = read_be16(boot_sector, 0x12);
        let sectors_per_cluster: u8 = boot_sector[0x14];
        let num_fats: u8 = boot_sector[0x15];
        let reserved_sectors: u16 = read_be16(boot_sector, 0x16);
        let root_entries: u16 = read_be16(boot_sector, 0x18);
        let total_sectors_16: u16 = read_be16(boot_sector, 0x1A);
        let sectors_per_fat: u16 = boot_sector[0x1D] as u16;
        let total_sectors: u32 = if total_sectors_16 != 0 {
            total_sectors_16 as u32
        } else {
            read_be32(boot_sector, 0x1E)
        };
        if !matches!(bytes_per_sector, 256 | 512 | 1024 | 2048) {
            return Err(FsError::HddBytesPerSector(bytes_per_sector));
        }
        if num_fats == 0 || num_fats > 2 {
            return Err(FsError::HddFatCopies(num_fats));
        }
        Ok(
            Bpb {
                bytes_per_sector,
                sectors_per_cluster,
                reserved_sectors,
                num_fats,
                root_entries,
                total_sectors,
                sectors_per_fat,
                sectors_per_track: 0,
                num_heads: 0,
            },
        )
    }
}

/// The areas of a disk follow one another: FATs, root directory, data. Within
/// the data area each cluster ends where the next one starts.
pub proof fn areas_do_not_overlap(bpb: Bpb, cluster: int)
    requires
        bpb.bytes_per_sector > 0,
        cluster >= 2,
    ensures
        0 <= bpb.fat_sector() <= bpb.root_sector() <= bpb.data_sector(),
        bpb.cluster_sector(2) == bpb.data_sector(),
        bpb.cluster_sector(cluster + 1) == bpb.cluster_sector(cluster)
            + bpb.sectors_per_cluster as int,
        bpb.data_sector() <= bpb.cluster_sector(cluster),
        bpb.root_length() * bpb.bytes_per_sector >= bpb.root_entries * 32,
{
    let fats = bpb.num_fats as int;
    let each = bpb.sectors_per_fat as int;
    let size = bpb.bytes_per_sector as int;
    let root = bpb.root_entries as int * 32;
    let spc = bpb.sectors_per_cluster as int;
    assert(0 <= fats * each) by (nonlinear_arith)
        requires
            0 <= fats,
            0 <= each,
    ;
    assert(0 <= (root + size - 1) / size && ((root + size - 1) / size) * size >= root)
        by (nonlinear_arith)
        requires
            size > 0,
            root >= 0,
    ;
    assert((cluster + 1 - 2) * spc == (cluster - 2) * spc + spc && (cluster - 2) * spc >= 0 && (2
        - 2) * spc == 0) by (nonlinear_arith)
        requires
            cluster >= 2,
            spc >= 0,
    ;
}

/// A block that `parse`, `parse_floppy` or `parse_hdd` lets through names one of
/// the usual sector sizes and one or two FATs.
pub proof fn parsed_blocks_are_sane(b: Seq<u8>, bpb: Bpb)
    requires
        floppy_bpb(b) == Ok::<Bpb, FsError>(bpb) || floppy_or_hudson_bpb(b) == Ok::<Bpb, FsError>(
            bpb,
        ) || hdd_bpb(b) == Ok::<Bpb, FsError>(bpb),
    ensures
        usual_sector_size(bpb.bytes_per_sector),
        1 <= bpb.num_fats <= 2,
{
}

} // verus!
