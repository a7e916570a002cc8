//! The FAT of a disk, of either width.
//!
//! A disk with fewer than 4085 clusters has a FAT12, a larger one a FAT16. From
//! 65525 clusters on it would be a FAT32, which Human68k does not know.

use crate::bpb::Bpb;
use crate::error::FsError;
use crate::fat12::{fat12_chain, Fat12};
use crate::fat16::{fat16_chain, Fat16};
use crate::image::{read_sectors, sector_run, DiskImage};
use vstd::prelude::*;

verus! {

/// The chain that starts at `cur`: cluster after cluster, as `next` leads from
/// one to the following. It ends where no cluster follows (a number below 2, or
/// `end` and above), at a cluster that leads to itself, or after `links` links.
pub open spec fn chain_from(next: spec_fn(u16) -> u16, end: u16, links: nat, cur: u16) -> Seq<u16>
    decreases links,
{
    if cur < 2 || cur >= end {
        Seq::empty()
    } else if links == 0 || next(cur) == cur {
        seq![cur]
    } else {
        seq![cur] + chain_from(next, end, (links - 1) as nat, next(cur))
    }
}

/// A chain starts with its first cluster, each cluster is a valid number and
/// leads to the one after it, and there are at most `links` links.
pub proof fn chain_is_linked(next: spec_fn(u16) -> u16, end: u16, links: nat, start: u16)
    ensures
        ({
            let c = chain_from(next, end, links, start);
            &&& c.len() > 0 <==> 2 <= start < end
            &&& c.len() > 0 ==> c[0] == start
            &&& c.len() <= links + 1
            &&& forall|i: int| 0 <= i < c.len() ==> 2 <= #[trigger] c[i] < end
            &&& forall|i: int|
                #![trigger c[i]]
                0 <= i < c.len() - 1 ==> c[i + 1] == next(c[i]) && c[i + 1] != c[i]
        }),
    decreases links,
{
    if 2 <= start < end && links > 0 && next(start) != start {
        chain_is_linked(next, end, (links - 1) as nat, next(start));
        let rest = chain_from(next, end, (links - 1) as nat, next(start));
        let c = chain_from(next, end, links, start);
        assert(c =~= seq![start] + rest);
        assert forall|i: int| 0 <= i < c.len() implies 2 <= #[trigger] c[i] < end by {
            if i > 0 {
                assert(c[i] == rest[i - 1]);
            }
        }
        assert forall|i: int| #![trigger c[i]] 0 <= i < c.len() - 1 implies c[i + 1] == next(c[i])
            && c[i + 1] != c[i] by {
            assert(c[i + 1] == rest[i]);
            if i > 0 {
                assert(c[i] == rest[i - 1]);
            }
        }
    }
}

/// A chain that is not cut off ends at a cluster that leads nowhere or to itself.
pub proof fn chain_stops_at_end(next: spec_fn(u16) -> u16, end: u16, links: nat, start: u16)
    requires
        0 < chain_from(next, end, links, start).len() <= links,
    ensures
        ({
            let last = chain_from(next, end, links, start).last();
            next(last) < 2 || next(last) >= end || next(last) == last
        }),
    decreases links,
{
    if next(start) != start {
        let rest = chain_from(next, end, (links - 1) as nat, next(start));
        let c = chain_from(next, end, links, start);
        assert(c =~= seq![start] + rest);
        if rest.len() > 0 {
            chain_stops_at_end(next, end, (links - 1) as nat, next(start));
            assert(c.last() == rest.last());
        } else {
            assert(c.last() == start);
        }
    }
}

/// Two places of a chain with the same cluster are followed by the same clusters.
proof fn chain_repeats(
    next: spec_fn(u16) -> u16,
    end: u16,
    links: nat,
    start: u16,
    i: int,
    j: int,
    k: int,
)
    requires
        0 <= i < j,
        0 <= k,
        j + k < chain_from(next, end, links, start).len(),
        chain_from(next, end, links, start)[i] == chain_from(next, end, links, start)[j],
    ensures
        chain_from(next, end, links, start)[i + k] == chain_from(next, end, links, start)[j + k],
    decreases k,
{
    if k > 0 {
        chain_repeats(next, end, links, start, i, j, k - 1);
        chain_is_linked(next, end, links, start);
        let c = chain_from(next, end, links, start);
        assert(c[i + (k - 1) + 1] == next(c[i + (k - 1)]));
        assert(c[j + (k - 1) + 1] == next(c[j + (k - 1)]));
    }
}

/// A chain that is not cut off never comes to the same cluster twice.
pub proof fn chain_has_no_repeats(next: spec_fn(u16) -> u16, end: u16, links: nat, start: u16)
    requires
        chain_from(next, end, links, start).len() <= links,
    ensures
        chain_from(next, end, links, start).no_duplicates(),
{
    let c = chain_from(next, end, links, start);
    assert forall|i: int, j: int| 0 <= i < j < c.len() implies c[i] != c[j] by {
        if c[i] == c[j] {
            let k = c.len() - 1 - j;
            chain_repeats(next, end, links, start, i, j, k);
            chain_is_linked(next, end, links, start);
            chain_stops_at_end(next, end, links, start);
            assert(c[i + k + 1] == next(c[i + k]));
            assert(2 <= c[i + k + 1] < end);
        }
    }
}

/// Where the FAT of a disk is read from, as bytes.
pub open spec fn table_bytes<D: DiskImage>(image: D, bpb: Bpb) -> Result<Seq<u8>, FsError> {
    let physical = image.sector_bytes() as int;
    let logical = bpb.bytes_per_sector as int;
    if logical % physical != 0 {
        Err(
            FsError::SectorSizeMismatch {
                logical: bpb.bytes_per_sector,
                physical: image.sector_bytes() as usize,
            },
        )
    } else {
        sector_run(
            image.sectors(),
            bpb.fat_sector() * (logical / physical),
            (bpb.sectors_per_fat as int * (logical / physical)) as nat,
        )
    }
}

/// Reads the bytes of the first FAT of a disk. The logical sectors of the
/// parameter block may be several physical ones.
pub fn read_table<D: DiskImage>(image: &D, bpb: &Bpb) -> (r: Result<Vec<u8>, FsError>)
    ensures
        match r {
            Ok(v) => table_bytes(*image, *bpb) == Ok::<Seq<u8>, FsError>(v@),
            Err(e) => table_bytes(*image, *bpb) == Err::<Seq<u8>, FsError>(e),
        },
{
    let physical: usize = image.sector_size();
    let logical: usize = bpb.bytes_per_sector as usize;
    if logical % physical != 0 {
        return Err(FsError::SectorSizeMismatch { logical: bpb.bytes_per_sector, physical });
    }
    let ratio: u64 = (logical / physical) as u64;
    let first: u64 = bpb.fat_start() as u64;
    let length: u64 = bpb.sectors_per_fat as u64;
    assert(logical / physical <= logical) by (nonlinear_arith)
        requires
            logical >= 0,
            physical > 0,
    ;
    assert(0 <= first * ratio <= 65535 * 65535 && 0 <= length * ratio <= 65535 * 65535)
        by (nonlinear_arith)
        requires
            0 <= first <= 65535,
            0 <= length <= 65535,
            0 <= ratio <= 65535,
    ;
    read_sectors(image, first * ratio, length * ratio)
}

/// A FAT12 or a FAT16.
pub enum Fat {
    Fat12(Fat12),
    Fat16(Fat16),
}

/// The two kinds of FAT.
#[derive(Clone, Copy, Debug, PartialEq, Eq, Structural)]
pub enum FatKind {
    Fat12,
    Fat16,
}

/// The number of clusters in the data area; a cluster size of zero counts as one.
pub open spec fn clusters_of(bpb: Bpb) -> int {
    let sectors = if bpb.total_sectors as int >= bpb.data_sector() {
        bpb.total_sectors - bpb.data_sector()
    } else {
        0
    };
    sectors / (if bpb.sectors_per_cluster == 0 {
        1
    } else {
        bpb.sectors_per_cluster as int
    })
}

/// The kind of FAT that goes with a number of clusters.
pub open spec fn kind_for(clusters: int) -> FatKind {
    if clusters < 4085 {
        FatKind::Fat12
    } else {
        FatKind::Fat16
    }
}

/// What `Fat::load` gives for a disk: the kind of its FAT and the bytes of it.
pub open spec fn loaded_fat<D: DiskImage>(image: D, bpb: Bpb) -> Result<
    (FatKind, Seq<u8>),
    FsError,
> {
    if clusters_of(bpb) >= 65525 {
        Err(FsError::TooManyClusters(clusters_of(bpb) as u32))
    } else {
        match table_bytes(image, bpb) {
            Ok(raw) => Ok((kind_for(clusters_of(bpb)), raw)),
            Err(e) => Err(e),
        }
    }
}

impl View for Fat {
    type V = (FatKind, Seq<u8>);

    open spec fn view(&self) -> (FatKind, Seq<u8>) {
        match *self {
            Fat::Fat12(f) => (FatKind::Fat12, f@),
            Fat::Fat16(f) => (FatKind::Fat16, f@),
        }
    }
}

/// The chain that starts at `start` in a FAT of the given kind.
pub open spec fn fat_chain(fat: (FatKind, Seq<u8>), start: u16) -> Seq<u16> {
    match fat.0 {
        FatKind::Fat12 => fat12_chain(fat.1, start),
        FatKind::Fat16 => fat16_chain(fat.1, start),
    }
}

impl Fat {
    /// Reads the FAT of a disk; the number of clusters decides its kind.
    pub fn load<D: DiskImage>(image: &D, bpb: &Bpb) -> (r: Result<Self, FsError>)
        requires
            bpb.bytes_per_sector > 0,
        ensures
            match r {
                Ok(f) => loaded_fat(*image, *bpb) == Ok::<(FatKind, Seq<u8>), FsError>(f@),
                Err(e) => loaded_fat(*image, *bpb) == Err::<(FatKind, Seq<u8>), FsError>(e),
            },
    {
        let clusters: u32 = cluster_count(bpb);
        if clusters >= 65525 {
            return Err(FsError::TooManyClusters(clusters));
        }
        if clusters < 4085 {
            let f = Fat12::load(image, bpb)?;
            Ok(Fat::Fat12(f))
        } else {
            let f = Fat16::load(image, bpb)?;
            Ok(Fat::Fat16(f))
        }
    }

    /// The clusters of the chain that starts at `start`.
    pub fn chain(&self, start: u16) -> (r: Vec<u16>)
        ensures
            r@ == fat_chain(self@, start),
    {
        match self {
            Fat::Fat12(f) => f.chain(start),
            Fat::Fat16(f) => f.chain(start),
        }
    }

    /// Which kind of FAT this is.
    pub fn kind(&self) -> (r: FatKind)
        ensures
            r == self@.0,
    {
        match self {
            Fat::Fat12(_) => FatKind::Fat12,
            Fat::Fat16(_) => FatKind::Fat16,
        }
    }
}

/// The number of clusters in the data area.
pub fn cluster_count(bpb: &Bpb) -> (r: u32)
    requires
        bpb.bytes_per_sector > 0,
    ensures
        r == clusters_of(*bpb),
{
    let start: u32 = bpb.data_start();
    let sectors: u32 = if bpb.total_sectors >= start {
        bpb.total_sectors - start
    } else {
        0
    };
    let each: u32 = if bpb.sectors_per_cluster == 0 {
        1
    } else {
        bpb.sectors_per_cluster as u32
    };
    sectors / each
}

} // verus!
