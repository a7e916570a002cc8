//! Hard-disk images: HDS (SCSI, sectors of 512 bytes) and HDF (SASI, sectors of
//! 256 bytes).
//!
//! The two differ in the size of their sectors and in the unit in which the
//! partition table counts. Each partition is a disk of its own.

use crate::error::FsError;
use crate::image::DiskImage;
use crate::partition::{partition_models, partitions_from, table_error, named_human68k,
    PartitionModel, PartitionTable, PARTITION_TABLE_SECTOR};
use crate::text::same_text;
use vstd::prelude::*;

verus! {

/// Where a partition lies, in physical sectors.
#[derive(Debug)]
pub struct PartitionInfo {
    pub name: String,
    /// The first physical sector.
    pub phys_start: u64,
    /// The number of physical sectors.
    pub phys_count: u64,
}

/// Where a partition lies, as a mathematical value.
pub struct PartitionPlace {
    pub name: Seq<char>,
    pub phys_start: nat,
    pub phys_count: nat,
}

impl View for PartitionInfo {
    type V = PartitionPlace;

    open spec fn view(&self) -> PartitionPlace {
        PartitionPlace {
            name: self.name@,
            phys_start: self.phys_start as nat,
            phys_count: self.phys_count as nat,
        }
    }
}

/// Places as mathematical values.
pub open spec fn place_models(v: Seq<PartitionInfo>) -> Seq<PartitionPlace> {
    Seq::new(v.len(), |i: int| v[i]@)
}

impl PartitionInfo {
    /// Whether this is a Human68k partition.
    pub fn is_human68k(&self) -> (r: bool)
        ensures
            r == named_human68k(self@.name),
    {
        same_text(self.name.as_str(), "Human68k")
    }
}

/// How many physical sectors one unit of the partition table is: the table of
/// a disk with 512-byte sectors counts in 1024 bytes.
pub open spec fn sectors_per_unit(sector: nat) -> nat {
    if sector == 512 {
        2
    } else {
        1
    }
}

/// Where the entries of a partition table lie, in physical sectors.
pub open spec fn places_of(entries: Seq<PartitionModel>, sector: nat) -> Seq<PartitionPlace> {
    Seq::new(
        entries.len(),
        |i: int|
            PartitionPlace {
                name: entries[i].name,
                phys_start: entries[i].start_sector as nat * sectors_per_unit(sector),
                phys_count: entries[i].length_sectors as nat * sectors_per_unit(sector),
            },
    )
}

/// The bytes in which the partition table of an image stands: at most 1024 from
/// sector 4 on.
pub open spec fn table_area(data: Seq<u8>, sector: nat) -> Seq<u8> {
    let from = (sector * PARTITION_TABLE_SECTOR) as int;
    data.subrange(
        from,
        if from + 1024 <= data.len() {
            from + 1024
        } else {
            data.len() as int
        },
    )
}

/// What an image with the given sector size has for partitions.
pub open spec fn hdd_places(data: Seq<u8>, sector: nat) -> Result<Seq<PartitionPlace>, FsError> {
    if sector != 256 && sector != 512 {
        Err(FsError::UnsupportedSectorSize(sector as usize))
    } else if data.len() % sector != 0 {
        Err(FsError::UnevenImageSize { size: data.len() as usize, sector: sector as usize })
    } else if sector * PARTITION_TABLE_SECTOR >= data.len() {
        Err(FsError::NoRoomForPartitionTable)
    } else {
        match table_error(table_area(data, sector)) {
            Some(e) => Err(e),
            None => Ok(places_of(partitions_from(table_area(data, sector), 0), sector)),
        }
    }
}

/// A hard-disk image.
pub struct HddImage<'a> {
    data: &'a [u8],
    phys_sec_size: usize,
    partitions: Vec<PartitionInfo>,
}

impl<'a> HddImage<'a> {
    /// The bytes of the image.
    pub closed spec fn bytes(&self) -> Seq<u8> {
        self.data@
    }

    /// The size of a physical sector.
    pub closed spec fn sector_len(&self) -> nat {
        self.phys_sec_size as nat
    }

    /// The partitions.
    pub closed spec fn places(&self) -> Seq<PartitionPlace> {
        place_models(self.partitions@)
    }

    /// The partitions are those of the table.
    #[verifier::type_invariant]
    spec fn matches_table(&self) -> bool {
        hdd_places(self.data@, self.phys_sec_size as nat) == Ok::<Seq<PartitionPlace>, FsError>(
            place_models(self.partitions@),
        )
    }

    /// Takes an image as one with sectors of 512 bytes.
    pub fn open_hds(data: &'a [u8]) -> (r: Result<Self, FsError>)
        ensures
            opened_hdd(r, data@, 512),
    {
        Self::open_with_phys(data, 512)
    }

    /// Takes an image as one with sectors of 256 bytes.
    pub fn open_hdf(data: &'a [u8]) -> (r: Result<Self, FsError>)
        ensures
            opened_hdd(r, data@, 256),
    {
        Self::open_with_phys(data, 256)
    }

    /// Takes an image as one with sectors of the given size.
    pub fn open_with_phys(data: &'a [u8], phys_sec_size: usize) -> (r: Result<Self, FsError>)
        ensures
            opened_hdd(r, data@, phys_sec_size as nat),
    {
        if phys_sec_size != 256 && phys_sec_size != 512 {
            return Err(FsError::UnsupportedSectorSize(phys_sec_size));
        }
        if data.len() % phys_sec_size != 0 {
            return Err(FsError::UnevenImageSize { size: data.len(), sector: phys_sec_size });
        }
        let table_from: usize = phys_sec_size * PARTITION_TABLE_SECTOR;
        if table_from >= data.len() {
            return Err(FsError::NoRoomForPartitionTable);
        }
        let table_to: usize = if data.len() - table_from >= 1024 {
            table_from + 1024
        } else {
            data.len()
        };
        let table: PartitionTable = PartitionTable::parse(&data[table_from..table_to])?;
        let unit: u64 = if phys_sec_size == 512 {
            2
        } else {
            1
        };
        let mut partitions: Vec<PartitionInfo> = Vec::new();
        let ghost all = places_of(partition_models(table.partitions@), phys_sec_size as nat);
        let mut i: usize = 0;
        while i < table.partitions.len()
            invariant
                i <= table.partitions@.len(),
                unit == sectors_per_unit(phys_sec_size as nat),
                1 <= unit <= 2,
                all == places_of(partition_models(table.partitions@), phys_sec_size as nat),
                place_models(partitions@) =~= all.take(i as int),
            decreases table.partitions@.len() - i,
        {
            let p = &table.partitions[i];
            assert(p.start_sector as u64 * unit <= 2 * u32::MAX) by (nonlinear_arith)
                requires
                    1 <= unit <= 2,
                    p.start_sector <= u32::MAX,
            ;
            assert(p.length_sectors as u64 * unit <= 2 * u32::MAX) by (nonlinear_arith)
                requires
                    1 <= unit <= 2,
                    p.length_sectors <= u32::MAX,
            ;
            let ghost before = place_models(partitions@);
            let info = PartitionInfo {
                name: p.name.clone(),
                phys_start: p.start_sector as u64 * unit,
                phys_count: p.length_sectors as u64 * unit,
            };
            partitions.push(info);
            assert(place_models(partitions@) =~= before.push(info@));
            assert(all[i as int] == info@);
            i = i + 1;
        }
        assert(place_models(partitions@) =~= all);
        Ok(HddImage { data, phys_sec_size, partitions })
    }

    /// The size of a physical sector.
    pub fn phys_sec_size(&self) -> (r: usize)
        ensures
            r == self.sector_len(),
            r == 256 || r == 512,
    {
        proof {
            use_type_invariant(self);
        }
        self.phys_sec_size
    }

    /// The partitions.
    pub fn partitions(&self) -> (r: &[PartitionInfo])
        ensures
            place_models(r@) == self.places(),
    {
        self.partitions.as_slice()
    }

    /// A partition as a disk of its own.
    pub fn partition(&self, idx: usize) -> (r: Result<PartitionImage<'a>, FsError>)
        ensures
            match r {
                Ok(p) => self.partition_error(idx) is None && p == self.part(idx),
                Err(e) => self.partition_error(idx) == Some(e),
            },
    {
        proof {
            use_type_invariant(self);
        }
        if idx >= self.partitions.len() {
            return Err(FsError::NoSuchPartition(idx));
        }
        let info = &self.partitions[idx];
        assert(info@ == self.places()[idx as int]);
        proof {
            let entry = partitions_from(table_area(self.data@, self.phys_sec_size as nat), 0)[idx as int];
            let unit = sectors_per_unit(self.phys_sec_size as nat);
            assert(entry.start_sector as nat * unit <= 2 * u32::MAX) by (nonlinear_arith)
                requires
                    1 <= unit <= 2,
                    entry.start_sector <= u32::MAX,
            ;
            assert(entry.length_sectors as nat * unit <= 2 * u32::MAX) by (nonlinear_arith)
                requires
                    1 <= unit <= 2,
                    entry.length_sectors <= u32::MAX,
            ;
        }
        let sectors: u64 = info.phys_start + info.phys_count;
        let ghost size = self.phys_sec_size as int;
        assert(0 <= sectors * size <= 4 * u32::MAX * 512 && sectors <= sectors * size)
            by (nonlinear_arith)
            requires
                0 <= sectors <= 4 * u32::MAX,
                1 <= size <= 512,
        ;
        let end_byte: u64 = sectors * self.phys_sec_size as u64;
        if end_byte > self.data.len() as u64 {
            return Err(
                FsError::PartitionBeyondImage { index: idx, end_byte, image_len: self.data.len() },
            );
        }
        Ok(
            PartitionImage {
                data: self.data,
                sector: self.phys_sec_size,
                phys_start: info.phys_start as usize,
                phys_count: info.phys_count as usize,
            },
        )
    }

    /// A partition as a disk of its own.
    pub closed spec fn part(&self, idx: usize) -> PartitionImage<'a> {
        PartitionImage {
            data: self.data,
            sector: self.phys_sec_size,
            phys_start: self.partitions@[idx as int].phys_start as usize,
            phys_count: self.partitions@[idx as int].phys_count as usize,
        }
    }

    /// A partition has the sectors of its image from its first one on.
    pub proof fn partition_sectors(&self, idx: usize)
        requires
            self.sector_len() > 0,
            self.partition_error(idx) is None,
        ensures
            self.part(idx).sector_bytes() == self.sector_len(),
            self.part(idx).sectors() == part_sectors(
                self.bytes(),
                self.sector_len(),
                self.places()[idx as int].phys_start,
                self.places()[idx as int].phys_count,
            ),
    {
        let place = self.places()[idx as int];
        let sectors = place.phys_start + place.phys_count;
        assert(sectors <= sectors * self.sector_len()) by (nonlinear_arith)
            requires
                sectors >= 0,
                self.sector_len() > 0,
        ;
        assert(self.data@.len() == self.data.len());
    }

    /// Why a partition cannot be taken, if it cannot.
    pub open spec fn partition_error(&self, idx: usize) -> Option<FsError> {
        if idx >= self.places().len() {
            Some(FsError::NoSuchPartition(idx))
        } else {
            let p = self.places()[idx as int];
            let end = (p.phys_start + p.phys_count) * self.sector_len();
            if end > self.bytes().len() {
                Some(
                    FsError::PartitionBeyondImage {
                        index: idx,
                        end_byte: end as u64,
                        image_len: self.bytes().len() as usize,
                    },
                )
            } else {
                None
            }
        }
    }
}

/// Whether `r` is what opening an image with the given sector size gives.
pub open spec fn opened_hdd(r: Result<HddImage, FsError>, data: Seq<u8>, sector: nat) -> bool {
    match r {
        Ok(h) => {
            &&& h.bytes() == data
            &&& h.sector_len() == sector
            &&& hdd_places(data, sector) == Ok::<Seq<PartitionPlace>, FsError>(h.places())
        },
        Err(e) => hdd_places(data, sector) == Err::<Seq<PartitionPlace>, FsError>(e),
    }
}

/// A partition of a hard-disk image, as a disk of its own.
pub struct PartitionImage<'a> {
    data: &'a [u8],
    sector: usize,
    phys_start: usize,
    phys_count: usize,
}

impl<'a> PartitionImage<'a> {
    /// The partition lies within the image.
    #[verifier::type_invariant]
    spec fn lies_within(&self) -> bool {
        &&& self.sector == 256 || self.sector == 512
        &&& (self.phys_start + self.phys_count) * self.sector <= self.data@.len()
    }
}

/// The sectors of a part of an image.
pub open spec fn part_sectors(data: Seq<u8>, sector: nat, start: nat, count: nat) -> Seq<Seq<u8>> {
    Seq::new(
        count,
        |i: int| Seq::new(sector, |k: int| data[(start + i) * sector + k]),
    )
}

impl<'a> DiskImage for PartitionImage<'a> {
    closed spec fn sectors(&self) -> Seq<Seq<u8>> {
        part_sectors(
            self.data@,
            self.sector as nat,
            self.phys_start as nat,
            self.phys_count as nat,
        )
    }

    closed spec fn sector_bytes(&self) -> nat {
        self.sector as nat
    }

    proof fn sectors_are_even(&self) {
    }

    fn sector_size(&self) -> (n: usize) {
        proof {
            use_type_invariant(self);
        }
        self.sector
    }

    fn sector_count(&self) -> (n: usize) {
        self.phys_count
    }

    fn read_sector(&self, lba: usize) -> (r: Result<&[u8], FsError>) {
        proof {
            use_type_invariant(self);
        }
        if lba >= self.phys_count {
            return Err(FsError::SectorOutOfRange { lba: lba as u64 });
        }
        let ghost sector = self.sector as int;
        let ghost before = self.phys_start + lba;
        let ghost all = self.phys_start + self.phys_count;
        assert(before * sector + sector <= all * sector && before * sector >= 0 && before <= before
            * sector) by (nonlinear_arith)
            requires
                0 <= before < all,
                sector > 0,
        ;
        assert(all * sector <= self.data.len());
        let at: usize = (self.phys_start + lba) * self.sector;
        let s: &[u8] = &self.data[at..at + self.sector];
        assert(s@ =~= self.sectors()[lba as int]);
        Ok(s)
    }
}

} // verus!
