//! Sector-wise access to disk images.

use crate::bytes::{has_at, push_bytes, stands_at};
use crate::error::FsError;
use crate::hdd::{opened_hdd, part_sectors, HddImage};
use crate::partition::PARTITION_MAGIC;
use crate::path::{extension, extension_of};
use crate::text::{lowered, same_text, to_lower};
use vstd::prelude::*;

verus! {

/// The sector size of a floppy image.
pub const SECTOR_SIZE: usize = 512;

/// A disk that is read sector by sector.
pub trait DiskImage {
    /// The sectors of the disk.
    spec fn sectors(&self) -> Seq<Seq<u8>>;

    /// The size of one sector in bytes.
    spec fn sector_bytes(&self) -> nat;

    /// All sectors have the same size.
    proof fn sectors_are_even(&self)
        ensures
            forall|i: int|
                0 <= i < self.sectors().len() ==> (#[trigger] self.sectors()[i]).len()
                    == self.sector_bytes(),
    ;

    /// The size of one sector in bytes, which is never zero.
    fn sector_size(&self) -> (n: usize)
        ensures
            n == self.sector_bytes(),
            n > 0,
    ;

    /// The number of sectors.
    fn sector_count(&self) -> (n: usize)
        ensures
            n == self.sectors().len(),
    ;

    /// One sector; an error exactly where the disk has no such sector.
    fn read_sector(&self, lba: usize) -> (r: Result<&[u8], FsError>)
        ensures
            match r {
                Ok(s) => lba < self.sectors().len() && s@ == self.sectors()[lba as int],
                Err(e) => lba >= self.sectors().len() && e == (FsError::SectorOutOfRange {
                    lba: lba as u64,
                }),
            },
    ;
}

/// The bytes of `count` consecutive sectors from `start` on.
pub open spec fn joined(sectors: Seq<Seq<u8>>, start: int, count: nat) -> Seq<u8>
    decreases count,
{
    if count == 0 {
        Seq::empty()
    } else {
        joined(sectors, start, (count - 1) as nat) + sectors[start + count - 1]
    }
}

/// What reading `count` sectors from `start` on gives: their bytes, or the first
/// one that does not exist.
pub open spec fn sector_run(sectors: Seq<Seq<u8>>, start: int, count: nat) -> Result<
    Seq<u8>,
    FsError,
> {
    if count == 0 || start + count <= sectors.len() {
        Ok(joined(sectors, start, count))
    } else {
        Err(
            FsError::SectorOutOfRange {
                lba: (if start <= sectors.len() {
                    sectors.len() as int
                } else {
                    start
                }) as u64,
            },
        )
    }
}

/// Reads `count` sectors from `start` on.
pub fn read_sectors<D: DiskImage>(image: &D, start: u64, count: u64) -> (r: Result<
    Vec<u8>,
    FsError,
>)
    requires
        start + count <= u64::MAX,
    ensures
        match r {
            Ok(v) => sector_run(image.sectors(), start as int, count as nat) == Ok::<
                Seq<u8>,
                FsError,
            >(v@),
            Err(e) => sector_run(image.sectors(), start as int, count as nat) == Err::<
                Seq<u8>,
                FsError,
            >(e),
        },
{
    let mut out: Vec<u8> = Vec::new();
    let mut i: u64 = 0;
    while i < count
        invariant
            i <= count,
            start + count <= u64::MAX,
            i == 0 || start + i <= image.sectors().len(),
            out@ == joined(image.sectors(), start as int, i as nat),
        decreases count - i,
    {
        let lba: u64 = start + i;
        let total: usize = image.sector_count();
        if lba >= total as u64 {
            return Err(FsError::SectorOutOfRange { lba });
        }
        let sector = image.read_sector(lba as usize)?;
        push_bytes(&mut out, sector);
        i = i + 1;
    }
    Ok(out)
}

/// Joined sectors are as long as the sectors together.
pub proof fn joined_length(sectors: Seq<Seq<u8>>, start: int, count: nat, size: nat)
    requires
        0 <= start,
        start + count <= sectors.len(),
        forall|i: int| 0 <= i < sectors.len() ==> (#[trigger] sectors[i]).len() == size,
    ensures
        joined(sectors, start, count).len() == count * size,
    decreases count,
{
    if count == 0 {
        assert(count * size == 0) by (nonlinear_arith)
            requires
                count == 0,
        ;
    } else {
        joined_length(sectors, start, (count - 1) as nat, size);
        assert(count * size == (count - 1) * size + size) by (nonlinear_arith);
    }
}

/// A floppy image: its sectors, one after the other.
#[derive(Clone, Copy)]
pub struct XdfImage<'a> {
    data: &'a [u8],
}

impl<'a> XdfImage<'a> {
    /// The bytes of the image.
    pub closed spec fn bytes(&self) -> Seq<u8> {
        self.data@
    }

    /// Takes bytes as a floppy image. Floppies come in several sizes; all are a
    /// whole number of sectors.
    pub fn open(data: &'a [u8]) -> (r: Result<Self, FsError>)
        ensures
            match r {
                Ok(x) => data@.len() % SECTOR_SIZE as nat == 0 && x.bytes() == data@,
                Err(e) => data@.len() % SECTOR_SIZE as nat != 0 && e == (FsError::UnevenImageSize {
                    size: data@.len() as usize,
                    sector: SECTOR_SIZE,
                }),
            },
    {
        if data.len() % SECTOR_SIZE != 0 {
            return Err(FsError::UnevenImageSize { size: data.len(), sector: SECTOR_SIZE });
        }
        Ok(XdfImage { data })
    }
}

/// The whole sectors of a floppy image.
pub open spec fn floppy_sectors(data: Seq<u8>) -> Seq<Seq<u8>> {
    Seq::new(
        data.len() / SECTOR_SIZE as nat,
        |i: int| data.subrange(SECTOR_SIZE * i, SECTOR_SIZE * i + SECTOR_SIZE),
    )
}

impl<'a> DiskImage for XdfImage<'a> {
    open spec fn sectors(&self) -> Seq<Seq<u8>> {
        floppy_sectors(self.bytes())
    }

    open spec fn sector_bytes(&self) -> nat {
        SECTOR_SIZE as nat
    }

    proof fn sectors_are_even(&self) {
    }

    fn sector_size(&self) -> (n: usize) {
        SECTOR_SIZE
    }

    fn sector_count(&self) -> (n: usize) {
        self.data.len() / SECTOR_SIZE
    }

    fn read_sector(&self, lba: usize) -> (r: Result<&[u8], FsError>) {
        if lba >= self.data.len() / SECTOR_SIZE {
            return Err(FsError::SectorOutOfRange { lba: lba as u64 });
        }
        let at: usize = lba * SECTOR_SIZE;
        Ok(&self.data[at..at + SECTOR_SIZE])
    }
}

/// A disk in memory, with sectors of any size.
pub struct MemoryImage {
    data: Vec<u8>,
    sector: usize,
}

impl MemoryImage {
    /// Sectors are not empty.
    #[verifier::type_invariant]
    spec fn has_sectors(&self) -> bool {
        self.sector > 0
    }

    /// The bytes of the disk.
    pub closed spec fn bytes(&self) -> Seq<u8> {
        self.data@
    }

    /// Takes bytes as a disk; what does not fill a sector at its end is out of
    /// reach.
    pub fn new(data: Vec<u8>, sector: usize) -> (r: Self)
        requires
            sector > 0,
        ensures
            r.bytes() == data@,
            r.sector_bytes() == sector,
            r.sectors() == part_sectors(
                data@,
                sector as nat,
                0,
                data@.len() / sector as nat,
            ),
    {
        MemoryImage { data, sector }
    }
}

impl DiskImage for MemoryImage {
    closed spec fn sectors(&self) -> Seq<Seq<u8>> {
        part_sectors(
            self.data@,
            self.sector as nat,
            0,
            if self.sector == 0 {
                0
            } else {
                self.data@.len() / self.sector as nat
            },
        )
    }

    closed spec fn sector_bytes(&self) -> nat {
        self.sector as nat
    }

    proof fn sectors_are_even(&self) {
    }

    fn sector_size(&self) -> (n: usize) {
        proof {
            use_type_invariant(self);
        }
        self.sector
    }

    fn sector_count(&self) -> (n: usize) {
        proof {
            use_type_invariant(self);
        }
        self.data.len() / self.sector
    }

    fn read_sector(&self, lba: usize) -> (r: Result<&[u8], FsError>) {
        proof {
            use_type_invariant(self);
        }
        let count: usize = self.data.len() / self.sector;
        if lba >= count {
            return Err(FsError::SectorOutOfRange { lba: lba as u64 });
        }
        let ghost len = self.data@.len() as int;
        let ghost size = self.sector as int;
        assert(lba * size + size <= len && lba * size >= 0) by (nonlinear_arith)
            requires
                0 <= lba < len / size,
                size > 0,
        ;
        assert(len == self.data.len());
        let at: usize = lba * self.sector;
        let s: &[u8] = &self.data.as_slice()[at..at + self.sector];
        assert(s@ =~= self.sectors()[lba as int]);
        Ok(s)
    }
}

/// The kinds of image.
#[derive(Clone, Copy, Debug, PartialEq, Eq, Structural)]
pub enum ImageKind {
    /// A floppy.
    Xdf,
    /// A SCSI hard disk.
    Hds,
    /// A SASI hard disk.
    Hdf,
}

/// The letters `X68SCSI1`.
pub open spec fn scsi_mark() -> Seq<u8> {
    seq![0x58u8, 0x36, 0x38, 0x53, 0x43, 0x53, 0x49, 0x31]
}

/// The kind that the first bytes of an image tell: a SCSI disk by its mark or by
/// a partition table at sector 4 of 512 bytes, a SASI disk by a table at sector
/// 4 of 256 bytes.
pub open spec fn kind_by_magic(data: Seq<u8>) -> Option<ImageKind> {
    if stands_at(data, 0, scsi_mark()) || stands_at(data, 0x800, PARTITION_MAGIC@) {
        Some(ImageKind::Hds)
    } else if stands_at(data, 0x400, PARTITION_MAGIC@) {
        Some(ImageKind::Hdf)
    } else {
        None
    }
}

/// The kind that the extension of a path tells, in either case of letters.
pub open spec fn kind_by_extension(path: Seq<char>) -> Option<ImageKind> {
    match extension_of(path) {
        None => None,
        Some(ext) => if lowered(ext) == "xdf"@ {
            Some(ImageKind::Xdf)
        } else if lowered(ext) == "hds"@ {
            Some(ImageKind::Hds)
        } else if lowered(ext) == "hdf"@ {
            Some(ImageKind::Hdf)
        } else {
            None
        },
    }
}

/// An image of either sort.
pub enum OpenedImage<'a> {
    /// A floppy, which is one volume.
    Floppy(XdfImage<'a>),
    /// A hard disk, which has partitions.
    Hdd(HddImage<'a>),
}

/// Whether `r` is what taking bytes as a floppy gives, with the error that goes
/// with them.
pub open spec fn opened_as_floppy(
    r: Result<OpenedImage, FsError>,
    data: Seq<u8>,
    uneven: FsError,
) -> bool {
    match r {
        Ok(OpenedImage::Floppy(x)) => data.len() % SECTOR_SIZE as nat == 0 && x.bytes() == data,
        Ok(OpenedImage::Hdd(_)) => false,
        Err(e) => data.len() % SECTOR_SIZE as nat != 0 && e == uneven,
    }
}

/// Whether `r` is what taking bytes as a hard disk gives.
pub open spec fn opened_as_hdd(
    r: Result<OpenedImage, FsError>,
    data: Seq<u8>,
    sector: nat,
) -> bool {
    match r {
        Ok(OpenedImage::Floppy(_)) => false,
        Ok(OpenedImage::Hdd(h)) => opened_hdd(Ok(h), data, sector),
        Err(e) => opened_hdd(Err(e), data, sector),
    }
}

impl<'a> OpenedImage<'a> {
    /// Opens an image. The extension of its path decides what it is, and for any
    /// other extension than `xdf`, `hds` and `hdf` the magic bytes do; an image
    /// that these do not tell is taken as a floppy.
    pub fn open(path: &str, data: &'a [u8]) -> (r: Result<Self, FsError>)
        ensures
            image_is(r, path@, data@),
    {
        let ext: String = match extension(path) {
            Some(e) => to_lower(e.as_str()),
            None => {
                return Self::detect_by_magic(data);
            },
        };
        if same_text(ext.as_str(), "xdf") {
            let x = XdfImage::open(data)?;
            Ok(OpenedImage::Floppy(x))
        } else if same_text(ext.as_str(), "hds") {
            let h = HddImage::open_hds(data)?;
            Ok(OpenedImage::Hdd(h))
        } else if same_text(ext.as_str(), "hdf") {
            let h = HddImage::open_hdf(data)?;
            Ok(OpenedImage::Hdd(h))
        } else {
            Self::detect_by_magic(data)
        }
    }

    /// Whether `r` is what opening an image by its magic bytes gives.
    pub open spec fn opened_by_magic(r: Result<OpenedImage, FsError>, data: Seq<u8>) -> bool {
        match kind_by_magic(data) {
            Some(ImageKind::Hds) => opened_as_hdd(r, data, 512),
            Some(ImageKind::Hdf) => opened_as_hdd(r, data, 256),
            _ => opened_as_floppy(
                r,
                data,
                FsError::UnknownImageFormat { size: data.len() as usize },
            ),
        }
    }

    /// Opens an image whose extension does not tell what it is.
    pub fn detect_by_magic(data: &'a [u8]) -> (r: Result<Self, FsError>)
        ensures
            Self::opened_by_magic(r, data@),
    {
        let scsi: [u8; 8] = [0x58, 0x36, 0x38, 0x53, 0x43, 0x53, 0x49, 0x31];
        assert(scsi@ =~= scsi_mark());
        if has_at(data, 0, scsi.as_slice()) || has_at(data, 0x800, PARTITION_MAGIC.as_slice()) {
            let h = HddImage::open_hds(data)?;
            return Ok(OpenedImage::Hdd(h));
        }
        if has_at(data, 0x400, PARTITION_MAGIC.as_slice()) {
            let h = HddImage::open_hdf(data)?;
            return Ok(OpenedImage::Hdd(h));
        }
        match XdfImage::open(data) {
            Ok(x) => Ok(OpenedImage::Floppy(x)),
            Err(_) => Err(FsError::UnknownImageFormat { size: data.len() }),
        }
    }

    /// The kind of image that was opened.
    pub open spec fn spec_kind(&self) -> ImageKind {
        match *self {
            OpenedImage::Floppy(_) => ImageKind::Xdf,
            OpenedImage::Hdd(h) => if h.sector_len() == 512 {
                ImageKind::Hds
            } else {
                ImageKind::Hdf
            },
        }
    }

    /// The kind of image that was opened.
    pub fn kind(&self) -> (r: ImageKind)
        ensures
            r == self.spec_kind(),
    {
        match self {
            OpenedImage::Floppy(_) => ImageKind::Xdf,
            OpenedImage::Hdd(h) => {
                if h.phys_sec_size() == 512 {
                    ImageKind::Hds
                } else {
                    ImageKind::Hdf
                }
            },
        }
    }

    /// The name of the format.
    pub fn format_name(&self) -> (r: &'static str)
        ensures
            r@ == upper_name(self.spec_kind()),
    {
        match self.kind() {
            ImageKind::Xdf => "XDF",
            ImageKind::Hds => "HDS",
            ImageKind::Hdf => "HDF",
        }
    }
}

/// Whether `r` is what opening an image with a path and contents gives.
pub open spec fn image_is(r: Result<OpenedImage, FsError>, path: Seq<char>, data: Seq<u8>) -> bool {
    match kind_by_extension(path) {
        Some(ImageKind::Xdf) => opened_as_floppy(
            r,
            data,
            FsError::UnevenImageSize { size: data.len() as usize, sector: SECTOR_SIZE },
        ),
        Some(ImageKind::Hds) => opened_as_hdd(r, data, 512),
        Some(ImageKind::Hdf) => opened_as_hdd(r, data, 256),
        None => OpenedImage::opened_by_magic(r, data),
    }
}

/// The name of a format, in capitals.
pub open spec fn upper_name(kind: ImageKind) -> Seq<char> {
    match kind {
        ImageKind::Xdf => "XDF"@,
        ImageKind::Hds => "HDS"@,
        ImageKind::Hdf => "HDF"@,
    }
}

} // verus!
