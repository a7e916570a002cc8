//! The errors of the disk layer.

use vstd::prelude::*;

verus! {

/// Everything that can go wrong while reading a disk image.
#[derive(Clone, Copy, Debug, PartialEq, Eq, Structural)]
pub enum FsError {
    /// Fewer bytes than a boot sector with a floppy parameter block has.
    BootSectorTooShort,
    /// Fewer bytes than a boot sector with a hard-disk parameter block has.
    HddBootSectorTooShort,
    /// The sector size in a floppy parameter block is none of the usual ones.
    BytesPerSector(u16),
    /// The number of FATs in a floppy parameter block is neither one nor two.
    FatCopies(u8),
    /// The sector size in a hard-disk parameter block is none of the usual ones.
    HddBytesPerSector(u16),
    /// The number of FATs in a hard-disk parameter block is neither one nor two.
    HddFatCopies(u8),
    /// A sector that lies past the end of the image or of the partition.
    SectorOutOfRange { lba: u64 },
    /// The logical sector size is no multiple of the physical one.
    SectorSizeMismatch { logical: u16, physical: usize },
    /// So many clusters that only FAT32 could number them.
    TooManyClusters(u32),
    /// The size of an image is no multiple of its sector size.
    UnevenImageSize { size: usize, sector: usize },
    /// A physical sector size that no hard disk of the X68000 has.
    UnsupportedSectorSize(usize),
    /// An image of a kind that cannot be told, and not one of a floppy either:
    /// its size is no multiple of the sector size.
    UnknownImageFormat { size: usize },
    /// The image ends before its partition table starts.
    NoRoomForPartitionTable,
    /// Fewer bytes than the header of a partition table has.
    PartitionTableTooShort,
    /// A partition table that does not start with its magic bytes.
    PartitionTableMagic,
    /// There is no partition with this number.
    NoSuchPartition(usize),
    /// A partition that reaches past the end of its image.
    PartitionBeyondImage { index: usize, end_byte: u64, image_len: usize },
    /// A partition number was given for a floppy.
    FloppyHasNoPartitions,
    /// A partition number beyond the ones that the image has.
    PartitionOutOfRange { index: usize, count: usize },
    /// The root directory was asked for where an entry is needed.
    PathIsRoot,
    /// No entry has the name of the path component with this number.
    NotFound { component: usize },
    /// The path component with this number is not a directory.
    NotADirectory { component: usize },
    /// The directory that was to be listed is a file.
    ListedPathIsAFile,
    /// The file that was to be read is a directory.
    NotARegularFile,
    /// A directory that contains itself.
    DirectoryLoop { cluster: u16 },
}

} // verus!
