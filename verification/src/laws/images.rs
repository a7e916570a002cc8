//! Where in an image its sectors and partitions lie, and what kind of image it is.

use crate::codec::{ascii_is_utf8, utf8_text};
use crate::error::FsError;
use crate::hdd::{hdd_places, opened_hdd, HddImage};
use crate::image::{image_is, kind_by_extension, kind_by_magic, DiskImage, ImageKind,
    OpenedImage, XdfImage};
use crate::laws::layout::{case_is_all_that_goes, highest_first, same_letters};
use crate::partition::{entry_bytes, partitions_from, table_error, until_zero};
use crate::path::extension_of;
use crate::spec::{mounted_partition, mounted_volume, volume_of, Volume};
use crate::text::{end_trimmed, is_white};
use vstd::arithmetic::div_mod::lemma_fundamental_div_mod;
use vstd::prelude::*;

verus! {

/// The letters `X68K` at a place.
pub open spec fn x68k_at(b: Seq<u8>, at: int) -> bool {
    at + 4 <= b.len() && b[at] == 88 && b[at + 1] == 54 && b[at + 2] == 56 && b[at + 3] == 75
}

proof fn x68k_stands(b: Seq<u8>, at: int)
    requires
        at >= 0,
    ensures
        crate::bytes::stands_at(b, at, crate::partition::PARTITION_MAGIC@) <==> x68k_at(b, at),
{
    let magic = crate::partition::PARTITION_MAGIC@;
    if at + 4 <= b.len() {
        let s = b.subrange(at, at + 4);
        assert(s[0] == b[at] && s[1] == b[at + 1] && s[2] == b[at + 2] && s[3] == b[at + 3]);
        if x68k_at(b, at) {
            assert(s =~= magic);
        }
    }
}

/// Whether the partition table in `b` has no entry `i` and none after it: there is room for
/// fifteen entries of 16 bytes after a header of 16 bytes, and an entry of zeros or another
/// table ends it before.
pub open spec fn no_entry_from(b: Seq<u8>, i: int) -> bool {
    ||| i >= 15
    ||| 16 * i + 32 > b.len()
    ||| forall|k: int| 16 * i + 16 <= k < 16 * i + 32 ==> #[trigger] b[k] == 0
    ||| x68k_at(b, 16 * i + 16)
}

/// The entries of a partition table: an entry that starts with a zero byte is passed over;
/// of the others, bytes 8 to 11 are the start and bytes 12 to 15 the length, with the
/// highest byte first.
pub proof fn partition_tables_are_laid_out(b: Seq<u8>, i: int)
    requires
        i >= 0,
    ensures
        ({
            let here = partitions_from(b, i);
            let after = partitions_from(b, i + 1);
            if no_entry_from(b, i) {
                here.len() == 0
            } else if b[16 * i + 16] == 0 {
                here == after
            } else {
                &&& here.len() == after.len() + 1
                &&& here.skip(1) == after
                &&& here[0].start_sector == highest_first(b, 16 * i + 24)
                &&& here[0].length_sectors == highest_first(b, 16 * i + 28)
            }
        }),
        table_error(b) is None <==> b.len() >= 16 && x68k_at(b, 0),
{
    x68k_stands(b, 0);
    if i < 15 && 16 * i + 32 <= b.len() {
        let e = entry_bytes(b, i);
        assert(forall|k: int| 0 <= k < 16 ==> e[k] == b[16 * i + 16 + k]);
        x68k_stands(e, 0);
        assert(x68k_at(e, 0) == x68k_at(b, 16 * i + 16));
        if forall|k: int| 0 <= k < 16 ==> #[trigger] e[k] == 0 {
            assert forall|k: int| 16 * i + 16 <= k < 16 * i + 32 implies #[trigger] b[k] == 0 by {
                assert(e[k - 16 * i - 16] == b[k]);
            }
        }
        if forall|k: int| 16 * i + 16 <= k < 16 * i + 32 ==> #[trigger] b[k] == 0 {
            assert forall|k: int| 0 <= k < 16 implies #[trigger] e[k] == 0 by {
                assert(b[16 * i + 16 + k] == 0);
            }
        }
        if !no_entry_from(b, i) && b[16 * i + 16] != 0 {
            assert(partitions_from(b, i).skip(1) =~= partitions_from(b, i + 1));
        }
    }
}

proof fn until_zero_is(b: Seq<u8>, n: int)
    requires
        0 <= n <= b.len(),
        forall|k: int| 0 <= k < n ==> #[trigger] b[k] != 0,
        n < b.len() ==> b[n] == 0,
    ensures
        until_zero(b) == b.take(n),
    decreases b.len(),
{
    if n == 0 {
        assert(b.take(0) =~= Seq::<u8>::empty());
    } else {
        let rest = b.skip(1);
        assert forall|k: int| 0 <= k < n - 1 implies #[trigger] rest[k] != 0 by {
            assert(rest[k] == b[k + 1]);
        }
        until_zero_is(rest, n - 1);
        assert(seq![b[0]] + rest.take(n - 1) =~= b.take(n));
    }
}

/// The name of a partition: up to eight ASCII characters, the first of 16 bytes, without
/// what follows a zero byte.
pub proof fn partition_names_are_laid_out(b: Seq<u8>, i: int, n: int)
    requires
        i >= 0,
        !no_entry_from(b, i),
        0 < n <= 8,
        forall|k: int| 0 <= k < n ==> 0x20 < #[trigger] b[16 * i + 16 + k] < 0x7F,
        n < 8 ==> b[16 * i + 16 + n] == 0,
    ensures
        partitions_from(b, i)[0].name == Seq::new(n as nat, |k: int| b[16 * i + 16 + k] as char),
{
    let e = entry_bytes(b, i);
    let field = e.subrange(0, 8);
    let text = Seq::new(n as nat, |k: int| b[16 * i + 16 + k] as char);
    assert(forall|k: int| 0 <= k < 8 ==> field[k] == b[16 * i + 16 + k]);
    assert(b[16 * i + 16 + 0] > 0x20);
    partition_tables_are_laid_out(b, i);
    until_zero_is(field, n);
    let kept = field.take(n);
    assert forall|k: int| 0 <= k < kept.len() implies #[trigger] kept[k] < 0x80 by {
        assert(kept[k] == b[16 * i + 16 + k]);
    }
    ascii_is_utf8(kept);
    assert(utf8_text(kept) =~= text);
    assert(text.last() == b[16 * i + 16 + (n - 1)] as char);
    assert(!is_white(text.last()));
    assert(end_trimmed(text) == text);
    assert(partitions_from(b, i)[0] == crate::partition::partition_of(e));
}

/// The partitions of a hard disk: the table stands at the fourth sector, in at most 1024
/// bytes. It counts in 1024 bytes where sectors have 512 bytes, and in 256 bytes where
/// sectors have 256.
pub proof fn partitions_lie_where_the_table_says(data: Seq<u8>, sector: nat)
    ensures
        ({
            let from = 4 * sector as int;
            let area = data.subrange(
                from,
                if data.len() < from + 1024 {
                    data.len() as int
                } else {
                    from + 1024
                },
            );
            &&& hdd_places(data, sector) is Ok <==> (sector == 256 || sector == 512) && data.len()
                % sector == 0 && from < data.len() && area.len() >= 16 && x68k_at(area, 0)
            &&& hdd_places(data, sector) matches Ok(places) ==> {
                let entries = partitions_from(area, 0);
                let unit: int = if sector == 512 {
                    1024
                } else {
                    256
                };
                &&& places.len() == entries.len()
                &&& forall|i: int|
                    #![trigger places[i]]
                    0 <= i < places.len() ==> {
                        &&& places[i].name == entries[i].name
                        &&& places[i].phys_start * sector == entries[i].start_sector * unit
                        &&& places[i].phys_count * sector == entries[i].length_sectors * unit
                    }
            }
        }),
{
    let from = 4 * sector as int;
    let area = data.subrange(
        from,
        if data.len() < from + 1024 {
            data.len() as int
        } else {
            from + 1024
        },
    );
    if (sector == 256 || sector == 512) && from < data.len() {
        assert(area == crate::hdd::table_area(data, sector));
        partition_tables_are_laid_out(area, 0);
    }
}

/// A partition holds the bytes of its image from where the table says that it starts: byte
/// `n` of it stands so far behind that place. It can be taken exactly where the image
/// holds all of it.
pub proof fn partitions_hold_bytes_of_the_image(h: HddImage, idx: usize)
    requires
        opened_hdd(Ok(h), h.bytes(), h.sector_len()),
    ensures
        ({
            let size = h.sector_len() as int;
            let from = 4 * size;
            let area = h.bytes().subrange(
                from,
                if h.bytes().len() < from + 1024 {
                    h.bytes().len() as int
                } else {
                    from + 1024
                },
            );
            let entries = partitions_from(area, 0);
            let unit: int = if size == 512 {
                1024
            } else {
                256
            };
            &&& h.partition_error(idx) is None <==> idx < entries.len() && (
            entries[idx as int].start_sector + entries[idx as int].length_sectors) * unit
                <= h.bytes().len()
            &&& h.partition_error(idx) is None ==> {
                let p = h.part(idx);
                &&& p.sector_bytes() == size
                &&& p.sectors().len() * size == entries[idx as int].length_sectors * unit
                &&& forall|n: int|
                    0 <= n < p.sectors().len() * size ==> #[trigger] p.sectors()[n / size][n % size]
                        == h.bytes()[entries[idx as int].start_sector * unit + n]
            }
        }),
{
    let size = h.sector_len() as int;
    let from = 4 * size;
    let area = h.bytes().subrange(
        from,
        if h.bytes().len() < from + 1024 {
            h.bytes().len() as int
        } else {
            from + 1024
        },
    );
    let entries = partitions_from(area, 0);
    let unit: int = if size == 512 {
        1024
    } else {
        256
    };
    partitions_lie_where_the_table_says(h.bytes(), h.sector_len());
    if idx < entries.len() {
        let place = h.places()[idx as int];
        let e = entries[idx as int];
        assert((place.phys_start + place.phys_count) * size == (e.start_sector + e.length_sectors)
            * unit) by (nonlinear_arith)
            requires
                place.phys_start * size == e.start_sector * unit,
                place.phys_count * size == e.length_sectors * unit,
        ;
        if h.partition_error(idx) is None {
            h.partition_sectors(idx);
            let p = h.part(idx);
            assert forall|n: int| 0 <= n < p.sectors().len() * size implies #[trigger] p.sectors()[n
                / size][n % size] == h.bytes()[e.start_sector * unit + n] by {
                lemma_fundamental_div_mod(n, size);
                let q = n / size;
                let k = n % size;
                assert(0 <= q < place.phys_count && 0 <= k < size) by (nonlinear_arith)
                    requires
                        q == n / size,
                        k == n % size,
                        0 <= n < place.phys_count * size,
                        size > 0,
                ;
                assert((place.phys_start + q) * size + k == e.start_sector * unit + n)
                    by (nonlinear_arith)
                    requires
                        place.phys_start * size == e.start_sector * unit,
                        n == size * q + k,
                ;
            }
        }
    }
}

/// A floppy image is cut into sectors of 512 bytes.
pub proof fn floppies_have_sectors_of_512_bytes(image: XdfImage)
    ensures
        image.sector_bytes() == 512,
        image.sectors().len() == image.bytes().len() / 512,
        forall|i: int, k: int|
            #![trigger image.sectors()[i][k]]
            0 <= i < image.sectors().len() && 0 <= k < 512 ==> image.sectors()[i][k]
                == image.bytes()[512 * i + k],
{
}

/// What the first bytes of an image tell: a SCSI disk has the letters `X68SCSI1` at its
/// beginning or a partition table at byte 2048, a SASI disk a partition table at byte 1024.
pub proof fn kinds_are_told_by_magic(data: Seq<u8>)
    ensures
        ({
            let scsi = data.len() >= 8 && data.take(8) == seq![88u8, 54, 56, 83, 67, 83, 73, 49];
            &&& kind_by_magic(data) == Some(ImageKind::Hds) <==> scsi || x68k_at(data, 2048)
            &&& kind_by_magic(data) == Some(ImageKind::Hdf) <==> !scsi && !x68k_at(data, 2048)
                && x68k_at(data, 1024)
            &&& kind_by_magic(data) != Some(ImageKind::Xdf)
        }),
{
    x68k_stands(data, 2048);
    x68k_stands(data, 1024);
    let mark = seq![88u8, 54, 56, 83, 67, 83, 73, 49];
    assert(mark =~= crate::image::scsi_mark());
    if data.len() >= 8 {
        assert(data.subrange(0, 8) =~= data.take(8));
    }
}

/// What the extension of a path tells, in capitals or small letters.
pub proof fn kinds_are_told_by_extension(path: Seq<char>)
    ensures
        kind_by_extension(path) == Some(ImageKind::Xdf) <==> extension_of(path) is Some
            && same_letters(extension_of(path)->0, "xdf"@),
        kind_by_extension(path) == Some(ImageKind::Hds) <==> extension_of(path) is Some
            && same_letters(extension_of(path)->0, "hds"@),
        kind_by_extension(path) == Some(ImageKind::Hdf) <==> extension_of(path) is Some
            && same_letters(extension_of(path)->0, "hdf"@),
{
    reveal_strlit("xdf");
    reveal_strlit("hds");
    reveal_strlit("hdf");
    if extension_of(path) is Some {
        let ext = extension_of(path)->0;
        case_is_all_that_goes(ext, "xdf"@);
        case_is_all_that_goes(ext, "hds"@);
        case_is_all_that_goes(ext, "hdf"@);
        assert(crate::text::lowered("xdf"@) =~= "xdf"@);
        assert(crate::text::lowered("hds"@) =~= "hds"@);
        assert(crate::text::lowered("hdf"@) =~= "hdf"@);
        assert("xdf"@[0] == 'x' && "hds"@[0] == 'h' && "hds"@[2] == 's' && "hdf"@[0] == 'h'
            && "hdf"@[2] == 'f');
    }
}

/// An image is what its extension tells, or else its first bytes, or else a floppy: SCSI
/// disks have sectors of 512 bytes, SASI disks of 256. It keeps its bytes.
pub proof fn images_are_opened_as_what_they_are(
    r: Result<OpenedImage, FsError>,
    path: Seq<char>,
    data: Seq<u8>,
)
    requires
        image_is(r, path, data),
    ensures
        ({
            let kind = match kind_by_extension(path) {
                Some(k) => k,
                None => match kind_by_magic(data) {
                    Some(k) => k,
                    None => ImageKind::Xdf,
                },
            };
            &&& r matches Ok(image) ==> image.spec_kind() == kind
            &&& r matches Ok(OpenedImage::Floppy(x)) ==> x.bytes() == data
            &&& r matches Ok(OpenedImage::Hdd(h)) ==> h.bytes() == data && h.sector_len() == (
            if kind == ImageKind::Hds {
                512nat
            } else {
                256nat
            }) && opened_hdd(Ok(h), data, h.sector_len())
            &&& kind == ImageKind::Xdf ==> (r is Ok <==> data.len() % 512 == 0)
            &&& kind == ImageKind::Hds ==> (r is Ok <==> hdd_places(data, 512) is Ok)
            &&& kind == ImageKind::Hdf ==> (r is Ok <==> hdd_places(data, 256) is Ok)
        }),
{
    kinds_are_told_by_magic(data);
}

/// A floppy is one volume and has no partitions to choose from. Of a hard disk the
/// partition with the given number is mounted, or else the first one, by the parameter block
/// in its first sector.
pub proof fn volumes_are_chosen_by_number(opened: OpenedImage, partition: Option<usize>)
    ensures
        opened matches OpenedImage::Floppy(x) ==> {
            &&& volume_of(opened, partition) is Ok <==> partition is None
            &&& partition is None ==> volume_of(opened, partition) == Ok::<Volume, FsError>(
                Volume::Floppy(x),
            )
        },
        opened matches OpenedImage::Hdd(h) ==> {
            let idx = if partition is Some {
                partition->0
            } else {
                0
            };
            &&& volume_of(opened, partition) is Ok <==> h.partition_error(idx) is None
            &&& h.partition_error(idx) is None ==> volume_of(opened, partition) == Ok::<
                Volume,
                FsError,
            >(Volume::Partition(h.part(idx)))
        },
        volume_of(opened, partition) matches Ok(v) ==> mounted_partition(opened, partition)
            == mounted_volume(v),
        volume_of(opened, partition) is Err ==> mounted_partition(opened, partition) is Err,
{
}

/// A volume is mounted by the parameter block in its first sector: that of a floppy, or that
/// of a hard-disk partition.
pub proof fn volumes_are_mounted_by_their_first_sector(volume: Volume)
    ensures
        mounted_volume(volume) matches Ok(fs) ==> {
            &&& fs.sectors == volume.sectors()
            &&& fs.sectors.len() > 0
            &&& volume is Floppy ==> crate::bpb::floppy_or_hudson_bpb(fs.sectors[0]) == Ok::<
                crate::bpb::Bpb,
                FsError,
            >(fs.bpb)
            &&& volume is Partition ==> crate::bpb::hdd_bpb(fs.sectors[0]) == Ok::<
                crate::bpb::Bpb,
                FsError,
            >(fs.bpb)
            &&& crate::fs::mounted(volume, fs.bpb) == Ok::<crate::fs::DiskModel, FsError>(fs)
        },
{
}

} // verus!
