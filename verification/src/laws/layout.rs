//! How boot sectors, FATs, directories and partition tables are laid out in bytes.

use crate::bpb::{floppy_bpb, floppy_or_hudson_bpb, hdd_bpb, hudson_mark, hudson_signed, Bpb};
use crate::bytes::stands_at;
use crate::codec::sjis_text;
use crate::direntry::{entry_of, padding_is_all_that_goes, without_padding, DirEntryModel,
    EntryKind};
use crate::error::FsError;
use crate::fat::{chain_is_linked, chain_stops_at_end, fat_chain, FatKind};
use crate::fat12::fat12_entry;
use crate::fat16::fat16_entry;
use crate::fs::{directory_lists_slots, directory_of, lookup, mounted, mounted_floppy,
    DiskModel};
use crate::image::{joined, joined_length, DiskImage};
use crate::laws::disks::{disk_byte, joined_byte};
use crate::text::{lower, lowered, upper, uppered};
use vstd::arithmetic::div_mod::{lemma_fundamental_div_mod, lemma_fundamental_div_mod_converse};
use vstd::prelude::*;

verus! {

/// The number in two bytes, the low one first.
pub open spec fn low_first(b: Seq<u8>, at: int) -> int {
    b[at] + 256 * b[at + 1]
}

/// The number in two bytes, the high one first.
pub open spec fn high_first(b: Seq<u8>, at: int) -> int {
    256 * b[at] + b[at + 1]
}

/// The number in four bytes, the lowest one first.
pub open spec fn lowest_first(b: Seq<u8>, at: int) -> int {
    b[at] + 256 * b[at + 1] + 65536 * b[at + 2] + 16777216 * b[at + 3]
}

/// The number in four bytes, the highest one first.
pub open spec fn highest_first(b: Seq<u8>, at: int) -> int {
    16777216 * b[at] + 65536 * b[at + 1] + 256 * b[at + 2] + b[at + 3]
}

/// The boot sector of a floppy: where each number of its parameter block stands, and when
/// the block makes sense.
pub proof fn floppy_blocks_are_laid_out(b: Seq<u8>)
    ensures
        floppy_bpb(b) is Ok <==> b.len() >= 36 && (low_first(b, 11) == 256 || low_first(b, 11)
            == 512 || low_first(b, 11) == 1024 || low_first(b, 11) == 2048) && 1 <= b[16] <= 2,
        floppy_bpb(b) matches Ok(f) ==> {
            &&& f.bytes_per_sector == low_first(b, 11)
            &&& f.sectors_per_cluster == b[13]
            &&& f.reserved_sectors == low_first(b, 14)
            &&& f.num_fats == b[16]
            &&& f.root_entries == low_first(b, 17)
            &&& low_first(b, 19) != 0 ==> f.total_sectors == low_first(b, 19)
            &&& low_first(b, 19) == 0 ==> f.total_sectors == lowest_first(b, 32)
            &&& f.sectors_per_fat == low_first(b, 22)
            &&& f.sectors_per_track == low_first(b, 24)
            &&& f.num_heads == low_first(b, 26)
        },
        floppy_bpb(b) matches Ok(f) ==> floppy_or_hudson_bpb(b) == Ok::<Bpb, FsError>(f),
{
}

/// The boot sector of a hard-disk partition: where each number of its parameter block
/// stands, and when the block makes sense.
pub proof fn hdd_blocks_are_laid_out(b: Seq<u8>)
    ensures
        hdd_bpb(b) is Ok <==> b.len() >= 34 && (high_first(b, 18) == 256 || high_first(b, 18)
            == 512 || high_first(b, 18) == 1024 || high_first(b, 18) == 2048) && 1 <= b[21] <= 2,
        hdd_bpb(b) matches Ok(f) ==> {
            &&& f.bytes_per_sector == high_first(b, 18)
            &&& f.sectors_per_cluster == b[20]
            &&& f.num_fats == b[21]
            &&& f.reserved_sectors == high_first(b, 22)
            &&& f.root_entries == high_first(b, 24)
            &&& high_first(b, 26) != 0 ==> f.total_sectors == high_first(b, 26)
            &&& high_first(b, 26) == 0 ==> f.total_sectors == highest_first(b, 30)
            &&& f.sectors_per_fat == b[29]
        },
{
}

/// A floppy whose parameter block makes no sense is taken as the standard one of 1232
/// sectors of 1024 bytes exactly where the words `Hudson soft` stand near its beginning.
pub proof fn hudson_disks_are_standard_ones(b: Seq<u8>)
    requires
        floppy_bpb(b) is Err,
    ensures
        ({
            let signed = exists|at: int|
                0 <= at < 8 && at + 11 <= b.len() && b.len() >= 18 && #[trigger] b.subrange(
                    at,
                    at + 11,
                ) == seq![72u8, 117, 100, 115, 111, 110, 32, 115, 111, 102, 116];
            &&& floppy_or_hudson_bpb(b) is Ok <==> signed
            &&& floppy_or_hudson_bpb(b) matches Ok(f) ==> f == (Bpb {
                bytes_per_sector: 1024,
                sectors_per_cluster: 1,
                reserved_sectors: 1,
                num_fats: 2,
                root_entries: 192,
                total_sectors: 1232,
                sectors_per_fat: 2,
                sectors_per_track: 8,
                num_heads: 2,
            })
            &&& floppy_or_hudson_bpb(b) is Err ==> floppy_or_hudson_bpb(b) == floppy_bpb(b)
        }),
{
    let mark = seq![72u8, 117, 100, 115, 111, 110, 32, 115, 111, 102, 116];
    assert(mark =~= hudson_mark());
    if hudson_signed(b) {
        let at = choose|at: int| 0 <= at < 8 && #[trigger] stands_at(b, at, mark);
        assert(b.subrange(at, at + 11) == mark);
    }
    if exists|at: int|
        0 <= at < 8 && at + 11 <= b.len() && b.len() >= 18 && #[trigger] b.subrange(at, at + 11)
            == mark {
        let at = choose|at: int|
            0 <= at < 8 && at + 11 <= b.len() && b.len() >= 18 && #[trigger] b.subrange(at, at + 11)
                == mark;
        assert(stands_at(b, at, mark));
    }
}

/// A disk that is mounted keeps its sectors and its parameter block. Its FAT is the first
/// one, read from after the reserved sectors, with entries of 12 bits where there are fewer
/// than 4085 clusters and of 16 bits where there are more.
pub proof fn mounting_reads_the_first_fat<D: DiskImage>(image: D, bpb: Bpb)
    requires
        bpb.bytes_per_sector > 0,
        image.sector_bytes() > 0,
    ensures
        ({
            let size = bpb.bytes_per_sector as int;
            let data = bpb.reserved_sectors + bpb.num_fats * bpb.sectors_per_fat + (bpb.root_entries
                * 32 + size - 1) / size;
            let each = if bpb.sectors_per_cluster == 0 {
                1
            } else {
                bpb.sectors_per_cluster as int
            };
            let clusters = if bpb.total_sectors > data {
                (bpb.total_sectors - data) / each
            } else {
                0
            };
            &&& mounted(image, bpb) is Ok <==> size % (image.sector_bytes() as int) == 0 && clusters
                < 65525 && (bpb.sectors_per_fat == 0 || (bpb.reserved_sectors + bpb.sectors_per_fat)
                * (size / image.sector_bytes() as int) <= image.sectors().len())
            &&& mounted(image, bpb) matches Ok(fs) ==> {
                &&& fs.valid()
                &&& fs.sectors == image.sectors()
                &&& fs.sector_bytes == image.sector_bytes()
                &&& fs.bpb == bpb
                &&& fs.fat.0 == if clusters < 4085 {
                    FatKind::Fat12
                } else {
                    FatKind::Fat16
                }
                &&& fs.fat.1.len() == bpb.sectors_per_fat * size
                &&& forall|n: int|
                    0 <= n < fs.fat.1.len() ==> #[trigger] fs.fat.1[n]
                        == disk_byte(fs, bpb.reserved_sectors * size + n)
            }
        }),
{
    image.sectors_are_even();
    let physical = image.sector_bytes() as int;
    let size = bpb.bytes_per_sector as int;
    let ratio = size / physical;
    let data = bpb.reserved_sectors + bpb.num_fats * bpb.sectors_per_fat + (bpb.root_entries * 32
        + size - 1) / size;
    assert(bpb.data_sector() == data);
    assert(0int / 1 == 0);
    let each = if bpb.sectors_per_cluster == 0 {
        1
    } else {
        bpb.sectors_per_cluster as int
    };
    assert(0int / each == 0) by (nonlinear_arith)
        requires
            each > 0,
    ;
    if size % physical == 0 {
        assert(ratio * physical == size && ratio > 0) by (nonlinear_arith)
            requires
                ratio == size / physical,
                size % physical == 0,
                physical > 0,
                size > 0,
        ;
        let first = bpb.reserved_sectors as int;
        let count = bpb.sectors_per_fat as int;
        assert(first * ratio >= 0 && count * ratio >= 0 && (first + count) * ratio == first * ratio
            + count * ratio && (count * ratio == 0 <==> count == 0)) by (nonlinear_arith)
            requires
                first >= 0,
                count >= 0,
                ratio > 0,
        ;
        if mounted(image, bpb) is Ok {
            let fs = mounted(image, bpb)->Ok_0;
            let raw = fs.fat.1;
            assert(raw == joined(image.sectors(), first * ratio, (count * ratio) as nat));
            if count > 0 {
                joined_length(
                    image.sectors(),
                    first * ratio,
                    (count * ratio) as nat,
                    image.sector_bytes(),
                );
            }
            assert((count * ratio) * physical == count * size) by (nonlinear_arith)
                requires
                    ratio * physical == size,
            ;
            assert(count == 0 ==> count * size == 0) by (nonlinear_arith);
            assert forall|n: int| 0 <= n < raw.len() implies #[trigger] raw[n]
                == disk_byte(fs, bpb.reserved_sectors * size + n) by {
                joined_byte(
                    image.sectors(),
                    first * ratio,
                    (count * ratio) as nat,
                    image.sector_bytes(),
                    n,
                );
                let q = first * ratio;
                let d = first * size + n;
                lemma_fundamental_div_mod(n, physical);
                assert(d == (q + n / physical) * physical + n % physical) by (nonlinear_arith)
                    requires
                        d == first * size + n,
                        q == first * ratio,
                        ratio * physical == size,
                        n == physical * (n / physical) + n % physical,
                ;
                assert(0 <= n % physical < physical) by (nonlinear_arith)
                    requires
                        physical > 0,
                ;
                lemma_fundamental_div_mod_converse(
                    d,
                    physical,
                    q + n / physical,
                    n % physical,
                );
            }
        }
    }
}

/// A floppy is mounted by the parameter block in its first sector.
pub proof fn floppies_are_mounted_by_their_first_sector<D: DiskImage>(image: D)
    ensures
        mounted_floppy(image) matches Ok(fs) ==> image.sectors().len() > 0
            && floppy_or_hudson_bpb(image.sectors()[0]) == Ok::<Bpb, FsError>(fs.bpb) && mounted(
            image,
            fs.bpb,
        ) == Ok::<DiskModel, FsError>(fs),
        image.sectors().len() > 0 && floppy_or_hudson_bpb(image.sectors()[0]) is Ok && mounted(
            image,
            floppy_or_hudson_bpb(image.sectors()[0])->Ok_0,
        ) is Ok ==> mounted_floppy(image) is Ok,
{
}

/// An entry of a FAT: 12 bits, of which two entries share three bytes, or 16 bits with the
/// high byte first. Where the table ends before an entry, the entry ends its chain.
pub proof fn entries_of_a_fat_are_laid_out(raw: Seq<u8>, n: u16)
    ensures
        n % 2 == 0 && 3 * (n / 2) + 1 < raw.len() ==> fat12_entry(raw, n) == raw[3 * (n / 2)]
            + 256 * (raw[3 * (n / 2) + 1] % 16),
        n % 2 == 1 && 3 * (n / 2) + 2 < raw.len() ==> fat12_entry(raw, n) == raw[3 * (n / 2) + 1]
            / 16 + 16 * raw[3 * (n / 2) + 2],
        3 * (n / 2) + 1 + n % 2 >= raw.len() ==> fat12_entry(raw, n) == 0xFF8,
        2 * n + 1 < raw.len() ==> fat16_entry(raw, n) == high_first(raw, 2 * n),
        2 * n + 1 >= raw.len() ==> fat16_entry(raw, n) == 0xFFF8,
{
    assert(n as int + n as int / 2 == 3 * (n as int / 2) + n as int % 2);
}

/// What entry of a FAT follows a cluster.
pub open spec fn follows(fat: (FatKind, Seq<u8>), n: u16) -> u16 {
    match fat.0 {
        FatKind::Fat12 => fat12_entry(fat.1, n),
        FatKind::Fat16 => fat16_entry(fat.1, n),
    }
}

/// A chain starts at its first cluster and goes from cluster to cluster by the entries of
/// the FAT, up to one that ends it: the numbers 0 and 1, and from 0xFF8 or 0xFFF8 on, or
/// the cluster itself again. A FAT12 chain is cut off after a hundred thousand links, a
/// FAT16 chain after a million.
pub proof fn chains_follow_the_fat(fat: (FatKind, Seq<u8>), start: u16)
    ensures
        ({
            let c = fat_chain(fat, start);
            let end: int = if fat.0 == FatKind::Fat12 {
                0xFF8
            } else {
                0xFFF8
            };
            let most: int = if fat.0 == FatKind::Fat12 {
                100_000
            } else {
                1_000_000
            };
            &&& c.len() > 0 <==> 2 <= start < end
            &&& c.len() > 0 ==> c[0] == start
            &&& c.len() <= most + 1
            &&& forall|i: int|
                #![trigger c[i]]
                0 <= i < c.len() - 1 ==> c[i + 1] == follows(fat, c[i]) && c[i + 1] != c[i]
            &&& forall|i: int| 0 <= i < c.len() ==> 2 <= #[trigger] c[i] < end
            &&& 0 < c.len() <= most ==> {
                let after = follows(fat, c.last());
                after < 2 || after >= end || after == c.last()
            }
        }),
{
    let raw = fat.1;
    match fat.0 {
        FatKind::Fat12 => {
            let next = |n: u16| fat12_entry(raw, n);
            chain_is_linked(next, 0xFF8, 100_000, start);
            if 0 < fat_chain(fat, start).len() <= 100_000 {
                chain_stops_at_end(next, 0xFF8, 100_000, start);
            }
        },
        FatKind::Fat16 => {
            let next = |n: u16| fat16_entry(raw, n);
            chain_is_linked(next, 0xFFF8, 1_000_000, start);
            if 0 < fat_chain(fat, start).len() <= 1_000_000 {
                chain_stops_at_end(next, 0xFFF8, 1_000_000, start);
            }
        },
    }
}

/// A directory holds an entry for each of its slots of 32 bytes, up to the first one that
/// starts with a zero byte: where the numbers of an entry stand.
pub proof fn directories_are_laid_out(buf: Seq<u8>)
    ensures
        ({
            let d = directory_of(buf);
            &&& 32 * d.len() <= buf.len()
            &&& 32 * d.len() + 32 <= buf.len() ==> buf[32 * d.len() as int] == 0
            &&& forall|i: int|
                #![trigger d[i]]
                0 <= i < d.len() ==> {
                    &&& buf[32 * i] != 0
                    &&& d[i].kind == if buf[32 * i] == 0xE5 {
                        EntryKind::Deleted
                    } else {
                        EntryKind::Used
                    }
                    &&& d[i].attr.bits == buf[32 * i + 11] & 0x7F
                    &&& d[i].time_raw == low_first(buf, 32 * i + 22)
                    &&& d[i].date_raw == low_first(buf, 32 * i + 24)
                    &&& d[i].start_cluster == low_first(buf, 32 * i + 26)
                    &&& d[i].size == lowest_first(buf, 32 * i + 28)
                }
        }),
{
    directory_lists_slots(buf);
    let d = directory_of(buf);
    if 32 * d.len() + 32 <= buf.len() {
        let k = d.len() as int;
        assert(buf.subrange(32 * k, 32 * k + 32)[0] == buf[32 * k]);
    }
    assert forall|i: int|
        #![trigger d[i]]
        0 <= i < d.len() implies {
        &&& buf[32 * i] != 0
        &&& d[i].kind == if buf[32 * i] == 0xE5 {
            EntryKind::Deleted
        } else {
            EntryKind::Used
        }
        &&& d[i].attr.bits == buf[32 * i + 11] & 0x7F
        &&& d[i].time_raw == low_first(buf, 32 * i + 22)
        &&& d[i].date_raw == low_first(buf, 32 * i + 24)
        &&& d[i].start_cluster == low_first(buf, 32 * i + 26)
        &&& d[i].size == lowest_first(buf, 32 * i + 28)
    } by {
        let b = buf.subrange(32 * i, 32 * i + 32);
        assert(d[i] == entry_of(b));
        assert(forall|k: int| 0 <= k < 32 ==> b[k] == buf[32 * i + k]);
    }
}

/// Whether `n` bytes are left of some when the spaces and zeros at their end are taken off.
pub open spec fn kept_of(w: Seq<u8>, n: int) -> bool {
    &&& 0 <= n <= w.len()
    &&& forall|k: int| n <= k < w.len() ==> #[trigger] w[k] == 0x20 || w[k] == 0
    &&& n > 0 ==> w[n - 1] != 0x20 && w[n - 1] != 0
}

proof fn kept_is_unique(w: Seq<u8>, n: int)
    requires
        kept_of(w, n),
    ensures
        without_padding(w) == w.take(n),
{
    padding_is_all_that_goes(w);
    let m = without_padding(w).len() as int;
    if m < n {
        assert(w[n - 1] == 0x20 || w[n - 1] == 0);
    }
    if m > n {
        assert(without_padding(w).last() == w[m - 1]);
    }
}

/// The name of an entry is what its first eight bytes and the nine after the attributes
/// stand for, without the padding at the end; the three bytes between are the extension. A
/// deleted entry has a question mark for its first byte.
pub proof fn names_are_laid_out(b: Seq<u8>, n: int, m: int)
    requires
        b.len() == 32,
        kept_of(b.subrange(0, 8) + b.subrange(12, 21), n),
        kept_of(b.subrange(8, 11), m),
    ensures
        ({
            let whole = (b.subrange(0, 8) + b.subrange(12, 21)).take(n);
            &&& b[0] != 0xE5 ==> entry_of(b).name == sjis_text(whole)
            &&& b[0] == 0xE5 ==> entry_of(b).name == sjis_text(
                if n > 0 {
                    whole.update(0, 63)
                } else {
                    whole
                },
            )
            &&& entry_of(b).ext == sjis_text(b.subrange(8, 11).take(m))
        }),
{
    kept_is_unique(b.subrange(0, 8) + b.subrange(12, 21), n);
    kept_is_unique(b.subrange(8, 11), m);
}

/// The capital letters of ASCII and the small ones lie 32 apart; no other character
/// changes with the case.
pub proof fn letters_change_case(c: char)
    ensures
        65 <= c as int <= 90 ==> lower(c) as int == c as int + 32,
        !(65 <= c as int <= 90) ==> lower(c) == c,
        97 <= c as int <= 122 ==> upper(c) as int == c as int - 32,
        !(97 <= c as int <= 122) ==> upper(c) == c,
{
}

/// Whether two characters are the same up to the case of ASCII letters.
pub open spec fn same_letter(a: char, b: char) -> bool {
    ||| a == b
    ||| 65 <= a as int <= 90 && b as int == a as int + 32
    ||| 65 <= b as int <= 90 && a as int == b as int + 32
}

/// Whether two texts are the same up to the case of ASCII letters.
pub open spec fn same_letters(a: Seq<char>, b: Seq<char>) -> bool {
    a.len() == b.len() && forall|i: int| 0 <= i < a.len() ==> same_letter(#[trigger] a[i], b[i])
}

/// Texts are the same in small letters, or in capitals, where they are the same up to the
/// case of letters.
pub proof fn case_is_all_that_goes(a: Seq<char>, b: Seq<char>)
    ensures
        lowered(a) == lowered(b) <==> same_letters(a, b),
        uppered(a) == uppered(b) <==> same_letters(a, b),
{
    assert(forall|x: char, y: char| lower(x) == lower(y) <==> same_letter(x, y));
    assert(forall|x: char, y: char| upper(x) == upper(y) <==> same_letter(x, y));
    if lowered(a) == lowered(b) {
        assert(lowered(a).len() == lowered(b).len());
        assert forall|i: int| 0 <= i < a.len() implies same_letter(#[trigger] a[i], b[i]) by {
            assert(lowered(a)[i] == lower(a[i]) && lowered(b)[i] == lower(b[i]));
        }
    }
    if uppered(a) == uppered(b) {
        assert(uppered(a).len() == uppered(b).len());
        assert forall|i: int| 0 <= i < a.len() implies same_letter(#[trigger] a[i], b[i]) by {
            assert(uppered(a)[i] == upper(a[i]) && uppered(b)[i] == upper(b[i]));
        }
    }
    if same_letters(a, b) {
        assert(lowered(a) =~= lowered(b));
        assert(uppered(a) =~= uppered(b));
    }
}

/// The name that an entry goes by: with a dot and its extension, if it has one.
pub open spec fn full_name(e: DirEntryModel) -> Seq<char> {
    if e.ext.len() > 0 {
        e.name + seq!['.'] + e.ext
    } else {
        e.name
    }
}

/// Looking a name up finds the first entry in use that goes by it, whatever the case of its
/// letters; nothing is found only where there is none.
pub proof fn the_first_match_is_found(entries: Seq<DirEntryModel>, name: Seq<char>)
    ensures
        match lookup(entries, name) {
            Some(e) => exists|i: int|
                {
                    &&& 0 <= i < entries.len()
                    &&& #[trigger] entries[i] == e
                    &&& e.kind == EntryKind::Used
                    &&& same_letters(full_name(e), name)
                    &&& forall|j: int|
                        0 <= j < i ==> (#[trigger] entries[j]).kind != EntryKind::Used
                            || !same_letters(full_name(entries[j]), name)
                },
            None => forall|j: int|
                0 <= j < entries.len() ==> (#[trigger] entries[j]).kind != EntryKind::Used
                    || !same_letters(full_name(entries[j]), name),
        },
    decreases entries.len(),
{
    if entries.len() > 0 {
        let first = entries[0];
        let rest = entries.skip(1);
        case_is_all_that_goes(full_name(first), name);
        if first.kind == EntryKind::Used && same_letters(full_name(first), name) {
            assert(entries[0] == first);
        } else {
            the_first_match_is_found(rest, name);
            match lookup(rest, name) {
                Some(e) => {
                    let i = choose|i: int|
                        {
                            &&& 0 <= i < rest.len()
                            &&& #[trigger] rest[i] == e
                            &&& e.kind == EntryKind::Used
                            &&& same_letters(full_name(e), name)
                            &&& forall|j: int|
                                0 <= j < i ==> (#[trigger] rest[j]).kind != EntryKind::Used
                                    || !same_letters(full_name(rest[j]), name)
                        };
                    assert(entries[i + 1] == e);
                    assert forall|j: int| 0 <= j < i + 1 implies (#[trigger] entries[j]).kind
                        != EntryKind::Used || !same_letters(full_name(entries[j]), name) by {
                        if j > 0 {
                            assert(rest[j - 1] == entries[j]);
                        }
                    }
                },
                None => {
                    assert forall|j: int| 0 <= j < entries.len() implies (#[trigger] entries[j]).kind
                        != EntryKind::Used || !same_letters(full_name(entries[j]), name) by {
                        if j > 0 {
                            assert(rest[j - 1] == entries[j]);
                        }
                    }
                },
            }
        }
    }
}

proof fn descending_steps(
    fs: DiskModel,
    entries: Seq<DirEntryModel>,
    parts: Seq<Seq<char>>,
    last: Seq<char>,
    at: int,
)
    requires
        0 <= at < parts.len(),
    ensures
        ({
            let before = fs.descend(entries, parts, at);
            let now = fs.descend(entries, parts.push(last), at);
            match before {
                Err(_) => now == before,
                Ok(e) => if e.attr.bits & 0x10 != 0x10 {
                    now is Err
                } else {
                    match fs.subdir_entries(e.start_cluster) {
                        Err(x) => now == Err::<DirEntryModel, FsError>(x),
                        Ok(next) => match lookup(next, last) {
                            Some(found) => now == Ok::<DirEntryModel, FsError>(found),
                            None => now is Err,
                        },
                    }
                },
            }
        }),
    decreases parts.len() - at,
{
    let longer = parts.push(last);
    assert(longer[at] == parts[at]);
    if let Some(e) = lookup(entries, parts[at]) {
        if at < parts.len() - 1 {
            if let Ok(next) = fs.subdir_entries(e.start_cluster) {
                descending_steps(fs, next, parts, last, at + 1);
            }
        } else if let Ok(next) = fs.subdir_entries(e.start_cluster) {
            assert(longer[at + 1] == last);
        }
    }
}

/// A path leads name by name: what a longer path leads to is what its last name means in
/// the directory that the rest of it leads to. A single name is looked up in the root.
pub proof fn paths_lead_name_by_name(fs: DiskModel, parts: Seq<Seq<char>>, last: Seq<char>)
    ensures
        match fs.listed(parts) {
            Err(_) => fs.found(parts.push(last)) is Err,
            Ok(entries) => match lookup(entries, last) {
                Some(e) => fs.found(parts.push(last)) == Ok::<DirEntryModel, FsError>(e),
                None => fs.found(parts.push(last)) is Err,
            },
        },
        fs.listed(Seq::empty()) == fs.root_entries(),
        fs.found(parts) matches Ok(e) ==> if e.attr.bits & 0x10 == 0x10 {
            fs.listed(parts) == fs.subdir_entries(e.start_cluster)
        } else {
            fs.listed(parts) is Err
        },
{
    let longer = parts.push(last);
    if let Ok(root) = fs.root_entries() {
        if parts.len() == 0 {
            assert(longer[0] == last);
        } else {
            descending_steps(fs, root, parts, last, 0);
        }
    }
}

} // verus!
