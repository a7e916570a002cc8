//! What the model is shown of a disk, and what is made of its answer.

use crate::codec::{decodable_length, sjis_text};
use crate::direntry::DirEntryModel;
use crate::error::FsError;
use crate::fs::DiskModel;
use crate::image::OpenedImage;
use crate::laws::layout::{case_is_all_that_goes, full_name, same_letters};
use crate::lzh::{archive_documents, LzhOpts, Origin};
use crate::spec::mounted_partition;
use crate::summarizer::{files_in, gathered, gathered_disk, gathered_image, gathered_nothing,
    gathered_partitions, label_among, shown_text, snapshot_of, GatheredModel};
use crate::text::{decimal, uppered};
use crate::walker::disk_listing;
use vstd::prelude::*;

verus! {

/// Whether an entry is a text that the model may be shown: a file with the extension `DOC`
/// or `TXT`, not empty, of at most four times the bytes that are shown, that can be read.
pub open spec fn may_be_shown(fs: DiskModel, e: DirEntryModel, max_text: int) -> bool {
    &&& e.attr.bits & 0x08 != 0x08
    &&& e.attr.bits & 0x10 != 0x10
    &&& same_letters(e.ext, "DOC"@) || same_letters(e.ext, "TXT"@)
    &&& 0 < e.size <= 4 * max_text
    &&& fs.file_bytes(e) is Ok
}

proof fn main_texts_are_documents(fs: DiskModel, e: DirEntryModel, max_text: int)
    ensures
        may_be_shown(fs, e, max_text) <==> crate::summarizer::is_file(e)
            && crate::summarizer::may_be_main(fs, e, max_text),
{
    reveal_strlit("DOC");
    reveal_strlit("TXT");
    case_is_all_that_goes(e.ext, "DOC"@);
    case_is_all_that_goes(e.ext, "TXT"@);
    assert(uppered("DOC"@) =~= "DOC"@);
    assert(uppered("TXT"@) =~= "TXT"@);
}

/// Whether `best` is entry `i` of a walk, which may be shown.
pub open spec fn is_entry(
    best: Option<(Seq<char>, u32, Seq<u8>)>,
    fs: DiskModel,
    prefix: Seq<char>,
    items: Seq<(Seq<char>, DirEntryModel)>,
    max_text: int,
    i: int,
) -> bool {
    &&& 0 <= i < items.len()
    &&& may_be_shown(fs, items[i].1, max_text)
    &&& best == Some((prefix + items[i].0, items[i].1.size, fs.file_bytes(items[i].1)->Ok_0))
    &&& forall|j: int|
        0 <= j < i && may_be_shown(fs, (#[trigger] items[j]).1, max_text) ==> items[j].1.size
            < items[i].1.size
}

/// Whether `best` is at least as large as all entries of a walk that may be shown.
pub open spec fn is_largest(
    best: Option<(Seq<char>, u32, Seq<u8>)>,
    fs: DiskModel,
    items: Seq<(Seq<char>, DirEntryModel)>,
    max_text: int,
) -> bool {
    forall|j: int|
        0 <= j < items.len() && may_be_shown(fs, (#[trigger] items[j]).1, max_text) ==> best is Some
            && items[j].1.size <= (best->0).1
}

proof fn gathering_keeps_the_largest(
    g: GatheredModel,
    fs: DiskModel,
    prefix: Seq<char>,
    items: Seq<(Seq<char>, DirEntryModel)>,
    max_text: int,
)
    ensures
        ({
            let best = gathered(g, fs, prefix, items, max_text).best;
            &&& is_largest(best, fs, items, max_text)
            &&& g.best is Some ==> best is Some && (g.best->0).1 <= (best->0).1
            &&& best == g.best || exists|i: int| is_entry(best, fs, prefix, items, max_text, i)
        }),
    decreases items.len(),
{
    if items.len() > 0 {
        let head = items.drop_last();
        let n = items.len() - 1;
        gathering_keeps_the_largest(g, fs, prefix, head, max_text);
        let before = gathered(g, fs, prefix, head, max_text).best;
        let best = gathered(g, fs, prefix, items, max_text).best;
        main_texts_are_documents(fs, items[n].1, max_text);
        assert forall|j: int|
            0 <= j < items.len() && may_be_shown(
                fs,
                (#[trigger] items[j]).1,
                max_text,
            ) implies best is Some && items[j].1.size <= (best->0).1 by {
            if j < n {
                assert(items[j] == head[j]);
            }
        }
        if best != before {
            assert forall|j: int| 0 <= j < n && may_be_shown(
                fs,
                (#[trigger] items[j]).1,
                max_text,
            ) implies items[j].1.size < items[n].1.size by {
                assert(items[j] == head[j]);
            }
            assert(is_entry(best, fs, prefix, items, max_text, n));
        } else if best != g.best {
            let i = choose|i: int| is_entry(before, fs, prefix, head, max_text, i);
            assert(items[i] == head[i]);
            assert forall|j: int| 0 <= j < i && may_be_shown(
                fs,
                (#[trigger] items[j]).1,
                max_text,
            ) implies items[j].1.size < items[i].1.size by {
                assert(items[j] == head[j]);
            }
            assert(is_entry(best, fs, prefix, items, max_text, i));
        }
    }
}

/// The main text of a floppy is from an entry of the walk that may be shown; no entry that
/// may be shown is larger, and none before it is as large. There is none only where no entry
/// may be shown.
pub proof fn the_largest_text_of_a_floppy_is_shown(
    opened: OpenedImage,
    total_size: u64,
    max_text: int,
    max_listing: int,
    fs: DiskModel,
)
    requires
        opened is Floppy,
        mounted_partition(opened, None) == Ok::<DiskModel, FsError>(fs),
    ensures
        snapshot_of(opened, total_size, max_text, max_listing) matches Ok(s) ==> {
            let items = disk_listing(fs).0;
            &&& s.main_text matches Some((path, text)) ==> exists|i: int|
                {
                    &&& 0 <= i < items.len()
                    &&& may_be_shown(fs, (#[trigger] items[i]).1, max_text)
                    &&& path == items[i].0
                    &&& text == shown_text(sjis_text(fs.file_bytes(items[i].1)->Ok_0), max_text)
                    &&& forall|j: int|
                        0 <= j < items.len() && may_be_shown(fs, (#[trigger] items[j]).1, max_text)
                            ==> items[j].1.size <= items[i].1.size && (j < i ==> items[j].1.size
                            < items[i].1.size)
                }
            &&& s.main_text is None ==> forall|j: int|
                0 <= j < items.len() && may_be_shown(fs, (#[trigger] items[j]).1, max_text)
                    ==> exists|i: int|
                    0 <= i < items.len() && may_be_shown(fs, (#[trigger] items[i]).1, max_text)
                        && !decodable_length(fs.file_bytes(items[i].1)->Ok_0.len())
        },
{
    if snapshot_of(opened, total_size, max_text, max_listing) is Ok {
        let s = snapshot_of(opened, total_size, max_text, max_listing)->Ok_0;
        let items = disk_listing(fs).0;
        let none = Seq::<char>::empty();
        let root = fs.root_entries()->Ok_0;
        let start = GatheredModel { volume_label: label_among(root), ..gathered_nothing() };
        gathering_keeps_the_largest(start, fs, none, items, max_text);
        let best = gathered(start, fs, none, items, max_text).best;
        assert(gathered_image(opened, max_text)->Ok_0.best == best);
        if best is Some {
            let i = choose|i: int| is_entry(best, fs, none, items, max_text, i);
            assert(is_entry(best, fs, none, items, max_text, i));
            assert(none + items[i].0 =~= items[i].0);
            assert(may_be_shown(fs, items[i].1, max_text));
        }
    }
}

/// Whether `best` is an entry, which may be shown, of the walk through partition `k`.
pub open spec fn is_from_partition(
    best: Option<(Seq<char>, u32, Seq<u8>)>,
    opened: OpenedImage,
    max_text: int,
    k: nat,
) -> bool {
    &&& mounted_partition(opened, Some(k as usize)) is Ok
    &&& exists|i: int|
        #[trigger] is_entry(
            best,
            mounted_partition(opened, Some(k as usize))->Ok_0,
            "[part"@ + decimal(k) + "]"@,
            disk_listing(mounted_partition(opened, Some(k as usize))->Ok_0).0,
            max_text,
            i,
        )
}

/// Whether `best` is at least as large as all entries of partition `k` that may be shown.
pub open spec fn is_largest_of_partition(
    best: Option<(Seq<char>, u32, Seq<u8>)>,
    opened: OpenedImage,
    max_text: int,
    k: nat,
) -> bool {
    mounted_partition(opened, Some(k as usize)) matches Ok(fs) ==> is_largest(
        best,
        fs,
        disk_listing(fs).0,
        max_text,
    )
}

proof fn partitions_keep_the_largest(
    g: GatheredModel,
    opened: OpenedImage,
    count: nat,
    idx: nat,
    max_text: int,
)
    requires
        gathered_partitions(g, opened, count, idx, max_text) is Ok,
    ensures
        ({
            let best = gathered_partitions(g, opened, count, idx, max_text)->Ok_0.best;
            &&& forall|k: nat|
                idx <= k < count ==> #[trigger] is_largest_of_partition(best, opened, max_text, k)
            &&& g.best is Some ==> best is Some && (g.best->0).1 <= (best->0).1
            &&& best == g.best || exists|k: nat|
                idx <= k < count && #[trigger] is_from_partition(best, opened, max_text, k)
        }),
    decreases count - idx,
{
    if idx < count {
        let best = gathered_partitions(g, opened, count, idx, max_text)->Ok_0.best;
        match mounted_partition(opened, Some(idx as usize)) {
            Err(_) => {
                partitions_keep_the_largest(g, opened, count, idx + 1, max_text);
                assert forall|k: nat| idx <= k < count implies #[trigger] is_largest_of_partition(
                    best,
                    opened,
                    max_text,
                    k,
                ) by {
                    if k > idx {
                        assert(idx + 1 <= k);
                    }
                }
            },
            Ok(fs) => {
                let mark = "[part"@ + decimal(idx) + "]"@;
                let items = disk_listing(fs).0;
                let start = if g.volume_label is Some {
                    g
                } else {
                    GatheredModel { volume_label: label_among(fs.root_entries()->Ok_0), ..g }
                };
                let next = gathered_disk(g, fs, mark, max_text)->Ok_0;
                assert(next == gathered(start, fs, mark, items, max_text));
                gathering_keeps_the_largest(start, fs, mark, items, max_text);
                partitions_keep_the_largest(next, opened, count, idx + 1, max_text);
                assert(is_largest(best, fs, items, max_text));
                assert forall|k: nat| idx <= k < count implies #[trigger] is_largest_of_partition(
                    best,
                    opened,
                    max_text,
                    k,
                ) by {
                    if k > idx {
                        assert(idx + 1 <= k);
                    }
                }
                if best == next.best && next.best != g.best {
                    let i = choose|i: int| is_entry(next.best, fs, mark, items, max_text, i);
                    assert(is_entry(next.best, fs, mark, items, max_text, i));
                    assert(is_from_partition(best, opened, max_text, idx));
                } else if best != next.best {
                    let k = choose|k: nat|
                        idx + 1 <= k < count && #[trigger] is_from_partition(
                            best,
                            opened,
                            max_text,
                            k,
                        );
                    assert(is_from_partition(best, opened, max_text, k));
                }
            },
        }
    }
}

/// The main text of a hard disk is the largest one that may be shown of all its partitions;
/// its path tells the partition.
pub proof fn the_largest_text_of_a_hard_disk_is_shown(
    opened: OpenedImage,
    total_size: u64,
    max_text: int,
    max_listing: int,
)
    requires
        opened is Hdd,
    ensures
        snapshot_of(opened, total_size, max_text, max_listing) matches Ok(s) ==> (s.main_text
            is Some ==> exists|best: Option<(Seq<char>, u32, Seq<u8>)>, k: nat|
            {
                &&& #[trigger] is_from_partition(best, opened, max_text, k)
                &&& k < opened->Hdd_0.places().len()
                &&& s.main_text == Some(((best->0).0, shown_text(sjis_text((best->0).2), max_text)))
                &&& forall|other: nat|
                    other < opened->Hdd_0.places().len() ==> #[trigger] is_largest_of_partition(
                        best,
                        opened,
                        max_text,
                        other,
                    )
            }),
{
    if snapshot_of(opened, total_size, max_text, max_listing) is Ok {
        let count = opened->Hdd_0.places().len();
        let nothing = gathered_nothing();
        partitions_keep_the_largest(nothing, opened, count, 0, max_text);
        let best = gathered_partitions(nothing, opened, count, 0, max_text)->Ok_0.best;
        if best is Some {
            let k = choose|k: nat|
                0 <= k < count && #[trigger] is_from_partition(best, opened, max_text, k);
            assert(is_from_partition(best, opened, max_text, k));
        }
    }
}

/// Whether an entry is listed: it is neither a volume label nor a directory.
pub open spec fn is_listed(e: DirEntryModel) -> bool {
    e.attr.bits & 0x08 != 0x08 && e.attr.bits & 0x10 != 0x10
}

/// The files of a walk with their sizes, in its order.
pub open spec fn files_of_walk(prefix: Seq<char>, items: Seq<(Seq<char>, DirEntryModel)>) -> Seq<
    (Seq<char>, u64),
> {
    items.filter(|it: (Seq<char>, DirEntryModel)| is_listed(it.1)).map_values(
        |it: (Seq<char>, DirEntryModel)| (prefix + it.0, it.1.size as u64),
    )
}

/// For how many files an entry counts: none where it is not listed, otherwise itself and,
/// where it is an archive that can be read, its members.
pub open spec fn counts_for(fs: DiskModel, path: Seq<char>, e: DirEntryModel) -> nat {
    if !is_listed(e) {
        0
    } else if (same_letters(e.ext, "LZH"@) || same_letters(e.ext, "LHA"@)) && fs.file_bytes(e)
        is Ok {
        match archive_documents(
            fs.file_bytes(e)->Ok_0,
            Origin { image_path: Seq::empty(), image_id: Seq::empty(), partition: 0 },
            path,
            2,
            LzhOpts {
                max_depth: 2,
                max_member_size: 52_428_800,
                max_total_expansion: 524_288_000,
            },
        ) {
            Ok(docs) => 1 + docs.len(),
            Err(_) => 1,
        }
    } else {
        1
    }
}

/// For how many files the entries of a walk count.
pub open spec fn counted(fs: DiskModel, items: Seq<(Seq<char>, DirEntryModel)>) -> nat
    decreases items.len(),
{
    if items.len() == 0 {
        0
    } else {
        counted(fs, items.drop_last()) + counts_for(fs, items.last().0, items.last().1)
    }
}

proof fn archives_are_told_by_extension(fs: DiskModel, path: Seq<char>, e: DirEntryModel)
    ensures
        is_listed(e) ==> files_in(fs, path, e) == counts_for(fs, path, e),
{
    reveal_strlit("LZH");
    reveal_strlit("LHA");
    case_is_all_that_goes(e.ext, "LZH"@);
    case_is_all_that_goes(e.ext, "LHA"@);
    assert(uppered("LZH"@) =~= "LZH"@);
    assert(uppered("LHA"@) =~= "LHA"@);
}

proof fn gathering_lists_files(
    g: GatheredModel,
    fs: DiskModel,
    prefix: Seq<char>,
    items: Seq<(Seq<char>, DirEntryModel)>,
    max_text: int,
)
    ensures
        gathered(g, fs, prefix, items, max_text).listing == g.listing + files_of_walk(prefix, items),
        gathered(g, fs, prefix, items, max_text).volume_label == g.volume_label,
        g.file_count + counted(fs, items) <= usize::MAX ==> gathered(
            g,
            fs,
            prefix,
            items,
            max_text,
        ).file_count == g.file_count + counted(fs, items),
    decreases items.len(),
{
    reveal(Seq::filter);
    let keep = |it: (Seq<char>, DirEntryModel)| is_listed(it.1);
    let files = files_of_walk(prefix, items);
    if items.len() == 0 {
        assert(items.filter(keep) =~= Seq::empty());
        assert(g.listing + files =~= g.listing);
    } else {
        gathering_lists_files(g, fs, prefix, items.drop_last(), max_text);
        let before = files_of_walk(prefix, items.drop_last());
        let last = items.last();
        archives_are_told_by_extension(fs, last.0, last.1);
        if is_listed(last.1) {
            assert(items.filter(keep) =~= items.drop_last().filter(keep).push(last));
            assert(files =~= before.push((prefix + last.0, last.1.size as u64)));
            assert(g.listing + files =~= (g.listing + before).push(
                (prefix + last.0, last.1.size as u64),
            ));
        } else {
            assert(items.filter(keep) =~= items.drop_last().filter(keep));
            assert(files =~= before);
        }
    }
}

/// The listing of a floppy has its files with their sizes, in the order of the walk, up to
/// the largest number that may be listed. Members of archives are counted too.
pub proof fn files_of_a_floppy_are_listed(
    opened: OpenedImage,
    total_size: u64,
    max_text: int,
    max_listing: int,
    fs: DiskModel,
)
    requires
        opened is Floppy,
        max_listing >= 0,
        mounted_partition(opened, None) == Ok::<DiskModel, FsError>(fs),
    ensures
        snapshot_of(opened, total_size, max_text, max_listing) matches Ok(s) ==> {
            let files = files_of_walk(Seq::empty(), disk_listing(fs).0);
            &&& s.total_size == total_size
            &&& s.format == crate::image::ImageKind::Xdf
            &&& s.listing.len() == if files.len() < max_listing {
                files.len() as int
            } else {
                max_listing
            }
            &&& forall|i: int| 0 <= i < s.listing.len() ==> #[trigger] s.listing[i] == files[i]
            &&& counted(fs, disk_listing(fs).0) <= usize::MAX ==> s.file_count == counted(
                fs,
                disk_listing(fs).0,
            )
        },
        fs.root_entries() is Ok && disk_listing(fs).1 is None ==> snapshot_of(
            opened,
            total_size,
            max_text,
            max_listing,
        ) is Ok,
{
    if fs.root_entries() is Ok && disk_listing(fs).1 is None {
        let none = Seq::<char>::empty();
        let start = GatheredModel {
            volume_label: label_among(fs.root_entries()->Ok_0),
            ..gathered_nothing()
        };
        let items = disk_listing(fs).0;
        gathering_lists_files(start, fs, none, items, max_text);
        assert(start.listing + files_of_walk(none, items) =~= files_of_walk(none, items));
    }
}

/// The volume label is the name of the first entry in the root directory with the mark of
/// one.
pub proof fn the_first_label_is_taken(entries: Seq<DirEntryModel>)
    ensures
        match label_among(entries) {
            Some(l) => exists|i: int|
                {
                    &&& 0 <= i < entries.len()
                    &&& (#[trigger] entries[i]).attr.bits & 0x08 == 0x08
                    &&& l == full_name(entries[i])
                    &&& forall|j: int|
                        0 <= j < i ==> (#[trigger] entries[j]).attr.bits & 0x08 != 0x08
                },
            None => forall|j: int|
                0 <= j < entries.len() ==> (#[trigger] entries[j]).attr.bits & 0x08 != 0x08,
        },
    decreases entries.len(),
{
    if entries.len() > 0 {
        let rest = entries.skip(1);
        if entries[0].attr.bits & 0x08 == 0x08 {
            assert(label_among(entries) == Some(full_name(entries[0])));
        } else {
            the_first_label_is_taken(rest);
            match label_among(rest) {
                Some(l) => {
                    let i = choose|i: int|
                        {
                            &&& 0 <= i < rest.len()
                            &&& (#[trigger] rest[i]).attr.bits & 0x08 == 0x08
                            &&& l == full_name(rest[i])
                            &&& forall|j: int|
                                0 <= j < i ==> (#[trigger] rest[j]).attr.bits & 0x08 != 0x08
                        };
                    assert(entries[i + 1] == rest[i]);
                    assert forall|j: int| 0 <= j < i + 1 implies (#[trigger] entries[j]).attr.bits
                        & 0x08 != 0x08 by {
                        if j > 0 {
                            assert(entries[j] == rest[j - 1]);
                        }
                    }
                },
                None => {
                    assert forall|j: int| 0 <= j < entries.len() implies (#[trigger] entries[j]).attr.bits
                        & 0x08 != 0x08 by {
                        if j > 0 {
                            assert(entries[j] == rest[j - 1]);
                        }
                    }
                },
            }
        }
    }
}

/// The label of a floppy is the first one of its root directory.
pub proof fn floppies_are_labelled_by_their_root(
    opened: OpenedImage,
    total_size: u64,
    max_text: int,
    max_listing: int,
    fs: DiskModel,
)
    requires
        opened is Floppy,
        mounted_partition(opened, None) == Ok::<DiskModel, FsError>(fs),
    ensures
        snapshot_of(opened, total_size, max_text, max_listing) matches Ok(s) ==> fs.root_entries()
            is Ok && s.volume_label == label_among(fs.root_entries()->Ok_0),
{
    if snapshot_of(opened, total_size, max_text, max_listing) is Ok {
        let start = GatheredModel {
            volume_label: label_among(fs.root_entries()->Ok_0),
            ..gathered_nothing()
        };
        gathering_lists_files(start, fs, Seq::empty(), disk_listing(fs).0, max_text);
    }
}

} // verus!
