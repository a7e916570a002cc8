//! What stands in the documents of the index.

use crate::builder::{disk_documents, disk_file_document, file_documents, host_directory,
    image_documents, image_path, listing_documents, partition_documents, BuildOpts};
use crate::digest::{hex_digit, short_hex};
use crate::direntry::{Attr, DirEntryModel};
use crate::document::{attr_text, excerpt_of, file_document, first_value, text_body, FieldModel,
    FileModel};
use crate::error::FsError;
use crate::export::{days_follow_each_other, entry_moment, epoch_day};
use crate::extract::{counted_from, document_key, first_value_at, kept_json, record_document,
    trial_from, ContextModel, ExtractDecision, KeyModel, RecordModel, SchemaPlugin};
use crate::fs::DiskModel;
use crate::image::OpenedImage;
use crate::json::JsonModel;
use crate::laws::layout::{case_is_all_that_goes, full_name, same_letters};
use crate::laws::texts::{all_white, trimming_takes_white_space_away};
use crate::lzh::{after_last, archive_documents, Origin};
use crate::path::extension_of;
use crate::schema::{field_label, text_extension, DEFAULT_TEXT_EXTENSIONS, Field};
use crate::searcher::{has_query, no_value};
use crate::spec::mounted_partition;
use crate::text::{is_white, lowered, start_trimmed, uppered};
use crate::walker::disk_listing;
use vstd::prelude::*;

verus! {

/// A document of a file has each thing that is known of the file in its own field; the text
/// and its excerpt only where there are any.
pub proof fn documents_of_files_have_their_fields(f: FileModel)
    ensures
        ({
            let d = file_document(f);
            &&& first_value(d, Field::ImagePath) == Some(FieldModel::Text(f.image_path))
            &&& first_value(d, Field::ImageId) == Some(FieldModel::Text(f.image_id))
            &&& first_value(d, Field::Partition) == Some(FieldModel::U64(f.partition as u64))
            &&& first_value(d, Field::FilePath) == Some(FieldModel::Text(f.file_path))
            &&& first_value(d, Field::FileName) == Some(FieldModel::Text(f.file_name))
            &&& first_value(d, Field::Ext) == Some(FieldModel::Text(f.ext))
            &&& first_value(d, Field::Size) == Some(FieldModel::U64(f.size))
            &&& first_value(d, Field::Mtime) == Some(FieldModel::I64(f.mtime_unix as i64))
            &&& first_value(d, Field::Attr) == Some(FieldModel::Text(f.attr))
            &&& first_value(d, Field::Body) == match f.body {
                Some(s) => Some(FieldModel::Text(s)),
                None => None,
            }
            &&& first_value(d, Field::BodyExcerpt) == match f.excerpt {
                Some(s) => Some(FieldModel::Text(s)),
                None => None,
            }
            &&& first_value(d, Field::Category) is None
            &&& first_value(d, Field::SchemaPlugin) is None
        }),
{
    let d = file_document(f);
    first_value_at(d, 0);
    first_value_at(d, 1);
    first_value_at(d, 2);
    first_value_at(d, 3);
    first_value_at(d, 4);
    first_value_at(d, 5);
    first_value_at(d, 6);
    first_value_at(d, 7);
    first_value_at(d, 8);
    match f.body {
        Some(s) => first_value_at(d, 9),
        None => no_value(d, Field::Body),
    }
    match f.excerpt {
        Some(s) => first_value_at(d, d.len() - 1),
        None => no_value(d, Field::BodyExcerpt),
    }
    no_value(d, Field::Category);
    no_value(d, Field::SchemaPlugin);
}

/// The document of a file on a disk tells where the file is from, its name, its extension in
/// capitals, its size, when it was changed and its attributes. Where it is a text that can be
/// read, its contents are in the document, and the first 2048 bytes of them at most.
pub proof fn files_on_disks_have_their_documents(
    fs: DiskModel,
    o: Origin,
    path: Seq<char>,
    e: DirEntryModel,
)
    ensures
        ({
            let d = disk_file_document(fs, o, path, e);
            &&& first_value(d, Field::ImagePath) == Some(FieldModel::Text(o.image_path))
            &&& first_value(d, Field::ImageId) == Some(FieldModel::Text(o.image_id))
            &&& first_value(d, Field::Partition) == Some(FieldModel::U64(o.partition as u64))
            &&& first_value(d, Field::FilePath) == Some(FieldModel::Text(path))
            &&& first_value(d, Field::FileName) == Some(FieldModel::Text(full_name(e)))
            &&& first_value(d, Field::Ext) == Some(FieldModel::Text(uppered(e.ext)))
            &&& first_value(d, Field::Size) == Some(FieldModel::U64(e.size as u64))
            &&& entry_moment(e) matches Some(t) ==> first_value(d, Field::Mtime) == Some(
                FieldModel::I64(t as i64),
            )
            &&& entry_moment(e) is None ==> first_value(d, Field::Mtime) == Some(FieldModel::I64(0))
            &&& first_value(d, Field::Attr) == Some(FieldModel::Text(attr_text(e.attr)))
            &&& text_body(fs, e) matches Some(t) ==> first_value(d, Field::Body) == Some(
                FieldModel::Text(t),
            ) && first_value(d, Field::BodyExcerpt) == Some(FieldModel::Text(excerpt_of(t, 2048)))
            &&& text_body(fs, e) is None ==> first_value(d, Field::Body) is None && first_value(
                d,
                Field::BodyExcerpt,
            ) is None
        }),
{
    let body = text_body(fs, e);
    documents_of_files_have_their_fields(
        FileModel {
            image_path: o.image_path,
            image_id: o.image_id,
            partition: o.partition,
            file_path: path,
            file_name: full_name(e),
            ext: uppered(e.ext),
            size: e.size as u64,
            mtime_unix: crate::document::entry_seconds(e),
            attr: attr_text(e.attr),
            body,
            excerpt: match body {
                Some(text) => Some(excerpt_of(text, 2048)),
                None => None,
            },
        },
    );
}

/// The extensions of files whose contents are indexed.
pub proof fn texts_are_told_by_extension(ext: Seq<char>)
    ensures
        text_extension(ext) <==> {
            ||| ext == "DOC"@
            ||| ext == "TXT"@
            ||| ext == "ZMS"@
            ||| ext == "MDD"@
            ||| ext == "BAS"@
            ||| ext == "X"@
            ||| ext == "S"@
            ||| ext == "C"@
            ||| ext == "H"@
            ||| ext == "MAC"@
            ||| ext == "INC"@
            ||| ext == "ASM"@
            ||| ext == "BAT"@
            ||| ext == "MD"@
            ||| ext == "INI"@
            ||| ext == "CFG"@
        },
{
    let all = DEFAULT_TEXT_EXTENSIONS@;
    assert(all[0]@ == "DOC"@ && all[1]@ == "TXT"@ && all[2]@ == "ZMS"@ && all[3]@ == "MDD"@);
    assert(all[4]@ == "BAS"@ && all[5]@ == "X"@ && all[6]@ == "S"@ && all[7]@ == "C"@);
    assert(all[8]@ == "H"@ && all[9]@ == "MAC"@ && all[10]@ == "INC"@ && all[11]@ == "ASM"@);
    assert(all[12]@ == "BAT"@ && all[13]@ == "MD"@ && all[14]@ == "INI"@ && all[15]@ == "CFG"@);
}

/// The attributes of an entry in letters: a letter for each bit that is set, a hyphen for
/// one that is not.
pub proof fn attributes_are_letters(bits: u8)
    ensures
        ({
            let t = attr_text(Attr { bits });
            &&& t.len() == 7
            &&& t[0] == if bits & 0x10 == 0x10 {
                'D'
            } else {
                '-'
            }
            &&& t[1] == if bits & 0x01 == 0x01 {
                'R'
            } else {
                '-'
            }
            &&& t[2] == if bits & 0x02 == 0x02 {
                'H'
            } else {
                '-'
            }
            &&& t[3] == if bits & 0x04 == 0x04 {
                'S'
            } else {
                '-'
            }
            &&& t[4] == if bits & 0x08 == 0x08 {
                'V'
            } else {
                '-'
            }
            &&& t[5] == if bits & 0x20 == 0x20 {
                'A'
            } else {
                '-'
            }
            &&& t[6] == if bits & 0x40 == 0x40 {
                'L'
            } else {
                '-'
            }
        }),
{
}

/// The moment of an entry whose date and time are packed in the usual way: years since 1980
/// in seven bits, months in four, days in five; hours in five, minutes in six, pairs of
/// seconds in five. It is counted from the beginning of 1970.
pub proof fn moments_are_packed(
    e: DirEntryModel,
    year: int,
    month: int,
    day: int,
    hour: int,
    minute: int,
    second: int,
)
    requires
        1980 <= year < 2108,
        0 <= month < 16,
        0 <= day < 32,
        0 <= hour < 32,
        0 <= minute < 64,
        0 <= second < 64,
        second % 2 == 0,
        e.date_raw == (year - 1980) * 512 + month * 32 + day,
        e.time_raw == hour * 2048 + minute * 32 + second / 2,
    ensures
        entry_moment(e) is Some <==> 1 <= month <= 12 && day >= 1,
        entry_moment(e) matches Some(t) ==> t == 86400 * epoch_day(year, month, day) + 3600 * hour
            + 60 * minute + second,
{
    assert(e.date_raw as int / 0x200 == year - 1980);
    assert(e.date_raw as int / 0x20 == (year - 1980) * 16 + month);
    assert(e.date_raw as int / 0x20 % 0x10 == month);
    assert(e.date_raw as int % 0x20 == day);
    assert(e.time_raw as int / 0x800 == hour);
    assert(e.time_raw as int / 0x20 == hour * 64 + minute);
    assert(e.time_raw as int / 0x20 % 0x40 == minute);
    assert(2 * (e.time_raw as int % 0x20) == second);
}

/// Days are counted from the first of January 1970; each day of a month follows the one
/// before, and months and years have as many days as in the calendar.
pub proof fn days_are_counted_by_the_calendar(year: int, month: int, day: int)
    requires
        1 <= month <= 12,
    ensures
        epoch_day(1970, 1, 1) == 0,
        epoch_day(year, month, day + 1) == epoch_day(year, month, day) + 1,
        month == 2 ==> epoch_day(year, 3, 1) == epoch_day(year, 2, 1) + (if year % 4 == 0 && (year
            % 100 != 0 || year % 400 == 0) {
            29int
        } else {
            28int
        }),
        month == 4 || month == 6 || month == 9 || month == 11 ==> epoch_day(year, month + 1, 1)
            == epoch_day(year, month, 1) + 30,
        month == 1 || month == 3 || month == 5 || month == 7 || month == 8 || month == 10
            ==> epoch_day(year, month + 1, 1) == epoch_day(year, month, 1) + 31,
        epoch_day(year + 1, 1, 1) == epoch_day(year, 12, 1) + 31,
{
    days_follow_each_other(year, month);
}

/// All files of a listing have their documents.
pub proof fn every_file_has_its_document(
    fs: DiskModel,
    o: Origin,
    items: Seq<(Seq<char>, DirEntryModel)>,
    opts: BuildOpts,
    k: int,
)
    requires
        0 <= k < items.len(),
        items[k].1.attr.bits & 0x08 != 0x08,
        items[k].1.attr.bits & 0x10 != 0x10,
    ensures
        listing_documents(fs, o, items, opts).contains(
            disk_file_document(fs, o, items[k].0, items[k].1),
        ),
    decreases items.len(),
{
    let head = items.drop_last();
    let before = listing_documents(fs, o, head, opts);
    let now = listing_documents(fs, o, items, opts);
    let doc = disk_file_document(fs, o, items[k].0, items[k].1);
    if k < head.len() {
        assert(head[k] == items[k]);
        every_file_has_its_document(fs, o, head, opts, k);
        let i = choose|i: int| 0 <= i < before.len() && before[i] == doc;
        assert(now[i] == doc);
    } else {
        let own = file_documents(fs, o, items[k].0, items[k].1, opts);
        assert(own[0] == doc);
        assert(now[before.len() as int] == doc);
    }
}

/// The documents of a listing are those of its files, one after the other. Volume labels and
/// directories have none. An archive has, behind its own document, those of its members,
/// where they are wanted and can be read.
pub proof fn documents_are_those_of_files(
    fs: DiskModel,
    o: Origin,
    items: Seq<(Seq<char>, DirEntryModel)>,
    opts: BuildOpts,
    path: Seq<char>,
    e: DirEntryModel,
)
    ensures
        listing_documents(fs, o, Seq::empty(), opts).len() == 0,
        e.attr.bits & 0x08 == 0x08 || e.attr.bits & 0x10 == 0x10 ==> listing_documents(
            fs,
            o,
            items.push((path, e)),
            opts,
        ) == listing_documents(fs, o, items, opts),
        e.attr.bits & 0x08 != 0x08 && e.attr.bits & 0x10 != 0x10 ==> listing_documents(
            fs,
            o,
            items.push((path, e)),
            opts,
        ) == listing_documents(fs, o, items, opts) + seq![disk_file_document(fs, o, path, e)] + (
        if opts.index_lzh && (same_letters(e.ext, "LZH"@) || same_letters(e.ext, "LHA"@))
            && fs.file_bytes(e) is Ok && archive_documents(
            fs.file_bytes(e)->Ok_0,
            o,
            path,
            opts.lzh_opts.max_depth as nat,
            opts.lzh_opts,
        ) is Ok {
            archive_documents(
                fs.file_bytes(e)->Ok_0,
                o,
                path,
                opts.lzh_opts.max_depth as nat,
                opts.lzh_opts,
            )->Ok_0
        } else {
            Seq::empty()
        }),
{
    reveal_strlit("LZH");
    reveal_strlit("LHA");
    case_is_all_that_goes(e.ext, "LZH"@);
    case_is_all_that_goes(e.ext, "LHA"@);
    assert(uppered("LZH"@) =~= "LZH"@);
    assert(uppered("LHA"@) =~= "LHA"@);
    let more = items.push((path, e));
    assert(more.drop_last() =~= items);
    let before = listing_documents(fs, o, items, opts);
    let own = seq![disk_file_document(fs, o, path, e)];
    assert(before + own + Seq::<Seq<(Field, FieldModel)>>::empty() =~= before + own);
    if let Ok(bytes) = fs.file_bytes(e) {
        if let Ok(members) = archive_documents(
            bytes,
            o,
            path,
            opts.lzh_opts.max_depth as nat,
            opts.lzh_opts,
        ) {
            assert(before + (own + members) =~= before + own + members);
        }
    }
}

/// A floppy has the documents of its one disk, under partition zero.
pub proof fn floppies_have_the_documents_of_their_disk(
    opened: OpenedImage,
    path: Seq<char>,
    id: Seq<char>,
    opts: BuildOpts,
    fs: DiskModel,
)
    requires
        opened is Floppy,
        mounted_partition(opened, None) == Ok::<DiskModel, FsError>(fs),
    ensures
        image_documents(opened, path, id, opts).0 == listing_documents(
            fs,
            Origin { image_path: path, image_id: id, partition: 0 },
            disk_listing(fs).0,
            opts,
        ),
        image_documents(opened, path, id, opts).1 == disk_listing(fs).1,
{
}

proof fn partitions_have_their_documents(
    opened: OpenedImage,
    count: nat,
    idx: nat,
    path: Seq<char>,
    id: Seq<char>,
    opts: BuildOpts,
    k: nat,
    fs: DiskModel,
    doc: Seq<(Field, FieldModel)>,
)
    requires
        idx <= k < count,
        partition_documents(opened, count, idx, path, id, opts).1 is None,
        mounted_partition(opened, Some(k as usize)) == Ok::<DiskModel, FsError>(fs),
        listing_documents(
            fs,
            Origin { image_path: path, image_id: id, partition: k as usize },
            disk_listing(fs).0,
            opts,
        ).contains(doc),
    ensures
        partition_documents(opened, count, idx, path, id, opts).0.contains(doc),
        disk_listing(fs).1 is None,
    decreases count - idx,
{
    let all = partition_documents(opened, count, idx, path, id, opts).0;
    let rest = partition_documents(opened, count, idx + 1, path, id, opts);
    match mounted_partition(opened, Some(idx as usize)) {
        Err(_) => {
            partitions_have_their_documents(opened, count, idx + 1, path, id, opts, k, fs, doc);
        },
        Ok(here) => {
            let o = Origin { image_path: path, image_id: id, partition: idx as usize };
            let own = disk_documents(here, o, opts).0;
            assert(all == own + rest.0);
            if k == idx {
                let i = choose|i: int| 0 <= i < own.len() && own[i] == doc;
                assert(all[i] == doc);
            } else {
                partitions_have_their_documents(opened, count, idx + 1, path, id, opts, k, fs, doc);
                let i = choose|i: int| 0 <= i < rest.0.len() && rest.0[i] == doc;
                assert(all[own.len() + i] == doc);
            }
        },
    }
}

/// A hard disk that can be read to its end has the documents of all its partitions that can
/// be mounted, each under the number of its partition.
pub proof fn hard_disks_have_the_documents_of_their_partitions(
    opened: OpenedImage,
    path: Seq<char>,
    id: Seq<char>,
    opts: BuildOpts,
    k: nat,
    fs: DiskModel,
    doc: Seq<(Field, FieldModel)>,
)
    requires
        opened is Hdd,
        k < opened->Hdd_0.places().len(),
        image_documents(opened, path, id, opts).1 is None,
        mounted_partition(opened, Some(k as usize)) == Ok::<DiskModel, FsError>(fs),
        listing_documents(
            fs,
            Origin { image_path: path, image_id: id, partition: k as usize },
            disk_listing(fs).0,
            opts,
        ).contains(doc),
    ensures
        image_documents(opened, path, id, opts).0.contains(doc),
{
    let count = opened->Hdd_0.places().len();
    partitions_have_their_documents(opened, count, 0, path, id, opts, k, fs, doc);
}

/// Images are told by the extensions `xdf`, `hds`, `hdf` and `img`, in capitals or small
/// letters.
pub proof fn images_are_told_by_extension(path: Seq<char>)
    ensures
        image_path(path) <==> extension_of(path) is Some && (same_letters(
            extension_of(path)->0,
            "xdf"@,
        ) || same_letters(extension_of(path)->0, "hds"@) || same_letters(
            extension_of(path)->0,
            "hdf"@,
        ) || same_letters(extension_of(path)->0, "img"@)),
{
    reveal_strlit("xdf");
    reveal_strlit("hds");
    reveal_strlit("hdf");
    reveal_strlit("img");
    assert(lowered("xdf"@) =~= "xdf"@);
    assert(lowered("hds"@) =~= "hds"@);
    assert(lowered("hdf"@) =~= "hdf"@);
    assert(lowered("img"@) =~= "img"@);
    if extension_of(path) is Some {
        let ext = extension_of(path)->0;
        case_is_all_that_goes(ext, "xdf"@);
        case_is_all_that_goes(ext, "hds"@);
        case_is_all_that_goes(ext, "hdf"@);
        case_is_all_that_goes(ext, "img"@);
    }
}

/// The trash cans and the bookkeeping of hosts are passed over.
pub proof fn host_directories_are_passed_over(name: Seq<char>)
    ensures
        host_directory(name) <==> {
            ||| name == "#recycle"@
            ||| name == ".Trashes"@
            ||| name == ".Trash"@
            ||| name == ".fseventsd"@
            ||| name == ".Spotlight-V100"@
            ||| name == "$RECYCLE.BIN"@
            ||| name == "System Volume Information"@
        },
{
}

/// The value of a hexadecimal digit in small letters; -1 for any other character.
pub open spec fn hex_value(c: char) -> int {
    if 48 <= c as int <= 57 {
        c as int - 48
    } else if 97 <= c as int <= 102 {
        c as int - 87
    } else {
        -1
    }
}

/// The short name of a hash: two hexadecimal digits, the high one first, for each of its
/// first eight bytes.
pub proof fn short_names_spell_the_hash(digest: Seq<u8>, i: int)
    requires
        digest.len() >= 8,
        0 <= i < 8,
    ensures
        short_hex(digest).len() == 16,
        hex_value(short_hex(digest)[2 * i]) >= 0,
        hex_value(short_hex(digest)[2 * i + 1]) >= 0,
        16 * hex_value(short_hex(digest)[2 * i]) + hex_value(short_hex(digest)[2 * i + 1])
            == digest[i],
{
    let b = digest[i] as int;
    assert(digest.take(8)[i] == digest[i]);
    assert((2 * i) % 2 == 0 && (2 * i) / 2 == i && (2 * i + 1) % 2 == 1 && (2 * i + 1) / 2 == i);
    assert(forall|n: int| 0 <= n < 16 ==> hex_value(#[trigger] hex_digit(n)) == n);
    assert(0 <= b / 16 < 16 && 0 <= b % 16 < 16);
}

/// A search needs a query that is not all white space, or an extension.
pub proof fn white_space_is_no_query(query: Seq<char>)
    ensures
        has_query(query) <==> !all_white(query),
{
    if all_white(query) {
        let none = Seq::<char>::empty();
        trimming_takes_white_space_away(query, none, none);
        assert(query + none + none =~= query);
    } else {
        start_is_kept(query);
        let s = start_trimmed(query);
        end_is_kept(s);
    }
}

proof fn start_is_kept(s: Seq<char>)
    requires
        !all_white(s),
    ensures
        start_trimmed(s).len() > 0,
        !is_white(start_trimmed(s)[0]),
    decreases s.len(),
{
    if is_white(s[0]) {
        let k = choose|k: int| 0 <= k < s.len() && !is_white(#[trigger] s[k]);
        assert(s.skip(1)[k - 1] == s[k]);
        start_is_kept(s.skip(1));
    }
}

proof fn end_is_kept(s: Seq<char>)
    requires
        s.len() > 0,
        !is_white(s[0]),
    ensures
        crate::text::end_trimmed(s).len() > 0,
    decreases s.len(),
{
    if is_white(s.last()) {
        end_is_kept(s.drop_last());
    }
}

/// The names of the fields in the index.
pub proof fn fields_have_their_names()
    ensures
        field_label(Field::ImagePath) == "image_path"@,
        field_label(Field::ImageId) == "image_id"@,
        field_label(Field::Partition) == "partition"@,
        field_label(Field::FilePath) == "file_path"@,
        field_label(Field::FileName) == "file_name"@,
        field_label(Field::Ext) == "ext"@,
        field_label(Field::Size) == "size"@,
        field_label(Field::Mtime) == "mtime"@,
        field_label(Field::Attr) == "attr"@,
        field_label(Field::Body) == "body"@,
        field_label(Field::BodyExcerpt) == "body_excerpt"@,
        field_label(Field::Category) == "category"@,
        field_label(Field::IssueNo) == "issue_no"@,
        field_label(Field::IssueKind) == "issue_kind"@,
        field_label(Field::IssueRole) == "issue_role"@,
        field_label(Field::UniqueId) == "unique_id"@,
        field_label(Field::SchemaPlugin) == "schema_plugin"@,
        field_label(Field::SchemaVersion) == "schema_version"@,
        field_label(Field::Payload) == "payload"@,
        field_label(Field::LocationFacet) == "location_facet"@,
{
}

/// A document of a record has each thing that is known of the record in its own field. Its
/// file name is what follows the last slash of the path, and its payload is kept where it
/// is an object.
pub proof fn documents_of_records_have_their_fields(r: RecordModel)
    ensures
        ({
            let d = record_document(r);
            &&& first_value(d, Field::UniqueId) == Some(FieldModel::Text(r.unique_id))
            &&& first_value(d, Field::Category) == Some(FieldModel::Text(r.category))
            &&& first_value(d, Field::ImagePath) == Some(FieldModel::Text(r.image_path))
            &&& first_value(d, Field::ImageId) == Some(FieldModel::Text(r.image_id))
            &&& first_value(d, Field::Partition) == Some(FieldModel::U64(r.partition as u64))
            &&& first_value(d, Field::FilePath) == Some(FieldModel::Text(r.source_path))
            &&& first_value(d, Field::FileName) == Some(
                FieldModel::Text(after_last(r.source_path, '/')),
            )
            &&& first_value(d, Field::IssueNo) == Some(FieldModel::U64(r.issue_no))
            &&& first_value(d, Field::IssueKind) == Some(FieldModel::Text(r.issue_kind))
            &&& first_value(d, Field::IssueRole) == Some(FieldModel::Text(r.issue_role))
            &&& first_value(d, Field::SchemaPlugin) == Some(FieldModel::Text(r.schema_plugin))
            &&& first_value(d, Field::SchemaVersion) == Some(FieldModel::U64(r.schema_version))
            &&& first_value(d, Field::LocationFacet) == Some(FieldModel::Facet(r.location_facet))
            &&& r.payload is Object ==> first_value(d, Field::Payload) == Some(
                FieldModel::Json(kept_json(r.payload)),
            )
            &&& !(r.payload is Object) ==> first_value(d, Field::Payload) is None
        }),
{
    let d = record_document(r);
    first_value_at(d, 0);
    first_value_at(d, 1);
    first_value_at(d, 2);
    first_value_at(d, 3);
    first_value_at(d, 4);
    first_value_at(d, 5);
    first_value_at(d, 6);
    first_value_at(d, 7);
    first_value_at(d, 8);
    first_value_at(d, 9);
    first_value_at(d, 10);
    first_value_at(d, 11);
    first_value_at(d, 12);
    if r.payload is Object {
        first_value_at(d, 13);
    } else {
        no_value(d, Field::Payload);
    }
}

/// What follows the last slash of a path is its last name.
pub proof fn last_names_follow_the_last_slash(dir: Seq<char>, name: Seq<char>)
    requires
        !name.contains('/'),
    ensures
        after_last(dir + seq!['/'] + name, '/') == name,
        after_last(name, '/') == name,
{
    let path = dir + seq!['/'] + name;
    crate::laws::texts::the_last_place_is_found(path, '/');
    crate::laws::texts::the_last_place_is_found(name, '/');
    let k = crate::path::rfind_char(path, '/');
    if k > dir.len() {
        assert(name[k - dir.len() - 1] == '/');
    }
    assert(path[dir.len() as int] == '/');
    assert(path.skip(k + 1) =~= name);
    assert(name.skip(0) =~= name);
}

/// A payload keeps its names and values; a whole number that fits is kept as a signed one.
pub proof fn payloads_keep_their_values(members: Seq<(Seq<char>, JsonModel)>, i: int)
    requires
        0 <= i < members.len(),
    ensures
        ({
            let kept = kept_json(JsonModel::Object(members))->Object_0;
            &&& kept_json(JsonModel::Object(members)) is Object
            &&& kept.len() == members.len()
            &&& kept[i].0 == members[i].0
            &&& members[i].1 is Text ==> kept[i].1 == members[i].1
            &&& members[i].1 matches JsonModel::Unsigned(n) ==> (n <= i64::MAX ==> kept[i].1
                == JsonModel::Signed(n as i64))
            &&& members[i].1 is Object ==> kept[i].1 is Object
        }),
{
    reveal_with_fuel(kept_json, 2);
}

/// A document tells which version of which plugin has read which image, if a plugin made it.
pub proof fn documents_tell_who_read_the_image(
    doc: Seq<(Field, FieldModel)>,
    plugin: Seq<char>,
    image: Seq<char>,
)
    ensures
        first_value(doc, Field::SchemaPlugin) == Some(FieldModel::Text(plugin)) && first_value(
            doc,
            Field::ImageId,
        ) == Some(FieldModel::Text(image)) && plugin.len() > 0 ==> {
            &&& document_key(doc) is Some
            &&& document_key(doc)->0.plugin == plugin
            &&& document_key(doc)->0.image_id == image
            &&& first_value(doc, Field::SchemaVersion) matches Some(FieldModel::U64(n))
                ==> document_key(doc)->0.version == n
        },
        first_value(doc, Field::SchemaPlugin) is None ==> document_key(doc) is None,
        first_value(doc, Field::ImageId) is None ==> document_key(doc) is None,
{
}

/// The count under a name; zero where there is none.
pub open spec fn count_under(counts: Seq<(Seq<char>, nat)>, name: Seq<char>) -> nat
    decreases counts.len(),
{
    if counts.len() == 0 {
        0
    } else {
        count_under(counts.drop_last(), name) + (if counts.last().0 == name {
            counts.last().1
        } else {
            0
        })
    }
}

proof fn count_of_joined(
    a: Seq<(Seq<char>, nat)>,
    x: (Seq<char>, nat),
    b: Seq<(Seq<char>, nat)>,
    name: Seq<char>,
)
    ensures
        count_under(a + seq![x] + b, name) == count_under(a, name) + (if x.0 == name {
            x.1
        } else {
            0
        }) + count_under(b, name),
        count_under(a + b, name) == count_under(a, name) + count_under(b, name),
    decreases b.len(),
{
    if b.len() == 0 {
        assert((a + seq![x] + b) =~= a.push(x));
        assert(a.push(x).drop_last() =~= a);
        assert(a + b =~= a);
    } else {
        count_of_joined(a, x, b.drop_last(), name);
        assert((a + seq![x] + b).drop_last() =~= a + seq![x] + b.drop_last());
        assert((a + b).drop_last() =~= a + b.drop_last());
    }
}

/// Counting a plugin adds one to its count and leaves the other counts alone.
pub proof fn counting_adds_to_one_plugin(
    counts: Seq<(Seq<char>, nat)>,
    i: int,
    name: Seq<char>,
    other: Seq<char>,
)
    requires
        0 <= i <= counts.len(),
    ensures
        count_under(counted_from(counts, i, name), other) == count_under(counts, other) + (if other
            == name {
            1nat
        } else {
            0nat
        }),
    decreases counts.len() - i,
{
    let none = Seq::<(Seq<char>, nat)>::empty();
    if i == counts.len() {
        assert(counts.push((name, 1)).drop_last() =~= counts);
    } else {
        let a = counts.take(i);
        let b = counts.skip(i + 1);
        assert(counts =~= a + seq![counts[i]] + b);
        if counts[i].0 == name {
            assert(counts.update(i, (name, counts[i].1 + 1)) =~= a + seq![
                (name, counts[i].1 + 1),
            ] + b);
            count_of_joined(a, counts[i], b, other);
            count_of_joined(a, (name, counts[i].1 + 1), b, other);
        } else if crate::text::text_le(name, counts[i].0) {
            let tail = counts.skip(i);
            assert(counts.insert(i, (name, 1)) =~= a + seq![(name, 1nat)] + tail);
            assert(counts =~= a + tail);
            count_of_joined(a, (name, 1), tail, other);
        } else {
            counting_adds_to_one_plugin(counts, i + 1, name, other);
        }
    }
}

/// The first plugin that is chosen and has read the image in its present version ends the
/// trial with nothing; the first one that takes the image as its own ends it with what it
/// takes out. A plugin that is not chosen is passed over.
pub proof fn the_first_plugin_that_knows_an_image_reads_it<P: SchemaPlugin>(
    plugins: Seq<P>,
    i: int,
    only: Option<Seq<char>>,
    already: Seq<KeyModel>,
    opened: OpenedImage,
    path: Seq<char>,
    id: Seq<char>,
    fs: DiskModel,
)
    requires
        0 <= i < plugins.len() <= usize::MAX,
        opened is Floppy,
        mounted_partition(opened, None) == Ok::<DiskModel, FsError>(fs),
    ensures
        ({
            let p = plugins[i];
            let ctx = ContextModel { image_path: path, image_id: id, partition: 0, fs };
            let now = trial_from(plugins, i, only, already, opened, path, id);
            let rest = trial_from(plugins, i + 1, only, already, opened, path, id);
            let chosen = only is None || only->0 == p.spec_name();
            let known = already.contains(
                KeyModel { plugin: p.spec_name(), version: p.spec_version(), image_id: id },
            );
            &&& !chosen ==> now == rest
            &&& chosen && known ==> now.decision == ExtractDecision::AlreadyExtracted
                && now.records.len() == 0
            &&& chosen && !known && p.detects(ctx) && p.extracts(ctx) is Ok ==> now.decision == (
            ExtractDecision::Extracted {
                plugin: i as usize,
                records: p.extracts(ctx)->Ok_0.records.len() as usize,
            }) && now.records == p.extracts(ctx)->Ok_0.records
            &&& chosen && !known && !p.detects(ctx) ==> now.decision == rest.decision && now.records
                == rest.records
        }),
        trial_from(
            plugins,
            plugins.len() as int,
            only,
            already,
            opened,
            path,
            id,
        ).decision == ExtractDecision::NoPlugin,
{
    let rest = trial_from(plugins, i + 1, only, already, opened, path, id);
    assert(Seq::<RecordModel>::empty() + rest.records =~= rest.records);
}

/// Each element of an array and each value of an object is kept by itself; what is no whole
/// number, or one that does not fit, is kept as it is.
pub proof fn values_are_kept_one_by_one(
    items: Seq<JsonModel>,
    members: Seq<(Seq<char>, JsonModel)>,
    j: JsonModel,
    i: int,
)
    ensures
        kept_json(JsonModel::Array(items)) is Array,
        kept_json(JsonModel::Array(items))->Array_0.len() == items.len(),
        0 <= i < items.len() ==> kept_json(JsonModel::Array(items))->Array_0[i] == kept_json(
            items[i],
        ),
        kept_json(JsonModel::Object(members)) is Object,
        kept_json(JsonModel::Object(members))->Object_0.len() == members.len(),
        0 <= i < members.len() ==> kept_json(JsonModel::Object(members))->Object_0[i] == (
            members[i].0,
            kept_json(members[i].1),
        ),
        j is Text || j is Signed || j is Bool || j is Null || j is Decimal ==> kept_json(j) == j,
        j matches JsonModel::Unsigned(n) ==> kept_json(j) == (if n < 0x8000_0000_0000_0000 {
            JsonModel::Signed(n as i64)
        } else {
            j
        }),
{
}

} // verus!
