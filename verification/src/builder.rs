//! Making the documents of an archive of disk images.

use crate::digest::{short_hash, short_hash_of};
use crate::direntry::{shown_name, Attr, DirEntry, DirEntryModel};
use crate::document::{attr_str, attr_text, build_document, document_models, entry_seconds,
    excerpt_of, extract_text_body, file_document, first_value, mtime_to_unix, plain_attr_text,
    text_body,
    ArchiveDocument, DocFields, FieldModel, FieldValue, FileModel, EXCERPT_BYTES};
use crate::error::FsError;
use crate::fs::{DiskModel, Filesystem};
use crate::glob::{relative_path, seen_from};
use crate::image::{image_is, DiskImage, OpenedImage};
use crate::lzh::{after_last, archive_documents, capped_sum, documents_from, index_lzh_bytes,
    lzh_archive, member_name, member_path, member_text, seconds_of, unpacked, LzhMember, LzhOpts,
    Origin};
use crate::path::{extension, extension_of, sort_texts, sorted_texts, TextOrder};
use crate::schema::{has_name, is_named, Field};
use crate::spec::{mount, mounted_partition, select_volume};
use crate::text::{components, from_chars, lowered, same_text, split_path, texts, to_chars, to_lower,
    to_upper, uppered};
use crate::walker::{disk_listing, list_all, visited_models, Visited};
use vstd::prelude::*;

verus! {

/// How an index is built.
#[derive(Clone, Copy, Debug, PartialEq, Eq, Structural)]
pub struct BuildOpts {
    /// The buffer of the index writer, in bytes.
    pub writer_memory: usize,
    /// Whether to start anew rather than to add what is missing.
    pub fresh: bool,
    /// Whether the members of LZH archives are indexed too.
    pub index_lzh: bool,
    /// Limits on unpacking archives.
    pub lzh_opts: LzhOpts,
}

impl Default for BuildOpts {
    fn default() -> (r: Self)
        ensures
            r.writer_memory == 50_000_000,
            !r.fresh,
            r.index_lzh,
            r.lzh_opts.max_depth == 2,
            r.lzh_opts.max_member_size == 50 * 1024 * 1024,
            r.lzh_opts.max_total_expansion == 500 * 1024 * 1024,
    {
        BuildOpts {
            writer_memory: 50_000_000,
            fresh: false,
            index_lzh: true,
            lzh_opts: LzhOpts::default(),
        }
    }
}

/// What was done while an index was built.
#[derive(Clone, Copy, Debug, PartialEq, Eq, Structural)]
pub struct BuildStats {
    pub images_indexed: usize,
    pub images_skipped: usize,
    pub files_indexed: usize,
}

impl Default for BuildStats {
    fn default() -> (r: Self)
        ensures
            r == (BuildStats { images_indexed: 0, images_skipped: 0, files_indexed: 0 }),
    {
        BuildStats { images_indexed: 0, images_skipped: 0, files_indexed: 0 }
    }
}

/// What became of an image.
#[derive(Clone, Copy, Debug, PartialEq, Eq, Structural)]
pub enum ImageOutcome {
    /// It was in the index already.
    Skipped,
    /// It was indexed, with so many documents.
    Indexed(usize),
    /// It could not be read to its end.
    Failed(FsError),
}

/// Whether counts are those from before and one more image.
pub open spec fn counts_image(before: BuildStats, outcome: ImageOutcome, now: BuildStats) -> bool {
    match outcome {
        ImageOutcome::Skipped => {
            &&& now.images_skipped == before.images_skipped + 1
            &&& now.images_indexed == before.images_indexed
            &&& now.files_indexed == before.files_indexed
        },
        ImageOutcome::Indexed(n) => {
            &&& now.images_skipped == before.images_skipped
            &&& now.images_indexed == before.images_indexed + 1
            &&& now.files_indexed == before.files_indexed + n
        },
        ImageOutcome::Failed(_) => now == before,
    }
}

/// The number of images that could not be read to their end.
pub open spec fn failures_in(outcomes: Seq<ImageOutcome>) -> nat
    decreases outcomes.len(),
{
    if outcomes.len() == 0 {
        0
    } else {
        failures_in(outcomes.drop_last()) + (if outcomes.last() is Failed {
            1nat
        } else {
            0nat
        })
    }
}

/// The number of documents that were made.
pub open spec fn documents_in(outcomes: Seq<ImageOutcome>) -> nat
    decreases outcomes.len(),
{
    if outcomes.len() == 0 {
        0
    } else {
        documents_in(outcomes.drop_last()) + (match outcomes.last() {
            ImageOutcome::Indexed(n) => n as nat,
            _ => 0nat,
        })
    }
}

/// The counts of a whole run add up: each image was indexed, passed over or failed,
/// and the documents are those of all images together.
pub proof fn build_counts_add_up(stats: Seq<BuildStats>, outcomes: Seq<ImageOutcome>)
    requires
        stats.len() == outcomes.len() + 1,
        stats[0] == (BuildStats { images_indexed: 0, images_skipped: 0, files_indexed: 0 }),
        forall|i: int|
            0 <= i < outcomes.len() ==> counts_image(
                stats[i],
                #[trigger] outcomes[i],
                stats[i + 1],
            ),
    ensures
        stats.last().images_indexed + stats.last().images_skipped + failures_in(outcomes)
            == outcomes.len(),
        stats.last().files_indexed == documents_in(outcomes),
    decreases outcomes.len(),
{
    if outcomes.len() > 0 {
        let n = outcomes.len() - 1;
        let before = stats.drop_last();
        let head = outcomes.drop_last();
        assert forall|i: int| 0 <= i < head.len() implies counts_image(
            before[i],
            #[trigger] head[i],
            before[i + 1],
        ) by {
            assert(head[i] == outcomes[i]);
        }
        build_counts_add_up(before, head);
        assert(counts_image(stats[n], outcomes[n], stats[n + 1]));
    }
}

impl BuildStats {
    /// Counts an image.
    pub fn record(&mut self, outcome: ImageOutcome)
        requires
            old(self).images_indexed < usize::MAX,
            old(self).images_skipped < usize::MAX,
            outcome matches ImageOutcome::Indexed(n) ==> old(self).files_indexed + n <= usize::MAX,
        ensures
            counts_image(*old(self), outcome, *final(self)),
    {
        match outcome {
            ImageOutcome::Skipped => {
                self.images_skipped = self.images_skipped + 1;
            },
            ImageOutcome::Indexed(n) => {
                self.images_indexed = self.images_indexed + 1;
                self.files_indexed = self.files_indexed + n;
            },
            ImageOutcome::Failed(_) => {},
        }
    }
}

/// Whether a directory is one that hosts keep for themselves.
pub open spec fn host_directory(name: Seq<char>) -> bool {
    ||| name == "#recycle"@
    ||| name == ".Trashes"@
    ||| name == ".Trash"@
    ||| name == ".fseventsd"@
    ||| name == ".Spotlight-V100"@
    ||| name == "$RECYCLE.BIN"@
    ||| name == "System Volume Information"@
}

/// Whether a directory is passed over in the search for images: the trash cans
/// and the bookkeeping of hosts.
pub fn is_excluded_dir(name: &str) -> (r: bool)
    ensures
        r == host_directory(name@),
{
    same_text(name, "#recycle") || same_text(name, ".Trashes") || same_text(name, ".Trash")
        || same_text(name, ".fseventsd") || same_text(name, ".Spotlight-V100") || same_text(
        name,
        "$RECYCLE.BIN",
    ) || same_text(name, "System Volume Information")
}

/// Whether a path is that of a disk image, by its extension.
pub open spec fn image_path(path: Seq<char>) -> bool {
    match extension_of(path) {
        Some(ext) => lowered(ext) == "xdf"@ || lowered(ext) == "hds"@ || lowered(ext) == "hdf"@
            || lowered(ext) == "img"@,
        None => false,
    }
}

/// Whether a path is that of a disk image, by its extension.
pub fn is_image_path(path: &str) -> (r: bool)
    ensures
        r == image_path(path@),
{
    match extension(path) {
        Some(e) => {
            let ext: String = to_lower(e.as_str());
            same_text(ext.as_str(), "xdf") || same_text(ext.as_str(), "hds") || same_text(
                ext.as_str(),
                "hdf",
            ) || same_text(ext.as_str(), "img")
        },
        None => false,
    }
}

/// A path without the slashes at its end.
pub open spec fn without_end_slashes(path: Seq<char>) -> Seq<char>
    decreases path.len(),
{
    if path.len() > 0 && path.last() == '/' {
        without_end_slashes(path.drop_last())
    } else {
        path
    }
}

/// The path of a file as it is seen from the directory that is searched; the whole
/// path where it lies elsewhere.
pub open spec fn path_in_search(dir: Seq<char>, path: Seq<char>) -> Seq<char> {
    match seen_from(without_end_slashes(dir), path) {
        Some(rest) => rest,
        None => path,
    }
}

/// Whether one of some names, the last one left aside, is that of a directory that
/// is passed over.
pub open spec fn below_host_directory(names: Seq<Seq<char>>) -> bool {
    exists|i: int| 0 <= i < names.len() - 1 && host_directory(#[trigger] names[i])
}

/// Whether a file is found in the search for images in a directory: it is an image,
/// by its extension, and does not lie below a directory that is passed over.
pub open spec fn is_found(dir: Seq<char>, path: Seq<char>) -> bool {
    image_path(path) && !below_host_directory(components(path_in_search(dir, path)))
}

fn strip_end_slashes(path: &str) -> (r: String)
    ensures
        r@ == without_end_slashes(path@),
{
    let chars: Vec<char> = to_chars(path);
    let mut n: usize = chars.len();
    assert(chars@.take(n as int) =~= chars@);
    while n > 0 && chars[n - 1] == '/'
        invariant
            n <= chars@.len(),
            without_end_slashes(chars@.take(n as int)) == without_end_slashes(path@),
        decreases n,
    {
        assert(chars@.take(n as int).last() == '/');
        assert(chars@.take(n as int).drop_last() =~= chars@.take(n - 1));
        n = n - 1;
    }
    let head: &[char] = &chars.as_slice()[0..n];
    assert(head@ =~= chars@.take(n as int));
    from_chars(head)
}

fn lies_below_host_directory(path: &str) -> (r: bool)
    ensures
        r == below_host_directory(components(path@)),
{
    let names: Vec<String> = split_path(path);
    let mut i: usize = 0;
    while i + 1 < names.len()
        invariant
            i < names.len() || i == 0,
            texts(names@) == components(path@),
            forall|k: int| 0 <= k < i ==> !host_directory(#[trigger] components(path@)[k]),
        decreases names@.len() - i,
    {
        assert(components(path@)[i as int] == names@[i as int]@);
        if is_excluded_dir(names[i].as_str()) {
            return true;
        }
        i = i + 1;
    }
    false
}

/// Of the files that lie in a directory and below, the disk images, in the order of
/// their paths. Those below a directory that is passed over are left out.
pub fn discover_images(dir: &str, files: &Vec<String>) -> (r: Vec<String>)
    ensures
        texts(r@) == sorted_texts(
            texts(files@).filter(|p: Seq<char>| is_found(dir@, p)),
            TextOrder::Path,
        ),
{
    let ghost wanted = |p: Seq<char>| is_found(dir@, p);
    let ghost all = texts(files@);
    let base: String = strip_end_slashes(dir);
    let mut out: Vec<String> = Vec::new();
    let mut i: usize = 0;
    proof {
        reveal(Seq::filter);
        assert(all.take(0) =~= Seq::empty());
        assert(texts(out@) =~= all.take(0).filter(wanted));
    }
    while i < files.len()
        invariant
            i <= files@.len(),
            all == texts(files@),
            base@ == without_end_slashes(dir@),
            wanted == (|p: Seq<char>| is_found(dir@, p)),
            texts(out@) == all.take(i as int).filter(wanted),
        decreases files@.len() - i,
    {
        let ghost before = texts(out@);
        proof {
            reveal(Seq::filter);
            assert(all.take(i + 1).drop_last() =~= all.take(i as int));
            assert(all.take(i + 1).last() == files@[i as int]@);
        }
        let file: &str = files[i].as_str();
        let rest: String = match relative_path(base.as_str(), file) {
            Some(rest) => rest,
            None => files[i].clone(),
        };
        assert(rest@ == path_in_search(dir@, file@));
        if is_image_path(file) && !lies_below_host_directory(rest.as_str()) {
            let path: String = files[i].clone();
            out.push(path);
            assert(texts(out@) =~= before.push(path@));
        }
        i = i + 1;
    }
    assert(all.take(i as int) =~= all);
    sort_texts(out, TextOrder::Path)
}

/// The name of an image: sixteen hexadecimal digits of the hash of its contents.
pub fn compute_image_id(bytes: &[u8]) -> (r: String)
    ensures
        r@ == short_hash(bytes@),
        r@.len() == 16,
{
    short_hash_of(bytes)
}

/// The image that a document belongs to.
pub open spec fn document_image(doc: Seq<(Field, FieldModel)>) -> Option<Seq<char>> {
    match first_value(doc, Field::ImageId) {
        Some(FieldModel::Text(id)) => Some(id),
        _ => None,
    }
}

/// The text of a value, if it is one.
pub fn value_as_str(v: &FieldValue) -> (r: Option<&String>)
    ensures
        match r {
            Some(s) => v@ == FieldModel::Text(s@),
            None => !(v@ is Text),
        },
{
    match v {
        FieldValue::Text(s) => Some(s),
        _ => None,
    }
}

/// The images that some documents belong to, each once.
pub fn collect_existing_image_ids(docs: &Vec<ArchiveDocument>) -> (r: Vec<String>)
    ensures
        texts(r@).no_duplicates(),
        forall|id: Seq<char>|
            #![trigger texts(r@).contains(id)]
            texts(r@).contains(id) <==> exists|i: int|
                0 <= i < docs@.len() && document_image((#[trigger] docs@[i])@) == Some(id),
{
    let mut out: Vec<String> = Vec::new();
    let mut i: usize = 0;
    while i < docs.len()
        invariant
            i <= docs@.len(),
            texts(out@).no_duplicates(),
            forall|k: int| 0 <= k < out@.len() ==> exists|j: int|
                0 <= j < i && document_image((#[trigger] docs@[j])@) == Some(
                    (#[trigger] out@[k])@,
                ),
            forall|j: int|
                0 <= j < i && document_image((#[trigger] docs@[j])@) is Some ==> has_name(
                    out@,
                    document_image(docs@[j]@)->0,
                ),
        decreases docs@.len() - i,
    {
        let ghost before = out@;
        if let Some(v) = docs[i].get_first(Field::ImageId) {
            if let Some(id) = value_as_str(v) {
                if !is_named(&out, id.as_str()) {
                    out.push(id.clone());
                    assert(out@[before.len() as int]@ == id@);
                    assert(texts(out@) =~= texts(before).push(id@));
                    assert forall|k: int| 0 <= k < out@.len() implies exists|j: int|
                        0 <= j < i + 1 && document_image((#[trigger] docs@[j])@) == Some(
                            (#[trigger] out@[k])@,
                        ) by {
                        if k < before.len() {
                            assert(out@[k] == before[k]);
                        } else {
                            assert(document_image(docs@[i as int]@) == Some(out@[k]@));
                        }
                    }
                }
            }
        }
        assert forall|j: int|
            0 <= j < i + 1 && document_image((#[trigger] docs@[j])@) is Some implies has_name(
            out@,
            document_image(docs@[j]@)->0,
        ) by {
            let id = document_image(docs@[j]@)->0;
            if j < i {
                assert(has_name(before, id));
                let k = choose|k: int| 0 <= k < before.len() && (#[trigger] before[k])@ == id;
                assert(out@[k]@ == id);
            }
        }
        i = i + 1;
    }
    assert forall|id: Seq<char>| #![trigger texts(out@).contains(id)] texts(out@).contains(
        id,
    ) <==> exists|j: int|
        0 <= j < docs@.len() && document_image((#[trigger] docs@[j])@) == Some(id) by {
        if texts(out@).contains(id) {
            let k = choose|k: int| 0 <= k < texts(out@).len() && texts(out@)[k] == id;
            assert(out@[k]@ == id);
        }
        if exists|j: int| 0 <= j < docs@.len() && document_image((#[trigger] docs@[j])@) == Some(
            id,
        ) {
            let j = choose|j: int|
                0 <= j < docs@.len() && document_image((#[trigger] docs@[j])@) == Some(id);
            assert(has_name(out@, id));
            let k = choose|k: int| 0 <= k < out@.len() && (#[trigger] out@[k])@ == id;
            assert(texts(out@)[k] == id);
        }
    }
    out
}

/// Whether an extension, in capitals, is that of an LZH archive.
pub open spec fn archive_extension(ext: Seq<char>) -> bool {
    ext == "LZH"@ || ext == "LHA"@
}

/// The document of a file on a disk.
pub open spec fn disk_file_document(
    fs: DiskModel,
    o: Origin,
    path: Seq<char>,
    e: DirEntryModel,
) -> Seq<(Field, FieldModel)> {
    let body = text_body(fs, e);
    file_document(
        FileModel {
            image_path: o.image_path,
            image_id: o.image_id,
            partition: o.partition,
            file_path: path,
            file_name: shown_name(e.name, e.ext),
            ext: uppered(e.ext),
            size: e.size as u64,
            mtime_unix: entry_seconds(e),
            attr: attr_text(e.attr),
            body,
            excerpt: match body {
                Some(text) => Some(excerpt_of(text, EXCERPT_BYTES as int)),
                None => None,
            },
        },
    )
}

/// The documents of a file: its own and, for an archive, those of its members. An
/// archive that cannot be read has its own only.
pub open spec fn file_documents(
    fs: DiskModel,
    o: Origin,
    path: Seq<char>,
    e: DirEntryModel,
    opts: BuildOpts,
) -> Seq<Seq<(Field, FieldModel)>> {
    let own = seq![disk_file_document(fs, o, path, e)];
    if opts.index_lzh && archive_extension(uppered(e.ext)) {
        match fs.file_bytes(e) {
            Err(_) => own,
            Ok(bytes) => match archive_documents(
                bytes,
                o,
                path,
                opts.lzh_opts.max_depth as nat,
                opts.lzh_opts,
            ) {
                Err(_) => own,
                Ok(members) => own + members,
            },
        }
    } else {
        own
    }
}

/// Whether an entry is indexed: neither a directory nor a volume label is.
pub open spec fn is_indexed(e: DirEntryModel) -> bool {
    !e.attr.has(Attr::VOLUME) && !e.attr.has(Attr::DIRECTORY)
}

/// The documents of the entries of a listing.
pub open spec fn listing_documents(
    fs: DiskModel,
    o: Origin,
    items: Seq<(Seq<char>, DirEntryModel)>,
    opts: BuildOpts,
) -> Seq<Seq<(Field, FieldModel)>>
    decreases items.len(),
{
    if items.len() == 0 {
        Seq::empty()
    } else {
        let before = listing_documents(fs, o, items.drop_last(), opts);
        let (path, e) = items.last();
        if is_indexed(e) {
            before + file_documents(fs, o, path, e, opts)
        } else {
            before
        }
    }
}

/// The documents of a disk, and the error that cut the walk through it short, if
/// one did.
pub open spec fn disk_documents(fs: DiskModel, o: Origin, opts: BuildOpts) -> (
    Seq<Seq<(Field, FieldModel)>>,
    Option<FsError>,
) {
    (listing_documents(fs, o, disk_listing(fs).0, opts), disk_listing(fs).1)
}

/// The documents of the partitions of an image from `idx` on. A partition that
/// cannot be mounted is passed over; one that cannot be walked through ends it.
pub open spec fn partition_documents(
    opened: OpenedImage,
    count: nat,
    idx: nat,
    path: Seq<char>,
    id: Seq<char>,
    opts: BuildOpts,
) -> (Seq<Seq<(Field, FieldModel)>>, Option<FsError>)
    decreases count - idx,
{
    if idx >= count {
        (Seq::empty(), None)
    } else {
        match mounted_partition(opened, Some(idx as usize)) {
            Err(_) => partition_documents(opened, count, idx + 1, path, id, opts),
            Ok(fs) => {
                let o = Origin { image_path: path, image_id: id, partition: idx as usize };
                let (docs, error) = disk_documents(fs, o, opts);
                if error is Some {
                    (docs, error)
                } else {
                    let (rest, end) = partition_documents(opened, count, idx + 1, path, id, opts);
                    (docs + rest, end)
                }
            },
        }
    }
}

/// The documents of an image, and the error that cut it short, if one did.
pub open spec fn image_documents(
    opened: OpenedImage,
    path: Seq<char>,
    id: Seq<char>,
    opts: BuildOpts,
) -> (Seq<Seq<(Field, FieldModel)>>, Option<FsError>) {
    match opened {
        OpenedImage::Floppy(_) => match mounted_partition(opened, None) {
            Err(e) => (Seq::empty(), Some(e)),
            Ok(fs) => disk_documents(
                fs,
                Origin { image_path: path, image_id: id, partition: 0 },
                opts,
            ),
        },
        OpenedImage::Hdd(h) => partition_documents(opened, h.places().len(), 0, path, id, opts),
    }
}

/// Makes the documents of a file on a disk.
pub fn index_one_file<D: DiskImage>(
    fs: &Filesystem<D>,
    image_path: &str,
    image_id: &str,
    partition: usize,
    path: &str,
    entry: &DirEntry,
    opts: &BuildOpts,
) -> (r: Vec<ArchiveDocument>)
    requires
        fs.valid(),
    ensures
        document_models(r@) == file_documents(
            fs@,
            Origin { image_path: image_path@, image_id: image_id@, partition },
            path@,
            entry@,
            *opts,
        ),
{
    let display_name: String = entry.display_name();
    let ext_upper: String = to_upper(entry.ext.as_str());
    let attr: String = attr_str(entry.attr);
    let body_pair: Option<(String, String)> = extract_text_body(fs, entry);
    let (body, excerpt): (Option<&str>, Option<&str>) = match &body_pair {
        Some(pair) => (Some(pair.0.as_str()), Some(pair.1.as_str())),
        None => (None, None),
    };
    let own = build_document(
        DocFields {
            image_path,
            image_id,
            partition,
            file_path: path,
            file_name: display_name.as_str(),
            ext: ext_upper.as_str(),
            size: entry.size as u64,
            mtime_unix: mtime_to_unix(entry),
            attr: attr.as_str(),
            body,
            excerpt,
        },
    );
    let mut docs: Vec<ArchiveDocument> = Vec::new();
    docs.push(own);
    assert(document_models(docs@) =~= seq![own@]);
    if opts.index_lzh && (same_text(ext_upper.as_str(), "LZH") || same_text(
        ext_upper.as_str(),
        "LHA",
    )) {
        if let Ok(bytes) = fs.read_file(entry) {
            if let Ok(mut members) = index_lzh_bytes(
                bytes.as_slice(),
                image_path,
                image_id,
                partition,
                path,
                opts.lzh_opts.max_depth,
                &opts.lzh_opts,
            ) {
                let ghost had = document_models(docs@);
                let ghost more = document_models(members@);
                docs.append(&mut members);
                assert(document_models(docs@) =~= had + more);
            }
        }
    }
    docs
}

/// Makes the documents of a disk.
pub fn index_filesystem<D: DiskImage>(
    fs: &Filesystem<D>,
    image_path: &str,
    image_id: &str,
    partition: usize,
    opts: &BuildOpts,
) -> (r: (Vec<ArchiveDocument>, Option<FsError>))
    requires
        fs.valid(),
    ensures
        (document_models(r.0@), r.1) == disk_documents(
            fs@,
            Origin { image_path: image_path@, image_id: image_id@, partition },
            *opts,
        ),
{
    let ghost o = Origin { image_path: image_path@, image_id: image_id@, partition };
    let (items, error): (Vec<Visited>, Option<FsError>) = list_all(fs);
    let ghost all = visited_models(items@);
    let mut docs: Vec<ArchiveDocument> = Vec::new();
    let mut i: usize = 0;
    assert(document_models(docs@) =~= listing_documents(fs@, o, all.take(0), *opts));
    while i < items.len()
        invariant
            fs.valid(),
            i <= items@.len(),
            all == visited_models(items@),
            o == (Origin { image_path: image_path@, image_id: image_id@, partition }),
            document_models(docs@) == listing_documents(fs@, o, all.take(i as int), *opts),
        decreases items@.len() - i,
    {
        let ghost had = document_models(docs@);
        assert(all.take(i + 1).drop_last() =~= all.take(i as int));
        assert(all.take(i + 1).last() == (items@[i as int].path@, items@[i as int].entry@));
        let entry: &DirEntry = &items[i].entry;
        if !entry.attr.contains(Attr::VOLUME) && !entry.attr.contains(Attr::DIRECTORY) {
            let mut more: Vec<ArchiveDocument> = index_one_file(
                fs,
                image_path,
                image_id,
                partition,
                items[i].path.as_str(),
                entry,
                opts,
            );
            let ghost added = document_models(more@);
            docs.append(&mut more);
            assert(document_models(docs@) =~= had + added);
        }
        i = i + 1;
    }
    assert(all.take(i as int) =~= all);
    (docs, error)
}

/// Makes the documents of an image. For a hard disk these are those of all
/// partitions that can be mounted.
pub fn index_one_image(
    opened: &OpenedImage,
    image_path: &str,
    image_id: &str,
    opts: &BuildOpts,
) -> (r: (Vec<ArchiveDocument>, Option<FsError>))
    ensures
        (document_models(r.0@), r.1) == image_documents(
            *opened,
            image_path@,
            image_id@,
            *opts,
        ),
{
    let mut docs: Vec<ArchiveDocument> = Vec::new();
    assert(document_models(docs@) =~= Seq::empty());
    match opened {
        OpenedImage::Floppy(_) => {
            let volume = match select_volume(opened, None) {
                Ok(v) => v,
                Err(e) => {
                    return (docs, Some(e));
                },
            };
            match mount(&volume) {
                Ok(fs) => index_filesystem(&fs, image_path, image_id, 0, opts),
                Err(e) => (docs, Some(e)),
            }
        },
        OpenedImage::Hdd(h) => {
            let count: usize = h.partitions().len();
            let ghost all = partition_documents(
                *opened,
                count as nat,
                0,
                image_path@,
                image_id@,
                *opts,
            );
            let mut idx: usize = 0;
            assert(document_models(docs@) + all.0 =~= all.0);
            while idx < count
                invariant
                    idx <= count,
                    ({
                        let rest = partition_documents(
                            *opened,
                            count as nat,
                            idx as nat,
                            image_path@,
                            image_id@,
                            *opts,
                        );
                        (document_models(docs@) + rest.0, rest.1) == all
                    }),
                    all == image_documents(*opened, image_path@, image_id@, *opts),
                decreases count - idx,
            {
                let ghost had = document_models(docs@);
                let ghost later = partition_documents(
                    *opened,
                    count as nat,
                    (idx + 1) as nat,
                    image_path@,
                    image_id@,
                    *opts,
                );
                if let Ok(volume) = select_volume(opened, Some(idx)) {
                    if let Ok(fs) = mount(&volume) {
                        let (mut more, error) = index_filesystem(
                            &fs,
                            image_path,
                            image_id,
                            idx,
                            opts,
                        );
                        let ghost added = document_models(more@);
                        docs.append(&mut more);
                        assert(document_models(docs@) =~= had + added);
                        if error.is_some() {
                            return (docs, error);
                        }
                        assert(document_models(docs@) + later.0 =~= had + (added + later.0));
                    }
                }
                idx = idx + 1;
            }
            assert(document_models(docs@) =~= all.0);
            (docs, None)
        },
    }
}

/// What indexing an image comes to.
pub struct IndexedImage {
    /// The name of the image.
    pub image_id: String,
    pub outcome: ImageOutcome,
    /// The documents that go into the index. An image that fails half-way leaves
    /// those that it had before.
    pub documents: Vec<ArchiveDocument>,
}

/// Indexes an image, unless it is in the index already.
pub fn index_image(path: &str, bytes: &[u8], existing_ids: &Vec<String>, opts: &BuildOpts) -> (r:
    IndexedImage)
    ensures
        r.image_id@ == short_hash(bytes@),
        has_name(existing_ids@, short_hash(bytes@)) ==> r.outcome == ImageOutcome::Skipped
            && r.documents@.len() == 0,
        !has_name(existing_ids@, short_hash(bytes@)) ==> match r.outcome {
            ImageOutcome::Skipped => false,
            ImageOutcome::Indexed(n) => {
                &&& n == r.documents@.len()
                &&& exists|opened: OpenedImage|
                    image_is(Ok(opened), path@, bytes@) && image_documents(
                        opened,
                        path@,
                        short_hash(bytes@),
                        *opts,
                    ) == (document_models(r.documents@), None::<FsError>)
            },
            ImageOutcome::Failed(e) => {
                ||| image_is(Err(e), path@, bytes@) && r.documents@.len() == 0
                ||| exists|opened: OpenedImage|
                    image_is(Ok(opened), path@, bytes@) && image_documents(
                        opened,
                        path@,
                        short_hash(bytes@),
                        *opts,
                    ) == (document_models(r.documents@), Some(e))
            },
        },
{
    let image_id: String = compute_image_id(bytes);
    if is_named(existing_ids, image_id.as_str()) {
        return IndexedImage {
            image_id,
            outcome: ImageOutcome::Skipped,
            documents: Vec::new(),
        };
    }
    match OpenedImage::open(path, bytes) {
        Err(e) => {
            assert(image_is(Err(e), path@, bytes@));
            IndexedImage { image_id, outcome: ImageOutcome::Failed(e), documents: Vec::new() }
        },
        Ok(opened) => {
            assert(image_is(Ok(opened), path@, bytes@));
            let (documents, error) = index_one_image(&opened, path, image_id.as_str(), opts);
            match error {
                Some(e) => IndexedImage {
                    image_id,
                    outcome: ImageOutcome::Failed(e),
                    documents,
                },
                None => IndexedImage {
                    image_id,
                    outcome: ImageOutcome::Indexed(documents.len()),
                    documents,
                },
            }
        },
    }
}

/// Whether all documents belong to an image.
pub open spec fn all_belong_to(docs: Seq<Seq<(Field, FieldModel)>>, id: Seq<char>) -> bool {
    forall|i: int| 0 <= i < docs.len() ==> document_image(#[trigger] docs[i]) == Some(id)
}

proof fn file_document_names_image(f: FileModel)
    ensures
        document_image(file_document(f)) == Some(f.image_id),
{
    let doc = file_document(f);
    assert(doc[0].0 == Field::ImagePath);
    assert(doc[1] == (Field::ImageId, FieldModel::Text(f.image_id)));
    let rest = doc.skip(1);
    assert(rest[0] == doc[1]);
    assert(first_value(rest, Field::ImageId) == Some(FieldModel::Text(f.image_id)));
}

proof fn member_documents_name_image(
    members: Seq<LzhMember>,
    i: int,
    expanded: int,
    o: Origin,
    outer: Seq<char>,
    depth: nat,
    opts: LzhOpts,
)
    ensures
        all_belong_to(documents_from(members, i, expanded, o, outer, depth, opts), o.image_id),
    decreases depth, 0nat, members.len() - i,
{
    if 0 <= i < members.len() && depth > 0 {
        let m = members[i];
        member_documents_name_image(members, i + 1, expanded, o, outer, depth, opts);
        if let Some(data) = unpacked(m) {
            let more = capped_sum(expanded, data.len() as int);
            member_documents_name_image(members, i + 1, more, o, outer, depth, opts);
            let name = member_name(m);
            let inner = member_path(outer, name);
            archive_documents_name_image(data, o, inner, (depth - 1) as nat, opts);
            let ext = uppered(after_last(after_last(name, '/'), '.'));
            let body = member_text(ext, data);
            file_document_names_image(
                FileModel {
                    image_path: o.image_path,
                    image_id: o.image_id,
                    partition: o.partition,
                    file_path: inner,
                    file_name: after_last(name, '/'),
                    ext,
                    size: data.len() as u64,
                    mtime_unix: seconds_of(m) as int,
                    attr: plain_attr_text(false),
                    body,
                    excerpt: match body {
                        Some(text) => Some(excerpt_of(text, EXCERPT_BYTES as int)),
                        None => None,
                    },
                },
            );
        }
    }
}

proof fn archive_documents_name_image(
    bytes: Seq<u8>,
    o: Origin,
    outer: Seq<char>,
    depth: nat,
    opts: LzhOpts,
)
    ensures
        archive_documents(bytes, o, outer, depth, opts) matches Ok(docs) ==> all_belong_to(
            docs,
            o.image_id,
        ),
    decreases depth, 1nat,
{
    if depth > 0 {
        if let Some(members) = lzh_archive(bytes) {
            member_documents_name_image(members, 0, 0, o, outer, depth, opts);
        }
    }
}

proof fn file_documents_name_image(
    fs: DiskModel,
    o: Origin,
    path: Seq<char>,
    e: DirEntryModel,
    opts: BuildOpts,
)
    ensures
        all_belong_to(file_documents(fs, o, path, e, opts), o.image_id),
{
    let body = text_body(fs, e);
    file_document_names_image(
        FileModel {
            image_path: o.image_path,
            image_id: o.image_id,
            partition: o.partition,
            file_path: path,
            file_name: shown_name(e.name, e.ext),
            ext: uppered(e.ext),
            size: e.size as u64,
            mtime_unix: entry_seconds(e),
            attr: attr_text(e.attr),
            body,
            excerpt: match body {
                Some(text) => Some(excerpt_of(text, EXCERPT_BYTES as int)),
                None => None,
            },
        },
    );
    if let Ok(bytes) = fs.file_bytes(e) {
        archive_documents_name_image(
            bytes,
            o,
            path,
            opts.lzh_opts.max_depth as nat,
            opts.lzh_opts,
        );
    }
}

proof fn listing_documents_name_image(
    fs: DiskModel,
    o: Origin,
    items: Seq<(Seq<char>, DirEntryModel)>,
    opts: BuildOpts,
)
    ensures
        all_belong_to(listing_documents(fs, o, items, opts), o.image_id),
    decreases items.len(),
{
    if items.len() > 0 {
        listing_documents_name_image(fs, o, items.drop_last(), opts);
        file_documents_name_image(fs, o, items.last().0, items.last().1, opts);
    }
}

proof fn partition_documents_name_image(
    opened: OpenedImage,
    count: nat,
    idx: nat,
    path: Seq<char>,
    id: Seq<char>,
    opts: BuildOpts,
)
    ensures
        all_belong_to(partition_documents(opened, count, idx, path, id, opts).0, id),
    decreases count - idx,
{
    if idx < count {
        partition_documents_name_image(opened, count, idx + 1, path, id, opts);
        if let Ok(fs) = mounted_partition(opened, Some(idx as usize)) {
            let o = Origin { image_path: path, image_id: id, partition: idx as usize };
            listing_documents_name_image(fs, o, disk_listing(fs).0, opts);
        }
    }
}

/// All documents of an image, those of archive members too, name it as the image
/// that they belong to.
pub proof fn documents_name_their_image(
    opened: OpenedImage,
    path: Seq<char>,
    id: Seq<char>,
    opts: BuildOpts,
)
    ensures
        all_belong_to(image_documents(opened, path, id, opts).0, id),
{
    match opened {
        OpenedImage::Floppy(_) => {
            if let Ok(fs) = mounted_partition(opened, None) {
                let o = Origin { image_path: path, image_id: id, partition: 0 };
                listing_documents_name_image(fs, o, disk_listing(fs).0, opts);
            }
        },
        OpenedImage::Hdd(h) => {
            partition_documents_name_image(opened, h.places().len(), 0, path, id, opts);
        },
    }
}

/// An image that was indexed with at least one document is found among the
/// existing ones when the index is built again, so it is passed over.
pub proof fn indexed_images_are_passed_over(
    opened: OpenedImage,
    path: Seq<char>,
    id: Seq<char>,
    opts: BuildOpts,
    index: Seq<ArchiveDocument>,
    at: int,
    existing: Seq<Seq<char>>,
)
    requires
        image_documents(opened, path, id, opts).0.len() > 0,
        0 <= at < index.len(),
        index[at]@ == image_documents(opened, path, id, opts).0[0],
        forall|x: Seq<char>|
            #![trigger existing.contains(x)]
            existing.contains(x) <==> exists|i: int|
                0 <= i < index.len() && document_image((#[trigger] index[i])@) == Some(x),
    ensures
        existing.contains(id),
{
    documents_name_their_image(opened, path, id, opts);
    assert(document_image(index[at]@) == Some(id));
}

} // verus!
