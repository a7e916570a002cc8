//! Summaries of what is on the disks, written by a language model.
//!
//! For each group of images the model is shown the files and the largest text of
//! each disk. It answers with a structured value, from which a summary is made.

use crate::anthropic::MODEL_SONNET;
use crate::builder::archive_extension;
use crate::codec::{decodable_length, decode_shift_jis, sjis_text};
use crate::direntry::{entry_models, shown_name, Attr, DirEntry, DirEntryModel};
use crate::document::{excerpt_is_longest_prefix, excerpt_of, make_excerpt,
    short_text_is_its_excerpt};
use crate::error::FsError;
use crate::fs::{DiskModel, Filesystem};
use crate::grouping::{image_models, paths_of, text_or_empty, ImageFile, ImageModel, ResolvedGroup};
use crate::image::{upper_name, DiskImage, ImageKind, OpenedImage};
use crate::lzh::{archive_documents, index_lzh_bytes, LzhOpts, Origin};
use crate::path::{file_name, file_name_of, find_last, opt_text, rfind_char};
use crate::spec::{mount, mounted_partition, select_volume};
use crate::summary::{has_member, missing_means_unknown, summary_for, FoundSummary, HighlightEntry,
    ImageSummary, MemberInfo, UsageInfo};
use crate::text::{decimal, find_char, find_from, from_chars, join, joined_texts, number_text,
    same_chars, same_text, text_at, texts, to_chars, to_upper, trim, trim_chars, trimmed, uppered};
use crate::walker::{disk_listing, list_all, visited_models, Visited};
use vstd::prelude::*;
use vstd::string::StringExecFns;
use vstd::utf8::encode_utf8;

verus! {

/// How summaries are made.
#[derive(Debug)]
pub struct SummarizeOpts {
    /// The whole name of the model; by default that of the middle one without its
    /// series.
    pub model: String,
    pub lang: String,
    /// How many bytes of text the model is shown of each disk, at most.
    pub max_text_bytes: usize,
    /// How many files the model is shown of each disk, at most.
    pub max_listing: usize,
    /// Whether summaries that there are already are made anew.
    pub force: bool,
    /// Whether the model is not asked at all.
    pub dry_run: bool,
    /// How many seconds to wait between two questions.
    pub rate_sleep_secs: u64,
}

impl Default for SummarizeOpts {
    fn default() -> (r: Self)
        ensures
            r.model@ == MODEL_SONNET@,
            r.lang@ == "ja"@,
            r.max_text_bytes == 16 * 1024,
            r.max_listing == 200,
            !r.force,
            !r.dry_run,
            r.rate_sleep_secs == 0,
    {
        SummarizeOpts {
            model: MODEL_SONNET.to_owned(),
            lang: "ja".to_owned(),
            max_text_bytes: 16384,
            max_listing: 200,
            force: false,
            dry_run: false,
            rate_sleep_secs: 0,
        }
    }
}

/// What was done while summaries were made.
#[derive(Clone, Copy, Debug, PartialEq, Eq, Structural)]
pub struct SummarizeStats {
    pub processed: usize,
    pub skipped_existing: usize,
    pub failed: usize,
    pub total_input_tokens: u64,
    pub total_output_tokens: u64,
}

impl Default for SummarizeStats {
    fn default() -> (r: Self)
        ensures
            r == (SummarizeStats {
                processed: 0,
                skipped_existing: 0,
                failed: 0,
                total_input_tokens: 0,
                total_output_tokens: 0,
            }),
    {
        SummarizeStats {
            processed: 0,
            skipped_existing: 0,
            failed: 0,
            total_input_tokens: 0,
            total_output_tokens: 0,
        }
    }
}

/// What the model is shown of a disk.
#[derive(Debug)]
pub struct ImageSnapshot {
    pub format: ImageKind,
    /// The size of the image in bytes.
    pub total_size: u64,
    /// The number of files, members of archives included.
    pub file_count: usize,
    /// The paths and sizes of files.
    pub listing: Vec<(String, u64)>,
    pub volume_label: Option<String>,
    /// The path of the largest text, and its beginning.
    pub main_text: Option<(String, String)>,
}

/// What the model is shown of a disk, as a mathematical value.
pub struct SnapshotModel {
    pub format: ImageKind,
    pub total_size: u64,
    pub file_count: nat,
    pub listing: Seq<(Seq<char>, u64)>,
    pub volume_label: Option<Seq<char>>,
    pub main_text: Option<(Seq<char>, Seq<char>)>,
}

/// A listing as a mathematical value.
pub open spec fn listing_models(v: Seq<(String, u64)>) -> Seq<(Seq<char>, u64)> {
    Seq::new(v.len(), |i: int| (v[i].0@, v[i].1))
}

impl View for ImageSnapshot {
    type V = SnapshotModel;

    open spec fn view(&self) -> SnapshotModel {
        SnapshotModel {
            format: self.format,
            total_size: self.total_size,
            file_count: self.file_count as nat,
            listing: listing_models(self.listing@),
            volume_label: opt_text(self.volume_label),
            main_text: match self.main_text {
                Some(t) => Some((t.0@, t.1@)),
                None => None,
            },
        }
    }
}

/// What is known of an image while its disks are walked through.
pub struct Gathered {
    pub listing: Vec<(String, u64)>,
    pub file_count: usize,
    pub volume_label: Option<String>,
    /// The largest text so far: its path, its size and its contents.
    pub best: Option<(String, u32, Vec<u8>)>,
}

/// What is known of an image while its disks are walked through, as
/// a mathematical value.
pub struct GatheredModel {
    pub listing: Seq<(Seq<char>, u64)>,
    pub file_count: nat,
    pub volume_label: Option<Seq<char>>,
    pub best: Option<(Seq<char>, u32, Seq<u8>)>,
}

impl View for Gathered {
    type V = GatheredModel;

    open spec fn view(&self) -> GatheredModel {
        GatheredModel {
            listing: listing_models(self.listing@),
            file_count: self.file_count as nat,
            volume_label: opt_text(self.volume_label),
            best: match self.best {
                Some(b) => Some((b.0@, b.1, b.2@)),
                None => None,
            },
        }
    }
}

/// A sum that stays within what can be counted.
pub open spec fn capped_count(a: nat, b: nat) -> nat {
    if a + b > usize::MAX {
        usize::MAX as nat
    } else {
        a + b
    }
}

/// The limits with which the members of archives are counted.
pub open spec fn count_limits() -> LzhOpts {
    LzhOpts {
        max_depth: 2,
        max_member_size: 52_428_800,
        max_total_expansion: 524_288_000,
    }
}

/// For how many files a file counts: itself and, if it is an archive, its members.
pub open spec fn files_in(fs: DiskModel, path: Seq<char>, e: DirEntryModel) -> nat {
    if archive_extension(uppered(e.ext)) {
        match fs.file_bytes(e) {
            Err(_) => 1,
            Ok(bytes) => match archive_documents(
                bytes,
                Origin { image_path: Seq::empty(), image_id: Seq::empty(), partition: 0 },
                path,
                2,
                count_limits(),
            ) {
                Err(_) => 1,
                Ok(docs) => 1 + docs.len(),
            },
        }
    } else {
        1
    }
}

/// Whether a file is a text that the model may be shown: a document that is not
/// empty, not too large, and can be read.
pub open spec fn may_be_main(fs: DiskModel, e: DirEntryModel, max_text: int) -> bool {
    &&& uppered(e.ext) == "DOC"@ || uppered(e.ext) == "TXT"@
    &&& 0 < e.size <= max_text * 4
    &&& fs.file_bytes(e) is Ok
}

/// Whether an entry is a file: neither a directory nor a volume label.
pub open spec fn is_file(e: DirEntryModel) -> bool {
    !e.attr.has(Attr::VOLUME) && !e.attr.has(Attr::DIRECTORY)
}

/// Whether a text is larger than the largest one so far.
pub open spec fn is_larger(size: u32, best: Option<(Seq<char>, u32, Seq<u8>)>) -> bool {
    match best {
        Some((_, other, _)) => other < size,
        None => true,
    }
}

/// What is known after one more entry. Of two texts of the same size the first one
/// is kept.
pub open spec fn gather_step(
    g: GatheredModel,
    fs: DiskModel,
    prefix: Seq<char>,
    path: Seq<char>,
    e: DirEntryModel,
    max_text: int,
) -> GatheredModel {
    if !is_file(e) {
        g
    } else {
        let full = prefix + path;
        GatheredModel {
            listing: g.listing.push((full, e.size as u64)),
            file_count: capped_count(g.file_count, files_in(fs, path, e)),
            volume_label: g.volume_label,
            best: if may_be_main(fs, e, max_text) && is_larger(e.size, g.best) {
                Some((full, e.size, fs.file_bytes(e)->Ok_0))
            } else {
                g.best
            },
        }
    }
}

/// What is known after the entries of a walk.
pub open spec fn gathered(
    g: GatheredModel,
    fs: DiskModel,
    prefix: Seq<char>,
    items: Seq<(Seq<char>, DirEntryModel)>,
    max_text: int,
) -> GatheredModel
    decreases items.len(),
{
    if items.len() == 0 {
        g
    } else {
        gather_step(
            gathered(g, fs, prefix, items.drop_last(), max_text),
            fs,
            prefix,
            items.last().0,
            items.last().1,
            max_text,
        )
    }
}

/// The first volume label among some entries.
pub open spec fn label_among(entries: Seq<DirEntryModel>) -> Option<Seq<char>>
    decreases entries.len(),
{
    if entries.len() == 0 {
        None
    } else if entries[0].attr.has(Attr::VOLUME) {
        Some(shown_name(entries[0].name, entries[0].ext))
    } else {
        label_among(entries.skip(1))
    }
}

/// What is known after one more disk. The root directory is looked through for
/// a volume label unless there is one already.
pub open spec fn gathered_disk(
    g: GatheredModel,
    fs: DiskModel,
    prefix: Seq<char>,
    max_text: int,
) -> Result<GatheredModel, FsError> {
    let labelled = if g.volume_label is Some {
        Ok(g)
    } else {
        match fs.root_entries() {
            Err(e) => Err(e),
            Ok(root) => Ok(GatheredModel { volume_label: label_among(root), ..g }),
        }
    };
    match labelled {
        Err(e) => Err(e),
        Ok(start) => {
            let (items, error) = disk_listing(fs);
            match error {
                Some(e) => Err(e),
                None => Ok(gathered(start, fs, prefix, items, max_text)),
            }
        },
    }
}

/// The mark in front of the paths on a partition.
pub open spec fn partition_mark(idx: nat) -> Seq<char> {
    "[part"@ + decimal(idx) + "]"@
}

/// What is known after the partitions from `idx` on. Those that cannot be mounted
/// are passed over.
pub open spec fn gathered_partitions(
    g: GatheredModel,
    opened: OpenedImage,
    count: nat,
    idx: nat,
    max_text: int,
) -> Result<GatheredModel, FsError>
    decreases count - idx,
{
    if idx >= count {
        Ok(g)
    } else {
        match mounted_partition(opened, Some(idx as usize)) {
            Err(_) => gathered_partitions(g, opened, count, idx + 1, max_text),
            Ok(fs) => match gathered_disk(g, fs, partition_mark(idx), max_text) {
                Err(e) => Err(e),
                Ok(next) => gathered_partitions(next, opened, count, idx + 1, max_text),
            },
        }
    }
}

/// What is known of nothing.
pub open spec fn gathered_nothing() -> GatheredModel {
    GatheredModel { listing: Seq::empty(), file_count: 0, volume_label: None, best: None }
}

/// What is known of an image after all its disks.
pub open spec fn gathered_image(opened: OpenedImage, max_text: int) -> Result<
    GatheredModel,
    FsError,
> {
    match opened {
        OpenedImage::Floppy(_) => match mounted_partition(opened, None) {
            Err(e) => Err(e),
            Ok(fs) => gathered_disk(gathered_nothing(), fs, Seq::empty(), max_text),
        },
        OpenedImage::Hdd(h) => gathered_partitions(
            gathered_nothing(),
            opened,
            h.places().len(),
            0,
            max_text,
        ),
    }
}

/// The beginning of a sequence.
pub open spec fn first_of<A>(s: Seq<A>, n: int) -> Seq<A> {
    if s.len() > n {
        s.take(n)
    } else {
        s
    }
}

/// What the model is shown of a text: half as many characters as bytes are allowed,
/// as far as they fit into these bytes.
pub open spec fn shown_text(text: Seq<char>, max_text: int) -> Seq<char> {
    excerpt_of(first_of(text, max_text / 2), max_text)
}

/// What the model is shown of an image.
pub open spec fn snapshot_of(
    opened: OpenedImage,
    total_size: u64,
    max_text: int,
    max_listing: int,
) -> Result<SnapshotModel, FsError> {
    match gathered_image(opened, max_text) {
        Err(e) => Err(e),
        Ok(g) => Ok(
            SnapshotModel {
                format: opened.spec_kind(),
                total_size,
                file_count: g.file_count,
                listing: first_of(g.listing, max_listing),
                volume_label: g.volume_label,
                main_text: match g.best {
                    Some((path, _, bytes)) => if decodable_length(bytes.len()) {
                        Some((path, shown_text(sjis_text(bytes), max_text)))
                    } else {
                        None
                    },
                    None => None,
                },
            },
        ),
    }
}

/// A snapshot shows no more files and no more bytes of text than it may.
pub proof fn snapshots_are_limited(
    opened: OpenedImage,
    total_size: u64,
    max_text: int,
    max_listing: int,
)
    requires
        max_text >= 0,
        max_listing >= 0,
    ensures
        snapshot_of(opened, total_size, max_text, max_listing) matches Ok(s) ==> {
            &&& s.listing.len() <= max_listing
            &&& s.main_text matches Some(t) ==> encode_utf8(t.1).len() <= max_text
        },
{
    if let Ok(g) = gathered_image(opened, max_text) {
        if let Some((_, _, bytes)) = g.best {
            excerpt_is_longest_prefix(first_of(sjis_text(bytes), max_text / 2), max_text);
        }
    }
}

/// Half as many characters as bytes are allowed are all shown where they fit into these
/// bytes.
pub proof fn fitting_characters_are_all_shown(text: Seq<char>, max_text: int)
    requires
        max_text >= 0,
        encode_utf8(first_of(text, max_text / 2)).len() <= max_text,
    ensures
        shown_text(text, max_text) == first_of(text, max_text / 2),
{
    short_text_is_its_excerpt(first_of(text, max_text / 2), max_text);
}

fn count_files<D: DiskImage>(fs: &Filesystem<D>, path: &str, entry: &DirEntry) -> (r: usize)
    requires
        fs.valid(),
    ensures
        r == capped_count(0, files_in(fs@, path@, entry@)),
{
    let ext: String = to_upper(entry.ext.as_str());
    if same_text(ext.as_str(), "LZH") || same_text(ext.as_str(), "LHA") {
        if let Ok(bytes) = fs.read_file(entry) {
            let limits = LzhOpts {
                max_depth: 2,
                max_member_size: 52_428_800,
                max_total_expansion: 524_288_000,
            };
            proof {
                reveal_strlit("");
                assert(""@ =~= Seq::empty());
            }
            if let Ok(docs) = index_lzh_bytes(bytes.as_slice(), "", "", 0, path, 2, &limits) {
                return match docs.len().checked_add(1) {
                    Some(n) => n,
                    None => usize::MAX,
                };
            }
        }
    }
    1
}

impl Gathered {
    /// Takes one more entry in.
    fn take_entry<D: DiskImage>(
        &mut self,
        fs: &Filesystem<D>,
        prefix: &str,
        path: &str,
        entry: &DirEntry,
        max_text_bytes: usize,
    )
        requires
            fs.valid(),
            max_text_bytes <= usize::MAX / 4,
        ensures
            final(self)@ == gather_step(
                old(self)@,
                fs@,
                prefix@,
                path@,
                entry@,
                max_text_bytes as int,
            ),
    {
        if entry.attr.contains(Attr::VOLUME) || entry.attr.contains(Attr::DIRECTORY) {
            return;
        }
        let mut full: String = prefix.to_owned();
        full.append(path);
        let ghost before = listing_models(self.listing@);
        self.listing.push((full.clone(), entry.size as u64));
        assert(listing_models(self.listing@) =~= before.push((full@, entry.size as u64)));
        let more: usize = count_files(fs, path, entry);
        self.file_count = match self.file_count.checked_add(more) {
            Some(n) => n,
            None => usize::MAX,
        };
        let ext: String = to_upper(entry.ext.as_str());
        if (same_text(ext.as_str(), "DOC") || same_text(ext.as_str(), "TXT")) && entry.size > 0
            && entry.size as u64 <= max_text_bytes as u64 * 4 {
            if let Ok(bytes) = fs.read_file(entry) {
                let better: bool = match &self.best {
                    Some(b) => b.1 < entry.size,
                    None => true,
                };
                if better {
                    self.best = Some((full, entry.size, bytes));
                }
            }
        }
    }

    /// Takes one more disk in.
    fn take_disk<D: DiskImage>(
        &mut self,
        fs: &Filesystem<D>,
        prefix: &str,
        max_text_bytes: usize,
    ) -> (r: Result<(), FsError>)
        requires
            fs.valid(),
            max_text_bytes <= usize::MAX / 4,
        ensures
            match r {
                Ok(_) => gathered_disk(old(self)@, fs@, prefix@, max_text_bytes as int) == Ok::<
                    GatheredModel,
                    FsError,
                >(final(self)@),
                Err(e) => gathered_disk(old(self)@, fs@, prefix@, max_text_bytes as int) == Err::<
                    GatheredModel,
                    FsError,
                >(e),
            },
    {
        if self.volume_label.is_none() {
            let root: Vec<DirEntry> = fs.read_root_dir()?;
            self.volume_label = find_label(&root);
        }
        let ghost start = self@;
        let (items, error): (Vec<Visited>, Option<FsError>) = list_all(fs);
        if let Some(e) = error {
            return Err(e);
        }
        let ghost all = visited_models(items@);
        let mut i: usize = 0;
        assert(self@ == gathered(start, fs@, prefix@, all.take(0), max_text_bytes as int));
        while i < items.len()
            invariant
                fs.valid(),
                max_text_bytes <= usize::MAX / 4,
                i <= items@.len(),
                all == visited_models(items@),
                self@ == gathered(
                    start,
                    fs@,
                    prefix@,
                    all.take(i as int),
                    max_text_bytes as int,
                ),
            decreases items@.len() - i,
        {
            assert(all.take(i + 1).drop_last() =~= all.take(i as int));
            assert(all.take(i + 1).last() == (items@[i as int].path@, items@[i as int].entry@));
            self.take_entry(fs, prefix, items[i].path.as_str(), &items[i].entry, max_text_bytes);
            i = i + 1;
        }
        assert(all.take(i as int) =~= all);
        Ok(())
    }
}

fn find_label(entries: &Vec<DirEntry>) -> (r: Option<String>)
    ensures
        opt_text(r) == label_among(entry_models(entries@)),
{
    let ghost all = entry_models(entries@);
    let mut i: usize = 0;
    assert(all.skip(0) =~= all);
    while i < entries.len()
        invariant
            i <= entries@.len(),
            all == entry_models(entries@),
            label_among(all) == label_among(all.skip(i as int)),
        decreases entries@.len() - i,
    {
        assert(all.skip(i as int)[0] == entries@[i as int]@);
        assert(all.skip(i as int).skip(1) =~= all.skip(i + 1));
        if entries[i].attr.contains(Attr::VOLUME) {
            return Some(entries[i].display_name());
        }
        i = i + 1;
    }
    None
}

fn mark_partition(idx: usize) -> (r: String)
    ensures
        r@ == partition_mark(idx as nat),
{
    let mut out: String = "[part".to_owned();
    let n: String = number_text(idx as u64);
    out.append(n.as_str());
    out.append("]");
    out
}

/// Gathers what the model is shown of an image: its format, its files, its volume
/// label and its largest text.
pub fn collect_image_snapshot(
    opened: &OpenedImage,
    total_size: u64,
    max_text_bytes: usize,
    max_listing: usize,
) -> (r: Result<ImageSnapshot, FsError>)
    requires
        max_text_bytes <= usize::MAX / 4,
    ensures
        match r {
            Ok(s) => {
                &&& snapshot_of(*opened, total_size, max_text_bytes as int, max_listing as int)
                    == Ok::<SnapshotModel, FsError>(s@)
                &&& s.listing@.len() <= max_listing
                &&& s@.main_text matches Some(t) ==> encode_utf8(t.1).len() <= max_text_bytes
            },
            Err(e) => snapshot_of(*opened, total_size, max_text_bytes as int, max_listing as int)
                == Err::<SnapshotModel, FsError>(e),
        },
{
    let mut all = Gathered {
        listing: Vec::new(),
        file_count: 0,
        volume_label: None,
        best: None,
    };
    assert(all@.listing =~= Seq::empty());
    match opened {
        OpenedImage::Floppy(_) => {
            let volume = select_volume(opened, None)?;
            let fs = mount(&volume)?;
            proof {
                reveal_strlit("");
                assert(""@ =~= Seq::empty());
            }
            all.take_disk(&fs, "", max_text_bytes)?;
        },
        OpenedImage::Hdd(h) => {
            let count: usize = h.partitions().len();
            let mut idx: usize = 0;
            while idx < count
                invariant
                    max_text_bytes <= usize::MAX / 4,
                    idx <= count,
                    *opened == OpenedImage::Hdd(*h),
                    count == h.places().len(),
                    gathered_image(*opened, max_text_bytes as int) == gathered_partitions(
                        all@,
                        *opened,
                        count as nat,
                        idx as nat,
                        max_text_bytes as int,
                    ),
                decreases count - idx,
            {
                if let Ok(volume) = select_volume(opened, Some(idx)) {
                    if let Ok(fs) = mount(&volume) {
                        let mark: String = mark_partition(idx);
                        all.take_disk(&fs, mark.as_str(), max_text_bytes)?;
                    }
                }
                idx = idx + 1;
            }
        },
    }
    assert(gathered_image(*opened, max_text_bytes as int) == Ok::<GatheredModel, FsError>(all@));
    let mut listing: Vec<(String, u64)> = all.listing;
    if listing.len() > max_listing {
        let ghost whole = listing_models(listing@);
        listing.truncate(max_listing);
        assert(listing_models(listing@) =~= whole.take(max_listing as int));
    }
    proof {
        snapshots_are_limited(
            *opened,
            total_size,
            max_text_bytes as int,
            max_listing as int,
        );
    }
    let main_text: Option<(String, String)> = match all.best {
        Some((path, _, bytes)) => {
            if bytes.len() > usize::MAX / 8 {
                None
            } else {
                let text: String = decode_shift_jis(bytes.as_slice());
                let head: String = first_chars(text.as_str(), max_text_bytes / 2);
                Some((path, make_excerpt(head.as_str(), max_text_bytes)))
            }
        },
        None => None,
    };
    Ok(
        ImageSnapshot {
            format: opened.kind(),
            total_size,
            file_count: all.file_count,
            listing,
            volume_label: all.volume_label,
            main_text,
        },
    )
}

/// The first characters of a text.
pub fn first_chars(s: &str, n: usize) -> (r: String)
    ensures
        r@ == first_of(s@, n as int),
{
    let chars: Vec<char> = to_chars(s);
    if chars.len() > n {
        let head: &[char] = &chars.as_slice()[0..n];
        assert(head@ =~= chars@.take(n as int));
        from_chars(head)
    } else {
        s.to_owned()
    }
}

/// What the model is told to do, in English.
pub const SYSTEM_PROMPT_EN: &'static str = "You are an archivist who analyzes X68000 (Sharp's 1987 personal computer) disk image contents.\n\nYou will be shown a file listing and excerpts from one disk image. Produce a structured summary as JSON.\n\nOutput ONLY a JSON object with these keys (no surrounding markdown):\n{\n  \"summary\": \"Natural-language description in 2-4 sentences. Mention dominant content type (music data / source code / executables / documents / etc.), notable software or topics, and approximate era if guessable.\",\n  \"categories\": [\"array of high-level category labels, e.g. 'music', 'game', 'graphics', 'system', 'document'\"],\n  \"topics\": [\"array of specific subjects, e.g. 'Z-MUSIC', 'X-BASIC', 'FM-OPM', 'sprite']\", 'PIC viewer'],\n  \"highlights\": [\n    {\"path\": \"/exact/path/to/file\", \"note\": \"why this file is interesting\"},\n    ... up to 5 entries\n  ]\n}\n\nBe specific. Use information from the file listing and main text.";

/// What the model is told to do, in Japanese.
pub const SYSTEM_PROMPT_JA: &'static str = "あなたは X68000 (シャープが 1987 年に発売したパーソナルコンピュータ) のディスクイメージの中身を解析するアーキビストです。\n\nディスク 1 個のファイル一覧と主要テキストの抜粋が与えられます。これをもとに構造化された要約を JSON で生成してください。\n\nJSON のキーは以下に固定 (前後にコードブロック等は付けない):\n{\n  \"summary\": \"ディスク全体の概要を 2〜4 文で。主な内容種別 (音楽データ / ソースコード / 実行ファイル / ドキュメント等)、特徴的なソフトウェアやトピック、推測できる年代があれば言及。\",\n  \"categories\": [\"音楽\", \"ゲーム\", \"グラフィック\", \"システム\", \"ドキュメント\" 等の高位カテゴリ。複数可\"],\n  \"topics\": [\"Z-MUSIC\", \"X-BASIC\", \"FM音源\", \"スプライト\" 等の具体的なトピック。複数可\"],\n  \"highlights\": [\n    {\"path\": \"/正確なパス/file\", \"note\": \"そのファイルが注目に値する理由\"},\n    ... 最大 5 件\n  ]\n}\n\n具体的に記述してください。ファイル一覧と主要テキストから読み取れる情報を活用すること。";

/// What the model is told to do about a set of several disks.
pub open spec fn set_note(english: bool, member_count: nat) -> Seq<char> {
    if member_count <= 1 {
        Seq::empty()
    } else if english {
        "\n\n**Important**: This is a "@ + decimal(member_count)
            + "-disk related set (e.g. side A/B/X of one magazine issue). Summarize the SET as a whole, not individual disks. You may prefix highlight paths with the disk name to disambiguate."@
    } else {
        "\n\n**重要**: これは "@ + decimal(member_count)
            + " 枚組の関連ディスクセット (例: 雑誌1号分の A 面 / B 面 / X 面) です。個別の面ごとではなく、セット全体としての概要・特徴・代表的なファイルを記述してください。highlights のパスにはどのディスクのファイルか分かるよう接頭辞を付けてもOK。"@
    }
}

/// What the model is told to do. Any language but English is Japanese.
pub open spec fn system_text(lang: Seq<char>, member_count: nat) -> Seq<char> {
    if lang == "en"@ {
        SYSTEM_PROMPT_EN@ + set_note(true, member_count)
    } else {
        SYSTEM_PROMPT_JA@ + set_note(false, member_count)
    }
}

/// What the model is told to do with a group of so many images.
pub fn system_prompt(lang: &str, member_count: usize) -> (r: String)
    ensures
        r@ == system_text(lang@, member_count as nat),
{
    let english: bool = same_text(lang, "en");
    let mut out: String = if english {
        SYSTEM_PROMPT_EN.to_owned()
    } else {
        SYSTEM_PROMPT_JA.to_owned()
    };
    let ghost head = out@;
    let mut note = String::new();
    assert(note@ =~= Seq::empty());
    if member_count > 1 {
        let n: String = number_text(member_count as u64);
        if english {
            note = "\n\n**Important**: This is a ".to_owned();
            note.append(n.as_str());
            note.append(
                "-disk related set (e.g. side A/B/X of one magazine issue). Summarize the SET as a whole, not individual disks. You may prefix highlight paths with the disk name to disambiguate.",
            );
        } else {
            note = "\n\n**重要**: これは ".to_owned();
            note.append(n.as_str());
            note.append(
                " 枚組の関連ディスクセット (例: 雑誌1号分の A 面 / B 面 / X 面) です。個別の面ごとではなく、セット全体としての概要・特徴・代表的なファイルを記述してください。highlights のパスにはどのディスクのファイルか分かるよう接頭辞を付けてもOK。",
            );
        }
    }
    out.append(note.as_str());
    out
}

/// The heading of a disk in a set.
pub open spec fn block_heading(english: bool, path: Seq<char>, label: Option<Seq<char>>) -> Seq<
    char,
> {
    match label {
        Some(l) => (if english {
            "=== Disk: "@
        } else {
            "=== ディスク: "@
        }) + l + " ("@ + path + ") ===\n"@,
        None => Seq::empty(),
    }
}

/// The facts about a disk.
pub open spec fn block_facts(english: bool, snap: SnapshotModel) -> Seq<char> {
    if english {
        "Image format: "@ + upper_name(snap.format) + "\nTotal bytes: "@ + decimal(
            snap.total_size as nat,
        ) + "\nFile count (after LZH expansion): "@ + decimal(snap.file_count) + "\n"@
    } else {
        "イメージ形式: "@ + upper_name(snap.format) + "\n総バイト数: "@ + decimal(
            snap.total_size as nat,
        ) + "\nファイル数 (LZH展開後): "@ + decimal(snap.file_count) + "\n"@
    }
}

/// The volume label of a disk.
pub open spec fn block_label(english: bool, snap: SnapshotModel) -> Seq<char> {
    match snap.volume_label {
        Some(l) => (if english {
            "Volume label: "@
        } else {
            "ボリュームラベル: "@
        }) + l + "\n"@,
        None => Seq::empty(),
    }
}

/// The heading of the listing of a disk.
pub open spec fn listing_heading(english: bool, n: nat) -> Seq<char> {
    if english {
        "\nFile listing (first "@ + decimal(n) + "):\n"@
    } else {
        "\nファイル一覧 (先頭"@ + decimal(n) + "件):\n"@
    }
}

/// The listing of a disk.
pub open spec fn listing_lines(listing: Seq<(Seq<char>, u64)>) -> Seq<char>
    decreases listing.len(),
{
    if listing.len() == 0 {
        Seq::empty()
    } else {
        listing_lines(listing.drop_last()) + "  "@ + listing.last().0 + " ("@ + decimal(
            listing.last().1 as nat,
        ) + " B)\n"@
    }
}

/// The text of a disk.
pub open spec fn block_text(english: bool, snap: SnapshotModel) -> Seq<char> {
    match snap.main_text {
        Some((path, text)) => if english {
            "\nMain text content from "@ + path + ":\n---\n"@ + text + "\n---\n"@
        } else {
            "\n主要テキストの抜粋 ("@ + path + "):\n---\n"@ + text + "\n---\n"@
        },
        None => Seq::empty(),
    }
}

/// What the model is shown of a disk, in words.
pub open spec fn member_block(
    path: Seq<char>,
    snap: SnapshotModel,
    lang: Seq<char>,
    label: Option<Seq<char>>,
) -> Seq<char> {
    let english = lang == "en"@;
    block_heading(english, path, label) + block_facts(english, snap) + block_label(english, snap)
        + listing_heading(english, snap.listing.len()) + listing_lines(snap.listing) + block_text(
        english,
        snap,
    )
}

fn push_heading(out: &mut String, english: bool, path: &str, label: &Option<String>)
    ensures
        final(out)@ == old(out)@ + block_heading(english, path@, opt_text(*label)),
{
    if let Some(l) = label {
        if english {
            out.append("=== Disk: ");
        } else {
            out.append("=== ディスク: ");
        }
        out.append(l.as_str());
        out.append(" (");
        out.append(path);
        out.append(") ===\n");
    }
    assert(out@ =~= old(out)@ + block_heading(english, path@, opt_text(*label)));
}

fn format_text(kind: ImageKind) -> (r: &'static str)
    ensures
        r@ == upper_name(kind),
{
    match kind {
        ImageKind::Xdf => "XDF",
        ImageKind::Hds => "HDS",
        ImageKind::Hdf => "HDF",
    }
}

fn push_facts(out: &mut String, english: bool, snap: &ImageSnapshot)
    ensures
        final(out)@ == old(out)@ + block_facts(english, snap@),
{
    let size: String = number_text(snap.total_size);
    let count: String = number_text(snap.file_count as u64);
    if english {
        out.append("Image format: ");
        out.append(format_text(snap.format));
        out.append("\nTotal bytes: ");
        out.append(size.as_str());
        out.append("\nFile count (after LZH expansion): ");
        out.append(count.as_str());
        out.append("\n");
    } else {
        out.append("イメージ形式: ");
        out.append(format_text(snap.format));
        out.append("\n総バイト数: ");
        out.append(size.as_str());
        out.append("\nファイル数 (LZH展開後): ");
        out.append(count.as_str());
        out.append("\n");
    }
    assert(out@ =~= old(out)@ + block_facts(english, snap@));
}

fn push_label(out: &mut String, english: bool, snap: &ImageSnapshot)
    ensures
        final(out)@ == old(out)@ + block_label(english, snap@),
{
    if let Some(l) = &snap.volume_label {
        if english {
            out.append("Volume label: ");
        } else {
            out.append("ボリュームラベル: ");
        }
        out.append(l.as_str());
        out.append("\n");
    }
    assert(out@ =~= old(out)@ + block_label(english, snap@));
}

fn push_listing(out: &mut String, english: bool, snap: &ImageSnapshot)
    ensures
        final(out)@ == old(out)@ + listing_heading(english, snap@.listing.len()) + listing_lines(
            snap@.listing,
        ),
{
    let ghost all = listing_models(snap.listing@);
    let n: String = number_text(snap.listing.len() as u64);
    if english {
        out.append("\nFile listing (first ");
        out.append(n.as_str());
        out.append("):\n");
    } else {
        out.append("\nファイル一覧 (先頭");
        out.append(n.as_str());
        out.append("件):\n");
    }
    let ghost head = old(out)@ + listing_heading(english, snap@.listing.len());
    assert(out@ =~= head);
    let mut i: usize = 0;
    assert(out@ =~= head + listing_lines(all.take(0)));
    while i < snap.listing.len()
        invariant
            i <= snap.listing@.len(),
            all == listing_models(snap.listing@),
            out@ == head + listing_lines(all.take(i as int)),
        decreases snap.listing@.len() - i,
    {
        assert(all.take(i + 1).drop_last() =~= all.take(i as int));
        assert(all.take(i + 1).last() == (snap.listing@[i as int].0@, snap.listing@[i as int].1));
        let size: String = number_text(snap.listing[i].1);
        out.append("  ");
        out.append(snap.listing[i].0.as_str());
        out.append(" (");
        out.append(size.as_str());
        out.append(" B)\n");
        assert(out@ =~= head + listing_lines(all.take(i + 1)));
        i = i + 1;
    }
    assert(all.take(i as int) =~= all);
}

fn push_text(out: &mut String, english: bool, snap: &ImageSnapshot)
    ensures
        final(out)@ == old(out)@ + block_text(english, snap@),
{
    if let Some(t) = &snap.main_text {
        if english {
            out.append("\nMain text content from ");
            out.append(t.0.as_str());
            out.append(":\n---\n");
        } else {
            out.append("\n主要テキストの抜粋 (");
            out.append(t.0.as_str());
            out.append("):\n---\n");
        }
        out.append(t.1.as_str());
        out.append("\n---\n");
    }
    assert(out@ =~= old(out)@ + block_text(english, snap@));
}

/// Puts what the model is shown of a disk into words.
pub fn render_member_block(path: &str, snap: &ImageSnapshot, lang: &str, label: &Option<String>)
    -> (r: String)
    ensures
        r@ == member_block(path@, snap@, lang@, opt_text(*label)),
{
    let english: bool = same_text(lang, "en");
    let mut out = String::new();
    push_heading(&mut out, english, path, label);
    assert(out@ =~= block_heading(english, path@, opt_text(*label)));
    push_facts(&mut out, english, snap);
    push_label(&mut out, english, snap);
    push_listing(&mut out, english, snap);
    push_text(&mut out, english, snap);
    out
}

/// Snapshots as mathematical values.
pub open spec fn snapshot_models(v: Seq<ImageSnapshot>) -> Seq<SnapshotModel> {
    Seq::new(v.len(), |i: int| v[i]@)
}

/// The heading of a set of disks.
pub open spec fn set_heading(english: bool, n: nat) -> Seq<char> {
    if english {
        "This is a multi-disk set ("@ + decimal(n) + " disks total).\n\n"@
    } else {
        "これは "@ + decimal(n) + " 枚組のディスクセットです。各ディスクの内容を以下に列挙します。\n\n"@
    }
}

/// The first `n` disks of a set, numbered.
pub open spec fn set_blocks(
    paths: Seq<Seq<char>>,
    snaps: Seq<SnapshotModel>,
    lang: Seq<char>,
    n: int,
) -> Seq<char>
    decreases n,
{
    if n <= 0 {
        Seq::empty()
    } else {
        set_blocks(paths, snaps, lang, n - 1) + member_block(
            paths[n - 1],
            snaps[n - 1],
            lang,
            Some(decimal(n as nat)),
        ) + "\n"@
    }
}

/// What the model is shown of a group.
pub open spec fn group_prompt(paths: Seq<Seq<char>>, snaps: Seq<SnapshotModel>, lang: Seq<char>)
    -> Seq<char> {
    if snaps.len() == 1 {
        member_block(paths[0], snaps[0], lang, None)
    } else {
        set_heading(lang == "en"@, snaps.len()) + set_blocks(
            paths,
            snaps,
            lang,
            snaps.len() as int,
        )
    }
}

/// Puts what the model is shown of a group into words.
pub fn build_group_prompt(paths: &Vec<String>, snapshots: &Vec<ImageSnapshot>, lang: &str) -> (r:
    String)
    requires
        paths@.len() == snapshots@.len(),
    ensures
        r@ == group_prompt(texts(paths@), snapshot_models(snapshots@), lang@),
{
    let ghost ps = texts(paths@);
    let ghost ss = snapshot_models(snapshots@);
    let none: Option<String> = None;
    if snapshots.len() == 1 {
        return render_member_block(paths[0].as_str(), &snapshots[0], lang, &none);
    }
    let english: bool = same_text(lang, "en");
    let total: String = number_text(snapshots.len() as u64);
    let mut out: String = if english {
        "This is a multi-disk set (".to_owned()
    } else {
        "これは ".to_owned()
    };
    out.append(total.as_str());
    if english {
        out.append(" disks total).\n\n");
    } else {
        out.append(" 枚組のディスクセットです。各ディスクの内容を以下に列挙します。\n\n");
    }
    let ghost head = set_heading(english, ss.len());
    assert(out@ == head);
    let mut i: usize = 0;
    assert(out@ =~= head + set_blocks(ps, ss, lang@, 0));
    while i < snapshots.len()
        invariant
            i <= snapshots@.len(),
            paths@.len() == snapshots@.len(),
            ps == texts(paths@),
            ss == snapshot_models(snapshots@),
            out@ == head + set_blocks(ps, ss, lang@, i as int),
        decreases snapshots@.len() - i,
    {
        let number: String = number_text(i as u64 + 1);
        let label: Option<String> = Some(number);
        let block: String = render_member_block(paths[i].as_str(), &snapshots[i], lang, &label);
        assert(ps[i as int] == paths@[i as int]@ && ss[i as int] == snapshots@[i as int]@);
        out.append(block.as_str());
        out.append("\n");
        assert(out@ =~= head + set_blocks(ps, ss, lang@, i + 1));
        i = i + 1;
    }
    out
}

/// The last place, before `n`, where a part stands in a text; -1 where there is
/// none.
pub open spec fn last_place(s: Seq<char>, part: Seq<char>, n: int) -> int
    decreases n,
{
    if n <= 0 {
        -1
    } else if text_at(s, n - 1, part) {
        n - 1
    } else {
        last_place(s, part, n - 1)
    }
}

/// What stands before the last mark of a code block; all of it where there is none.
pub open spec fn before_last_fence(s: Seq<char>) -> Seq<char> {
    let k = last_place(s, "```"@, s.len() as int);
    if k < 0 {
        s
    } else {
        s.take(k)
    }
}

/// What stands after the first line; all of it where there is but one line.
pub open spec fn after_first_line(s: Seq<char>) -> Seq<char> {
    let k = find_char(s, '\n');
    if k < s.len() {
        s.skip(k + 1)
    } else {
        s
    }
}

/// The answer of the model without white space around it and, where it is in
/// a code block, without the marks of that.
pub open spec fn cleaned_answer(text: Seq<char>) -> Seq<char> {
    let t = trimmed(text);
    if text_at(t, 0, "```"@) {
        trimmed(before_last_fence(after_first_line(t)))
    } else {
        t
    }
}

/// Takes the white space around an answer and the marks of a code block away.
pub fn clean_answer(text: &str) -> (r: String)
    ensures
        r@ == cleaned_answer(text@),
{
    let bare: String = trim(text);
    let chars: Vec<char> = to_chars(bare.as_str());
    let fence: Vec<char> = to_chars("```");
    proof {
        reveal_strlit("```");
    }
    assert(fence@.len() == 3);
    let fenced: bool = chars.len() >= fence.len() && same_chars(
        &chars.as_slice()[0..fence.len()],
        fence.as_slice(),
    );
    assert(fenced == text_at(chars@, 0, "```"@));
    if !fenced {
        return bare;
    }
    let line_end: usize = find_from(chars.as_slice(), 0, '\n');
    assert(chars@.skip(0) =~= chars@);
    let from: usize = if line_end < chars.len() {
        line_end + 1
    } else {
        0
    };
    let body: &[char] = &chars.as_slice()[from..chars.len()];
    assert(body@ =~= after_first_line(chars@));
    assert(cleaned_answer(text@) == trimmed(before_last_fence(body@)));
    let mut n: usize = body.len();
    if n < fence.len() {
        proof {
            no_room(body@, "```"@, body@.len() as int);
        }
        return from_chars(trim_chars(body));
    }
    n = n - fence.len() + 1;
    proof {
        only_with_room(body@, "```"@, body@.len() as int, n as int);
    }
    while n > 0
        invariant
            fence@ == "```"@,
            fence@.len() == 3,
            n + 2 <= body@.len(),
            cleaned_answer(text@) == trimmed(before_last_fence(body@)),
            last_place(body@, "```"@, body@.len() as int) == last_place(body@, "```"@, n as int),
        decreases n,
    {
        assert(n + 2 <= body.len());
        let here: &[char] = &body[n - 1..n + 2];
        if same_chars(here, fence.as_slice()) {
            let head: &[char] = &body[0..n - 1];
            assert(text_at(body@, n - 1, "```"@));
            assert(head@ =~= body@.take(n - 1));
            return from_chars(trim_chars(head));
        }
        assert(!text_at(body@, n - 1, "```"@));
        n = n - 1;
    }
    from_chars(trim_chars(body))
}

proof fn no_room(s: Seq<char>, part: Seq<char>, n: int)
    requires
        s.len() < part.len(),
    ensures
        last_place(s, part, n) == -1,
    decreases n,
{
    if n > 0 {
        no_room(s, part, n - 1);
    }
}

proof fn only_with_room(s: Seq<char>, part: Seq<char>, n: int, m: int)
    requires
        0 <= m <= n,
        m + part.len() >= s.len() + 1,
    ensures
        last_place(s, part, n) == last_place(s, part, m),
    decreases n,
{
    if m < n {
        only_with_room(s, part, n - 1, m);
    }
}

/// The part of an answer from the first opening brace to the last closing one. An
/// answer in which they stand the other way round has none.
pub open spec fn braces_of(s: Seq<char>) -> Option<Seq<char>> {
    let open = find_char(s, '{');
    let close = rfind_char(s, '}');
    let from = if open < s.len() {
        open
    } else {
        0
    };
    let to = if close >= 0 {
        close + 1
    } else {
        s.len() as int
    };
    if from <= to {
        Some(s.subrange(from, to))
    } else {
        None
    }
}

/// Takes out of an answer what looks like a structured value, for answers that have
/// words around it.
pub fn salvage_json(cleaned: &str) -> (r: Option<String>)
    ensures
        opt_text(r) == braces_of(cleaned@),
{
    let chars: Vec<char> = to_chars(cleaned);
    let open: usize = find_from(chars.as_slice(), 0, '{');
    assert(chars@.skip(0) =~= chars@);
    let from: usize = if open < chars.len() {
        open
    } else {
        0
    };
    let to: usize = match find_last(chars.as_slice(), '}') {
        Some(k) => {
            assert(k < chars.len());
            k + 1
        },
        None => chars.len(),
    };
    if from > to {
        return None;
    }
    let part: &[char] = &chars.as_slice()[from..to];
    Some(from_chars(part))
}

/// What the model answered.
#[derive(Debug)]
pub struct ParsedSummary {
    pub summary: String,
    pub categories: Vec<String>,
    pub topics: Vec<String>,
    pub highlights: Vec<HighlightEntry>,
}

/// Why an answer cannot be used.
#[derive(Clone, Copy, Debug, PartialEq, Eq, Structural)]
pub enum AnswerError {
    /// It is no structured value of the right form.
    NotJson,
    /// Its summary is empty.
    EmptySummary,
}

/// Takes an answer, which was read as it stands or, failing that, from what was
/// salvaged of it.
pub fn parse_summary_json(direct: Option<ParsedSummary>, salvaged: Option<ParsedSummary>) -> (r:
    Result<ParsedSummary, AnswerError>)
    ensures
        ({
            let parsed = if direct is Some {
                direct
            } else {
                salvaged
            };
            match parsed {
                None => r == Err::<ParsedSummary, AnswerError>(AnswerError::NotJson),
                Some(p) => if trimmed(p.summary@).len() == 0 {
                    r == Err::<ParsedSummary, AnswerError>(AnswerError::EmptySummary)
                } else {
                    r == Ok::<ParsedSummary, AnswerError>(p)
                },
            }
        }),
{
    let parsed: Option<ParsedSummary> = match direct {
        Some(p) => Some(p),
        None => salvaged,
    };
    match parsed {
        Some(p) => {
            let words: String = trim(p.summary.as_str());
            if words.as_str().is_empty() {
                Err(AnswerError::EmptySummary)
            } else {
                Ok(p)
            }
        },
        None => Err(AnswerError::NotJson),
    }
}

/// What is done about a group.
#[derive(Clone, Copy, Debug, PartialEq, Eq, Structural)]
pub enum GroupAction {
    /// It has a summary already.
    Skip,
    /// Too much has been spent: it and all after it are left out.
    Stop,
    /// A summary is made.
    Summarize,
}

/// Decides what is done about a group, from whether it has a summary under its own
/// name, whether any of its images is in a summary, and whether the limit of cost
/// is reached. A summary that is to be made anew does not count.
pub fn group_action(force: bool, has_summary: bool, member_covered: &Vec<bool>, over_budget: bool)
    -> (r: GroupAction)
    ensures
        r == (if !force && (has_summary || exists|i: int|
            0 <= i < member_covered@.len() && #[trigger] member_covered@[i]) {
            GroupAction::Skip
        } else if over_budget {
            GroupAction::Stop
        } else {
            GroupAction::Summarize
        }),
        !force && member_covered@.contains(true) ==> r == GroupAction::Skip,
{
    if !force {
        if has_summary {
            return GroupAction::Skip;
        }
        let mut i: usize = 0;
        while i < member_covered.len()
            invariant
                i <= member_covered@.len(),
                !force,
                forall|k: int| 0 <= k < i ==> !#[trigger] member_covered@[k],
            decreases member_covered@.len() - i,
        {
            if member_covered[i] {
                return GroupAction::Skip;
            }
            i = i + 1;
        }
    }
    if over_budget {
        GroupAction::Stop
    } else {
        GroupAction::Summarize
    }
}

/// What became of a group.
#[derive(Clone, Copy, Debug, PartialEq, Eq, Structural)]
pub enum GroupOutcome {
    Skipped,
    /// A summary was made, with so many tokens if the model was asked.
    Processed(Option<UsageInfo>),
    Failed,
}

/// The tokens that were read and written for a group.
pub open spec fn tokens_for(outcome: GroupOutcome) -> (nat, nat) {
    match outcome {
        GroupOutcome::Processed(Some(u)) => (u.input_tokens as nat, u.output_tokens as nat),
        _ => (0, 0),
    }
}

/// Whether counts are those from before and one more group.
pub open spec fn counts_group(
    before: SummarizeStats,
    outcome: GroupOutcome,
    now: SummarizeStats,
) -> bool {
    &&& now.processed == before.processed + (if outcome is Processed {
        1int
    } else {
        0int
    })
    &&& now.skipped_existing == before.skipped_existing + (if outcome is Skipped {
        1int
    } else {
        0int
    })
    &&& now.failed == before.failed + (if outcome is Failed {
        1int
    } else {
        0int
    })
    &&& now.total_input_tokens == before.total_input_tokens + tokens_for(outcome).0
    &&& now.total_output_tokens == before.total_output_tokens + tokens_for(outcome).1
}

/// The tokens that were read and written for all groups.
pub open spec fn tokens_in(outcomes: Seq<GroupOutcome>) -> (nat, nat)
    decreases outcomes.len(),
{
    if outcomes.len() == 0 {
        (0, 0)
    } else {
        let before = tokens_in(outcomes.drop_last());
        let last = tokens_for(outcomes.last());
        (before.0 + last.0, before.1 + last.1)
    }
}

/// The counts of a whole run add up: each group was processed, skipped or failed,
/// and the tokens are those of all groups together.
pub proof fn summary_counts_add_up(stats: Seq<SummarizeStats>, outcomes: Seq<GroupOutcome>)
    requires
        stats.len() == outcomes.len() + 1,
        stats[0] == (SummarizeStats {
            processed: 0,
            skipped_existing: 0,
            failed: 0,
            total_input_tokens: 0,
            total_output_tokens: 0,
        }),
        forall|i: int|
            0 <= i < outcomes.len() ==> counts_group(
                stats[i],
                #[trigger] outcomes[i],
                stats[i + 1],
            ),
    ensures
        stats.last().processed + stats.last().skipped_existing + stats.last().failed
            == outcomes.len(),
        stats.last().total_input_tokens == tokens_in(outcomes).0,
        stats.last().total_output_tokens == tokens_in(outcomes).1,
    decreases outcomes.len(),
{
    if outcomes.len() > 0 {
        let n = outcomes.len() - 1;
        let before = stats.drop_last();
        let head = outcomes.drop_last();
        assert forall|i: int| 0 <= i < head.len() implies counts_group(
            before[i],
            #[trigger] head[i],
            before[i + 1],
        ) by {
            assert(head[i] == outcomes[i]);
        }
        summary_counts_add_up(before, head);
        assert(counts_group(stats[n], outcomes[n], stats[n + 1]));
    }
}

impl SummarizeStats {
    /// Counts a group.
    pub fn record(&mut self, outcome: GroupOutcome)
        requires
            old(self).processed < usize::MAX,
            old(self).skipped_existing < usize::MAX,
            old(self).failed < usize::MAX,
            outcome matches GroupOutcome::Processed(Some(u)) ==> old(self).total_input_tokens
                + u.input_tokens <= u64::MAX,
            outcome matches GroupOutcome::Processed(Some(u)) ==> old(self).total_output_tokens
                + u.output_tokens <= u64::MAX,
        ensures
            counts_group(*old(self), outcome, *final(self)),
    {
        match outcome {
            GroupOutcome::Skipped => {
                self.skipped_existing = self.skipped_existing + 1;
            },
            GroupOutcome::Failed => {
                self.failed = self.failed + 1;
            },
            GroupOutcome::Processed(usage) => {
                self.processed = self.processed + 1;
                if let Some(u) = usage {
                    self.total_input_tokens = self.total_input_tokens + u.input_tokens;
                    self.total_output_tokens = self.total_output_tokens + u.output_tokens;
                }
            },
        }
    }
}

/// The name of a format, in small letters.
pub open spec fn lower_name(kind: ImageKind) -> Seq<char> {
    match kind {
        ImageKind::Xdf => "xdf"@,
        ImageKind::Hds => "hds"@,
        ImageKind::Hdf => "hdf"@,
    }
}

fn lower_format(kind: ImageKind) -> (r: String)
    ensures
        r@ == lower_name(kind),
{
    match kind {
        ImageKind::Xdf => "xdf".to_owned(),
        ImageKind::Hds => "hds".to_owned(),
        ImageKind::Hdf => "hdf".to_owned(),
    }
}

/// Whether the entry of an image in a summary is the one that belongs there.
pub open spec fn is_info_of(info: MemberInfo, image: ImageModel, snap: SnapshotModel) -> bool {
    &&& info.image_id@ == image.image_id
    &&& info.image_path@ == image.path
    &&& info.format@ == lower_name(snap.format)
    &&& info.size == snap.total_size
    &&& info.file_count == snap.file_count
}

/// Whether the entries of images in a summary are those that belong there.
pub open spec fn are_infos_of(
    infos: Seq<MemberInfo>,
    images: Seq<ImageModel>,
    snaps: Seq<SnapshotModel>,
) -> bool {
    &&& infos.len() == images.len()
    &&& forall|i: int|
        0 <= i < infos.len() ==> is_info_of(#[trigger] infos[i], images[i], snaps[i])
}

/// What the model is asked about a group, and what goes into its summary whatever
/// it answers.
pub struct GroupRequest {
    /// What the model is told to do.
    pub system: String,
    /// What it is shown.
    pub prompt: String,
    pub members: Vec<MemberInfo>,
}

fn paths_of_images(images: &Vec<ImageFile>) -> (r: Vec<String>)
    ensures
        texts(r@) == paths_of(image_models(images@)),
{
    let mut out: Vec<String> = Vec::new();
    let mut i: usize = 0;
    while i < images.len()
        invariant
            i <= images@.len(),
            texts(out@) =~= paths_of(image_models(images@)).take(i as int),
        decreases images@.len() - i,
    {
        let ghost before = texts(out@);
        let path: String = images[i].path.clone();
        out.push(path);
        assert(texts(out@) =~= before.push(path@));
        i = i + 1;
    }
    assert(texts(out@) =~= paths_of(image_models(images@)));
    out
}

/// Puts together what the model is asked about a group.
pub fn prepare_group(images: &Vec<ImageFile>, snapshots: &Vec<ImageSnapshot>, lang: &str) -> (r:
    GroupRequest)
    requires
        images@.len() == snapshots@.len(),
    ensures
        r.system@ == system_text(lang@, images@.len()),
        r.prompt@ == group_prompt(
            paths_of(image_models(images@)),
            snapshot_models(snapshots@),
            lang@,
        ),
        are_infos_of(r.members@, image_models(images@), snapshot_models(snapshots@)),
{
    let paths: Vec<String> = paths_of_images(images);
    assert(texts(paths@).len() == images@.len());
    let prompt: String = build_group_prompt(&paths, snapshots, lang);
    let mut members: Vec<MemberInfo> = Vec::new();
    let mut i: usize = 0;
    while i < images.len()
        invariant
            i <= images@.len(),
            images@.len() == snapshots@.len(),
            members@.len() == i,
            forall|k: int|
                0 <= k < i ==> is_info_of(
                    #[trigger] members@[k],
                    image_models(images@)[k],
                    snapshot_models(snapshots@)[k],
                ),
        decreases images@.len() - i,
    {
        members.push(
            MemberInfo {
                image_id: images[i].image_id.clone(),
                image_path: images[i].path.clone(),
                format: lower_format(snapshots[i].format),
                size: snapshots[i].total_size,
                file_count: snapshots[i].file_count,
            },
        );
        i = i + 1;
    }
    GroupRequest { system: system_prompt(lang, images.len()), prompt, members }
}

/// The file names of images.
pub open spec fn names_of(images: Seq<ImageModel>) -> Seq<Seq<char>> {
    Seq::new(images.len(), |i: int| text_or_empty(file_name_of(images[i].path)))
}

/// The title under which it is shown what the model would be asked.
pub open spec fn dry_title(id: Seq<char>, images: Seq<ImageModel>) -> Seq<char> {
    if images.len() == 1 {
        "DRY RUN: "@ + images[0].path + " (solo)"@
    } else {
        "DRY RUN: "@ + id + " (group of "@ + decimal(images.len()) + ": "@ + joined_texts(
            names_of(images),
            ", "@,
        ) + ")"@
    }
}

/// The title under which it is shown what the model would be asked about a group.
pub fn dry_run_title(id: &str, images: &Vec<ImageFile>) -> (r: String)
    ensures
        r@ == dry_title(id@, image_models(images@)),
{
    let mut out: String = "DRY RUN: ".to_owned();
    if images.len() == 1 {
        out.append(images[0].path.as_str());
        out.append(" (solo)");
        return out;
    }
    let mut names: Vec<String> = Vec::new();
    let mut i: usize = 0;
    while i < images.len()
        invariant
            i <= images@.len(),
            texts(names@) =~= names_of(image_models(images@)).take(i as int),
        decreases images@.len() - i,
    {
        let ghost before = texts(names@);
        let name: String = match file_name(images[i].path.as_str()) {
            Some(n) => n,
            None => String::new(),
        };
        assert(name@ =~= text_or_empty(file_name_of(images@[i as int].path@)));
        names.push(name);
        assert(texts(names@) =~= before.push(name@));
        i = i + 1;
    }
    assert(texts(names@) =~= names_of(image_models(images@)));
    let n: String = number_text(images.len() as u64);
    let list: String = join(names.as_slice(), ", ");
    out.append(id);
    out.append(" (group of ");
    out.append(n.as_str());
    out.append(": ");
    out.append(list.as_str());
    out.append(")");
    out
}

/// What stands in the place of an answer where the model was not asked.
pub fn dry_run_answer() -> (r: ParsedSummary)
    ensures
        r.summary@ == "[dry-run]"@,
        r.categories@.len() == 0,
        r.topics@.len() == 0,
        r.highlights@.len() == 0,
{
    ParsedSummary {
        summary: "[dry-run]".to_owned(),
        categories: Vec::new(),
        topics: Vec::new(),
        highlights: Vec::new(),
    }
}

/// Makes the summary of a group from the answer of the model. The first image
/// stands for the group.
pub fn finish_summary(
    group: &ResolvedGroup,
    members: Vec<MemberInfo>,
    answer: ParsedSummary,
    usage: Option<UsageInfo>,
    summarized_at: &str,
    opts: &SummarizeOpts,
) -> (r: ImageSummary)
    requires
        members@.len() > 0,
    ensures
        r.image_id@ == group@.id,
        r.origin@ == group@.origin,
        r.image_path@ == members@[0].image_path@,
        r.format@ == members@[0].format@,
        r.size == members@[0].size,
        r.file_count == members@[0].file_count,
        r.members@ == members@,
        r.summarized_at@ == summarized_at@,
        r.model@ == opts.model@,
        r.lang@ == opts.lang@,
        r.summary@ == answer.summary@,
        r.categories@ == answer.categories@,
        r.topics@ == answer.topics@,
        r.highlights@ == answer.highlights@,
        r.usage == usage,
{
    ImageSummary {
        image_id: group.id.clone(),
        image_path: members[0].image_path.clone(),
        format: members[0].format.clone(),
        size: members[0].size,
        file_count: members[0].file_count,
        summarized_at: summarized_at.to_owned(),
        model: opts.model.clone(),
        lang: opts.lang.clone(),
        summary: answer.summary,
        categories: answer.categories,
        topics: answer.topics,
        highlights: answer.highlights,
        usage,
        members,
        origin: group.origin.clone(),
    }
}

/// A summary that was made for a group is found again by the name of each of its
/// images, wherever it stands among the summaries.
pub proof fn summaries_are_found_again(
    s: ImageSummary,
    images: Seq<ImageModel>,
    snaps: Seq<SnapshotModel>,
    i: int,
    direct: Option<ImageSummary>,
    all: Seq<ImageSummary>,
    at: int,
)
    requires
        are_infos_of(s.members@, images, snaps),
        0 <= i < images.len(),
        all.len() <= usize::MAX,
        0 <= at < all.len(),
        all[at] == s,
    ensures
        summary_for(direct, all, images[i].image_id) != FoundSummary::Missing,
{
    if summary_for(direct, all, images[i].image_id) == FoundSummary::Missing {
        missing_means_unknown(direct, all, images[i].image_id);
        assert(is_info_of(s.members@[i], images[i], snaps[i]));
        assert(has_member(all[at], images[i].image_id));
    }
}

} // verus!
