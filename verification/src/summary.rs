//! Summaries of images and of groups of images, as they are kept.
//!
//! A summary is kept in `<index>/summaries/<group>.json`. Old ones have no list of
//! members; they stand for the single image whose name they bear.

use crate::path::{name_extension, name_stem, extension_of_name, push_name, sort_texts,
    sorted_texts, stem_of_name, with_name, TextOrder};
use crate::text::{same_text, texts, to_chars};
use vstd::prelude::*;
use vstd::string::StringExecFns;

verus! {

/// A summary of a group of images.
#[derive(Debug)]
pub struct ImageSummary {
    /// The name of the group.
    pub image_id: String,
    /// The path of the first image.
    pub image_path: String,
    /// The format of the first image: `xdf`, `hds` or `hdf`.
    pub format: String,
    /// The size of the first image in bytes.
    pub size: u64,
    /// The number of files in the first image, members of archives included.
    pub file_count: usize,
    /// When the summary was made.
    pub summarized_at: String,
    /// The language model that made it.
    pub model: String,
    /// The language: `ja` or `en`.
    pub lang: String,
    pub summary: String,
    pub categories: Vec<String>,
    pub topics: Vec<String>,
    /// Files worth noting.
    pub highlights: Vec<HighlightEntry>,
    /// How many tokens it took.
    pub usage: Option<UsageInfo>,
    /// The images of the group; none in old summaries.
    pub members: Vec<MemberInfo>,
    /// What put the group together.
    pub origin: String,
}

/// An image of a group.
#[derive(Debug)]
pub struct MemberInfo {
    pub image_id: String,
    pub image_path: String,
    pub format: String,
    pub size: u64,
    pub file_count: usize,
}

/// A file worth noting.
#[derive(Debug)]
pub struct HighlightEntry {
    pub path: String,
    pub note: String,
}

/// How many tokens a summary took.
#[derive(Clone, Copy, Debug, PartialEq, Eq, Structural)]
pub struct UsageInfo {
    pub input_tokens: u64,
    pub output_tokens: u64,
}

/// A path followed from another; one that starts at the root replaces it.
pub open spec fn followed(base: Seq<char>, path: Seq<char>) -> Seq<char> {
    if path.len() > 0 && path[0] == '/' {
        path
    } else {
        with_name(base, path)
    }
}

fn follow(base: &str, path: &str) -> (r: String)
    ensures
        r@ == followed(base@, path@),
{
    let chars: Vec<char> = to_chars(path);
    if chars.len() > 0 && chars[0] == '/' {
        return path.to_owned();
    }
    let mut out: String = base.to_owned();
    push_name(&mut out, path);
    out
}

/// The directory with the summaries of an index.
pub fn summaries_dir(index_dir: &str) -> (r: String)
    ensures
        r@ == with_name(index_dir@, "summaries"@),
{
    let mut out: String = index_dir.to_owned();
    push_name(&mut out, "summaries");
    out
}

/// The file with the summary of an image or a group.
pub fn summary_path(index_dir: &str, image_id: &str) -> (r: String)
    ensures
        r@ == followed(with_name(index_dir@, "summaries"@), image_id@ + ".json"@),
{
    let dir: String = summaries_dir(index_dir);
    let mut name: String = image_id.to_owned();
    name.append(".json");
    follow(dir.as_str(), name.as_str())
}

/// Whether a file name is that of a summary.
pub open spec fn is_summary_file(name: Seq<char>) -> bool {
    name_extension(name) == Some("json"@)
}

/// The names of the groups whose summaries have the given file names.
pub open spec fn summarized(files: Seq<Seq<char>>) -> Seq<Seq<char>>
    decreases files.len(),
{
    if files.len() == 0 {
        Seq::empty()
    } else {
        let before = summarized(files.drop_last());
        if is_summary_file(files.last()) {
            before.push(name_stem(files.last()))
        } else {
            before
        }
    }
}

/// The names of the groups that have a summary, in order, from the names of the
/// files in the directory with the summaries.
pub fn list_summarized_ids(files: &Vec<String>) -> (r: Vec<String>)
    ensures
        texts(r@) == sorted_texts(summarized(texts(files@)), TextOrder::Plain),
{
    let ghost all = texts(files@);
    let mut ids: Vec<String> = Vec::new();
    let mut i: usize = 0;
    assert(texts(ids@) =~= summarized(all.take(0)));
    while i < files.len()
        invariant
            i <= files@.len(),
            all == texts(files@),
            texts(ids@) == summarized(all.take(i as int)),
        decreases files@.len() - i,
    {
        let ghost before = texts(ids@);
        assert(all.take(i + 1).drop_last() =~= all.take(i as int));
        assert(all.take(i + 1).last() == files@[i as int]@);
        let kept: bool = match extension_of_name(files[i].as_str()) {
            Some(ext) => same_text(ext.as_str(), "json"),
            None => false,
        };
        if kept {
            let id: String = stem_of_name(files[i].as_str());
            ids.push(id);
            assert(texts(ids@) =~= before.push(id@));
        }
        i = i + 1;
    }
    assert(all.take(i as int) =~= all);
    sort_texts(ids, TextOrder::Plain)
}

/// Whether an image is a member of a summary.
pub open spec fn has_member(s: ImageSummary, image_id: Seq<char>) -> bool {
    exists|i: int| 0 <= i < s.members@.len() && (#[trigger] s.members@[i]).image_id@ == image_id
}

/// Whether the summary that bears the name of an image is the one for it.
pub open spec fn is_direct(s: ImageSummary, image_id: Seq<char>) -> bool {
    if s.members@.len() == 0 {
        s.image_id@ == image_id
    } else {
        has_member(s, image_id)
    }
}

/// The first summary from `i` on that has an image as a member.
pub open spec fn scanned_from(all: Seq<ImageSummary>, i: int, image_id: Seq<char>) -> Option<usize>
    decreases all.len() - i,
{
    if !(0 <= i < all.len()) {
        None
    } else if has_member(all[i], image_id) {
        Some(i as usize)
    } else {
        scanned_from(all, i + 1, image_id)
    }
}

/// Where the summary of an image is.
#[derive(Clone, Copy, Debug, PartialEq, Eq, Structural)]
pub enum FoundSummary {
    /// It bears the name of the image.
    Direct,
    /// It is the one with this number among all.
    Scanned(usize),
    Missing,
}

/// Where the summary of an image is, given the one that bears its name and all
/// that there are.
pub open spec fn summary_for(
    direct: Option<ImageSummary>,
    all: Seq<ImageSummary>,
    image_id: Seq<char>,
) -> FoundSummary {
    if direct is Some && is_direct(direct->0, image_id) {
        FoundSummary::Direct
    } else {
        match scanned_from(all, 0, image_id) {
            Some(i) => FoundSummary::Scanned(i),
            None => FoundSummary::Missing,
        }
    }
}

fn lists_member(s: &ImageSummary, image_id: &str) -> (r: bool)
    ensures
        r == has_member(*s, image_id@),
{
    let mut i: usize = 0;
    while i < s.members.len()
        invariant
            i <= s.members@.len(),
            forall|k: int| 0 <= k < i ==> (#[trigger] s.members@[k]).image_id@ != image_id@,
        decreases s.members@.len() - i,
    {
        if same_text(s.members[i].image_id.as_str(), image_id) {
            return true;
        }
        i = i + 1;
    }
    false
}

/// Finds the summary of an image, alone or as a member of a group. `direct` is the
/// summary that bears its name, `all` are those that can be read.
pub fn find_summary_by_image_id(
    direct: &Option<ImageSummary>,
    all: &Vec<ImageSummary>,
    image_id: &str,
) -> (r: FoundSummary)
    ensures
        r == summary_for(*direct, all@, image_id@),
{
    if let Some(s) = direct {
        let right: bool = if s.members.len() == 0 {
            same_text(s.image_id.as_str(), image_id)
        } else {
            lists_member(s, image_id)
        };
        if right {
            return FoundSummary::Direct;
        }
    }
    let mut i: usize = 0;
    while i < all.len()
        invariant
            i <= all@.len(),
            direct is Some ==> !is_direct(direct->0, image_id@),
            scanned_from(all@, 0, image_id@) == scanned_from(all@, i as int, image_id@),
        decreases all@.len() - i,
    {
        if lists_member(&all[i], image_id) {
            return FoundSummary::Scanned(i);
        }
        i = i + 1;
    }
    FoundSummary::Missing
}

/// A summary is missing only where none that there is speaks of the image.
pub proof fn missing_means_unknown(
    direct: Option<ImageSummary>,
    all: Seq<ImageSummary>,
    image_id: Seq<char>,
)
    requires
        all.len() <= usize::MAX,
        summary_for(direct, all, image_id) == FoundSummary::Missing,
    ensures
        direct is Some ==> !is_direct(direct->0, image_id),
        forall|i: int| 0 <= i < all.len() ==> !has_member(#[trigger] all[i], image_id),
{
    scan_finds(all, 0, image_id);
}

proof fn scan_finds(all: Seq<ImageSummary>, from: int, image_id: Seq<char>)
    requires
        0 <= from,
    ensures
        scanned_from(all, from, image_id) is None ==> forall|i: int|
            from <= i < all.len() ==> !has_member(#[trigger] all[i], image_id),
    decreases all.len() - from,
{
    if from < all.len() {
        scan_finds(all, from + 1, image_id);
    }
}

} // verus!
