//! What is listed, found and copied of a disk.

use crate::direntry::{entry_models, shown_name, Attr, DirEntry, DirEntryModel, EntryKind};
use crate::error::FsError;
use crate::fs::{DiskModel, Filesystem};
use crate::glob::{fits_in_case, glob_match, relative_path, seen_from};
use crate::image::DiskImage;
use crate::text::same_text;
use crate::walker::{goes_round, is_on_trail, is_shown, lengthen, visited_models, Visited};
use vstd::prelude::*;
use vstd::string::StringExecFns;

verus! {

/// Whether a search by name shows an entry: it lies in the directory that is
/// searched, its name fits the pattern, and it is a file unless directories are
/// wanted too.
pub open spec fn is_match(
    item: (Seq<char>, DirEntryModel),
    scope: Seq<char>,
    pattern: Seq<char>,
    ignore_case: bool,
    include_dirs: bool,
) -> bool {
    &&& seen_from(scope, item.0) is Some
    &&& item.1.attr.has(Attr::DIRECTORY) ==> include_dirs
    &&& fits_in_case(pattern, shown_name(item.1.name, item.1.ext), ignore_case)
}

/// Of the entries of a disk, those that a search by name shows.
pub fn find_names(
    items: &Vec<Visited>,
    scope: &str,
    pattern: &str,
    ignore_case: bool,
    include_dirs: bool,
) -> (r: Vec<Visited>)
    ensures
        visited_models(r@) == visited_models(items@).filter(
            |x: (Seq<char>, DirEntryModel)|
                is_match(x, scope@, pattern@, ignore_case, include_dirs),
        ),
{
    let ghost wanted = |x: (Seq<char>, DirEntryModel)|
        is_match(x, scope@, pattern@, ignore_case, include_dirs);
    let ghost all = visited_models(items@);
    let mut out: Vec<Visited> = Vec::new();
    let mut i: usize = 0;
    proof {
        reveal(Seq::filter);
        assert(all.take(0) =~= Seq::empty());
        assert(visited_models(out@) =~= all.take(0).filter(wanted));
    }
    while i < items.len()
        invariant
            i <= items@.len(),
            all == visited_models(items@),
            wanted == (|x: (Seq<char>, DirEntryModel)|
                is_match(x, scope@, pattern@, ignore_case, include_dirs)),
            visited_models(out@) == all.take(i as int).filter(wanted),
        decreases items@.len() - i,
    {
        let ghost before = visited_models(out@);
        let item: &Visited = &items[i];
        proof {
            reveal(Seq::filter);
            assert(all.take(i + 1).drop_last() =~= all.take(i as int));
            assert(all.take(i + 1).last() == (item.path@, item.entry@));
        }
        let name: String = item.entry.display_name();
        if relative_path(scope, item.path.as_str()).is_some() && (include_dirs
            || !item.entry.attr.contains(Attr::DIRECTORY)) && glob_match(
            pattern,
            name.as_str(),
            ignore_case,
        ) {
            let kept = Visited { path: item.path.clone(), entry: item.entry.clone() };
            out.push(kept);
            assert(visited_models(out@) =~= before.push((kept.path@, kept.entry@)));
        }
        i = i + 1;
    }
    assert(all.take(i as int) =~= all);
    out
}

/// Of the entries of a disk, those below a directory, with their paths as they are
/// seen from there; the directory itself is not among them.
pub open spec fn entries_below(items: Seq<(Seq<char>, DirEntryModel)>, base: Seq<char>) -> Seq<
    (Seq<char>, DirEntryModel),
>
    decreases items.len(),
{
    if items.len() == 0 {
        Seq::empty()
    } else {
        let before = entries_below(items.drop_last(), base);
        let (path, entry) = items.last();
        match seen_from(base, path) {
            Some(rest) => if rest.len() == 0 && entry.attr.has(Attr::DIRECTORY) {
                before
            } else {
                before.push((rest, entry))
            },
            None => before,
        }
    }
}

/// The entries that are copied with a directory, with their paths as they are seen
/// from there.
pub fn entries_to_copy(items: &Vec<Visited>, base: &str) -> (r: Vec<Visited>)
    ensures
        visited_models(r@) == entries_below(visited_models(items@), base@),
{
    let ghost all = visited_models(items@);
    let mut out: Vec<Visited> = Vec::new();
    let mut i: usize = 0;
    assert(visited_models(out@) =~= entries_below(all.take(0), base@));
    while i < items.len()
        invariant
            i <= items@.len(),
            all == visited_models(items@),
            visited_models(out@) == entries_below(all.take(i as int), base@),
        decreases items@.len() - i,
    {
        let ghost before = visited_models(out@);
        let item: &Visited = &items[i];
        assert(all.take(i + 1).drop_last() =~= all.take(i as int));
        assert(all.take(i + 1).last() == (item.path@, item.entry@));
        if let Some(rest) = relative_path(base, item.path.as_str()) {
            if !(rest.as_str().is_empty() && item.entry.attr.contains(Attr::DIRECTORY)) {
                let kept = Visited { path: rest, entry: item.entry.clone() };
                out.push(kept);
                assert(visited_models(out@) =~= before.push((kept.path@, kept.entry@)));
            }
        }
        i = i + 1;
    }
    assert(all.take(i as int) =~= all);
    out
}

/// A directory with what is listed of it.
#[derive(Debug)]
pub struct DirListing {
    pub path: String,
    pub entries: Vec<DirEntry>,
}

/// A directory with what is listed of it, as a mathematical value.
pub struct DirListingModel {
    pub path: Seq<char>,
    pub entries: Seq<DirEntryModel>,
}

impl View for DirListing {
    type V = DirListingModel;

    open spec fn view(&self) -> DirListingModel {
        DirListingModel { path: self.path@, entries: entry_models(self.entries@) }
    }
}

/// Directories as mathematical values.
pub open spec fn dir_models(v: Seq<DirListing>) -> Seq<DirListingModel> {
    Seq::new(v.len(), |i: int| v[i]@)
}

/// Whether an entry is listed: it is not the directory itself or its parent, and not
/// deleted unless deleted ones are wanted too.
pub open spec fn is_listed(e: DirEntryModel, deleted: bool) -> bool {
    e.name != "."@ && e.name != ".."@ && (e.kind != EntryKind::Deleted || deleted)
}

/// What is listed of a directory.
pub open spec fn listed_of(entries: Seq<DirEntryModel>, deleted: bool) -> Seq<DirEntryModel> {
    entries.filter(|e: DirEntryModel| is_listed(e, deleted))
}

/// The directories among some entries and below, depth first, each with what is
/// listed of it, and the error that ends the listing, if one does.
pub open spec fn listed_below(
    fs: DiskModel,
    entries: Seq<DirEntryModel>,
    path: Seq<char>,
    trail: Seq<u16>,
    deleted: bool,
) -> (Seq<DirListingModel>, Option<FsError>)
    decreases usize::MAX - trail.len(), entries.len(),
{
    if entries.len() == 0 {
        (Seq::empty(), None)
    } else if !is_shown(entries[0]) || !entries[0].attr.has(Attr::DIRECTORY) {
        listed_below(fs, entries.skip(1), path, trail, deleted)
    } else {
        let e = entries[0];
        let inner = path + seq!['/'] + shown_name(e.name, e.ext);
        if goes_round(trail, e.start_cluster, false) {
            (Seq::empty(), Some(FsError::DirectoryLoop { cluster: e.start_cluster }))
        } else {
            match fs.subdir_entries(e.start_cluster) {
                Err(x) => (Seq::empty(), Some(x)),
                Ok(sub) => {
                    let own = seq![
                        DirListingModel { path: inner, entries: listed_of(sub, deleted) },
                    ];
                    let (below, error) = listed_below(
                        fs,
                        sub,
                        inner,
                        trail.push(e.start_cluster),
                        deleted,
                    );
                    if error is Some {
                        (own + below, error)
                    } else {
                        let (rest, end) = listed_below(fs, entries.skip(1), path, trail, deleted);
                        (own + below + rest, end)
                    }
                },
            }
        }
    }
}

/// What a listing of a directory shows: the directory itself and, if wanted, all
/// directories below.
pub open spec fn listed_tree(
    fs: DiskModel,
    entries: Seq<DirEntryModel>,
    path: Seq<char>,
    trail: Seq<u16>,
    recursive: bool,
    deleted: bool,
) -> (Seq<DirListingModel>, Option<FsError>) {
    let own = seq![DirListingModel { path, entries: listed_of(entries, deleted) }];
    if recursive {
        let (below, error) = listed_below(fs, entries, path, trail, deleted);
        (own + below, error)
    } else {
        (own, None)
    }
}

/// What is listed of a directory.
pub fn entries_to_list(entries: &Vec<DirEntry>, deleted: bool) -> (r: Vec<DirEntry>)
    ensures
        entry_models(r@) == listed_of(entry_models(entries@), deleted),
{
    let ghost wanted = |e: DirEntryModel| is_listed(e, deleted);
    let ghost all = entry_models(entries@);
    let mut out: Vec<DirEntry> = Vec::new();
    let mut i: usize = 0;
    proof {
        reveal(Seq::filter);
        assert(all.take(0) =~= Seq::empty());
        assert(entry_models(out@) =~= all.take(0).filter(wanted));
    }
    while i < entries.len()
        invariant
            i <= entries@.len(),
            all == entry_models(entries@),
            wanted == (|e: DirEntryModel| is_listed(e, deleted)),
            entry_models(out@) == all.take(i as int).filter(wanted),
        decreases entries@.len() - i,
    {
        let ghost before = entry_models(out@);
        let e: &DirEntry = &entries[i];
        proof {
            reveal(Seq::filter);
            assert(all.take(i + 1).drop_last() =~= all.take(i as int));
            assert(all.take(i + 1).last() == e@);
        }
        if !same_text(e.name.as_str(), ".") && !same_text(e.name.as_str(), "..") && (deleted
            || e.kind != EntryKind::Deleted) {
            let kept: DirEntry = e.clone();
            out.push(kept);
            assert(entry_models(out@) =~= before.push(kept@));
        }
        i = i + 1;
    }
    assert(all.take(i as int) =~= all);
    out
}

fn list_below<D: DiskImage>(
    fs: &Filesystem<D>,
    entries: &Vec<DirEntry>,
    path: &str,
    trail: &Vec<u16>,
    deleted: bool,
    out: &mut Vec<DirListing>,
) -> (r: Option<FsError>)
    requires
        fs.valid(),
    ensures
        ({
            let (below, error) = listed_below(
                fs@,
                entry_models(entries@),
                path@,
                trail@,
                deleted,
            );
            dir_models(final(out)@) == dir_models(old(out)@) + below && r == error
        }),
    decreases usize::MAX - trail.len(),
{
    let ghost all = entry_models(entries@);
    let ghost whole = listed_below(fs@, all, path@, trail@, deleted);
    let ghost goal = dir_models(out@) + whole.0;
    let mut i: usize = 0;
    assert(all.skip(0) =~= all);
    while i < entries.len()
        invariant
            fs.valid(),
            i <= entries@.len(),
            all == entry_models(entries@),
            whole == listed_below(fs@, all, path@, trail@, deleted),
            goal == dir_models(old(out)@) + whole.0,
            dir_models(out@) + listed_below(
                fs@,
                all.skip(i as int),
                path@,
                trail@,
                deleted,
            ).0 == goal,
            listed_below(fs@, all.skip(i as int), path@, trail@, deleted).1 == whole.1,
        decreases entries@.len() - i,
    {
        let e: &DirEntry = &entries[i];
        let ghost had = dir_models(out@);
        assert(all.skip(i as int)[0] == e@);
        assert(all.skip(i as int).skip(1) =~= all.skip(i + 1));
        i = i + 1;
        if e.kind == EntryKind::Used && !same_text(e.name.as_str(), ".") && !same_text(
            e.name.as_str(),
            "..",
        ) && e.attr.contains(Attr::DIRECTORY) {
            if is_on_trail(trail, e.start_cluster) || trail.len() == usize::MAX {
                assert(dir_models(out@) =~= goal);
                return Some(FsError::DirectoryLoop { cluster: e.start_cluster });
            }
            let sub: Vec<DirEntry> = match fs.read_subdir(e.start_cluster) {
                Ok(sub) => sub,
                Err(x) => {
                    assert(dir_models(out@) =~= goal);
                    return Some(x);
                },
            };
            let mut inner: String = path.to_owned();
            inner.push('/');
            let name: String = e.display_name();
            inner.append(name.as_str());
            assert(inner@ =~= path@ + seq!['/'] + shown_name(e@.name, e@.ext));
            let own = DirListing { path: inner.clone(), entries: entries_to_list(&sub, deleted) };
            out.push(own);
            assert(dir_models(out@) =~= had + seq![own@]);
            let longer: Vec<u16> = lengthen(trail, e.start_cluster);
            let error: Option<FsError> = list_below(
                fs,
                &sub,
                inner.as_str(),
                &longer,
                deleted,
                out,
            );
            if error.is_some() {
                assert(dir_models(out@) =~= goal);
                return error;
            }
            assert(dir_models(out@) + listed_below(
                fs@,
                all.skip(i as int),
                path@,
                trail@,
                deleted,
            ).0 =~= goal);
        }
    }
    assert(dir_models(out@) =~= goal);
    None
}

/// Lists a directory, whose entries and path are given, and if wanted all
/// directories below. `trail` holds the cluster of the directory; the root has none.
pub fn list_tree<D: DiskImage>(
    fs: &Filesystem<D>,
    entries: &Vec<DirEntry>,
    path: &str,
    trail: &Vec<u16>,
    recursive: bool,
    deleted: bool,
) -> (r: (Vec<DirListing>, Option<FsError>))
    requires
        fs.valid(),
        trail@.len() <= 1,
    ensures
        (dir_models(r.0@), r.1) == listed_tree(
            fs@,
            entry_models(entries@),
            path@,
            trail@,
            recursive,
            deleted,
        ),
{
    let mut out: Vec<DirListing> = Vec::new();
    let own = DirListing { path: path.to_owned(), entries: entries_to_list(entries, deleted) };
    out.push(own);
    assert(dir_models(out@) =~= seq![own@]);
    if recursive {
        let error: Option<FsError> = list_below(fs, entries, path, trail, deleted, &mut out);
        (out, error)
    } else {
        (out, None)
    }
}

/// A listing starts with the directory itself, and no deleted entry is listed unless
/// that is wanted.
pub proof fn listings_start_at_the_directory(
    fs: DiskModel,
    entries: Seq<DirEntryModel>,
    path: Seq<char>,
    trail: Seq<u16>,
    recursive: bool,
    deleted: bool,
)
    ensures
        ({
            let dirs = listed_tree(fs, entries, path, trail, recursive, deleted).0;
            &&& dirs.len() >= 1
            &&& dirs[0].path == path
            &&& forall|i: int|
                0 <= i < dirs[0].entries.len() ==> is_listed(
                    #[trigger] dirs[0].entries[i],
                    deleted,
                ) && entries.contains(dirs[0].entries[i])
        }),
{
    listed_entries_are_entries(entries, deleted);
}

proof fn listed_entries_are_entries(entries: Seq<DirEntryModel>, deleted: bool)
    ensures
        forall|i: int|
            0 <= i < listed_of(entries, deleted).len() ==> is_listed(
                #[trigger] listed_of(entries, deleted)[i],
                deleted,
            ) && entries.contains(listed_of(entries, deleted)[i]),
    decreases entries.len(),
{
    reveal(Seq::filter);
    if entries.len() > 0 {
        let head = entries.drop_last();
        listed_entries_are_entries(head, deleted);
        let kept = listed_of(entries, deleted);
        assert forall|i: int| 0 <= i < kept.len() implies is_listed(#[trigger] kept[i], deleted)
            && entries.contains(kept[i]) by {
            if i < listed_of(head, deleted).len() {
                assert(kept[i] == listed_of(head, deleted)[i]);
                let k = choose|k: int| 0 <= k < head.len() && head[k] == kept[i];
                assert(entries[k] == kept[i]);
            } else {
                assert(entries[entries.len() - 1] == kept[i]);
            }
        }
    }
}

} // verus!
