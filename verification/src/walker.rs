//! Walking through all directories of a disk.

use crate::direntry::{entry_models, shown_name, Attr, DirEntry, DirEntryModel, EntryKind};
use crate::error::FsError;
use crate::fs::{DiskModel, Filesystem};
use crate::image::DiskImage;
use crate::text::same_text;
use vstd::prelude::*;
use vstd::string::StringExecFns;

verus! {

/// What a visitor is told of an entry.
pub struct WalkItem<'a> {
    /// The path from the root, with slashes and without one at its beginning.
    pub path: String,
    /// The entry.
    pub entry: &'a DirEntry,
}

/// Whether to go on with the directory that is being walked.
pub type Continue = bool;

/// Whether a directory is not entered: it is one of those that are being walked, and
/// such ones are not followed. No list of the directories that are being walked can
/// be longer than memory can count.
pub open spec fn goes_round(trail: Seq<u16>, cluster: u16, follow: bool) -> bool {
    (!follow && trail.contains(cluster)) || trail.len() >= usize::MAX
}

/// One who is shown the entries of a disk.
pub trait Visitor: Sized {
    /// What there is to know of the visitor between two visits.
    type State;

    /// What there is to know of the visitor now.
    spec fn state(&self) -> Self::State;

    /// What a visit makes of the visitor, and whether the walk goes on.
    spec fn step(state: Self::State, path: Seq<char>, entry: DirEntryModel) -> (Self::State, bool);

    /// Looks at an entry. Where the answer is false, the rest of the directory
    /// that holds the entry is passed over, and so is what is below the entry.
    fn visit(&mut self, item: &WalkItem) -> (go_on: Continue)
        ensures
            (final(self).state(), go_on) == Self::step(old(self).state(), item.path@, item.entry@),
    ;
}

/// Whether a visitor is shown an entry: it is in use and is not the directory
/// itself or its parent.
pub open spec fn is_shown(e: DirEntryModel) -> bool {
    e.kind == EntryKind::Used && e.name != "."@ && e.name != ".."@
}

/// The path of an entry in a directory.
pub open spec fn child_path(prefix: Seq<char>, e: DirEntryModel) -> Seq<char> {
    if prefix.len() == 0 {
        shown_name(e.name, e.ext)
    } else {
        prefix + seq!['/'] + shown_name(e.name, e.ext)
    }
}

/// What a walk through some entries makes of a visitor, and the error that ends
/// it, if one does. An entry is visited before what is below it. `trail` holds
/// the clusters of the directories that are being walked. One of these inside itself
/// is entered again if `follow` says so; otherwise it ends the walk.
pub open spec fn walked<V: Visitor>(
    fs: DiskModel,
    entries: Seq<DirEntryModel>,
    prefix: Seq<char>,
    trail: Seq<u16>,
    follow: bool,
    state: V::State,
) -> (V::State, Option<FsError>)
    decreases usize::MAX - trail.len(), entries.len(),
{
    if entries.len() == 0 {
        (state, None)
    } else if !is_shown(entries[0]) {
        walked::<V>(fs, entries.skip(1), prefix, trail, follow, state)
    } else {
        let e = entries[0];
        let path = child_path(prefix, e);
        let (seen, go_on) = V::step(state, path, e);
        if !go_on {
            (seen, None)
        } else if !e.attr.has(Attr::DIRECTORY) {
            walked::<V>(fs, entries.skip(1), prefix, trail, follow, seen)
        } else if goes_round(trail, e.start_cluster, follow) {
            (seen, Some(FsError::DirectoryLoop { cluster: e.start_cluster }))
        } else {
            match fs.subdir_entries(e.start_cluster) {
                Err(x) => (seen, Some(x)),
                Ok(sub) => {
                    let (below, error) = walked::<V>(
                        fs,
                        sub,
                        path,
                        trail.push(e.start_cluster),
                        follow,
                        seen,
                    );
                    if error is Some {
                        (below, error)
                    } else {
                        walked::<V>(fs, entries.skip(1), prefix, trail, follow, below)
                    }
                },
            }
        }
    }
}

/// What a walk through a whole disk makes of a visitor.
pub open spec fn walked_disk<V: Visitor>(fs: DiskModel, follow: bool, state: V::State) -> (
    V::State,
    Option<FsError>,
) {
    match fs.root_entries() {
        Err(e) => (state, Some(e)),
        Ok(entries) => walked::<V>(fs, entries, Seq::empty(), Seq::empty(), follow, state),
    }
}

/// The error of a result.
pub open spec fn error_of(r: Result<(), FsError>) -> Option<FsError> {
    match r {
        Ok(_) => None,
        Err(e) => Some(e),
    }
}

/// Shows all entries of a disk to a visitor, depth first, a directory before what
/// it holds. A directory that lies inside itself is shown again and again, for as
/// long as the visitor goes on; `walk_once` ends there.
pub fn walk<D: DiskImage, V: Visitor>(fs: &Filesystem<D>, visitor: &mut V) -> (r: Result<
    (),
    FsError,
>)
    requires
        fs.valid(),
    ensures
        (final(visitor).state(), error_of(r)) == walked_disk::<V>(
            fs@,
            true,
            old(visitor).state(),
        ),
{
    walk_root(fs, true, visitor)
}

/// Shows all entries of a disk to a visitor, as `walk` does, but ends with an error at
/// a directory that lies inside itself.
pub fn walk_once<D: DiskImage, V: Visitor>(fs: &Filesystem<D>, visitor: &mut V) -> (r: Result<
    (),
    FsError,
>)
    requires
        fs.valid(),
    ensures
        (final(visitor).state(), error_of(r)) == walked_disk::<V>(
            fs@,
            false,
            old(visitor).state(),
        ),
{
    walk_root(fs, false, visitor)
}

fn walk_root<D: DiskImage, V: Visitor>(fs: &Filesystem<D>, follow: bool, visitor: &mut V) -> (r:
    Result<(), FsError>)
    requires
        fs.valid(),
    ensures
        (final(visitor).state(), error_of(r)) == walked_disk::<V>(
            fs@,
            follow,
            old(visitor).state(),
        ),
{
    let root: Vec<DirEntry> = fs.read_root_dir()?;
    let trail: Vec<u16> = Vec::new();
    assert(""@ =~= Seq::<char>::empty()) by {
        reveal_strlit("");
    }
    assert(trail@ =~= Seq::<u16>::empty());
    walk_dir(fs, &root, "", &trail, follow, visitor)
}

/// Shows the entries of a directory, and what is below them, to a visitor.
pub fn walk_dir<D: DiskImage, V: Visitor>(
    fs: &Filesystem<D>,
    entries: &Vec<DirEntry>,
    prefix: &str,
    trail: &Vec<u16>,
    follow: bool,
    visitor: &mut V,
) -> (r: Result<(), FsError>)
    requires
        fs.valid(),
    ensures
        (final(visitor).state(), error_of(r)) == walked::<V>(
            fs@,
            entry_models(entries@),
            prefix@,
            trail@,
            follow,
            old(visitor).state(),
        ),
    decreases usize::MAX - trail.len(),
{
    let ghost all = entry_models(entries@);
    let ghost whole = walked::<V>(fs@, all, prefix@, trail@, follow, visitor.state());
    let mut i: usize = 0;
    assert(all.skip(0) =~= all);
    while i < entries.len()
        invariant
            fs.valid(),
            i <= entries@.len(),
            all == entry_models(entries@),
            whole == walked::<V>(fs@, all, prefix@, trail@, follow, old(visitor).state()),
            whole == walked::<V>(fs@, all.skip(i as int), prefix@, trail@, follow, visitor.state()),
        decreases entries@.len() - i,
    {
        let e: &DirEntry = &entries[i];
        assert(all.skip(i as int)[0] == e@);
        assert(all.skip(i as int).skip(1) =~= all.skip(i + 1));
        i = i + 1;
        if e.kind == EntryKind::Used && !same_text(e.name.as_str(), ".") && !same_text(
            e.name.as_str(),
            "..",
        ) {
            let path: String = path_below(prefix, e);
            let item = WalkItem { path: path.clone(), entry: e };
            if !visitor.visit(&item) {
                return Ok(());
            }
            if e.attr.contains(Attr::DIRECTORY) {
                if (!follow && is_on_trail(trail, e.start_cluster)) || trail.len() == usize::MAX {
                    return Err(FsError::DirectoryLoop { cluster: e.start_cluster });
                }
                let sub: Vec<DirEntry> = fs.read_subdir(e.start_cluster)?;
                let longer: Vec<u16> = lengthen(trail, e.start_cluster);
                walk_dir(fs, &sub, path.as_str(), &longer, follow, visitor)?;
            }
        }
    }
    Ok(())
}

fn path_below(prefix: &str, e: &DirEntry) -> (r: String)
    ensures
        r@ == child_path(prefix@, e@),
{
    let name: String = e.display_name();
    if prefix.is_empty() {
        name
    } else {
        let mut out: String = prefix.to_owned();
        out.push('/');
        out.append(name.as_str());
        out
    }
}

pub(crate) fn is_on_trail(trail: &Vec<u16>, cluster: u16) -> (r: bool)
    ensures
        r == trail@.contains(cluster),
{
    let mut i: usize = 0;
    while i < trail.len()
        invariant
            i <= trail@.len(),
            forall|k: int| 0 <= k < i ==> trail@[k] != cluster,
        decreases trail@.len() - i,
    {
        if trail[i] == cluster {
            assert(trail@[i as int] == cluster);
            return true;
        }
        i = i + 1;
    }
    false
}

pub(crate) fn lengthen(trail: &Vec<u16>, cluster: u16) -> (r: Vec<u16>)
    ensures
        r@ == trail@.push(cluster),
{
    let mut out: Vec<u16> = trail.clone();
    out.push(cluster);
    out
}

/// An entry and its path, as a visitor was shown them.
pub struct Visited {
    pub path: String,
    pub entry: DirEntry,
}

/// What was visited, as mathematical values.
pub open spec fn visited_models(v: Seq<Visited>) -> Seq<(Seq<char>, DirEntryModel)> {
    Seq::new(v.len(), |i: int| (v[i].path@, v[i].entry@))
}

/// A visitor who keeps all that it is shown.
pub struct Listing {
    pub items: Vec<Visited>,
}

impl Visitor for Listing {
    type State = Seq<(Seq<char>, DirEntryModel)>;

    open spec fn state(&self) -> Seq<(Seq<char>, DirEntryModel)> {
        visited_models(self.items@)
    }

    open spec fn step(
        state: Seq<(Seq<char>, DirEntryModel)>,
        path: Seq<char>,
        entry: DirEntryModel,
    ) -> (Seq<(Seq<char>, DirEntryModel)>, bool) {
        (state.push((path, entry)), true)
    }

    fn visit(&mut self, item: &WalkItem) -> (go_on: Continue) {
        let ghost before = visited_models(self.items@);
        let seen = Visited { path: item.path.clone(), entry: item.entry.clone() };
        self.items.push(seen);
        assert(visited_models(self.items@) =~= before.push((seen.path@, seen.entry@)));
        true
    }
}

/// All entries of a disk with their paths, in the order of a walk, and the error
/// that ended it, if one did. A directory inside itself is such an error: nobody would
/// stop the walk.
pub open spec fn disk_listing(fs: DiskModel) -> (
    Seq<(Seq<char>, DirEntryModel)>,
    Option<FsError>,
) {
    walked_disk::<Listing>(fs, false, Seq::empty())
}

/// Lists all entries of a disk with their paths.
pub fn list_all<D: DiskImage>(fs: &Filesystem<D>) -> (r: (Vec<Visited>, Option<FsError>))
    requires
        fs.valid(),
    ensures
        (visited_models(r.0@), r.1) == disk_listing(fs@),
{
    let mut listing = Listing { items: Vec::new() };
    assert(listing.state() =~= Seq::empty());
    let outcome = walk_once(fs, &mut listing);
    let error: Option<FsError> = match outcome {
        Ok(_) => None,
        Err(e) => Some(e),
    };
    (listing.items, error)
}

/// A listing only ever grows, and only by entries that are shown.
pub proof fn listing_grows(
    fs: DiskModel,
    entries: Seq<DirEntryModel>,
    prefix: Seq<char>,
    trail: Seq<u16>,
    follow: bool,
    state: Seq<(Seq<char>, DirEntryModel)>,
)
    ensures
        ({
            let after = walked::<Listing>(fs, entries, prefix, trail, follow, state).0;
            &&& after.len() >= state.len()
            &&& after.take(state.len() as int) == state
            &&& forall|i: int|
                state.len() <= i < after.len() ==> is_shown((#[trigger] after[i]).1)
        }),
    decreases usize::MAX - trail.len(), entries.len(),
{
    assert(state.take(state.len() as int) =~= state);
    if entries.len() > 0 {
        let e = entries[0];
        if !is_shown(e) {
            listing_grows(fs, entries.skip(1), prefix, trail, follow, state);
        } else {
            let path = child_path(prefix, e);
            let seen = state.push((path, e));
            assert(seen.take(state.len() as int) =~= state);
            if !e.attr.has(Attr::DIRECTORY) {
                listing_grows(fs, entries.skip(1), prefix, trail, follow, seen);
                let after = walked::<Listing>(fs, entries.skip(1), prefix, trail, follow, seen).0;
                prefix_of_prefix(after, seen, state);
            } else if !goes_round(trail, e.start_cluster, follow) {
                if let Ok(sub) = fs.subdir_entries(e.start_cluster) {
                    let deeper = trail.push(e.start_cluster);
                    listing_grows(fs, sub, path, deeper, follow, seen);
                    let (below, error) = walked::<Listing>(fs, sub, path, deeper, follow, seen);
                    prefix_of_prefix(below, seen, state);
                    if error is None {
                        listing_grows(fs, entries.skip(1), prefix, trail, follow, below);
                        let after = walked::<Listing>(
                            fs,
                            entries.skip(1),
                            prefix,
                            trail,
                            follow,
                            below,
                        ).0;
                        prefix_of_prefix(after, below, state);
                    }
                }
            }
        }
    }
}

proof fn prefix_of_prefix<A>(c: Seq<A>, b: Seq<A>, a: Seq<A>)
    requires
        c.len() >= b.len() >= a.len(),
        c.take(b.len() as int) == b,
        b.take(a.len() as int) == a,
    ensures
        c.take(a.len() as int) == a,
        forall|i: int| 0 <= i < b.len() ==> c[i] == b[i],
{
    assert(c.take(a.len() as int) =~= c.take(b.len() as int).take(a.len() as int));
    assert forall|i: int| 0 <= i < b.len() implies c[i] == b[i] by {
        assert(c.take(b.len() as int)[i] == c[i]);
    }
}

/// A walk shows entries in use only, and neither `.` nor `..`.
pub proof fn walk_shows_entries_in_use(fs: DiskModel)
    ensures
        forall|i: int|
            0 <= i < disk_listing(fs).0.len() ==> is_shown((#[trigger] disk_listing(fs).0[i]).1),
{
    if let Ok(entries) = fs.root_entries() {
        listing_grows(fs, entries, Seq::empty(), Seq::empty(), false, Seq::empty());
    }
}

/// Where no directory lies inside itself, it does not matter whether such ones are
/// followed: any visitor is shown the same.
pub proof fn walks_without_loops_agree<V: Visitor>(
    fs: DiskModel,
    entries: Seq<DirEntryModel>,
    prefix: Seq<char>,
    trail: Seq<u16>,
    state: V::State,
)
    requires
        !(walked::<V>(fs, entries, prefix, trail, false, state).1 matches Some(
            FsError::DirectoryLoop { .. },
        )),
    ensures
        walked::<V>(fs, entries, prefix, trail, true, state) == walked::<V>(
            fs,
            entries,
            prefix,
            trail,
            false,
            state,
        ),
    decreases usize::MAX - trail.len(), entries.len(),
{
    if entries.len() > 0 {
        let e = entries[0];
        let rest = entries.skip(1);
        if !is_shown(e) {
            walks_without_loops_agree::<V>(fs, rest, prefix, trail, state);
        } else {
            let path = child_path(prefix, e);
            let (seen, go_on) = V::step(state, path, e);
            if go_on && !e.attr.has(Attr::DIRECTORY) {
                walks_without_loops_agree::<V>(fs, rest, prefix, trail, seen);
            } else if go_on && !goes_round(trail, e.start_cluster, false) {
                if let Ok(sub) = fs.subdir_entries(e.start_cluster) {
                    let deeper = trail.push(e.start_cluster);
                    walks_without_loops_agree::<V>(fs, sub, path, deeper, seen);
                    let (below, error) = walked::<V>(fs, sub, path, deeper, false, seen);
                    if error is None {
                        walks_without_loops_agree::<V>(fs, rest, prefix, trail, below);
                    }
                }
            }
        }
    }
}

} // verus!
