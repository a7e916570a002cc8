//! What a walk through a disk comes across.

use crate::direntry::{DirEntryModel, EntryKind};
use crate::fs::DiskModel;
use crate::laws::layout::full_name;
use crate::walker::{disk_listing, is_shown, listing_grows, walked, Listing};
use vstd::prelude::*;

verus! {

/// Whether an entry is come across: it is in use, and is neither the directory itself nor
/// its parent.
pub open spec fn is_met(e: DirEntryModel) -> bool {
    e.kind == EntryKind::Used && e.name != "."@ && e.name != ".."@
}

/// The path of an entry below a directory.
pub open spec fn path_below(dir: Seq<char>, e: DirEntryModel) -> Seq<char> {
    if dir.len() > 0 {
        dir + seq!['/'] + full_name(e)
    } else {
        full_name(e)
    }
}

/// Whether item `j` of a walk stands for an entry of the directory that is item `i`.
pub open spec fn lies_in(
    fs: DiskModel,
    items: Seq<(Seq<char>, DirEntryModel)>,
    i: int,
    j: int,
) -> bool {
    &&& items[i].1.attr.bits & 0x10 == 0x10
    &&& fs.subdir_entries(items[i].1.start_cluster) is Ok
    &&& fs.subdir_entries(items[i].1.start_cluster)->Ok_0.contains(items[j].1)
    &&& items[j].0 == path_below(items[i].0, items[j].1)
}

/// Whether all that is to be met in some entries is met from item `from` on.
pub open spec fn all_met(
    entries: Seq<DirEntryModel>,
    dir: Seq<char>,
    items: Seq<(Seq<char>, DirEntryModel)>,
    from: int,
) -> bool {
    forall|k: int|
        0 <= k < entries.len() && is_met(#[trigger] entries[k]) ==> exists|j: int|
            from <= j < items.len() && #[trigger] items[j] == (
                path_below(dir, entries[k]),
                entries[k],
            )
}

/// Whether all that is to be met in the directory that is item `i` is met behind it.
pub open spec fn met_below(
    fs: DiskModel,
    items: Seq<(Seq<char>, DirEntryModel)>,
    i: int,
) -> bool {
    items[i].1.attr.bits & 0x10 == 0x10 ==> fs.subdir_entries(items[i].1.start_cluster) is Ok
        && all_met(fs.subdir_entries(items[i].1.start_cluster)->Ok_0, items[i].0, items, i + 1)
}

/// Whether item `j` stands for one of some entries or for one in an item before it.
pub open spec fn comes_from(
    fs: DiskModel,
    entries: Seq<DirEntryModel>,
    dir: Seq<char>,
    items: Seq<(Seq<char>, DirEntryModel)>,
    from: int,
    j: int,
) -> bool {
    ||| entries.contains(items[j].1) && items[j].0 == path_below(dir, items[j].1)
    ||| exists|i: int| from <= i < j && #[trigger] lies_in(fs, items, i, j)
}

proof fn met_in_longer(
    fs: DiskModel,
    entries: Seq<DirEntryModel>,
    dir: Seq<char>,
    short: Seq<(Seq<char>, DirEntryModel)>,
    long: Seq<(Seq<char>, DirEntryModel)>,
    from: int,
)
    requires
        0 <= from,
        short.len() <= long.len(),
        long.take(short.len() as int) == short,
    ensures
        all_met(entries, dir, short, from) ==> all_met(entries, dir, long, from),
        forall|i: int| 0 <= i < short.len() && #[trigger] met_below(fs, short, i) ==> met_below(
            fs,
            long,
            i,
        ),
{
    assert forall|i: int| 0 <= i < short.len() implies #[trigger] short[i] == long[i] by {
        assert(long.take(short.len() as int)[i] == long[i]);
    }
    if all_met(entries, dir, short, from) {
        assert forall|k: int|
            0 <= k < entries.len() && is_met(#[trigger] entries[k]) implies exists|j: int|
            from <= j < long.len() && #[trigger] long[j] == (
                path_below(dir, entries[k]),
                entries[k],
            ) by {
            let j = choose|j: int|
                from <= j < short.len() && #[trigger] short[j] == (
                    path_below(dir, entries[k]),
                    entries[k],
                );
            assert(long[j] == short[j]);
        }
    }
    assert forall|i: int| 0 <= i < short.len() && #[trigger] met_below(fs, short, i) implies met_below(
        fs,
        long,
        i,
    ) by {
        assert(short[i] == long[i]);
        if short[i].1.attr.bits & 0x10 == 0x10 {
            let sub = fs.subdir_entries(short[i].1.start_cluster)->Ok_0;
            assert(all_met(sub, short[i].0, short, i + 1));
            assert forall|k: int|
                0 <= k < sub.len() && is_met(#[trigger] sub[k]) implies exists|j: int|
                i + 1 <= j < long.len() && #[trigger] long[j] == (
                    path_below(short[i].0, sub[k]),
                    sub[k],
                ) by {
                let j = choose|j: int|
                    i + 1 <= j < short.len() && #[trigger] short[j] == (
                        path_below(short[i].0, sub[k]),
                        sub[k],
                    );
                assert(long[j] == short[j]);
            }
        }
    }
}

proof fn from_in_longer(
    fs: DiskModel,
    a: Seq<DirEntryModel>,
    b: Seq<DirEntryModel>,
    dir: Seq<char>,
    short: Seq<(Seq<char>, DirEntryModel)>,
    long: Seq<(Seq<char>, DirEntryModel)>,
    from: int,
    j: int,
)
    requires
        0 <= from <= j < short.len() <= long.len(),
        long.take(short.len() as int) == short,
        forall|e: DirEntryModel| a.contains(e) ==> b.contains(e),
        comes_from(fs, a, dir, short, from, j),
    ensures
        comes_from(fs, b, dir, long, from, j),
{
    assert forall|i: int| 0 <= i < short.len() implies #[trigger] short[i] == long[i] by {
        assert(long.take(short.len() as int)[i] == long[i]);
    }
    if !(a.contains(short[j].1) && short[j].0 == path_below(dir, short[j].1)) {
        let i = choose|i: int| from <= i < j && #[trigger] lies_in(fs, short, i, j);
        assert(short[i] == long[i]);
        assert(lies_in(fs, long, i, j));
    }
}

proof fn walking_meets_all(
    fs: DiskModel,
    entries: Seq<DirEntryModel>,
    dir: Seq<char>,
    trail: Seq<u16>,
    state: Seq<(Seq<char>, DirEntryModel)>,
)
    requires
        walked::<Listing>(fs, entries, dir, trail, false, state).1 is None,
    ensures
        ({
            let items = walked::<Listing>(fs, entries, dir, trail, false, state).0;
            let from = state.len() as int;
            &&& items.len() >= state.len()
            &&& items.take(from) == state
            &&& all_met(entries, dir, items, from)
            &&& forall|i: int| from <= i < items.len() ==> #[trigger] met_below(fs, items, i)
            &&& forall|j: int|
                from <= j < items.len() ==> is_met((#[trigger] items[j]).1) && comes_from(
                    fs,
                    entries,
                    dir,
                    items,
                    from,
                    j,
                )
        }),
    decreases usize::MAX - trail.len(), entries.len(),
{
    let from = state.len() as int;
    let items = walked::<Listing>(fs, entries, dir, trail, false, state).0;
    listing_grows(fs, entries, dir, trail, false, state);
    if entries.len() > 0 {
        let e = entries[0];
        let rest = entries.skip(1);
        assert(forall|k: int| 0 <= k < rest.len() ==> #[trigger] rest[k] == entries[k + 1]);
        assert forall|x: DirEntryModel| rest.contains(x) implies entries.contains(x) by {
            let k = choose|k: int| 0 <= k < rest.len() && rest[k] == x;
            assert(entries[k + 1] == x);
        }
        assert(is_shown(e) == is_met(e));
        if !is_met(e) {
            walking_meets_all(fs, rest, dir, trail, state);
            assert forall|k: int|
                0 <= k < entries.len() && is_met(#[trigger] entries[k]) implies exists|j: int|
                from <= j < items.len() && #[trigger] items[j] == (
                    path_below(dir, entries[k]),
                    entries[k],
                ) by {
                assert(rest[k - 1] == entries[k]);
            }
            assert forall|j: int| from <= j < items.len() implies is_met((#[trigger] items[j]).1)
                && comes_from(fs, entries, dir, items, from, j) by {
                assert(items.take(items.len() as int) =~= items);
                from_in_longer(fs, rest, entries, dir, items, items, from, j);
            }
        } else {
            let path = path_below(dir, e);
            let seen = state.push((path, e));
            assert(seen.take(from) =~= state);
            let after_dir = if e.attr.bits & 0x10 == 0x10 {
                let sub = fs.subdir_entries(e.start_cluster)->Ok_0;
                walked::<Listing>(fs, sub, path, trail.push(e.start_cluster), false, seen).0
            } else {
                seen
            };
            if e.attr.bits & 0x10 == 0x10 {
                let sub = fs.subdir_entries(e.start_cluster)->Ok_0;
                let deeper = trail.push(e.start_cluster);
                assert(fs.subdir_entries(e.start_cluster) is Ok);
                walking_meets_all(fs, sub, path, deeper, seen);
            } else {
                assert(after_dir.take(seen.len() as int) =~= seen);
            }
            walking_meets_all(fs, rest, dir, trail, after_dir);
            assert(items == walked::<Listing>(fs, rest, dir, trail, false, after_dir).0);
            assert forall|i: int| 0 <= i < after_dir.len() implies #[trigger] items[i]
                == after_dir[i] by {
                assert(items.take(after_dir.len() as int)[i] == items[i]);
            }
            assert(after_dir[from] == (path, e)) by {
                assert(after_dir.take(seen.len() as int)[from] == after_dir[from]);
            }
            assert(items[from] == (path, e));
            // Everything in the entries is met.
            assert forall|k: int|
                0 <= k < entries.len() && is_met(#[trigger] entries[k]) implies exists|j: int|
                from <= j < items.len() && #[trigger] items[j] == (
                    path_below(dir, entries[k]),
                    entries[k],
                ) by {
                if k > 0 {
                    assert(rest[k - 1] == entries[k]);
                    let j = choose|j: int|
                        after_dir.len() <= j < items.len() && #[trigger] items[j] == (
                            path_below(dir, rest[k - 1]),
                            rest[k - 1],
                        );
                    assert(items[j] == (path_below(dir, entries[k]), entries[k]));
                }
            }
            // What is below a directory is met behind it.
            met_in_longer(
                fs,
                if e.attr.bits & 0x10 == 0x10 {
                    fs.subdir_entries(e.start_cluster)->Ok_0
                } else {
                    Seq::empty()
                },
                path,
                after_dir,
                items,
                from + 1,
            );
            assert forall|i: int| from <= i < items.len() implies #[trigger] met_below(
                fs,
                items,
                i,
            ) by {
                if i == from {
                    if e.attr.bits & 0x10 == 0x10 {
                        assert(all_met(
                            fs.subdir_entries(e.start_cluster)->Ok_0,
                            path,
                            after_dir,
                            from + 1,
                        ));
                    }
                } else if i < after_dir.len() {
                    assert(met_below(fs, after_dir, i));
                }
            }
            // Nothing else is met.
            assert forall|j: int| from <= j < items.len() implies is_met((#[trigger] items[j]).1)
                && comes_from(fs, entries, dir, items, from, j) by {
                if j == from {
                    assert(entries[0] == e);
                    assert(entries.contains(e));
                } else if j < after_dir.len() {
                    let sub = fs.subdir_entries(e.start_cluster)->Ok_0;
                    assert(items[j] == after_dir[j]);
                    assert(comes_from(fs, sub, path, after_dir, from + 1, j));
                    if sub.contains(after_dir[j].1) && after_dir[j].0 == path_below(
                        path,
                        after_dir[j].1,
                    ) {
                        assert(lies_in(fs, items, from, j));
                    } else {
                        let i = choose|i: int|
                            from + 1 <= i < j && #[trigger] lies_in(fs, after_dir, i, j);
                        assert(items[i] == after_dir[i]);
                        assert(lies_in(fs, items, i, j));
                    }
                } else {
                    assert(comes_from(fs, rest, dir, items, after_dir.len() as int, j));
                    if !(rest.contains(items[j].1) && items[j].0 == path_below(dir, items[j].1)) {
                        let i = choose|i: int|
                            after_dir.len() <= i < j && #[trigger] lies_in(fs, items, i, j);
                        assert(lies_in(fs, items, i, j));
                    }
                }
            }
        }
    }
}

/// A walk that comes to its end meets all entries in use of the root directory and of all
/// directories that it meets, and no others, each under its path. What lies in a directory
/// is met behind it.
pub proof fn walks_meet_everything(fs: DiskModel, root: Seq<DirEntryModel>)
    requires
        fs.root_entries() == Ok::<Seq<DirEntryModel>, crate::error::FsError>(root),
        disk_listing(fs).1 is None,
    ensures
        ({
            let items = disk_listing(fs).0;
            &&& all_met(root, Seq::empty(), items, 0)
            &&& forall|i: int| 0 <= i < items.len() ==> #[trigger] met_below(fs, items, i)
            &&& forall|j: int|
                0 <= j < items.len() ==> is_met((#[trigger] items[j]).1) && comes_from(
                    fs,
                    root,
                    Seq::empty(),
                    items,
                    0,
                    j,
                )
        }),
{
    walking_meets_all(fs, root, Seq::empty(), Seq::empty(), Seq::empty());
}

} // verus!
