//! What is taken out of LZH archives, out of listings and onto the host.

use crate::codec::{decodable_length, sjis_text};
use crate::direntry::{DirEntryModel, EntryKind};
use crate::document::{excerpt_of, first_value, FieldModel, FileModel};
use crate::export::{replaced, safe_name, safe_path, without_tail};
use crate::glob::{fits, fits_in_case, seen_from};
use crate::laws::index::documents_of_files_have_their_fields;
use crate::laws::layout::{case_is_all_that_goes, full_name, lowest_first, same_letters};
use crate::laws::texts::names_are_put_behind_a_slash;
use crate::listing::{entries_below, is_match, listed_of};
use crate::lzh::{after_last, archive_documents, bit_of, decoder_overflows, documents_from,
    filled_from, has_code_tables, long_code_ends, lzh_archive, lzh_cut_off, member_document,
    member_from, member_name, names_archive, overflows_at, packed_data, seconds_of, taken_out,
    time_overflows, unpacked, unpacking_words, wanted_path, without_leading_slashes, LzhError,
    LzhMember, LzhOpts, Modified, Origin};
use crate::schema::{text_extension, Field};
use crate::text::{components, lowered, uppered};
use vstd::prelude::*;

verus! {

/// The document of a member tells its archive and its name, what follows the last slash of
/// that, the extension in capitals and the size of what was unpacked. Where it is a text, its
/// contents are in the document.
pub proof fn members_have_their_documents(
    o: Origin,
    outer: Seq<char>,
    name: Seq<char>,
    data: Seq<u8>,
    seconds: i64,
)
    requires
        decodable_length(data.len()),
    ensures
        ({
            let d = member_document(o, outer, name, data, seconds);
            let file = after_last(name, '/');
            let ext = uppered(after_last(file, '.'));
            &&& first_value(d, Field::ImagePath) == Some(FieldModel::Text(o.image_path))
            &&& first_value(d, Field::ImageId) == Some(FieldModel::Text(o.image_id))
            &&& first_value(d, Field::Partition) == Some(FieldModel::U64(o.partition as u64))
            &&& first_value(d, Field::FilePath) == Some(FieldModel::Text(outer + "!/"@ + name))
            &&& first_value(d, Field::FileName) == Some(FieldModel::Text(file))
            &&& first_value(d, Field::Ext) == Some(FieldModel::Text(ext))
            &&& first_value(d, Field::Size) == Some(FieldModel::U64(data.len() as u64))
            &&& first_value(d, Field::Mtime) == Some(FieldModel::I64(seconds))
            &&& first_value(d, Field::Attr) == Some(
                FieldModel::Text(seq!['-', '-', '-', '-', '-', 'A', '-']),
            )
            &&& text_extension(ext) ==> first_value(d, Field::Body) == Some(
                FieldModel::Text(sjis_text(data)),
            ) && first_value(d, Field::BodyExcerpt) == Some(
                FieldModel::Text(excerpt_of(sjis_text(data), 2048)),
            )
            &&& !text_extension(ext) ==> first_value(d, Field::Body) is None && first_value(
                d,
                Field::BodyExcerpt,
            ) is None
        }),
{
    let file = after_last(name, '/');
    let ext = uppered(after_last(file, '.'));
    let body = if text_extension(ext) {
        Some(sjis_text(data))
    } else {
        None
    };
    let f = FileModel {
        image_path: o.image_path,
        image_id: o.image_id,
        partition: o.partition,
        file_path: outer + "!/"@ + name,
        file_name: file,
        ext,
        size: data.len() as u64,
        mtime_unix: seconds as int,
        attr: seq!['-', '-', '-', '-', '-', 'A', '-'],
        body,
        excerpt: match body {
            Some(t) => Some(excerpt_of(t, 2048)),
            None => None,
        },
    };
    documents_of_files_have_their_fields(f);
    assert(member_document(o, outer, name, data, seconds) == crate::document::file_document(f));
}

/// The name of a member is Shift_JIS; one whose header gives no path has none. Its moment is
/// the one that its headers give, or zero.
pub proof fn members_have_names_and_moments(m: LzhMember)
    ensures
        m.has_path ==> member_name(m) == sjis_text(m.raw_name),
        !m.has_path ==> member_name(m).len() == 0,
        !time_overflows(m.extra_headers) ==> match m.modified {
            Modified::Utc(t) => seconds_of(m) == t,
            Modified::Naive(t) => seconds_of(m) == t,
            Modified::Unknown => seconds_of(m) == 0,
        },
        time_overflows(m.extra_headers) ==> seconds_of(m) == 0,
{
}

/// An archive is told by its name: it ends in `.lzh` or `.lha`, in capitals or small letters.
pub proof fn archives_are_told_by_name(name: Seq<char>)
    ensures
        names_archive(name) <==> name.len() >= 4 && (same_letters(
            name.skip(name.len() - 4),
            ".lzh"@,
        ) || same_letters(name.skip(name.len() - 4), ".lha"@)),
{
    reveal_strlit(".lzh");
    reveal_strlit(".lha");
    assert(lowered(".lzh"@) =~= ".lzh"@);
    assert(lowered(".lha"@) =~= ".lha"@);
    if name.len() >= 4 {
        let tail = name.skip(name.len() - 4);
        case_is_all_that_goes(tail, ".lzh"@);
        case_is_all_that_goes(tail, ".lha"@);
        assert(lowered(name).skip(name.len() - 4) =~= lowered(tail));
        assert(lowered(name).subrange(name.len() - 4, name.len() as int) =~= lowered(tail));
    }
}

/// The members of an archive are gone through in order. Directories, members that are too
/// large, and those that cannot be unpacked are passed over; the first member that would
/// bring the archive over its limit ends it. A member that is unpacked has its document, and
/// one that is an archive itself is followed by its own members, one level less deep.
pub proof fn members_are_gone_through_in_order(
    members: Seq<LzhMember>,
    i: int,
    expanded: int,
    o: Origin,
    outer: Seq<char>,
    depth: nat,
    opts: LzhOpts,
)
    requires
        0 <= i < members.len(),
        0 < depth,
        0 <= expanded,
    ensures
        ({
            let m = members[i];
            let here = documents_from(members, i, expanded, o, outer, depth, opts);
            let name = member_name(m);
            if m.directory || m.size > opts.max_member_size {
                here == documents_from(members, i + 1, expanded, o, outer, depth, opts)
            } else if expanded + m.size > opts.max_total_expansion {
                here.len() == 0
            } else if !m.supported || unpacked(m) is None {
                here == documents_from(members, i + 1, expanded, o, outer, depth, opts)
            } else {
                let data = unpacked(m)->0;
                let inner = archive_documents(
                    data,
                    o,
                    outer + "!/"@ + name,
                    (depth - 1) as nat,
                    opts,
                );
                let after = documents_from(
                    members,
                    i + 1,
                    if expanded + data.len() > u64::MAX {
                        u64::MAX as int
                    } else {
                        expanded + data.len()
                    },
                    o,
                    outer,
                    depth,
                    opts,
                );
                here == seq![member_document(o, outer, name, data, seconds_of(m))] + (if names_archive(
                    name,
                ) && inner is Ok {
                    inner->Ok_0
                } else {
                    Seq::empty()
                }) + after
            }
        }),
        documents_from(members, members.len() as int, expanded, o, outer, depth, opts).len() == 0,
{
}

/// An archive has the documents of its members; bytes that do not start with a header are
/// none. At depth zero nothing is looked at.
pub proof fn archives_have_the_documents_of_their_members(
    bytes: Seq<u8>,
    o: Origin,
    outer: Seq<char>,
    depth: nat,
    opts: LzhOpts,
)
    ensures
        depth == 0 ==> archive_documents(bytes, o, outer, depth, opts) is Ok && archive_documents(
            bytes,
            o,
            outer,
            depth,
            opts,
        )->Ok_0.len() == 0,
        depth > 0 && lzh_archive(bytes) is None ==> archive_documents(bytes, o, outer, depth, opts)
            is Err,
        depth > 0 ==> (lzh_archive(bytes) matches Some(members) ==> archive_documents(
            bytes,
            o,
            outer,
            depth,
            opts,
        ) == Ok::<Seq<Seq<(Field, FieldModel)>>, LzhError>(
            documents_from(members, 0, 0, o, outer, depth, opts),
        )),
{
}

/// A text without the slashes at its beginning.
proof fn slashes_go(s: Seq<char>, n: int)
    requires
        0 <= n <= s.len(),
        forall|i: int| 0 <= i < n ==> #[trigger] s[i] == '/',
        n < s.len() ==> s[n] != '/',
    ensures
        without_leading_slashes(s) == s.skip(n),
    decreases n,
{
    if n > 0 {
        assert(s[0] == '/');
        let rest = s.skip(1);
        assert forall|i: int| 0 <= i < n - 1 implies #[trigger] rest[i] == '/' by {
            assert(rest[i] == s[i + 1]);
        }
        slashes_go(rest, n - 1);
        assert(rest.skip(n - 1) =~= s.skip(n));
    } else {
        assert(s.skip(0) =~= s);
    }
}

/// A member is wanted where its name is the path that is asked for, the case of letters and
/// slashes in front aside; directories are not.
pub proof fn wanted_members_bear_the_name(m: LzhMember, name: Seq<char>, path: Seq<char>)
    requires
        member_name(m) == name,
        name.len() == 0 || name[0] != '/',
        path.len() == 0 || path[0] != '/',
    ensures
        crate::lzh::is_wanted(m, wanted_path(path)) <==> !m.directory && same_letters(name, path),
        wanted_path(seq!['/'] + path) == wanted_path(path),
{
    case_is_all_that_goes(name, path);
    slashes_go(lowered(name), 0);
    slashes_go(lowered(path), 0);
    assert(lowered(name).skip(0) =~= lowered(name));
    assert(lowered(path).skip(0) =~= lowered(path));
    assert(lowered(seq!['/'] + path).skip(1) =~= lowered(path));
}

proof fn the_first_wanted_member(members: Seq<LzhMember>, i: int, k: int, target: Seq<char>, cut: bool)
    requires
        0 <= i <= k <= members.len(),
        forall|j: int| i <= j < k ==> !crate::lzh::is_wanted(#[trigger] members[j], target),
        k < members.len() ==> crate::lzh::is_wanted(members[k], target),
    ensures
        member_from(members, i, target, cut) == member_from(members, k, target, cut),
    decreases k - i,
{
    if i < k {
        the_first_wanted_member(members, i + 1, k, target, cut);
    }
}

/// What is taken out of an archive is the data of the first member that is wanted, in full.
/// Where no member is wanted nothing is taken out.
pub proof fn the_first_wanted_member_is_taken_out(
    bytes: Seq<u8>,
    path: Seq<char>,
    members: Seq<LzhMember>,
    k: int,
)
    requires
        lzh_archive(bytes) == Some(members),
        0 <= k <= members.len(),
        forall|j: int|
            0 <= j < k ==> !crate::lzh::is_wanted(#[trigger] members[j], wanted_path(path)),
        k < members.len() ==> crate::lzh::is_wanted(members[k], wanted_path(path)),
    ensures
        k == members.len() ==> taken_out(bytes, path) == Err::<Seq<u8>, LzhError>(
            if lzh_cut_off(bytes) {
                LzhError::NextHeader
            } else {
                LzhError::NotFound
            },
        ),
        k < members.len() && !members[k].supported ==> taken_out(bytes, path) == Err::<
            Seq<u8>,
            LzhError,
        >(LzhError::Unsupported),
        k < members.len() && members[k].supported ==> match unpacked(members[k]) {
            Some(data) => taken_out(bytes, path) == Ok::<Seq<u8>, LzhError>(data),
            None => taken_out(bytes, path) == Err::<Seq<u8>, LzhError>(LzhError::Decode),
        },
{
    the_first_wanted_member(members, 0, k, wanted_path(path), lzh_cut_off(bytes));
}

/// The packed data of a member are so many bytes behind its header as the header says, or
/// what is left of the archive. Only the methods `-lh4-` to `-lh7-` and `-lhx-` have tables.
pub proof fn packed_data_follow_the_header(m: LzhMember)
    ensures
        packed_data(m).len() == if m.packed_size < m.rest.len() {
            m.packed_size as int
        } else {
            m.rest.len() as int
        },
        forall|i: int| 0 <= i < packed_data(m).len() ==> #[trigger] packed_data(m)[i] == m.rest[i],
        has_code_tables(m.method) <==> {
            ||| m.method =~= seq![45u8, 108, 104, 52, 45]
            ||| m.method =~= seq![45u8, 108, 104, 53, 45]
            ||| m.method =~= seq![45u8, 108, 104, 54, 45]
            ||| m.method =~= seq![45u8, 108, 104, 55, 45]
            ||| m.method =~= seq![45u8, 108, 104, 120, 45]
        },
{
}

/// A path is seen from a directory where it is that directory or lies below it.
pub proof fn paths_are_seen_from_above(base: Seq<char>, path: Seq<char>, rest: Seq<char>)
    ensures
        base.len() == 0 ==> seen_from(base, path) == Some(path),
        base.len() > 0 ==> (seen_from(base, path) == Some(rest) <==> (path == base && rest.len()
            == 0) || path == base + seq!['/'] + rest),
{
    if base.len() > 0 {
        if path == base + seq!['/'] + rest {
            crate::glob::paths_go_together_again(base, rest);
        }
        if seen_from(base, path) == Some(rest) && path != base {
            assert(path.take(base.len() as int) == base);
            assert(path =~= path.take(base.len() as int) + seq!['/'] + path.skip(
                base.len() as int + 1,
            ));
        }
        if path == base && rest.len() == 0 {
            assert(rest =~= Seq::<char>::empty());
        }
    }
}

/// The signs of a pattern: a star stands for any characters, a question mark for any one,
/// and everything else for itself.
pub proof fn patterns_have_two_signs(pattern: Seq<char>, name: Seq<char>, c: char, d: char)
    ensures
        fits(Seq::empty(), name) <==> name.len() == 0,
        fits(seq!['*'] + pattern, name) <==> exists|k: int|
            0 <= k <= name.len() && fits(pattern, #[trigger] name.skip(k)),
        fits(seq!['?'] + pattern, seq![c] + name) <==> fits(pattern, name),
        !fits(seq!['?'] + pattern, Seq::empty()),
        d != '*' && d != '?' ==> (fits(seq![d] + pattern, seq![c] + name) <==> c == d && fits(
            pattern,
            name,
        )),
{
    assert((seq!['*'] + pattern).skip(1) =~= pattern);
    assert((seq!['?'] + pattern).skip(1) =~= pattern);
    assert((seq![d] + pattern).skip(1) =~= pattern);
    assert((seq![c] + name).skip(1) =~= name);
}

/// A search by name shows the files whose full names fit, in the directory that is searched
/// or below; directories only where they are wanted.
pub proof fn searches_show_what_fits(
    path: Seq<char>,
    e: DirEntryModel,
    scope: Seq<char>,
    pattern: Seq<char>,
    ignore_case: bool,
    include_dirs: bool,
)
    ensures
        is_match((path, e), scope, pattern, ignore_case, include_dirs) <==> {
            &&& scope.len() == 0 || path == scope || exists|rest: Seq<char>|
                path == #[trigger] (scope + seq!['/'] + rest)
            &&& include_dirs || e.attr.bits & 0x10 != 0x10
            &&& fits_in_case(pattern, full_name(e), ignore_case)
        },
{
    if scope.len() > 0 {
        if let Some(rest) = seen_from(scope, path) {
            paths_are_seen_from_above(scope, path, rest);
            if path != scope {
                assert(path == scope + seq!['/'] + rest);
            }
        }
        if exists|rest: Seq<char>| path == #[trigger] (scope + seq!['/'] + rest) {
            let rest = choose|rest: Seq<char>| path == #[trigger] (scope + seq!['/'] + rest);
            paths_are_seen_from_above(scope, path, rest);
        }
    }
}

/// What is copied with a directory: all entries below it, in their order, under their paths
/// as they are seen from there; a file that is asked for itself, under an empty path.
pub proof fn copies_take_what_is_below(
    items: Seq<(Seq<char>, DirEntryModel)>,
    base: Seq<char>,
    path: Seq<char>,
    e: DirEntryModel,
)
    ensures
        entries_below(Seq::empty(), base).len() == 0,
        match seen_from(base, path) {
            Some(rest) => if rest.len() == 0 && e.attr.bits & 0x10 == 0x10 {
                entries_below(items.push((path, e)), base) == entries_below(items, base)
            } else {
                entries_below(items.push((path, e)), base) == entries_below(items, base).push(
                    (rest, e),
                )
            },
            None => entries_below(items.push((path, e)), base) == entries_below(items, base),
        },
{
    assert(items.push((path, e)).drop_last() =~= items);
}

/// A listing of a directory leaves out the directory itself and its parent, and deleted
/// entries unless they are wanted.
pub proof fn listings_leave_out_dots(entries: Seq<DirEntryModel>, deleted: bool, e: DirEntryModel)
    ensures
        listed_of(entries.push(e), deleted) == if e.name != "."@ && e.name != ".."@ && (deleted
            || e.kind != EntryKind::Deleted) {
            listed_of(entries, deleted).push(e)
        } else {
            listed_of(entries, deleted)
        },
{
    reveal(Seq::filter);
    assert(entries.push(e).drop_last() =~= entries);
}

/// Whether a character cannot stand in a name on every host.
pub open spec fn is_reserved(c: char) -> bool {
    ||| (c as u32) < 32
    ||| c == '/'
    ||| c == '\\'
    ||| c == ':'
    ||| c == '*'
    ||| c == '?'
    ||| c == '"'
    ||| c == '<'
    ||| c == '>'
    ||| c == '|'
}

proof fn tail_goes(name: Seq<char>, n: int)
    requires
        0 <= n <= name.len(),
        forall|i: int| n <= i < name.len() ==> #[trigger] name[i] == '.' || name[i] == ' ',
        n > 0 ==> name[n - 1] != '.' && name[n - 1] != ' ',
    ensures
        without_tail(name) == name.take(n),
    decreases name.len(),
{
    if n < name.len() {
        let head = name.drop_last();
        assert(name.last() == name[name.len() - 1]);
        assert forall|i: int| n <= i < head.len() implies #[trigger] head[i] == '.' || head[i]
            == ' ' by {
            assert(head[i] == name[i]);
        }
        tail_goes(head, n);
        assert(head.take(n) =~= name.take(n));
    } else {
        assert(name.take(n) =~= name);
    }
}

/// A name is made safe by underscores for reserved characters and without the dots and
/// spaces at its end; a name of which nothing is left is an underscore.
pub proof fn names_are_made_safe(name: Seq<char>, n: int)
    requires
        0 <= n <= name.len(),
        forall|i: int| n <= i < name.len() ==> #[trigger] name[i] == '.' || name[i] == ' ',
        n > 0 ==> name[n - 1] != '.' && name[n - 1] != ' ',
    ensures
        n == 0 ==> safe_name(name) == seq!['_'],
        n > 0 ==> safe_name(name).len() == n && forall|i: int|
            0 <= i < n ==> #[trigger] safe_name(name)[i] == if is_reserved(name[i]) {
                '_'
            } else {
                name[i]
            },
{
    let r = replaced(name);
    assert forall|i: int| n <= i < r.len() implies #[trigger] r[i] == '.' || r[i] == ' ' by {
        assert(name[i] == '.' || name[i] == ' ');
    }
    if n > 0 {
        assert(r[n - 1] != '.' && r[n - 1] != ' ');
    }
    tail_goes(r, n);
    assert(r.take(n).len() == n);
    assert forall|i: int| 0 <= i < n implies #[trigger] r.take(n)[i] == if is_reserved(name[i]) {
        '_'
    } else {
        name[i]
    } by {
        assert(is_reserved(name[i]) == crate::export::is_forbidden(name[i]));
    }
}

/// A path on the host is its root with the safe form of each name behind it.
pub proof fn paths_are_made_of_safe_names(root: Seq<char>, parts: Seq<Seq<char>>, n: int)
    requires
        0 <= n < parts.len(),
    ensures
        safe_path(root, parts, 0) == root,
        components(safe_path(root, parts, n + 1)) == components(safe_path(root, parts, n)).push(
            safe_name(parts[n]),
        ),
{
    crate::export::safe_names_are_safe(parts[n]);
    let name = safe_name(parts[n]);
    assert(!name.contains('/')) by {
        if name.contains('/') {
            let i = choose|i: int| 0 <= i < name.len() && name[i] == '/';
            assert(!crate::export::is_forbidden(name[i]));
        }
    }
    names_are_put_behind_a_slash(safe_path(root, parts, n), name);
}

/// The moment of a member is given by the first extra header that has one. In a header of
/// Windows it is counted from the beginning of 1601, ten million to a second; before 1970 and
/// between two seconds it cannot be told.
pub proof fn moments_of_windows_are_counted_from_1601(h: Seq<u8>, rest: Seq<Seq<u8>>)
    ensures
        !time_overflows(Seq::empty()),
        h.len() == 25 && h[0] == 65 ==> (time_overflows(seq![h] + rest) <==> ({
            let t = lowest_first(h, 9) + 4_294_967_296 * lowest_first(h, 13);
            t < 10_000_000 * 11_644_473_600 && t % 10_000_000 != 0
        })),
        h.len() >= 5 && h[0] == 84 ==> !time_overflows(seq![h] + rest),
        h.len() == 0 || (h[0] != 65 && h[0] != 84) || (h[0] == 65 && h.len() != 25) || (h[0] == 84
            && h.len() < 5) ==> time_overflows(seq![h] + rest) == time_overflows(rest),
{
    assert((seq![h] + rest).skip(1) =~= rest);
    assert((seq![h] + rest)[0] == h);
}

/// Whether a bit of packed data is a one, counted from the highest bit of the first byte on.
pub open spec fn is_one(b: Seq<u8>, i: int) -> bool {
    (b[i / 8] >> ((7 - i % 8) as u8)) & 1u8 == 1u8
}

/// Whether somewhere in packed data a zero follows 251 ones.
pub open spec fn has_long_run(b: Seq<u8>) -> bool {
    exists|p: int|
        251 <= p < 8 * b.len() && !(#[trigger] is_one(b, p)) && forall|j: int|
            p - 251 <= j < p ==> #[trigger] is_one(b, j)
}

/// What comes out of a member is given out, unless a table of its packed data has a code
/// length that no table can have. That takes a zero behind 251 ones.
pub proof fn members_give_what_comes_out(m: LzhMember)
    ensures
        !has_code_tables(m.method) ==> unpacked(m) == m.data,
        !has_long_run(packed_data(m)) ==> unpacked(m) == m.data,
        unpacked(m) is Some ==> unpacked(m) == m.data,
{
    let b = packed_data(m);
    if decoder_overflows(m.method, m.size, b) {
        let p = choose|p: int| #[trigger] long_code_ends(b, p) && overflows_at(m.method, m.size, b, p);
        assert(!is_one(b, p)) by {
            assert(!bit_of(b, p));
        }
        assert forall|j: int| p - 251 <= j < p implies #[trigger] is_one(b, j) by {
            assert(bit_of(b, j));
        }
        assert(has_long_run(b));
    }
}

/// A zero behind 251 ones is a code length where the decoder takes it for one: with ones in
/// place of the zero and of what follows in its byte, the decoder speaks of an overflow.
pub proof fn long_runs_count_where_the_decoder_counts_them(
    m: LzhMember,
    p: int,
    filled: Seq<u8>,
)
    requires
        has_code_tables(m.method),
        251 <= p < 8 * packed_data(m).len(),
        !is_one(packed_data(m), p),
        forall|j: int| p - 251 <= j < p ==> #[trigger] is_one(packed_data(m), j),
        filled.len() == p / 8 + 1,
        forall|j: int| 0 <= j < p ==> #[trigger] is_one(filled, j) == is_one(packed_data(m), j),
        forall|j: int| p <= j < 8 * filled.len() ==> #[trigger] is_one(filled, j),
        unpacking_words(m.method, m.size, filled) == Some("code length overflow"@),
    ensures
        unpacked(m) is None,
{
    let b = packed_data(m);
    let made = filled_from(b, p);
    assert(long_code_ends(b, p)) by {
        assert(!bit_of(b, p)) by {
            assert(!is_one(b, p));
        }
        assert forall|j: int| p - 251 <= j < p implies #[trigger] bit_of(b, j) by {
            assert(is_one(b, j));
        }
    }
    assert forall|k: int| 0 <= k < made.len() implies filled[k] == #[trigger] made[k] by {
        assert forall|s: int| 0 <= s < 8 implies #[trigger] is_one(filled, 8 * k + s) == is_one(
            made,
            8 * k + s,
        ) by {
            let j = 8 * k + s;
            assert(j / 8 == k && j % 8 == s);
            if k == p / 8 {
                filling_keeps_the_bits_before(b[k], (p % 8) as u8, s as u8);
            }
            assert(is_one(filled, j) == (if j < p { is_one(b, j) } else { true }));
        }
        assert(is_one(filled, 8 * k + 0) == is_one(made, 8 * k + 0));
        assert(is_one(filled, 8 * k + 1) == is_one(made, 8 * k + 1));
        assert(is_one(filled, 8 * k + 2) == is_one(made, 8 * k + 2));
        assert(is_one(filled, 8 * k + 3) == is_one(made, 8 * k + 3));
        assert(is_one(filled, 8 * k + 4) == is_one(made, 8 * k + 4));
        assert(is_one(filled, 8 * k + 5) == is_one(made, 8 * k + 5));
        assert(is_one(filled, 8 * k + 6) == is_one(made, 8 * k + 6));
        assert(is_one(filled, 8 * k + 7) == is_one(made, 8 * k + 7));
        bytes_are_their_bits(filled[k], made[k]);
    }
    assert(filled =~= made);
    assert(overflows_at(m.method, m.size, b, p));
}

proof fn filling_keeps_the_bits_before(x: u8, from: u8, s: u8)
    requires
        from < 8,
        s < 8,
    ensures
        s < from ==> ((x | (0xffu8 >> from)) >> ((7 - s) as u8)) & 1u8 == (x >> ((7 - s) as u8))
            & 1u8,
        s >= from ==> ((x | (0xffu8 >> from)) >> ((7 - s) as u8)) & 1u8 == 1u8,
{
    let t = (7 - s) as u8;
    assert(s < from ==> ((x | (0xffu8 >> from)) >> t) & 1u8 == (x >> t) & 1u8) by (bit_vector)
        requires
            from < 8,
            s < 8,
            t == 7u8 - s,
    ;
    assert(s >= from ==> ((x | (0xffu8 >> from)) >> t) & 1u8 == 1u8) by (bit_vector)
        requires
            from < 8,
            s < 8,
            t == 7u8 - s,
    ;
}

proof fn bytes_are_their_bits(a: u8, b: u8)
    requires
        (a >> 7u8) & 1u8 == 1u8 <==> (b >> 7u8) & 1u8 == 1u8,
        (a >> 6u8) & 1u8 == 1u8 <==> (b >> 6u8) & 1u8 == 1u8,
        (a >> 5u8) & 1u8 == 1u8 <==> (b >> 5u8) & 1u8 == 1u8,
        (a >> 4u8) & 1u8 == 1u8 <==> (b >> 4u8) & 1u8 == 1u8,
        (a >> 3u8) & 1u8 == 1u8 <==> (b >> 3u8) & 1u8 == 1u8,
        (a >> 2u8) & 1u8 == 1u8 <==> (b >> 2u8) & 1u8 == 1u8,
        (a >> 1u8) & 1u8 == 1u8 <==> (b >> 1u8) & 1u8 == 1u8,
        (a >> 0u8) & 1u8 == 1u8 <==> (b >> 0u8) & 1u8 == 1u8,
    ensures
        a == b,
{
    assert(a == b) by (bit_vector)
        requires
            (a >> 7u8) & 1u8 == 1u8 <==> (b >> 7u8) & 1u8 == 1u8,
            (a >> 6u8) & 1u8 == 1u8 <==> (b >> 6u8) & 1u8 == 1u8,
            (a >> 5u8) & 1u8 == 1u8 <==> (b >> 5u8) & 1u8 == 1u8,
            (a >> 4u8) & 1u8 == 1u8 <==> (b >> 4u8) & 1u8 == 1u8,
            (a >> 3u8) & 1u8 == 1u8 <==> (b >> 3u8) & 1u8 == 1u8,
            (a >> 2u8) & 1u8 == 1u8 <==> (b >> 2u8) & 1u8 == 1u8,
            (a >> 1u8) & 1u8 == 1u8 <==> (b >> 1u8) & 1u8 == 1u8,
            (a >> 0u8) & 1u8 == 1u8 <==> (b >> 0u8) & 1u8 == 1u8,
    ;
}

} // verus!
