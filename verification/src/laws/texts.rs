//! How texts, names and paths are taken apart.

use crate::path::{extension_of, file_name_of, name_extension, name_stem, rfind_char, with_name};
use crate::text::{components, components_of_joined, end_trimmed, find_char_unique, has_part,
    is_white, lines_of, start_trimmed, text_at, text_le, trimmed};
use crate::text_norm::{collapsed, is_plain, joined_from_front, word_length_unique, words_of};
use vstd::prelude::*;

verus! {

/// Whether a text is white space and nothing else.
pub open spec fn all_white(s: Seq<char>) -> bool {
    forall|i: int| 0 <= i < s.len() ==> is_white(#[trigger] s[i])
}

/// Whether a text has no white space at its ends.
pub open spec fn is_bare(s: Seq<char>) -> bool {
    s.len() > 0 ==> !is_white(s[0]) && !is_white(s.last())
}

proof fn white_start_goes(before: Seq<char>, s: Seq<char>)
    requires
        all_white(before),
        s.len() == 0 || !is_white(s[0]),
    ensures
        start_trimmed(before + s) == s,
    decreases before.len(),
{
    if before.len() > 0 {
        assert(is_white(before[0]));
        assert((before + s).skip(1) =~= before.skip(1) + s);
        assert forall|i: int| 0 <= i < before.skip(1).len() implies is_white(
            #[trigger] before.skip(1)[i],
        ) by {
            assert(is_white(before[i + 1]));
        }
        white_start_goes(before.skip(1), s);
    } else {
        assert(before + s =~= s);
    }
}

proof fn white_end_goes(s: Seq<char>, after: Seq<char>)
    requires
        all_white(after),
        s.len() == 0 || !is_white(s.last()),
    ensures
        end_trimmed(s + after) == s,
    decreases after.len(),
{
    if after.len() > 0 {
        assert(is_white(after.last()));
        assert((s + after).drop_last() =~= s + after.drop_last());
        white_end_goes(s, after.drop_last());
    } else {
        assert(s + after =~= s);
    }
}

/// Trimming takes the white space around a text away and nothing else.
pub proof fn trimming_takes_white_space_away(before: Seq<char>, s: Seq<char>, after: Seq<char>)
    requires
        all_white(before),
        all_white(after),
        is_bare(s),
    ensures
        trimmed(before + s + after) == s,
        end_trimmed(s + after) == s,
{
    if s.len() == 0 {
        let all = before + after;
        assert(before + s + after =~= all + s);
        assert forall|i: int| 0 <= i < all.len() implies is_white(#[trigger] all[i]) by {
            if i < before.len() {
                assert(is_white(before[i]));
            } else {
                assert(is_white(after[i - before.len()]));
            }
        }
        white_start_goes(all, s);
    } else {
        assert(before + s + after =~= before + (s + after));
        white_start_goes(before, s + after);
    }
    white_end_goes(s, after);
}

/// A part stands in a text where the text is something, the part, and something again.
pub proof fn parts_stand_in_the_middle(s: Seq<char>, part: Seq<char>)
    ensures
        has_part(s, part) <==> exists|a: Seq<char>, b: Seq<char>| s == #[trigger] (a + part + b),
{
    if has_part(s, part) {
        let at = choose|at: int| #[trigger] text_at(s, at, part);
        let a = s.take(at);
        let b = s.skip(at + part.len());
        assert(s =~= a + part + b) by {
            assert forall|i: int| 0 <= i < s.len() implies s[i] == (a + part + b)[i] by {
                if at <= i < at + part.len() {
                    assert(s.subrange(at, at + part.len())[i - at] == part[i - at]);
                }
            }
        }
    }
    if exists|a: Seq<char>, b: Seq<char>| s == #[trigger] (a + part + b) {
        let (a, b) = choose|a: Seq<char>, b: Seq<char>| s == #[trigger] (a + part + b);
        assert(s.subrange(a.len() as int, a.len() as int + part.len()) =~= part);
        assert(text_at(s, a.len() as int, part));
    }
}

/// Texts are ordered by their first difference, and a text comes after its beginnings.
pub proof fn the_first_difference_decides(common: Seq<char>, a: Seq<char>, b: Seq<char>)
    requires
        a.len() == 0 || b.len() == 0 || a[0] != b[0],
    ensures
        text_le(common + a, common + b) <==> a.len() == 0 || (b.len() > 0 && a[0] < b[0]),
    decreases common.len(),
{
    if common.len() > 0 {
        assert((common + a).skip(1) =~= common.skip(1) + a);
        assert((common + b).skip(1) =~= common.skip(1) + b);
        the_first_difference_decides(common.skip(1), a, b);
    } else {
        assert(common + a =~= a);
        assert(common + b =~= b);
    }
}

/// The last place of a character is one behind which it does not occur.
pub proof fn the_last_place_is_found(s: Seq<char>, c: char)
    ensures
        -1 <= rfind_char(s, c) < s.len(),
        rfind_char(s, c) >= 0 ==> s[rfind_char(s, c)] == c,
        forall|i: int| rfind_char(s, c) < i < s.len() ==> #[trigger] s[i] != c,
    decreases s.len(),
{
    if s.len() > 0 && s.last() != c {
        the_last_place_is_found(s.drop_last(), c);
        assert forall|i: int| rfind_char(s, c) < i < s.len() implies #[trigger] s[i] != c by {
            if i < s.len() - 1 {
                assert(s.drop_last()[i] == s[i]);
            }
        }
    }
}

/// A name is a stem and, after its last dot, an extension, unless that dot comes first.
pub proof fn names_are_stem_and_extension(stem: Seq<char>, ext: Seq<char>)
    requires
        stem.len() > 0,
        !ext.contains('.'),
    ensures
        name_extension(stem + seq!['.'] + ext) == Some(ext),
        name_stem(stem + seq!['.'] + ext) == stem,
        !stem.contains('.') ==> name_extension(stem) is None && name_stem(stem) == stem,
{
    let name = stem + seq!['.'] + ext;
    the_last_place_is_found(name, '.');
    let k = rfind_char(name, '.');
    if k > stem.len() {
        assert(ext[k - stem.len() - 1] == '.');
    }
    assert(name[stem.len() as int] == '.');
    assert(name.skip(k + 1) =~= ext);
    assert(name.take(k) =~= stem);
    the_last_place_is_found(stem, '.');
}

proof fn one_part(name: Seq<char>)
    requires
        name.len() > 0,
        !name.contains('/'),
    ensures
        components(name) == seq![name],
{
    assert forall|i: int| 0 <= i < name.len() implies #[trigger] name[i] != '/' by {
        if name[i] == '/' {
            assert(name.contains('/'));
        }
    }
    find_char_unique(name, '/', name.len() as int);
    assert(name.take(name.len() as int) =~= name);
    assert(components(name) =~= seq![name]);
}

/// The parts of a path: a name is one part, and a slash separates what is before it from
/// what is behind.
pub proof fn paths_are_names_between_slashes(base: Seq<char>, name: Seq<char>)
    requires
        name.len() > 0,
        !name.contains('/'),
    ensures
        components(name) == seq![name],
        components(base + seq!['/'] + name) == components(base).push(name),
        components(Seq::empty()) == Seq::<Seq<char>>::empty(),
{
    one_part(name);
    components_of_joined(base, name);
    assert(components(base) + seq![name] =~= components(base).push(name));
    assert(components(Seq::<char>::empty()) =~= Seq::empty());
}

/// A path leads to the file that its last name says, and has the extension of that name.
pub proof fn paths_lead_to_their_last_name(base: Seq<char>, name: Seq<char>)
    requires
        name.len() > 0,
        !name.contains('/'),
        name != "."@,
        name != ".."@,
    ensures
        file_name_of(name) == Some(name),
        file_name_of(base + seq!['/'] + name) == Some(name),
        extension_of(base + seq!['/'] + name) == name_extension(name),
{
    paths_are_names_between_slashes(base, name);
    let all = components(base).push(name);
    assert(all.last() == name);
    assert(seq![name].last() == name);
}

/// A name is put behind a path with one slash between them.
pub proof fn names_are_put_behind_a_slash(base: Seq<char>, name: Seq<char>)
    requires
        name.len() > 0,
        !name.contains('/'),
    ensures
        components(with_name(base, name)) == components(base).push(name),
{
    paths_are_names_between_slashes(base, name);
    if base.len() == 0 {
        assert(base + name =~= name);
        assert(components(base) =~= Seq::empty());
        assert(components(base).push(name) =~= seq![name]);
    } else if base.last() == '/' {
        let dir = base.drop_last();
        assert(base =~= dir + seq!['/']);
        crate::text::components_ignore_trailing_slash(dir);
        paths_are_names_between_slashes(dir, name);
        assert(base + name =~= dir + seq!['/'] + name);
    }
}

/// Lines end with a line feed, before which a carriage return does not count; the last one
/// may end with the text.
pub proof fn lines_end_with_line_feeds(line: Seq<char>, rest: Seq<char>)
    requires
        !line.contains('\n'),
    ensures
        line.len() == 0 || line.last() != '\r' ==> lines_of(line + seq!['\n'] + rest) == seq![line]
            + lines_of(rest),
        lines_of(line + seq!['\r', '\n'] + rest) == seq![line] + lines_of(rest),
        line.len() > 0 ==> lines_of(line) == seq![line],
        lines_of(Seq::empty()) == Seq::<Seq<char>>::empty(),
{
    assert forall|i: int| 0 <= i < line.len() implies #[trigger] line[i] != '\n' by {
        if line[i] == '\n' {
            assert(line.contains('\n'));
        }
    }
    let n = line.len() as int;
    let plain = line + seq!['\n'] + rest;
    find_char_unique(plain, '\n', n);
    assert(plain.take(n) =~= line);
    assert(plain.skip(n + 1) =~= rest);
    let returned = line + seq!['\r', '\n'] + rest;
    assert forall|i: int| 0 <= i < n + 1 implies #[trigger] returned[i] != '\n' by {
        if i < n {
            assert(returned[i] == line[i]);
        }
    }
    find_char_unique(returned, '\n', n + 1);
    assert(returned.take(n + 1) =~= line.push('\r'));
    assert(returned.take(n + 1).drop_last() =~= line);
    assert(returned.skip(n + 2) =~= rest);
    find_char_unique(line, '\n', n);
}

/// The words of a text stand between white space; a text is collapsed to its words with
/// one space between them.
pub proof fn words_stand_between_white_space(gap: Seq<char>, word: Seq<char>, rest: Seq<char>)
    requires
        all_white(gap),
        word.len() > 0,
        is_plain(word),
        rest.len() == 0 || is_white(rest[0]),
    ensures
        words_of(gap + word + rest) == seq![word] + words_of(rest),
        all_white(rest) ==> collapsed(gap + word + rest) == word,
        words_of(rest).len() > 0 ==> collapsed(gap + word + rest) == word + seq![' '] + collapsed(
            rest,
        ),
{
    let t = word + rest;
    assert(gap + word + rest =~= gap + t);
    assert(t[0] == word[0]);
    white_start_goes(gap, t);
    assert forall|i: int| 0 <= i < word.len() implies !is_white(#[trigger] t[i]) by {
        assert(t[i] == word[i]);
    }
    assert(t.len() == word.len() + rest.len());
    if rest.len() > 0 {
        assert(t[word.len() as int] == rest[0]);
    }
    word_length_unique(t, word.len() as int);
    assert(t.take(word.len() as int) =~= word);
    assert(t.skip(word.len() as int) =~= rest);
    let all = words_of(gap + word + rest);
    assert(all =~= seq![word] + words_of(rest));
    if all_white(rest) {
        white_start_goes(rest, Seq::empty());
        assert(rest + Seq::<char>::empty() =~= rest);
        assert(words_of(rest) =~= Seq::empty());
        assert(all =~= seq![word]);
    }
    if words_of(rest).len() > 0 {
        joined_from_front(all, seq![' ']);
        assert(all.skip(1) =~= words_of(rest));
    }
}

/// A dot at the very beginning of a name starts no extension.
pub proof fn names_with_a_leading_dot_have_no_extension(rest: Seq<char>)
    requires
        !rest.contains('.'),
    ensures
        name_extension(seq!['.'] + rest) is None,
        name_stem(seq!['.'] + rest) == seq!['.'] + rest,
{
    let name = seq!['.'] + rest;
    the_last_place_is_found(name, '.');
    let k = rfind_char(name, '.');
    if k > 0 {
        assert(rest[k - 1] == '.');
    }
}

} // verus!
