//! Patterns for names of files, and paths below a directory.

use crate::codec::{lower_cased, lowercase_text};
use crate::text::{from_chars, same_chars, to_chars};
use vstd::prelude::*;

verus! {

/// Whether a name fits a pattern: `*` stands for any characters, also for none,
/// `?` for any one character, and every other character for itself.
pub open spec fn fits(pattern: Seq<char>, name: Seq<char>) -> bool
    decreases pattern.len(),
{
    if pattern.len() == 0 {
        name.len() == 0
    } else if pattern[0] == '*' {
        exists|k: int| 0 <= k <= name.len() && fits(pattern.skip(1), #[trigger] name.skip(k))
    } else {
        &&& name.len() > 0
        &&& pattern[0] == '?' || pattern[0] == name[0]
        &&& fits(pattern.skip(1), name.skip(1))
    }
}

/// Whether the rest of a name fits the rest of a pattern.
fn glob_inner(p: &[char], pi: usize, n: &[char], ni: usize) -> (r: bool)
    requires
        pi <= p@.len(),
        ni <= n@.len(),
    ensures
        r == fits(p@.skip(pi as int), n@.skip(ni as int)),
    decreases p@.len() - pi,
{
    let ghost rest = p@.skip(pi as int);
    let ghost name = n@.skip(ni as int);
    if pi == p.len() {
        return ni == n.len();
    }
    assert(rest.skip(1) =~= p@.skip(pi + 1));
    assert(rest[0] == p@[pi as int]);
    let c: char = p[pi];
    if c == '*' {
        let mut k: usize = ni;
        loop
            invariant
                pi < p.len(),
                ni <= k <= n@.len(),
                rest == p@.skip(pi as int),
                rest.skip(1) == p@.skip(pi + 1),
                rest[0] == '*',
                name == n@.skip(ni as int),
                forall|j: int|
                    0 <= j < k - ni ==> !fits(rest.skip(1), #[trigger] name.skip(j)),
            decreases n@.len() - k,
        {
            assert(name.skip(k - ni) =~= n@.skip(k as int));
            if glob_inner(p, pi + 1, n, k) {
                return true;
            }
            if k == n.len() {
                return false;
            }
            k = k + 1;
        }
    }
    if ni == n.len() {
        return false;
    }
    assert(name.skip(1) =~= n@.skip(ni + 1));
    assert(name[0] == n@[ni as int]);
    (c == '?' || c == n[ni]) && glob_inner(p, pi + 1, n, ni + 1)
}

/// Whether a name fits a pattern, in lower case where case does not matter.
pub open spec fn fits_in_case(pattern: Seq<char>, name: Seq<char>, ignore_case: bool) -> bool {
    if ignore_case {
        fits(lowercase_text(pattern), lowercase_text(name))
    } else {
        fits(pattern, name)
    }
}

/// Whether characters fit a pattern.
pub fn chars_fit(pattern: &[char], name: &[char]) -> (r: bool)
    ensures
        r == fits(pattern@, name@),
{
    assert(pattern@.skip(0) =~= pattern@);
    assert(name@.skip(0) =~= name@);
    glob_inner(pattern, 0, name, 0)
}

/// Whether a name fits a pattern.
pub fn glob_match(pattern: &str, name: &str, ignore_case: bool) -> (r: bool)
    ensures
        r == fits_in_case(pattern@, name@, ignore_case),
{
    if ignore_case {
        let p: Vec<char> = to_chars(lower_cased(pattern).as_str());
        let n: Vec<char> = to_chars(lower_cased(name).as_str());
        chars_fit(p.as_slice(), n.as_slice())
    } else {
        let p: Vec<char> = to_chars(pattern);
        let n: Vec<char> = to_chars(name);
        chars_fit(p.as_slice(), n.as_slice())
    }
}

/// A pattern without signs fits itself and nothing else.
pub proof fn plain_patterns_fit_themselves(pattern: Seq<char>, name: Seq<char>)
    requires
        !pattern.contains('*'),
        !pattern.contains('?'),
    ensures
        fits(pattern, name) == (pattern == name),
    decreases pattern.len(),
{
    if pattern.len() > 0 {
        assert(pattern.contains(pattern[0]));
        if name.len() > 0 {
            assert forall|c: char| pattern.skip(1).contains(c) implies pattern.contains(c) by {
                let i = choose|i: int| 0 <= i < pattern.len() - 1 && pattern.skip(1)[i] == c;
                assert(pattern[i + 1] == c);
            }
            plain_patterns_fit_themselves(pattern.skip(1), name.skip(1));
            if pattern[0] == name[0] && pattern.skip(1) == name.skip(1) {
                assert(pattern =~= seq![pattern[0]] + pattern.skip(1));
                assert(name =~= seq![name[0]] + name.skip(1));
            }
        }
    } else if name.len() == 0 {
        assert(pattern =~= name);
    }
}

/// A star at the beginning fits any beginning.
pub proof fn stars_fit_any_beginning(pattern: Seq<char>, start: Seq<char>, name: Seq<char>)
    requires
        fits(pattern, name),
    ensures
        fits(seq!['*'] + pattern, start + name),
{
    let starred = seq!['*'] + pattern;
    let whole = start + name;
    assert(starred.skip(1) =~= pattern);
    assert(whole.skip(start.len() as int) =~= name);
}

/// A star at the end fits any end.
pub proof fn stars_fit_any_end(pattern: Seq<char>, name: Seq<char>, end: Seq<char>)
    requires
        fits(pattern, name),
    ensures
        fits(pattern + seq!['*'], name + end),
    decreases pattern.len(),
{
    let starred = pattern + seq!['*'];
    let whole = name + end;
    if pattern.len() == 0 {
        assert(starred.skip(1) =~= Seq::<char>::empty());
        assert(fits(starred.skip(1), whole.skip(whole.len() as int)));
    } else {
        assert(starred.skip(1) =~= pattern.skip(1) + seq!['*']);
        assert(starred[0] == pattern[0]);
        if pattern[0] == '*' {
            let k = choose|k: int|
                0 <= k <= name.len() && fits(pattern.skip(1), #[trigger] name.skip(k));
            stars_fit_any_end(pattern.skip(1), name.skip(k), end);
            assert(whole.skip(k) =~= name.skip(k) + end);
        } else {
            stars_fit_any_end(pattern.skip(1), name.skip(1), end);
            assert(whole.skip(1) =~= name.skip(1) + end);
        }
    }
}

/// Whether a path is that of something below a directory.
pub open spec fn is_below(base: Seq<char>, path: Seq<char>) -> bool {
    base.len() < path.len() && path.take(base.len() as int) == base && path[base.len() as int]
        == '/'
}

/// The path as it is seen from a directory; none where it lies elsewhere.
pub open spec fn seen_from(base: Seq<char>, path: Seq<char>) -> Option<Seq<char>> {
    if base.len() == 0 {
        Some(path)
    } else if path == base {
        Some(Seq::empty())
    } else if is_below(base, path) {
        Some(path.skip(base.len() as int + 1))
    } else {
        None
    }
}

/// The path as it is seen from a directory; none where it lies elsewhere.
pub fn relative_path(base: &str, path: &str) -> (r: Option<String>)
    ensures
        match r {
            Some(s) => seen_from(base@, path@) == Some(s@),
            None => seen_from(base@, path@) is None,
        },
{
    let b: Vec<char> = to_chars(base);
    let p: Vec<char> = to_chars(path);
    if b.len() == 0 {
        return Some(from_chars(p.as_slice()));
    }
    if same_chars(b.as_slice(), p.as_slice()) {
        let none: Vec<char> = Vec::new();
        assert(none@ =~= Seq::<char>::empty());
        return Some(from_chars(none.as_slice()));
    }
    if b.len() < p.len() && p[b.len()] == '/' && same_chars(
        b.as_slice(),
        vstd::slice::slice_subrange(p.as_slice(), 0, b.len()),
    ) {
        assert(p@.subrange(0, b@.len() as int) =~= p@.take(b@.len() as int));
        assert(p@.subrange(b@.len() as int + 1, p@.len() as int) =~= p@.skip(b@.len() as int + 1));
        return Some(
            from_chars(vstd::slice::slice_subrange(p.as_slice(), b.len() + 1, p.len())),
        );
    }
    assert(p@.len() > b@.len() ==> p@.subrange(0, b@.len() as int) =~= p@.take(b@.len() as int));
    None
}

/// A path below a directory is put together again from the directory and the
/// path as it is seen from there.
pub proof fn paths_go_together_again(base: Seq<char>, rest: Seq<char>)
    requires
        base.len() > 0,
    ensures
        seen_from(base, base + seq!['/'] + rest) == Some(rest),
{
    let path = base + seq!['/'] + rest;
    assert(path.take(base.len() as int) =~= base);
    assert(path.skip(base.len() as int + 1) =~= rest);
}

} // verus!
