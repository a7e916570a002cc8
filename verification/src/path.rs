//! Host paths, written with slashes.
//!
//! A path is a list of names between slashes; empty names and single dots do not
//! count. Where a host writes paths otherwise, they are given here with slashes.

use crate::sort::{in_order, is_order, models, order_of, sort, sorted_by, sorting_keeps_all,
    sorting_puts_in_order, Sortable};
use crate::text::{comes_first, components, from_chars, same_text, split_path, text_le,
    text_order_is_total, text_order_is_transitive, texts, to_chars};
use vstd::prelude::*;
use vstd::string::StringExecFns;

verus! {

/// The last name in a list that is not a single dot; none where that is a double
/// dot.
pub open spec fn last_name(parts: Seq<Seq<char>>) -> Option<Seq<char>>
    decreases parts.len(),
{
    if parts.len() == 0 {
        None
    } else if parts.last() == "."@ {
        last_name(parts.drop_last())
    } else if parts.last() == ".."@ {
        None
    } else {
        Some(parts.last())
    }
}

/// The name of the file that a path leads to.
pub open spec fn file_name_of(path: Seq<char>) -> Option<Seq<char>> {
    last_name(components(path))
}

/// The place of the last `c` in `s`; -1 where there is none.
pub open spec fn rfind_char(s: Seq<char>, c: char) -> int
    decreases s.len(),
{
    if s.len() == 0 {
        -1
    } else if s.last() == c {
        s.len() - 1
    } else {
        rfind_char(s.drop_last(), c)
    }
}

/// What follows the last dot of a name, unless the name starts with that dot.
pub open spec fn name_extension(name: Seq<char>) -> Option<Seq<char>> {
    let k = rfind_char(name, '.');
    if k <= 0 {
        None
    } else {
        Some(name.skip(k + 1))
    }
}

/// What precedes the last dot of a name; the whole name where it has no
/// extension.
pub open spec fn name_stem(name: Seq<char>) -> Seq<char> {
    let k = rfind_char(name, '.');
    if k <= 0 {
        name
    } else {
        name.take(k)
    }
}

/// The extension of the file that a path leads to.
pub open spec fn extension_of(path: Seq<char>) -> Option<Seq<char>> {
    match file_name_of(path) {
        Some(name) => name_extension(name),
        None => None,
    }
}

/// `base` with one more name at its end.
pub open spec fn with_name(base: Seq<char>, name: Seq<char>) -> Seq<char> {
    if base.len() == 0 || base.last() == '/' {
        base + name
    } else {
        base + seq!['/'] + name
    }
}

/// The view of an optional string.
pub open spec fn opt_text(o: Option<String>) -> Option<Seq<char>> {
    match o {
        Some(s) => Some(s@),
        None => None,
    }
}

/// The place of the last `c`, if there is one.
pub fn find_last(s: &[char], c: char) -> (r: Option<usize>)
    ensures
        match r {
            Some(k) => k < s@.len() && k == rfind_char(s@, c) && s@[k as int] == c,
            None => rfind_char(s@, c) == -1,
        },
{
    let mut n: usize = s.len();
    assert(s@.take(n as int) =~= s@);
    while n > 0
        invariant
            n <= s@.len(),
            rfind_char(s@.take(n as int), c) == rfind_char(s@, c),
        decreases n,
    {
        if s[n - 1] == c {
            assert(s@.take(n as int).last() == c);
            return Some(n - 1);
        }
        assert(s@.take(n as int).drop_last() =~= s@.take(n - 1));
        n = n - 1;
    }
    None
}

/// The name of the file that a path leads to.
pub fn file_name(path: &str) -> (r: Option<String>)
    ensures
        opt_text(r) == file_name_of(path@),
{
    let parts: Vec<String> = split_path(path);
    let mut n: usize = parts.len();
    assert(texts(parts@).take(n as int) =~= texts(parts@));
    while n > 0
        invariant
            n <= parts@.len(),
            texts(parts@) == components(path@),
            last_name(texts(parts@).take(n as int)) == file_name_of(path@),
        decreases n,
    {
        let ghost head = texts(parts@).take(n as int);
        assert(head.last() == parts@[n - 1]@);
        assert(head.drop_last() =~= texts(parts@).take(n - 1));
        if !same_text(parts[n - 1].as_str(), ".") {
            if same_text(parts[n - 1].as_str(), "..") {
                return None;
            }
            return Some(parts[n - 1].clone());
        }
        n = n - 1;
    }
    None
}

/// What follows the last dot of a name.
pub fn extension_of_name(name: &str) -> (r: Option<String>)
    ensures
        opt_text(r) == name_extension(name@),
{
    let chars: Vec<char> = to_chars(name);
    match find_last(chars.as_slice(), '.') {
        Some(k) => {
            if k == 0 {
                return None;
            }
            assert(k < chars.len());
            let tail: &[char] = &chars.as_slice()[k + 1..chars.len()];
            assert(tail@ =~= chars@.skip(k + 1));
            Some(from_chars(tail))
        },
        None => None,
    }
}

/// What precedes the last dot of a name.
pub fn stem_of_name(name: &str) -> (r: String)
    ensures
        r@ == name_stem(name@),
{
    let chars: Vec<char> = to_chars(name);
    match find_last(chars.as_slice(), '.') {
        Some(k) => {
            if k == 0 {
                return from_chars(chars.as_slice());
            }
            let head: &[char] = &chars.as_slice()[0..k];
            assert(head@ =~= chars@.take(k as int));
            from_chars(head)
        },
        None => from_chars(chars.as_slice()),
    }
}

/// The extension of the file that a path leads to.
pub fn extension(path: &str) -> (r: Option<String>)
    ensures
        opt_text(r) == extension_of(path@),
{
    match file_name(path) {
        Some(name) => extension_of_name(name.as_str()),
        None => None,
    }
}

/// Adds one more name at the end of a path.
pub fn push_name(base: &mut String, name: &str)
    ensures
        final(base)@ == with_name(old(base)@, name@),
{
    let chars: Vec<char> = to_chars(base.as_str());
    if chars.len() > 0 && chars[chars.len() - 1] != '/' {
        base.push('/');
    }
    base.append(name);
    assert(base@ =~= with_name(old(base)@, name@));
}

/// A step of a path, in a form in which steps are ordered as texts: the root
/// first, then a single dot at the beginning, then double dots, then names.
pub open spec fn step_key(part: Seq<char>, first: bool) -> Seq<Seq<char>> {
    if part == "."@ {
        if first {
            seq![seq!['\u{2}']]
        } else {
            Seq::empty()
        }
    } else if part == ".."@ {
        seq![seq!['\u{3}']]
    } else {
        seq![seq!['\u{4}'] + part]
    }
}

/// Whether a path starts at the root.
pub open spec fn is_rooted(path: Seq<char>) -> bool {
    path.len() > 0 && path[0] == '/'
}

/// The steps of a path that has the given names.
pub open spec fn steps_of(parts: Seq<Seq<char>>, rooted: bool) -> Seq<Seq<char>>
    decreases parts.len(),
{
    if parts.len() == 0 {
        if rooted {
            seq![seq!['\u{1}']]
        } else {
            Seq::empty()
        }
    } else {
        steps_of(parts.drop_last(), rooted) + step_key(parts.last(), parts.len() == 1 && !rooted)
    }
}

/// The steps of a path.
pub open spec fn path_steps(path: Seq<char>) -> Seq<Seq<char>> {
    steps_of(components(path), is_rooted(path))
}

/// Whether one list of steps comes before another or is equal to it.
pub open spec fn steps_le(a: Seq<Seq<char>>, b: Seq<Seq<char>>) -> bool
    decreases a.len(),
{
    if a.len() == 0 {
        true
    } else if b.len() == 0 {
        false
    } else if a[0] != b[0] {
        text_le(a[0], b[0])
    } else {
        steps_le(a.skip(1), b.skip(1))
    }
}

/// Whether one path comes before another: step by step, not letter by letter.
pub open spec fn path_le(a: Seq<char>, b: Seq<char>) -> bool {
    steps_le(path_steps(a), path_steps(b))
}

fn path_step_list(path: &str) -> (r: Vec<String>)
    ensures
        texts(r@) == path_steps(path@),
{
    let chars: Vec<char> = to_chars(path);
    let rooted: bool = chars.len() > 0 && chars[0] == '/';
    let parts: Vec<String> = split_path(path);
    let ghost names = texts(parts@);
    let mut out: Vec<String> = Vec::new();
    if rooted {
        let mut mark = String::new();
        mark.push('\u{1}');
        assert(mark@ =~= seq!['\u{1}']);
        out.push(mark);
    }
    assert(texts(out@) =~= steps_of(names.take(0), rooted));
    let mut i: usize = 0;
    while i < parts.len()
        invariant
            i <= parts@.len(),
            names == texts(parts@),
            texts(out@) == steps_of(names.take(i as int), rooted),
        decreases parts@.len() - i,
    {
        let ghost before = texts(out@);
        assert(names.take(i + 1).drop_last() =~= names.take(i as int));
        assert(names.take(i + 1).last() == parts@[i as int]@);
        let part: &str = parts[i].as_str();
        let mut key = String::new();
        let mut counts: bool = true;
        if same_text(part, ".") {
            key.push('\u{2}');
            assert(key@ =~= seq!['\u{2}']);
            counts = i == 0 && !rooted;
        } else if same_text(part, "..") {
            key.push('\u{3}');
            assert(key@ =~= seq!['\u{3}']);
        } else {
            key.push('\u{4}');
            key.append(part);
            assert(key@ =~= seq!['\u{4}'] + part@);
        }
        if counts {
            out.push(key);
            assert(texts(out@) =~= before.push(key@));
        }
        assert(texts(out@) =~= steps_of(names.take(i + 1), rooted));
        i = i + 1;
    }
    assert(names.take(i as int) =~= names);
    out
}

/// Whether one path comes before another or is equal to it.
pub fn path_comes_first(a: &str, b: &str) -> (r: bool)
    ensures
        r == path_le(a@, b@),
{
    let x: Vec<String> = path_step_list(a);
    let y: Vec<String> = path_step_list(b);
    let ghost xs = texts(x@);
    let ghost ys = texts(y@);
    let mut i: usize = 0;
    assert(xs.skip(0) =~= xs);
    assert(ys.skip(0) =~= ys);
    while i < x.len()
        invariant
            i <= x@.len(),
            i <= y@.len(),
            xs == texts(x@),
            ys == texts(y@),
            path_le(a@, b@) == steps_le(xs.skip(i as int), ys.skip(i as int)),
        decreases x@.len() - i,
    {
        if i >= y.len() {
            return false;
        }
        assert(xs.skip(i as int)[0] == x@[i as int]@);
        assert(ys.skip(i as int)[0] == y@[i as int]@);
        assert(xs.skip(i as int).skip(1) =~= xs.skip(i + 1));
        assert(ys.skip(i as int).skip(1) =~= ys.skip(i + 1));
        if !same_text(x[i].as_str(), y[i].as_str()) {
            return comes_first(x[i].as_str(), y[i].as_str());
        }
        i = i + 1;
    }
    true
}

proof fn steps_order_is_total(a: Seq<Seq<char>>, b: Seq<Seq<char>>)
    ensures
        steps_le(a, b) || steps_le(b, a),
    decreases a.len(),
{
    if a.len() > 0 && b.len() > 0 {
        text_order_is_total(a[0], b[0]);
        if a[0] == b[0] {
            steps_order_is_total(a.skip(1), b.skip(1));
        }
    }
}

proof fn steps_order_is_transitive(a: Seq<Seq<char>>, b: Seq<Seq<char>>, c: Seq<Seq<char>>)
    requires
        steps_le(a, b),
        steps_le(b, c),
    ensures
        steps_le(a, c),
    decreases a.len(),
{
    if a.len() > 0 && b.len() > 0 && c.len() > 0 {
        if a[0] == b[0] && b[0] == c[0] {
            steps_order_is_transitive(a.skip(1), b.skip(1), c.skip(1));
        } else if a[0] != b[0] && b[0] != c[0] {
            text_order_is_transitive(a[0], b[0], c[0]);
            text_order_is_total(a[0], b[0]);
        }
    }
}

/// The orders in which texts are sorted.
#[derive(Clone, Copy, Debug, PartialEq, Eq, Structural)]
pub enum TextOrder {
    /// Letter by letter.
    Plain,
    /// As paths, step by step.
    Path,
}

/// Whether one text comes before another or is equal to it, in the given order.
pub open spec fn in_text_order(order: TextOrder, a: Seq<char>, b: Seq<char>) -> bool {
    match order {
        TextOrder::Plain => text_le(a, b),
        TextOrder::Path => path_le(a, b),
    }
}

/// The order as a function.
pub open spec fn text_order(order: TextOrder) -> spec_fn(Seq<char>, Seq<char>) -> bool {
    |a: Seq<char>, b: Seq<char>| in_text_order(order, a, b)
}

/// Texts in order.
pub open spec fn sorted_texts(v: Seq<Seq<char>>, order: TextOrder) -> Seq<Seq<char>> {
    sorted_by(v, text_order(order))
}

impl Sortable for String {
    type Model = Seq<char>;

    type Order = TextOrder;

    open spec fn model(&self) -> Seq<char> {
        self@
    }

    open spec fn may_precede(order: TextOrder, a: Seq<char>, b: Seq<char>) -> bool {
        in_text_order(order, a, b)
    }

    fn precedes(&self, other: &Self, order: &TextOrder) -> (r: bool) {
        match order {
            TextOrder::Plain => comes_first(self.as_str(), other.as_str()),
            TextOrder::Path => path_comes_first(self.as_str(), other.as_str()),
        }
    }
}

/// Sorts strings.
pub fn sort_texts(v: Vec<String>, order: TextOrder) -> (r: Vec<String>)
    ensures
        texts(r@) == sorted_texts(texts(v@), order),
{
    let ghost before = texts(v@);
    assert(models(v@) =~= before);
    let r: Vec<String> = sort(v, &order);
    assert(order_of::<String>(order) =~= text_order(order));
    assert(models(r@) =~= texts(r@));
    r
}

/// Both orders can order texts.
pub proof fn text_orders_are_orders(order: TextOrder)
    ensures
        is_order(text_order(order)),
{
    let le = text_order(order);
    assert forall|a: Seq<char>, b: Seq<char>| #[trigger] le(a, b) || le(b, a) by {
        text_order_is_total(a, b);
        steps_order_is_total(path_steps(a), path_steps(b));
    }
    assert forall|a: Seq<char>, b: Seq<char>, c: Seq<char>| #[trigger] le(a, b) && #[trigger] le(
        b,
        c,
    ) implies le(a, c) by {
        match order {
            TextOrder::Plain => text_order_is_transitive(a, b, c),
            TextOrder::Path => steps_order_is_transitive(
                path_steps(a),
                path_steps(b),
                path_steps(c),
            ),
        }
    }
}

/// Sorted texts are in order, and they are the ones that there were.
pub proof fn sorted_texts_are_in_order(v: Seq<Seq<char>>, order: TextOrder)
    ensures
        in_order(sorted_texts(v, order), text_order(order)),
        sorted_texts(v, order).to_multiset() == v.to_multiset(),
        sorted_texts(v, order).len() == v.len(),
{
    text_orders_are_orders(order);
    sorting_puts_in_order(v, text_order(order));
    sorting_keeps_all(v, text_order(order));
}

} // verus!
