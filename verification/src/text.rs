//! Text as sequences of characters.
//!
//! Strings are taken apart into their characters and put together again here;
//! what is in between works on slices of characters.

use vstd::prelude::*;
use vstd::string::StringExecFns;

verus! {

/// `String::push` appends one character.
pub assume_specification[ String::push ](s: &mut String, c: char)
    ensures
        final(s)@ == old(s)@.push(c),
;

/// The characters of a string.
pub fn to_chars(s: &str) -> (r: Vec<char>)
    ensures
        r@ == s@,
{
    let mut out: Vec<char> = Vec::new();
    for c in it: s.chars()
        invariant
            out@ == it.seq().take(it.index() as int),
            it.seq() == s@,
    {
        out.push(c);
        assert(it.seq().take(it.index() as int).push(c) =~= it.seq().take(it.index() + 1));
    }
    assert(s@.take(s@.len() as int) =~= s@);
    out
}

/// The string of some characters.
pub fn from_chars(v: &[char]) -> (r: String)
    ensures
        r@ == v@,
{
    let mut out = String::new();
    push_chars(&mut out, v);
    assert(out@ =~= v@);
    out
}

/// Appends characters to a string.
pub fn push_chars(out: &mut String, v: &[char])
    ensures
        final(out)@ == old(out)@ + v@,
{
    let mut i: usize = 0;
    while i < v.len()
        invariant
            i <= v.len(),
            out@ == old(out)@ + v@.take(i as int),
        decreases v.len() - i,
    {
        out.push(v[i]);
        assert(out@ =~= old(out)@ + v@.take(i + 1));
        i = i + 1;
    }
    assert(v@.take(v@.len() as int) =~= v@);
}

/// Whether two character strings are equal.
pub fn same_chars(a: &[char], b: &[char]) -> (r: bool)
    ensures
        r == (a@ == b@),
{
    if a.len() != b.len() {
        return false;
    }
    let mut i: usize = 0;
    while i < a.len()
        invariant
            i <= a.len(),
            a@.len() == b@.len(),
            forall|k: int| 0 <= k < i ==> a@[k] == b@[k],
        decreases a.len() - i,
    {
        if a[i] != b[i] {
            return false;
        }
        i = i + 1;
    }
    assert(a@ =~= b@);
    true
}

/// Whether two strings are equal.
pub fn same_text(a: &str, b: &str) -> (r: bool)
    ensures
        r == (a@ == b@),
{
    let x: Vec<char> = to_chars(a);
    let y: Vec<char> = to_chars(b);
    same_chars(x.as_slice(), y.as_slice())
}

/// The lower-case form of an ASCII letter; any other character as it is.
pub open spec fn lower(c: char) -> char {
    if 'A' <= c <= 'Z' {
        ((c as u8 + 32) as u8) as char
    } else {
        c
    }
}

/// The upper-case form of an ASCII letter; any other character as it is.
pub open spec fn upper(c: char) -> char {
    if 'a' <= c <= 'z' {
        ((c as u8 - 32) as u8) as char
    } else {
        c
    }
}

/// A text with its ASCII letters in lower case.
pub open spec fn lowered(s: Seq<char>) -> Seq<char> {
    Seq::new(s.len(), |i: int| lower(s[i]))
}

/// A text with its ASCII letters in upper case.
pub open spec fn uppered(s: Seq<char>) -> Seq<char> {
    Seq::new(s.len(), |i: int| upper(s[i]))
}

pub fn lower_char(c: char) -> (r: char)
    ensures
        r == lower(c),
{
    if 'A' <= c && c <= 'Z' {
        (c as u8 + 32) as char
    } else {
        c
    }
}

pub fn upper_char(c: char) -> (r: char)
    ensures
        r == upper(c),
{
    if 'a' <= c && c <= 'z' {
        (c as u8 - 32) as char
    } else {
        c
    }
}

/// The text with its ASCII letters in lower case.
pub fn to_lower(s: &str) -> (r: String)
    ensures
        r@ == lowered(s@),
{
    let chars: Vec<char> = to_chars(s);
    let mut out = String::new();
    let mut i: usize = 0;
    while i < chars.len()
        invariant
            i <= chars.len(),
            out@ =~= lowered(chars@.take(i as int)),
        decreases chars.len() - i,
    {
        out.push(lower_char(chars[i]));
        i = i + 1;
    }
    assert(chars@.take(chars@.len() as int) =~= chars@);
    out
}

/// The text with its ASCII letters in upper case.
pub fn to_upper(s: &str) -> (r: String)
    ensures
        r@ == uppered(s@),
{
    let chars: Vec<char> = to_chars(s);
    let mut out = String::new();
    let mut i: usize = 0;
    while i < chars.len()
        invariant
            i <= chars.len(),
            out@ =~= uppered(chars@.take(i as int)),
        decreases chars.len() - i,
    {
        out.push(upper_char(chars[i]));
        i = i + 1;
    }
    assert(chars@.take(chars@.len() as int) =~= chars@);
    out
}

/// Whether two texts are equal up to the case of ASCII letters.
pub fn same_ignoring_case(a: &str, b: &str) -> (r: bool)
    ensures
        r == (lowered(a@) == lowered(b@)),
{
    let x: String = to_lower(a);
    let y: String = to_lower(b);
    same_text(x.as_str(), y.as_str())
}

/// The place of the first `c` in `s`; the length of `s` where there is none.
pub open spec fn find_char(s: Seq<char>, c: char) -> int
    decreases s.len(),
{
    if s.len() == 0 || s[0] == c {
        0
    } else {
        1 + find_char(s.skip(1), c)
    }
}

/// `find_char` finds the first one.
pub proof fn find_char_is_first(s: Seq<char>, c: char)
    ensures
        0 <= find_char(s, c) <= s.len(),
        forall|k: int| 0 <= k < find_char(s, c) ==> s[k] != c,
        find_char(s, c) < s.len() ==> s[find_char(s, c)] == c,
    decreases s.len(),
{
    if s.len() > 0 && s[0] != c {
        find_char_is_first(s.skip(1), c);
        assert forall|k: int| 0 <= k < find_char(s, c) implies s[k] != c by {
            if k > 0 {
                assert(s[k] == s.skip(1)[k - 1]);
            }
        }
    }
}

/// A place that no `c` comes before is the one that `find_char` gives.
pub proof fn find_char_unique(s: Seq<char>, c: char, k: int)
    requires
        0 <= k <= s.len(),
        forall|j: int| 0 <= j < k ==> s[j] != c,
        k == s.len() || s[k] == c,
    ensures
        find_char(s, c) == k,
{
    find_char_is_first(s, c);
    let f = find_char(s, c);
    if f < k {
        assert(s[f] != c);
    }
}

/// The place of the first `c` from `from` on.
pub fn find_from(s: &[char], from: usize, c: char) -> (r: usize)
    requires
        from <= s@.len(),
    ensures
        from <= r <= s@.len(),
        r - from == find_char(s@.skip(from as int), c),
        forall|k: int| from <= k < r ==> s@[k] != c,
        r < s@.len() ==> s@[r as int] == c,
{
    let mut i: usize = from;
    while i < s.len() && s[i] != c
        invariant
            from <= i <= s@.len(),
            forall|k: int| from <= k < i ==> s@[k] != c,
        decreases s.len() - i,
    {
        i = i + 1;
    }
    proof {
        find_char_unique(s@.skip(from as int), c, i - from);
    }
    i
}

/// The non-empty parts of a text between slashes.
pub open spec fn components(s: Seq<char>) -> Seq<Seq<char>>
    decreases s.len(),
    via components_decreases
{
    let k = find_char(s, '/');
    let rest = if k < s.len() {
        components(s.skip(k + 1))
    } else {
        Seq::empty()
    };
    if k == 0 {
        rest
    } else {
        seq![s.take(k)] + rest
    }
}

#[via_fn]
proof fn components_decreases(s: Seq<char>) {
    find_char_is_first(s, '/');
}

/// The characters of several strings.
pub open spec fn texts(v: Seq<String>) -> Seq<Seq<char>> {
    Seq::new(v.len(), |i: int| v[i]@)
}

/// The non-empty parts of a text between slashes.
pub fn split_path(s: &str) -> (r: Vec<String>)
    ensures
        texts(r@) == components(s@),
{
    let chars: Vec<char> = to_chars(s);
    let mut out: Vec<String> = Vec::new();
    let mut start: usize = 0;
    assert(chars@.skip(0) =~= chars@);
    assert(texts(out@) + components(chars@.skip(0)) =~= components(chars@));
    while start < chars.len()
        invariant
            start <= chars@.len(),
            texts(out@) + components(chars@.skip(start as int)) == components(chars@),
        decreases chars@.len() - start,
    {
        let ghost before = texts(out@);
        let ghost tail = chars@.skip(start as int);
        let end: usize = find_from(chars.as_slice(), start, '/');
        if end > start {
            let part = from_chars(&chars.as_slice()[start..end]);
            assert(part@ =~= tail.take(end - start));
            out.push(part);
            assert(texts(out@) =~= before.push(part@));
        }
        if end < chars.len() {
            assert(tail.skip(end - start + 1) =~= chars@.skip(end + 1));
            assert(texts(out@) + components(chars@.skip(end + 1)) =~= before + components(tail));
            start = end + 1;
        } else {
            assert(texts(out@) =~= before + components(tail));
            assert(components(chars@.skip(chars@.len() as int)) =~= Seq::empty());
            assert(texts(out@) + components(chars@.skip(chars@.len() as int)) =~= texts(out@));
            start = chars.len();
        }
    }
    assert(components(chars@.skip(start as int)) =~= Seq::empty());
    assert(texts(out@) + components(chars@.skip(start as int)) =~= texts(out@));
    out
}

/// No part between slashes is empty or holds a slash.
pub proof fn components_are_plain(s: Seq<char>)
    ensures
        forall|i: int|
            #![trigger components(s)[i]]
            0 <= i < components(s).len() ==> components(s)[i].len() > 0 && !components(
                s,
            )[i].contains('/'),
    decreases s.len(),
{
    find_char_is_first(s, '/');
    let k = find_char(s, '/');
    if k < s.len() {
        components_are_plain(s.skip(k + 1));
    }
    let all = components(s);
    assert forall|i: int| #![trigger all[i]] 0 <= i < all.len() implies all[i].len() > 0
        && !all[i].contains('/') by {
        let rest = components(s.skip(k + 1));
        if k > 0 && i == 0 {
            assert(all[0] =~= s.take(k));
        } else if k > 0 {
            assert(all =~= seq![s.take(k)] + (if k < s.len() {
                rest
            } else {
                Seq::empty()
            }));
            assert(all[i] == rest[i - 1]);
        } else {
            assert(k < s.len());
            assert(all[i] == rest[i]);
        }
    }
}

/// Leading slashes make no difference to the parts.
pub proof fn components_ignore_leading_slash(s: Seq<char>)
    ensures
        components(seq!['/'] + s) == components(s),
{
    assert((seq!['/'] + s).skip(1) =~= s);
}

/// A slash between two texts separates their parts.
pub proof fn components_of_joined(a: Seq<char>, b: Seq<char>)
    ensures
        components(a + seq!['/'] + b) == components(a) + components(b),
    decreases a.len(),
{
    find_char_is_first(a, '/');
    let k = find_char(a, '/');
    let all = a + seq!['/'] + b;
    find_char_unique(all, '/', k);
    assert(all.take(k) =~= a.take(k));
    if k < a.len() {
        components_of_joined(a.skip(k + 1), b);
        assert(all.skip(k + 1) =~= a.skip(k + 1) + seq!['/'] + b);
    } else {
        assert(all.skip(k + 1) =~= b);
    }
    assert(components(all) =~= components(a) + components(b));
}

/// Trailing slashes make no difference to the parts.
pub proof fn components_ignore_trailing_slash(s: Seq<char>)
    ensures
        components(s + seq!['/']) == components(s),
{
    components_of_joined(s, Seq::empty());
    assert(s + seq!['/'] + Seq::<char>::empty() =~= s + seq!['/']);
    assert(components(Seq::<char>::empty()) =~= Seq::empty());
    assert(components(s) + Seq::<Seq<char>>::empty() =~= components(s));
}

/// Whether a character is white space: the ones with the Unicode property
/// `White_Space`.
pub open spec fn is_white(c: char) -> bool {
    ||| 0x09 <= c as u32 <= 0x0D
    ||| c as u32 == 0x20
    ||| c as u32 == 0x85
    ||| c as u32 == 0xA0
    ||| c as u32 == 0x1680
    ||| 0x2000 <= c as u32 <= 0x200A
    ||| c as u32 == 0x2028
    ||| c as u32 == 0x2029
    ||| c as u32 == 0x202F
    ||| c as u32 == 0x205F
    ||| c as u32 == 0x3000
}

/// Whether a character is white space.
pub fn is_white_space(c: char) -> (r: bool)
    ensures
        r == is_white(c),
{
    let n: u32 = c as u32;
    (0x09 <= n && n <= 0x0D) || n == 0x20 || n == 0x85 || n == 0xA0 || n == 0x1680 || (0x2000 <= n
        && n <= 0x200A) || n == 0x2028 || n == 0x2029 || n == 0x202F || n == 0x205F || n == 0x3000
}

/// A text without the white space at its end.
pub open spec fn end_trimmed(s: Seq<char>) -> Seq<char>
    decreases s.len(),
{
    if s.len() > 0 && is_white(s.last()) {
        end_trimmed(s.drop_last())
    } else {
        s
    }
}

/// A text without the white space at its beginning.
pub open spec fn start_trimmed(s: Seq<char>) -> Seq<char>
    decreases s.len(),
{
    if s.len() > 0 && is_white(s[0]) {
        start_trimmed(s.skip(1))
    } else {
        s
    }
}

/// A text without the white space around it.
pub open spec fn trimmed(s: Seq<char>) -> Seq<char> {
    end_trimmed(start_trimmed(s))
}

/// The place after the last character that is no white space.
pub fn end_of_text(s: &[char]) -> (r: usize)
    ensures
        r <= s@.len(),
        s@.take(r as int) == end_trimmed(s@),
{
    let mut n: usize = s.len();
    assert(s@.take(n as int) =~= s@);
    while n > 0 && is_white_space(s[n - 1])
        invariant
            n <= s@.len(),
            end_trimmed(s@.take(n as int)) == end_trimmed(s@),
        decreases n,
    {
        assert(s@.take(n as int).drop_last() =~= s@.take(n - 1));
        n = n - 1;
    }
    n
}

/// The place of the first character that is no white space.
pub fn start_of_text(s: &[char]) -> (r: usize)
    ensures
        r <= s@.len(),
        s@.skip(r as int) == start_trimmed(s@),
{
    let mut n: usize = 0;
    assert(s@.skip(0) =~= s@);
    while n < s.len() && is_white_space(s[n])
        invariant
            n <= s@.len(),
            start_trimmed(s@.skip(n as int)) == start_trimmed(s@),
        decreases s@.len() - n,
    {
        assert(s@.skip(n as int).skip(1) =~= s@.skip(n + 1));
        n = n + 1;
    }
    n
}

/// The characters without the white space around them.
pub fn trim_chars(s: &[char]) -> (r: &[char])
    ensures
        r@ == trimmed(s@),
{
    let from: usize = start_of_text(s);
    let rest: &[char] = &s[from..s.len()];
    assert(rest@ =~= s@.skip(from as int));
    let to: usize = end_of_text(rest);
    let inner: &[char] = &rest[0..to];
    assert(inner@ =~= rest@.take(to as int));
    inner
}

/// The text without the white space around it.
pub fn trim(s: &str) -> (r: String)
    ensures
        r@ == trimmed(s@),
{
    let chars: Vec<char> = to_chars(s);
    from_chars(trim_chars(chars.as_slice()))
}

/// The text without the white space at its end.
pub fn trim_end(s: &str) -> (r: String)
    ensures
        r@ == end_trimmed(s@),
{
    let chars: Vec<char> = to_chars(s);
    let n: usize = end_of_text(chars.as_slice());
    let kept: &[char] = &chars.as_slice()[0..n];
    assert(kept@ =~= chars@.take(n as int));
    from_chars(kept)
}

/// Whether a character is an ASCII digit.
pub open spec fn is_digit(c: char) -> bool {
    '0' <= c <= '9'
}

/// Whether a character is an ASCII letter.
pub open spec fn is_letter(c: char) -> bool {
    'A' <= c <= 'Z' || 'a' <= c <= 'z'
}

/// Whether a text is a non-empty string of ASCII digits.
pub open spec fn is_number(s: Seq<char>) -> bool {
    s.len() > 0 && forall|i: int| 0 <= i < s.len() ==> is_digit(#[trigger] s[i])
}

/// The number that a string of ASCII digits stands for.
pub open spec fn number_value(s: Seq<char>) -> nat
    decreases s.len(),
{
    if s.len() == 0 {
        0
    } else {
        10 * number_value(s.drop_last()) + (s.last() as u32 - 48) as nat
    }
}

/// The decimal digits of a number.
pub open spec fn decimal(n: nat) -> Seq<char>
    decreases n,
{
    let digit = seq![((48 + n % 10) as u8) as char];
    if n < 10 {
        digit
    } else {
        decimal(n / 10) + digit
    }
}

/// The digits of a number stand for it.
pub proof fn decimal_round_trip(n: nat)
    ensures
        is_number(decimal(n)),
        number_value(decimal(n)) == n,
    decreases n,
{
    let d = ((48 + n % 10) as u8) as char;
    assert(is_digit(d));
    assert(d as u32 - 48 == n % 10);
    if n < 10 {
        assert(decimal(n) =~= seq![d]);
        assert(seq![d].drop_last() =~= Seq::empty());
        assert(number_value(Seq::empty()) == 0);
        assert(number_value(seq![d]) == n);
    } else {
        decimal_round_trip(n / 10);
        assert(decimal(n).drop_last() =~= decimal(n / 10));
        assert(decimal(n).last() == d);
        assert forall|i: int| 0 <= i < decimal(n).len() implies is_digit(
            #[trigger] decimal(n)[i],
        ) by {
            if i < decimal(n).len() - 1 {
                assert(decimal(n)[i] == decimal(n / 10)[i]);
            }
        }
    }
}

/// The number that digits stand for, if they are digits and the number fits.
pub fn parse_number(s: &[char]) -> (r: Option<u64>)
    ensures
        match r {
            Some(n) => is_number(s@) && n == number_value(s@),
            None => !is_number(s@) || number_value(s@) > u64::MAX,
        },
{
    if s.len() == 0 {
        return None;
    }
    let mut value: Option<u64> = Some(0);
    let mut i: usize = 0;
    assert(s@.take(0) =~= Seq::empty());
    while i < s.len()
        invariant
            i <= s@.len(),
            forall|k: int| 0 <= k < i ==> is_digit(#[trigger] s@[k]),
            match value {
                Some(n) => n == number_value(s@.take(i as int)),
                None => number_value(s@.take(i as int)) > u64::MAX,
            },
        decreases s@.len() - i,
    {
        let c: char = s[i];
        if c < '0' || c > '9' {
            return None;
        }
        let digit: u64 = (c as u8 - 48) as u64;
        assert(s@.take(i + 1).drop_last() =~= s@.take(i as int));
        value = match value {
            Some(n) => match n.checked_mul(10) {
                Some(m) => m.checked_add(digit),
                None => None,
            },
            None => None,
        };
        i = i + 1;
    }
    assert(s@.take(i as int) =~= s@);
    value
}

/// The decimal digits of a number.
pub fn number_text(n: u64) -> (r: String)
    ensures
        r@ == decimal(n as nat),
    decreases n,
{
    let mut out: String = if n < 10 {
        String::new()
    } else {
        number_text(n / 10)
    };
    out.push((48 + (n % 10) as u8) as char);
    assert(out@ =~= decimal(n as nat));
    out
}

/// Whether one text comes before another or is equal to it: the first difference
/// decides, by the code points.
pub open spec fn text_le(a: Seq<char>, b: Seq<char>) -> bool
    decreases a.len(),
{
    if a.len() == 0 {
        true
    } else if b.len() == 0 {
        false
    } else if a[0] != b[0] {
        a[0] < b[0]
    } else {
        text_le(a.skip(1), b.skip(1))
    }
}

/// Of two texts one comes first.
pub proof fn text_order_is_total(a: Seq<char>, b: Seq<char>)
    ensures
        text_le(a, b) || text_le(b, a),
        text_le(a, b) && text_le(b, a) ==> a == b,
    decreases a.len(),
{
    if a.len() > 0 && b.len() > 0 && a[0] == b[0] {
        text_order_is_total(a.skip(1), b.skip(1));
        assert(a =~= seq![a[0]] + a.skip(1));
        assert(b =~= seq![b[0]] + b.skip(1));
    } else if a.len() == 0 && b.len() == 0 {
        assert(a =~= b);
    }
}

/// The order of texts is transitive.
pub proof fn text_order_is_transitive(a: Seq<char>, b: Seq<char>, c: Seq<char>)
    requires
        text_le(a, b),
        text_le(b, c),
    ensures
        text_le(a, c),
    decreases a.len(),
{
    if a.len() > 0 && b.len() > 0 && c.len() > 0 && a[0] == b[0] && b[0] == c[0] {
        text_order_is_transitive(a.skip(1), b.skip(1), c.skip(1));
    }
}

/// Whether one string of characters comes before another or is equal to it.
pub fn chars_le(a: &[char], b: &[char]) -> (r: bool)
    ensures
        r == text_le(a@, b@),
{
    let mut i: usize = 0;
    assert(a@.skip(0) =~= a@);
    assert(b@.skip(0) =~= b@);
    while i < a.len()
        invariant
            i <= a@.len(),
            i <= b@.len(),
            text_le(a@, b@) == text_le(a@.skip(i as int), b@.skip(i as int)),
        decreases a@.len() - i,
    {
        if i >= b.len() {
            return false;
        }
        assert(a@.skip(i as int)[0] == a@[i as int]);
        assert(b@.skip(i as int)[0] == b@[i as int]);
        assert(a@.skip(i as int).skip(1) =~= a@.skip(i + 1));
        assert(b@.skip(i as int).skip(1) =~= b@.skip(i + 1));
        if a[i] != b[i] {
            return a[i] < b[i];
        }
        i = i + 1;
    }
    true
}

/// Whether one text comes before another or is equal to it.
pub fn comes_first(a: &str, b: &str) -> (r: bool)
    ensures
        r == text_le(a@, b@),
{
    let x: Vec<char> = to_chars(a);
    let y: Vec<char> = to_chars(b);
    chars_le(x.as_slice(), y.as_slice())
}

/// Whether `part` stands in `s` at `at`.
pub open spec fn text_at(s: Seq<char>, at: int, part: Seq<char>) -> bool {
    0 <= at && at + part.len() <= s.len() && s.subrange(at, at + part.len()) =~= part
}

/// Whether `part` stands somewhere in `s`.
pub open spec fn has_part(s: Seq<char>, part: Seq<char>) -> bool {
    exists|at: int| #[trigger] text_at(s, at, part)
}

/// The first place from `from` on where `part` stands in `s`.
pub fn find_part(s: &[char], part: &[char], from: usize) -> (r: Option<usize>)
    ensures
        match r {
            Some(k) => from <= k && text_at(s@, k as int, part@) && forall|j: int|
                from <= j < k ==> !#[trigger] text_at(s@, j, part@),
            None => forall|j: int| from <= j ==> !#[trigger] text_at(s@, j, part@),
        },
{
    let mut at: usize = from;
    while at <= s.len() && s.len() - at >= part.len()
        invariant
            from <= at,
            forall|j: int| from <= j < at ==> !#[trigger] text_at(s@, j, part@),
            at <= s@.len() || at == from,
        decreases s@.len() + 1 - at,
    {
        let here: &[char] = &s[at..at + part.len()];
        if same_chars(here, part) {
            return Some(at);
        }
        assert(!text_at(s@, at as int, part@));
        if at == s.len() {
            return None;
        }
        at = at + 1;
    }
    None
}

/// Whether `part` stands somewhere in the text.
pub fn contains_text(s: &str, part: &str) -> (r: bool)
    ensures
        r == has_part(s@, part@),
{
    let chars: Vec<char> = to_chars(s);
    let wanted: Vec<char> = to_chars(part);
    find_part(chars.as_slice(), wanted.as_slice(), 0).is_some()
}

/// Whether a text ends with another.
pub open spec fn ends_in(s: Seq<char>, tail: Seq<char>) -> bool {
    text_at(s, s.len() - tail.len(), tail)
}

/// Whether a text ends with another.
pub fn ends_with(s: &str, tail: &str) -> (r: bool)
    ensures
        r == ends_in(s@, tail@),
{
    let chars: Vec<char> = to_chars(s);
    let wanted: Vec<char> = to_chars(tail);
    if chars.len() < wanted.len() {
        return false;
    }
    let from: usize = chars.len() - wanted.len();
    same_chars(&chars.as_slice()[from..chars.len()], wanted.as_slice())
}

/// A line without the carriage return at its end.
pub open spec fn without_return(s: Seq<char>) -> Seq<char> {
    if s.len() > 0 && s.last() == '\r' {
        s.drop_last()
    } else {
        s
    }
}

/// The lines of a text. A line ends with a line feed, or a carriage return and
/// a line feed; the last one may end with the text.
pub open spec fn lines_of(s: Seq<char>) -> Seq<Seq<char>>
    decreases s.len(),
    via lines_decreases
{
    let k = find_char(s, '\n');
    if s.len() == 0 {
        Seq::empty()
    } else if k == s.len() {
        seq![s]
    } else {
        seq![without_return(s.take(k))] + lines_of(s.skip(k + 1))
    }
}

#[via_fn]
proof fn lines_decreases(s: Seq<char>) {
    find_char_is_first(s, '\n');
}

/// The lines of a text.
pub fn split_lines(s: &str) -> (r: Vec<String>)
    ensures
        texts(r@) == lines_of(s@),
{
    let chars: Vec<char> = to_chars(s);
    let mut out: Vec<String> = Vec::new();
    let mut start: usize = 0;
    assert(chars@.skip(0) =~= chars@);
    assert(texts(out@) + lines_of(chars@.skip(0)) =~= lines_of(chars@));
    while start < chars.len()
        invariant
            start <= chars@.len(),
            texts(out@) + lines_of(chars@.skip(start as int)) == lines_of(chars@),
        decreases chars@.len() - start,
    {
        let ghost before = texts(out@);
        let ghost tail = chars@.skip(start as int);
        let end: usize = find_from(chars.as_slice(), start, '\n');
        if end == chars.len() {
            let line = from_chars(&chars.as_slice()[start..end]);
            assert(line@ =~= tail);
            out.push(line);
            assert(texts(out@) =~= before.push(line@));
            assert(lines_of(chars@.skip(end as int)) =~= Seq::empty());
            assert(texts(out@) + lines_of(chars@.skip(end as int)) =~= before + lines_of(tail));
            start = end;
        } else {
            let stop: usize = if end > start && chars[end - 1] == '\r' {
                end - 1
            } else {
                end
            };
            let line = from_chars(&chars.as_slice()[start..stop]);
            assert(line@ =~= without_return(tail.take(end - start)));
            out.push(line);
            assert(texts(out@) =~= before.push(line@));
            assert(tail.skip(end - start + 1) =~= chars@.skip(end + 1));
            assert(texts(out@) + lines_of(chars@.skip(end + 1)) =~= before + lines_of(tail));
            start = end + 1;
        }
    }
    assert(lines_of(chars@.skip(start as int)) =~= Seq::empty());
    assert(texts(out@) + lines_of(chars@.skip(start as int)) =~= texts(out@));
    out
}

/// Texts one after the other, with `sep` between them.
pub open spec fn joined_texts(parts: Seq<Seq<char>>, sep: Seq<char>) -> Seq<char>
    decreases parts.len(),
{
    if parts.len() == 0 {
        Seq::empty()
    } else if parts.len() == 1 {
        parts[0]
    } else {
        joined_texts(parts.drop_last(), sep) + sep + parts.last()
    }
}

/// The strings one after the other, with `sep` between them.
pub fn join(parts: &[String], sep: &str) -> (r: String)
    ensures
        r@ == joined_texts(texts(parts@), sep@),
{
    let mut out = String::new();
    let mut i: usize = 0;
    assert(out@ =~= joined_texts(texts(parts@).take(0), sep@));
    while i < parts.len()
        invariant
            i <= parts@.len(),
            out@ == joined_texts(texts(parts@).take(i as int), sep@),
        decreases parts@.len() - i,
    {
        let ghost head = texts(parts@).take(i as int);
        assert(texts(parts@).take(i + 1).drop_last() =~= head);
        assert(texts(parts@).take(i + 1).last() == parts@[i as int]@);
        if i > 0 {
            out.append(sep);
        }
        out.append(parts[i].as_str());
        assert(out@ =~= joined_texts(texts(parts@).take(i + 1), sep@));
        i = i + 1;
    }
    assert(texts(parts@).take(i as int) =~= texts(parts@));
    out
}

} // verus!
