//! Texts in a form in which they can be searched.
//!
//! The documents on magazine disks are Shift_JIS and mix full-width and
//! half-width letters freely. The NFKC normal form takes these differences out.

use crate::codec::{decodable_length, decode_shift_jis, nfkc_text, normalize_nfkc, sjis_text};
use crate::text::{is_white, is_white_space, joined_texts, start_trimmed, to_chars};
use vstd::prelude::*;

verus! {

/// Decodes Shift_JIS and normalizes the text.
pub fn decode_sjis_nfkc(bytes: &[u8]) -> (r: String)
    requires
        decodable_length(bytes@.len()),
    ensures
        r@ == nfkc_text(sjis_text(bytes@)),
{
    let text: String = decode_shift_jis(bytes);
    normalize_nfkc(text.as_str())
}

/// Normalizes a text.
pub fn nfkc(s: &str) -> (r: String)
    ensures
        r@ == nfkc_text(s@),
{
    normalize_nfkc(s)
}

/// The number of characters before the first white space.
pub open spec fn word_length(s: Seq<char>) -> int
    decreases s.len(),
{
    if s.len() == 0 || is_white(s[0]) {
        0
    } else {
        1 + word_length(s.skip(1))
    }
}

/// The words of a text: what stands between white space.
pub open spec fn words_of(s: Seq<char>) -> Seq<Seq<char>>
    decreases s.len(),
    via words_decreases
{
    let t = start_trimmed(s);
    if t.len() == 0 {
        Seq::empty()
    } else {
        seq![t.take(word_length(t))] + words_of(t.skip(word_length(t)))
    }
}

#[via_fn]
proof fn words_decreases(s: Seq<char>) {
    start_trimmed_is_suffix(s);
    word_length_is_first(start_trimmed(s));
}

proof fn start_trimmed_is_suffix(s: Seq<char>)
    ensures
        start_trimmed(s).len() <= s.len(),
        start_trimmed(s).len() > 0 ==> !is_white(start_trimmed(s)[0]),
    decreases s.len(),
{
    if s.len() > 0 && is_white(s[0]) {
        start_trimmed_is_suffix(s.skip(1));
    }
}

proof fn word_length_is_first(s: Seq<char>)
    ensures
        0 <= word_length(s) <= s.len(),
        s.len() > 0 && !is_white(s[0]) ==> word_length(s) > 0,
        forall|i: int| 0 <= i < word_length(s) ==> !is_white(#[trigger] s[i]),
        word_length(s) < s.len() ==> is_white(s[word_length(s)]),
    decreases s.len(),
{
    if s.len() > 0 && !is_white(s[0]) {
        word_length_is_first(s.skip(1));
        assert forall|i: int| 0 <= i < word_length(s) implies !is_white(#[trigger] s[i]) by {
            if i > 0 {
                assert(s[i] == s.skip(1)[i - 1]);
            }
        }
    }
}

/// A word ends at the first white space.
pub proof fn word_length_unique(s: Seq<char>, k: int)
    requires
        0 <= k <= s.len(),
        forall|i: int| 0 <= i < k ==> !is_white(#[trigger] s[i]),
        k == s.len() || is_white(s[k]),
    ensures
        word_length(s) == k,
{
    word_length_is_first(s);
    let w = word_length(s);
    if w < k {
        assert(is_white(s[w]));
    } else if w > k {
        assert(!is_white(s[k]));
    }
}

/// The words of a text with one space between them.
pub open spec fn collapsed(s: Seq<char>) -> Seq<char> {
    joined_texts(words_of(s), seq![' '])
}

/// Folds all white space in a text to single spaces and takes away what is
/// around it.
pub fn collapse_spaces(s: &str) -> (r: String)
    ensures
        r@ == collapsed(s@),
{
    let chars: Vec<char> = to_chars(s);
    let r: Vec<char> = collapse_chars(chars.as_slice());
    crate::text::from_chars(r.as_slice())
}

fn collapse_chars(chars: &[char]) -> (out: Vec<char>)
    ensures
        out@ == collapsed(chars@),
{
    let mut out: Vec<char> = Vec::new();
    let ghost mut done: Seq<Seq<char>> = Seq::empty();
    let mut i: usize = 0;
    assert(chars@.skip(0) =~= chars@);
    assert(done + words_of(chars@) =~= words_of(chars@));
    assert(out@ =~= joined_texts(done, seq![' ']));
    loop
        invariant
            i <= chars@.len(),
            done + words_of(chars@.skip(i as int)) == words_of(chars@),
            out@ == joined_texts(done, seq![' ']),
        decreases chars@.len() - i,
    {
        let ghost rest = chars@.skip(i as int);
        let ghost from = i as int;
        while i < chars.len() && is_white_space(chars[i])
            invariant
                from <= i <= chars@.len(),
                start_trimmed(chars@.skip(i as int)) == start_trimmed(chars@.skip(from)),
            decreases chars@.len() - i,
        {
            assert(chars@.skip(i as int).skip(1) =~= chars@.skip(i + 1));
            i = i + 1;
        }
        let ghost t = chars@.skip(i as int);
        assert(t == start_trimmed(rest));
        if i >= chars.len() {
            assert(done + words_of(rest) =~= done);
            return out;
        }
        let start: usize = i;
        if out.len() > 0 {
            out.push(' ');
        }
        let ghost lead = out@;
        while i < chars.len() && !is_white_space(chars[i])
            invariant
                start <= i <= chars@.len(),
                out@ =~= lead + chars@.subrange(start as int, i as int),
                forall|k: int| start <= k < i ==> !is_white(#[trigger] chars@[k]),
            decreases chars@.len() - i,
        {
            out.push(chars[i]);
            i = i + 1;
        }
        proof {
            let word = chars@.subrange(start as int, i as int);
            word_length_unique(t, i - start);
            assert(t.take(i - start) =~= word);
            assert(t.skip(i - start) =~= chars@.skip(i as int));
            let next = done.push(word);
            assert(next.drop_last() =~= done);
            assert(done + words_of(rest) =~= next + words_of(chars@.skip(i as int)));
            if done.len() == 0 {
                assert(out@ =~= word);
            } else {
                joined_is_not_empty(done, words_of(chars@), words_of(rest));
            }
            assert(out@ =~= joined_texts(next, seq![' ']));
            done = next;
        }
    }
}

/// No word is empty or holds white space.
pub proof fn words_are_plain(s: Seq<char>)
    ensures
        forall|i: int|
            #![trigger words_of(s)[i]]
            0 <= i < words_of(s).len() ==> words_of(s)[i].len() > 0 && is_plain(words_of(s)[i]),
    decreases s.len(),
{
    let t = start_trimmed(s);
    start_trimmed_is_suffix(s);
    if t.len() > 0 {
        word_length_is_first(t);
        let k = word_length(t);
        words_are_plain(t.skip(k));
        let all = words_of(s);
        assert(all =~= seq![t.take(k)] + words_of(t.skip(k)));
        assert forall|i: int| #![trigger all[i]] 0 <= i < all.len() implies all[i].len() > 0
            && is_plain(all[i]) by {
            if i > 0 {
                assert(all[i] == words_of(t.skip(k))[i - 1]);
            } else {
                assert(all[0] == t.take(k));
            }
        }
    }
}

/// Whether a text holds no white space.
pub open spec fn is_plain(s: Seq<char>) -> bool {
    forall|i: int| 0 <= i < s.len() ==> !is_white(#[trigger] s[i])
}

proof fn joined_is_not_empty(done: Seq<Seq<char>>, all: Seq<Seq<char>>, rest: Seq<Seq<char>>)
    requires
        done.len() > 0,
        exists|s: Seq<char>| all == words_of(s),
        done + rest == all,
    ensures
        joined_texts(done, seq![' ']).len() > 0,
{
    let s = choose|s: Seq<char>| all == words_of(s);
    words_are_plain(s);
    assert(all[0] == done[0]);
    assert(all[done.len() - 1] == done.last());
    assert(done.last().len() > 0);
}

/// Joined texts start with the first one.
pub proof fn joined_from_front(ws: Seq<Seq<char>>, sep: Seq<char>)
    requires
        ws.len() >= 2,
    ensures
        joined_texts(ws, sep) == ws[0] + sep + joined_texts(ws.skip(1), sep),
    decreases ws.len(),
{
    if ws.len() == 2 {
        assert(ws.skip(1) =~= seq![ws[1]]);
        assert(ws.drop_last() =~= seq![ws[0]]);
        assert(joined_texts(ws.drop_last(), sep) == ws[0]);
        assert(joined_texts(ws.skip(1), sep) == ws[1]);
        assert(joined_texts(ws, sep) =~= ws[0] + sep + ws[1]);
    } else {
        joined_from_front(ws.drop_last(), sep);
        assert(ws.drop_last().skip(1) =~= ws.skip(1).drop_last());
        assert(joined_texts(ws, sep) =~= ws[0] + sep + joined_texts(ws.skip(1), sep));
    }
}

proof fn words_of_joined(ws: Seq<Seq<char>>)
    requires
        forall|i: int| #![trigger ws[i]] 0 <= i < ws.len() ==> ws[i].len() > 0 && is_plain(ws[i]),
    ensures
        words_of(joined_texts(ws, seq![' '])) == ws,
    decreases ws.len(),
{
    let all = joined_texts(ws, seq![' ']);
    if ws.len() == 0 {
        assert(words_of(all) =~= ws);
    } else {
        let w = ws[0];
        if ws.len() == 1 {
            assert(all == w);
            word_length_unique(all, w.len() as int);
            assert(all.take(w.len() as int) =~= w);
            assert(all.skip(w.len() as int) =~= Seq::empty());
            assert(words_of(Seq::<char>::empty()) =~= Seq::empty());
            assert(words_of(all) =~= ws);
        } else {
            joined_from_front(ws, seq![' ']);
            let tail = joined_texts(ws.skip(1), seq![' ']);
            assert(all =~= w + seq![' '] + tail);
            assert(all[0] == w[0]);
            assert(all[w.len() as int] == ' ');
            assert forall|i: int| 0 <= i < w.len() implies !is_white(#[trigger] all[i]) by {
                assert(all[i] == w[i]);
            }
            word_length_unique(all, w.len() as int);
            assert(all.take(w.len() as int) =~= w);
            let rest = all.skip(w.len() as int);
            assert(rest.skip(1) =~= tail);
            assert(start_trimmed(rest) == start_trimmed(tail));
            words_of_joined(ws.skip(1));
            assert(words_of(rest) == words_of(tail));
            assert(words_of(all) =~= ws);
        }
    }
}

/// A text that was collapsed has the same words, and is not changed by collapsing
/// it again.
pub proof fn collapsing_is_done_once(s: Seq<char>)
    ensures
        words_of(collapsed(s)) == words_of(s),
        collapsed(collapsed(s)) == collapsed(s),
{
    words_are_plain(s);
    words_of_joined(words_of(s));
}

} // verus!
