//! Character codes of the outside world: Shift_JIS bytes, Unicode normalization
//! and lower case.

use crate::text::lowered;
use vstd::prelude::*;
use vstd::utf8::{decode_utf8, encode_utf8, encode_utf8_decode_utf8, encode_utf8_valid_utf8,
    is_ascii_chars_encode_utf8, valid_utf8};

verus! {

/// The text that a byte string stands for in Shift_JIS, malformed parts replaced
/// by U+FFFD. Bytes that start with the byte order mark of UTF-8 or UTF-16 are
/// taken in that encoding instead.
pub uninterp spec fn sjis_text(bytes: Seq<u8>) -> Seq<char>;

/// The text that a byte string stands for in UTF-8, malformed parts replaced by
/// U+FFFD.
pub uninterp spec fn utf8_lossy_text(bytes: Seq<u8>) -> Seq<char>;

/// The NFKC normal form of a text.
pub uninterp spec fn nfkc_text(text: Seq<char>) -> Seq<char>;

/// A text in the lower case of Unicode.
pub uninterp spec fn lowercase_text(text: Seq<char>) -> Seq<char>;

/// Whether a byte string is pure ASCII.
pub open spec fn ascii_only(bytes: Seq<u8>) -> bool {
    forall|i: int| 0 <= i < bytes.len() ==> #[trigger] bytes[i] < 0x80
}

/// The text that ASCII bytes stand for.
pub open spec fn ascii_text(bytes: Seq<u8>) -> Seq<char> {
    Seq::new(bytes.len(), |i: int| bytes[i] as char)
}

/// Whether a text is pure ASCII.
pub open spec fn ascii_chars(text: Seq<char>) -> bool {
    forall|i: int| 0 <= i < text.len() ==> #[trigger] text[i] < '\u{80}'
}

/// How many bytes can be decoded at once: the decoder panics where the size of
/// its buffer, at most three bytes for each byte read, overflows.
pub open spec fn decodable_length(n: nat) -> bool {
    n <= usize::MAX / 8
}

/// The text that a byte string stands for in UTF-8: what it encodes, where it is
/// valid.
pub open spec fn utf8_text(bytes: Seq<u8>) -> Seq<char> {
    if valid_utf8(bytes) {
        decode_utf8(bytes)
    } else {
        utf8_lossy_text(bytes)
    }
}

/// ASCII bytes stand for themselves in UTF-8.
pub proof fn ascii_is_utf8(bytes: Seq<u8>)
    requires
        ascii_only(bytes),
    ensures
        valid_utf8(bytes),
        utf8_text(bytes) == ascii_text(bytes),
{
    let text = ascii_text(bytes);
    assert forall|i: int| 0 <= i < text.len() implies '\0' <= #[trigger] text[i] <= '\u{7f}' by {
        assert(bytes[i] < 0x80);
    }
    is_ascii_chars_encode_utf8(text);
    assert(encode_utf8(text) =~= bytes);
    encode_utf8_valid_utf8(text);
    encode_utf8_decode_utf8(text);
}

/// Calls `encoding_rs::Encoding::decode` for Shift_JIS. Its result is a function
/// of the bytes alone; ASCII bytes come out as they are.
#[verifier::external_body]
pub(crate) fn decode_shift_jis(bytes: &[u8]) -> (r: String)
    requires
        decodable_length(bytes@.len()),
    ensures
        r@ == sjis_text(bytes@),
        ascii_only(bytes@) ==> r@ == ascii_text(bytes@),
{
    encoding_rs::SHIFT_JIS.decode(bytes).0.into_owned()
}

/// Calls `String::from_utf8_lossy`. Its result is a function of the bytes alone;
/// valid UTF-8 comes out as what it encodes.
#[verifier::external_body]
pub(crate) fn decode_utf8_lossy(bytes: &[u8]) -> (r: String)
    ensures
        r@ == utf8_lossy_text(bytes@),
        valid_utf8(bytes@) ==> r@ == decode_utf8(bytes@),
{
    String::from_utf8_lossy(bytes).into_owned()
}

/// Calls `unicode_normalization::UnicodeNormalization::nfkc` and gathers the
/// characters. The result is a function of the text alone.
#[verifier::external_body]
pub(crate) fn normalize_nfkc(text: &str) -> (r: String)
    ensures
        r@ == nfkc_text(text@),
{
    unicode_normalization::UnicodeNormalization::nfkc(text).collect()
}

/// Calls `str::to_lowercase`. The result is a function of the text alone; ASCII
/// text comes out with its capitals replaced.
#[verifier::external_body]
pub(crate) fn lower_cased(text: &str) -> (r: String)
    ensures
        r@ == lowercase_text(text@),
        ascii_chars(text@) ==> r@ == lowered(text@),
{
    text.to_lowercase()
}

} // verus!
