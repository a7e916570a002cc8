//! Short names for contents: the beginning of a hash, in hexadecimal.

use vstd::prelude::*;

verus! {

/// The SHA-1 hash of a byte string.
pub uninterp spec fn sha1_digest(bytes: Seq<u8>) -> Seq<u8>;

/// Calls `sha1::Digest::digest` for `sha1::Sha1`: a function of the bytes alone,
/// of 20 bytes.
#[verifier::external_body]
fn sha1_of(bytes: &[u8]) -> (r: Vec<u8>)
    ensures
        r@ == sha1_digest(bytes@),
        r@.len() == 20,
{
    <sha1::Sha1 as sha1::Digest>::digest(bytes).to_vec()
}

/// The hexadecimal digit of a number below 16.
pub open spec fn hex_digit(n: int) -> char {
    if n < 10 {
        ((48 + n) as u8) as char
    } else {
        ((87 + n) as u8) as char
    }
}

/// Bytes in hexadecimal, two digits each.
pub open spec fn hex_text(b: Seq<u8>) -> Seq<char> {
    Seq::new(
        2 * b.len(),
        |i: int|
            hex_digit(
                if i % 2 == 0 {
                    b[i / 2] as int / 16
                } else {
                    b[i / 2] as int % 16
                },
            ),
    )
}

/// The first eight bytes of a hash in hexadecimal.
pub open spec fn short_hex(digest: Seq<u8>) -> Seq<char> {
    hex_text(digest.take(8))
}

/// The name of a byte string: sixteen digits of its hash.
pub open spec fn short_hash(bytes: Seq<u8>) -> Seq<char> {
    short_hex(sha1_digest(bytes))
}

fn push_hex(out: &mut String, n: u8)
    requires
        n < 16,
    ensures
        final(out)@ == old(out)@.push(hex_digit(n as int)),
{
    if n < 10 {
        out.push((48 + n) as char);
    } else {
        out.push((87 + n) as char);
    }
}

/// The first eight bytes of a hash in hexadecimal.
pub fn hex_of_digest(digest: &[u8]) -> (r: String)
    requires
        digest@.len() >= 8,
    ensures
        r@ == short_hex(digest@),
        r@.len() == 16,
{
    let mut out = String::new();
    let mut i: usize = 0;
    while i < 8
        invariant
            i <= 8,
            digest@.len() >= 8,
            out@ =~= hex_text(digest@.take(i as int)),
        decreases 8 - i,
    {
        let b: u8 = digest[i];
        push_hex(&mut out, b / 16);
        push_hex(&mut out, b % 16);
        assert(out@ =~= hex_text(digest@.take(i + 1)));
        i = i + 1;
    }
    out
}

/// The name of a byte string: sixteen digits of its hash.
pub fn short_hash_of(bytes: &[u8]) -> (r: String)
    ensures
        r@ == short_hash(bytes@),
        r@.len() == 16,
{
    let digest: Vec<u8> = sha1_of(bytes);
    hex_of_digest(digest.as_slice())
}

} // verus!
