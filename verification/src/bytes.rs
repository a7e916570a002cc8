//! Integers and markers in raw bytes.

use vstd::prelude::*;

verus! {

/// The 16-bit little-endian number at `at`.
pub open spec fn le16(b: Seq<u8>, at: int) -> u16 {
    (b[at] as int + 0x100 * b[at + 1] as int) as u16
}

/// The 16-bit big-endian number at `at`.
pub open spec fn be16(b: Seq<u8>, at: int) -> u16 {
    (0x100 * b[at] as int + b[at + 1] as int) as u16
}

/// The 32-bit little-endian number at `at`.
pub open spec fn le32(b: Seq<u8>, at: int) -> u32 {
    (le16(b, at) as int + 0x1_0000 * le16(b, at + 2) as int) as u32
}

/// The 32-bit big-endian number at `at`.
pub open spec fn be32(b: Seq<u8>, at: int) -> u32 {
    (0x1_0000 * be16(b, at) as int + be16(b, at + 2) as int) as u32
}

/// Whether `needle` stands in `b` at `at`.
pub open spec fn stands_at(b: Seq<u8>, at: int, needle: Seq<u8>) -> bool {
    0 <= at && at + needle.len() <= b.len() && b.subrange(at, at + needle.len()) =~= needle
}

pub fn read_le16(b: &[u8], at: usize) -> (n: u16)
    requires
        at + 2 <= b@.len(),
    ensures
        n == le16(b@, at as int),
{
    b[at] as u16 + 0x100 * b[at + 1] as u16
}

pub fn read_be16(b: &[u8], at: usize) -> (n: u16)
    requires
        at + 2 <= b@.len(),
    ensures
        n == be16(b@, at as int),
{
    0x100 * b[at] as u16 + b[at + 1] as u16
}

pub fn read_le32(b: &[u8], at: usize) -> (n: u32)
    requires
        at + 4 <= b@.len(),
    ensures
        n == le32(b@, at as int),
{
    assert(at + 4 <= b.len());
    read_le16(b, at) as u32 + 0x1_0000 * read_le16(b, at + 2) as u32
}

pub fn read_be32(b: &[u8], at: usize) -> (n: u32)
    requires
        at + 4 <= b@.len(),
    ensures
        n == be32(b@, at as int),
{
    assert(at + 4 <= b.len());
    0x1_0000 * read_be16(b, at) as u32 + read_be16(b, at + 2) as u32
}

/// Whether two byte strings are equal.
pub fn same_bytes(a: &[u8], b: &[u8]) -> (r: bool)
    ensures
        r == (a@ == b@),
{
    if a.len() != b.len() {
        return false;
    }
    let mut i: usize = 0;
    while i < a.len()
        invariant
            i <= a.len(),
            a@.len() == b@.len(),
            forall|k: int| 0 <= k < i ==> a@[k] == b@[k],
        decreases a.len() - i,
    {
        if a[i] != b[i] {
            return false;
        }
        i = i + 1;
    }
    assert(a@ =~= b@);
    true
}

/// Whether `needle` stands in `b` at `at`.
pub fn has_at(b: &[u8], at: usize, needle: &[u8]) -> (r: bool)
    ensures
        r == stands_at(b@, at as int, needle@),
{
    if at > b.len() || b.len() - at < needle.len() {
        return false;
    }
    same_bytes(&b[at..at + needle.len()], needle)
}

/// A copy of `b[from..to]`.
pub fn copy_range(b: &[u8], from: usize, to: usize) -> (r: Vec<u8>)
    requires
        from <= to <= b@.len(),
    ensures
        r@ == b@.subrange(from as int, to as int),
{
    let mut out: Vec<u8> = Vec::new();
    push_bytes(&mut out, &b[from..to]);
    assert(out@ =~= b@.subrange(from as int, to as int));
    out
}

/// Appends `more` to `out`.
pub fn push_bytes(out: &mut Vec<u8>, more: &[u8])
    ensures
        final(out)@ == old(out)@ + more@,
{
    out.extend_from_slice(more);
    assert(out@ =~= old(out)@ + more@);
}

} // verus!
