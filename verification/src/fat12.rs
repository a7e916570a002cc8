//! Cluster chains of a FAT12.
//!
//! Two entries of twelve bits share three bytes: the first byte holds the low
//! eight bits of the even entry, the second one the low four bits of the odd
//! entry above the high four bits of the even one, the third one the high eight
//! bits of the odd entry. Entries from 0xFF8 on end a chain.

use crate::bpb::Bpb;
use crate::error::FsError;
use crate::fat::{chain_from, read_table, table_bytes};
use crate::image::DiskImage;
use vstd::prelude::*;

verus! {

/// The smallest entry that ends a FAT12 chain.
pub const FAT12_END: u16 = 0xFF8;

/// The number of links after which a FAT12 chain is cut off.
pub const FAT12_LINKS: usize = 100_000;

/// Entry `n` of the FAT12 in `raw`; past the end of the table every entry ends
/// its chain.
pub open spec fn fat12_entry(raw: Seq<u8>, n: u16) -> u16 {
    let at = n as int + n as int / 2;
    if at + 1 >= raw.len() {
        FAT12_END
    } else if n % 2 == 0 {
        (raw[at] as int + 0x100 * (raw[at + 1] as int % 0x10)) as u16
    } else {
        (raw[at] as int / 0x10 + 0x10 * raw[at + 1] as int) as u16
    }
}

/// The chain that starts at `start` in the FAT12 in `raw`.
pub open spec fn fat12_chain(raw: Seq<u8>, start: u16) -> Seq<u16> {
    chain_from(|n: u16| fat12_entry(raw, n), FAT12_END, FAT12_LINKS as nat, start)
}

/// The three bytes that hold an even entry and the odd one after it.
pub open spec fn packed_pair(even: u16, odd: u16) -> Seq<u8> {
    seq![
        (even % 0x100) as u8,
        (even as int / 0x100 + 0x10 * (odd as int % 0x10)) as u8,
        (odd / 0x10) as u8,
    ]
}

/// Entries read back as they were packed.
pub proof fn packed_entries_read_back(raw: Seq<u8>, n: u16, even: u16, odd: u16)
    requires
        n % 2 == 0,
        n < u16::MAX,
        even < 0x1000,
        odd < 0x1000,
        3 * (n / 2) + 3 <= raw.len(),
        raw.subrange(3 * (n / 2), 3 * (n / 2) + 3) == packed_pair(even, odd),
    ensures
        fat12_entry(raw, n) == even,
        fat12_entry(raw, (n + 1) as u16) == odd,
{
    let at = 3 * (n as int / 2);
    let three = raw.subrange(at, at + 3);
    assert(raw[at] == three[0]);
    assert(raw[at + 1] == three[1]);
    assert(raw[at + 2] == three[2]);
    assert((n + 1) / 2 == n / 2);
    assert(n == 2 * (n / 2));
}

/// A FAT12.
pub struct Fat12 {
    raw: Vec<u8>,
}

impl View for Fat12 {
    type V = Seq<u8>;

    closed spec fn view(&self) -> Seq<u8> {
        self.raw@
    }
}

impl Fat12 {
    /// Reads the first FAT of a disk.
    pub fn load<D: DiskImage>(image: &D, bpb: &Bpb) -> (r: Result<Self, FsError>)
        ensures
            match r {
                Ok(f) => table_bytes(*image, *bpb) == Ok::<Seq<u8>, FsError>(f@),
                Err(e) => table_bytes(*image, *bpb) == Err::<Seq<u8>, FsError>(e),
            },
    {
        let raw: Vec<u8> = read_table(image, bpb)?;
        Ok(Fat12 { raw })
    }

    /// A table that is already in memory.
    pub fn from_raw(raw: Vec<u8>) -> (r: Self)
        ensures
            r@ == raw@,
    {
        Fat12 { raw }
    }

    /// The entry of cluster `n`.
    pub fn entry(&self, n: u16) -> (r: u16)
        ensures
            r == fat12_entry(self@, n),
            r < 0x1000,
    {
        let at: usize = n as usize + n as usize / 2;
        if at + 1 >= self.raw.len() {
            return FAT12_END;
        }
        let lo: u16 = self.raw[at] as u16;
        let hi: u16 = self.raw[at + 1] as u16;
        if n % 2 == 0 {
            lo + 0x100 * (hi % 0x10)
        } else {
            lo / 0x10 + 0x10 * hi
        }
    }

    /// The clusters of the chain that starts at `start`.
    pub fn chain(&self, start: u16) -> (r: Vec<u16>)
        ensures
            r@ == fat12_chain(self@, start),
    {
        let ghost next = |n: u16| fat12_entry(self@, n);
        let mut out: Vec<u16> = Vec::new();
        let mut cur: u16 = start;
        while cur >= 2 && cur < FAT12_END
            invariant_except_break
                out@.len() <= FAT12_LINKS,
                fat12_chain(self@, start) =~= out@ + chain_from(
                    next,
                    FAT12_END,
                    (FAT12_LINKS - out@.len()) as nat,
                    cur,
                ),
            invariant
                next == |n: u16| fat12_entry(self@, n),
            ensures
                out@ == fat12_chain(self@, start),
            decreases FAT12_LINKS + 1 - out@.len(),
        {
            out.push(cur);
            let after: u16 = self.entry(cur);
            assert(after == next(cur));
            if after == cur {
                break;
            }
            if out.len() > FAT12_LINKS {
                break;
            }
            cur = after;
        }
        out
    }
}

} // verus!
