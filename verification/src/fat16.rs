//! Cluster chains of a FAT16.
//!
//! Each entry has sixteen bits, stored big-endian as everything on a Human68k
//! hard disk. Entries from 0xFFF8 on end a chain.

use crate::bpb::Bpb;
use crate::bytes::{be16, read_be16};
use crate::error::FsError;
use crate::fat::{chain_from, read_table, table_bytes};
use crate::image::DiskImage;
use vstd::prelude::*;

verus! {

/// The smallest entry that ends a FAT16 chain.
pub const FAT16_END: u16 = 0xFFF8;

/// The number of links after which a FAT16 chain is cut off.
pub const FAT16_LINKS: usize = 1_000_000;

/// Entry `n` of the FAT16 in `raw`; past the end of the table every entry ends
/// its chain.
pub open spec fn fat16_entry(raw: Seq<u8>, n: u16) -> u16 {
    if 2 * n + 1 >= raw.len() {
        FAT16_END
    } else {
        be16(raw, 2 * n)
    }
}

/// The chain that starts at `start` in the FAT16 in `raw`.
pub open spec fn fat16_chain(raw: Seq<u8>, start: u16) -> Seq<u16> {
    chain_from(|n: u16| fat16_entry(raw, n), FAT16_END, FAT16_LINKS as nat, start)
}

/// A FAT16.
pub struct Fat16 {
    raw: Vec<u8>,
}

impl View for Fat16 {
    type V = Seq<u8>;

    closed spec fn view(&self) -> Seq<u8> {
        self.raw@
    }
}

impl Fat16 {
    /// Reads the first FAT of a disk.
    pub fn load<D: DiskImage>(image: &D, bpb: &Bpb) -> (r: Result<Self, FsError>)
        ensures
            match r {
                Ok(f) => table_bytes(*image, *bpb) == Ok::<Seq<u8>, FsError>(f@),
                Err(e) => table_bytes(*image, *bpb) == Err::<Seq<u8>, FsError>(e),
            },
    {
        let raw: Vec<u8> = read_table(image, bpb)?;
        Ok(Fat16 { raw })
    }

    /// A table that is already in memory.
    pub fn from_raw(raw: Vec<u8>) -> (r: Self)
        ensures
            r@ == raw@,
    {
        Fat16 { raw }
    }

    /// The entry of cluster `n`.
    pub fn entry(&self, n: u16) -> (r: u16)
        ensures
            r == fat16_entry(self@, n),
    {
        let at: usize = n as usize * 2;
        if at + 1 >= self.raw.len() {
            return FAT16_END;
        }
        read_be16(self.raw.as_slice(), at)
    }

    /// The clusters of the chain that starts at `start`.
    pub fn chain(&self, start: u16) -> (r: Vec<u16>)
        ensures
            r@ == fat16_chain(self@, start),
    {
        let ghost next = |n: u16| fat16_entry(self@, n);
        let mut out: Vec<u16> = Vec::new();
        let mut cur: u16 = start;
        while cur >= 2 && cur < FAT16_END
            invariant_except_break
                out@.len() <= FAT16_LINKS,
                fat16_chain(self@, start) =~= out@ + chain_from(
                    next,
                    FAT16_END,
                    (FAT16_LINKS - out@.len()) as nat,
                    cur,
                ),
            invariant
                next == |n: u16| fat16_entry(self@, n),
            ensures
                out@ == fat16_chain(self@, start),
            decreases FAT16_LINKS + 1 - out@.len(),
        {
            out.push(cur);
            let after: u16 = self.entry(cur);
            assert(after == next(cur));
            if after == cur {
                break;
            }
            if out.len() > FAT16_LINKS {
                break;
            }
            cur = after;
        }
        out
    }

    /// The bytes of the table.
    pub fn raw(&self) -> (r: &[u8])
        ensures
            r@ == self@,
    {
        self.raw.as_slice()
    }
}

} // verus!
