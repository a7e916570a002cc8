//! The partition table of an X68000 hard disk.
//!
//! The table starts at physical sector 4 with a header of 16 bytes, which has
//! the magic bytes `X68K`, followed by entries of 16 bytes each. Numbers are
//! big-endian.

use crate::bytes::{be32, has_at, read_be32, stands_at};
use crate::codec::{ascii_is_utf8, ascii_only, ascii_text, decode_utf8_lossy, utf8_text};
use crate::error::FsError;
use crate::text::{end_trimmed, same_text, trim_end};
use vstd::prelude::*;
use vstd::utf8::{decode_utf8, valid_utf8};

verus! {

/// The magic bytes `X68K`.
pub const PARTITION_MAGIC: [u8; 4] = [0x58, 0x36, 0x38, 0x4B];

/// The physical sector that holds the table.
pub const PARTITION_TABLE_SECTOR: usize = 4;

/// The size of the header in bytes.
pub const HEADER_SIZE: usize = 16;

/// The size of an entry in bytes.
pub const ENTRY_SIZE: usize = 16;

/// The largest number of entries.
pub const MAX_ENTRIES: usize = 15;

/// The size of a whole table in bytes.
pub const TABLE_BYTES: usize = 256;

/// An entry of a partition table.
#[derive(Debug, PartialEq, Eq)]
pub struct Partition {
    /// The name, without padding.
    pub name: String,
    /// The first sector, in the units of the disk format.
    pub start_sector: u32,
    /// The number of sectors, in the same units.
    pub length_sectors: u32,
}

/// An entry of a partition table as a mathematical value.
pub struct PartitionModel {
    pub name: Seq<char>,
    pub start_sector: u32,
    pub length_sectors: u32,
}

impl View for Partition {
    type V = PartitionModel;

    open spec fn view(&self) -> PartitionModel {
        PartitionModel {
            name: self.name@,
            start_sector: self.start_sector,
            length_sectors: self.length_sectors,
        }
    }
}

/// Entries as mathematical values.
pub open spec fn partition_models(v: Seq<Partition>) -> Seq<PartitionModel> {
    Seq::new(v.len(), |i: int| v[i]@)
}

/// The bytes before the first zero byte.
pub open spec fn until_zero(b: Seq<u8>) -> Seq<u8>
    decreases b.len(),
{
    if b.len() == 0 || b[0] == 0 {
        Seq::empty()
    } else {
        seq![b[0]] + until_zero(b.skip(1))
    }
}

/// The name in a field of a table: what stands before the first zero byte, without
/// the white space at its end.
pub open spec fn field_name(b: Seq<u8>) -> Seq<char> {
    end_trimmed(utf8_text(until_zero(b)))
}

/// The partition that the 16 bytes of an entry describe.
pub open spec fn partition_of(b: Seq<u8>) -> PartitionModel {
    PartitionModel {
        name: field_name(b.subrange(0, 8)),
        start_sector: be32(b, 8),
        length_sectors: be32(b, 12),
    }
}

/// Whether a partition holds a Human68k file system.
pub open spec fn named_human68k(name: Seq<char>) -> bool {
    name == "Human68k"@
}

/// The bytes of entry `i` of a table.
pub open spec fn entry_bytes(buf: Seq<u8>, i: int) -> Seq<u8> {
    buf.subrange(HEADER_SIZE + ENTRY_SIZE * i, HEADER_SIZE + ENTRY_SIZE * i + ENTRY_SIZE)
}

/// Whether the table ends before entry `i`: there are no more entries, the entry
/// is all zero, or another table follows.
pub open spec fn table_ends(buf: Seq<u8>, i: int) -> bool {
    ||| i >= MAX_ENTRIES
    ||| HEADER_SIZE + ENTRY_SIZE * i + ENTRY_SIZE > buf.len()
    ||| forall|k: int| 0 <= k < ENTRY_SIZE ==> #[trigger] entry_bytes(buf, i)[k] == 0
    ||| stands_at(entry_bytes(buf, i), 0, PARTITION_MAGIC@)
}

/// The partitions of a table from entry `i` on; an entry that starts with a zero
/// byte is unused.
pub open spec fn partitions_from(buf: Seq<u8>, i: int) -> Seq<PartitionModel>
    decreases MAX_ENTRIES - i,
{
    if i < 0 || table_ends(buf, i) {
        Seq::empty()
    } else if entry_bytes(buf, i)[0] == 0 {
        partitions_from(buf, i + 1)
    } else {
        seq![partition_of(entry_bytes(buf, i))] + partitions_from(buf, i + 1)
    }
}

/// Why bytes are no partition table, if they are none.
pub open spec fn table_error(buf: Seq<u8>) -> Option<FsError> {
    if buf.len() < HEADER_SIZE {
        Some(FsError::PartitionTableTooShort)
    } else if !stands_at(buf, 0, PARTITION_MAGIC@) {
        Some(FsError::PartitionTableMagic)
    } else {
        None
    }
}

impl Clone for Partition {
    fn clone(&self) -> (r: Self)
        ensures
            r@ == self@,
    {
        Partition {
            name: self.name.clone(),
            start_sector: self.start_sector,
            length_sectors: self.length_sectors,
        }
    }
}

impl Partition {
    /// Reads an entry; nothing where there are too few bytes or the entry is
    /// unused.
    pub fn parse(buf: &[u8]) -> (r: Option<Self>)
        ensures
            match r {
                Some(p) => {
                    &&& buf@.len() >= ENTRY_SIZE
                    &&& buf@[0] != 0
                    &&& p@ == partition_of(buf@)
                    &&& valid_utf8(until_zero(buf@.subrange(0, 8))) ==> p@.name == end_trimmed(
                        decode_utf8(until_zero(buf@.subrange(0, 8))),
                    )
                    &&& ascii_only(until_zero(buf@.subrange(0, 8))) ==> p@.name == end_trimmed(
                        ascii_text(until_zero(buf@.subrange(0, 8))),
                    )
                },
                None => buf@.len() < ENTRY_SIZE || buf@[0] == 0,
            },
    {
        if buf.len() < ENTRY_SIZE || buf[0] == 0x00 {
            return None;
        }
        Some(
            Partition {
                name: bytes_to_ascii(&buf[0..8]),
                start_sector: read_be32(buf, 8),
                length_sectors: read_be32(buf, 12),
            },
        )
    }

    /// Where the partition starts, in bytes from the start of the disk.
    pub fn start_bytes(&self, unit_bytes: usize) -> (r: u64)
        requires
            self.start_sector * unit_bytes <= u64::MAX,
        ensures
            r == self.start_sector * unit_bytes,
    {
        self.start_sector as u64 * unit_bytes as u64
    }

    /// The size of the partition in bytes.
    pub fn length_bytes(&self, unit_bytes: usize) -> (r: u64)
        requires
            self.length_sectors * unit_bytes <= u64::MAX,
        ensures
            r == self.length_sectors * unit_bytes,
    {
        self.length_sectors as u64 * unit_bytes as u64
    }

    /// Whether this is a Human68k partition.
    pub fn is_human68k(&self) -> (r: bool)
        ensures
            r == named_human68k(self@.name),
    {
        same_text(self.name.as_str(), "Human68k")
    }
}

/// A partition table.
#[derive(Debug)]
pub struct PartitionTable {
    /// The sector after the last one in use.
    pub end_used_sector: u32,
    /// The last sector of the disk.
    pub last_sector: u32,
    /// A second count of the last sector.
    pub last_sector_2: u32,
    /// The partitions.
    pub partitions: Vec<Partition>,
}

impl PartitionTable {
    /// Reads a table.
    pub fn parse(buf: &[u8]) -> (r: Result<Self, FsError>)
        ensures
            match r {
                Ok(t) => {
                    &&& table_error(buf@) is None
                    &&& t.end_used_sector == be32(buf@, 4)
                    &&& t.last_sector == be32(buf@, 8)
                    &&& t.last_sector_2 == be32(buf@, 12)
                    &&& partition_models(t.partitions@) == partitions_from(buf@, 0)
                },
                Err(e) => table_error(buf@) == Some(e),
            },
    {
        if buf.len() < HEADER_SIZE {
            return Err(FsError::PartitionTableTooShort);
        }
        if !has_at(buf, 0, PARTITION_MAGIC.as_slice()) {
            return Err(FsError::PartitionTableMagic);
        }
        let partitions: Vec<Partition> = read_entries(buf);
        Ok(
            PartitionTable {
                end_used_sector: read_be32(buf, 4),
                last_sector: read_be32(buf, 8),
                last_sector_2: read_be32(buf, 12),
                partitions,
            },
        )
    }

    /// The Human68k partitions, in the order of the table.
    pub fn human68k_partitions(&self) -> (r: Vec<&Partition>)
        ensures
            r@.map_values(|p: &Partition| *p) == self.partitions@.filter(
                |p: Partition| named_human68k(p@.name),
            ),
    {
        let ghost wanted = |p: Partition| named_human68k(p@.name);
        let mut out: Vec<&Partition> = Vec::new();
        let mut i: usize = 0;
        assert(out@.map_values(|p: &Partition| *p) =~= self.partitions@.take(0).filter(wanted)) by {
            assert(self.partitions@.take(0) =~= Seq::empty());
            reveal(Seq::filter);
        }
        while i < self.partitions.len()
            invariant
                i <= self.partitions@.len(),
                wanted == (|p: Partition| named_human68k(p@.name)),
                out@.map_values(|p: &Partition| *p) == self.partitions@.take(i as int).filter(
                    wanted,
                ),
            decreases self.partitions@.len() - i,
        {
            let ghost before = out@.map_values(|p: &Partition| *p);
            let p: &Partition = &self.partitions[i];
            proof {
                reveal(Seq::filter);
                assert(self.partitions@.take(i + 1).drop_last() =~= self.partitions@.take(
                    i as int,
                ));
            }
            if p.is_human68k() {
                out.push(p);
                assert(out@.map_values(|p: &Partition| *p) =~= before.push(*p));
            }
            i = i + 1;
        }
        assert(self.partitions@.take(i as int) =~= self.partitions@);
        out
    }
}

/// Reads the entries of a table up to its end.
fn read_entries(buf: &[u8]) -> (r: Vec<Partition>)
    requires
        buf@.len() >= HEADER_SIZE,
    ensures
        partition_models(r@) == partitions_from(buf@, 0),
{
    let mut out: Vec<Partition> = Vec::new();
    let mut i: usize = 0;
    assert(partition_models(out@) + partitions_from(buf@, 0) =~= partitions_from(buf@, 0));
    while i < MAX_ENTRIES
        invariant
            i <= MAX_ENTRIES,
            buf@.len() >= HEADER_SIZE,
            partition_models(out@) + partitions_from(buf@, i as int) == partitions_from(buf@, 0),
        decreases MAX_ENTRIES - i,
    {
        let at: usize = HEADER_SIZE + i * ENTRY_SIZE;
        if buf.len() < at + ENTRY_SIZE {
            assert(partition_models(out@) =~= partitions_from(buf@, 0));
            return out;
        }
        let entry: &[u8] = &buf[at..at + ENTRY_SIZE];
        assert(entry@ =~= entry_bytes(buf@, i as int));
        if all_zero(entry) || has_at(entry, 0, PARTITION_MAGIC.as_slice()) {
            assert(partition_models(out@) =~= partitions_from(buf@, 0));
            return out;
        }
        let ghost before = partition_models(out@);
        if let Some(p) = Partition::parse(entry) {
            out.push(p);
            assert(partition_models(out@) =~= before.push(p@));
        }
        assert(partition_models(out@) + partitions_from(buf@, i + 1) =~= before + partitions_from(
            buf@,
            i as int,
        ));
        i = i + 1;
    }
    assert(partition_models(out@) =~= partitions_from(buf@, 0));
    out
}

/// Whether all bytes are zero.
fn all_zero(b: &[u8]) -> (r: bool)
    ensures
        r == forall|k: int| 0 <= k < b@.len() ==> #[trigger] b@[k] == 0,
{
    let mut i: usize = 0;
    while i < b.len()
        invariant
            i <= b@.len(),
            forall|k: int| 0 <= k < i ==> #[trigger] b@[k] == 0,
        decreases b@.len() - i,
    {
        if b[i] != 0 {
            return false;
        }
        i = i + 1;
    }
    true
}

/// The name in a field of a table.
pub fn bytes_to_ascii(buf: &[u8]) -> (r: String)
    ensures
        r@ == field_name(buf@),
        ascii_only(until_zero(buf@)) ==> r@ == end_trimmed(ascii_text(until_zero(buf@))),
{
    let mut n: usize = 0;
    assert(buf@.skip(0) =~= buf@);
    assert(buf@.take(0) + until_zero(buf@.skip(0)) =~= until_zero(buf@));
    while n < buf.len() && buf[n] != 0
        invariant
            n <= buf@.len(),
            buf@.take(n as int) + until_zero(buf@.skip(n as int)) == until_zero(buf@),
        decreases buf@.len() - n,
    {
        assert(buf@.skip(n as int).skip(1) =~= buf@.skip(n + 1));
        assert(buf@.take(n + 1) + until_zero(buf@.skip(n + 1)) =~= buf@.take(n as int)
            + until_zero(buf@.skip(n as int)));
        n = n + 1;
    }
    let head: &[u8] = &buf[0..n];
    assert(head@ =~= until_zero(buf@));
    proof {
        if ascii_only(head@) {
            ascii_is_utf8(head@);
        }
    }
    let name: String = decode_utf8_lossy(head);
    trim_end(name.as_str())
}

} // verus!
