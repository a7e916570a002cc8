//! Directory entries of Human68k.
//!
//! An entry has 32 bytes. It is the one of MS-DOS, except that the file name
//! goes on in the reserved area:
//!
//! | offset    | size | content                                         |
//! |-----------|------|-------------------------------------------------|
//! | 0x00-0x07 | 8    | name (first byte 0x00: empty, 0xE5: deleted)    |
//! | 0x08-0x0A | 3    | extension                                       |
//! | 0x0B      | 1    | attributes                                      |
//! | 0x0C-0x14 | 9    | continuation of the name                        |
//! | 0x16-0x17 | 2    | time                                            |
//! | 0x18-0x19 | 2    | date                                            |
//! | 0x1A-0x1B | 2    | first cluster                                   |
//! | 0x1C-0x1F | 4    | size                                            |

use crate::bytes::{copy_range, le16, le32, push_bytes, read_le16, read_le32};
use crate::codec::{ascii_only, ascii_text, decode_shift_jis, sjis_text};
use vstd::prelude::*;
use vstd::string::StringExecFns;

verus! {

/// The size of a directory entry in bytes.
pub const ENTRY_SIZE: usize = 32;

/// What a directory slot holds.
#[derive(Clone, Copy, Debug, PartialEq, Eq, Structural)]
pub enum EntryKind {
    Empty,
    Deleted,
    Used,
}

/// The attributes of an entry, one bit each.
#[derive(Clone, Copy, Debug, PartialEq, Eq, Structural)]
pub struct Attr {
    pub bits: u8,
}

impl Attr {
    pub const READ_ONLY: u8 = 0x01;

    pub const HIDDEN: u8 = 0x02;

    pub const SYSTEM: u8 = 0x04;

    pub const VOLUME: u8 = 0x08;

    pub const DIRECTORY: u8 = 0x10;

    pub const ARCHIVE: u8 = 0x20;

    pub const LINK: u8 = 0x40;

    /// Whether all bits of `flag` are set.
    pub open spec fn has(self, flag: u8) -> bool {
        self.bits & flag == flag
    }

    /// The attributes in a byte; a bit that means nothing is dropped.
    pub fn from_bits_truncate(bits: u8) -> (r: Self)
        ensures
            r == (Attr { bits: bits & 0x7F }),
    {
        Attr { bits: bits & 0x7F }
    }

    /// The attributes as a byte.
    pub fn bits(&self) -> (r: u8)
        ensures
            r == self.bits,
    {
        self.bits
    }

    /// Whether all bits of `flag` are set.
    pub fn contains(&self, flag: u8) -> (r: bool)
        ensures
            r == self.has(flag),
    {
        self.bits & flag == flag
    }
}

/// Each named attribute is a bit that survives truncation.
pub proof fn named_bits_are_kept(bits: u8)
    ensures
        forall|flag: u8|
            flag < 0x80 ==> (#[trigger] (Attr { bits: bits & 0x7F }).has(flag) == (Attr {
                bits,
            }).has(flag)),
{
    assert forall|flag: u8| flag < 0x80 implies #[trigger] (Attr { bits: bits & 0x7F }).has(flag)
        == (Attr { bits }).has(flag) by {
        assert(flag < 0x80 ==> ((bits & 0x7F) & flag == flag <==> bits & flag == flag))
            by (bit_vector);
    }
}

/// A directory entry.
#[derive(Debug)]
pub struct DirEntry {
    pub kind: EntryKind,
    pub name: String,
    pub ext: String,
    pub attr: Attr,
    pub start_cluster: u16,
    pub size: u32,
    pub date_raw: u16,
    pub time_raw: u16,
}

/// A directory entry as a mathematical value.
pub struct DirEntryModel {
    pub kind: EntryKind,
    pub name: Seq<char>,
    pub ext: Seq<char>,
    pub attr: Attr,
    pub start_cluster: u16,
    pub size: u32,
    pub date_raw: u16,
    pub time_raw: u16,
}

impl View for DirEntry {
    type V = DirEntryModel;

    open spec fn view(&self) -> DirEntryModel {
        DirEntryModel {
            kind: self.kind,
            name: self.name@,
            ext: self.ext@,
            attr: self.attr,
            start_cluster: self.start_cluster,
            size: self.size,
            date_raw: self.date_raw,
            time_raw: self.time_raw,
        }
    }
}

/// The entries of a directory as mathematical values.
pub open spec fn entry_models(entries: Seq<DirEntry>) -> Seq<DirEntryModel> {
    Seq::new(entries.len(), |i: int| entries[i]@)
}

/// `v` without the spaces and zero bytes at its end.
pub open spec fn without_padding(v: Seq<u8>) -> Seq<u8>
    decreases v.len(),
{
    if v.len() > 0 && (v.last() == 0x20 || v.last() == 0x00) {
        without_padding(v.drop_last())
    } else {
        v
    }
}

/// What the first byte of an entry says of it.
pub open spec fn kind_of(first: u8) -> EntryKind {
    if first == 0x00 {
        EntryKind::Empty
    } else if first == 0xE5 {
        EntryKind::Deleted
    } else {
        EntryKind::Used
    }
}

/// The bytes of the name: the main part and its continuation without padding. A
/// deleted entry has lost its first byte, for which a question mark stands.
pub open spec fn name_bytes(b: Seq<u8>) -> Seq<u8> {
    let whole = without_padding(b.subrange(0x00, 0x08) + b.subrange(0x0C, 0x15));
    if kind_of(b[0]) == EntryKind::Deleted && whole.len() > 0 {
        whole.update(0, 0x3F)
    } else {
        whole
    }
}

/// The bytes of the extension, without padding.
pub open spec fn ext_bytes(b: Seq<u8>) -> Seq<u8> {
    without_padding(b.subrange(0x08, 0x0B))
}

/// The entry that 32 bytes describe.
pub open spec fn entry_of(b: Seq<u8>) -> DirEntryModel {
    DirEntryModel {
        kind: kind_of(b[0]),
        name: sjis_text(name_bytes(b)),
        ext: sjis_text(ext_bytes(b)),
        attr: Attr { bits: b[0x0B] & 0x7F },
        start_cluster: le16(b, 0x1A),
        size: le32(b, 0x1C),
        date_raw: le16(b, 0x18),
        time_raw: le16(b, 0x16),
    }
}

/// The name as it is shown: with its extension, if it has one.
pub open spec fn shown_name(name: Seq<char>, ext: Seq<char>) -> Seq<char> {
    if ext.len() == 0 {
        name
    } else {
        name + seq!['.'] + ext
    }
}

/// Removes the spaces and zero bytes at the end of `v`.
pub fn trim_trailing_padding(v: &mut Vec<u8>)
    ensures
        final(v)@ == without_padding(old(v)@),
{
    while v.len() > 0 && (v[v.len() - 1] == 0x20 || v[v.len() - 1] == 0x00)
        invariant
            without_padding(v@) == without_padding(old(v)@),
        decreases v.len(),
    {
        let ghost before = v@;
        v.pop();
        assert(v@ == before.drop_last());
    }
}

/// What is left after the padding is removed is a beginning of what was there,
/// and does not end in padding.
pub proof fn padding_is_all_that_goes(v: Seq<u8>)
    ensures
        without_padding(v).len() <= v.len(),
        without_padding(v) == v.take(without_padding(v).len() as int),
        without_padding(v).len() > 0 ==> without_padding(v).last() != 0x20 && without_padding(
            v,
        ).last() != 0x00,
        forall|i: int|
            without_padding(v).len() <= i < v.len() ==> v[i] == 0x20 || v[i] == 0x00,
    decreases v.len(),
{
    if v.len() > 0 && (v.last() == 0x20 || v.last() == 0x00) {
        padding_is_all_that_goes(v.drop_last());
        let n = without_padding(v).len() as int;
        assert(v.drop_last().take(n) =~= v.take(n));
        assert forall|i: int| n <= i < v.len() implies v[i] == 0x20 || v[i] == 0x00 by {
            if i < v.len() - 1 {
                assert(v[i] == v.drop_last()[i]);
            }
        }
    } else {
        assert(v.take(v.len() as int) =~= v);
    }
}

impl Clone for DirEntry {
    fn clone(&self) -> (r: Self)
        ensures
            r@ == self@,
    {
        DirEntry {
            kind: self.kind,
            name: self.name.clone(),
            ext: self.ext.clone(),
            attr: self.attr,
            start_cluster: self.start_cluster,
            size: self.size,
            date_raw: self.date_raw,
            time_raw: self.time_raw,
        }
    }
}

impl DirEntry {
    /// Reads an entry; nothing where there are too few bytes.
    pub fn parse(bytes: &[u8]) -> (r: Option<Self>)
        ensures
            match r {
                Some(e) => {
                    &&& bytes@.len() >= ENTRY_SIZE
                    &&& e@ == entry_of(bytes@)
                    &&& ascii_only(name_bytes(bytes@)) ==> e@.name == ascii_text(name_bytes(bytes@))
                    &&& ascii_only(ext_bytes(bytes@)) ==> e@.ext == ascii_text(ext_bytes(bytes@))
                },
                None => bytes@.len() < ENTRY_SIZE,
            },
    {
        if bytes.len() < ENTRY_SIZE {
            return None;
        }
        let kind = match bytes[0] {
            0x00 => EntryKind::Empty,
            0xE5 => EntryKind::Deleted,
            _ => EntryKind::Used,
        };
        let mut name_part: Vec<u8> = copy_range(bytes, 0x00, 0x08);
        push_bytes(&mut name_part, &bytes[0x0C..0x15]);
        let ghost whole = name_part@;
        trim_trailing_padding(&mut name_part);
        proof {
            padding_is_all_that_goes(whole);
        }
        if kind == EntryKind::Deleted && name_part.len() > 0 {
            name_part[0] = 0x3F;
        }
        assert(name_part@ == name_bytes(bytes@));
        let mut ext_part: Vec<u8> = copy_range(bytes, 0x08, 0x0B);
        let ghost whole_ext = ext_part@;
        trim_trailing_padding(&mut ext_part);
        proof {
            padding_is_all_that_goes(whole_ext);
        }
        let name = decode_shift_jis(name_part.as_slice());
        let ext = decode_shift_jis(ext_part.as_slice());
        Some(
            DirEntry {
                kind,
                name,
                ext,
                attr: Attr::from_bits_truncate(bytes[0x0B]),
                start_cluster: read_le16(bytes, 0x1A),
                size: read_le32(bytes, 0x1C),
                date_raw: read_le16(bytes, 0x18),
                time_raw: read_le16(bytes, 0x16),
            },
        )
    }

    /// The name as it is shown: with its extension, if it has one.
    pub fn display_name(&self) -> (r: String)
        ensures
            r@ == shown_name(self@.name, self@.ext),
    {
        if self.ext.as_str().is_empty() {
            self.name.clone()
        } else {
            let mut out = self.name.clone();
            out.push('.');
            out.append(self.ext.as_str());
            out
        }
    }

    /// Year, month and day of the last change: seven bits for the years since
    /// 1980, four for the month, five for the day.
    pub fn date(&self) -> (r: (u16, u8, u8))
        ensures
            r.0 == 1980 + self@.date_raw as int / 0x200,
            r.1 == self@.date_raw as int / 0x20 % 0x10,
            r.2 == self@.date_raw as int % 0x20,
    {
        let d: u16 = self.date_raw;
        (1980 + d / 0x200, (d / 0x20 % 0x10) as u8, (d % 0x20) as u8)
    }

    /// Hour, minute and second of the last change: five bits for the hour, six
    /// for the minute, five for the pairs of seconds.
    pub fn time(&self) -> (r: (u8, u8, u8))
        ensures
            r.0 == self@.time_raw as int / 0x800,
            r.1 == self@.time_raw as int / 0x20 % 0x40,
            r.2 == 2 * (self@.time_raw as int % 0x20),
    {
        let t: u16 = self.time_raw;
        ((t / 0x800) as u8, (t / 0x20 % 0x40) as u8, (t % 0x20) as u8 * 2)
    }
}

} // verus!
