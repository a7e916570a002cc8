//! LZH archives inside disk images.
//!
//! A member is shown under the path of its archive, an exclamation mark and its
//! own path: `MUSIC/SONGS.LZH!/INTRO.ZMS`. Limits on the depth of nesting and on
//! sizes keep a hostile archive from unpacking without end.

use crate::bytes::{le32, read_le32};
use crate::codec::{decodable_length, sjis_text};
use crate::document::{attr_str_from_dir_flag, build_document, decode_sjis_lossy,
    document_models, excerpt_of, file_document, make_excerpt, plain_attr_text, ArchiveDocument,
    DocFields, FieldModel, FileModel, EXCERPT_BYTES};
use crate::path::{find_last, rfind_char};
use crate::schema::{is_text_extension, text_extension, Field};
use crate::text::{ends_in, ends_with, from_chars, lowered, same_text, to_chars,
    to_lower, to_upper, uppered};
use delharc::LhaDecodeReader;
use vstd::prelude::*;
use vstd::string::StringExecFns;

verus! {

/// The reader of an LZH archive: `delharc::LhaDecodeReader`.
#[verifier::external_type_specification]
#[verifier::external_body]
#[verifier::reject_recursive_types(R)]
pub struct ExLhaDecodeReader<R>(delharc::LhaDecodeReader<R>);

/// The moment of the last change of a member, in seconds since the beginning of
/// 1970.
#[derive(Clone, Copy, Debug, PartialEq, Eq, Structural)]
pub enum Modified {
    /// With a time zone.
    Utc(i64),
    /// Without one; taken as if it were UTC.
    Naive(i64),
    Unknown,
}

/// A member of an archive as a mathematical value.
pub struct LzhMember {
    /// Whether this is a directory.
    pub directory: bool,
    /// The size after unpacking, as the archive says.
    pub size: u64,
    /// Whether the header gives a path at all.
    pub has_path: bool,
    /// The name in the header, as it stands.
    pub raw_name: Seq<u8>,
    /// The extra headers, each with its kind in its first byte.
    pub extra_headers: Seq<Seq<u8>>,
    /// The moment of the last change, as far as the headers give one that can be
    /// computed with.
    pub modified: Modified,
    /// The name of the compression method.
    pub method: Seq<u8>,
    /// Whether the compression method is known.
    pub supported: bool,
    /// The size of the packed data, as the archive says.
    pub packed_size: u64,
    /// The archive from the packed data on.
    pub rest: Seq<u8>,
    /// Whether none of the packed data has been read yet.
    pub untouched: bool,
    /// What unpacking gives; none where the data is damaged.
    pub data: Option<Seq<u8>>,
}

/// The members of the archive in `bytes`; none where it does not start with
/// a valid header.
pub uninterp spec fn lzh_archive(bytes: Seq<u8>) -> Option<Seq<LzhMember>>;

/// Whether what follows the last member of the archive in `bytes` is no proper
/// end but a damaged header.
pub uninterp spec fn lzh_cut_off(bytes: Seq<u8>) -> bool;

/// The member that a reader stands at, with what is left of its data, and the
/// members after it.
pub uninterp spec fn members_left(reader: LhaDecodeReader<&[u8]>) -> Seq<LzhMember>;

/// Whether a reader will come upon a damaged header after the last member.
pub uninterp spec fn ends_damaged(reader: LhaDecodeReader<&[u8]>) -> bool;

/// Calls `delharc::LhaDecodeReader::new`, which reads the first header. What
/// the members are is a function of the bytes alone; there is at least one, and
/// nothing of their data has been read.
#[verifier::external_body]
fn open_archive<'a>(bytes: &'a [u8]) -> (r: Option<LhaDecodeReader<&'a [u8]>>)
    ensures
        match r {
            Some(reader) => {
                &&& lzh_archive(bytes@) == Some(members_left(reader))
                &&& lzh_cut_off(bytes@) == ends_damaged(reader)
                &&& members_left(reader).len() > 0
                &&& forall|i: int|
                    0 <= i < members_left(reader).len() ==> (#[trigger] members_left(
                        reader,
                    )[i]).untouched
            },
            None => lzh_archive(bytes@) is None,
        },
{
    LhaDecodeReader::new(bytes).ok()
}

/// Calls `delharc::header::LhaHeader::is_directory` on the current header.
#[verifier::external_body]
fn member_is_directory(reader: &LhaDecodeReader<&[u8]>) -> (r: bool)
    requires
        members_left(*reader).len() > 0,
    ensures
        r == members_left(*reader)[0].directory,
{
    reader.header().is_directory()
}

/// Reads the field `original_size` of the current `delharc::header::LhaHeader`.
#[verifier::external_body]
fn member_size(reader: &LhaDecodeReader<&[u8]>) -> (r: u64)
    requires
        members_left(*reader).len() > 0,
    ensures
        r == members_left(*reader)[0].size,
{
    reader.header().original_size
}

/// Calls `delharc::header::LhaHeader::parse_pathname` on the current header. The
/// path is pure ASCII, everything else in it being escaped. Which separators it
/// has depends on the host, so nothing is said of it beyond that and whether it
/// is empty.
#[verifier::external_body]
fn member_pathname(reader: &LhaDecodeReader<&[u8]>) -> (r: String)
    requires
        members_left(*reader).len() > 0,
    ensures
        (r@.len() > 0) == members_left(*reader)[0].has_path,
        forall|i: int| 0 <= i < r@.len() ==> (#[trigger] r@[i] as u32) < 0x80,
{
    reader.header().parse_pathname().to_string_lossy().into_owned()
}

/// Reads the field `filename` of the current `delharc::header::LhaHeader`, whose
/// length is one byte in the archive.
#[verifier::external_body]
fn member_raw_name(reader: &LhaDecodeReader<&[u8]>) -> (r: Vec<u8>)
    requires
        members_left(*reader).len() > 0,
    ensures
        r@ == members_left(*reader)[0].raw_name,
        r@.len() <= 255,
{
    reader.header().filename.to_vec()
}

/// Byte strings as mathematical values.
pub open spec fn byte_strings(v: Seq<Vec<u8>>) -> Seq<Seq<u8>> {
    Seq::new(v.len(), |i: int| v[i]@)
}

/// Calls `delharc::header::LhaHeader::iter_extra` on the current header and copies
/// each extra header.
#[verifier::external_body]
fn member_extra_headers(reader: &LhaDecodeReader<&[u8]>) -> (r: Vec<Vec<u8>>)
    requires
        members_left(*reader).len() > 0,
    ensures
        byte_strings(r@) == members_left(*reader)[0].extra_headers,
{
    reader.header().iter_extra().map(<[u8]>::to_vec).collect()
}

/// Whether an extra header gives the moment of the last change: one of Unix, or one
/// of Windows.
pub open spec fn gives_time(h: Seq<u8>) -> bool {
    (h.len() >= 5 && h[0] == 0x54) || (h.len() == 25 && h[0] == 0x41)
}

/// The moment of the last change in an extra header of Windows: so many times
/// a hundred nanoseconds since the beginning of 1601.
pub open spec fn windows_time(h: Seq<u8>) -> int {
    le32(h, 9) + 0x1_0000_0000 * le32(h, 13)
}

/// Whether a moment is before 1970 and not at a full second.
pub open spec fn early_fraction(time: int) -> bool {
    time < 116_444_736_000_000_000 && time % 10_000_000 != 0
}

/// Whether the moment of the last change cannot be computed: the first extra header
/// that gives it is one of Windows, and the fraction of its second is negative.
pub open spec fn time_overflows(headers: Seq<Seq<u8>>) -> bool
    decreases headers.len(),
{
    if headers.len() == 0 {
        false
    } else if gives_time(headers[0]) {
        headers[0][0] == 0x41 && early_fraction(windows_time(headers[0]))
    } else {
        time_overflows(headers.skip(1))
    }
}

/// Calls `delharc::header::LhaHeader::parse_last_modified` on the current header.
/// It overflows where the fraction of a second is negative.
#[verifier::external_body]
fn member_modified(reader: &LhaDecodeReader<&[u8]>) -> (r: Modified)
    requires
        members_left(*reader).len() > 0,
        !time_overflows(members_left(*reader)[0].extra_headers),
    ensures
        r == members_left(*reader)[0].modified,
{
    match reader.header().parse_last_modified() {
        delharc::header::TimestampResult::Utc(t) => Modified::Utc(t.timestamp()),
        delharc::header::TimestampResult::Naive(t) => Modified::Naive(t.and_utc().timestamp()),
        delharc::header::TimestampResult::None => Modified::Unknown,
    }
}

/// Calls `delharc::LhaDecodeReader::is_decoder_supported`.
#[verifier::external_body]
fn member_is_supported(reader: &LhaDecodeReader<&[u8]>) -> (r: bool)
    requires
        members_left(*reader).len() > 0,
    ensures
        r == members_left(*reader)[0].supported,
{
    reader.is_decoder_supported()
}

/// Reads the field `compression` of the current `delharc::header::LhaHeader`.
#[verifier::external_body]
fn member_method(reader: &LhaDecodeReader<&[u8]>) -> (r: Vec<u8>)
    requires
        members_left(*reader).len() > 0,
    ensures
        r@ == members_left(*reader)[0].method,
{
    reader.header().compression.to_vec()
}

/// Reads the field `compressed_size` of the current `delharc::header::LhaHeader`.
#[verifier::external_body]
fn member_packed_size(reader: &LhaDecodeReader<&[u8]>) -> (r: u64)
    requires
        members_left(*reader).len() > 0,
    ensures
        r == members_left(*reader)[0].packed_size,
{
    reader.header().compressed_size
}

/// Calls `delharc::LhaDecodeReader::take_inner`, which gives back the source of the
/// reader, and puts the reader together again with
/// `delharc::decode::DecoderAny::new_from_header` and
/// `delharc::LhaDecodeReader::begin_with_header_and_decoder`. Where nothing of the
/// member has been read, the source stands at its packed data, and the reader is
/// what it was.
#[verifier::external_body]
fn member_rest<'a>(reader: &mut LhaDecodeReader<&'a [u8]>) -> (r: &'a [u8])
    requires
        members_left(*old(reader)).len() > 0,
        members_left(*old(reader))[0].untouched,
    ensures
        r@ == members_left(*old(reader))[0].rest,
        members_left(*final(reader)) == members_left(*old(reader)),
        ends_damaged(*final(reader)) == ends_damaged(*old(reader)),
{
    let header = reader.header().clone();
    let rest: &'a [u8] = reader.take_inner().unwrap_or_default();
    let decoder = delharc::decode::DecoderAny::new_from_header(&header, rest);
    reader.begin_with_header_and_decoder(header, decoder);
    rest
}

/// Bit `i` of a byte string, the highest bit of a byte first.
pub open spec fn bit_of(b: Seq<u8>, i: int) -> bool {
    (b[i / 8] >> ((7 - i % 8) as u8)) & 1u8 == 1u8
}

/// Whether a code length of 255 may end at bit `p`: 251 one-bits stand before it,
/// and it is a zero.
pub open spec fn long_code_ends(b: Seq<u8>, p: int) -> bool {
    &&& 251 <= p < 8 * b.len()
    &&& !bit_of(b, p)
    &&& forall|j: int| p - 251 <= j < p ==> #[trigger] bit_of(b, j)
}

/// A byte string up to the byte that holds bit `p`, with ones from that bit on.
pub open spec fn filled_from(b: Seq<u8>, p: int) -> Seq<u8> {
    b.take(p / 8).push(b[p / 8] | (0xffu8 >> ((p % 8) as u8)))
}

/// The words of the error with which unpacking ends, if it ends with one: `size`
/// bytes are to come out of `packed` by a compression method.
pub uninterp spec fn unpacking_words(method: Seq<u8>, size: u64, packed: Seq<u8>) -> Option<
    Seq<char>,
>;

/// Whether a decoder reads a code length at bit `p` of packed data that is 255, or
/// would be more were the data to go on with ones from there.
pub open spec fn overflows_at(method: Seq<u8>, size: u64, packed: Seq<u8>, p: int) -> bool {
    unpacking_words(method, size, filled_from(packed, p)) == Some("code length overflow"@)
}

/// Whether a decoder comes upon a code length of 255 in packed data. What looks like
/// one may mean something else: it is one only where the decoder reads it as such.
pub open spec fn decoder_overflows(method: Seq<u8>, size: u64, packed: Seq<u8>) -> bool {
    exists|p: int| #[trigger] long_code_ends(packed, p) && overflows_at(method, size, packed, p)
}

/// Whether a compression method packs with tables of code lengths: `-lh4-` to
/// `-lh7-` and `-lhx-`.
pub open spec fn has_code_tables(method: Seq<u8>) -> bool {
    &&& method.len() == 5
    &&& method[0] == 0x2d
    &&& method[1] == 0x6c
    &&& method[2] == 0x68
    &&& 0x34 <= method[3] <= 0x37 || method[3] == 0x78
    &&& method[4] == 0x2d
}

/// The packed data of a member, as far as the archive holds it.
pub open spec fn packed_data(m: LzhMember) -> Seq<u8> {
    if m.packed_size < m.rest.len() {
        m.rest.take(m.packed_size as int)
    } else {
        m.rest
    }
}

/// Whether the decoder of a member comes upon a code length of 255.
pub open spec fn member_overflows(m: LzhMember) -> bool {
    has_code_tables(m.method) && decoder_overflows(m.method, m.size, packed_data(m))
}

/// Makes a `delharc::header::LhaHeader` with the given method and sizes, hands it with
/// `delharc::decode::DecoderAny::new_from_header` to
/// `delharc::LhaDecodeReader::begin_with_header_and_decoder`, and calls
/// `std::io::Read::read_to_end`. The words of the error are a function of the
/// arguments alone. A table with a code length of 255 makes the decoder overflow. Such
/// a length is 251 ones and a zero; with a one in place of that zero the decoder gives
/// up with `code length overflow` before it makes the table. So it does not overflow
/// where no such zero leads to these words.
#[verifier::external_body]
fn unpacking_error(method: &[u8], size: u64, packed: &[u8]) -> (r: Option<String>)
    requires
        has_code_tables(method@),
        !decoder_overflows(method@, size, packed@),
    ensures
        match r {
            Some(words) => unpacking_words(method@, size, packed@) == Some(words@),
            None => unpacking_words(method@, size, packed@) is None,
        },
{
    let mut header = delharc::header::LhaHeader::default();
    header.compression.copy_from_slice(method);
    header.original_size = size;
    header.compressed_size = packed.len() as u64;
    let decoder = delharc::decode::DecoderAny::new_from_header(&header, packed);
    let mut reader: LhaDecodeReader<&[u8]> = LhaDecodeReader::default();
    reader.begin_with_header_and_decoder(header, decoder);
    std::io::Read::read_to_end(&mut reader, &mut Vec::new()).err().map(|e| e.to_string())
}

/// Calls `std::io::Read::read_to_end` on a `delharc::LhaDecodeReader`, which
/// unpacks the current member: never more bytes than its size. The members after
/// it are not touched. A table with a code length of 255 makes the decoder overflow.
#[verifier::external_body]
fn read_member(reader: &mut LhaDecodeReader<&[u8]>) -> (r: Option<Vec<u8>>)
    requires
        members_left(*old(reader)).len() > 0,
        members_left(*old(reader))[0].untouched,
        !member_overflows(members_left(*old(reader))[0]),
    ensures
        match r {
            Some(v) => {
                &&& members_left(*old(reader))[0].data == Some(v@)
                &&& v@.len() <= members_left(*old(reader))[0].size
            },
            None => members_left(*old(reader))[0].data is None,
        },
        members_left(*final(reader)).len() == members_left(*old(reader)).len(),
        members_left(*final(reader)).skip(1) == members_left(*old(reader)).skip(1),
        ends_damaged(*final(reader)) == ends_damaged(*old(reader)),
{
    let mut data: Vec<u8> = Vec::new();
    std::io::Read::read_to_end(reader, &mut data).ok().map(|_| data)
}

/// Calls `delharc::LhaDecodeReader::next_file`: goes on to the next member,
/// whether or not the current one was read. There is a next one, or the archive
/// ends, or its next header is damaged.
#[verifier::external_body]
fn next_member(reader: &mut LhaDecodeReader<&[u8]>) -> (r: Option<bool>)
    requires
        members_left(*old(reader)).len() > 0,
    ensures
        members_left(*final(reader)) == members_left(*old(reader)).skip(1),
        ends_damaged(*final(reader)) == ends_damaged(*old(reader)),
        match r {
            Some(true) => members_left(*old(reader)).len() > 1,
            Some(false) => members_left(*old(reader)).len() == 1 && !ends_damaged(*old(reader)),
            None => members_left(*old(reader)).len() == 1 && ends_damaged(*old(reader)),
        },
{
    reader.next_file().ok()
}

/// Limits on unpacking.
#[derive(Clone, Copy, Debug, PartialEq, Eq, Structural)]
pub struct LzhOpts {
    /// How deep archives in archives are followed; with 1, none are.
    pub max_depth: usize,
    /// Members of more bytes than this are passed over.
    pub max_member_size: u64,
    /// Once the members of an archive come to more bytes than this, the rest of
    /// the archive is left out.
    pub max_total_expansion: u64,
}

impl Default for LzhOpts {
    fn default() -> (r: Self)
        ensures
            r.max_depth == 2,
            r.max_member_size == 50 * 1024 * 1024,
            r.max_total_expansion == 500 * 1024 * 1024,
    {
        LzhOpts {
            max_depth: 2,
            max_member_size: 52_428_800,
            max_total_expansion: 524_288_000,
        }
    }
}

/// What can go wrong with an archive.
#[derive(Clone, Copy, Debug, PartialEq, Eq, Structural)]
pub enum LzhError {
    /// The archive does not start with a valid header.
    Header,
    /// The compression method of the wanted member is not known.
    Unsupported,
    /// The data of the wanted member is damaged.
    Decode,
    /// A later header is damaged.
    NextHeader,
    /// No member has the wanted path.
    NotFound,
}

/// Where an archive comes from.
pub struct Origin {
    pub image_path: Seq<char>,
    pub image_id: Seq<char>,
    pub partition: usize,
}

/// The name of a member.
pub open spec fn member_name(m: LzhMember) -> Seq<char> {
    if m.has_path {
        sjis_text(m.raw_name)
    } else {
        Seq::empty()
    }
}

/// The moment of the last change of a member, zero where it is not known.
pub open spec fn member_seconds(m: Modified) -> i64 {
    match m {
        Modified::Utc(t) => t,
        Modified::Naive(t) => t,
        Modified::Unknown => 0,
    }
}

/// The moment of the last change of a member, zero where it cannot be computed.
pub open spec fn seconds_of(m: LzhMember) -> i64 {
    if time_overflows(m.extra_headers) {
        0
    } else {
        member_seconds(m.modified)
    }
}

/// What is unpacked of a member. Data with a code length of 255 is damaged: no table
/// can be made with one.
pub open spec fn unpacked(m: LzhMember) -> Option<Seq<u8>> {
    if member_overflows(m) {
        None
    } else {
        m.data
    }
}

/// What follows the last `c` of a text; the whole text where there is none.
pub open spec fn after_last(s: Seq<char>, c: char) -> Seq<char> {
    s.skip(rfind_char(s, c) + 1)
}

/// The path of a member, shown from outside.
pub open spec fn member_path(outer: Seq<char>, name: Seq<char>) -> Seq<char> {
    outer + "!/"@ + name
}

/// The text of a member, where its extension is that of a text.
pub open spec fn member_text(ext: Seq<char>, data: Seq<u8>) -> Option<Seq<char>> {
    if text_extension(ext) && decodable_length(data.len()) {
        Some(sjis_text(data))
    } else {
        None
    }
}

/// The document of a member.
pub open spec fn member_document(
    o: Origin,
    outer: Seq<char>,
    name: Seq<char>,
    data: Seq<u8>,
    seconds: i64,
) -> Seq<(Field, FieldModel)> {
    let ext = uppered(after_last(after_last(name, '/'), '.'));
    let body = member_text(ext, data);
    file_document(
        FileModel {
            image_path: o.image_path,
            image_id: o.image_id,
            partition: o.partition,
            file_path: member_path(outer, name),
            file_name: after_last(name, '/'),
            ext,
            size: data.len() as u64,
            mtime_unix: seconds as int,
            attr: plain_attr_text(false),
            body,
            excerpt: match body {
                Some(text) => Some(excerpt_of(text, EXCERPT_BYTES as int)),
                None => None,
            },
        },
    )
}

/// Whether a member is an archive itself, by its name.
pub open spec fn names_archive(name: Seq<char>) -> bool {
    ends_in(lowered(name), ".lzh"@) || ends_in(lowered(name), ".lha"@)
}

/// The sum of two numbers, or the largest one that there is.
pub open spec fn capped_sum(a: int, b: int) -> int {
    if a + b > u64::MAX {
        u64::MAX as int
    } else {
        a + b
    }
}

/// What is done with a member.
#[derive(Clone, Copy, Debug, PartialEq, Eq, Structural)]
pub enum MemberAction {
    /// It is passed over.
    Skip,
    /// It is unpacked and indexed.
    Unpack,
    /// It and all after it are left out.
    Stop,
}

/// What is done with a member after so many bytes were unpacked from its archive.
pub open spec fn action_for(
    directory: bool,
    size: u64,
    supported: bool,
    expanded: int,
    opts: LzhOpts,
) -> MemberAction {
    if directory || size > opts.max_member_size {
        MemberAction::Skip
    } else if expanded + size > opts.max_total_expansion {
        MemberAction::Stop
    } else if !supported {
        MemberAction::Skip
    } else {
        MemberAction::Unpack
    }
}

/// The documents of the members from the `i`th on, after `expanded` bytes were
/// unpacked. A member that is an archive is followed by its own members.
pub open spec fn documents_from(
    members: Seq<LzhMember>,
    i: int,
    expanded: int,
    o: Origin,
    outer: Seq<char>,
    depth: nat,
    opts: LzhOpts,
) -> Seq<Seq<(Field, FieldModel)>>
    decreases depth, 0nat, members.len() - i,
{
    if !(0 <= i < members.len()) || depth == 0 {
        Seq::empty()
    } else {
        let m = members[i];
        match action_for(m.directory, m.size, m.supported, expanded, opts) {
            MemberAction::Stop => Seq::empty(),
            MemberAction::Skip => documents_from(
                members,
                i + 1,
                expanded,
                o,
                outer,
                depth,
                opts,
            ),
            MemberAction::Unpack => match unpacked(m) {
                None => documents_from(members, i + 1, expanded, o, outer, depth, opts),
                Some(data) => {
                    let name = member_name(m);
                    let own = member_document(o, outer, name, data, seconds_of(m));
                    let nested = if names_archive(name) {
                        match archive_documents(
                            data,
                            o,
                            member_path(outer, name),
                            (depth - 1) as nat,
                            opts,
                        ) {
                            Ok(docs) => docs,
                            Err(_) => Seq::empty(),
                        }
                    } else {
                        Seq::empty()
                    };
                    seq![own] + nested + documents_from(
                        members,
                        i + 1,
                        capped_sum(expanded, data.len() as int),
                        o,
                        outer,
                        depth,
                        opts,
                    )
                },
            },
        }
    }
}

/// The documents of an archive, followed to the given depth.
pub open spec fn archive_documents(
    bytes: Seq<u8>,
    o: Origin,
    outer: Seq<char>,
    depth: nat,
    opts: LzhOpts,
) -> Result<Seq<Seq<(Field, FieldModel)>>, LzhError>
    decreases depth, 1nat,
{
    if depth == 0 {
        Ok(Seq::empty())
    } else {
        match lzh_archive(bytes) {
            None => Err(LzhError::Header),
            Some(members) => Ok(documents_from(members, 0, 0, o, outer, depth, opts)),
        }
    }
}

/// Decides what is done with a member.
pub fn member_action(
    directory: bool,
    size: u64,
    supported: bool,
    expanded: u64,
    opts: &LzhOpts,
) -> (r: MemberAction)
    ensures
        r == action_for(directory, size, supported, expanded as int, *opts),
{
    if directory || size > opts.max_member_size {
        return MemberAction::Skip;
    }
    let within: bool = match expanded.checked_add(size) {
        Some(sum) => sum <= opts.max_total_expansion,
        None => false,
    };
    if !within {
        return MemberAction::Stop;
    }
    if supported {
        MemberAction::Unpack
    } else {
        MemberAction::Skip
    }
}

/// The name of a member, from the path that its header gives and its name as it
/// stands there. A path that is empty or has other characters than ASCII is taken
/// as it is; otherwise the name is Shift_JIS.
pub fn decode_lzh_filename(pathname: &str, raw_name: &[u8]) -> (r: String)
    requires
        decodable_length(raw_name@.len()),
    ensures
        r@ == if pathname@.len() == 0 || !text_is_ascii(pathname@) {
            pathname@
        } else {
            sjis_text(raw_name@)
        },
{
    let chars: Vec<char> = to_chars(pathname);
    if chars.len() == 0 || !chars_are_ascii(chars.as_slice()) {
        return pathname.to_owned();
    }
    decode_sjis_lossy(raw_name)
}

/// Whether a text is pure ASCII.
pub open spec fn text_is_ascii(s: Seq<char>) -> bool {
    forall|i: int| 0 <= i < s.len() ==> (#[trigger] s[i] as u32) < 0x80
}

fn chars_are_ascii(s: &[char]) -> (r: bool)
    ensures
        r == text_is_ascii(s@),
{
    let mut i: usize = 0;
    while i < s.len()
        invariant
            i <= s@.len(),
            forall|k: int| 0 <= k < i ==> (#[trigger] s@[k] as u32) < 0x80,
        decreases s@.len() - i,
    {
        if s[i] as u32 >= 0x80 {
            assert(!text_is_ascii(s@));
            return false;
        }
        i = i + 1;
    }
    true
}

/// The name of the current member.
fn decode_lzh_filename_from_header(reader: &LhaDecodeReader<&[u8]>) -> (r: String)
    requires
        members_left(*reader).len() > 0,
    ensures
        r@ == member_name(members_left(*reader)[0]),
{
    let pathname: String = member_pathname(reader);
    let raw: Vec<u8> = member_raw_name(reader);
    let name: String = decode_lzh_filename(pathname.as_str(), raw.as_slice());
    assert(pathname@.len() == 0 ==> pathname@ =~= Seq::empty());
    name
}

/// Whether a member is an archive itself, by its name.
pub fn is_lzh_member(name: &str) -> (r: bool)
    ensures
        r == names_archive(name@),
{
    let lower: String = to_lower(name);
    ends_with(lower.as_str(), ".lzh") || ends_with(lower.as_str(), ".lha")
}

/// The moment of the last change of a member in seconds since the beginning of
/// 1970, zero where it is not known.
pub fn header_mtime_unix(modified: Modified) -> (r: i64)
    ensures
        r == member_seconds(modified),
{
    match modified {
        Modified::Utc(t) => t,
        Modified::Naive(t) => t,
        Modified::Unknown => 0,
    }
}

/// Whether the moment of the last change cannot be computed from extra headers.
pub fn has_overflowing_time(headers: &Vec<Vec<u8>>) -> (r: bool)
    ensures
        r == time_overflows(byte_strings(headers@)),
{
    let ghost all = byte_strings(headers@);
    let mut i: usize = 0;
    assert(all.skip(0) =~= all);
    while i < headers.len()
        invariant
            i <= headers@.len(),
            all == byte_strings(headers@),
            time_overflows(all.skip(i as int)) == time_overflows(all),
        decreases headers@.len() - i,
    {
        let h: &Vec<u8> = &headers[i];
        assert(all.skip(i as int)[0] == h@);
        assert(all.skip(i as int).skip(1) =~= all.skip(i + 1));
        if h.len() == 25 && h[0] == 0x41 {
            let low: u32 = read_le32(h.as_slice(), 9);
            let high: u32 = read_le32(h.as_slice(), 13);
            let time: u64 = low as u64 + 0x1_0000_0000 * high as u64;
            return time < 116_444_736_000_000_000 && time % 10_000_000 != 0;
        }
        if h.len() >= 5 && h[0] == 0x54 {
            return false;
        }
        i = i + 1;
    }
    false
}

/// The moment of the last change of the current member.
fn member_mtime_unix(reader: &LhaDecodeReader<&[u8]>) -> (r: i64)
    requires
        members_left(*reader).len() > 0,
    ensures
        r == seconds_of(members_left(*reader)[0]),
{
    if has_overflowing_time(&member_extra_headers(reader)) {
        return 0;
    }
    header_mtime_unix(member_modified(reader))
}

/// Filling changes no bit before bit `p` and leaves no zero from there on.
proof fn filled_bits(b: Seq<u8>, p: int, i: int)
    requires
        0 <= i < 8 * (p / 8 + 1),
        0 <= p < 8 * b.len(),
    ensures
        i < p && bit_of(b, i) ==> bit_of(filled_from(b, p), i),
        i / 8 < p / 8 ==> bit_of(filled_from(b, p), i) == bit_of(b, i),
        i >= p ==> bit_of(filled_from(b, p), i),
{
    if i / 8 == p / 8 {
        let x: u8 = b[p / 8];
        let k: u8 = (p % 8) as u8;
        let n: u8 = (7 - i % 8) as u8;
        assert(n < 8 && k < 8);
        assert(k + n <= 7 ==> ((x | (0xffu8 >> k)) >> n) & 1u8 == 1u8) by (bit_vector)
            requires
                n < 8,
                k < 8,
        ;
        assert((x >> n) & 1u8 == 1u8 ==> ((x | (0xffu8 >> k)) >> n) & 1u8 == 1u8) by (bit_vector)
            requires
                n < 8,
                k < 8,
        ;
    }
}

/// Where no code length of 255 ends before bit `p`, none does in the data that is
/// filled from there.
proof fn filling_is_safe(method: Seq<u8>, size: u64, b: Seq<u8>, p: int)
    requires
        long_code_ends(b, p),
        forall|q: int|
            q < p && #[trigger] long_code_ends(b, q) ==> !overflows_at(method, size, b, q),
    ensures
        !decoder_overflows(method, size, filled_from(b, p)),
{
    let f = filled_from(b, p);
    assert forall|q: int| #[trigger] long_code_ends(f, q) implies !overflows_at(
        method,
        size,
        f,
        q,
    ) by {
        filled_bits(b, p, q);
        assert(q < p);
        if q / 8 == p / 8 {
            assert(bit_of(b, q));
        }
        assert(!bit_of(b, q));
        assert forall|j: int| q - 251 <= j < q implies #[trigger] bit_of(b, j) by {
            filled_bits(b, p, j);
            assert(bit_of(f, j));
        }
        assert(long_code_ends(b, q));
        assert(filled_from(f, q) =~= filled_from(b, q));
    }
}

fn fill_from(b: &[u8], j: usize, k: u8) -> (r: Vec<u8>)
    requires
        j < b@.len(),
        k < 8,
    ensures
        r@ == filled_from(b@, 8 * j + k),
{
    let mut out: Vec<u8> = Vec::new();
    let mut i: usize = 0;
    while i < j
        invariant
            i <= j < b@.len(),
            out@ == b@.take(i as int),
        decreases j - i,
    {
        out.push(b[i]);
        assert(out@ =~= b@.take(i + 1));
        i = i + 1;
    }
    out.push(b[j] | (0xffu8 >> k));
    assert((8 * j + k) / 8 == j && (8 * j + k) % 8 == k);
    out
}

/// Whether a decoder comes upon a code length of 255 in packed data: tries what the
/// decoder makes of each place that looks like one, from the first on.
pub fn meets_long_code(method: &[u8], size: u64, packed: &[u8]) -> (r: bool)
    requires
        has_code_tables(method@),
    ensures
        r == decoder_overflows(method@, size, packed@),
{
    let mut j: usize = 0;
    let mut k: u8 = 0;
    let mut run: u8 = 0;
    while j < packed.len()
        invariant
            has_code_tables(method@),
            j <= packed@.len(),
            k < 8,
            j == packed@.len() ==> k == 0,
            run <= 251,
            run <= 8 * j + k,
            forall|i: int| 8 * j + k - run <= i < 8 * j + k ==> #[trigger] bit_of(packed@, i),
            run < 251 && run < 8 * j + k ==> !bit_of(packed@, 8 * j + k - run - 1),
            forall|q: int|
                q < 8 * j + k && #[trigger] long_code_ends(packed@, q) ==> !overflows_at(
                    method@,
                    size,
                    packed@,
                    q,
                ),
        decreases packed@.len() - j, 8 - k,
    {
        let ghost at: int = 8 * j + k;
        let one: bool = (packed[j] >> (7 - k)) & 1u8 == 1u8;
        assert(at / 8 == j && at % 8 == k);
        assert(one == bit_of(packed@, at));
        if one {
            if run < 251 {
                run = run + 1;
            }
        } else {
            if run == 251 {
                assert(long_code_ends(packed@, at));
                let filled: Vec<u8> = fill_from(packed, j, k);
                proof {
                    filling_is_safe(method@, size, packed@, at);
                }
                if let Some(words) = unpacking_error(method, size, filled.as_slice()) {
                    if same_text(words.as_str(), "code length overflow") {
                        return true;
                    }
                }
            } else {
                assert(run < at ==> !bit_of(packed@, at - run - 1));
            }
            run = 0;
        }
        if k == 7 {
            k = 0;
            j = j + 1;
        } else {
            k = k + 1;
        }
    }
    false
}

/// Whether a compression method packs with tables of code lengths.
pub fn packs_with_tables(method: &[u8]) -> (r: bool)
    ensures
        r == has_code_tables(method@),
{
    method.len() == 5 && method[0] == 0x2d && method[1] == 0x6c && method[2] == 0x68 && ((0x34
        <= method[3] && method[3] <= 0x37) || method[3] == 0x78) && method[4] == 0x2d
}

/// Unpacks the current member.
fn unpack_member(reader: &mut LhaDecodeReader<&[u8]>) -> (r: Option<Vec<u8>>)
    requires
        members_left(*old(reader)).len() > 0,
        members_left(*old(reader))[0].untouched,
    ensures
        match r {
            Some(v) => {
                &&& unpacked(members_left(*old(reader))[0]) == Some(v@)
                &&& v@.len() <= members_left(*old(reader))[0].size
            },
            None => unpacked(members_left(*old(reader))[0]) is None,
        },
        members_left(*final(reader)).len() == members_left(*old(reader)).len(),
        members_left(*final(reader)).skip(1) == members_left(*old(reader)).skip(1),
        ends_damaged(*final(reader)) == ends_damaged(*old(reader)),
{
    let method: Vec<u8> = member_method(reader);
    if packs_with_tables(method.as_slice()) {
        let size: u64 = member_packed_size(reader);
        let rest: &[u8] = member_rest(reader);
        let packed: &[u8] = if size < rest.len() as u64 {
            &rest[0..size as usize]
        } else {
            rest
        };
        assert(packed@ =~= packed_data(members_left(*old(reader))[0]));
        if meets_long_code(method.as_slice(), member_size(reader), packed) {
            return None;
        }
    }
    read_member(reader)
}

fn text_after_last(s: &str, c: char) -> (r: String)
    ensures
        r@ == after_last(s@, c),
{
    let chars: Vec<char> = to_chars(s);
    let from: usize = match find_last(chars.as_slice(), c) {
        Some(k) => {
            assert(k < chars.len());
            k + 1
        },
        None => 0,
    };
    let tail: &[char] = &chars.as_slice()[from..chars.len()];
    assert(tail@ =~= chars@.skip(from as int));
    from_chars(tail)
}

fn inner_path_of(outer: &str, name: &str) -> (r: String)
    ensures
        r@ == member_path(outer@, name@),
{
    let mut out: String = outer.to_owned();
    out.append("!/");
    out.append(name);
    out
}

/// Makes the document of a member; its text is indexed where its extension is
/// that of a text.
pub fn add_member_document(
    data: &[u8],
    image_path: &str,
    image_id: &str,
    partition: usize,
    outer_file_path: &str,
    inner_name: &str,
    mtime_unix: i64,
) -> (r: ArchiveDocument)
    ensures
        r@ == member_document(
            Origin { image_path: image_path@, image_id: image_id@, partition },
            outer_file_path@,
            inner_name@,
            data@,
            mtime_unix,
        ),
{
    let path: String = inner_path_of(outer_file_path, inner_name);
    let display_name: String = text_after_last(inner_name, '/');
    let last: String = text_after_last(display_name.as_str(), '.');
    let ext: String = to_upper(last.as_str());
    let attr: String = attr_str_from_dir_flag(false);
    let mut body: Option<String> = None;
    let mut excerpt: Option<String> = None;
    if is_text_extension(ext.as_str()) && data.len() <= usize::MAX / 8 {
        let text: String = decode_sjis_lossy(data);
        excerpt = Some(make_excerpt(text.as_str(), EXCERPT_BYTES));
        body = Some(text);
    }
    build_document(
        DocFields {
            image_path,
            image_id,
            partition,
            file_path: path.as_str(),
            file_name: display_name.as_str(),
            ext: ext.as_str(),
            size: data.len() as u64,
            mtime_unix,
            attr: attr.as_str(),
            body: match &body {
                Some(s) => Some(s.as_str()),
                None => None,
            },
            excerpt: match &excerpt {
                Some(s) => Some(s.as_str()),
                None => None,
            },
        },
    )
}

/// Unpacks an archive and makes a document of each member. Archives among the
/// members are unpacked too, as deep as `depth_remaining` allows; one that is
/// damaged is indexed as a file only.
pub fn index_lzh_bytes(
    bytes: &[u8],
    image_path: &str,
    image_id: &str,
    partition: usize,
    outer_file_path: &str,
    depth_remaining: usize,
    opts: &LzhOpts,
) -> (r: Result<Vec<ArchiveDocument>, LzhError>)
    ensures
        match r {
            Ok(docs) => archive_documents(
                bytes@,
                Origin { image_path: image_path@, image_id: image_id@, partition },
                outer_file_path@,
                depth_remaining as nat,
                *opts,
            ) == Ok::<Seq<Seq<(Field, FieldModel)>>, LzhError>(document_models(docs@)),
            Err(e) => archive_documents(
                bytes@,
                Origin { image_path: image_path@, image_id: image_id@, partition },
                outer_file_path@,
                depth_remaining as nat,
                *opts,
            ) == Err::<Seq<Seq<(Field, FieldModel)>>, LzhError>(e),
        },
    decreases depth_remaining,
{
    let mut docs: Vec<ArchiveDocument> = Vec::new();
    if depth_remaining == 0 {
        assert(document_models(docs@) =~= Seq::empty());
        return Ok(docs);
    }
    let mut reader = match open_archive(bytes) {
        Some(reader) => reader,
        None => {
            return Err(LzhError::Header);
        },
    };
    let ghost o = Origin { image_path: image_path@, image_id: image_id@, partition };
    let ghost members = members_left(reader);
    let ghost all = documents_from(
        members,
        0,
        0,
        o,
        outer_file_path@,
        depth_remaining as nat,
        *opts,
    );
    let ghost mut at: int = 0;
    let mut expanded: u64 = 0;
    assert(members.skip(0) =~= members);
    assert(document_models(docs@) + all =~= all);
    loop
        invariant_except_break
            0 <= at < members.len(),
            members_left(reader) == members.skip(at),
            document_models(docs@) + documents_from(
                members,
                at,
                expanded as int,
                o,
                outer_file_path@,
                depth_remaining as nat,
                *opts,
            ) == all,
        invariant
            depth_remaining > 0,
            forall|i: int| 0 <= i < members.len() ==> (#[trigger] members[i]).untouched,
            o == (Origin { image_path: image_path@, image_id: image_id@, partition }),
        ensures
            document_models(docs@) == all,
        decreases members.len() - at,
    {
        let ghost m = members[at];
        assert(members.skip(at)[0] == m);
        let ghost left = document_models(docs@);
        let action = member_action(
            member_is_directory(&reader),
            member_size(&reader),
            member_is_supported(&reader),
            expanded,
            opts,
        );
        if action == MemberAction::Stop {
            assert(document_models(docs@) =~= all);
            break;
        }
        if action == MemberAction::Unpack {
            let name: String = decode_lzh_filename_from_header(&reader);
            let seconds: i64 = member_mtime_unix(&reader);
            if let Some(data) = unpack_member(&mut reader) {
                let ghost before = expanded as int;
                expanded = match expanded.checked_add(data.len() as u64) {
                    Some(sum) => sum,
                    None => u64::MAX,
                };
                assert(expanded == capped_sum(before, data@.len() as int));
                let own = add_member_document(
                    data.as_slice(),
                    image_path,
                    image_id,
                    partition,
                    outer_file_path,
                    name.as_str(),
                    seconds,
                );
                docs.push(own);
                assert(document_models(docs@) =~= left.push(own@));
                let ghost mut nested: Seq<Seq<(Field, FieldModel)>> = Seq::empty();
                if is_lzh_member(name.as_str()) {
                    let inner: String = inner_path_of(outer_file_path, name.as_str());
                    match index_lzh_bytes(
                        data.as_slice(),
                        image_path,
                        image_id,
                        partition,
                        inner.as_str(),
                        depth_remaining - 1,
                        opts,
                    ) {
                        Ok(mut more) => {
                            let ghost had = docs@;
                            proof {
                                nested = document_models(more@);
                            }
                            docs.append(&mut more);
                            assert(document_models(docs@) =~= document_models(had) + nested);
                        },
                        Err(_) => {},
                    }
                }
                assert(document_models(docs@) =~= left + seq![own@] + nested);
                assert(document_models(docs@) + documents_from(
                    members,
                    at + 1,
                    expanded as int,
                    o,
                    outer_file_path@,
                    depth_remaining as nat,
                    *opts,
                ) =~= all);
            }
        }
        assert(members_left(reader).skip(1) =~= members.skip(at + 1));
        match next_member(&mut reader) {
            Some(true) => {
                proof {
                    at = at + 1;
                }
            },
            _ => {
                assert(members.skip(at).len() == 1);
                assert(documents_from(
                    members,
                    at + 1,
                    expanded as int,
                    o,
                    outer_file_path@,
                    depth_remaining as nat,
                    *opts,
                ) =~= Seq::empty());
                assert(document_models(docs@) =~= all);
                break;
            },
        }
    }
    Ok(docs)
}

/// A text without the slashes at its beginning.
pub open spec fn without_leading_slashes(s: Seq<char>) -> Seq<char>
    decreases s.len(),
{
    if s.len() > 0 && s[0] == '/' {
        without_leading_slashes(s.skip(1))
    } else {
        s
    }
}

fn strip_slashes(s: &str) -> (r: String)
    ensures
        r@ == without_leading_slashes(s@),
{
    let chars: Vec<char> = to_chars(s);
    let mut i: usize = 0;
    assert(chars@.skip(0) =~= chars@);
    while i < chars.len() && chars[i] == '/'
        invariant
            i <= chars@.len(),
            without_leading_slashes(chars@.skip(i as int)) == without_leading_slashes(s@),
        decreases chars@.len() - i,
    {
        assert(chars@.skip(i as int).skip(1) =~= chars@.skip(i + 1));
        i = i + 1;
    }
    let rest: &[char] = &chars.as_slice()[i..chars.len()];
    assert(rest@ =~= chars@.skip(i as int));
    from_chars(rest)
}

/// The form in which paths of members are compared: lower case, without slashes
/// at the beginning.
pub open spec fn wanted_path(path: Seq<char>) -> Seq<char> {
    without_leading_slashes(lowered(path))
}

/// Whether a member has the wanted path.
pub open spec fn is_wanted(m: LzhMember, target: Seq<char>) -> bool {
    !m.directory && (lowered(member_name(m)) == target || wanted_path(member_name(m)) == target)
}

/// The data of the first member from the `i`th on that has the wanted path.
pub open spec fn member_from(
    members: Seq<LzhMember>,
    i: int,
    target: Seq<char>,
    cut_off: bool,
) -> Result<Seq<u8>, LzhError>
    decreases members.len() - i,
{
    if !(0 <= i < members.len()) {
        if cut_off {
            Err(LzhError::NextHeader)
        } else {
            Err(LzhError::NotFound)
        }
    } else if is_wanted(members[i], target) {
        if !members[i].supported {
            Err(LzhError::Unsupported)
        } else {
            match unpacked(members[i]) {
                Some(data) => Ok(data),
                None => Err(LzhError::Decode),
            }
        }
    } else {
        member_from(members, i + 1, target, cut_off)
    }
}

/// What taking a member out of an archive gives.
pub open spec fn taken_out(bytes: Seq<u8>, path: Seq<char>) -> Result<Seq<u8>, LzhError> {
    match lzh_archive(bytes) {
        None => Err(LzhError::Header),
        Some(members) => member_from(members, 0, wanted_path(path), lzh_cut_off(bytes)),
    }
}

/// Takes a member out of an archive. ASCII letters match in either case, and
/// slashes at the beginning of the path do not count.
pub fn extract_member(bytes: &[u8], inner_path: &str) -> (r: Result<Vec<u8>, LzhError>)
    ensures
        match r {
            Ok(v) => taken_out(bytes@, inner_path@) == Ok::<Seq<u8>, LzhError>(v@),
            Err(e) => taken_out(bytes@, inner_path@) == Err::<Seq<u8>, LzhError>(e),
        },
{
    let mut reader = match open_archive(bytes) {
        Some(reader) => reader,
        None => {
            return Err(LzhError::Header);
        },
    };
    let lower: String = to_lower(inner_path);
    let target: String = strip_slashes(lower.as_str());
    let ghost members = members_left(reader);
    let ghost mut at: int = 0;
    assert(members.skip(0) =~= members);
    loop
        invariant
            0 <= at < members.len(),
            lzh_archive(bytes@) == Some(members),
            forall|i: int| 0 <= i < members.len() ==> (#[trigger] members[i]).untouched,
            target@ == wanted_path(inner_path@),
            members_left(reader) == members.skip(at),
            ends_damaged(reader) == lzh_cut_off(bytes@),
            taken_out(bytes@, inner_path@) == member_from(
                members,
                at,
                target@,
                lzh_cut_off(bytes@),
            ),
        decreases members.len() - at,
    {
        assert(members.skip(at)[0] == members[at]);
        if !member_is_directory(&reader) {
            let name: String = decode_lzh_filename_from_header(&reader);
            let name_lower: String = to_lower(name.as_str());
            let name_bare: String = strip_slashes(name_lower.as_str());
            if same_text(name_lower.as_str(), target.as_str()) || same_text(
                name_bare.as_str(),
                target.as_str(),
            ) {
                if !member_is_supported(&reader) {
                    return Err(LzhError::Unsupported);
                }
                return match unpack_member(&mut reader) {
                    Some(data) => Ok(data),
                    None => Err(LzhError::Decode),
                };
            }
        }
        assert(members_left(reader).skip(1) =~= members.skip(at + 1));
        match next_member(&mut reader) {
            Some(true) => {
                proof {
                    at = at + 1;
                }
            },
            Some(false) => {
                return Err(LzhError::NotFound);
            },
            None => {
                return Err(LzhError::NextHeader);
            },
        }
    }
}

/// The path of a member may be given in either case and with slashes in front.
pub proof fn member_paths_are_lenient(bytes: Seq<u8>, a: Seq<char>, b: Seq<char>)
    requires
        wanted_path(a) == wanted_path(b),
    ensures
        taken_out(bytes, a) == taken_out(bytes, b),
        taken_out(bytes, seq!['/'] + a) == taken_out(bytes, a),
{
    assert(lowered(seq!['/'] + a).skip(1) =~= lowered(a));
}

/// How many bytes of an archive's own members are unpacked, from the `i`th on.
pub open spec fn unpacked_from(
    members: Seq<LzhMember>,
    i: int,
    expanded: int,
    opts: LzhOpts,
) -> int
    decreases members.len() - i,
{
    if !(0 <= i < members.len()) {
        0
    } else {
        let m = members[i];
        match action_for(m.directory, m.size, m.supported, expanded, opts) {
            MemberAction::Stop => 0,
            MemberAction::Skip => unpacked_from(members, i + 1, expanded, opts),
            MemberAction::Unpack => match unpacked(m) {
                None => unpacked_from(members, i + 1, expanded, opts),
                Some(data) => data.len() + unpacked_from(
                    members,
                    i + 1,
                    capped_sum(expanded, data.len() as int),
                    opts,
                ),
            },
        }
    }
}

/// However large an archive claims to be, no more of its own members is unpacked
/// than the limit allows.
pub proof fn unpacking_is_bounded(
    members: Seq<LzhMember>,
    i: int,
    expanded: int,
    opts: LzhOpts,
)
    requires
        0 <= i,
        0 <= expanded <= opts.max_total_expansion,
        forall|k: int| #![trigger members[k]]
            0 <= k < members.len() && members[k].data is Some ==> members[k].data->0.len()
                <= members[k].size,
    ensures
        0 <= unpacked_from(members, i, expanded, opts),
        expanded + unpacked_from(members, i, expanded, opts) <= opts.max_total_expansion,
    decreases members.len() - i,
{
    if i < members.len() {
        let m = members[i];
        match action_for(m.directory, m.size, m.supported, expanded, opts) {
            MemberAction::Stop => {},
            MemberAction::Skip => unpacking_is_bounded(members, i + 1, expanded, opts),
            MemberAction::Unpack => match unpacked(m) {
                None => unpacking_is_bounded(members, i + 1, expanded, opts),
                Some(data) => {
                    assert(members[i].data->0.len() <= members[i].size);
                    unpacking_is_bounded(
                        members,
                        i + 1,
                        capped_sum(expanded, data.len() as int),
                        opts,
                    );
                },
            },
        }
    }
}

/// Nothing is unpacked at depth zero, and at depth one no archive inside an
/// archive is: there is at most one document for each member.
pub proof fn depth_limits_nesting(
    members: Seq<LzhMember>,
    i: int,
    expanded: int,
    o: Origin,
    outer: Seq<char>,
    opts: LzhOpts,
)
    requires
        0 <= i <= members.len(),
    ensures
        documents_from(members, i, expanded, o, outer, 0, opts).len() == 0,
        documents_from(members, i, expanded, o, outer, 1, opts).len() <= members.len() - i,
    decreases members.len() - i,
{
    if i < members.len() {
        let m = members[i];
        depth_limits_nesting(members, i + 1, expanded, o, outer, opts);
        if let Some(data) = unpacked(m) {
            depth_limits_nesting(
                members,
                i + 1,
                capped_sum(expanded, data.len() as int),
                o,
                outer,
                opts,
            );
            let name = member_name(m);
            assert(archive_documents(data, o, member_path(outer, name), 0, opts) == Ok::<
                Seq<Seq<(Field, FieldModel)>>,
                LzhError,
            >(Seq::empty()));
        }
    }
}

} // verus!
