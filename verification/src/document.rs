//! Documents for the index, made from files.

use crate::codec::{decodable_length, decode_shift_jis, sjis_text};
use crate::direntry::{Attr, DirEntry, DirEntryModel};
use crate::export::{entry_moment, entry_to_filetime};
use crate::fs::{file_is_cut_to_size, DiskModel, Filesystem};
use crate::image::DiskImage;
use crate::json::{Json, JsonModel};
use crate::schema::{is_text_extension, text_extension, Field};
use crate::text::{from_chars, to_chars, to_upper, uppered};
use vstd::prelude::*;
use vstd::utf8::{encode_scalar, encode_utf8};

verus! {

/// The length of an excerpt of a text, in bytes of UTF-8.
pub const EXCERPT_BYTES: usize = 2048;

/// The value of a field.
#[derive(Debug)]
pub enum FieldValue {
    Text(String),
    U64(u64),
    I64(i64),
    Facet(String),
    Json(Json),
}

/// The value of a field as a mathematical value.
pub enum FieldModel {
    Text(Seq<char>),
    U64(u64),
    I64(i64),
    Facet(Seq<char>),
    Json(JsonModel),
}

impl View for FieldValue {
    type V = FieldModel;

    open spec fn view(&self) -> FieldModel {
        match *self {
            FieldValue::Text(s) => FieldModel::Text(s@),
            FieldValue::U64(n) => FieldModel::U64(n),
            FieldValue::I64(n) => FieldModel::I64(n),
            FieldValue::Facet(s) => FieldModel::Facet(s@),
            FieldValue::Json(j) => FieldModel::Json(j@),
        }
    }
}

/// A document of the index: values of fields, in the order in which they were
/// added.
#[derive(Debug)]
pub struct ArchiveDocument {
    pub values: Vec<(Field, FieldValue)>,
}

impl View for ArchiveDocument {
    type V = Seq<(Field, FieldModel)>;

    open spec fn view(&self) -> Seq<(Field, FieldModel)> {
        Seq::new(self.values@.len(), |i: int| (self.values@[i].0, self.values@[i].1@))
    }
}

/// Documents as mathematical values.
pub open spec fn document_models(v: Seq<ArchiveDocument>) -> Seq<Seq<(Field, FieldModel)>> {
    Seq::new(v.len(), |i: int| v[i]@)
}

/// The first value of a field in a document.
pub open spec fn first_value(doc: Seq<(Field, FieldModel)>, field: Field) -> Option<FieldModel>
    decreases doc.len(),
{
    if doc.len() == 0 {
        None
    } else if doc[0].0 == field {
        Some(doc[0].1)
    } else {
        first_value(doc.skip(1), field)
    }
}

impl ArchiveDocument {
    /// A document without values.
    pub fn new() -> (r: Self)
        ensures
            r@ == Seq::<(Field, FieldModel)>::empty(),
    {
        let r = ArchiveDocument { values: Vec::new() };
        assert(r@ =~= Seq::<(Field, FieldModel)>::empty());
        r
    }

    /// Adds a value.
    pub fn add_value(&mut self, field: Field, value: FieldValue)
        ensures
            final(self)@ == old(self)@.push((field, value@)),
    {
        self.values.push((field, value));
        assert(self@ =~= old(self)@.push((field, value@)));
    }

    /// Adds a text.
    pub fn add_text(&mut self, field: Field, text: &str)
        ensures
            final(self)@ == old(self)@.push((field, FieldModel::Text(text@))),
    {
        self.add_value(field, FieldValue::Text(text.to_owned()));
    }

    /// Adds an unsigned number.
    pub fn add_u64(&mut self, field: Field, n: u64)
        ensures
            final(self)@ == old(self)@.push((field, FieldModel::U64(n))),
    {
        self.add_value(field, FieldValue::U64(n));
    }

    /// Adds a signed number.
    pub fn add_i64(&mut self, field: Field, n: i64)
        ensures
            final(self)@ == old(self)@.push((field, FieldModel::I64(n))),
    {
        self.add_value(field, FieldValue::I64(n));
    }

    /// The first value of a field.
    pub fn get_first(&self, field: Field) -> (r: Option<&FieldValue>)
        ensures
            match r {
                Some(v) => first_value(self@, field) == Some(v@),
                None => first_value(self@, field) is None,
            },
    {
        let mut i: usize = 0;
        assert(self@.skip(0) =~= self@);
        while i < self.values.len()
            invariant
                i <= self.values@.len(),
                first_value(self@, field) == first_value(self@.skip(i as int), field),
            decreases self.values@.len() - i,
        {
            assert(self@.skip(i as int)[0] == self@[i as int]);
            assert(self@.skip(i as int).skip(1) =~= self@.skip(i + 1));
            if self.values[i].0 == field {
                return Some(&self.values[i].1);
            }
            i = i + 1;
        }
        None
    }
}

/// Decodes Shift_JIS; what is malformed is replaced.
pub fn decode_sjis_lossy(bytes: &[u8]) -> (r: String)
    requires
        decodable_length(bytes@.len()),
    ensures
        r@ == sjis_text(bytes@),
{
    decode_shift_jis(bytes)
}

/// The characters at the beginning of a text that fit into so many bytes of UTF-8.
pub open spec fn excerpt_of(s: Seq<char>, room: int) -> Seq<char>
    decreases s.len(),
{
    if s.len() == 0 || encode_scalar(s[0] as u32).len() > room {
        Seq::empty()
    } else {
        seq![s[0]] + excerpt_of(s.skip(1), room - encode_scalar(s[0] as u32).len())
    }
}

/// An excerpt is a beginning of the text, it fits, and with one more character it
/// would not fit.
pub proof fn excerpt_is_longest_prefix(s: Seq<char>, room: int)
    requires
        room >= 0,
    ensures
        ({
            let k = excerpt_of(s, room).len() as int;
            &&& k <= s.len()
            &&& excerpt_of(s, room) == s.take(k)
            &&& encode_utf8(s.take(k)).len() <= room
            &&& k < s.len() ==> encode_utf8(s.take(k + 1)).len() > room
        }),
    decreases s.len(),
{
    if s.len() == 0 {
        assert(s.take(0) =~= Seq::empty());
    } else {
        let first = encode_scalar(s[0] as u32).len();
        if first > room {
            assert(s.take(0) =~= Seq::empty());
            assert(s.take(1).drop_first() =~= Seq::empty());
            assert(encode_utf8(s.take(1).drop_first()) =~= Seq::empty());
            assert(encode_utf8(s.take(1)).len() == first);
        } else {
            excerpt_is_longest_prefix(s.skip(1), room - first);
            let k = excerpt_of(s, room).len() as int;
            assert(excerpt_of(s, room) =~= s.take(k));
            assert(s.take(k).drop_first() =~= s.skip(1).take(k - 1));
            if k < s.len() {
                assert(s.take(k + 1).drop_first() =~= s.skip(1).take(k));
            }
        }
    }
}

/// A text that fits is its own excerpt.
pub proof fn short_text_is_its_excerpt(s: Seq<char>, room: int)
    requires
        encode_utf8(s).len() <= room,
    ensures
        excerpt_of(s, room) == s,
{
    excerpt_is_longest_prefix(s, room);
    let k = excerpt_of(s, room).len() as int;
    if k < s.len() {
        encoded_prefix_is_shorter(s, k + 1);
    }
    assert(s.take(s.len() as int) =~= s);
}

proof fn encoded_prefix_is_shorter(s: Seq<char>, k: int)
    requires
        0 <= k <= s.len(),
    ensures
        encode_utf8(s.take(k)).len() <= encode_utf8(s).len(),
    decreases s.len(),
{
    if k > 0 {
        encoded_prefix_is_shorter(s.drop_first(), k - 1);
        assert(s.take(k).drop_first() =~= s.drop_first().take(k - 1));
    } else {
        assert(s.take(0) =~= Seq::empty());
    }
}

/// The number of bytes of a character in UTF-8.
fn utf8_size(c: char) -> (r: usize)
    ensures
        r == encode_scalar(c as u32).len(),
        1 <= r <= 4,
{
    let n: u32 = c as u32;
    proof {
        vstd::utf8::char_is_scalar(c);
    }
    if n < 0x80 {
        1
    } else if n < 0x800 {
        2
    } else if n < 0x10000 {
        3
    } else {
        4
    }
}

/// As many characters from the beginning of a text as fit into `max_bytes` bytes
/// of UTF-8.
pub fn make_excerpt(text: &str, max_bytes: usize) -> (r: String)
    ensures
        r@ == excerpt_of(text@, max_bytes as int),
{
    let chars: Vec<char> = to_chars(text);
    let mut room: usize = max_bytes;
    let mut i: usize = 0;
    assert(chars@.skip(0) =~= chars@);
    assert(chars@.take(0) + excerpt_of(chars@.skip(0), room as int) =~= excerpt_of(
        chars@,
        room as int,
    ));
    while i < chars.len()
        invariant_except_break
            i <= chars@.len(),
            chars@.take(i as int) + excerpt_of(chars@.skip(i as int), room as int) == excerpt_of(
                text@,
                max_bytes as int,
            ),
        ensures
            i <= chars@.len(),
            chars@.take(i as int) == excerpt_of(text@, max_bytes as int),
        decreases chars@.len() - i,
    {
        let size: usize = utf8_size(chars[i]);
        assert(chars@.skip(i as int)[0] == chars@[i as int]);
        if size > room {
            assert(chars@.take(i as int) =~= excerpt_of(text@, max_bytes as int));
            break;
        }
        assert(chars@.skip(i as int).skip(1) =~= chars@.skip(i + 1));
        assert(chars@.take(i + 1) + excerpt_of(chars@.skip(i + 1), room - size) =~= chars@.take(
            i as int,
        ) + excerpt_of(chars@.skip(i as int), room as int));
        room = room - size;
        i = i + 1;
        if i == chars.len() {
            assert(chars@.take(i as int) =~= excerpt_of(text@, max_bytes as int));
        }
    }
    assert(chars@.take(i as int) =~= excerpt_of(text@, max_bytes as int));
    let kept: &[char] = &chars.as_slice()[0..i];
    assert(kept@ =~= chars@.take(i as int));
    from_chars(kept)
}

/// A letter where a flag is set, a hyphen where it is not.
pub open spec fn flag_char(set: bool, c: char) -> char {
    if set {
        c
    } else {
        '-'
    }
}

/// The attributes of an entry as seven characters.
pub open spec fn attr_text(a: Attr) -> Seq<char> {
    seq![
        flag_char(a.has(Attr::DIRECTORY), 'D'),
        flag_char(a.has(Attr::READ_ONLY), 'R'),
        flag_char(a.has(Attr::HIDDEN), 'H'),
        flag_char(a.has(Attr::SYSTEM), 'S'),
        flag_char(a.has(Attr::VOLUME), 'V'),
        flag_char(a.has(Attr::ARCHIVE), 'A'),
        flag_char(a.has(Attr::LINK), 'L'),
    ]
}

/// The attributes of a file that has none of its own, as seven characters: like
/// any file or directory that was never backed up.
pub open spec fn plain_attr_text(is_dir: bool) -> Seq<char> {
    seq![flag_char(is_dir, 'D'), '-', '-', '-', '-', 'A', '-']
}

fn flag(set: bool, c: char) -> (r: char)
    ensures
        r == flag_char(set, c),
{
    if set {
        c
    } else {
        '-'
    }
}

/// The attributes of an entry as seven characters.
pub fn attr_str(a: Attr) -> (r: String)
    ensures
        r@ == attr_text(a),
        r@.len() == 7,
{
    let mut s = String::new();
    s.push(flag(a.contains(Attr::DIRECTORY), 'D'));
    s.push(flag(a.contains(Attr::READ_ONLY), 'R'));
    s.push(flag(a.contains(Attr::HIDDEN), 'H'));
    s.push(flag(a.contains(Attr::SYSTEM), 'S'));
    s.push(flag(a.contains(Attr::VOLUME), 'V'));
    s.push(flag(a.contains(Attr::ARCHIVE), 'A'));
    s.push(flag(a.contains(Attr::LINK), 'L'));
    assert(s@ =~= attr_text(a));
    s
}

/// The attributes of a file that has none of its own, such as a member of an
/// archive, as seven characters.
pub fn attr_str_from_dir_flag(is_dir: bool) -> (r: String)
    ensures
        r@ == plain_attr_text(is_dir),
        r@.len() == 7,
{
    let mut s = String::new();
    s.push(flag(is_dir, 'D'));
    s.push('-');
    s.push('-');
    s.push('-');
    s.push('-');
    s.push('A');
    s.push('-');
    assert(s@ =~= plain_attr_text(is_dir));
    s
}

/// The generic attributes are those of an entry with the archive bit, and for
/// a directory the directory bit, set.
pub proof fn plain_attributes_are_attributes(is_dir: bool)
    ensures
        plain_attr_text(is_dir) == attr_text(
            Attr {
                bits: if is_dir {
                    0x30
                } else {
                    0x20
                },
            },
        ),
{
    assert(0x30u8 & 0x10 == 0x10 && 0x30u8 & 0x01 != 0x01 && 0x30u8 & 0x02 != 0x02 && 0x30u8 & 0x04
        != 0x04 && 0x30u8 & 0x08 != 0x08 && 0x30u8 & 0x20 == 0x20 && 0x30u8 & 0x40 != 0x40)
        by (bit_vector);
    assert(0x20u8 & 0x10 != 0x10 && 0x20u8 & 0x01 != 0x01 && 0x20u8 & 0x02 != 0x02 && 0x20u8 & 0x04
        != 0x04 && 0x20u8 & 0x08 != 0x08 && 0x20u8 & 0x20 == 0x20 && 0x20u8 & 0x40 != 0x40)
        by (bit_vector);
    let bits: u8 = if is_dir {
        0x30
    } else {
        0x20
    };
    assert(plain_attr_text(is_dir) =~= attr_text(Attr { bits }));
}

/// The moment of an entry in seconds; zero where its date makes no sense.
pub open spec fn entry_seconds(e: DirEntryModel) -> int {
    match entry_moment(e) {
        Some(t) => t,
        None => 0,
    }
}

/// The moment of the last change of an entry in seconds since the beginning of
/// 1970; zero where its date makes no sense.
pub fn mtime_to_unix(entry: &DirEntry) -> (r: i64)
    ensures
        r == entry_seconds(entry@),
{
    match entry_to_filetime(entry) {
        Some(t) => t.unix_seconds(),
        None => 0,
    }
}

/// The text of a file: none where its extension is not that of a text or where it
/// cannot be read.
pub open spec fn text_body(fs: DiskModel, e: DirEntryModel) -> Option<Seq<char>> {
    if !text_extension(uppered(e.ext)) {
        None
    } else {
        match fs.file_bytes(e) {
            Ok(bytes) => if decodable_length(bytes.len()) {
                Some(sjis_text(bytes))
            } else {
                None
            },
            Err(_) => None,
        }
    }
}

/// The text of a file and an excerpt of it.
pub fn extract_text_body<D: DiskImage>(fs: &Filesystem<D>, entry: &DirEntry) -> (r: Option<
    (String, String),
>)
    requires
        fs.valid(),
    ensures
        match r {
            Some(pair) => text_body(fs@, entry@) == Some(pair.0@) && pair.1@ == excerpt_of(
                pair.0@,
                EXCERPT_BYTES as int,
            ),
            None => text_body(fs@, entry@) is None,
        },
{
    let ext: String = to_upper(entry.ext.as_str());
    if !is_text_extension(ext.as_str()) {
        return None;
    }
    let bytes: Vec<u8> = match fs.read_file(entry) {
        Ok(b) => b,
        Err(_) => {
            return None;
        },
    };
    if bytes.len() > usize::MAX / 8 {
        return None;
    }
    let text: String = decode_sjis_lossy(bytes.as_slice());
    let excerpt: String = make_excerpt(text.as_str(), EXCERPT_BYTES);
    Some((text, excerpt))
}

/// A file has a text exactly where its extension is that of a text and it can be
/// read; the text is the whole file, and the excerpt is a beginning of it that fits.
/// Files that the decoder cannot hold are left out. On a host where eight times
/// the largest size of a file can be counted there are none of these.
pub proof fn bodies_are_whole_files(fs: DiskModel, e: DirEntryModel)
    requires
        fs.valid(),
    ensures
        (fs.file_bytes(e) matches Ok(bytes) ==> decodable_length(bytes.len())) ==> (text_body(
            fs,
            e,
        ) is Some <==> text_extension(uppered(e.ext)) && fs.file_bytes(e) is Ok),
        u32::MAX <= usize::MAX / 8 ==> (text_body(fs, e) is Some <==> text_extension(
            uppered(e.ext),
        ) && fs.file_bytes(e) is Ok),
        text_body(fs, e) matches Some(t) ==> {
            let x = excerpt_of(t, EXCERPT_BYTES as int);
            &&& t == sjis_text(fs.file_bytes(e)->Ok_0)
            &&& x == t.take(x.len() as int)
            &&& encode_utf8(x).len() <= 2048
        },
{
    if fs.file_bytes(e) is Ok {
        file_is_cut_to_size(fs, e);
    }
    if let Some(t) = text_body(fs, e) {
        excerpt_is_longest_prefix(t, EXCERPT_BYTES as int);
    }
}

/// What the document of a file is made from.
pub struct DocFields<'a> {
    pub image_path: &'a str,
    pub image_id: &'a str,
    pub partition: usize,
    pub file_path: &'a str,
    pub file_name: &'a str,
    /// The extension, in capitals.
    pub ext: &'a str,
    pub size: u64,
    pub mtime_unix: i64,
    /// The attributes, as seven characters.
    pub attr: &'a str,
    pub body: Option<&'a str>,
    pub excerpt: Option<&'a str>,
}

/// What the document of a file is made from, as a mathematical value.
pub struct FileModel {
    pub image_path: Seq<char>,
    pub image_id: Seq<char>,
    pub partition: usize,
    pub file_path: Seq<char>,
    pub file_name: Seq<char>,
    pub ext: Seq<char>,
    pub size: u64,
    pub mtime_unix: int,
    pub attr: Seq<char>,
    pub body: Option<Seq<char>>,
    pub excerpt: Option<Seq<char>>,
}

/// The view of an optional text.
pub open spec fn opt_str(o: Option<&str>) -> Option<Seq<char>> {
    match o {
        Some(s) => Some(s@),
        None => None,
    }
}

impl<'a> View for DocFields<'a> {
    type V = FileModel;

    open spec fn view(&self) -> FileModel {
        FileModel {
            image_path: self.image_path@,
            image_id: self.image_id@,
            partition: self.partition,
            file_path: self.file_path@,
            file_name: self.file_name@,
            ext: self.ext@,
            size: self.size,
            mtime_unix: self.mtime_unix as int,
            attr: self.attr@,
            body: opt_str(self.body),
            excerpt: opt_str(self.excerpt),
        }
    }
}

/// What the document of a file on a disk is made from, given what was worked out
/// of its entry before.
pub fn doc_fields_from_entry<'a>(
    image_path: &'a str,
    image_id: &'a str,
    partition: usize,
    file_path: &'a str,
    entry: &'a DirEntry,
    cached_name: &'a str,
    cached_ext: &'a str,
    cached_attr: &'a str,
    body: Option<&'a str>,
    excerpt: Option<&'a str>,
) -> (r: DocFields<'a>)
    ensures
        r@ == (FileModel {
            image_path: image_path@,
            image_id: image_id@,
            partition,
            file_path: file_path@,
            file_name: cached_name@,
            ext: cached_ext@,
            size: entry@.size as u64,
            mtime_unix: entry_seconds(entry@),
            attr: cached_attr@,
            body: opt_str(body),
            excerpt: opt_str(excerpt),
        }),
{
    DocFields {
        image_path,
        image_id,
        partition,
        file_path,
        file_name: cached_name,
        ext: cached_ext,
        size: entry.size as u64,
        mtime_unix: mtime_to_unix(entry),
        attr: cached_attr,
        body,
        excerpt,
    }
}

/// The value of an optional text field, as a sequence of none or one.
pub open spec fn opt_value(field: Field, text: Option<Seq<char>>) -> Seq<(Field, FieldModel)> {
    match text {
        Some(s) => seq![(field, FieldModel::Text(s))],
        None => Seq::empty(),
    }
}

/// The document of a file.
pub open spec fn file_document(f: FileModel) -> Seq<(Field, FieldModel)> {
    seq![
        (Field::ImagePath, FieldModel::Text(f.image_path)),
        (Field::ImageId, FieldModel::Text(f.image_id)),
        (Field::Partition, FieldModel::U64(f.partition as u64)),
        (Field::FilePath, FieldModel::Text(f.file_path)),
        (Field::FileName, FieldModel::Text(f.file_name)),
        (Field::Ext, FieldModel::Text(f.ext)),
        (Field::Size, FieldModel::U64(f.size)),
        (Field::Mtime, FieldModel::I64(f.mtime_unix as i64)),
        (Field::Attr, FieldModel::Text(f.attr)),
    ] + opt_value(Field::Body, f.body) + opt_value(Field::BodyExcerpt, f.excerpt)
}

/// Makes the document of a file.
pub fn build_document(fields: DocFields<'_>) -> (r: ArchiveDocument)
    ensures
        r@ == file_document(fields@),
{
    let mut doc = ArchiveDocument::new();
    doc.add_text(Field::ImagePath, fields.image_path);
    doc.add_text(Field::ImageId, fields.image_id);
    doc.add_u64(Field::Partition, fields.partition as u64);
    doc.add_text(Field::FilePath, fields.file_path);
    doc.add_text(Field::FileName, fields.file_name);
    doc.add_text(Field::Ext, fields.ext);
    doc.add_u64(Field::Size, fields.size);
    doc.add_i64(Field::Mtime, fields.mtime_unix);
    doc.add_text(Field::Attr, fields.attr);
    if let Some(b) = fields.body {
        doc.add_text(Field::Body, b);
    }
    if let Some(e) = fields.excerpt {
        doc.add_text(Field::BodyExcerpt, e);
    }
    assert(doc@ =~= file_document(fields@));
    doc
}

} // verus!
