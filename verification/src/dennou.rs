//! The disk magazine Dennou Club and its special issues.
//!
//! The first disk of an issue (side `A`) has a directory `MUSIC` with one `.DOC`
//! file for each piece of music. Each of these gives a record of the category
//! `music`. Who sent the piece in stands in that file or in the table of contents
//! `QS/MOKUJI.DOC`. What could not be found is told in the payload of the record,
//! under `_warnings`.

use crate::codec::{decodable_length, nfkc_text, sjis_text};
use crate::direntry::{entry_models, Attr, DirEntry, DirEntryModel};
use crate::error::FsError;
use crate::extract::{document_key, record_document, record_models, records_tell_their_plugin,
    short_id, ContextModel, ExtractContext, ExtractModel,
    ExtractResult, ExtractedRecord, KeyModel, RecordModel, SchemaPlugin};
use crate::fs::{DiskModel, Filesystem};
use crate::image::DiskImage;
use crate::json::{json_model, Json, JsonModel, Member};
use crate::path::{file_name, file_name_of, opt_text, text_order, TextOrder};
use crate::pattern::{captures, group, group_text, match_model, regex_captures};
use crate::schema::is_named;
use crate::sort::{insert_in_order, insertion, insertion_stays_distinct, models, order_of};
use crate::text::{components, contains_text, decimal, end_of_text, end_trimmed, find_char,
    find_from, from_chars, has_part, is_number, is_white, is_white_space, join, joined_texts,
    lines_of, lowered, number_text, number_value, parse_number, same_ignoring_case, same_text,
    split_lines, texts, to_chars, to_upper, trim, trim_chars, trimmed, uppered};
use crate::text_norm::{collapse_spaces, collapsed, decode_sjis_nfkc};
use vstd::prelude::*;
use vstd::string::StringExecFns;

verus! {

/// The name of the plugin.
pub const PLUGIN_NAME: &'static str = "dennou";

/// The version of the plugin.
pub const PLUGIN_VERSION: u64 = 1;

/// The file name of an issue: its number and the side of the disk.
pub const MAIN_FILE_PATTERN: &'static str = "(?i)Dennou0*(\\d+)([ABX])\\.(?:img|xdf)$";

/// The file name of a special issue.
pub const EXTRA_FILE_PATTERN: &'static str = "(?i)Bessatu0*(\\d+)([ABX])\\.(?:img|xdf)$";

/// The directory of an issue in `AUTOEXEC.BAT`.
pub const MAIN_AUTOEXEC_PATTERN: &'static str = "電脳倶楽部\\\\\\s*0*(\\d{1,4})";

/// The directory of a special issue in `AUTOEXEC.BAT`.
pub const EXTRA_AUTOEXEC_PATTERN: &'static str = "(?i)Bessatu\\\\\\s*0*(\\d{1,4})";

/// The line with the composer.
pub const COMPOSER_PATTERN: &'static str =
    "(?i)(?:MUSIC\\s+by\\s+|作曲\\s*[:：]?\\s*)(.+?)\\s*$";

/// The line with the arranger, in the spellings that occur.
pub const ARRANGER_PATTERN: &'static str =
    "(?i)(?:(?:68)?ARR[AE]N?GE\\s+by\\s+|編曲\\s*[:：]?\\s*)(.+?)\\s*$";

/// The line with the music driver and its version.
pub const ENGINE_PATTERN: &'static str =
    "(?i)\\b(Z[-\\u{2212}\\u{2010}]?MUSIC|MXDRV|MUSIC\\s+LALF|MUSPRO|YM2151)\\b(?:\\s*Ver\\.?\\s*([0-9.]+))?";

/// The line with the playing time.
pub const DURATION_PATTERN: &'static str = "演奏時間\\s*[:：]?\\s*(.+?)\\s*$";

/// The sentence that tells who sent a piece in, and from which prefecture.
pub const SUBMITTER_PATTERN: &'static str =
    "(\\p{Han}{1,4}(?:都|道|府|県))の([^\\n]{1,30}?)\\s*さん(?:の投稿)?";

/// The link to a piece of music in the table of contents.
pub const STEM_PATTERN: &'static str = "(?i)A:\\\\MUSIC\\\\([A-Za-z0-9_]+)\\.ZMS";

/// The note on copyright in the table of contents.
pub const JASRAC_PATTERN: &'static str = "(?:JASRAC|日本音楽著作権協会)[^\\n]{0,80}";

/// A text, or the empty one in place of none.
pub open spec fn or_empty(o: Option<Seq<char>>) -> Seq<char> {
    match o {
        Some(s) => s,
        None => Seq::empty(),
    }
}

/// The number in a group of a match, if it is written in ASCII digits and fits.
pub open spec fn number_in(m: Option<Seq<Option<Seq<char>>>>, i: int) -> Option<u64> {
    match group_text(m, i) {
        Some(digits) => if is_number(digits) && number_value(digits) <= u64::MAX {
            Some(number_value(digits) as u64)
        } else {
            None
        },
        None => None,
    }
}

/// The issue that the matches of the two file name patterns tell: kind, number and
/// side.
pub open spec fn issue_of_matches(
    main: Option<Seq<Option<Seq<char>>>>,
    extra: Option<Seq<Option<Seq<char>>>>,
) -> Option<(Seq<char>, u64, Seq<char>)> {
    if main is Some {
        match number_in(main, 1) {
            Some(n) => Some(("main"@, n, uppered(or_empty(group_text(main, 2))))),
            None => None,
        }
    } else if extra is Some {
        match number_in(extra, 1) {
            Some(n) => Some(("extra"@, n, uppered(or_empty(group_text(extra, 2))))),
            None => None,
        }
    } else {
        None
    }
}

/// The issue that the name of an image tells.
pub open spec fn issue_of_path(path: Seq<char>) -> Option<(Seq<char>, u64, Seq<char>)> {
    let name = or_empty(file_name_of(path));
    issue_of_matches(
        regex_captures(MAIN_FILE_PATTERN@, name),
        regex_captures(EXTRA_FILE_PATTERN@, name),
    )
}

/// The issue that the matches of the two patterns for `AUTOEXEC.BAT` tell: kind
/// and number.
pub open spec fn autoexec_issue_of_matches(
    main: Option<Seq<Option<Seq<char>>>>,
    extra: Option<Seq<Option<Seq<char>>>>,
) -> Option<(Seq<char>, u64)> {
    if main is Some {
        match number_in(main, 1) {
            Some(n) => Some(("main"@, n)),
            None => None,
        }
    } else if extra is Some {
        match number_in(extra, 1) {
            Some(n) => Some(("extra"@, n)),
            None => None,
        }
    } else {
        None
    }
}

/// The issue that the text of `AUTOEXEC.BAT` tells.
pub open spec fn issue_of_autoexec(text: Seq<char>) -> Option<(Seq<char>, u64)> {
    autoexec_issue_of_matches(
        regex_captures(MAIN_AUTOEXEC_PATTERN@, text),
        regex_captures(EXTRA_AUTOEXEC_PATTERN@, text),
    )
}

fn number_of_group(m: &Option<Vec<Option<String>>>, i: usize) -> (r: Option<u64>)
    ensures
        r == number_in(match_model(*m), i as int),
{
    match group(m, i) {
        Some(s) => {
            let chars: Vec<char> = to_chars(s.as_str());
            parse_number(chars.as_slice())
        },
        None => None,
    }
}

fn group_or_empty(m: &Option<Vec<Option<String>>>, i: usize) -> (r: String)
    ensures
        r@ == or_empty(group_text(match_model(*m), i as int)),
{
    match group(m, i) {
        Some(s) => s,
        None => {
            let r = String::new();
            assert(r@ =~= Seq::empty());
            r
        },
    }
}

/// The view of an issue.
pub open spec fn issue_model(o: Option<(String, u64, String)>) -> Option<
    (Seq<char>, u64, Seq<char>),
> {
    match o {
        Some(t) => Some((t.0@, t.1, t.2@)),
        None => None,
    }
}

/// The issue that the matches of the two file name patterns tell.
pub fn issue_from_captures(
    main: &Option<Vec<Option<String>>>,
    extra: &Option<Vec<Option<String>>>,
) -> (r: Option<(String, u64, String)>)
    ensures
        issue_model(r) == issue_of_matches(match_model(*main), match_model(*extra)),
{
    if main.is_some() {
        let n: u64 = match number_of_group(main, 1) {
            Some(n) => n,
            None => {
                return None;
            },
        };
        let side: String = group_or_empty(main, 2);
        return Some(("main".to_owned(), n, to_upper(side.as_str())));
    }
    if extra.is_some() {
        let n: u64 = match number_of_group(extra, 1) {
            Some(n) => n,
            None => {
                return None;
            },
        };
        let side: String = group_or_empty(extra, 2);
        return Some(("extra".to_owned(), n, to_upper(side.as_str())));
    }
    None
}

/// The issue that the name of an image tells: kind, number and side.
pub fn issue_from_filename(image_path: &str) -> (r: Option<(String, u64, String)>)
    ensures
        issue_model(r) == issue_of_path(image_path@),
{
    let name: String = match file_name(image_path) {
        Some(n) => n,
        None => String::new(),
    };
    assert(name@ =~= or_empty(file_name_of(image_path@)));
    let main: Option<Vec<Option<String>>> = captures(MAIN_FILE_PATTERN, name.as_str());
    let extra: Option<Vec<Option<String>>> = captures(EXTRA_FILE_PATTERN, name.as_str());
    issue_from_captures(&main, &extra)
}

/// The view of an issue without its side.
pub open spec fn numbered_issue_model(o: Option<(String, u64)>) -> Option<(Seq<char>, u64)> {
    match o {
        Some(t) => Some((t.0@, t.1)),
        None => None,
    }
}

/// The issue that the matches of the two patterns for `AUTOEXEC.BAT` tell.
pub fn autoexec_issue_from_captures(
    main: &Option<Vec<Option<String>>>,
    extra: &Option<Vec<Option<String>>>,
) -> (r: Option<(String, u64)>)
    ensures
        numbered_issue_model(r) == autoexec_issue_of_matches(
            match_model(*main),
            match_model(*extra),
        ),
{
    if main.is_some() {
        return match number_of_group(main, 1) {
            Some(n) => Some(("main".to_owned(), n)),
            None => None,
        };
    }
    if extra.is_some() {
        return match number_of_group(extra, 1) {
            Some(n) => Some(("extra".to_owned(), n)),
            None => None,
        };
    }
    None
}

/// The issue that the text of `AUTOEXEC.BAT` tells: kind and number.
pub fn issue_from_autoexec(text: &str) -> (r: Option<(String, u64)>)
    ensures
        numbered_issue_model(r) == issue_of_autoexec(text@),
{
    let main: Option<Vec<Option<String>>> = captures(MAIN_AUTOEXEC_PATTERN, text);
    let extra: Option<Vec<Option<String>>> = captures(EXTRA_AUTOEXEC_PATTERN, text);
    autoexec_issue_from_captures(&main, &extra)
}

/// The contents of the file at a path.
pub open spec fn file_at(fs: DiskModel, path: Seq<char>) -> Result<Seq<u8>, FsError> {
    match fs.found(components(path)) {
        Err(e) => Err(e),
        Ok(entry) => fs.file_bytes(entry),
    }
}

/// The normalized text of the file at a path, if it can be read.
pub open spec fn text_at_path(fs: DiskModel, path: Seq<char>) -> Option<Seq<char>> {
    match file_at(fs, path) {
        Ok(bytes) => if decodable_length(bytes.len()) {
            Some(nfkc_text(sjis_text(bytes)))
        } else {
            None
        },
        Err(_) => None,
    }
}

/// Reads the file at a path.
pub fn read_file_at<D: DiskImage>(fs: &Filesystem<D>, path: &str) -> (r: Result<Vec<u8>, FsError>)
    requires
        fs.valid(),
    ensures
        match r {
            Ok(v) => file_at(fs@, path@) == Ok::<Seq<u8>, FsError>(v@),
            Err(e) => file_at(fs@, path@) == Err::<Seq<u8>, FsError>(e),
        },
{
    let entry: DirEntry = fs.resolve(path)?;
    fs.read_file(&entry)
}

fn read_text_at<D: DiskImage>(fs: &Filesystem<D>, path: &str) -> (r: Option<String>)
    requires
        fs.valid(),
    ensures
        match r {
            Some(s) => text_at_path(fs@, path@) == Some(s@),
            None => text_at_path(fs@, path@) is None,
        },
{
    match read_file_at(fs, path) {
        Ok(bytes) => {
            if bytes.len() > usize::MAX / 8 {
                return None;
            }
            Some(decode_sjis_nfkc(bytes.as_slice()))
        },
        Err(_) => None,
    }
}

/// Whether a disk is one of the magazine: its name says so, or `AUTOEXEC.BAT`
/// does, or it has a table of contents.
pub open spec fn is_dennou(ctx: ContextModel) -> bool {
    ||| issue_of_path(ctx.image_path) is Some
    ||| match text_at_path(ctx.fs, "AUTOEXEC.BAT"@) {
        Some(text) => issue_of_autoexec(text) is Some || has_part(text, "電脳倶楽部"@),
        None => false,
    }
    ||| ctx.fs.found(components("QS/MOKUJI.DOC"@)) is Ok
    ||| ctx.fs.found(components("QUICKSTART/MOKUJI.DOC"@)) is Ok
}

/// Whether a disk is one of the magazine.
pub fn detect_dennou(ctx: &ExtractContext<'_>) -> (r: bool)
    requires
        ctx.valid(),
    ensures
        r == is_dennou(ctx@),
{
    if issue_from_filename(ctx.image_path).is_some() {
        return true;
    }
    if let Some(text) = read_text_at(ctx.fs, "AUTOEXEC.BAT") {
        if issue_from_autoexec(text.as_str()).is_some() {
            return true;
        }
        if contains_text(text.as_str(), "電脳倶楽部") {
            return true;
        }
    }
    ctx.fs.resolve("QS/MOKUJI.DOC").is_ok() || ctx.fs.resolve("QUICKSTART/MOKUJI.DOC").is_ok()
}

/// The issue that a disk belongs to, and what is doubtful about it. The name of the
/// image goes first; `AUTOEXEC.BAT` does not tell the side.
pub open spec fn issue_of(ctx: ContextModel) -> (
    Option<(Seq<char>, u64, Seq<char>)>,
    Seq<Seq<char>>,
) {
    if issue_of_path(ctx.image_path) is Some {
        (issue_of_path(ctx.image_path), Seq::empty())
    } else {
        match text_at_path(ctx.fs, "AUTOEXEC.BAT"@) {
            Some(text) => match issue_of_autoexec(text) {
                Some((kind, n)) => (
                    Some((kind, n, Seq::empty())),
                    seq!["issue_role unknown (resolved from AUTOEXEC.BAT)"@],
                ),
                None => (None, Seq::empty()),
            },
            None => (None, Seq::empty()),
        }
    }
}

/// Finds out which issue a disk belongs to.
pub fn resolve_issue(ctx: &ExtractContext<'_>, warnings: &mut Vec<String>) -> (r: Option<
    (String, u64, String),
>)
    requires
        ctx.valid(),
    ensures
        issue_model(r) == issue_of(ctx@).0,
        texts(final(warnings)@) == texts(old(warnings)@) + issue_of(ctx@).1,
{
    let ghost had = texts(warnings@);
    assert(had + Seq::<Seq<char>>::empty() =~= had);
    let named: Option<(String, u64, String)> = issue_from_filename(ctx.image_path);
    if named.is_some() {
        return named;
    }
    if let Some(text) = read_text_at(ctx.fs, "AUTOEXEC.BAT") {
        if let Some((kind, n)) = issue_from_autoexec(text.as_str()) {
            let doubt: String = "issue_role unknown (resolved from AUTOEXEC.BAT)".to_owned();
            warnings.push(doubt);
            assert(texts(warnings@) =~= had + seq![doubt@]);
            let side = String::new();
            assert(side@ =~= Seq::empty());
            return Some((kind, n, side));
        }
    }
    None
}

/// What the head of a `.DOC` file tells.
#[derive(Debug)]
pub struct DocHeader {
    pub title: Option<String>,
    pub original_artist: Option<String>,
    pub composer: Option<String>,
    pub arranger: Option<String>,
    pub engine: Option<String>,
    pub duration: Option<String>,
}

/// What the head of a `.DOC` file tells, as a mathematical value.
pub struct HeaderModel {
    pub title: Option<Seq<char>>,
    pub original_artist: Option<Seq<char>>,
    pub composer: Option<Seq<char>>,
    pub arranger: Option<Seq<char>>,
    pub engine: Option<Seq<char>>,
    pub duration: Option<Seq<char>>,
}

impl View for DocHeader {
    type V = HeaderModel;

    open spec fn view(&self) -> HeaderModel {
        HeaderModel {
            title: opt_text(self.title),
            original_artist: opt_text(self.original_artist),
            composer: opt_text(self.composer),
            arranger: opt_text(self.arranger),
            engine: opt_text(self.engine),
            duration: opt_text(self.duration),
        }
    }
}

/// What is known of a head while its lines are read.
pub struct HeaderState {
    pub composer: Option<String>,
    pub arranger: Option<String>,
    pub engine: Option<String>,
    pub duration: Option<String>,
    /// The lines that are none of these: the title and the original artist.
    pub candidates: Vec<String>,
}

/// What is known of a head while its lines are read, as a mathematical value.
pub struct HeaderStateModel {
    pub composer: Option<Seq<char>>,
    pub arranger: Option<Seq<char>>,
    pub engine: Option<Seq<char>>,
    pub duration: Option<Seq<char>>,
    pub candidates: Seq<Seq<char>>,
}

impl View for HeaderState {
    type V = HeaderStateModel;

    open spec fn view(&self) -> HeaderStateModel {
        HeaderStateModel {
            composer: opt_text(self.composer),
            arranger: opt_text(self.arranger),
            engine: opt_text(self.engine),
            duration: opt_text(self.duration),
            candidates: texts(self.candidates@),
        }
    }
}

/// How the patterns match a line.
pub struct LineMatches {
    pub composer: Option<Vec<Option<String>>>,
    pub arranger: Option<Vec<Option<String>>>,
    pub engine: Option<Vec<Option<String>>>,
    pub duration: Option<Vec<Option<String>>>,
}

/// How the patterns match a line, as a mathematical value.
pub struct LineMatchesModel {
    pub composer: Option<Seq<Option<Seq<char>>>>,
    pub arranger: Option<Seq<Option<Seq<char>>>>,
    pub engine: Option<Seq<Option<Seq<char>>>>,
    pub duration: Option<Seq<Option<Seq<char>>>>,
}

impl View for LineMatches {
    type V = LineMatchesModel;

    open spec fn view(&self) -> LineMatchesModel {
        LineMatchesModel {
            composer: match_model(self.composer),
            arranger: match_model(self.arranger),
            engine: match_model(self.engine),
            duration: match_model(self.duration),
        }
    }
}

/// How the patterns match a line.
pub open spec fn matches_of(line: Seq<char>) -> LineMatchesModel {
    LineMatchesModel {
        composer: regex_captures(COMPOSER_PATTERN@, line),
        arranger: regex_captures(ARRANGER_PATTERN@, line),
        engine: regex_captures(ENGINE_PATTERN@, line),
        duration: regex_captures(DURATION_PATTERN@, line),
    }
}

/// A text up to the first `c`, without the white space before that.
pub open spec fn cut_at(s: Seq<char>, c: char) -> Seq<char> {
    if find_char(s, c) < s.len() {
        end_trimmed(s.take(find_char(s, c)))
    } else {
        s
    }
}

/// A field without the white space around it and the remark in parentheses at its
/// end.
pub open spec fn cleaned(s: Seq<char>) -> Seq<char> {
    cut_at(cut_at(trimmed(s), '('), '（')
}

/// The music driver that a line names, with its version if it has one.
pub open spec fn engine_text(m: Option<Seq<Option<Seq<char>>>>) -> Seq<char> {
    let name = or_empty(group_text(m, 1));
    let version = or_empty(group_text(m, 2));
    if version.len() == 0 {
        name
    } else {
        name + " Ver "@ + version
    }
}

/// Whether a line may be the title or the original artist: it does not look like
/// any of the other lines.
pub open spec fn may_be_title(line: Seq<char>) -> bool {
    &&& !has_part(line, "演奏時間"@)
    &&& !has_part(uppered(line), "MUSIC BY"@)
    &&& !has_part(uppered(line), "ARRANGE BY"@)
    &&& !has_part(uppered(line), "ARRENGE BY"@)
    &&& !has_part(line, "作曲"@)
    &&& !has_part(line, "編曲"@)
}

/// What is known of a head after one more line.
pub open spec fn header_step(st: HeaderStateModel, line: Seq<char>, m: LineMatchesModel)
    -> HeaderStateModel {
    if st.composer is None && m.composer is Some {
        HeaderStateModel { composer: Some(cleaned(or_empty(group_text(m.composer, 1)))), ..st }
    } else if st.arranger is None && m.arranger is Some {
        HeaderStateModel { arranger: Some(cleaned(or_empty(group_text(m.arranger, 1)))), ..st }
    } else if st.engine is None && m.engine is Some {
        HeaderStateModel { engine: Some(engine_text(m.engine)), ..st }
    } else if st.duration is None && m.duration is Some {
        HeaderStateModel { duration: Some(cleaned(or_empty(group_text(m.duration, 1)))), ..st }
    } else if may_be_title(line) {
        HeaderStateModel { candidates: st.candidates.push(line), ..st }
    } else {
        st
    }
}

/// What is known of a head before its first line.
pub open spec fn header_start() -> HeaderStateModel {
    HeaderStateModel {
        composer: None,
        arranger: None,
        engine: None,
        duration: None,
        candidates: Seq::empty(),
    }
}

/// What is known of a head after the lines from `from` to `to`. White space is
/// folded, and lines of nothing else do not count.
pub open spec fn header_after(lines: Seq<Seq<char>>, from: int, to: int) -> HeaderStateModel
    decreases to - from,
{
    if to <= from {
        header_start()
    } else {
        let before = header_after(lines, from, to - 1);
        let line = collapsed(lines[to - 1]);
        if line.len() == 0 {
            before
        } else {
            header_step(before, line, matches_of(line))
        }
    }
}

/// The number of notes in a text.
pub open spec fn note_count(s: Seq<char>) -> nat
    decreases s.len(),
{
    if s.len() == 0 {
        0
    } else {
        note_count(s.drop_last()) + (if s.last() == '♪' {
            1nat
        } else {
            0nat
        })
    }
}

/// Whether a line is a separator: five notes or more, and nothing else but white
/// space.
pub open spec fn is_separator(line: Seq<char>) -> bool {
    let t = trimmed(line);
    note_count(t) >= 5 && forall|i: int|
        0 <= i < t.len() ==> (#[trigger] t[i]) == '♪' || is_white(t[i])
}

/// The first separator from `from` on; the number of lines where there is none.
pub open spec fn separator_from(lines: Seq<Seq<char>>, from: int) -> int
    decreases lines.len() - from,
{
    if from >= lines.len() || is_separator(lines[from]) {
        from
    } else {
        separator_from(lines, from + 1)
    }
}

/// The lines that make up the head: those between the first two separators, or 29
/// lines after the only one, or the first 40.
pub open spec fn header_range(lines: Seq<Seq<char>>) -> (int, int) {
    let n = lines.len() as int;
    let first = separator_from(lines, 0);
    if first >= n {
        (
            0,
            if n < 40 {
                n
            } else {
                40
            },
        )
    } else {
        let second = separator_from(lines, first + 1);
        if second < n {
            (first + 1, second)
        } else {
            (
                first + 1,
                if n < first + 30 {
                    n
                } else {
                    first + 30
                },
            )
        }
    }
}

/// What a state tells: the first candidate is the title, the second one the
/// original artist.
pub open spec fn header_of_state(st: HeaderStateModel) -> HeaderModel {
    HeaderModel {
        title: if st.candidates.len() > 0 {
            Some(st.candidates[0])
        } else {
            None
        },
        original_artist: if st.candidates.len() > 1 {
            Some(st.candidates[1])
        } else {
            None
        },
        composer: st.composer,
        arranger: st.arranger,
        engine: st.engine,
        duration: st.duration,
    }
}

/// What the head of a `.DOC` file tells.
pub open spec fn header_of(text: Seq<char>) -> HeaderModel {
    let lines = lines_of(text);
    let range = header_range(lines);
    header_of_state(header_after(lines, range.0, range.1))
}

/// Whether a line is a separator.
pub fn is_separator_line(line: &str) -> (r: bool)
    ensures
        r == is_separator(line@),
{
    let chars: Vec<char> = to_chars(line);
    let t: &[char] = trim_chars(chars.as_slice());
    let mut count: usize = 0;
    let mut i: usize = 0;
    assert(t@.take(0) =~= Seq::empty());
    while i < t.len()
        invariant
            i <= t@.len(),
            t@ == trimmed(line@),
            count <= i,
            count == note_count(t@.take(i as int)),
            forall|k: int| 0 <= k < i ==> (#[trigger] t@[k]) == '♪' || is_white(t@[k]),
        decreases t@.len() - i,
    {
        assert(t@.take(i + 1).drop_last() =~= t@.take(i as int));
        if t[i] == '♪' {
            count = count + 1;
        } else if !is_white_space(t[i]) {
            return false;
        }
        i = i + 1;
    }
    assert(t@.take(i as int) =~= t@);
    count >= 5
}

fn cut(s: Vec<char>, c: char) -> (r: Vec<char>)
    ensures
        r@ == cut_at(s@, c),
{
    let k: usize = find_from(s.as_slice(), 0, c);
    assert(s@.skip(0) =~= s@);
    if k == s.len() {
        return s;
    }
    let head: &[char] = &s.as_slice()[0..k];
    assert(head@ =~= s@.take(k as int));
    let n: usize = end_of_text(head);
    let mut out: Vec<char> = s;
    out.truncate(n);
    assert(out@ =~= head@.take(n as int));
    out
}

/// Takes the white space around a field and the remark in parentheses at its end
/// away.
pub fn clean_field(s: &str) -> (r: String)
    ensures
        r@ == cleaned(s@),
{
    let bare: String = trim(s);
    let first: Vec<char> = cut(to_chars(bare.as_str()), '(');
    let second: Vec<char> = cut(first, '（');
    from_chars(second.as_slice())
}

fn line_may_be_title(line: &str) -> (r: bool)
    ensures
        r == may_be_title(line@),
{
    let upper: String = to_upper(line);
    !contains_text(line, "演奏時間") && !contains_text(upper.as_str(), "MUSIC BY")
        && !contains_text(upper.as_str(), "ARRANGE BY") && !contains_text(
        upper.as_str(),
        "ARRENGE BY",
    ) && !contains_text(line, "作曲") && !contains_text(line, "編曲")
}

fn engine_of(m: &Option<Vec<Option<String>>>) -> (r: String)
    ensures
        r@ == engine_text(match_model(*m)),
{
    let mut name: String = group_or_empty(m, 1);
    let version: String = group_or_empty(m, 2);
    if !version.as_str().is_empty() {
        name.append(" Ver ");
        name.append(version.as_str());
    }
    name
}

impl HeaderState {
    /// Before the first line.
    pub fn new() -> (r: Self)
        ensures
            r@ == header_start(),
    {
        let r = HeaderState {
            composer: None,
            arranger: None,
            engine: None,
            duration: None,
            candidates: Vec::new(),
        };
        assert(r@.candidates =~= Seq::empty());
        r
    }

    /// Takes one more line in, given how the patterns match it.
    pub fn take_line(&mut self, line: &str, m: &LineMatches)
        ensures
            final(self)@ == header_step(old(self)@, line@, m@),
    {
        if self.composer.is_none() && m.composer.is_some() {
            let field: String = group_or_empty(&m.composer, 1);
            self.composer = Some(clean_field(field.as_str()));
        } else if self.arranger.is_none() && m.arranger.is_some() {
            let field: String = group_or_empty(&m.arranger, 1);
            self.arranger = Some(clean_field(field.as_str()));
        } else if self.engine.is_none() && m.engine.is_some() {
            self.engine = Some(engine_of(&m.engine));
        } else if self.duration.is_none() && m.duration.is_some() {
            let field: String = group_or_empty(&m.duration, 1);
            self.duration = Some(clean_field(field.as_str()));
        } else if line_may_be_title(line) {
            let ghost before = texts(self.candidates@);
            let candidate: String = line.to_owned();
            self.candidates.push(candidate);
            assert(texts(self.candidates@) =~= before.push(candidate@));
        }
    }

    /// What the lines told.
    pub fn finish(self) -> (r: DocHeader)
        ensures
            r@ == header_of_state(self@),
    {
        let title: Option<String> = if self.candidates.len() > 0 {
            Some(self.candidates[0].clone())
        } else {
            None
        };
        let original_artist: Option<String> = if self.candidates.len() > 1 {
            Some(self.candidates[1].clone())
        } else {
            None
        };
        DocHeader {
            title,
            original_artist,
            composer: self.composer,
            arranger: self.arranger,
            engine: self.engine,
            duration: self.duration,
        }
    }
}

fn match_line(line: &str) -> (r: LineMatches)
    ensures
        r@ == matches_of(line@),
{
    LineMatches {
        composer: captures(COMPOSER_PATTERN, line),
        arranger: captures(ARRANGER_PATTERN, line),
        engine: captures(ENGINE_PATTERN, line),
        duration: captures(DURATION_PATTERN, line),
    }
}

fn find_separator(lines: &Vec<String>, from: usize) -> (r: usize)
    requires
        from <= lines@.len(),
    ensures
        from <= r <= lines@.len(),
        r == separator_from(texts(lines@), from as int),
{
    let mut i: usize = from;
    while i < lines.len() && !is_separator_line(lines[i].as_str())
        invariant
            from <= i <= lines@.len(),
            separator_from(texts(lines@), i as int) == separator_from(texts(lines@), from as int),
        decreases lines@.len() - i,
    {
        assert(texts(lines@)[i as int] == lines@[i as int]@);
        i = i + 1;
    }
    if i < lines.len() {
        assert(texts(lines@)[i as int] == lines@[i as int]@);
    }
    i
}

/// The lines that make up the head.
fn find_header(lines: &Vec<String>) -> (r: (usize, usize))
    ensures
        r.0 <= r.1 <= lines@.len(),
        (r.0 as int, r.1 as int) == header_range(texts(lines@)),
{
    let n: usize = lines.len();
    let first: usize = find_separator(lines, 0);
    if first == n {
        return (
            0,
            if n < 40 {
                n
            } else {
                40
            },
        );
    }
    let second: usize = find_separator(lines, first + 1);
    if second < n {
        return (first + 1, second);
    }
    (
        first + 1,
        if n - first < 30 {
            n
        } else {
            first + 30
        },
    )
}

/// Reads the head of a `.DOC` file, whose text is normalized.
pub fn parse_doc_header(text: &str, _warnings: &mut Vec<String>) -> (r: DocHeader)
    ensures
        r@ == header_of(text@),
        final(_warnings)@ == old(_warnings)@,
{
    let lines: Vec<String> = split_lines(text);
    let (from, to): (usize, usize) = find_header(&lines);
    let mut state = HeaderState::new();
    let mut i: usize = from;
    while i < to
        invariant
            from <= i <= to <= lines@.len(),
            state@ == header_after(texts(lines@), from as int, i as int),
        decreases to - i,
    {
        let line: String = collapse_spaces(lines[i].as_str());
        assert(texts(lines@)[i as int] == lines@[i as int]@);
        if !line.as_str().is_empty() {
            let m: LineMatches = match_line(line.as_str());
            state.take_line(line.as_str(), &m);
        }
        i = i + 1;
    }
    state.finish()
}

/// Who sent a piece in, and from which prefecture.
#[derive(Debug)]
pub struct Submitter {
    pub pref: String,
    pub name: String,
}

/// Who sent a piece in, as a mathematical value.
pub struct SubmitterModel {
    pub pref: Seq<char>,
    pub name: Seq<char>,
}

impl View for Submitter {
    type V = SubmitterModel;

    open spec fn view(&self) -> SubmitterModel {
        SubmitterModel { pref: self.pref@, name: self.name@ }
    }
}

impl Clone for Submitter {
    fn clone(&self) -> (r: Self)
        ensures
            r@ == self@,
    {
        Submitter { pref: self.pref.clone(), name: self.name.clone() }
    }
}

/// The view of an optional submitter.
pub open spec fn opt_submitter(o: Option<Submitter>) -> Option<SubmitterModel> {
    match o {
        Some(s) => Some(s@),
        None => None,
    }
}

/// The submitter that a match of the pattern tells.
pub open spec fn submitter_of_match(m: Option<Seq<Option<Seq<char>>>>) -> Option<SubmitterModel> {
    if m is Some {
        Some(
            SubmitterModel {
                pref: trimmed(or_empty(group_text(m, 1))),
                name: trimmed(or_empty(group_text(m, 2))),
            },
        )
    } else {
        None
    }
}

/// The submitter that a text tells.
pub open spec fn submitter_of(text: Seq<char>) -> Option<SubmitterModel> {
    submitter_of_match(regex_captures(SUBMITTER_PATTERN@, text))
}

/// The submitter that a match of the pattern tells.
pub fn submitter_from_captures(m: &Option<Vec<Option<String>>>) -> (r: Option<Submitter>)
    ensures
        opt_submitter(r) == submitter_of_match(match_model(*m)),
{
    if m.is_none() {
        return None;
    }
    let pref: String = group_or_empty(m, 1);
    let name: String = group_or_empty(m, 2);
    Some(Submitter { pref: trim(pref.as_str()), name: trim(name.as_str()) })
}

/// Finds the sentence that tells who sent a piece in.
pub fn parse_submitter(text: &str) -> (r: Option<Submitter>)
    ensures
        opt_submitter(r) == submitter_of(text@),
{
    let m: Option<Vec<Option<String>>> = captures(SUBMITTER_PATTERN, text);
    submitter_from_captures(&m)
}

/// Whether an entry is a piece of music: a file with the extension `DOC`.
pub open spec fn is_piece(e: DirEntryModel) -> bool {
    &&& !e.attr.has(Attr::DIRECTORY)
    &&& !e.attr.has(Attr::VOLUME)
    &&& e.name != "."@
    &&& e.name != ".."@
    &&& lowered(e.ext) == lowered("DOC"@)
}

/// The names of the pieces among some entries, each once and in order.
pub open spec fn stems_among(entries: Seq<DirEntryModel>) -> Seq<Seq<char>>
    decreases entries.len(),
{
    if entries.len() == 0 {
        Seq::empty()
    } else {
        let before = stems_among(entries.drop_last());
        let name = uppered(entries.last().name);
        if is_piece(entries.last()) && !before.contains(name) {
            insertion(before, name, text_order(TextOrder::Plain))
        } else {
            before
        }
    }
}

/// The names of the pieces of music on a disk.
pub open spec fn stems_on(fs: DiskModel) -> Seq<Seq<char>> {
    match fs.listed(components("MUSIC"@)) {
        Ok(entries) => stems_among(entries),
        Err(_) => Seq::empty(),
    }
}

/// Lists the pieces of music on a disk, in capitals and in order: the files in
/// `MUSIC` with the extension `DOC`.
pub fn collect_music_stems<D: DiskImage>(fs: &Filesystem<D>) -> (r: Vec<String>)
    requires
        fs.valid(),
    ensures
        texts(r@) == stems_on(fs@),
{
    let mut stems: Vec<String> = Vec::new();
    assert(texts(stems@) =~= Seq::empty());
    let entries: Vec<DirEntry> = match fs.list_path("MUSIC") {
        Ok(v) => v,
        Err(_) => {
            return stems;
        },
    };
    let ghost all = entry_models(entries@);
    let mut i: usize = 0;
    assert(texts(stems@) =~= stems_among(all.take(0)));
    while i < entries.len()
        invariant
            i <= entries@.len(),
            all == entry_models(entries@),
            texts(stems@) == stems_among(all.take(i as int)),
        decreases entries@.len() - i,
    {
        let e: &DirEntry = &entries[i];
        assert(all.take(i + 1).drop_last() =~= all.take(i as int));
        assert(all.take(i + 1).last() == e@);
        if !e.attr.contains(Attr::DIRECTORY) && !e.attr.contains(Attr::VOLUME) && !same_text(
            e.name.as_str(),
            ".",
        ) && !same_text(e.name.as_str(), "..") && same_ignoring_case(e.ext.as_str(), "DOC") {
            let name: String = to_upper(e.name.as_str());
            if !is_named(&stems, name.as_str()) {
                proof {
                    assert(!texts(stems@).contains(name@)) by {
                        if texts(stems@).contains(name@) {
                            let k = choose|k: int|
                                0 <= k < texts(stems@).len() && texts(stems@)[k] == name@;
                            assert(stems@[k]@ == name@);
                        }
                    }
                    assert(models(stems@) =~= texts(stems@));
                    assert(order_of::<String>(TextOrder::Plain) =~= text_order(TextOrder::Plain));
                }
                insert_in_order(&mut stems, name, &TextOrder::Plain);
                assert(models(stems@) =~= texts(stems@));
            } else {
                proof {
                    let k = choose|k: int| 0 <= k < stems@.len() && (#[trigger] stems@[k])@ == name@;
                    assert(texts(stems@)[k] == name@);
                }
            }
        }
        i = i + 1;
    }
    assert(all.take(i as int) =~= all);
    stems
}

/// What the table of contents tells of a piece.
#[derive(Debug)]
pub struct MokujiHint {
    pub submitter: Option<Submitter>,
    pub jasrac_note: Option<String>,
}

/// What the table of contents tells of a piece, as a mathematical value.
pub struct HintModel {
    pub submitter: Option<SubmitterModel>,
    pub jasrac_note: Option<Seq<char>>,
}

impl View for MokujiHint {
    type V = HintModel;

    open spec fn view(&self) -> HintModel {
        HintModel {
            submitter: opt_submitter(self.submitter),
            jasrac_note: opt_text(self.jasrac_note),
        }
    }
}

/// What the table of contents tells of the pieces. Of two entries for a piece the
/// first one counts.
#[derive(Debug)]
pub struct MokujiHints {
    pub entries: Vec<(String, MokujiHint)>,
}

impl View for MokujiHints {
    type V = Seq<(Seq<char>, HintModel)>;

    open spec fn view(&self) -> Seq<(Seq<char>, HintModel)> {
        Seq::new(self.entries@.len(), |i: int| (self.entries@[i].0@, self.entries@[i].1@))
    }
}

/// What is told of a piece: the first entry with its name.
pub open spec fn hint_for(hints: Seq<(Seq<char>, HintModel)>, stem: Seq<char>) -> Option<HintModel>
    decreases hints.len(),
{
    if hints.len() == 0 {
        None
    } else if hints[0].0 == stem {
        Some(hints[0].1)
    } else {
        hint_for(hints.skip(1), stem)
    }
}

impl MokujiHints {
    /// What is told of a piece.
    pub fn get(&self, stem: &str) -> (r: Option<&MokujiHint>)
        ensures
            match r {
                Some(h) => hint_for(self@, stem@) == Some(h@),
                None => hint_for(self@, stem@) is None,
            },
    {
        let mut i: usize = 0;
        assert(self@.skip(0) =~= self@);
        while i < self.entries.len()
            invariant
                i <= self.entries@.len(),
                hint_for(self@, stem@) == hint_for(self@.skip(i as int), stem@),
            decreases self.entries@.len() - i,
        {
            assert(self@.skip(i as int)[0] == self@[i as int]);
            assert(self@.skip(i as int).skip(1) =~= self@.skip(i + 1));
            if same_text(self.entries[i].0.as_str(), stem) {
                return Some(&self.entries[i].1);
            }
            i = i + 1;
        }
        None
    }
}

/// The first line from `from` on that links to a piece; the number of lines where
/// there is none.
pub open spec fn link_from(stems: Seq<Option<Seq<char>>>, from: int) -> int
    decreases stems.len() - from,
{
    if from >= stems.len() || stems[from] is Some {
        from
    } else {
        link_from(stems, from + 1)
    }
}

proof fn link_is_found(stems: Seq<Option<Seq<char>>>, from: int)
    requires
        0 <= from <= stems.len(),
    ensures
        from <= link_from(stems, from) <= stems.len(),
        link_from(stems, from) < stems.len() ==> stems[link_from(stems, from)] is Some,
    decreases stems.len() - from,
{
    if from < stems.len() && stems[from] is None {
        link_is_found(stems, from + 1);
    }
}

/// The pieces that lines link to, each with the text from its link to the next
/// one.
pub open spec fn blocks_from(lines: Seq<Seq<char>>, stems: Seq<Option<Seq<char>>>, from: int) -> Seq<
    (Seq<char>, Seq<char>),
>
    decreases stems.len() - from,
    via blocks_decreases
{
    let start = link_from(stems, from);
    if !(0 <= from <= stems.len()) || start >= stems.len() {
        Seq::empty()
    } else {
        let end = link_from(stems, start + 1);
        seq![(uppered(stems[start]->0), joined_texts(lines.subrange(start, end), seq!['\n']))]
            + blocks_from(lines, stems, end)
    }
}

#[via_fn]
proof fn blocks_decreases(lines: Seq<Seq<char>>, stems: Seq<Option<Seq<char>>>, from: int) {
    if 0 <= from <= stems.len() {
        link_is_found(stems, from);
        let start = link_from(stems, from);
        if start < stems.len() {
            link_is_found(stems, start + 1);
        }
    }
}

/// Links as mathematical values.
pub open spec fn link_models(v: Seq<Option<String>>) -> Seq<Option<Seq<char>>> {
    Seq::new(v.len(), |i: int| opt_text(v[i]))
}

/// Blocks as mathematical values.
pub open spec fn block_models(v: Seq<(String, String)>) -> Seq<(Seq<char>, Seq<char>)> {
    Seq::new(v.len(), |i: int| (v[i].0@, v[i].1@))
}

fn find_link(stems: &Vec<Option<String>>, from: usize) -> (r: usize)
    requires
        from <= stems@.len(),
    ensures
        from <= r <= stems@.len(),
        r == link_from(link_models(stems@), from as int),
        r < stems@.len() ==> stems@[r as int] is Some,
{
    let mut i: usize = from;
    while i < stems.len() && stems[i].is_none()
        invariant
            from <= i <= stems@.len(),
            link_from(link_models(stems@), i as int) == link_from(
                link_models(stems@),
                from as int,
            ),
        decreases stems@.len() - i,
    {
        i = i + 1;
    }
    i
}

/// Cuts the lines of a table of contents into blocks, given the piece that each
/// line links to.
pub fn mokuji_blocks(lines: &Vec<String>, stems: &Vec<Option<String>>) -> (r: Vec<
    (String, String),
>)
    requires
        lines@.len() == stems@.len(),
    ensures
        block_models(r@) == blocks_from(texts(lines@), link_models(stems@), 0),
{
    let ghost ls = texts(lines@);
    let ghost ss = link_models(stems@);
    let mut out: Vec<(String, String)> = Vec::new();
    let mut from: usize = 0;
    assert(block_models(out@) + blocks_from(ls, ss, 0) =~= blocks_from(ls, ss, 0));
    loop
        invariant
            from <= stems@.len(),
            lines@.len() == stems@.len(),
            ls == texts(lines@),
            ss == link_models(stems@),
            block_models(out@) + blocks_from(ls, ss, from as int) == blocks_from(ls, ss, 0),
        decreases stems@.len() - from,
    {
        let start: usize = find_link(stems, from);
        if start == stems.len() {
            assert(block_models(out@) =~= blocks_from(ls, ss, 0));
            return out;
        }
        let end: usize = find_link(stems, start + 1);
        let name: String = match &stems[start] {
            Some(s) => to_upper(s.as_str()),
            None => String::new(),
        };
        let part: &[String] = &lines.as_slice()[start..end];
        let block: String = join(part, "\n");
        proof {
            reveal_strlit("\n");
            assert("\n"@ =~= seq!['\n']);
            assert(texts(part@) =~= ls.subrange(start as int, end as int));
            assert(ss[start as int]->0 == stems@[start as int]->0@);
        }
        let ghost before = block_models(out@);
        out.push((name, block));
        assert(block_models(out@) =~= before.push((name@, block@)));
        assert(block_models(out@) + blocks_from(ls, ss, end as int) =~= before + blocks_from(
            ls,
            ss,
            from as int,
        ));
        from = end;
    }
}

/// What the matches of the two patterns in a block tell.
pub open spec fn hint_of_matches(
    submitter: Option<Seq<Option<Seq<char>>>>,
    jasrac: Option<Seq<Option<Seq<char>>>>,
) -> HintModel {
    HintModel {
        submitter: submitter_of_match(submitter),
        jasrac_note: match group_text(jasrac, 0) {
            Some(s) => Some(collapsed(s)),
            None => None,
        },
    }
}

/// What a block of the table of contents tells.
pub open spec fn hint_of_block(block: Seq<char>) -> HintModel {
    hint_of_matches(
        regex_captures(SUBMITTER_PATTERN@, block),
        regex_captures(JASRAC_PATTERN@, block),
    )
}

/// What blocks tell.
pub open spec fn hints_of_blocks(blocks: Seq<(Seq<char>, Seq<char>)>) -> Seq<
    (Seq<char>, HintModel),
> {
    Seq::new(blocks.len(), |i: int| (blocks[i].0, hint_of_block(blocks[i].1)))
}

/// The piece that each line links to.
pub open spec fn links_of(lines: Seq<Seq<char>>) -> Seq<Option<Seq<char>>> {
    Seq::new(lines.len(), |i: int| group_text(regex_captures(STEM_PATTERN@, lines[i]), 1))
}

/// What a table of contents tells.
pub open spec fn hints_of(text: Seq<char>) -> Seq<(Seq<char>, HintModel)> {
    hints_of_blocks(blocks_from(lines_of(text), links_of(lines_of(text)), 0))
}

/// What the matches of the two patterns in a block tell.
pub fn hint_from_captures(
    submitter: &Option<Vec<Option<String>>>,
    jasrac: &Option<Vec<Option<String>>>,
) -> (r: MokujiHint)
    ensures
        r@ == hint_of_matches(match_model(*submitter), match_model(*jasrac)),
{
    let jasrac_note: Option<String> = match group(jasrac, 0) {
        Some(s) => Some(collapse_spaces(s.as_str())),
        None => None,
    };
    MokujiHint { submitter: submitter_from_captures(submitter), jasrac_note }
}

/// Reads a table of contents, whose text is normalized.
pub fn parse_mokuji(text: &str) -> (r: MokujiHints)
    ensures
        r@ == hints_of(text@),
{
    let lines: Vec<String> = split_lines(text);
    let ghost ls = texts(lines@);
    let mut stems: Vec<Option<String>> = Vec::new();
    let mut i: usize = 0;
    while i < lines.len()
        invariant
            i <= lines@.len(),
            ls == texts(lines@),
            link_models(stems@) =~= links_of(ls).take(i as int),
        decreases lines@.len() - i,
    {
        let ghost before = link_models(stems@);
        let m: Option<Vec<Option<String>>> = captures(STEM_PATTERN, lines[i].as_str());
        let link: Option<String> = group(&m, 1);
        stems.push(link);
        assert(link_models(stems@) =~= before.push(opt_text(link)));
        i = i + 1;
    }
    assert(link_models(stems@) =~= links_of(ls));
    assert(link_models(stems@).len() == lines@.len());
    let blocks: Vec<(String, String)> = mokuji_blocks(&lines, &stems);
    let ghost bs = block_models(blocks@);
    let mut hints = MokujiHints { entries: Vec::new() };
    let mut k: usize = 0;
    while k < blocks.len()
        invariant
            k <= blocks@.len(),
            bs == block_models(blocks@),
            hints@ =~= hints_of_blocks(bs).take(k as int),
        decreases blocks@.len() - k,
    {
        let ghost before = hints@;
        let block: &str = blocks[k].1.as_str();
        let submitter: Option<Vec<Option<String>>> = captures(SUBMITTER_PATTERN, block);
        let jasrac: Option<Vec<Option<String>>> = captures(JASRAC_PATTERN, block);
        let hint: MokujiHint = hint_from_captures(&submitter, &jasrac);
        let name: String = blocks[k].0.clone();
        hints.entries.push((name, hint));
        assert(hints@ =~= before.push((name@, hint@)));
        k = k + 1;
    }
    assert(hints@ =~= hints_of_blocks(bs));
    hints
}

/// What the table of contents of a disk tells: the first of the two places where
/// it can be read.
pub open spec fn hints_on(fs: DiskModel) -> Seq<(Seq<char>, HintModel)> {
    match text_at_path(fs, "QS/MOKUJI.DOC"@) {
        Some(text) => hints_of(text),
        None => match text_at_path(fs, "QUICKSTART/MOKUJI.DOC"@) {
            Some(text) => hints_of(text),
            None => Seq::empty(),
        },
    }
}

/// Reads the table of contents of a disk.
pub fn collect_mokuji_hints<D: DiskImage>(fs: &Filesystem<D>) -> (r: MokujiHints)
    requires
        fs.valid(),
    ensures
        r@ == hints_on(fs@),
{
    if let Some(text) = read_text_at(fs, "QS/MOKUJI.DOC") {
        return parse_mokuji(text.as_str());
    }
    if let Some(text) = read_text_at(fs, "QUICKSTART/MOKUJI.DOC") {
        return parse_mokuji(text.as_str());
    }
    let none = MokujiHints { entries: Vec::new() };
    assert(none@ =~= Seq::empty());
    none
}

/// A number with at least three digits.
pub open spec fn three_digits(n: nat) -> Seq<char> {
    if n < 10 {
        seq!['0', '0'] + decimal(n)
    } else if n < 100 {
        seq!['0'] + decimal(n)
    } else {
        decimal(n)
    }
}

/// The place of an issue in the hierarchy of issues.
pub open spec fn facet_of(kind: Seq<char>, number: u64) -> Seq<char> {
    "/dennou/"@ + kind + "/"@ + three_digits(number as nat)
}

/// The path of a file of a piece.
pub open spec fn piece_path(stem: Seq<char>, ext: Seq<char>) -> Seq<char> {
    "MUSIC/"@ + stem + "."@ + ext
}

/// The place of an issue in the hierarchy of issues.
fn facet_text(kind: &str, number: u64) -> (r: String)
    ensures
        r@ == facet_of(kind@, number),
{
    let mut out: String = "/dennou/".to_owned();
    out.append(kind);
    out.append("/");
    let digits: String = number_text(number);
    let ghost before = out@;
    if number < 10 {
        out.push('0');
        out.push('0');
    } else if number < 100 {
        out.push('0');
    }
    out.append(digits.as_str());
    assert(out@ =~= before + three_digits(number as nat));
    out
}

fn piece_file(stem: &str, ext: &str) -> (r: String)
    ensures
        r@ == piece_path(stem@, ext@),
{
    let mut out: String = "MUSIC/".to_owned();
    out.append(stem);
    out.append(".");
    out.append(ext);
    out
}

/// The members of an object as mathematical values.
pub open spec fn member_models(v: Seq<Member>) -> Seq<(Seq<char>, JsonModel)> {
    Seq::new(v.len(), |i: int| (v[i].name@, v[i].value@))
}

proof fn object_of_members(v: Vec<Member>)
    ensures
        Json::Object(v)@ == JsonModel::Object(member_models(v@)),
{
    assert(json_model(Json::Object(v))->Object_0 =~= member_models(v@));
}

fn put(members: &mut Vec<Member>, name: &str, value: Json)
    ensures
        member_models(final(members)@) == member_models(old(members)@).push((name@, value@)),
{
    let ghost before = member_models(members@);
    let member = Member { name: name.to_owned(), value };
    members.push(member);
    assert(member_models(members@) =~= before.push((name@, value@)));
}

fn put_text(members: &mut Vec<Member>, name: &str, text: &str)
    ensures
        member_models(final(members)@) == member_models(old(members)@).push(
            (name@, JsonModel::Text(text@)),
        ),
{
    put(members, name, Json::Text(text.to_owned()));
}

/// A named text, if there is one.
pub open spec fn opt_member(name: Seq<char>, text: Option<Seq<char>>) -> Seq<
    (Seq<char>, JsonModel),
> {
    match text {
        Some(s) => seq![(name, JsonModel::Text(s))],
        None => Seq::empty(),
    }
}

fn put_optional(members: &mut Vec<Member>, name: &str, text: &Option<String>)
    ensures
        member_models(final(members)@) == member_models(old(members)@) + opt_member(
            name@,
            opt_text(*text),
        ),
{
    match text {
        Some(s) => {
            put_text(members, name, s.as_str());
            assert(member_models(members@) =~= member_models(old(members)@) + opt_member(
                name@,
                opt_text(*text),
            ));
        },
        None => {
            assert(member_models(members@) =~= member_models(old(members)@) + opt_member(
                name@,
                opt_text(*text),
            ));
        },
    }
}

/// The files of a piece that can be read: the document, the score and the voices.
pub open spec fn piece_files(fs: DiskModel, stem: Seq<char>) -> Seq<(Seq<char>, JsonModel)> {
    opt_file(fs, "doc"@, piece_path(stem, "DOC"@)) + opt_file(
        fs,
        "score"@,
        piece_path(stem, "ZMS"@),
    ) + opt_file(fs, "voice"@, piece_path(stem, "ZPD"@))
}

/// A named path, if the file can be read.
pub open spec fn opt_file(fs: DiskModel, name: Seq<char>, path: Seq<char>) -> Seq<
    (Seq<char>, JsonModel),
> {
    if file_at(fs, path) is Ok {
        seq![(name, JsonModel::Text(path))]
    } else {
        Seq::empty()
    }
}

fn put_file<D: DiskImage>(members: &mut Vec<Member>, fs: &Filesystem<D>, name: &str, path: &str)
    requires
        fs.valid(),
    ensures
        member_models(final(members)@) == member_models(old(members)@) + opt_file(
            fs@,
            name@,
            path@,
        ),
{
    if read_file_at(fs, path).is_ok() {
        put_text(members, name, path);
    }
    assert(member_models(members@) =~= member_models(old(members)@) + opt_file(
        fs@,
        name@,
        path@,
    ));
}

/// Who sent a piece in: its own document goes before the table of contents.
pub open spec fn submitter_for(text: Seq<char>, hint: Option<HintModel>) -> Option<
    SubmitterModel,
> {
    match submitter_of(text) {
        Some(s) => Some(s),
        None => match hint {
            Some(h) => h.submitter,
            None => None,
        },
    }
}

/// What could not be found out about a piece.
pub open spec fn piece_doubts(header: HeaderModel, submitter: Option<SubmitterModel>) -> Seq<
    Seq<char>,
> {
    (if submitter is None {
        seq!["submitter not found"@]
    } else {
        Seq::empty()
    }) + (if header.title is None {
        seq!["title not found"@]
    } else {
        Seq::empty()
    })
}

/// A list of texts as a structured value.
pub open spec fn text_array(v: Seq<Seq<char>>) -> JsonModel {
    JsonModel::Array(Seq::new(v.len(), |i: int| JsonModel::Text(v[i])))
}

/// Who sent a piece in, as members of its payload.
pub open spec fn submitter_members(submitter: Option<SubmitterModel>) -> Seq<
    (Seq<char>, JsonModel),
> {
    match submitter {
        Some(s) => seq![
            ("submitter"@, JsonModel::Text(s.name)),
            ("submitter_pref"@, JsonModel::Text(s.pref)),
        ],
        None => Seq::empty(),
    }
}

/// A named value, if it is wanted.
pub open spec fn opt_value(name: Seq<char>, wanted: bool, value: JsonModel) -> Seq<
    (Seq<char>, JsonModel),
> {
    if wanted {
        seq![(name, value)]
    } else {
        Seq::empty()
    }
}

/// The payload of the record of a piece.
pub open spec fn piece_payload(
    kind: Seq<char>,
    number: u64,
    header: HeaderModel,
    submitter: Option<SubmitterModel>,
    files: Seq<(Seq<char>, JsonModel)>,
    jasrac: Option<Seq<char>>,
) -> Seq<(Seq<char>, JsonModel)> {
    let doubts = piece_doubts(header, submitter);
    seq![("issue_no"@, JsonModel::Unsigned(number)), ("issue_kind"@, JsonModel::Text(kind))]
        + opt_member("title"@, header.title) + opt_member(
        "original_artist"@,
        header.original_artist,
    ) + opt_member("composer"@, header.composer) + opt_member("arranger"@, header.arranger)
        + opt_member("engine"@, header.engine) + opt_member("duration"@, header.duration)
        + submitter_members(submitter) + opt_value(
        "files"@,
        files.len() > 0,
        JsonModel::Object(files),
    ) + opt_member("jasrac_note"@, jasrac) + opt_value(
        "_warnings"@,
        doubts.len() > 0,
        text_array(doubts),
    )
}

/// The record of a piece; none where its document cannot be read.
pub open spec fn piece_record(
    ctx: ContextModel,
    issue: (Seq<char>, u64, Seq<char>),
    hints: Seq<(Seq<char>, HintModel)>,
    stem: Seq<char>,
) -> Option<RecordModel> {
    let path = piece_path(stem, "DOC"@);
    match text_at_path(ctx.fs, path) {
        None => None,
        Some(text) => {
            let header = header_of(text);
            let hint = hint_for(hints, uppered(stem));
            Some(
                RecordModel {
                    unique_id: PLUGIN_NAME@ + ":"@ + short_id(ctx.image_id) + ":"@ + path,
                    category: "music"@,
                    source_path: path,
                    image_path: ctx.image_path,
                    image_id: ctx.image_id,
                    partition: ctx.partition,
                    issue_no: issue.1,
                    issue_kind: issue.0,
                    issue_role: issue.2,
                    location_facet: facet_of(issue.0, issue.1),
                    payload: JsonModel::Object(
                        piece_payload(
                            issue.0,
                            issue.1,
                            header,
                            submitter_for(text, hint),
                            piece_files(ctx.fs, stem),
                            match hint {
                                Some(h) => h.jasrac_note,
                                None => None,
                            },
                        ),
                    ),
                    schema_plugin: PLUGIN_NAME@,
                    schema_version: PLUGIN_VERSION,
                },
            )
        },
    }
}

/// The records of some pieces.
pub open spec fn piece_records(
    ctx: ContextModel,
    issue: (Seq<char>, u64, Seq<char>),
    hints: Seq<(Seq<char>, HintModel)>,
    stems: Seq<Seq<char>>,
) -> Seq<RecordModel>
    decreases stems.len(),
{
    if stems.len() == 0 {
        Seq::empty()
    } else {
        let before = piece_records(ctx, issue, hints, stems.drop_last());
        match piece_record(ctx, issue, hints, stems.last()) {
            Some(r) => before.push(r),
            None => before,
        }
    }
}

/// What the plugin takes out of a disk. Only side `A` has music.
pub open spec fn taken_from(ctx: ContextModel) -> ExtractModel {
    let (found, doubts) = issue_of(ctx);
    let warnings = if found is Some {
        doubts
    } else {
        doubts.push("Could not determine issue_no/kind"@)
    };
    let issue = match found {
        Some(t) => t,
        None => ("main"@, 0u64, Seq::empty()),
    };
    let stems = stems_on(ctx.fs);
    if lowered(issue.2) != lowered("A"@) {
        ExtractModel { records: Seq::empty(), warnings }
    } else if stems.len() == 0 {
        ExtractModel {
            records: Seq::empty(),
            warnings: warnings.push("No MUSIC/ directory or no .DOC files found"@),
        }
    } else {
        ExtractModel {
            records: piece_records(ctx, issue, hints_on(ctx.fs), stems),
            warnings,
        }
    }
}

fn doubts_array(header: &DocHeader, submitter: &Option<Submitter>) -> (r: Vec<Json>)
    ensures
        Json::Array(r)@ == text_array(piece_doubts(header@, opt_submitter(*submitter))),
        r@.len() == piece_doubts(header@, opt_submitter(*submitter)).len(),
{
    let ghost all = piece_doubts(header@, opt_submitter(*submitter));
    let mut out: Vec<Json> = Vec::new();
    if submitter.is_none() {
        out.push(Json::Text("submitter not found".to_owned()));
    }
    if header.title.is_none() {
        out.push(Json::Text("title not found".to_owned()));
    }
    proof {
        assert(out@.len() == all.len());
        assert forall|i: int| 0 <= i < all.len() implies (#[trigger] out@[i])@ == JsonModel::Text(
            all[i],
        ) by {}
        assert(json_model(Json::Array(out))->Array_0 =~= text_array(all)->Array_0);
    }
    out
}

fn put_submitter(members: &mut Vec<Member>, submitter: &Option<Submitter>)
    ensures
        member_models(final(members)@) == member_models(old(members)@) + submitter_members(
            opt_submitter(*submitter),
        ),
{
    if let Some(s) = submitter {
        put_text(members, "submitter", s.name.as_str());
        put_text(members, "submitter_pref", s.pref.as_str());
    }
    assert(member_models(members@) =~= member_models(old(members)@) + submitter_members(
        opt_submitter(*submitter),
    ));
}

fn put_if(members: &mut Vec<Member>, name: &str, wanted: bool, value: Json)
    ensures
        member_models(final(members)@) == member_models(old(members)@) + opt_value(
            name@,
            wanted,
            value@,
        ),
{
    let ghost added = opt_value(name@, wanted, value@);
    if wanted {
        put(members, name, value);
    }
    assert(member_models(members@) =~= member_models(old(members)@) + added);
}

fn payload_of(
    kind: &str,
    number: u64,
    header: &DocHeader,
    submitter: &Option<Submitter>,
    files: Vec<Member>,
    jasrac: &Option<String>,
) -> (r: Json)
    ensures
        r@ == JsonModel::Object(
            piece_payload(
                kind@,
                number,
                header@,
                opt_submitter(*submitter),
                member_models(files@),
                opt_text(*jasrac),
            ),
        ),
{
    let mut members: Vec<Member> = Vec::new();
    put(&mut members, "issue_no", Json::Unsigned(number));
    put_text(&mut members, "issue_kind", kind);
    assert(member_models(members@) =~= seq![
        ("issue_no"@, JsonModel::Unsigned(number)),
        ("issue_kind"@, JsonModel::Text(kind@)),
    ]);
    put_optional(&mut members, "title", &header.title);
    put_optional(&mut members, "original_artist", &header.original_artist);
    put_optional(&mut members, "composer", &header.composer);
    put_optional(&mut members, "arranger", &header.arranger);
    put_optional(&mut members, "engine", &header.engine);
    put_optional(&mut members, "duration", &header.duration);
    put_submitter(&mut members, submitter);
    proof {
        object_of_members(files);
    }
    put_if(&mut members, "files", files.len() > 0, Json::Object(files));
    put_optional(&mut members, "jasrac_note", jasrac);
    let doubts: Vec<Json> = doubts_array(header, submitter);
    put_if(&mut members, "_warnings", doubts.len() > 0, Json::Array(doubts));
    proof {
        object_of_members(members);
    }
    Json::Object(members)
}

/// Makes the record of a piece.
fn record_piece(
    ctx: &ExtractContext<'_>,
    kind: &str,
    number: u64,
    role: &str,
    hints: &MokujiHints,
    stem: &str,
) -> (r: Option<ExtractedRecord>)
    requires
        ctx.valid(),
    ensures
        match r {
            Some(record) => piece_record(ctx@, (kind@, number, role@), hints@, stem@) == Some(
                record@,
            ),
            None => piece_record(ctx@, (kind@, number, role@), hints@, stem@) is None,
        },
{
    let doc_path: String = piece_file(stem, "DOC");
    let text: String = match read_text_at(ctx.fs, doc_path.as_str()) {
        Some(t) => t,
        None => {
            return None;
        },
    };
    let mut doubts: Vec<String> = Vec::new();
    let header: DocHeader = parse_doc_header(text.as_str(), &mut doubts);
    let upper: String = to_upper(stem);
    let hint: Option<&MokujiHint> = hints.get(upper.as_str());
    let submitter: Option<Submitter> = match parse_submitter(text.as_str()) {
        Some(s) => Some(s),
        None => match hint {
            Some(h) => match &h.submitter {
                Some(s) => Some(s.clone()),
                None => None,
            },
            None => None,
        },
    };
    let jasrac: Option<String> = match hint {
        Some(h) => match &h.jasrac_note {
            Some(s) => Some(s.clone()),
            None => None,
        },
        None => None,
    };
    let mut files: Vec<Member> = Vec::new();
    let score: String = piece_file(stem, "ZMS");
    let voice: String = piece_file(stem, "ZPD");
    put_file(&mut files, ctx.fs, "doc", doc_path.as_str());
    put_file(&mut files, ctx.fs, "score", score.as_str());
    put_file(&mut files, ctx.fs, "voice", voice.as_str());
    assert(member_models(files@) =~= piece_files(ctx.fs@, stem@));
    let payload: Json = payload_of(kind, number, &header, &submitter, files, &jasrac);
    let mut unique_id: String = PLUGIN_NAME.to_owned();
    unique_id.append(":");
    let short: String = ctx.image_id_short();
    unique_id.append(short.as_str());
    unique_id.append(":");
    unique_id.append(doc_path.as_str());
    Some(
        ExtractedRecord {
            unique_id,
            category: "music".to_owned(),
            source_path: doc_path,
            image_path: ctx.image_path.to_owned(),
            image_id: ctx.image_id.to_owned(),
            partition: ctx.partition,
            issue_no: number,
            issue_kind: kind.to_owned(),
            issue_role: role.to_owned(),
            location_facet: facet_text(kind, number),
            payload,
            schema_plugin: PLUGIN_NAME.to_owned(),
            schema_version: PLUGIN_VERSION,
        },
    )
}

fn warn(warnings: &mut Vec<String>, text: &str)
    ensures
        texts(final(warnings)@) == texts(old(warnings)@).push(text@),
{
    let ghost before = texts(warnings@);
    let w: String = text.to_owned();
    warnings.push(w);
    assert(texts(warnings@) =~= before.push(w@));
}

/// Takes the records out of a disk of the magazine.
pub fn extract_dennou(ctx: &ExtractContext<'_>) -> (r: ExtractResult)
    requires
        ctx.valid(),
    ensures
        r@ == taken_from(ctx@),
{
    let mut warnings: Vec<String> = Vec::new();
    let mut records: Vec<ExtractedRecord> = Vec::new();
    assert(texts(warnings@) =~= Seq::empty());
    assert(record_models(records@) =~= Seq::empty());
    let found: Option<(String, u64, String)> = resolve_issue(ctx, &mut warnings);
    assert(texts(warnings@) =~= issue_of(ctx@).1);
    let (kind, number, role): (String, u64, String) = match found {
        Some(t) => t,
        None => {
            warn(&mut warnings, "Could not determine issue_no/kind");
            let side = String::new();
            assert(side@ =~= Seq::empty());
            ("main".to_owned(), 0, side)
        },
    };
    // The other sides hold sound data and extras.
    if !same_ignoring_case(role.as_str(), "A") {
        return ExtractResult { records, warnings };
    }
    let hints: MokujiHints = collect_mokuji_hints(ctx.fs);
    let stems: Vec<String> = collect_music_stems(ctx.fs);
    if stems.len() == 0 {
        assert(stems_on(ctx.fs@).len() == 0);
        warn(&mut warnings, "No MUSIC/ directory or no .DOC files found");
        return ExtractResult { records, warnings };
    }
    assert(stems_on(ctx.fs@).len() > 0);
    let ghost all = texts(stems@);
    let ghost issue = (kind@, number, role@);
    let mut i: usize = 0;
    assert(record_models(records@) =~= piece_records(ctx@, issue, hints@, all.take(0)));
    while i < stems.len()
        invariant
            ctx.valid(),
            i <= stems@.len(),
            all == texts(stems@),
            issue == (kind@, number, role@),
            record_models(records@) == piece_records(ctx@, issue, hints@, all.take(i as int)),
        decreases stems@.len() - i,
    {
        let ghost before = record_models(records@);
        assert(all.take(i + 1).drop_last() =~= all.take(i as int));
        assert(all.take(i + 1).last() == stems@[i as int]@);
        if let Some(record) = record_piece(
            ctx,
            kind.as_str(),
            number,
            role.as_str(),
            &hints,
            stems[i].as_str(),
        ) {
            records.push(record);
            assert(record_models(records@) =~= before.push(record@));
        }
        i = i + 1;
    }
    assert(all.take(i as int) =~= all);
    ExtractResult { records, warnings }
}

/// The plugin for Dennou Club.
pub struct DennouPlugin;

impl SchemaPlugin for DennouPlugin {
    open spec fn spec_name(&self) -> Seq<char> {
        PLUGIN_NAME@
    }

    open spec fn spec_version(&self) -> u64 {
        PLUGIN_VERSION
    }

    open spec fn detects(&self, ctx: ContextModel) -> bool {
        is_dennou(ctx)
    }

    open spec fn extracts(&self, ctx: ContextModel) -> Result<ExtractModel, FsError> {
        Ok(taken_from(ctx))
    }

    fn name(&self) -> (r: &'static str) {
        PLUGIN_NAME
    }

    fn version(&self) -> (r: u64) {
        PLUGIN_VERSION
    }

    fn detect(&self, ctx: &ExtractContext<'_>) -> (r: bool) {
        detect_dennou(ctx)
    }

    fn extract(&self, ctx: &ExtractContext<'_>) -> (r: Result<ExtractResult, FsError>) {
        Ok(extract_dennou(ctx))
    }
}

/// Only disks of side `A` give records.
pub proof fn only_side_a_gives_records(ctx: ContextModel)
    requires
        taken_from(ctx).records.len() > 0,
    ensures
        issue_of(ctx).0 matches Some(issue) && lowered(issue.2) == lowered("A"@),
{
    if issue_of(ctx).0 is None {
        reveal_strlit("A");
        assert(lowered(Seq::<char>::empty()).len() == 0);
        assert(lowered("A"@).len() == 1);
    }
}

proof fn stems_are_distinct(entries: Seq<DirEntryModel>)
    ensures
        stems_among(entries).no_duplicates(),
    decreases entries.len(),
{
    if entries.len() > 0 {
        stems_are_distinct(entries.drop_last());
        let before = stems_among(entries.drop_last());
        let name = uppered(entries.last().name);
        if !before.contains(name) {
            insertion_stays_distinct(before, name, text_order(TextOrder::Plain));
        }
    }
}

/// Whether a record is that of a piece with one of the given names.
spec fn comes_from(
    r: RecordModel,
    ctx: ContextModel,
    issue: (Seq<char>, u64, Seq<char>),
    hints: Seq<(Seq<char>, HintModel)>,
    stems: Seq<Seq<char>>,
) -> bool {
    exists|k: int|
        0 <= k < stems.len() && piece_record(ctx, issue, hints, #[trigger] stems[k]) == Some(r)
}

proof fn records_come_from_stems(
    ctx: ContextModel,
    issue: (Seq<char>, u64, Seq<char>),
    hints: Seq<(Seq<char>, HintModel)>,
    stems: Seq<Seq<char>>,
)
    requires
        stems.no_duplicates(),
    ensures
        ({
            let records = piece_records(ctx, issue, hints, stems);
            &&& forall|i: int|
                0 <= i < records.len() ==> comes_from(
                    #[trigger] records[i],
                    ctx,
                    issue,
                    hints,
                    stems,
                )
            &&& forall|i: int, j: int|
                0 <= i < j < records.len() ==> (#[trigger] records[i]).unique_id != (
                #[trigger] records[j]).unique_id
        }),
    decreases stems.len(),
{
    if stems.len() > 0 {
        let fewer = stems.drop_last();
        records_come_from_stems(ctx, issue, hints, fewer);
        let before = piece_records(ctx, issue, hints, fewer);
        let now = piece_records(ctx, issue, hints, stems);
        assert forall|i: int| 0 <= i < now.len() implies comes_from(
            #[trigger] now[i],
            ctx,
            issue,
            hints,
            stems,
        ) by {
            if i < before.len() {
                assert(now[i] == before[i]);
                assert(comes_from(before[i], ctx, issue, hints, fewer));
                let k = choose|k: int|
                    0 <= k < fewer.len() && piece_record(ctx, issue, hints, #[trigger] fewer[k])
                        == Some(before[i]);
                assert(stems[k] == fewer[k]);
            } else {
                assert(stems[stems.len() - 1] == stems.last());
            }
        }
        assert forall|i: int, j: int| 0 <= i < j < now.len() implies (
        #[trigger] now[i]).unique_id != (#[trigger] now[j]).unique_id by {
            if j < before.len() {
                assert(now[i] == before[i] && now[j] == before[j]);
            } else {
                assert(now[i] == before[i]);
                assert(comes_from(before[i], ctx, issue, hints, fewer));
                let k = choose|k: int|
                    0 <= k < fewer.len() && piece_record(ctx, issue, hints, #[trigger] fewer[k])
                        == Some(before[i]);
                assert(stems[k] == fewer[k]);
                ids_differ(ctx, stems[k], stems.last());
            }
        }
    }
}

proof fn ids_differ(ctx: ContextModel, a: Seq<char>, b: Seq<char>)
    requires
        a != b,
    ensures
        ({
            let head = PLUGIN_NAME@ + ":"@ + short_id(ctx.image_id) + ":"@;
            head + piece_path(a, "DOC"@) != head + piece_path(b, "DOC"@)
        }),
{
    let head = PLUGIN_NAME@ + ":"@ + short_id(ctx.image_id) + ":"@;
    let x = head + piece_path(a, "DOC"@);
    let y = head + piece_path(b, "DOC"@);
    if x == y {
        let from = (head.len() + "MUSIC/"@.len()) as int;
        let tail = ("."@.len() + "DOC"@.len()) as int;
        assert(x.subrange(from, x.len() - tail) =~= a);
        assert(y.subrange(from, y.len() - tail) =~= b);
    }
}

/// The records of a disk have different names, belong to the disk, and tell which
/// version of the plugin has read it, so that it is not read by it again.
pub proof fn records_are_told_apart(ctx: ContextModel)
    ensures
        forall|i: int, j: int|
            0 <= i < j < taken_from(ctx).records.len() ==> (#[trigger] taken_from(
                ctx,
            ).records[i]).unique_id != (#[trigger] taken_from(ctx).records[j]).unique_id,
        forall|i: int|
            #![trigger taken_from(ctx).records[i]]
            0 <= i < taken_from(ctx).records.len() ==> document_key(
                record_document(taken_from(ctx).records[i]),
            ) == Some(
                KeyModel {
                    plugin: PLUGIN_NAME@,
                    version: PLUGIN_VERSION,
                    image_id: ctx.image_id,
                },
            ),
{
    if taken_from(ctx).records.len() > 0 {
        only_side_a_gives_records(ctx);
        let issue = issue_of(ctx).0->0;
        let stems = stems_on(ctx.fs);
        let hints = hints_on(ctx.fs);
        if let Ok(entries) = ctx.fs.listed(components("MUSIC"@)) {
            stems_are_distinct(entries);
        }
        records_come_from_stems(ctx, issue, hints, stems);
        let records = taken_from(ctx).records;
        assert(records == piece_records(ctx, issue, hints, stems));
        assert forall|i: int| #![trigger records[i]] 0 <= i < records.len() implies document_key(
            record_document(records[i]),
        ) == Some(
            KeyModel { plugin: PLUGIN_NAME@, version: PLUGIN_VERSION, image_id: ctx.image_id },
        ) by {
            assert(comes_from(records[i], ctx, issue, hints, stems));
            reveal_strlit("dennou");
            records_tell_their_plugin(records[i]);
        }
    }
}

} // verus!
