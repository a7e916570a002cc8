//! Tables made from records.
//!
//! The index narrows the records down by its fields; what stands in the payload is
//! filtered and sorted here, so that a table is the same however the index hands
//! the records out.

use crate::document::{document_models, first_value, ArchiveDocument, FieldModel, FieldValue};
use crate::extract::{first_value_at, kept_json, record_document, RecordModel};
use crate::json::{Json, JsonModel};
use crate::schema::Field;
use crate::sort::{in_order, is_order, models, order_of, sort, sorted_by, sorting_keeps_all,
    sorting_puts_in_order, Sortable};
use crate::text::{comes_first, contains_text, decimal, has_part, number_text, same_text, text_le,
    text_order_is_total, text_order_is_transitive, texts, to_chars};
use vstd::prelude::*;
use vstd::string::StringExecFns;

verus! {

/// The tables that there are.
#[derive(Clone, Copy, Debug, PartialEq, Eq, Structural)]
pub enum MetadataView {
    /// The music of Dennou Club and its special issues.
    DennouTracks,
}

/// A name that stands for nothing.
#[derive(Clone, Copy, Debug, PartialEq, Eq, Structural)]
pub struct UnknownName;

/// The columns of the table of music.
pub const DENNOU_COLUMNS: [&'static str; 12] = [
    "issue_no",
    "issue_kind",
    "title",
    "original_artist",
    "composer",
    "arranger",
    "submitter",
    "submitter_pref",
    "engine",
    "duration",
    "image_path",
    "source_path",
];

impl MetadataView {
    /// The table with a name.
    pub fn from_str(s: &str) -> (r: Result<Self, UnknownName>)
        ensures
            r == (if s@ == "dennou_tracks"@ {
                Ok::<MetadataView, UnknownName>(MetadataView::DennouTracks)
            } else {
                Err(UnknownName)
            }),
    {
        if same_text(s, "dennou_tracks") {
            Ok(MetadataView::DennouTracks)
        } else {
            Err(UnknownName)
        }
    }

    /// The name of the table.
    pub fn as_str(&self) -> (r: &'static str)
        ensures
            r@ == "dennou_tracks"@,
    {
        match self {
            MetadataView::DennouTracks => "dennou_tracks",
        }
    }

    /// The category of the records in the table.
    pub fn category(&self) -> (r: &'static str)
        ensures
            r@ == "music"@,
    {
        match self {
            MetadataView::DennouTracks => "music",
        }
    }

    /// The columns of the table, in order.
    pub fn columns(&self) -> (r: &'static [&'static str])
        ensures
            r@ == DENNOU_COLUMNS@,
    {
        match self {
            MetadataView::DennouTracks => &DENNOU_COLUMNS,
        }
    }
}

/// What the records in a table have to meet; what is left out is not asked for.
#[derive(Debug)]
pub struct MetadataFilters {
    pub issue_no_min: Option<u64>,
    pub issue_no_max: Option<u64>,
    /// `main`, `extra` or `all`.
    pub issue_kind: Option<String>,
    pub submitter_contains: Option<String>,
    pub title_contains: Option<String>,
    pub engine_contains: Option<String>,
}

impl Default for MetadataFilters {
    fn default() -> (r: Self)
        ensures
            r.issue_no_min is None,
            r.issue_no_max is None,
            r.issue_kind is None,
            r.submitter_contains is None,
            r.title_contains is None,
            r.engine_contains is None,
    {
        MetadataFilters {
            issue_no_min: None,
            issue_no_max: None,
            issue_kind: None,
            submitter_contains: None,
            title_contains: None,
            engine_contains: None,
        }
    }
}

/// The orders of rows.
#[derive(Clone, Copy, Debug, PartialEq, Eq, Structural)]
pub enum OrderBy {
    IssueAsc,
    IssueDesc,
    TitleAsc,
}

impl Default for OrderBy {
    fn default() -> (r: Self)
        ensures
            r == OrderBy::IssueAsc,
    {
        OrderBy::IssueAsc
    }
}

/// The order with a name.
pub open spec fn order_named(s: Seq<char>) -> Option<OrderBy> {
    if s == "issue_asc"@ {
        Some(OrderBy::IssueAsc)
    } else if s == "issue_desc"@ {
        Some(OrderBy::IssueDesc)
    } else if s == "title_asc"@ {
        Some(OrderBy::TitleAsc)
    } else {
        None
    }
}

/// The order with a name.
pub fn parse_order_by(s: &str) -> (r: Result<OrderBy, UnknownName>)
    ensures
        match r {
            Ok(o) => order_named(s@) == Some(o),
            Err(_) => order_named(s@) is None,
        },
{
    if same_text(s, "issue_asc") {
        Ok(OrderBy::IssueAsc)
    } else if same_text(s, "issue_desc") {
        Ok(OrderBy::IssueDesc)
    } else if same_text(s, "title_asc") {
        Ok(OrderBy::TitleAsc)
    } else {
        Err(UnknownName)
    }
}

/// Which table is wanted.
#[derive(Debug)]
pub struct QueryOpts {
    pub view: MetadataView,
    pub filters: MetadataFilters,
    pub order_by: OrderBy,
    /// The largest number of rows, at least one.
    pub limit: usize,
}

impl Default for QueryOpts {
    fn default() -> (r: Self)
        ensures
            r.view == MetadataView::DennouTracks,
            r.filters.issue_no_min is None,
            r.filters.issue_no_max is None,
            r.filters.issue_kind is None,
            r.filters.submitter_contains is None,
            r.filters.title_contains is None,
            r.filters.engine_contains is None,
            r.order_by == OrderBy::IssueAsc,
            r.limit == 1000,
    {
        QueryOpts {
            view: MetadataView::DennouTracks,
            filters: MetadataFilters::default(),
            order_by: OrderBy::IssueAsc,
            limit: 1000,
        }
    }
}

/// A table.
#[derive(Debug)]
pub struct QueryResult {
    /// The cells of each row, in the order of the columns.
    pub rows: Vec<Vec<String>>,
    pub columns: Vec<String>,
    pub row_count: usize,
    /// Whether there may be more rows.
    pub truncated: bool,
}

/// The cells of rows as mathematical values.
pub open spec fn row_texts(v: Seq<Vec<String>>) -> Seq<Seq<Seq<char>>> {
    Seq::new(v.len(), |i: int| texts(v[i]@))
}

/// Whether a field needs quotes in a comma-separated line.
pub open spec fn needs_quotes(s: Seq<char>) -> bool {
    s.contains(',') || s.contains('"') || s.contains('\n') || s.contains('\r')
}

/// A text with each quote doubled.
pub open spec fn doubled(s: Seq<char>) -> Seq<char>
    decreases s.len(),
{
    if s.len() == 0 {
        s
    } else if s.last() == '"' {
        doubled(s.drop_last()).push('"').push('"')
    } else {
        doubled(s.drop_last()).push(s.last())
    }
}

/// A field in a comma-separated line.
pub open spec fn quoted(s: Seq<char>) -> Seq<char> {
    if needs_quotes(s) {
        seq!['"'] + doubled(s) + seq!['"']
    } else {
        s
    }
}

/// A comma-separated line.
pub open spec fn csv_line(fields: Seq<Seq<char>>) -> Seq<char>
    decreases fields.len(),
{
    if fields.len() == 0 {
        Seq::empty()
    } else if fields.len() == 1 {
        quoted(fields[0])
    } else {
        csv_line(fields.drop_last()) + seq![','] + quoted(fields.last())
    }
}

/// The lines of rows, each with a line feed.
pub open spec fn csv_lines(rows: Seq<Seq<Seq<char>>>) -> Seq<char>
    decreases rows.len(),
{
    if rows.len() == 0 {
        Seq::empty()
    } else {
        csv_lines(rows.drop_last()) + csv_line(rows.last()) + seq!['\n']
    }
}

/// A table as comma-separated lines, with a byte order mark for the benefit of
/// spreadsheets.
pub open spec fn csv_text(columns: Seq<Seq<char>>, rows: Seq<Seq<Seq<char>>>) -> Seq<char> {
    seq!['\u{FEFF}'] + csv_line(columns) + seq!['\n'] + csv_lines(rows)
}

/// A field in a comma-separated line.
pub fn csv_quote(s: &str) -> (r: String)
    ensures
        r@ == quoted(s@),
{
    let chars: Vec<char> = to_chars(s);
    let mut special: bool = false;
    let mut inner = String::new();
    let mut i: usize = 0;
    assert(chars@.take(0) =~= Seq::empty());
    assert(inner@ =~= doubled(chars@.take(0)));
    while i < chars.len()
        invariant
            i <= chars@.len(),
            inner@ == doubled(chars@.take(i as int)),
            special == needs_quotes(chars@.take(i as int)),
        decreases chars@.len() - i,
    {
        let c: char = chars[i];
        let ghost before = chars@.take(i as int);
        let ghost now = chars@.take(i + 1);
        proof {
            assert(now.drop_last() =~= before);
            assert(now.last() == c);
            assert(now =~= before.push(c));
            push_contains(before, c, ',');
            push_contains(before, c, '"');
            push_contains(before, c, '\n');
            push_contains(before, c, '\r');
        }
        if c == ',' || c == '"' || c == '\n' || c == '\r' {
            special = true;
        }
        if c == '"' {
            inner.push('"');
        }
        inner.push(c);
        i = i + 1;
    }
    assert(chars@.take(i as int) =~= chars@);
    if special {
        let mut out = String::new();
        out.push('"');
        out.append(inner.as_str());
        out.push('"');
        assert(out@ =~= quoted(s@));
        out
    } else {
        s.to_owned()
    }
}

proof fn push_contains(s: Seq<char>, x: char, c: char)
    ensures
        s.push(x).contains(c) <==> s.contains(c) || x == c,
{
    if s.contains(c) {
        let k = choose|k: int| 0 <= k < s.len() && s[k] == c;
        assert(s.push(x)[k] == c);
    }
    if x == c {
        assert(s.push(x)[s.len() as int] == c);
    }
}

/// A comma-separated line.
pub fn csv_join(fields: &Vec<String>) -> (r: String)
    ensures
        r@ == csv_line(texts(fields@)),
{
    let ghost all = texts(fields@);
    let mut out = String::new();
    let mut i: usize = 0;
    assert(out@ =~= csv_line(all.take(0)));
    while i < fields.len()
        invariant
            i <= fields@.len(),
            all == texts(fields@),
            out@ == csv_line(all.take(i as int)),
        decreases fields@.len() - i,
    {
        assert(all.take(i + 1).drop_last() =~= all.take(i as int));
        assert(all.take(i + 1).last() == fields@[i as int]@);
        if i > 0 {
            out.push(',');
        }
        let cell: String = csv_quote(fields[i].as_str());
        out.append(cell.as_str());
        assert(out@ =~= csv_line(all.take(i + 1)));
        i = i + 1;
    }
    assert(all.take(i as int) =~= all);
    out
}

/// A table as comma-separated lines in UTF-8 with a byte order mark.
pub fn rows_to_csv(result: &QueryResult) -> (r: String)
    ensures
        r@ == csv_text(texts(result.columns@), row_texts(result.rows@)),
{
    let ghost all = row_texts(result.rows@);
    let mut out = String::new();
    out.push('\u{FEFF}');
    let head: String = csv_join(&result.columns);
    out.append(head.as_str());
    out.push('\n');
    let ghost lead = seq!['\u{FEFF}'] + csv_line(texts(result.columns@)) + seq!['\n'];
    assert(out@ =~= lead);
    let mut i: usize = 0;
    assert(out@ =~= lead + csv_lines(all.take(0)));
    while i < result.rows.len()
        invariant
            i <= result.rows@.len(),
            all == row_texts(result.rows@),
            out@ == lead + csv_lines(all.take(i as int)),
        decreases result.rows@.len() - i,
    {
        assert(all.take(i + 1).drop_last() =~= all.take(i as int));
        assert(all.take(i + 1).last() == texts(result.rows@[i as int]@));
        let line: String = csv_join(&result.rows[i]);
        out.append(line.as_str());
        out.push('\n');
        assert(out@ =~= lead + csv_lines(all.take(i + 1)));
        i = i + 1;
    }
    assert(all.take(i as int) =~= all);
    out
}

/// A text with each pair of quotes made one.
pub open spec fn undoubled(s: Seq<char>) -> Seq<char>
    decreases s.len(),
{
    if s.len() == 0 {
        s
    } else if s.len() >= 2 && s.last() == '"' && s[s.len() - 2] == '"' {
        undoubled(s.drop_last().drop_last()).push('"')
    } else {
        undoubled(s.drop_last()).push(s.last())
    }
}

/// What a field of a comma-separated line stands for.
pub open spec fn unquoted(s: Seq<char>) -> Seq<char> {
    if s.len() >= 2 && s[0] == '"' {
        undoubled(s.subrange(1, s.len() - 1))
    } else {
        s
    }
}

proof fn undoubling_undoes(s: Seq<char>)
    ensures
        undoubled(doubled(s)) == s,
        s.len() > 0 && s.last() != '"' ==> doubled(s).last() == s.last(),
    decreases s.len(),
{
    if s.len() > 0 {
        undoubling_undoes(s.drop_last());
        let d = doubled(s);
        let before = doubled(s.drop_last());
        if s.last() == '"' {
            assert(d.drop_last().drop_last() =~= before);
        } else {
            assert(d.drop_last() =~= before);
        }
        assert(undoubled(d) =~= s.drop_last().push(s.last()));
        assert(s.drop_last().push(s.last()) =~= s);
    } else {
        assert(undoubled(doubled(s)) =~= s);
    }
}

/// A field can be read back from its form in a comma-separated line.
pub proof fn quoting_is_reversible(s: Seq<char>)
    ensures
        unquoted(quoted(s)) == s,
{
    undoubling_undoes(s);
    if needs_quotes(s) {
        let q = quoted(s);
        assert(q.subrange(1, q.len() - 1) =~= doubled(s));
    } else if s.len() >= 2 && s[0] == '"' {
        assert(s.contains(s[0]));
    }
}

/// A field that is not in quotes holds nothing that could end it.
pub proof fn bare_fields_are_plain(s: Seq<char>)
    ensures
        quoted(s) != s || !needs_quotes(s),
        !needs_quotes(s) ==> quoted(s) == s,
{
    if needs_quotes(s) {
        doubling_keeps_length(s);
        assert(quoted(s).len() == doubled(s).len() + 2);
    }
}

proof fn doubling_keeps_length(s: Seq<char>)
    ensures
        doubled(s).len() >= s.len(),
    decreases s.len(),
{
    if s.len() > 0 {
        doubling_keeps_length(s.drop_last());
    }
}

/// A condition that the index checks.
#[derive(Debug)]
pub enum QueryClause {
    /// A field has this text.
    Term(Field, String),
    /// A field has a number from the first to the second.
    Range(Field, u64, u64),
}

/// A condition as a mathematical value.
pub enum ClauseModel {
    Term(Field, Seq<char>),
    Range(Field, u64, u64),
}

impl View for QueryClause {
    type V = ClauseModel;

    open spec fn view(&self) -> ClauseModel {
        match *self {
            QueryClause::Term(f, s) => ClauseModel::Term(f, s@),
            QueryClause::Range(f, a, b) => ClauseModel::Range(f, a, b),
        }
    }
}

/// Conditions as mathematical values.
pub open spec fn clause_models(v: Seq<QueryClause>) -> Seq<ClauseModel> {
    Seq::new(v.len(), |i: int| v[i]@)
}

/// A number, or another in place of none.
pub open spec fn number_or(o: Option<u64>, other: u64) -> u64 {
    match o {
        Some(n) => n,
        None => other,
    }
}

/// The kind of issue that is asked for; `all` asks for none.
pub open spec fn kind_asked(f: MetadataFilters) -> Option<Seq<char>> {
    match f.issue_kind {
        Some(k) => if k@ != "all"@ && k@.len() > 0 {
            Some(k@)
        } else {
            None
        },
        None => None,
    }
}

/// The conditions that the index checks: the category, and where they are asked
/// for, the range of issues and their kind.
pub open spec fn clauses_of(view: MetadataView, f: MetadataFilters) -> Seq<ClauseModel> {
    let first = seq![ClauseModel::Term(Field::Category, "music"@)];
    let range = if f.issue_no_min is Some || f.issue_no_max is Some {
        seq![
            ClauseModel::Range(
                Field::IssueNo,
                number_or(f.issue_no_min, 0),
                number_or(f.issue_no_max, u64::MAX),
            ),
        ]
    } else {
        Seq::empty()
    };
    let kind = match kind_asked(f) {
        Some(k) => seq![ClauseModel::Term(Field::IssueKind, k)],
        None => Seq::empty(),
    };
    first + range + kind
}

/// Makes the conditions that the index checks. A document has to meet them all.
pub fn build_tantivy_query(opts: &QueryOpts) -> (r: Vec<QueryClause>)
    ensures
        clause_models(r@) == clauses_of(opts.view, opts.filters),
        r@.len() >= 1,
{
    let mut clauses: Vec<QueryClause> = Vec::new();
    clauses.push(QueryClause::Term(Field::Category, opts.view.category().to_owned()));
    if opts.filters.issue_no_min.is_some() || opts.filters.issue_no_max.is_some() {
        let min: u64 = match opts.filters.issue_no_min {
            Some(n) => n,
            None => 0,
        };
        let max: u64 = match opts.filters.issue_no_max {
            Some(n) => n,
            None => u64::MAX,
        };
        clauses.push(QueryClause::Range(Field::IssueNo, min, max));
    }
    if let Some(k) = &opts.filters.issue_kind {
        if !same_text(k.as_str(), "all") && !k.as_str().is_empty() {
            clauses.push(QueryClause::Term(Field::IssueKind, k.clone()));
        }
    }
    assert(clause_models(clauses@) =~= clauses_of(opts.view, opts.filters));
    clauses
}

/// Whether a value is a number within a range.
pub open spec fn within(value: Option<FieldModel>, from: u64, to: u64) -> bool {
    match value {
        Some(FieldModel::U64(n)) => from <= n <= to,
        _ => false,
    }
}

/// Whether a document meets a condition.
pub open spec fn meets(doc: Seq<(Field, FieldModel)>, clause: ClauseModel) -> bool {
    match clause {
        ClauseModel::Term(field, text) => first_value(doc, field) == Some(FieldModel::Text(text)),
        ClauseModel::Range(field, from, to) => within(first_value(doc, field), from, to),
    }
}

/// Whether a document meets some conditions.
pub open spec fn meets_all(doc: Seq<(Field, FieldModel)>, clauses: Seq<ClauseModel>) -> bool {
    forall|i: int| 0 <= i < clauses.len() ==> meets(doc, #[trigger] clauses[i])
}

/// The conditions let exactly those documents through that are of the category,
/// within the range of issues if there is one, and of the kind if there is one.
pub proof fn conditions_mean_the_filters(
    doc: Seq<(Field, FieldModel)>,
    view: MetadataView,
    f: MetadataFilters,
)
    ensures
        meets_all(doc, clauses_of(view, f)) <==> {
            &&& first_value(doc, Field::Category) == Some(FieldModel::Text("music"@))
            &&& f.issue_no_min is Some || f.issue_no_max is Some ==> within(
                first_value(doc, Field::IssueNo),
                number_or(f.issue_no_min, 0),
                number_or(f.issue_no_max, u64::MAX),
            )
            &&& kind_asked(f) is Some ==> first_value(doc, Field::IssueKind) == Some(
                FieldModel::Text(kind_asked(f)->0),
            )
        },
{
    let c = clauses_of(view, f);
    let ranged = f.issue_no_min is Some || f.issue_no_max is Some;
    let kinded = kind_asked(f) is Some;
    assert(c[0] == ClauseModel::Term(Field::Category, "music"@));
    if ranged {
        assert(c[1] == ClauseModel::Range(
            Field::IssueNo,
            number_or(f.issue_no_min, 0),
            number_or(f.issue_no_max, u64::MAX),
        ));
    }
    if kinded {
        assert(c[c.len() - 1] == ClauseModel::Term(Field::IssueKind, kind_asked(f)->0));
    }
    assert(c.len() == 1 + (if ranged {
        1int
    } else {
        0int
    }) + (if kinded {
        1int
    } else {
        0int
    }));
}

/// Texts by name.
#[derive(Debug)]
pub struct TextMap {
    entries: Vec<(String, String)>,
}

spec fn map_of(entries: Seq<(String, String)>) -> Map<Seq<char>, Seq<char>>
    decreases entries.len(),
{
    if entries.len() == 0 {
        Map::empty()
    } else {
        map_of(entries.drop_last()).insert(entries.last().0@, entries.last().1@)
    }
}

impl View for TextMap {
    type V = Map<Seq<char>, Seq<char>>;

    closed spec fn view(&self) -> Map<Seq<char>, Seq<char>> {
        map_of(self.entries@)
    }
}

impl Default for TextMap {
    fn default() -> (r: Self)
        ensures
            r@ == Map::<Seq<char>, Seq<char>>::empty(),
    {
        TextMap { entries: Vec::new() }
    }
}

impl TextMap {
    /// No texts at all.
    pub fn new() -> (r: Self)
        ensures
            r@ == Map::<Seq<char>, Seq<char>>::empty(),
    {
        TextMap { entries: Vec::new() }
    }

    /// Puts a text under a name; one that was there before is gone.
    pub fn insert(&mut self, name: String, text: String)
        ensures
            final(self)@ == old(self)@.insert(name@, text@),
    {
        self.entries.push((name, text));
        assert(self.entries@.drop_last() =~= old(self).entries@);
    }

    /// The text under a name.
    pub fn get(&self, name: &str) -> (r: Option<&String>)
        ensures
            match r {
                Some(s) => self@.dom().contains(name@) && self@[name@] == s@,
                None => !self@.dom().contains(name@),
            },
    {
        let mut n: usize = self.entries.len();
        assert(self.entries@.take(n as int) =~= self.entries@);
        while n > 0
            invariant
                n <= self.entries@.len(),
                ({
                    let m = map_of(self.entries@.take(n as int));
                    &&& self@.dom().contains(name@) == m.dom().contains(name@)
                    &&& m.dom().contains(name@) ==> self@[name@] == m[name@]
                }),
            decreases n,
        {
            let ghost head = self.entries@.take(n as int);
            assert(head.drop_last() =~= self.entries@.take(n - 1));
            assert(head.last() == self.entries@[n - 1]);
            if same_text(self.entries[n - 1].0.as_str(), name) {
                return Some(&self.entries[n - 1].1);
            }
            n = n - 1;
        }
        None
    }
}

/// The text under a name, or the empty one.
pub open spec fn text_under(m: Map<Seq<char>, Seq<char>>, name: Seq<char>) -> Seq<char> {
    if m.dom().contains(name) {
        m[name]
    } else {
        Seq::empty()
    }
}

fn text_or_empty(m: &TextMap, name: &str) -> (r: String)
    ensures
        r@ == text_under(m@, name@),
{
    match m.get(name) {
        Some(s) => s.clone(),
        None => {
            let r = String::new();
            assert(r@ =~= Seq::empty());
            r
        },
    }
}

/// A signed number in decimal digits.
pub open spec fn signed_decimal(n: int) -> Seq<char> {
    if n < 0 {
        seq!['-'] + decimal((-n) as nat)
    } else {
        decimal(n as nat)
    }
}

/// A signed number in decimal digits.
pub fn signed_text(n: i64) -> (r: String)
    ensures
        r@ == signed_decimal(n as int),
{
    if n < 0 {
        let size: u64 = (-(n + 1)) as u64 + 1;
        let digits: String = number_text(size);
        let mut out = String::new();
        out.push('-');
        out.append(digits.as_str());
        assert(out@ =~= signed_decimal(n as int));
        out
    } else {
        number_text(n as u64)
    }
}

/// The name of a value inside another.
pub open spec fn inner_name(prefix: Seq<char>, name: Seq<char>) -> Seq<char> {
    if prefix.len() == 0 {
        name
    } else {
        prefix + seq!['.'] + name
    }
}

/// A structured value spread out: each value inside goes by its path, with dots.
/// Of an array only the first element is taken.
pub open spec fn flattened(
    prefix: Seq<char>,
    v: JsonModel,
    m: Map<Seq<char>, Seq<char>>,
) -> Map<Seq<char>, Seq<char>>
    decreases v, 0nat,
{
    match v {
        JsonModel::Null => m,
        JsonModel::Bool(b) => m.insert(
            prefix,
            if b {
                "true"@
            } else {
                "false"@
            },
        ),
        JsonModel::Signed(n) => m.insert(prefix, signed_decimal(n as int)),
        JsonModel::Unsigned(n) => m.insert(prefix, decimal(n as nat)),
        JsonModel::Decimal(s) => m.insert(prefix, s),
        JsonModel::Text(s) => m.insert(prefix, s),
        JsonModel::Array(items) => if items.len() == 0 {
            m
        } else {
            flattened(prefix + ".0"@, items[0], m)
        },
        JsonModel::Object(members) => flattened_members(prefix, members, members.len(), m),
    }
}

/// The first `n` members of an object spread out.
pub open spec fn flattened_members(
    prefix: Seq<char>,
    members: Seq<(Seq<char>, JsonModel)>,
    n: nat,
    m: Map<Seq<char>, Seq<char>>,
) -> Map<Seq<char>, Seq<char>>
    decreases members, n,
{
    if n == 0 || n > members.len() {
        m
    } else {
        flattened(
            inner_name(prefix, members[n - 1].0),
            members[n - 1].1,
            flattened_members(prefix, members, (n - 1) as nat, m),
        )
    }
}

/// Spreads a structured value out.
pub fn flatten_owned_value(prefix: &str, v: &Json, out: &mut TextMap)
    ensures
        final(out)@ == flattened(prefix@, v@, old(out)@),
    decreases v,
{
    match v {
        Json::Null => {},
        Json::Bool(b) => {
            let text: String = if *b {
                "true".to_owned()
            } else {
                "false".to_owned()
            };
            out.insert(prefix.to_owned(), text);
        },
        Json::Signed(n) => {
            out.insert(prefix.to_owned(), signed_text(*n));
        },
        Json::Unsigned(n) => {
            out.insert(prefix.to_owned(), number_text(*n));
        },
        Json::Decimal(s) => {
            out.insert(prefix.to_owned(), s.clone());
        },
        Json::Text(s) => {
            out.insert(prefix.to_owned(), s.clone());
        },
        Json::Array(items) => {
            if items.len() > 0 {
                let mut name: String = prefix.to_owned();
                name.append(".0");
                assert(decreases_to!(*v => v->Array_0));
                assert(decreases_to!(*items => items[0]));
                assert(v@->Array_0[0] == items@[0]@);
                flatten_owned_value(name.as_str(), &items[0], out);
            }
        },
        Json::Object(members) => {
            let ghost all = v@->Object_0;
            let ghost start = out@;
            let mut i: usize = 0;
            while i < members.len()
                invariant
                    i <= members@.len(),
                    *v == Json::Object(*members),
                    all == v@->Object_0,
                    all.len() == members@.len(),
                    out@ == flattened_members(prefix@, all, i as nat, start),
                decreases members@.len() - i,
            {
                assert(decreases_to!(*v => v->Object_0));
                assert(decreases_to!(*members => members[i as int]));
                assert(all[i as int] == (members@[i as int].name@, members@[i as int].value@));
                let name: String = if prefix.is_empty() {
                    members[i].name.clone()
                } else {
                    let mut n: String = prefix.to_owned();
                    n.push('.');
                    n.append(members[i].name.as_str());
                    n
                };
                assert(name@ =~= inner_name(prefix@, members@[i as int].name@));
                flatten_owned_value(name.as_str(), &members[i].value, out);
                i = i + 1;
            }
        },
    }
}

/// A record as a row is made from it.
#[derive(Debug)]
pub struct RowExtracted {
    pub image_path: String,
    pub source_path: String,
    pub issue_no: u64,
    pub issue_kind: String,
    /// The payload, spread out.
    pub payload: TextMap,
}

/// A record as a row is made from it, as a mathematical value.
pub struct RowModel {
    pub image_path: Seq<char>,
    pub source_path: Seq<char>,
    pub issue_no: u64,
    pub issue_kind: Seq<char>,
    pub payload: Map<Seq<char>, Seq<char>>,
}

impl View for RowExtracted {
    type V = RowModel;

    open spec fn view(&self) -> RowModel {
        RowModel {
            image_path: self.image_path@,
            source_path: self.source_path@,
            issue_no: self.issue_no,
            issue_kind: self.issue_kind@,
            payload: self.payload@,
        }
    }
}

impl Default for RowExtracted {
    fn default() -> (r: Self)
        ensures
            r@ == (RowModel {
                image_path: Seq::empty(),
                source_path: Seq::empty(),
                issue_no: 0,
                issue_kind: Seq::empty(),
                payload: Map::empty(),
            }),
    {
        let r = RowExtracted {
            image_path: String::new(),
            source_path: String::new(),
            issue_no: 0,
            issue_kind: String::new(),
            payload: TextMap::new(),
        };
        assert(r@.image_path =~= Seq::empty());
        assert(r@.source_path =~= Seq::empty());
        assert(r@.issue_kind =~= Seq::empty());
        r
    }
}

/// The text in a field of a document, or the empty one.
pub open spec fn field_text(doc: Seq<(Field, FieldModel)>, field: Field) -> Seq<char> {
    match first_value(doc, field) {
        Some(FieldModel::Text(s)) => s,
        _ => Seq::empty(),
    }
}

/// The unsigned number in a field of a document, or zero.
pub open spec fn field_u64(doc: Seq<(Field, FieldModel)>, field: Field) -> u64 {
    match first_value(doc, field) {
        Some(FieldModel::U64(n)) => n,
        _ => 0,
    }
}

/// The signed number in a field of a document, or zero.
pub open spec fn field_i64(doc: Seq<(Field, FieldModel)>, field: Field) -> i64 {
    match first_value(doc, field) {
        Some(FieldModel::I64(n)) => n,
        _ => 0,
    }
}

/// The text in a field of a document, or the empty one.
pub fn text_of_field(doc: &ArchiveDocument, field: Field) -> (r: String)
    ensures
        r@ == field_text(doc@, field),
{
    match doc.get_first(field) {
        Some(FieldValue::Text(s)) => s.clone(),
        _ => {
            let r = String::new();
            assert(r@ =~= Seq::empty());
            r
        },
    }
}

/// The unsigned number in a field of a document, or zero.
pub fn u64_of_field(doc: &ArchiveDocument, field: Field) -> (r: u64)
    ensures
        r == field_u64(doc@, field),
{
    match doc.get_first(field) {
        Some(FieldValue::U64(n)) => *n,
        _ => 0,
    }
}

/// The signed number in a field of a document, or zero.
pub fn i64_of_field(doc: &ArchiveDocument, field: Field) -> (r: i64)
    ensures
        r == field_i64(doc@, field),
{
    match doc.get_first(field) {
        Some(FieldValue::I64(n)) => *n,
        _ => 0,
    }
}

/// The row of a document.
pub open spec fn row_of(doc: Seq<(Field, FieldModel)>) -> RowModel {
    RowModel {
        image_path: field_text(doc, Field::ImagePath),
        source_path: field_text(doc, Field::FilePath),
        issue_no: field_u64(doc, Field::IssueNo),
        issue_kind: field_text(doc, Field::IssueKind),
        payload: match first_value(doc, Field::Payload) {
            Some(FieldModel::Json(j)) => flattened(Seq::empty(), j, Map::empty()),
            _ => Map::empty(),
        },
    }
}

/// Makes the row of a document.
pub fn extract_row(doc: &ArchiveDocument) -> (r: RowExtracted)
    ensures
        r@ == row_of(doc@),
{
    let mut payload = TextMap::new();
    if let Some(FieldValue::Json(j)) = doc.get_first(Field::Payload) {
        proof {
            reveal_strlit("");
            assert(""@ =~= Seq::empty());
        }
        flatten_owned_value("", j, &mut payload);
    }
    RowExtracted {
        image_path: text_of_field(doc, Field::ImagePath),
        source_path: text_of_field(doc, Field::FilePath),
        issue_no: u64_of_field(doc, Field::IssueNo),
        issue_kind: text_of_field(doc, Field::IssueKind),
        payload,
    }
}

/// Whether a text holds what is asked for, if anything is.
pub open spec fn holds_part(text: Seq<char>, part: Option<String>) -> bool {
    match part {
        Some(p) => has_part(text, p@),
        None => true,
    }
}

/// Whether a row meets the filters on its payload.
pub open spec fn passes(row: RowModel, f: MetadataFilters) -> bool {
    &&& holds_part(text_under(row.payload, "submitter"@), f.submitter_contains)
    &&& holds_part(text_under(row.payload, "title"@), f.title_contains)
    &&& holds_part(text_under(row.payload, "engine"@), f.engine_contains)
}

fn text_holds(m: &TextMap, name: &str, part: &Option<String>) -> (r: bool)
    ensures
        r == holds_part(text_under(m@, name@), *part),
{
    match part {
        Some(p) => {
            let text: String = text_or_empty(m, name);
            contains_text(text.as_str(), p.as_str())
        },
        None => true,
    }
}

/// Whether a row meets the filters on its payload.
pub fn pass_post_filters(row: &RowExtracted, f: &MetadataFilters) -> (r: bool)
    ensures
        r == passes(row@, *f),
{
    text_holds(&row.payload, "submitter", &f.submitter_contains) && text_holds(
        &row.payload,
        "title",
        &f.title_contains,
    ) && text_holds(&row.payload, "engine", &f.engine_contains)
}

/// Whether one row may stand before another. Issues are ordered by kind, number
/// and file; the number may go down instead of up.
pub open spec fn row_le(order: OrderBy, a: RowModel, b: RowModel) -> bool {
    match order {
        OrderBy::IssueAsc => if a.issue_kind != b.issue_kind {
            text_le(a.issue_kind, b.issue_kind)
        } else if a.issue_no != b.issue_no {
            a.issue_no < b.issue_no
        } else {
            text_le(a.source_path, b.source_path)
        },
        OrderBy::IssueDesc => if a.issue_kind != b.issue_kind {
            text_le(a.issue_kind, b.issue_kind)
        } else if a.issue_no != b.issue_no {
            a.issue_no > b.issue_no
        } else {
            text_le(a.source_path, b.source_path)
        },
        OrderBy::TitleAsc => text_le(
            text_under(a.payload, "title"@),
            text_under(b.payload, "title"@),
        ),
    }
}

impl Sortable for RowExtracted {
    type Model = RowModel;

    type Order = OrderBy;

    open spec fn model(&self) -> RowModel {
        self@
    }

    open spec fn may_precede(order: OrderBy, a: RowModel, b: RowModel) -> bool {
        row_le(order, a, b)
    }

    fn precedes(&self, other: &Self, order: &OrderBy) -> (r: bool) {
        match order {
            OrderBy::TitleAsc => {
                let x: String = text_or_empty(&self.payload, "title");
                let y: String = text_or_empty(&other.payload, "title");
                comes_first(x.as_str(), y.as_str())
            },
            OrderBy::IssueAsc => {
                if !same_text(self.issue_kind.as_str(), other.issue_kind.as_str()) {
                    comes_first(self.issue_kind.as_str(), other.issue_kind.as_str())
                } else if self.issue_no != other.issue_no {
                    self.issue_no < other.issue_no
                } else {
                    comes_first(self.source_path.as_str(), other.source_path.as_str())
                }
            },
            OrderBy::IssueDesc => {
                if !same_text(self.issue_kind.as_str(), other.issue_kind.as_str()) {
                    comes_first(self.issue_kind.as_str(), other.issue_kind.as_str())
                } else if self.issue_no != other.issue_no {
                    self.issue_no > other.issue_no
                } else {
                    comes_first(self.source_path.as_str(), other.source_path.as_str())
                }
            },
        }
    }
}

/// The order of rows as a function.
pub open spec fn row_order(order: OrderBy) -> spec_fn(RowModel, RowModel) -> bool {
    |a: RowModel, b: RowModel| row_le(order, a, b)
}

/// Rows as mathematical values.
pub open spec fn row_models(v: Seq<RowExtracted>) -> Seq<RowModel> {
    Seq::new(v.len(), |i: int| v[i]@)
}

/// Sorts rows; where the order does not decide, they stay as they are.
pub fn sort_rows(rows: Vec<RowExtracted>, order: OrderBy) -> (r: Vec<RowExtracted>)
    ensures
        row_models(r@) == sorted_by(row_models(rows@), row_order(order)),
{
    assert(models(rows@) =~= row_models(rows@));
    let r: Vec<RowExtracted> = sort(rows, &order);
    assert(order_of::<RowExtracted>(order) =~= row_order(order));
    assert(models(r@) =~= row_models(r@));
    r
}

/// A cell of a row.
pub open spec fn cell(row: RowModel, column: Seq<char>) -> Seq<char> {
    if column == "issue_no"@ {
        decimal(row.issue_no as nat)
    } else if column == "issue_kind"@ {
        row.issue_kind
    } else if column == "image_path"@ {
        row.image_path
    } else if column == "source_path"@ {
        row.source_path
    } else {
        text_under(row.payload, column)
    }
}

/// The cells of a row.
pub open spec fn cells(row: RowModel) -> Seq<Seq<char>> {
    Seq::new(12, |i: int| cell(row, DENNOU_COLUMNS@[i]@))
}

fn cell_text(row: &RowExtracted, column: &str) -> (r: String)
    ensures
        r@ == cell(row@, column@),
{
    if same_text(column, "issue_no") {
        number_text(row.issue_no)
    } else if same_text(column, "issue_kind") {
        row.issue_kind.clone()
    } else if same_text(column, "image_path") {
        row.image_path.clone()
    } else if same_text(column, "source_path") {
        row.source_path.clone()
    } else {
        text_or_empty(&row.payload, column)
    }
}

/// The cells of a row, in the order of the columns.
pub fn format_row(row: &RowExtracted, view: MetadataView) -> (r: Vec<String>)
    ensures
        texts(r@) == cells(row@),
{
    let columns: &[&str] = view.columns();
    let mut out: Vec<String> = Vec::new();
    let mut i: usize = 0;
    while i < columns.len()
        invariant
            i <= columns@.len(),
            columns@ == DENNOU_COLUMNS@,
            texts(out@) =~= cells(row@).take(i as int),
        decreases columns@.len() - i,
    {
        let ghost before = texts(out@);
        let text: String = cell_text(row, columns[i]);
        out.push(text);
        assert(texts(out@) =~= before.push(text@));
        i = i + 1;
    }
    assert(texts(out@) =~= cells(row@));
    out
}

/// How many records are asked of the index, so that enough are left after the
/// filters.
pub open spec fn prefetch_of(limit: int) -> int {
    if 4 * limit > 50_000 {
        50_000
    } else {
        4 * limit
    }
}

/// How many records are asked of the index for so many rows.
pub fn prefetch_limit(limit: usize) -> (r: usize)
    requires
        1 <= limit <= 50_000,
    ensures
        r == prefetch_of(limit as int),
        limit <= r <= 50_000,
{
    if limit > 12_500 {
        50_000
    } else {
        4 * limit
    }
}

/// The rows of some documents that meet the filters.
pub open spec fn rows_passing(docs: Seq<Seq<(Field, FieldModel)>>, f: MetadataFilters) -> Seq<
    RowModel,
>
    decreases docs.len(),
{
    if docs.len() == 0 {
        Seq::empty()
    } else {
        let before = rows_passing(docs.drop_last(), f);
        let row = row_of(docs.last());
        if passes(row, f) {
            before.push(row)
        } else {
            before
        }
    }
}

/// The rows of a table, in order and not more than there may be.
pub open spec fn table_rows(docs: Seq<Seq<(Field, FieldModel)>>, opts: QueryOpts) -> Seq<RowModel> {
    let all = sorted_by(rows_passing(docs, opts.filters), row_order(opts.order_by));
    if all.len() > opts.limit {
        all.take(opts.limit as int)
    } else {
        all
    }
}

/// The cells of rows.
pub open spec fn all_cells(rows: Seq<RowModel>) -> Seq<Seq<Seq<char>>> {
    Seq::new(rows.len(), |i: int| cells(rows[i]))
}

/// Makes a table from the documents that the index gave for `prefetch_limit`
/// documents and the conditions of `build_tantivy_query`.
pub fn run_query(docs: &Vec<ArchiveDocument>, opts: &QueryOpts) -> (r: QueryResult)
    requires
        1 <= opts.limit <= 50_000,
    ensures
        row_texts(r.rows@) == all_cells(table_rows(document_models(docs@), *opts)),
        texts(r.columns@) == Seq::new(12, |i: int| DENNOU_COLUMNS@[i]@),
        r.row_count == r.rows@.len(),
        r.truncated == (docs@.len() >= prefetch_of(opts.limit as int) || rows_passing(
            document_models(docs@),
            opts.filters,
        ).len() > opts.limit),
{
    let ghost all = document_models(docs@);
    let mut rows: Vec<RowExtracted> = Vec::new();
    let mut i: usize = 0;
    assert(row_models(rows@) =~= rows_passing(all.take(0), opts.filters));
    while i < docs.len()
        invariant
            i <= docs@.len(),
            all == document_models(docs@),
            row_models(rows@) == rows_passing(all.take(i as int), opts.filters),
        decreases docs@.len() - i,
    {
        let ghost before = row_models(rows@);
        assert(all.take(i + 1).drop_last() =~= all.take(i as int));
        assert(all.take(i + 1).last() == docs@[i as int]@);
        let row: RowExtracted = extract_row(&docs[i]);
        if pass_post_filters(&row, &opts.filters) {
            rows.push(row);
            assert(row_models(rows@) =~= before.push(row@));
        }
        i = i + 1;
    }
    assert(all.take(i as int) =~= all);
    let truncated: bool = docs.len() >= prefetch_limit(opts.limit) || rows.len() > opts.limit;
    assert(row_models(rows@).len() == rows@.len());
    let ghost found = row_models(rows@);
    let mut sorted: Vec<RowExtracted> = sort_rows(rows, opts.order_by);
    let ghost in_order = row_models(sorted@);
    assert(in_order.len() == sorted@.len());
    if sorted.len() > opts.limit {
        sorted.truncate(opts.limit);
        assert(row_models(sorted@) =~= in_order.take(opts.limit as int));
    }
    let ghost table = row_models(sorted@);
    assert(table == table_rows(all, *opts));
    let mut out: Vec<Vec<String>> = Vec::new();
    let mut k: usize = 0;
    while k < sorted.len()
        invariant
            k <= sorted@.len(),
            table == row_models(sorted@),
            row_texts(out@) =~= all_cells(table).take(k as int),
        decreases sorted@.len() - k,
    {
        let ghost before = row_texts(out@);
        let line: Vec<String> = format_row(&sorted[k], opts.view);
        out.push(line);
        assert(row_texts(out@) =~= before.push(texts(line@)));
        k = k + 1;
    }
    assert(row_texts(out@) =~= all_cells(table));
    let columns: Vec<String> = column_names(opts.view);
    QueryResult { row_count: out.len(), rows: out, columns, truncated }
}

fn column_names(view: MetadataView) -> (r: Vec<String>)
    ensures
        texts(r@) == Seq::new(12, |i: int| DENNOU_COLUMNS@[i]@),
{
    let columns: &[&str] = view.columns();
    let mut out: Vec<String> = Vec::new();
    let mut i: usize = 0;
    while i < columns.len()
        invariant
            i <= columns@.len(),
            columns@ == DENNOU_COLUMNS@,
            out@.len() == i,
            forall|k: int| 0 <= k < i ==> (#[trigger] out@[k])@ == DENNOU_COLUMNS@[k]@,
        decreases columns@.len() - i,
    {
        out.push(columns[i].to_owned());
        i = i + 1;
    }
    assert(texts(out@) =~= Seq::new(12, |i: int| DENNOU_COLUMNS@[i]@));
    out
}

/// The orders of rows can order them.
pub proof fn row_orders_are_orders(order: OrderBy)
    ensures
        is_order(row_order(order)),
{
    let le = row_order(order);
    assert forall|a: RowModel, b: RowModel| #[trigger] le(a, b) || le(b, a) by {
        text_order_is_total(a.issue_kind, b.issue_kind);
        text_order_is_total(a.source_path, b.source_path);
        text_order_is_total(text_under(a.payload, "title"@), text_under(b.payload, "title"@));
    }
    assert forall|a: RowModel, b: RowModel, c: RowModel| #[trigger] le(a, b) && #[trigger] le(
        b,
        c,
    ) implies le(a, c) by {
        text_order_is_total(a.issue_kind, b.issue_kind);
        text_order_is_total(b.issue_kind, c.issue_kind);
        match order {
            OrderBy::TitleAsc => {
                text_order_is_transitive(
                    text_under(a.payload, "title"@),
                    text_under(b.payload, "title"@),
                    text_under(c.payload, "title"@),
                );
            },
            _ => {
                if a.issue_kind != b.issue_kind && b.issue_kind != c.issue_kind {
                    text_order_is_transitive(a.issue_kind, b.issue_kind, c.issue_kind);
                } else if a.issue_kind == b.issue_kind && b.issue_kind == c.issue_kind
                    && a.issue_no == b.issue_no && b.issue_no == c.issue_no {
                    text_order_is_transitive(a.source_path, b.source_path, c.source_path);
                }
            },
        }
    }
}

/// The rows of a table are in order, there are not more of them than asked for,
/// and each is the row of one of the documents and meets the filters.
pub proof fn tables_are_in_order(docs: Seq<Seq<(Field, FieldModel)>>, opts: QueryOpts)
    ensures
        in_order(table_rows(docs, opts), row_order(opts.order_by)),
        table_rows(docs, opts).len() <= opts.limit,
        forall|i: int|
            0 <= i < table_rows(docs, opts).len() ==> passes(
                #[trigger] table_rows(docs, opts)[i],
                opts.filters,
            ),
{
    broadcast use vstd::seq_lib::group_to_multiset_ensures;

    let le = row_order(opts.order_by);
    let found = rows_passing(docs, opts.filters);
    let all = sorted_by(found, le);
    row_orders_are_orders(opts.order_by);
    sorting_puts_in_order(found, le);
    sorting_keeps_all(found, le);
    rows_pass(docs, opts.filters);
    let table = table_rows(docs, opts);
    assert forall|i: int| 0 <= i < table.len() implies passes(#[trigger] table[i], opts.filters) by {
        assert(table[i] == all[i]);
        assert(all.contains(all[i]));
        assert(found.to_multiset().contains(all[i]));
        assert(found.contains(all[i]));
        let k = choose|k: int| 0 <= k < found.len() && found[k] == all[i];
        assert(passes(found[k], opts.filters));
    }
    assert forall|i: int, j: int| 0 <= i <= j < table.len() implies i == j || le(
        #[trigger] table[i],
        #[trigger] table[j],
    ) by {
        assert(table[i] == all[i] && table[j] == all[j]);
    }
}

proof fn rows_pass(docs: Seq<Seq<(Field, FieldModel)>>, f: MetadataFilters)
    ensures
        forall|i: int|
            0 <= i < rows_passing(docs, f).len() ==> passes(#[trigger] rows_passing(docs, f)[i], f),
    decreases docs.len(),
{
    if docs.len() > 0 {
        rows_pass(docs.drop_last(), f);
        let before = rows_passing(docs.drop_last(), f);
        let now = rows_passing(docs, f);
        assert forall|i: int| 0 <= i < now.len() implies passes(#[trigger] now[i], f) by {
            if i < before.len() {
                assert(now[i] == before[i]);
            }
        }
    }
}

/// A row gives back what its record has.
pub proof fn rows_give_records_back(r: RecordModel)
    requires
        r.payload is Object,
    ensures
        row_of(record_document(r)) == (RowModel {
            image_path: r.image_path,
            source_path: r.source_path,
            issue_no: r.issue_no,
            issue_kind: r.issue_kind,
            payload: flattened(Seq::empty(), kept_json(r.payload), Map::empty()),
        }),
{
    let doc = record_document(r);
    first_value_at(doc, 2);
    first_value_at(doc, 5);
    first_value_at(doc, 7);
    first_value_at(doc, 8);
    first_value_at(doc, 13);
}

} // verus!
