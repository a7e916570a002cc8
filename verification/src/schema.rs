//! The fields of the index.
//!
//! A document of the index is either a file on a disk or a record that was taken
//! out of a magazine disk. Both live in one index with one set of fields.

use crate::text::same_text;
use vstd::prelude::*;

verus! {

/// The fields of a document.
#[derive(Clone, Copy, Debug, PartialEq, Eq, Structural)]
pub enum Field {
    ImagePath,
    ImageId,
    Partition,
    FilePath,
    FileName,
    Ext,
    Size,
    Mtime,
    Attr,
    Body,
    BodyExcerpt,
    /// What kind of record this is, such as `music`; files have none.
    Category,
    /// The number of the issue.
    IssueNo,
    /// `main` for the magazine itself, `extra` for a special issue.
    IssueKind,
    /// The side of the disk: `A`, `B` or `X`.
    IssueRole,
    /// The name by which a record is replaced.
    UniqueId,
    /// The plugin that took out the record.
    SchemaPlugin,
    /// The version of that plugin.
    SchemaVersion,
    /// The structured data of the record.
    Payload,
    /// The place of the record in the hierarchy of issues.
    LocationFacet,
}

/// How a field is indexed.
#[derive(Clone, Copy, Debug, PartialEq, Eq, Structural)]
pub enum FieldType {
    /// A text that is matched as a whole.
    Exact,
    /// A text that is matched word by word.
    FullText,
    /// A text that is not matched at all.
    Plain,
    U64,
    I64,
    Json,
    Facet,
}

/// A field with how it is kept.
#[derive(Clone, Copy, Debug, PartialEq, Eq, Structural)]
pub struct FieldSpec {
    pub field: Field,
    pub kind: FieldType,
    /// Whether the field can be searched.
    pub indexed: bool,
    /// Whether the value can be read back.
    pub stored: bool,
    /// Whether the value is kept by columns too.
    pub fast: bool,
}

/// The name of a field in the index.
pub open spec fn field_label(field: Field) -> Seq<char> {
    match field {
        Field::ImagePath => "image_path"@,
        Field::ImageId => "image_id"@,
        Field::Partition => "partition"@,
        Field::FilePath => "file_path"@,
        Field::FileName => "file_name"@,
        Field::Ext => "ext"@,
        Field::Size => "size"@,
        Field::Mtime => "mtime"@,
        Field::Attr => "attr"@,
        Field::Body => "body"@,
        Field::BodyExcerpt => "body_excerpt"@,
        Field::Category => "category"@,
        Field::IssueNo => "issue_no"@,
        Field::IssueKind => "issue_kind"@,
        Field::IssueRole => "issue_role"@,
        Field::UniqueId => "unique_id"@,
        Field::SchemaPlugin => "schema_plugin"@,
        Field::SchemaVersion => "schema_version"@,
        Field::Payload => "payload"@,
        Field::LocationFacet => "location_facet"@,
    }
}

/// One row of the table of fields.
pub open spec fn field_row(
    field: Field,
    kind: FieldType,
    indexed: bool,
    stored: bool,
    fast: bool,
) -> FieldSpec {
    FieldSpec { field, kind, indexed, stored, fast }
}

/// The fields of the index, in the order in which they are declared.
pub open spec fn field_table() -> Seq<FieldSpec> {
    seq![
        field_row(Field::ImagePath, FieldType::Exact, true, true, false),
        field_row(Field::ImageId, FieldType::Exact, true, true, false),
        field_row(Field::Partition, FieldType::U64, true, true, true),
        field_row(Field::FilePath, FieldType::Exact, true, true, false),
        field_row(Field::FileName, FieldType::FullText, true, true, false),
        field_row(Field::Ext, FieldType::Exact, true, true, true),
        field_row(Field::Size, FieldType::U64, true, true, true),
        field_row(Field::Mtime, FieldType::I64, true, true, true),
        field_row(Field::Attr, FieldType::Exact, true, true, false),
        field_row(Field::Body, FieldType::FullText, true, false, false),
        field_row(Field::BodyExcerpt, FieldType::Plain, false, true, false),
        field_row(Field::Category, FieldType::Exact, true, true, true),
        field_row(Field::IssueNo, FieldType::U64, true, true, true),
        field_row(Field::IssueKind, FieldType::Exact, true, true, true),
        field_row(Field::IssueRole, FieldType::Exact, true, true, true),
        field_row(Field::UniqueId, FieldType::Exact, true, true, false),
        field_row(Field::SchemaPlugin, FieldType::Exact, true, true, true),
        field_row(Field::SchemaVersion, FieldType::U64, false, true, true),
        field_row(Field::Payload, FieldType::Json, true, true, false),
        field_row(Field::LocationFacet, FieldType::Facet, true, false, false),
    ]
}

impl Field {
    /// The name of the field in the index.
    pub fn label(&self) -> (r: &'static str)
        ensures
            r@ == field_label(*self),
    {
        match self {
            Field::ImagePath => "image_path",
            Field::ImageId => "image_id",
            Field::Partition => "partition",
            Field::FilePath => "file_path",
            Field::FileName => "file_name",
            Field::Ext => "ext",
            Field::Size => "size",
            Field::Mtime => "mtime",
            Field::Attr => "attr",
            Field::Body => "body",
            Field::BodyExcerpt => "body_excerpt",
            Field::Category => "category",
            Field::IssueNo => "issue_no",
            Field::IssueKind => "issue_kind",
            Field::IssueRole => "issue_role",
            Field::UniqueId => "unique_id",
            Field::SchemaPlugin => "schema_plugin",
            Field::SchemaVersion => "schema_version",
            Field::Payload => "payload",
            Field::LocationFacet => "location_facet",
        }
    }
}

fn row(field: Field, kind: FieldType, indexed: bool, stored: bool, fast: bool) -> (r: FieldSpec)
    ensures
        r == field_row(field, kind, indexed, stored, fast),
{
    FieldSpec { field, kind, indexed, stored, fast }
}

/// The fields of the index.
pub struct ArchiveSchema {
    pub fields: Vec<FieldSpec>,
}

impl ArchiveSchema {
    /// All fields of the index.
    pub fn build() -> (r: Self)
        ensures
            r.fields@ == field_table(),
    {
        let fields: Vec<FieldSpec> = vec![
            row(Field::ImagePath, FieldType::Exact, true, true, false),
            row(Field::ImageId, FieldType::Exact, true, true, false),
            row(Field::Partition, FieldType::U64, true, true, true),
            row(Field::FilePath, FieldType::Exact, true, true, false),
            row(Field::FileName, FieldType::FullText, true, true, false),
            row(Field::Ext, FieldType::Exact, true, true, true),
            row(Field::Size, FieldType::U64, true, true, true),
            row(Field::Mtime, FieldType::I64, true, true, true),
            row(Field::Attr, FieldType::Exact, true, true, false),
            row(Field::Body, FieldType::FullText, true, false, false),
            row(Field::BodyExcerpt, FieldType::Plain, false, true, false),
            row(Field::Category, FieldType::Exact, true, true, true),
            row(Field::IssueNo, FieldType::U64, true, true, true),
            row(Field::IssueKind, FieldType::Exact, true, true, true),
            row(Field::IssueRole, FieldType::Exact, true, true, true),
            row(Field::UniqueId, FieldType::Exact, true, true, false),
            row(Field::SchemaPlugin, FieldType::Exact, true, true, true),
            row(Field::SchemaVersion, FieldType::U64, false, true, true),
            row(Field::Payload, FieldType::Json, true, true, false),
            row(Field::LocationFacet, FieldType::Facet, true, false, false),
        ];
        assert(fields@ =~= field_table());
        ArchiveSchema { fields }
    }

    /// Whether an index with fields of the given names can hold records. An index
    /// that was built before there were records cannot.
    pub fn has_structured_fields(names: &Vec<String>) -> (r: bool)
        ensures
            r == (has_name(names@, "category"@) && has_name(names@, "issue_no"@) && has_name(
                names@,
                "payload"@,
            ) && has_name(names@, "unique_id"@) && has_name(names@, "location_facet"@)),
    {
        is_named(names, "category") && is_named(names, "issue_no") && is_named(names, "payload")
            && is_named(names, "unique_id") && is_named(names, "location_facet")
    }

    /// The names of the fields.
    pub fn names(&self) -> (r: Vec<String>)
        ensures
            r@.len() == self.fields@.len(),
            forall|i: int| 0 <= i < r@.len() ==> (#[trigger] r@[i])@ == field_label(
                self.fields@[i].field,
            ),
    {
        let mut out: Vec<String> = Vec::new();
        let mut i: usize = 0;
        while i < self.fields.len()
            invariant
                i <= self.fields@.len(),
                out@.len() == i,
                forall|k: int| 0 <= k < i ==> (#[trigger] out@[k])@ == field_label(
                    self.fields@[k].field,
                ),
            decreases self.fields@.len() - i,
        {
            out.push(self.fields[i].field.label().to_owned());
            i = i + 1;
        }
        out
    }
}

/// Whether a name is among some names.
pub open spec fn has_name(names: Seq<String>, name: Seq<char>) -> bool {
    exists|i: int| 0 <= i < names.len() && (#[trigger] names[i])@ == name
}

/// Whether a name is among some names.
pub fn is_named(names: &Vec<String>, name: &str) -> (r: bool)
    ensures
        r == has_name(names@, name@),
{
    let mut i: usize = 0;
    while i < names.len()
        invariant
            i <= names@.len(),
            forall|k: int| 0 <= k < i ==> (#[trigger] names@[k])@ != name@,
        decreases names@.len() - i,
    {
        if same_text(names[i].as_str(), name) {
            return true;
        }
        i = i + 1;
    }
    false
}

/// An index with the fields of the schema can hold records.
pub proof fn schema_can_hold_records(names: Seq<String>)
    requires
        names.len() == field_table().len(),
        forall|i: int| 0 <= i < names.len() ==> (#[trigger] names[i])@ == field_label(
            field_table()[i].field,
        ),
    ensures
        has_name(names, "category"@) && has_name(names, "issue_no"@) && has_name(
            names,
            "payload"@,
        ) && has_name(names, "unique_id"@) && has_name(names, "location_facet"@),
{
    assert(names[11]@ == "category"@);
    assert(names[12]@ == "issue_no"@);
    assert(names[18]@ == "payload"@);
    assert(names[15]@ == "unique_id"@);
    assert(names[19]@ == "location_facet"@);
}

/// The extensions of files whose contents are indexed, in capitals.
pub const DEFAULT_TEXT_EXTENSIONS: [&'static str; 16] = [
    "DOC",
    "TXT",
    "ZMS",
    "MDD",
    "BAS",
    "X",
    "S",
    "C",
    "H",
    "MAC",
    "INC",
    "ASM",
    "BAT",
    "MD",
    "INI",
    "CFG",
];

/// Whether an extension, in capitals, is that of a text.
pub open spec fn text_extension(ext: Seq<char>) -> bool {
    exists|i: int| 0 <= i < 16 && (#[trigger] DEFAULT_TEXT_EXTENSIONS@[i])@ == ext
}

/// Whether an extension, in capitals, is that of a text.
pub fn is_text_extension(ext: &str) -> (r: bool)
    ensures
        r == text_extension(ext@),
{
    let mut i: usize = 0;
    while i < 16
        invariant
            i <= 16,
            forall|k: int| 0 <= k < i ==> (#[trigger] DEFAULT_TEXT_EXTENSIONS@[k])@ != ext@,
        decreases 16 - i,
    {
        if same_text(DEFAULT_TEXT_EXTENSIONS[i], ext) {
            return true;
        }
        i = i + 1;
    }
    false
}

} // verus!
