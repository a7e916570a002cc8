//! Taking records out of magazine disks.
//!
//! A plugin knows one magazine. It tells whether a disk is one of its own and, if
//! so, takes records out of it. A record replaces an earlier one with the same
//! `unique_id` in the index.

use crate::document::{document_models, excerpt_of, first_value, make_excerpt, ArchiveDocument, FieldModel,
    FieldValue};
use crate::error::FsError;
use crate::fs::{DiskModel, Filesystem};
use crate::image::OpenedImage;
use crate::json::{Json, JsonModel, Member};
use crate::lzh::after_last;
use crate::path::{find_last, opt_text};
use crate::schema::Field;
use crate::spec::{mount, mounted_partition, select_volume, Volume};
use crate::text::{comes_first, from_chars, same_text, text_le, text_order_is_total,
    text_order_is_transitive, texts, to_chars};
use vstd::prelude::*;

verus! {

/// What a plugin is given: a disk, and where it comes from.
pub struct ExtractContext<'a> {
    /// The path of the image on the host.
    pub image_path: &'a str,
    /// The name of the image in the index.
    pub image_id: &'a str,
    /// The number of the partition; zero for a floppy.
    pub partition: usize,
    /// The mounted partition.
    pub fs: &'a Filesystem<'a, Volume<'a>>,
}

/// What a plugin is given, as a mathematical value.
pub struct ContextModel {
    pub image_path: Seq<char>,
    pub image_id: Seq<char>,
    pub partition: usize,
    pub fs: DiskModel,
}

impl<'a> View for ExtractContext<'a> {
    type V = ContextModel;

    open spec fn view(&self) -> ContextModel {
        ContextModel {
            image_path: self.image_path@,
            image_id: self.image_id@,
            partition: self.partition,
            fs: self.fs@,
        }
    }
}

/// The short form of the name of an image: its first eight bytes.
pub open spec fn short_id(id: Seq<char>) -> Seq<char> {
    excerpt_of(id, 8)
}

impl<'a> ExtractContext<'a> {
    /// The disk is one that was mounted.
    pub open spec fn valid(&self) -> bool {
        self.fs.valid()
    }

    /// The short form of the name of the image.
    pub fn image_id_short(&self) -> (r: String)
        ensures
            r@ == short_id(self@.image_id),
    {
        make_excerpt(self.image_id, 8)
    }
}

/// A record: a document of its own in the index.
#[derive(Debug)]
pub struct ExtractedRecord {
    /// The name by which the record is replaced:
    /// `{plugin}:{short image name}:{path on the disk}`.
    pub unique_id: String,
    /// What kind of record this is, such as `music`.
    pub category: String,
    /// The file on the disk that the record comes from.
    pub source_path: String,
    pub image_path: String,
    pub image_id: String,
    pub partition: usize,
    pub issue_no: u64,
    /// `main` or `extra`.
    pub issue_kind: String,
    /// `A`, `B`, `X` or nothing.
    pub issue_role: String,
    /// The place in the hierarchy of issues, such as `/dennou/main/094`.
    pub location_facet: String,
    /// The structured data. Doubts stand in it under `_warnings`.
    pub payload: Json,
    pub schema_plugin: String,
    pub schema_version: u64,
}

/// A record as a mathematical value.
pub struct RecordModel {
    pub unique_id: Seq<char>,
    pub category: Seq<char>,
    pub source_path: Seq<char>,
    pub image_path: Seq<char>,
    pub image_id: Seq<char>,
    pub partition: usize,
    pub issue_no: u64,
    pub issue_kind: Seq<char>,
    pub issue_role: Seq<char>,
    pub location_facet: Seq<char>,
    pub payload: JsonModel,
    pub schema_plugin: Seq<char>,
    pub schema_version: u64,
}

impl View for ExtractedRecord {
    type V = RecordModel;

    open spec fn view(&self) -> RecordModel {
        RecordModel {
            unique_id: self.unique_id@,
            category: self.category@,
            source_path: self.source_path@,
            image_path: self.image_path@,
            image_id: self.image_id@,
            partition: self.partition,
            issue_no: self.issue_no,
            issue_kind: self.issue_kind@,
            issue_role: self.issue_role@,
            location_facet: self.location_facet@,
            payload: self.payload@,
            schema_plugin: self.schema_plugin@,
            schema_version: self.schema_version,
        }
    }
}

/// Records as mathematical values.
pub open spec fn record_models(v: Seq<ExtractedRecord>) -> Seq<RecordModel> {
    Seq::new(v.len(), |i: int| v[i]@)
}

/// What a plugin took out of a disk.
#[derive(Debug)]
pub struct ExtractResult {
    pub records: Vec<ExtractedRecord>,
    pub warnings: Vec<String>,
}

/// What a plugin took out of a disk, as a mathematical value.
pub struct ExtractModel {
    pub records: Seq<RecordModel>,
    pub warnings: Seq<Seq<char>>,
}

impl View for ExtractResult {
    type V = ExtractModel;

    open spec fn view(&self) -> ExtractModel {
        ExtractModel { records: record_models(self.records@), warnings: texts(self.warnings@) }
    }
}

/// Results as mathematical values.
pub open spec fn result_models(v: Seq<ExtractResult>) -> Seq<ExtractModel> {
    Seq::new(v.len(), |i: int| v[i]@)
}

impl ExtractResult {
    /// Nothing at all.
    pub fn empty() -> (r: Self)
        ensures
            r@ == (ExtractModel { records: Seq::empty(), warnings: Seq::empty() }),
    {
        let r = ExtractResult { records: Vec::new(), warnings: Vec::new() };
        assert(r@.records =~= Seq::empty());
        assert(r@.warnings =~= Seq::empty());
        r
    }
}

/// One who knows a magazine.
pub trait SchemaPlugin {
    spec fn spec_name(&self) -> Seq<char>;

    spec fn spec_version(&self) -> u64;

    /// Whether a disk is one of the magazine.
    spec fn detects(&self, ctx: ContextModel) -> bool;

    /// What there is to take out of a disk.
    spec fn extracts(&self, ctx: ContextModel) -> Result<ExtractModel, FsError>;

    /// The name of the plugin.
    fn name(&self) -> (r: &'static str)
        ensures
            r@ == self.spec_name(),
    ;

    /// The version of the plugin. Disks are read again when it rises.
    fn version(&self) -> (r: u64)
        ensures
            r == self.spec_version(),
    ;

    /// Whether a disk is one of the magazine.
    fn detect(&self, ctx: &ExtractContext<'_>) -> (r: bool)
        requires
            ctx.valid(),
        ensures
            r == self.detects(ctx@),
    ;

    /// Takes records out of a disk.
    fn extract(&self, ctx: &ExtractContext<'_>) -> (r: Result<ExtractResult, FsError>)
        requires
            ctx.valid(),
        ensures
            match r {
                Ok(x) => self.extracts(ctx@) == Ok::<ExtractModel, FsError>(x@),
                Err(e) => self.extracts(ctx@) == Err::<ExtractModel, FsError>(e),
            },
    ;
}

/// A structured value as the index keeps it: an integer is signed where it fits.
pub open spec fn kept_json(j: JsonModel) -> JsonModel
    decreases j,
{
    match j {
        JsonModel::Unsigned(n) => if n <= i64::MAX {
            JsonModel::Signed(n as i64)
        } else {
            j
        },
        JsonModel::Array(v) => JsonModel::Array(
            Seq::new(
                v.len(),
                |i: int|
                    if 0 <= i < v.len() {
                        kept_json(v[i])
                    } else {
                        JsonModel::Null
                    },
            ),
        ),
        JsonModel::Object(v) => JsonModel::Object(
            Seq::new(
                v.len(),
                |i: int|
                    if 0 <= i < v.len() {
                        (v[i].0, kept_json(v[i].1))
                    } else {
                        (Seq::empty(), JsonModel::Null)
                    },
            ),
        ),
        _ => j,
    }
}

/// A structured value as the index keeps it.
pub fn json_value_to_owned(v: &Json) -> (r: Json)
    ensures
        r@ == kept_json(v@),
    decreases v,
{
    match v {
        Json::Null => Json::Null,
        Json::Bool(b) => Json::Bool(*b),
        Json::Signed(n) => Json::Signed(*n),
        Json::Unsigned(n) => {
            if *n <= i64::MAX as u64 {
                Json::Signed(*n as i64)
            } else {
                Json::Unsigned(*n)
            }
        },
        Json::Decimal(s) => Json::Decimal(s.clone()),
        Json::Text(s) => Json::Text(s.clone()),
        Json::Array(items) => {
            let mut out: Vec<Json> = Vec::new();
            let mut i: usize = 0;
            while i < items.len()
                invariant
                    i <= items@.len(),
                    out@.len() == i,
                    *v == Json::Array(*items),
                    forall|k: int| 0 <= k < i ==> (#[trigger] out@[k])@ == kept_json(items@[k]@),
                decreases items@.len() - i,
            {
                assert(decreases_to!(*v => v->Array_0));
                assert(decreases_to!(*items => items[i as int]));
                out.push(json_value_to_owned(&items[i]));
                i = i + 1;
            }
            let r = Json::Array(out);
            proof {
                let want = kept_json(v@)->Array_0;
                assert(r@->Array_0 =~= want);
            }
            r
        },
        Json::Object(members) => {
            let mut out: Vec<Member> = Vec::new();
            let mut i: usize = 0;
            while i < members.len()
                invariant
                    i <= members@.len(),
                    out@.len() == i,
                    *v == Json::Object(*members),
                    forall|k: int|
                        #![trigger out@[k]]
                        0 <= k < i ==> out@[k].name@ == members@[k].name@ && out@[k].value@
                            == kept_json(members@[k].value@),
                decreases members@.len() - i,
            {
                assert(decreases_to!(*v => v->Object_0));
                assert(decreases_to!(*members => members[i as int]));
                let member = Member {
                    name: members[i].name.clone(),
                    value: json_value_to_owned(&members[i].value),
                };
                out.push(member);
                i = i + 1;
            }
            let r = Json::Object(out);
            proof {
                let want = kept_json(v@)->Object_0;
                assert(r@->Object_0 =~= want);
            }
            r
        },
    }
}

/// The document of a record. A payload that is not an object is left out.
pub open spec fn record_document(r: RecordModel) -> Seq<(Field, FieldModel)> {
    let head = seq![
        (Field::UniqueId, FieldModel::Text(r.unique_id)),
        (Field::Category, FieldModel::Text(r.category)),
        (Field::ImagePath, FieldModel::Text(r.image_path)),
        (Field::ImageId, FieldModel::Text(r.image_id)),
        (Field::Partition, FieldModel::U64(r.partition as u64)),
        (Field::FilePath, FieldModel::Text(r.source_path)),
        (Field::FileName, FieldModel::Text(after_last(r.source_path, '/'))),
        (Field::IssueNo, FieldModel::U64(r.issue_no)),
        (Field::IssueKind, FieldModel::Text(r.issue_kind)),
        (Field::IssueRole, FieldModel::Text(r.issue_role)),
        (Field::SchemaPlugin, FieldModel::Text(r.schema_plugin)),
        (Field::SchemaVersion, FieldModel::U64(r.schema_version)),
        (Field::LocationFacet, FieldModel::Facet(r.location_facet)),
    ];
    if r.payload is Object {
        head.push((Field::Payload, FieldModel::Json(kept_json(r.payload))))
    } else {
        head
    }
}

/// What follows the last slash of a path.
fn base_name(path: &str) -> (r: String)
    ensures
        r@ == after_last(path@, '/'),
{
    let chars: Vec<char> = to_chars(path);
    let from: usize = match find_last(chars.as_slice(), '/') {
        Some(k) => {
            assert(k < chars.len());
            k + 1
        },
        None => 0,
    };
    let tail: &[char] = &chars.as_slice()[from..chars.len()];
    assert(tail@ =~= chars@.skip(from as int));
    from_chars(tail)
}

/// Makes the document of a record.
pub fn record_to_doc(record: &ExtractedRecord) -> (r: ArchiveDocument)
    ensures
        r@ == record_document(record@),
{
    let mut doc = ArchiveDocument::new();
    doc.add_text(Field::UniqueId, record.unique_id.as_str());
    doc.add_text(Field::Category, record.category.as_str());
    doc.add_text(Field::ImagePath, record.image_path.as_str());
    doc.add_text(Field::ImageId, record.image_id.as_str());
    doc.add_u64(Field::Partition, record.partition as u64);
    doc.add_text(Field::FilePath, record.source_path.as_str());
    let file_name: String = base_name(record.source_path.as_str());
    doc.add_text(Field::FileName, file_name.as_str());
    doc.add_u64(Field::IssueNo, record.issue_no);
    doc.add_text(Field::IssueKind, record.issue_kind.as_str());
    doc.add_text(Field::IssueRole, record.issue_role.as_str());
    doc.add_text(Field::SchemaPlugin, record.schema_plugin.as_str());
    doc.add_u64(Field::SchemaVersion, record.schema_version);
    doc.add_value(Field::LocationFacet, FieldValue::Facet(record.location_facet.clone()));
    add_json_payload(&mut doc, &record.payload);
    assert(doc@ =~= record_document(record@));
    doc
}

/// Adds a payload to a document, if it is an object.
pub fn add_json_payload(doc: &mut ArchiveDocument, value: &Json)
    ensures
        final(doc)@ == if value@ is Object {
            old(doc)@.push((Field::Payload, FieldModel::Json(kept_json(value@))))
        } else {
            old(doc)@
        },
{
    let owned: Json = json_value_to_owned(value);
    if let Json::Object(_) = &owned {
        doc.add_value(Field::Payload, FieldValue::Json(owned));
    }
}

/// How records are taken out of an archive.
#[derive(Debug)]
pub struct ExtractOpts {
    /// The buffer of the index writer, in bytes.
    pub writer_memory: usize,
    /// Whether images are read again though the same version of the plugin has
    /// read them.
    pub force: bool,
    /// The only plugin to use, if not all are.
    pub only_plugin: Option<String>,
}

impl Default for ExtractOpts {
    fn default() -> (r: Self)
        ensures
            r.writer_memory == 50_000_000,
            !r.force,
            r.only_plugin is None,
    {
        ExtractOpts { writer_memory: 50_000_000, force: false, only_plugin: None }
    }
}

/// What running a plugin on an image comes to: the records that go into the
/// index, and whether the image was one of the plugin's, with the number of
/// records. An error leaves the records of the partitions before it.
pub struct PluginRun {
    pub records: Vec<ExtractedRecord>,
    /// What the plugin had doubts about, with the number of the partition.
    pub warnings: Vec<(usize, String)>,
    pub outcome: Result<Option<usize>, FsError>,
}

/// What running a plugin comes to, as a mathematical value.
pub struct RunModel {
    pub records: Seq<RecordModel>,
    pub warnings: Seq<(usize, Seq<char>)>,
    /// Whether the image was one of the plugin's, or the error that ended the run.
    pub detected: Result<bool, FsError>,
}

/// Warnings as mathematical values.
pub open spec fn warning_models(v: Seq<(usize, String)>) -> Seq<(usize, Seq<char>)> {
    Seq::new(v.len(), |i: int| (v[i].0, v[i].1@))
}

/// Whether a run is the one described.
pub open spec fn run_is(run: PluginRun, m: RunModel) -> bool {
    &&& record_models(run.records@) == m.records
    &&& warning_models(run.warnings@) == m.warnings
    &&& match m.detected {
        Err(e) => run.outcome == Err::<Option<usize>, FsError>(e),
        Ok(false) => run.outcome == Ok::<Option<usize>, FsError>(None),
        Ok(true) => run.outcome == Ok::<Option<usize>, FsError>(Some(run.records@.len() as usize)),
    }
}

/// Warnings with the number of a partition.
pub open spec fn numbered(warnings: Seq<Seq<char>>, partition: usize) -> Seq<(usize, Seq<char>)> {
    Seq::new(warnings.len(), |i: int| (partition, warnings[i]))
}

/// What running a plugin on a mounted partition comes to.
pub open spec fn partition_run<P: SchemaPlugin>(plugin: &P, ctx: ContextModel) -> RunModel {
    if !plugin.detects(ctx) {
        RunModel { records: Seq::empty(), warnings: Seq::empty(), detected: Ok(false) }
    } else {
        match plugin.extracts(ctx) {
            Err(e) => RunModel {
                records: Seq::empty(),
                warnings: Seq::empty(),
                detected: Err(e),
            },
            Ok(x) => RunModel {
                records: x.records,
                warnings: numbered(x.warnings, ctx.partition),
                detected: Ok(true),
            },
        }
    }
}

/// What running a plugin on the partitions of a hard disk from `idx` on comes to.
/// Partitions that cannot be mounted are passed over.
pub open spec fn partitions_run<P: SchemaPlugin>(
    plugin: &P,
    opened: OpenedImage,
    count: nat,
    idx: nat,
    path: Seq<char>,
    id: Seq<char>,
) -> RunModel
    decreases count - idx,
{
    if idx >= count {
        RunModel { records: Seq::empty(), warnings: Seq::empty(), detected: Ok(false) }
    } else {
        match mounted_partition(opened, Some(idx as usize)) {
            Err(_) => partitions_run(plugin, opened, count, idx + 1, path, id),
            Ok(fs) => {
                let here = partition_run(
                    plugin,
                    ContextModel { image_path: path, image_id: id, partition: idx as usize, fs },
                );
                let rest = partitions_run(plugin, opened, count, idx + 1, path, id);
                match here.detected {
                    Err(_) => here,
                    Ok(found) => RunModel {
                        records: here.records + rest.records,
                        warnings: here.warnings + rest.warnings,
                        detected: match rest.detected {
                            Err(e) => Err(e),
                            Ok(later) => Ok(found || later),
                        },
                    },
                }
            },
        }
    }
}

/// What running a plugin on an image comes to.
pub open spec fn image_run<P: SchemaPlugin>(
    plugin: &P,
    opened: OpenedImage,
    path: Seq<char>,
    id: Seq<char>,
) -> RunModel {
    match opened {
        OpenedImage::Floppy(_) => match mounted_partition(opened, None) {
            Err(e) => RunModel {
                records: Seq::empty(),
                warnings: Seq::empty(),
                detected: Err(e),
            },
            Ok(fs) => partition_run(
                plugin,
                ContextModel { image_path: path, image_id: id, partition: 0, fs },
            ),
        },
        OpenedImage::Hdd(h) => partitions_run(plugin, opened, h.places().len(), 0, path, id),
    }
}

/// Runs a plugin on a mounted partition and adds to what there is.
fn run_on_partition<P: SchemaPlugin>(
    plugin: &P,
    ctx: &ExtractContext<'_>,
    records: &mut Vec<ExtractedRecord>,
    warnings: &mut Vec<(usize, String)>,
) -> (r: Result<bool, FsError>)
    requires
        ctx.valid(),
    ensures
        r == partition_run(plugin, ctx@).detected,
        record_models(final(records)@) == record_models(old(records)@) + partition_run(
            plugin,
            ctx@,
        ).records,
        warning_models(final(warnings)@) == warning_models(old(warnings)@) + partition_run(
            plugin,
            ctx@,
        ).warnings,
{
    let ghost had = record_models(records@);
    let ghost doubts = warning_models(warnings@);
    assert(had + Seq::<RecordModel>::empty() =~= had);
    assert(doubts + Seq::<(usize, Seq<char>)>::empty() =~= doubts);
    if !plugin.detect(ctx) {
        return Ok(false);
    }
    let mut result: ExtractResult = plugin.extract(ctx)?;
    let ghost more = record_models(result.records@);
    let ghost said = texts(result.warnings@);
    records.append(&mut result.records);
    assert(record_models(records@) =~= had + more);
    let mut i: usize = 0;
    while i < result.warnings.len()
        invariant
            i <= result.warnings@.len(),
            said == texts(result.warnings@),
            warning_models(warnings@) =~= doubts + numbered(said, ctx.partition).take(i as int),
        decreases result.warnings@.len() - i,
    {
        let ghost before = warning_models(warnings@);
        let w: String = result.warnings[i].clone();
        warnings.push((ctx.partition, w));
        assert(warning_models(warnings@) =~= before.push((ctx.partition, w@)));
        i = i + 1;
    }
    assert(warning_models(warnings@) =~= doubts + numbered(said, ctx.partition));
    Ok(true)
}

/// Runs a plugin on an image.
pub fn try_extract_with_plugin<P: SchemaPlugin>(
    plugin: &P,
    opened: &OpenedImage,
    image_path: &str,
    image_id: &str,
) -> (r: PluginRun)
    ensures
        run_is(r, image_run(plugin, *opened, image_path@, image_id@)),
{
    let mut records: Vec<ExtractedRecord> = Vec::new();
    let mut warnings: Vec<(usize, String)> = Vec::new();
    assert(record_models(records@) =~= Seq::empty());
    assert(warning_models(warnings@) =~= Seq::empty());
    match opened {
        OpenedImage::Floppy(_) => {
            let volume = match select_volume(opened, None) {
                Ok(v) => v,
                Err(e) => {
                    return PluginRun { records, warnings, outcome: Err(e) };
                },
            };
            let fs = match mount(&volume) {
                Ok(fs) => fs,
                Err(e) => {
                    return PluginRun { records, warnings, outcome: Err(e) };
                },
            };
            let ctx = ExtractContext { image_path, image_id, partition: 0, fs: &fs };
            let detected = run_on_partition(plugin, &ctx, &mut records, &mut warnings);
            proof {
                let run = partition_run(plugin, ctx@);
                assert(Seq::<RecordModel>::empty() + run.records =~= run.records);
                assert(Seq::<(usize, Seq<char>)>::empty() + run.warnings =~= run.warnings);
            }
            let outcome = match detected {
                Ok(true) => Ok(Some(records.len())),
                Ok(false) => Ok(None),
                Err(e) => Err(e),
            };
            PluginRun { records, warnings, outcome }
        },
        OpenedImage::Hdd(h) => {
            let count: usize = h.partitions().len();
            let ghost all = image_run(plugin, *opened, image_path@, image_id@);
            let mut any_detected: bool = false;
            let mut idx: usize = 0;
            proof {
                assert(Seq::<RecordModel>::empty() + all.records =~= all.records);
                assert(Seq::<(usize, Seq<char>)>::empty() + all.warnings =~= all.warnings);
            }
            while idx < count
                invariant
                    idx <= count,
                    all == image_run(plugin, *opened, image_path@, image_id@),
                    ({
                        let rest = partitions_run(
                            plugin,
                            *opened,
                            count as nat,
                            idx as nat,
                            image_path@,
                            image_id@,
                        );
                        &&& record_models(records@) + rest.records == all.records
                        &&& warning_models(warnings@) + rest.warnings == all.warnings
                        &&& all.detected == match rest.detected {
                            Err(e) => Err(e),
                            Ok(later) => Ok::<bool, FsError>(any_detected || later),
                        }
                    }),
                decreases count - idx,
            {
                let ghost had = record_models(records@);
                let ghost doubts = warning_models(warnings@);
                let ghost later = partitions_run(
                    plugin,
                    *opened,
                    count as nat,
                    (idx + 1) as nat,
                    image_path@,
                    image_id@,
                );
                if let Ok(volume) = select_volume(opened, Some(idx)) {
                    if let Ok(fs) = mount(&volume) {
                        let ctx = ExtractContext { image_path, image_id, partition: idx, fs: &fs };
                        let ghost here = partition_run(plugin, ctx@);
                        match run_on_partition(plugin, &ctx, &mut records, &mut warnings) {
                            Err(e) => {
                                return PluginRun { records, warnings, outcome: Err(e) };
                            },
                            Ok(found) => {
                                if found {
                                    any_detected = true;
                                }
                            },
                        }
                        proof {
                            assert(record_models(records@) + later.records =~= had + (here.records
                                + later.records));
                            assert(warning_models(warnings@) + later.warnings =~= doubts + (
                            here.warnings + later.warnings));
                        }
                    }
                }
                idx = idx + 1;
            }
            assert(record_models(records@) =~= all.records);
            assert(warning_models(warnings@) =~= all.warnings);
            let outcome = if any_detected {
                Ok(Some(records.len()))
            } else {
                Ok(None)
            };
            PluginRun { records, warnings, outcome }
        },
    }
}

/// Why an image gave nothing when a plugin was tried on it.
#[derive(Clone, Copy, Debug, PartialEq, Eq, Structural)]
pub enum DryRunError {
    /// The image or the plugin failed.
    Failed(FsError),
    /// The floppy is not one of the plugin's.
    NotDetected,
    /// No partition is one of the plugin's.
    NoPartitionDetected,
}

/// What a plugin takes out of the partitions of a hard disk from `idx` on.
pub open spec fn dry_partitions<P: SchemaPlugin>(
    plugin: &P,
    opened: OpenedImage,
    count: nat,
    idx: nat,
    path: Seq<char>,
    id: Seq<char>,
) -> Result<Seq<ExtractModel>, FsError>
    decreases count - idx,
{
    if idx >= count {
        Ok(Seq::empty())
    } else {
        let rest = dry_partitions(plugin, opened, count, idx + 1, path, id);
        match mounted_partition(opened, Some(idx as usize)) {
            Err(_) => rest,
            Ok(fs) => {
                let ctx = ContextModel {
                    image_path: path,
                    image_id: id,
                    partition: idx as usize,
                    fs,
                };
                if !plugin.detects(ctx) {
                    rest
                } else {
                    match plugin.extracts(ctx) {
                        Err(e) => Err(e),
                        Ok(x) => match rest {
                            Err(e) => Err(e),
                            Ok(more) => Ok(seq![x] + more),
                        },
                    }
                }
            },
        }
    }
}

/// What a plugin takes out of an image: one result for each partition that is one
/// of its own.
pub open spec fn dry_run<P: SchemaPlugin>(
    plugin: &P,
    opened: OpenedImage,
    path: Seq<char>,
    id: Seq<char>,
) -> Result<Seq<ExtractModel>, DryRunError> {
    match opened {
        OpenedImage::Floppy(_) => match mounted_partition(opened, None) {
            Err(e) => Err(DryRunError::Failed(e)),
            Ok(fs) => {
                let ctx = ContextModel { image_path: path, image_id: id, partition: 0, fs };
                if !plugin.detects(ctx) {
                    Err(DryRunError::NotDetected)
                } else {
                    match plugin.extracts(ctx) {
                        Err(e) => Err(DryRunError::Failed(e)),
                        Ok(x) => Ok(seq![x]),
                    }
                }
            },
        },
        OpenedImage::Hdd(h) => match dry_partitions(
            plugin,
            opened,
            h.places().len(),
            0,
            path,
            id,
        ) {
            Err(e) => Err(DryRunError::Failed(e)),
            Ok(v) => if v.len() == 0 {
                Err(DryRunError::NoPartitionDetected)
            } else {
                Ok(v)
            },
        },
    }
}

/// Runs a plugin on an image only to see what it takes out.
pub fn extract_one_image_dry<P: SchemaPlugin>(
    plugin: &P,
    opened: &OpenedImage,
    image_path: &str,
    image_id: &str,
) -> (r: Result<Vec<ExtractResult>, DryRunError>)
    ensures
        match r {
            Ok(v) => dry_run(plugin, *opened, image_path@, image_id@) == Ok::<
                Seq<ExtractModel>,
                DryRunError,
            >(result_models(v@)),
            Err(e) => dry_run(plugin, *opened, image_path@, image_id@) == Err::<
                Seq<ExtractModel>,
                DryRunError,
            >(e),
        },
{
    let mut out: Vec<ExtractResult> = Vec::new();
    match opened {
        OpenedImage::Floppy(_) => {
            let volume = match select_volume(opened, None) {
                Ok(v) => v,
                Err(e) => {
                    return Err(DryRunError::Failed(e));
                },
            };
            let fs = match mount(&volume) {
                Ok(fs) => fs,
                Err(e) => {
                    return Err(DryRunError::Failed(e));
                },
            };
            let ctx = ExtractContext { image_path, image_id, partition: 0, fs: &fs };
            if !plugin.detect(&ctx) {
                return Err(DryRunError::NotDetected);
            }
            match plugin.extract(&ctx) {
                Ok(x) => {
                    out.push(x);
                    assert(result_models(out@) =~= seq![x@]);
                    Ok(out)
                },
                Err(e) => Err(DryRunError::Failed(e)),
            }
        },
        OpenedImage::Hdd(h) => {
            let count: usize = h.partitions().len();
            let ghost all = dry_partitions(
                plugin,
                *opened,
                count as nat,
                0,
                image_path@,
                image_id@,
            );
            let mut idx: usize = 0;
            assert(result_models(out@) =~= Seq::empty());
            assert(all is Ok ==> result_models(out@) + all->Ok_0 =~= all->Ok_0);
            while idx < count
                invariant
                    idx <= count,
                    *opened == OpenedImage::Hdd(*h),
                    count == h.places().len(),
                    all == dry_partitions(
                        plugin,
                        *opened,
                        count as nat,
                        0,
                        image_path@,
                        image_id@,
                    ),
                    match dry_partitions(
                        plugin,
                        *opened,
                        count as nat,
                        idx as nat,
                        image_path@,
                        image_id@,
                    ) {
                        Err(e) => all == Err::<Seq<ExtractModel>, FsError>(e),
                        Ok(rest) => all == Ok::<Seq<ExtractModel>, FsError>(
                            result_models(out@) + rest,
                        ),
                    },
                decreases count - idx,
            {
                let ghost had = result_models(out@);
                let ghost later = dry_partitions(
                    plugin,
                    *opened,
                    count as nat,
                    (idx + 1) as nat,
                    image_path@,
                    image_id@,
                );
                if let Ok(volume) = select_volume(opened, Some(idx)) {
                    if let Ok(fs) = mount(&volume) {
                        let ctx = ExtractContext { image_path, image_id, partition: idx, fs: &fs };
                        if plugin.detect(&ctx) {
                            match plugin.extract(&ctx) {
                                Ok(x) => {
                                    out.push(x);
                                    assert(result_models(out@) =~= had.push(x@));
                                    assert(later is Ok ==> result_models(out@) + later->Ok_0
                                        =~= had + (seq![x@] + later->Ok_0));
                                },
                                Err(e) => {
                                    return Err(DryRunError::Failed(e));
                                },
                            }
                        }
                    }
                }
                idx = idx + 1;
            }
            assert(result_models(out@) + Seq::<ExtractModel>::empty() =~= result_models(out@));
            if out.len() == 0 {
                return Err(DryRunError::NoPartitionDetected);
            }
            Ok(out)
        },
    }
}

/// That a version of a plugin has read an image.
#[derive(Debug)]
pub struct ExtractedKey {
    pub plugin: String,
    pub version: u64,
    pub image_id: String,
}

/// That a version of a plugin has read an image, as a mathematical value.
pub struct KeyModel {
    pub plugin: Seq<char>,
    pub version: u64,
    pub image_id: Seq<char>,
}

impl View for ExtractedKey {
    type V = KeyModel;

    open spec fn view(&self) -> KeyModel {
        KeyModel { plugin: self.plugin@, version: self.version, image_id: self.image_id@ }
    }
}

/// Keys as mathematical values.
pub open spec fn key_models(v: Seq<ExtractedKey>) -> Seq<KeyModel> {
    Seq::new(v.len(), |i: int| v[i]@)
}

/// Which plugin has read which image, as a document of the index tells. A document
/// that no plugin made tells nothing; without a version it is version zero.
pub open spec fn document_key(doc: Seq<(Field, FieldModel)>) -> Option<KeyModel> {
    match (first_value(doc, Field::SchemaPlugin), first_value(doc, Field::ImageId)) {
        (Some(FieldModel::Text(plugin)), Some(FieldModel::Text(image_id))) => if plugin.len()
            == 0 {
            None
        } else {
            Some(
                KeyModel {
                    plugin,
                    version: match first_value(doc, Field::SchemaVersion) {
                        Some(FieldModel::U64(n)) => n,
                        _ => 0,
                    },
                    image_id,
                },
            )
        },
        _ => None,
    }
}

/// What the documents of an index tell, in their order.
pub open spec fn document_keys(docs: Seq<Seq<(Field, FieldModel)>>) -> Seq<KeyModel>
    decreases docs.len(),
{
    if docs.len() == 0 {
        Seq::empty()
    } else {
        let before = document_keys(docs.drop_last());
        match document_key(docs.last()) {
            Some(k) => before.push(k),
            None => before,
        }
    }
}

fn key_of_document(doc: &ArchiveDocument) -> (r: Option<ExtractedKey>)
    ensures
        match r {
            Some(k) => document_key(doc@) == Some(k@),
            None => document_key(doc@) is None,
        },
{
    let plugin: String = match doc.get_first(Field::SchemaPlugin) {
        Some(FieldValue::Text(s)) => s.clone(),
        _ => {
            return None;
        },
    };
    let image_id: String = match doc.get_first(Field::ImageId) {
        Some(FieldValue::Text(s)) => s.clone(),
        _ => {
            return None;
        },
    };
    if plugin.as_str().is_empty() {
        return None;
    }
    let version: u64 = match doc.get_first(Field::SchemaVersion) {
        Some(FieldValue::U64(n)) => *n,
        _ => 0,
    };
    Some(ExtractedKey { plugin, version, image_id })
}

/// Gathers which plugins have read which images from the documents of an index.
pub fn collect_extracted_keys(docs: &Vec<ArchiveDocument>) -> (r: Vec<ExtractedKey>)
    ensures
        key_models(r@) == document_keys(document_models(docs@)),
{
    let ghost all = document_models(docs@);
    let mut out: Vec<ExtractedKey> = Vec::new();
    let mut i: usize = 0;
    assert(key_models(out@) =~= document_keys(all.take(0)));
    while i < docs.len()
        invariant
            i <= docs@.len(),
            all == document_models(docs@),
            key_models(out@) == document_keys(all.take(i as int)),
        decreases docs@.len() - i,
    {
        let ghost before = key_models(out@);
        assert(all.take(i + 1).drop_last() =~= all.take(i as int));
        assert(all.take(i + 1).last() == docs@[i as int]@);
        if let Some(k) = key_of_document(&docs[i]) {
            out.push(k);
            assert(key_models(out@) =~= before.push(k@));
        }
        i = i + 1;
    }
    assert(all.take(i as int) =~= all);
    out
}

fn is_extracted(already: &Vec<ExtractedKey>, plugin: &str, version: u64, image_id: &str) -> (r:
    bool)
    ensures
        r == key_models(already@).contains(
            KeyModel { plugin: plugin@, version, image_id: image_id@ },
        ),
{
    let ghost wanted = KeyModel { plugin: plugin@, version, image_id: image_id@ };
    let mut i: usize = 0;
    while i < already.len()
        invariant
            i <= already@.len(),
            wanted == (KeyModel { plugin: plugin@, version, image_id: image_id@ }),
            forall|k: int| 0 <= k < i ==> key_models(already@)[k] != wanted,
        decreases already@.len() - i,
    {
        if already[i].version == version && same_text(already[i].plugin.as_str(), plugin)
            && same_text(already[i].image_id.as_str(), image_id) {
            assert(key_models(already@)[i as int] == wanted);
            return true;
        }
        i = i + 1;
    }
    false
}

/// What became of an image.
#[derive(Clone, Copy, Debug, PartialEq, Eq, Structural)]
pub enum ExtractDecision {
    /// It is one of no plugin's.
    NoPlugin,
    /// A plugin has read it before.
    AlreadyExtracted,
    /// The plugin with this number took so many records out of it.
    Extracted { plugin: usize, records: usize },
}

/// Whether a plugin is to be used.
pub open spec fn is_chosen(only: Option<Seq<char>>, name: Seq<char>) -> bool {
    match only {
        Some(n) => n == name,
        None => true,
    }
}

/// What trying plugins on an image comes to, as a mathematical value.
pub struct TrialModel {
    /// The records that go into the index.
    pub records: Seq<RecordModel>,
    /// What becomes of the image.
    pub decision: ExtractDecision,
    /// What the plugins had doubts about: the number of the plugin, that of the
    /// partition, and the doubt.
    pub warnings: Seq<(usize, usize, Seq<char>)>,
    /// The plugins that failed, with what went wrong.
    pub failures: Seq<(usize, FsError)>,
}

/// Warnings with the number of a plugin.
pub open spec fn doubts_of(plugin: usize, warnings: Seq<(usize, Seq<char>)>) -> Seq<
    (usize, usize, Seq<char>),
> {
    Seq::new(warnings.len(), |i: int| (plugin, warnings[i].0, warnings[i].1))
}

/// What trying the plugins from `i` on comes to. The first plugin that has read
/// the image before, or that takes it as its own, ends the trial. One that fails
/// does not, and leaves the records that it had.
pub open spec fn trial_from<P: SchemaPlugin>(
    plugins: Seq<P>,
    i: int,
    only: Option<Seq<char>>,
    already: Seq<KeyModel>,
    opened: OpenedImage,
    path: Seq<char>,
    id: Seq<char>,
) -> TrialModel
    decreases plugins.len() - i,
{
    let none = TrialModel {
        records: Seq::empty(),
        decision: ExtractDecision::NoPlugin,
        warnings: Seq::empty(),
        failures: Seq::empty(),
    };
    if !(0 <= i < plugins.len()) {
        none
    } else {
        let p = plugins[i];
        let rest = trial_from(plugins, i + 1, only, already, opened, path, id);
        let key = KeyModel { plugin: p.spec_name(), version: p.spec_version(), image_id: id };
        if !is_chosen(only, p.spec_name()) {
            rest
        } else if already.contains(key) {
            TrialModel { decision: ExtractDecision::AlreadyExtracted, ..none }
        } else {
            let run = image_run(&p, opened, path, id);
            let doubts = doubts_of(i as usize, run.warnings);
            match run.detected {
                Ok(true) => TrialModel {
                    records: run.records,
                    decision: ExtractDecision::Extracted {
                        plugin: i as usize,
                        records: run.records.len() as usize,
                    },
                    warnings: doubts,
                    failures: Seq::empty(),
                },
                Ok(false) => TrialModel {
                    records: run.records + rest.records,
                    decision: rest.decision,
                    warnings: doubts + rest.warnings,
                    failures: rest.failures,
                },
                Err(e) => TrialModel {
                    records: run.records + rest.records,
                    decision: rest.decision,
                    warnings: doubts + rest.warnings,
                    failures: seq![(i as usize, e)] + rest.failures,
                },
            }
        }
    }
}

/// What taking records out of an image comes to.
pub struct ImageExtraction {
    pub records: Vec<ExtractedRecord>,
    pub decision: ExtractDecision,
    /// What the plugins had doubts about: the number of the plugin, that of the
    /// partition, and the doubt.
    pub warnings: Vec<(usize, usize, String)>,
    /// The plugins that failed, with what went wrong.
    pub failures: Vec<(usize, FsError)>,
}

/// Doubts as mathematical values.
pub open spec fn doubt_models(v: Seq<(usize, usize, String)>) -> Seq<(usize, usize, Seq<char>)> {
    Seq::new(v.len(), |i: int| (v[i].0, v[i].1, v[i].2@))
}

impl View for ImageExtraction {
    type V = TrialModel;

    open spec fn view(&self) -> TrialModel {
        TrialModel {
            records: record_models(self.records@),
            decision: self.decision,
            warnings: doubt_models(self.warnings@),
            failures: self.failures@,
        }
    }
}

/// One trial after another.
spec fn trials(a: TrialModel, b: TrialModel) -> TrialModel {
    TrialModel {
        records: a.records + b.records,
        decision: b.decision,
        warnings: a.warnings + b.warnings,
        failures: a.failures + b.failures,
    }
}

fn add_doubts(out: &mut Vec<(usize, usize, String)>, plugin: usize, more: &Vec<(usize, String)>)
    ensures
        doubt_models(final(out)@) == doubt_models(old(out)@) + doubts_of(
            plugin,
            warning_models(more@),
        ),
{
    let ghost had = doubt_models(out@);
    let ghost all = doubts_of(plugin, warning_models(more@));
    let mut i: usize = 0;
    while i < more.len()
        invariant
            i <= more@.len(),
            all == doubts_of(plugin, warning_models(more@)),
            doubt_models(out@) =~= had + all.take(i as int),
        decreases more@.len() - i,
    {
        let ghost before = doubt_models(out@);
        let text: String = more[i].1.clone();
        out.push((plugin, more[i].0, text));
        assert(doubt_models(out@) =~= before.push((plugin, more@[i as int].0, text@)));
        i = i + 1;
    }
    assert(doubt_models(out@) =~= had + all);
}

/// Tries the plugins on an image, one after the other, until one takes it as its
/// own.
pub fn extract_image<P: SchemaPlugin>(
    plugins: &Vec<P>,
    only_plugin: &Option<String>,
    already: &Vec<ExtractedKey>,
    opened: &OpenedImage,
    image_path: &str,
    image_id: &str,
) -> (r: ImageExtraction)
    ensures
        r@ == trial_from(
            plugins@,
            0,
            opt_text(*only_plugin),
            key_models(already@),
            *opened,
            image_path@,
            image_id@,
        ),
{
    let ghost only = opt_text(*only_plugin);
    let ghost known = key_models(already@);
    let ghost all = trial_from(plugins@, 0, only, known, *opened, image_path@, image_id@);
    let mut so_far = ImageExtraction {
        records: Vec::new(),
        decision: ExtractDecision::NoPlugin,
        warnings: Vec::new(),
        failures: Vec::new(),
    };
    let mut i: usize = 0;
    proof {
        assert(so_far@.records + all.records =~= all.records);
        assert(so_far@.warnings + all.warnings =~= all.warnings);
        assert(so_far@.failures + all.failures =~= all.failures);
    }
    while i < plugins.len()
        invariant
            i <= plugins@.len(),
            only == opt_text(*only_plugin),
            known == key_models(already@),
            so_far.decision == ExtractDecision::NoPlugin,
            all == trials(
                so_far@,
                trial_from(plugins@, i as int, only, known, *opened, image_path@, image_id@),
            ),
            all == trial_from(plugins@, 0, only, known, *opened, image_path@, image_id@),
        decreases plugins@.len() - i,
    {
        let ghost had = so_far@;
        let ghost later = trial_from(
            plugins@,
            i + 1,
            only,
            known,
            *opened,
            image_path@,
            image_id@,
        );
        let plugin: &P = &plugins[i];
        let chosen: bool = match only_plugin {
            Some(n) => same_text(n.as_str(), plugin.name()),
            None => true,
        };
        if chosen {
            if is_extracted(already, plugin.name(), plugin.version(), image_id) {
                so_far.decision = ExtractDecision::AlreadyExtracted;
                proof {
                    assert(so_far@.records =~= all.records);
                    assert(so_far@.warnings =~= all.warnings);
                    assert(so_far@.failures =~= all.failures);
                }
                return so_far;
            }
            let mut run: PluginRun = try_extract_with_plugin(
                plugin,
                opened,
                image_path,
                image_id,
            );
            let ghost here = image_run(plugin, *opened, image_path@, image_id@);
            so_far.records.append(&mut run.records);
            add_doubts(&mut so_far.warnings, i, &run.warnings);
            let ghost doubts = doubts_of(i, here.warnings);
            proof {
                assert(so_far@.records =~= had.records + here.records);
                assert(so_far@.warnings =~= had.warnings + doubts);
            }
            match run.outcome {
                Ok(Some(n)) => {
                    so_far.decision = ExtractDecision::Extracted { plugin: i, records: n };
                    proof {
                        assert(so_far@.failures =~= all.failures);
                    }
                    return so_far;
                },
                Ok(None) => {
                    assert(so_far@.failures + later.failures =~= had.failures + later.failures);
                },
                Err(e) => {
                    so_far.failures.push((i, e));
                    assert(so_far@.failures + later.failures =~= had.failures + (seq![(i, e)]
                        + later.failures));
                },
            }
            proof {
                assert(so_far@.records + later.records =~= had.records + (here.records
                    + later.records));
                assert(so_far@.warnings + later.warnings =~= had.warnings + (doubts
                    + later.warnings));
            }
        }
        i = i + 1;
    }
    proof {
        assert(so_far@.records =~= all.records);
        assert(so_far@.warnings =~= all.warnings);
        assert(so_far@.failures =~= all.failures);
    }
    so_far
}

/// The document of a record tells which version of which plugin has read which
/// image, so that the image is not read by it again.
pub proof fn records_tell_their_plugin(r: RecordModel)
    requires
        r.schema_plugin.len() > 0,
    ensures
        document_key(record_document(r)) == Some(
            KeyModel {
                plugin: r.schema_plugin,
                version: r.schema_version,
                image_id: r.image_id,
            },
        ),
{
    let doc = record_document(r);
    first_value_at(doc, 3);
    first_value_at(doc, 10);
    first_value_at(doc, 11);
}

/// A field that no earlier value has is found where it stands.
pub proof fn first_value_at(doc: Seq<(Field, FieldModel)>, k: int)
    requires
        0 <= k < doc.len(),
        forall|i: int| 0 <= i < k ==> (#[trigger] doc[i]).0 != doc[k].0,
    ensures
        first_value(doc, doc[k].0) == Some(doc[k].1),
    decreases k,
{
    if k > 0 {
        let rest = doc.skip(1);
        assert forall|i: int| 0 <= i < k - 1 implies (#[trigger] rest[i]).0 != rest[k - 1].0 by {
            assert(rest[i] == doc[i + 1]);
        }
        first_value_at(rest, k - 1);
    }
}

/// What was done while records were taken out of an archive.
#[derive(Debug)]
pub struct ExtractStats {
    pub images_seen: usize,
    pub images_extracted: usize,
    pub images_skipped_extracted: usize,
    pub records_added: usize,
    pub warnings: usize,
    /// How many images each plugin has read, in the order of their names.
    pub by_plugin: Vec<(String, usize)>,
}

impl Default for ExtractStats {
    fn default() -> (r: Self)
        ensures
            r.images_seen == 0,
            r.images_extracted == 0,
            r.images_skipped_extracted == 0,
            r.records_added == 0,
            r.warnings == 0,
            r.by_plugin@.len() == 0,
    {
        ExtractStats {
            images_seen: 0,
            images_extracted: 0,
            images_skipped_extracted: 0,
            records_added: 0,
            warnings: 0,
            by_plugin: Vec::new(),
        }
    }
}

/// The counts of plugins as mathematical values.
pub open spec fn plugin_counts(v: Seq<(String, usize)>) -> Seq<(Seq<char>, nat)> {
    Seq::new(v.len(), |i: int| (v[i].0@, v[i].1 as nat))
}

/// Counts with one more for a plugin, from the `i`th on. A plugin that has no count
/// yet is put before the first one with a later name.
pub open spec fn counted_from(counts: Seq<(Seq<char>, nat)>, i: int, name: Seq<char>) -> Seq<
    (Seq<char>, nat),
>
    decreases counts.len() - i,
{
    if !(0 <= i < counts.len()) {
        counts.push((name, 1))
    } else if counts[i].0 == name {
        counts.update(i, (name, counts[i].1 + 1))
    } else if text_le(name, counts[i].0) {
        counts.insert(i, (name, 1))
    } else {
        counted_from(counts, i + 1, name)
    }
}

/// Whether counts are in the order of the names, each once.
pub open spec fn counts_in_order(counts: Seq<(Seq<char>, nat)>) -> bool {
    forall|i: int, j: int|
        0 <= i < j < counts.len() ==> text_le(
            (#[trigger] counts[i]).0,
            (#[trigger] counts[j]).0,
        ) && counts[i].0 != counts[j].0
}

proof fn counting_stays_in_order(counts: Seq<(Seq<char>, nat)>, i: int, name: Seq<char>)
    requires
        counts_in_order(counts),
        0 <= i <= counts.len(),
        forall|k: int|
            0 <= k < i ==> text_le((#[trigger] counts[k]).0, name) && counts[k].0 != name,
    ensures
        counts_in_order(counted_from(counts, i, name)),
    decreases counts.len() - i,
{
    if i < counts.len() && counts[i].0 != name {
        text_order_is_total(counts[i].0, name);
        if text_le(name, counts[i].0) {
            let now = counts.insert(i, (name, 1));
            assert forall|a: int, b: int| 0 <= a < b < now.len() implies text_le(
                (#[trigger] now[a]).0,
                (#[trigger] now[b]).0,
            ) && now[a].0 != now[b].0 by {
                if a == i {
                    assert(now[b] == counts[b - 1]);
                    if b - 1 > i {
                        text_order_is_transitive(name, counts[i].0, counts[b - 1].0);
                        text_order_is_total(counts[i].0, counts[b - 1].0);
                    }
                } else if b == i {
                    assert(now[a] == counts[a]);
                } else {
                    let x = if a < i {
                        a
                    } else {
                        a - 1
                    };
                    let y = if b < i {
                        b
                    } else {
                        b - 1
                    };
                    assert(now[a] == counts[x] && now[b] == counts[y]);
                }
            }
        } else {
            counting_stays_in_order(counts, i + 1, name);
        }
    }
}

/// What happened to an image.
pub enum ImageEvent {
    /// It could not be opened.
    Unreadable,
    /// It was decided on, with the name of the plugin that read it.
    Decided(ExtractDecision, Seq<char>),
}

/// Whether counts are those from before and one more image.
pub open spec fn counts_event(before: ExtractStats, event: ImageEvent, now: ExtractStats) -> bool {
    &&& now.images_seen == before.images_seen + 1
    &&& now.warnings == before.warnings
    &&& match event {
        ImageEvent::Decided(ExtractDecision::AlreadyExtracted, _) => {
            &&& now.images_extracted == before.images_extracted
            &&& now.images_skipped_extracted == before.images_skipped_extracted + 1
            &&& now.records_added == before.records_added
            &&& now.by_plugin@ == before.by_plugin@
        },
        ImageEvent::Decided(ExtractDecision::Extracted { records, .. }, plugin) => {
            &&& now.images_extracted == before.images_extracted + 1
            &&& now.images_skipped_extracted == before.images_skipped_extracted
            &&& now.records_added == before.records_added + records
            &&& plugin_counts(now.by_plugin@) == counted_from(
                plugin_counts(before.by_plugin@),
                0,
                plugin,
            )
        },
        _ => {
            &&& now.images_extracted == before.images_extracted
            &&& now.images_skipped_extracted == before.images_skipped_extracted
            &&& now.records_added == before.records_added
            &&& now.by_plugin@ == before.by_plugin@
        },
    }
}

/// The sum of the counts of all plugins.
pub open spec fn total_count(counts: Seq<(Seq<char>, nat)>) -> nat
    decreases counts.len(),
{
    if counts.len() == 0 {
        0
    } else {
        total_count(counts.drop_last()) + counts.last().1
    }
}

proof fn total_of_update(counts: Seq<(Seq<char>, nat)>, i: int, name: Seq<char>)
    requires
        0 <= i < counts.len(),
    ensures
        total_count(counts.update(i, (name, counts[i].1 + 1))) == total_count(counts) + 1,
    decreases counts.len(),
{
    let now = counts.update(i, (name, counts[i].1 + 1));
    if i == counts.len() - 1 {
        assert(now.drop_last() =~= counts.drop_last());
    } else {
        total_of_update(counts.drop_last(), i, name);
        assert(now.drop_last() =~= counts.drop_last().update(i, (name, counts[i].1 + 1)));
    }
}

proof fn total_of_insert(counts: Seq<(Seq<char>, nat)>, i: int, name: Seq<char>)
    requires
        0 <= i <= counts.len(),
    ensures
        total_count(counts.insert(i, (name, 1))) == total_count(counts) + 1,
    decreases counts.len(),
{
    let now = counts.insert(i, (name, 1));
    if i == counts.len() {
        assert(now.drop_last() =~= counts);
    } else {
        total_of_insert(counts.drop_last(), i, name);
        assert(now.drop_last() =~= counts.drop_last().insert(i, (name, 1)));
    }
}

proof fn counting_adds_one(counts: Seq<(Seq<char>, nat)>, i: int, name: Seq<char>)
    requires
        0 <= i,
    ensures
        total_count(counted_from(counts, i, name)) == total_count(counts) + 1,
    decreases counts.len() - i,
{
    if !(0 <= i < counts.len()) {
        assert(counts.push((name, 1)).drop_last() =~= counts);
    } else if counts[i].0 == name {
        total_of_update(counts, i, name);
    } else if text_le(name, counts[i].0) {
        total_of_insert(counts, i, name);
    } else {
        counting_adds_one(counts, i + 1, name);
    }
}

/// The counts of a whole run add up: all images were seen, those that were read or
/// passed over are among them, the counts of the plugins come to the number of
/// images that were read, and they are in the order of the names.
pub proof fn extraction_counts_add_up(stats: Seq<ExtractStats>, events: Seq<ImageEvent>)
    requires
        stats.len() == events.len() + 1,
        stats[0].images_seen == 0,
        stats[0].images_extracted == 0,
        stats[0].images_skipped_extracted == 0,
        stats[0].by_plugin@.len() == 0,
        forall|i: int|
            0 <= i < events.len() ==> counts_event(stats[i], #[trigger] events[i], stats[i + 1]),
    ensures
        stats.last().images_seen == events.len(),
        stats.last().images_extracted + stats.last().images_skipped_extracted
            <= stats.last().images_seen,
        stats.last().images_extracted == total_count(plugin_counts(stats.last().by_plugin@)),
        counts_in_order(plugin_counts(stats.last().by_plugin@)),
    decreases events.len(),
{
    if events.len() > 0 {
        let n = events.len() - 1;
        let before = stats.drop_last();
        let head = events.drop_last();
        assert forall|i: int| 0 <= i < head.len() implies counts_event(
            before[i],
            #[trigger] head[i],
            before[i + 1],
        ) by {
            assert(head[i] == events[i]);
        }
        extraction_counts_add_up(before, head);
        assert(counts_event(stats[n], events[n], stats[n + 1]));
        if let ImageEvent::Decided(_, plugin) = events[n] {
            counting_adds_one(plugin_counts(stats[n].by_plugin@), 0, plugin);
            counting_stays_in_order(plugin_counts(stats[n].by_plugin@), 0, plugin);
        }
    }
}

impl ExtractStats {
    /// Whether one more image can be counted.
    pub open spec fn has_room(&self) -> bool {
        &&& self.images_seen < usize::MAX
        &&& self.images_extracted < usize::MAX
        &&& self.images_skipped_extracted < usize::MAX
        &&& forall|i: int|
            0 <= i < self.by_plugin@.len() ==> (#[trigger] self.by_plugin@[i]).1 < usize::MAX
    }

    /// Counts an image that could not be opened.
    pub fn record_unreadable(&mut self)
        requires
            old(self).has_room(),
        ensures
            counts_event(*old(self), ImageEvent::Unreadable, *final(self)),
    {
        self.images_seen = self.images_seen + 1;
    }

    /// Counts an image, with the name of the plugin that read it.
    pub fn record(&mut self, decision: ExtractDecision, plugin: &str)
        requires
            old(self).has_room(),
            decision matches ExtractDecision::Extracted { records, .. } ==> old(self).records_added
                + records <= usize::MAX,
        ensures
            counts_event(*old(self), ImageEvent::Decided(decision, plugin@), *final(self)),
    {
        self.images_seen = self.images_seen + 1;
        match decision {
            ExtractDecision::NoPlugin => {},
            ExtractDecision::AlreadyExtracted => {
                self.images_skipped_extracted = self.images_skipped_extracted + 1;
            },
            ExtractDecision::Extracted { records, .. } => {
                self.images_extracted = self.images_extracted + 1;
                self.records_added = self.records_added + records;
                count_plugin(&mut self.by_plugin, plugin);
            },
        }
    }
}

fn count_plugin(counts: &mut Vec<(String, usize)>, plugin: &str)
    requires
        forall|i: int| 0 <= i < old(counts)@.len() ==> (#[trigger] old(counts)@[i]).1 < usize::MAX,
    ensures
        plugin_counts(final(counts)@) == counted_from(plugin_counts(old(counts)@), 0, plugin@),
{
    let ghost before = plugin_counts(counts@);
    let ghost had = counts@;
    let mut i: usize = 0;
    while i < counts.len()
        invariant
            i <= counts@.len(),
            counts@ == had,
            had == old(counts)@,
            before == plugin_counts(had),
            forall|k: int| 0 <= k < had.len() ==> (#[trigger] had[k]).1 < usize::MAX,
            counted_from(before, 0, plugin@) == counted_from(before, i as int, plugin@),
        decreases counts@.len() - i,
    {
        if same_text(counts[i].0.as_str(), plugin) {
            let entry: (String, usize) = counts.remove(i);
            assert(entry == had[i as int]);
            let more: (String, usize) = (entry.0, entry.1 + 1);
            counts.insert(i, more);
            assert(plugin_counts(counts@) =~= before.update(
                i as int,
                (plugin@, before[i as int].1 + 1),
            ));
            return;
        }
        if comes_first(plugin, counts[i].0.as_str()) {
            counts.insert(i, (plugin.to_owned(), 1));
            assert(plugin_counts(counts@) =~= before.insert(i as int, (plugin@, 1)));
            return;
        }
        i = i + 1;
    }
    counts.push((plugin.to_owned(), 1));
    assert(plugin_counts(counts@) =~= before.push((plugin@, 1)));
}

} // verus!
