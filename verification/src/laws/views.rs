//! What stands for a value in the contracts is made of its fields as they are.

use crate::dennou::{DocHeader, HeaderState, LineMatches, MokujiHint, MokujiHints, Submitter};
use crate::direntry::{entry_models, DirEntry};
use crate::document::{document_models, ArchiveDocument, DocFields, FieldModel, FieldValue};
use crate::extract::{key_models, record_models, ExtractContext, ExtractedKey, ExtractedRecord,
    ImageExtraction};
use crate::fat::{Fat, FatKind};
use crate::fs::Filesystem;
use crate::grouping::{image_models, ImageFile, Placement, PlacementModel, ResolvedGroup};
use crate::hdd::PartitionInfo;
use crate::image::DiskImage;
use crate::json::{json_model, Json, JsonModel, Member};
use crate::listing::DirListing;
use crate::metadata::{row_texts, ClauseModel, QueryClause, RowExtracted};
use crate::partition::Partition;
use crate::path::opt_text;
use crate::pattern::match_model;
use crate::searcher::Hit;
use crate::spec::ImageSpec;
use crate::summarizer::{listing_models, Gathered, ImageSnapshot};
use crate::text::texts;
use crate::walker::{visited_models, Visited};
use vstd::prelude::*;

verus! {

/// Lists stand for the lists of what their elements stand for.
pub proof fn lists_stand_for_their_elements(
    strings: Seq<String>,
    entries: Seq<DirEntry>,
    documents: Seq<ArchiveDocument>,
    records: Seq<ExtractedRecord>,
    keys: Seq<ExtractedKey>,
    images: Seq<ImageFile>,
    visited: Seq<Visited>,
    rows: Seq<Vec<String>>,
    files: Seq<(String, u64)>,
    i: int,
)
    ensures
        texts(strings).len() == strings.len(),
        0 <= i < strings.len() ==> texts(strings)[i] == strings[i]@,
        entry_models(entries).len() == entries.len(),
        0 <= i < entries.len() ==> entry_models(entries)[i] == entries[i]@,
        document_models(documents).len() == documents.len(),
        0 <= i < documents.len() ==> document_models(documents)[i] == documents[i]@,
        record_models(records).len() == records.len(),
        0 <= i < records.len() ==> record_models(records)[i] == records[i]@,
        key_models(keys).len() == keys.len(),
        0 <= i < keys.len() ==> key_models(keys)[i].plugin == keys[i].plugin@ && key_models(
            keys,
        )[i].version == keys[i].version && key_models(keys)[i].image_id == keys[i].image_id@,
        image_models(images).len() == images.len(),
        0 <= i < images.len() ==> image_models(images)[i].path == images[i].path@ && image_models(
            images,
        )[i].image_id == images[i].image_id@,
        visited_models(visited).len() == visited.len(),
        0 <= i < visited.len() ==> visited_models(visited)[i] == (
            visited[i].path@,
            visited[i].entry@,
        ),
        row_texts(rows).len() == rows.len(),
        0 <= i < rows.len() ==> row_texts(rows)[i] == texts(rows[i]@),
        listing_models(files).len() == files.len(),
        0 <= i < files.len() ==> listing_models(files)[i] == (files[i].0@, files[i].1),
{
}

/// Entries of directories, partitions and places stand for their fields.
pub proof fn entries_stand_for_their_fields(e: DirEntry, p: Partition, q: PartitionInfo)
    ensures
        e@.kind == e.kind,
        e@.name == e.name@,
        e@.ext == e.ext@,
        e@.attr == e.attr,
        e@.start_cluster == e.start_cluster,
        e@.size == e.size,
        e@.date_raw == e.date_raw,
        e@.time_raw == e.time_raw,
        p@.name == p.name@,
        p@.start_sector == p.start_sector,
        p@.length_sectors == p.length_sectors,
        q@.name == q.name@,
        q@.phys_start == q.phys_start,
        q@.phys_count == q.phys_count,
{
}

/// A mounted disk stands for its sectors, its parameter block and its FAT.
pub proof fn disks_stand_for_their_parts<D: DiskImage>(fs: Filesystem<D>)
    ensures
        fs@.sectors == fs.image.sectors(),
        fs@.sector_bytes == fs.image.sector_bytes(),
        fs@.bpb == fs.bpb,
        fs@.fat == fs.fat@,
        fs@.ratio == fs.phys_per_logi,
        fs.fat matches Fat::Fat12(f) ==> fs.fat@ == (FatKind::Fat12, f@),
        fs.fat matches Fat::Fat16(f) ==> fs.fat@ == (FatKind::Fat16, f@),
{
}

/// Documents stand for their fields and values.
pub proof fn documents_stand_for_their_values(
    d: ArchiveDocument,
    v: FieldValue,
    f: DocFields,
    i: int,
)
    ensures
        d@.len() == d.values@.len(),
        0 <= i < d.values@.len() ==> d@[i] == (d.values@[i].0, d.values@[i].1@),
        v matches FieldValue::Text(s) ==> v@ == FieldModel::Text(s@),
        v matches FieldValue::U64(n) ==> v@ == FieldModel::U64(n),
        v matches FieldValue::I64(n) ==> v@ == FieldModel::I64(n),
        v matches FieldValue::Facet(s) ==> v@ == FieldModel::Facet(s@),
        v matches FieldValue::Json(j) ==> v@ == FieldModel::Json(j@),
        f@.image_path == f.image_path@,
        f@.image_id == f.image_id@,
        f@.partition == f.partition,
        f@.file_path == f.file_path@,
        f@.file_name == f.file_name@,
        f@.ext == f.ext@,
        f@.size == f.size,
        f@.mtime_unix == f.mtime_unix,
        f@.attr == f.attr@,
        f.body matches Some(s) ==> f@.body == Some(s@),
        f.body is None ==> f@.body is None,
        f.excerpt matches Some(s) ==> f@.excerpt == Some(s@),
        f.excerpt is None ==> f@.excerpt is None,
{
}

/// Structured values stand for what they are made of.
pub proof fn structured_values_stand_for_their_parts(
    j: Json,
    items: Vec<Json>,
    members: Vec<Member>,
    i: int,
)
    ensures
        j matches Json::Text(s) ==> j@ == JsonModel::Text(s@),
        j matches Json::Unsigned(n) ==> j@ == JsonModel::Unsigned(n),
        j matches Json::Signed(n) ==> j@ == JsonModel::Signed(n),
        j matches Json::Bool(b) ==> j@ == JsonModel::Bool(b),
        j matches Json::Decimal(s) ==> j@ == JsonModel::Decimal(s@),
        j is Null ==> j@ is Null,
        Json::Array(items)@ is Array,
        Json::Array(items)@->Array_0.len() == items@.len(),
        0 <= i < items@.len() ==> Json::Array(items)@->Array_0[i] == items@[i]@,
        Json::Object(members)@ is Object,
        Json::Object(members)@->Object_0.len() == members@.len(),
        0 <= i < members@.len() ==> Json::Object(members)@->Object_0[i] == (
            members@[i].name@,
            members@[i].value@,
        ),
{
    reveal_with_fuel(json_model, 2);
}

/// Records and what is known of them stand for their fields.
pub proof fn records_stand_for_their_fields(
    r: ExtractedRecord,
    c: ExtractContext,
    x: ImageExtraction,
    i: int,
)
    ensures
        r@.unique_id == r.unique_id@,
        r@.category == r.category@,
        r@.source_path == r.source_path@,
        r@.image_path == r.image_path@,
        r@.image_id == r.image_id@,
        r@.partition == r.partition,
        r@.issue_no == r.issue_no,
        r@.issue_kind == r.issue_kind@,
        r@.issue_role == r.issue_role@,
        r@.location_facet == r.location_facet@,
        r@.payload == r.payload@,
        r@.schema_plugin == r.schema_plugin@,
        r@.schema_version == r.schema_version,
        c@.image_path == c.image_path@,
        c@.image_id == c.image_id@,
        c@.partition == c.partition,
        c@.fs == c.fs@,
        x@.records == record_models(x.records@),
        x@.decision == x.decision,
        x@.failures == x.failures@,
        x@.warnings.len() == x.warnings@.len(),
        0 <= i < x.warnings@.len() ==> x@.warnings[i] == (
            x.warnings@[i].0,
            x.warnings@[i].1,
            x.warnings@[i].2@,
        ),
{
}

/// What the documents of the magazine tell stands for its fields.
pub proof fn headers_stand_for_their_fields(
    h: DocHeader,
    st: HeaderState,
    m: LineMatches,
    s: Submitter,
    t: MokujiHint,
    all: MokujiHints,
    c: Vec<Option<String>>,
    i: int,
)
    ensures
        h@.title == opt_text(h.title),
        h@.original_artist == opt_text(h.original_artist),
        h@.composer == opt_text(h.composer),
        h@.arranger == opt_text(h.arranger),
        h@.engine == opt_text(h.engine),
        h@.duration == opt_text(h.duration),
        st@.composer == opt_text(st.composer),
        st@.arranger == opt_text(st.arranger),
        st@.engine == opt_text(st.engine),
        st@.duration == opt_text(st.duration),
        st@.candidates == texts(st.candidates@),
        m@.composer == match_model(m.composer),
        m@.arranger == match_model(m.arranger),
        m@.engine == match_model(m.engine),
        m@.duration == match_model(m.duration),
        s@.name == s.name@,
        s@.pref == s.pref@,
        t@.jasrac_note == opt_text(t.jasrac_note),
        t.submitter matches Some(x) ==> t@.submitter == Some(x@),
        t.submitter is None ==> t@.submitter is None,
        all@.len() == all.entries@.len(),
        0 <= i < all.entries@.len() ==> all@[i] == (all.entries@[i].0@, all.entries@[i].1@),
        match_model(Some(c)) is Some,
        match_model(None) is None,
        match_model(Some(c))->0.len() == c@.len(),
        0 <= i < c@.len() ==> match_model(Some(c))->0[i] == opt_text(c@[i]),
{
}

/// A text that may be missing stands for itself.
pub proof fn texts_stand_for_themselves(s: String)
    ensures
        opt_text(Some(s)) == Some(s@),
        opt_text(None) is None,
{
}

/// Rows, hits and conditions stand for their fields.
pub proof fn rows_stand_for_their_fields(r: RowExtracted, h: Hit, q: QueryClause)
    ensures
        r@.image_path == r.image_path@,
        r@.source_path == r.source_path@,
        r@.issue_no == r.issue_no,
        r@.issue_kind == r.issue_kind@,
        r@.payload == r.payload@,
        h@.image_path == h.image_path@,
        h@.image_id == h.image_id@,
        h@.partition == h.partition,
        h@.file_path == h.file_path@,
        h@.file_name == h.file_name@,
        h@.ext == h.ext@,
        h@.size == h.size,
        h@.mtime == h.mtime,
        h@.excerpt == h.excerpt@,
        q matches QueryClause::Term(f, s) ==> q@ == ClauseModel::Term(f, s@),
        q matches QueryClause::Range(f, a, b) ==> q@ == ClauseModel::Range(f, a, b),
{
}

/// Groups, places, listings and specifications stand for their fields.
pub proof fn groups_stand_for_their_fields(
    g: ResolvedGroup,
    p: Placement,
    d: DirListing,
    s: ImageSpec,
)
    ensures
        g@.id == g.id@,
        g@.origin == g.origin@,
        g@.members == texts(g.members@),
        p is Solo ==> p@ is Solo,
        p matches Placement::Manual(id) ==> p@ == PlacementModel::Manual(id@),
        p matches Placement::Rule(name, key) ==> p@ == PlacementModel::Rule(name@, key@),
        p is DefaultSolo ==> p@ is DefaultSolo,
        d@.path == d.path@,
        d@.entries == entry_models(d.entries@),
        s@.path == s.path@,
        s@.partition == s.partition,
        s@.inner_path == s.inner_path@,
{
}

/// What the model is shown stands for its fields.
pub proof fn snapshots_stand_for_their_fields(s: ImageSnapshot, g: Gathered)
    ensures
        s@.format == s.format,
        s@.total_size == s.total_size,
        s@.file_count == s.file_count,
        s@.listing == listing_models(s.listing@),
        s@.volume_label == opt_text(s.volume_label),
        s.main_text matches Some(t) ==> s@.main_text == Some((t.0@, t.1@)),
        s.main_text is None ==> s@.main_text is None,
        g@.listing == listing_models(g.listing@),
        g@.file_count == g.file_count,
        g@.volume_label == opt_text(g.volume_label),
        g.best matches Some(b) ==> g@.best == Some((b.0@, b.1, b.2@)),
        g.best is None ==> g@.best is None,
{
}

} // verus!
