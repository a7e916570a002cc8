//! What callers get from the functions that decide.

use crate::anthropic::{answer_text, completion, CompletionResult, ContentBlock};
use crate::builder::{index_image, BuildOpts, ImageOutcome, IndexedImage};
use crate::digest::{sha1_digest, short_hex};
use crate::direntry::DirEntry;
use crate::document::{document_models, ArchiveDocument, FieldModel};
use crate::error::FsError;
use crate::fat::fat_chain;
use crate::fs::Filesystem;
use crate::grouping::{GroupConfig, GroupConfigError, GroupConfigRaw, ResolvedGroup};
use crate::hdd::HddImage;
use crate::image::DiskImage;
use crate::laws::disks::{byte_of_chain, cluster_length, disk_byte,
    files_are_read_from_their_clusters};
use crate::laws::images::partitions_lie_where_the_table_says;
use crate::laws::index::white_space_is_no_query;
use crate::laws::tables::{cell_holds, columns_have_their_names,
    tables_have_the_rows_that_are_asked_for};
use crate::laws::texts::all_white;
use crate::metadata::{pass_post_filters, row_texts, rows_passing, run_query, MetadataFilters,
    QueryOpts, QueryResult, RowExtracted};
use crate::partition::partitions_from;
use crate::path::opt_text;
use crate::schema::{has_name, Field};
use crate::searcher::{build_query, NothingToSearch, SearchOpts, SearchPlan};
use crate::summarizer::{finish_summary, group_action, parse_summary_json, AnswerError,
    GroupAction, ParsedSummary, SummarizeOpts};
use crate::summary::{ImageSummary, MemberInfo, UsageInfo};
use crate::text::{lowered, texts, uppered};
use vstd::prelude::*;

verus! {

/// A group that has a summary, or an image of which is in one, is passed over, unless its
/// summary is to be made anew. Otherwise the limit of cost decides whether it is summarized.
pub proof fn groups_with_summaries_are_passed_over(
    force: bool,
    has_summary: bool,
    covered: &Vec<bool>,
    over_budget: bool,
    r: GroupAction,
)
    requires
        call_ensures(group_action, (force, has_summary, covered, over_budget), r),
    ensures
        force ==> r == (if over_budget {
            GroupAction::Stop
        } else {
            GroupAction::Summarize
        }),
        !force && has_summary ==> r == GroupAction::Skip,
        !force && covered@.contains(true) ==> r == GroupAction::Skip,
        !force && !has_summary && (forall|i: int|
            0 <= i < covered@.len() ==> !(#[trigger] covered@[i])) ==> r == (if over_budget {
            GroupAction::Stop
        } else {
            GroupAction::Summarize
        }),
{
}

/// The date and the time of an entry, as they are packed: the year from 1980 on, the month and
/// the day; the hour, the minute and every other second.
pub proof fn dates_and_times_are_packed(e: &DirEntry, date: (u16, u8, u8), time: (u8, u8, u8))
    requires
        call_ensures(DirEntry::date, (e,), date),
        call_ensures(DirEntry::time, (e,), time),
    ensures
        e@.date_raw == (date.0 - 1980) * 512 + date.1 * 32 + date.2,
        0 <= date.1 < 16,
        0 <= date.2 < 32,
        e@.time_raw == time.0 * 2048 + time.1 * 32 + time.2 / 2,
        0 <= time.1 < 64,
        0 <= time.2 < 64,
        time.2 % 2 == 0,
{
}

/// What the model says is taken as it is, or else what stands between braces in it. Without
/// either it is no structured value, and one whose summary is all white space is refused.
pub proof fn answers_need_a_summary(
    direct: Option<ParsedSummary>,
    salvaged: Option<ParsedSummary>,
    p: ParsedSummary,
    r: Result<ParsedSummary, AnswerError>,
)
    requires
        call_ensures(parse_summary_json, (direct, salvaged), r),
    ensures
        direct is None && salvaged is None ==> r == Err::<ParsedSummary, AnswerError>(
            AnswerError::NotJson,
        ),
        direct == Some(p) || (direct is None && salvaged == Some(p)) ==> {
            &&& all_white(p.summary@) ==> r == Err::<ParsedSummary, AnswerError>(
                AnswerError::EmptySummary,
            )
            &&& !all_white(p.summary@) ==> r == Ok::<ParsedSummary, AnswerError>(p)
        },
{
    white_space_is_no_query(p.summary@);
}

/// A summary bears the name and origin of its group, tells of its first image, and keeps what
/// the model answered and how it was asked.
pub proof fn summaries_keep_what_was_answered(
    group: &ResolvedGroup,
    members: Vec<MemberInfo>,
    answer: ParsedSummary,
    usage: Option<UsageInfo>,
    summarized_at: &str,
    opts: &SummarizeOpts,
    r: ImageSummary,
)
    requires
        members@.len() > 0,
        call_ensures(finish_summary, (group, members, answer, usage, summarized_at, opts), r),
    ensures
        r.image_id@ == group.id@,
        r.origin@ == group.origin@,
        r.image_path@ == members@[0].image_path@,
        r.format@ == members@[0].format@,
        r.size == members@[0].size,
        r.file_count == members@[0].file_count,
        r.members@ == members@,
        r.summarized_at@ == summarized_at@,
        r.model@ == opts.model@,
        r.lang@ == opts.lang@,
        r.summary@ == answer.summary@,
        r.categories@ == answer.categories@,
        r.topics@ == answer.topics@,
        r.highlights@ == answer.highlights@,
        r.usage == usage,
{
}

/// A search has the query as it was given, unless that is all white space, the extensions in
/// capitals, and the limit. One with neither a query nor an extension is refused.
pub proof fn searches_are_planned_as_asked(
    opts: &SearchOpts,
    r: Result<SearchPlan, NothingToSearch>,
    i: int,
)
    requires
        call_ensures(build_query, (opts,), r),
    ensures
        r is Err <==> all_white(opts.query@) && opts.ext@.len() == 0,
        r matches Ok(plan) ==> {
            &&& opt_text(plan.query) == if all_white(opts.query@) {
                None
            } else {
                Some(opts.query@)
            }
            &&& plan.limit == opts.limit
            &&& plan.ext@.len() == opts.ext@.len()
            &&& 0 <= i < opts.ext@.len() ==> plan.ext@[i]@ == uppered(opts.ext@[i]@)
        },
{
    white_space_is_no_query(opts.query@);
    if r is Ok {
        let plan = r->Ok_0;
        assert(texts(plan.ext@).len() == plan.ext@.len());
        if 0 <= i < opts.ext@.len() {
            assert(texts(plan.ext@)[i] == uppered(texts(opts.ext@)[i]));
        }
    }
}

/// An image bears the hash of its bytes. One that is in the index under that name is passed
/// over; any other is counted with its documents, or fails.
pub proof fn images_are_indexed_once(
    path: &str,
    bytes: &[u8],
    existing: &Vec<String>,
    opts: &BuildOpts,
    r: IndexedImage,
)
    requires
        call_ensures(index_image, (path, bytes, existing, opts), r),
    ensures
        r.image_id@ == short_hex(sha1_digest(bytes@)),
        r.outcome is Skipped <==> has_name(existing@, short_hex(sha1_digest(bytes@))),
        r.outcome is Skipped ==> r.documents@.len() == 0,
        r.outcome matches ImageOutcome::Indexed(n) ==> n == r.documents@.len(),
{
}

/// A configuration keeps its rules and listings as they were written, and its extensions in
/// small letters.
pub proof fn configurations_are_kept(
    raw: GroupConfigRaw,
    r: Result<GroupConfig, GroupConfigError>,
    cfg: GroupConfig,
    i: int,
)
    requires
        call_ensures(GroupConfig::from_raw, (raw,), r),
        r == Ok::<GroupConfig, GroupConfigError>(cfg),
    ensures
        cfg.rules@.len() == raw.rules@.len(),
        0 <= i < raw.rules@.len() ==> cfg.rules@[i].name@ == raw.rules@[i].name@
            && cfg.rules@[i].pattern@ == raw.rules@[i].pattern@,
        cfg.solo_extensions@.len() == raw.solo_extensions@.len(),
        0 <= i < raw.solo_extensions@.len() ==> cfg.solo_extensions@[i]@ == lowered(
            raw.solo_extensions@[i]@,
        ),
        cfg.manual_groups@ == raw.manual_groups@,
{
}

/// A table has twelve columns, tells how many rows it has, and has at most as many as are
/// asked for. It is cut short where the index may hold more documents than it gave.
pub proof fn tables_tell_their_size(
    docs: &Vec<ArchiveDocument>,
    opts: &QueryOpts,
    r: QueryResult,
)
    requires
        1 <= opts.limit <= 50_000,
        call_ensures(run_query, (docs, opts), r),
    ensures
        r.columns@.len() == 12,
        r.columns@[2]@ == "title"@,
        r.row_count == r.rows@.len(),
        r.row_count <= opts.limit,
        docs@.len() >= 50_000 || docs@.len() >= 4 * opts.limit ==> r.truncated,
        docs@.len() <= opts.limit && docs@.len() < 50_000 ==> !r.truncated,
{
    columns_have_their_names();
    assert(texts(r.columns@).len() == r.columns@.len());
    assert(texts(r.columns@)[2] == r.columns@[2]@);
    assert(row_texts(r.rows@).len() == r.rows@.len());
    tables_have_the_rows_that_are_asked_for(
        document_models(docs@),
        *opts,
    );
    rows_come_of_documents(document_models(docs@), opts.filters);
}

proof fn rows_come_of_documents(
    docs: Seq<Seq<(Field, FieldModel)>>,
    f: MetadataFilters,
)
    ensures
        rows_passing(docs, f).len() <= docs.len(),
    decreases docs.len(),
{
    if docs.len() > 0 {
        rows_come_of_documents(docs.drop_last(), f);
    }
}

/// Each filter looks at the value that bears its name.
pub proof fn filters_look_at_their_values(row: &RowExtracted, f: &MetadataFilters, r: bool)
    requires
        call_ensures(pass_post_filters, (row, f), r),
        row.payload@.dom().contains("title"@),
        row.payload@.dom().contains("submitter"@),
        row.payload@.dom().contains("engine"@),
    ensures
        r <==> cell_holds(row.payload@["title"@], f.title_contains) && cell_holds(
            row.payload@["submitter"@],
            f.submitter_contains,
        ) && cell_holds(row.payload@["engine"@], f.engine_contains),
{
}

/// An answer has the text of its blocks and the tokens that were counted; without any text it
/// is none.
pub proof fn answers_have_text_and_tokens(
    blocks: &Vec<ContentBlock>,
    input: u64,
    output: u64,
    r: Option<CompletionResult>,
)
    requires
        call_ensures(completion, (blocks, input, output), r),
    ensures
        r is None <==> answer_text(blocks@, blocks@.len() as int).len() == 0,
        r matches Some(c) ==> c.text@ == answer_text(blocks@, blocks@.len() as int)
            && c.input_tokens == input && c.output_tokens == output,
{
}

/// What is read of a file are the bytes of its clusters on the disk, in the order of its
/// chain and up to its size. A directory is not read as a file.
pub proof fn what_is_read_are_bytes_of_the_disk<D: DiskImage>(
    fs: &Filesystem<D>,
    entry: &DirEntry,
    r: Result<Vec<u8>, FsError>,
)
    requires
        fs.valid(),
        fs@.valid(),
        call_ensures(Filesystem::<D>::read_file, (fs, entry), r),
    ensures
        entry@.attr.bits & 0x10 == 0x10 ==> r is Err,
        r matches Ok(data) ==> {
            let chain = fat_chain(fs@.fat, entry@.start_cluster);
            let whole = chain.len() * cluster_length(fs@.bpb);
            &&& data@.len() == if entry@.size <= whole {
                entry@.size as int
            } else {
                whole
            }
            &&& forall|n: int|
                0 <= n < data@.len() ==> #[trigger] data@[n] == disk_byte(
                    fs@,
                    byte_of_chain(fs@.bpb, chain, n),
                )
        },
{
    files_are_read_from_their_clusters(fs@, entry@);
}

/// A partition of an opened hard disk starts where its table says and has the length that it
/// says, in units of 1024 bytes with sectors of 512 and of 256 bytes with sectors of 256.
pub proof fn opened_disks_have_the_partitions_of_their_table<'a>(
    data: &'a [u8],
    large: Result<HddImage<'a>, FsError>,
    small: Result<HddImage<'a>, FsError>,
    i: int,
)
    requires
        call_ensures(HddImage::open_hds, (data,), large),
        call_ensures(HddImage::open_hdf, (data,), small),
    ensures
        large matches Ok(h) ==> {
            let area = data@.subrange(
                2048,
                if data@.len() < 3072 {
                    data@.len() as int
                } else {
                    3072
                },
            );
            let entries = partitions_from(area, 0);
            &&& h.places().len() == entries.len()
            &&& 0 <= i < entries.len() ==> h.places()[i].phys_start * 512 == entries[i].start_sector
                * 1024 && h.places()[i].phys_count * 512 == entries[i].length_sectors * 1024
        },
        small matches Ok(h) ==> {
            let area = data@.subrange(
                1024,
                if data@.len() < 2048 {
                    data@.len() as int
                } else {
                    2048
                },
            );
            let entries = partitions_from(area, 0);
            &&& h.places().len() == entries.len()
            &&& 0 <= i < entries.len() ==> h.places()[i].phys_start * 256 == entries[i].start_sector
                * 256 && h.places()[i].phys_count * 256 == entries[i].length_sectors * 256
        },
{
    partitions_lie_where_the_table_says(data@, 512);
    partitions_lie_where_the_table_says(data@, 256);
}

} // verus!
