//! How images are found, named, counted and asked for.

use crate::builder::{all_belong_to, counts_image, document_image, host_directory, image_path,
    is_found, path_in_search, without_end_slashes, BuildStats, ImageOutcome};
use crate::digest::{sha1_digest, short_hash, short_hex};
use crate::direntry::DirEntryModel;
use crate::document::{excerpt_is_longest_prefix, excerpt_of, first_value, FieldModel};
use crate::error::FsError;
use crate::extract::{counted_from, counts_event, document_key, document_keys, dry_partitions,
    dry_run, image_run, partition_run, partitions_run, plugin_counts, short_id, trial_from,
    ContextModel, DryRunError, ExtractDecision, ExtractModel, ExtractStats, ImageEvent,
    KeyModel, SchemaPlugin};
use crate::fs::DiskModel;
use crate::grouping::ImageModel;
use crate::image::{ImageKind, OpenedImage};
use crate::laws::archives::paths_are_seen_from_above;
use crate::laws::layout::full_name;
use crate::laws::texts::{paths_are_names_between_slashes, the_last_place_is_found};
use crate::laws::walks::is_met;
use crate::listing::{listed_below, listed_of, listed_tree, DirListingModel};
use crate::lzh::capped_sum;
use crate::metadata::{csv_line, csv_text, doubled, order_named, quoted, signed_decimal,
    OrderBy};
use crate::partition::named_human68k;
use crate::path::{file_name_of, is_rooted, path_le, rfind_char, steps_le, steps_of};
use crate::schema::{field_table, has_name, Field, FieldSpec, FieldType};
use crate::searcher::upper_all;
use crate::spec::{mounted_partition, separator_from, spec_of, spec_round_trip, ImageSpecModel};
use crate::summarizer::{after_first_line, are_infos_of, capped_count, counts_group, dry_title,
    first_of, is_info_of, names_of, shown_text, tokens_in, GroupOutcome, SnapshotModel,
    SummarizeStats};
use crate::summary::{followed, MemberInfo, UsageInfo};
use crate::text::{components, components_ignore_leading_slash, decimal, find_char,
    find_char_is_first, is_number, joined_texts, number_value, text_le, texts, uppered};
use crate::walker::{walked, Visitor};
use vstd::prelude::*;
use vstd::utf8::{encode_utf8, is_ascii_chars, is_ascii_chars_encode_utf8};

verus! {

/// An image that was in the index already is counted as passed over, one that was indexed
/// with its documents, and one that failed not at all.
pub proof fn images_are_counted_by_outcome(before: BuildStats, now: BuildStats, n: usize, e: FsError)
    ensures
        counts_image(before, ImageOutcome::Skipped, now) <==> now.images_skipped
            == before.images_skipped + 1 && now.images_indexed == before.images_indexed
            && now.files_indexed == before.files_indexed,
        counts_image(before, ImageOutcome::Indexed(n), now) <==> now.images_indexed
            == before.images_indexed + 1 && now.files_indexed == before.files_indexed + n
            && now.images_skipped == before.images_skipped,
        counts_image(before, ImageOutcome::Failed(e), now) <==> now == before,
{
}

/// Groups are counted by what became of them, with the tokens that were read and written.
pub proof fn groups_are_counted_by_outcome(
    before: SummarizeStats,
    now: SummarizeStats,
    input: u64,
    output: u64,
)
    ensures
        counts_group(before, GroupOutcome::Skipped, now) ==> now.skipped_existing
            == before.skipped_existing + 1 && now.processed == before.processed && now.failed
            == before.failed && now.total_input_tokens == before.total_input_tokens
            && now.total_output_tokens == before.total_output_tokens,
        counts_group(before, GroupOutcome::Failed, now) ==> now.failed == before.failed + 1
            && now.processed == before.processed && now.skipped_existing == before.skipped_existing
            && now.total_input_tokens == before.total_input_tokens,
        counts_group(
            before,
            GroupOutcome::Processed(
                Some(UsageInfo { input_tokens: input, output_tokens: output }),
            ),
            now,
        ) ==> now.processed == before.processed + 1 && now.total_input_tokens
            == before.total_input_tokens + input && now.total_output_tokens
            == before.total_output_tokens + output && now.failed == before.failed
            && now.skipped_existing == before.skipped_existing,
        counts_group(before, GroupOutcome::Processed(None), now) ==> now.processed
            == before.processed + 1 && now.total_input_tokens == before.total_input_tokens
            && now.total_output_tokens == before.total_output_tokens,
{
}

/// Images from which records are taken are counted as seen; those that were read, with their
/// records, and those that were passed over, each for themselves.
pub proof fn extractions_are_counted_by_decision(
    before: ExtractStats,
    now: ExtractStats,
    name: Seq<char>,
    plugin: usize,
    records: usize,
)
    ensures
        counts_event(before, ImageEvent::Unreadable, now) ==> now.images_seen == before.images_seen
            + 1 && now.images_extracted == before.images_extracted && now.images_skipped_extracted
            == before.images_skipped_extracted && now.records_added == before.records_added,
        counts_event(before, ImageEvent::Decided(ExtractDecision::NoPlugin, name), now)
            ==> now.images_seen == before.images_seen + 1 && now.images_extracted
            == before.images_extracted && now.records_added == before.records_added,
        counts_event(before, ImageEvent::Decided(ExtractDecision::AlreadyExtracted, name), now)
            ==> now.images_seen == before.images_seen + 1 && now.images_skipped_extracted
            == before.images_skipped_extracted + 1 && now.images_extracted
            == before.images_extracted && now.records_added == before.records_added,
        counts_event(
            before,
            ImageEvent::Decided(ExtractDecision::Extracted { plugin, records }, name),
            now,
        ) ==> now.images_seen == before.images_seen + 1 && now.images_extracted
            == before.images_extracted + 1 && now.records_added == before.records_added + records
            && now.images_skipped_extracted == before.images_skipped_extracted && plugin_counts(
            now.by_plugin@,
        ) == counted_from(plugin_counts(before.by_plugin@), 0, name),
{
}

proof fn end_slashes_go(path: Seq<char>)
    requires
        path.len() > 0,
        path.last() != '/',
    ensures
        without_end_slashes(path) == path,
        without_end_slashes(path.push('/')) == path,
{
    assert(path.push('/').drop_last() =~= path);
}

/// In the search for images below a directory, a file is found where it has the extension of
/// an image and none of the directories on the way to it is one that hosts keep for
/// themselves.
pub proof fn images_are_found_outside_host_directories(dir: Seq<char>, rest: Seq<char>)
    requires
        dir.len() > 0,
        dir.last() != '/',
    ensures
        is_found(dir, dir + seq!['/'] + rest) <==> image_path(dir + seq!['/'] + rest) && forall|
            i: int,
        |
            0 <= i < components(rest).len() - 1 ==> !host_directory(#[trigger] components(rest)[i]),
        is_found(dir.push('/'), dir + seq!['/'] + rest) == is_found(dir, dir + seq!['/'] + rest),
{
    let path = dir + seq!['/'] + rest;
    end_slashes_go(dir);
    paths_are_seen_from_above(dir, path, rest);
    assert(path_in_search(dir, path) == rest);
}

/// The name of an image is made from the hash of all its bytes.
pub proof fn images_are_named_by_their_bytes(bytes: Seq<u8>)
    ensures
        short_hash(bytes) == short_hex(sha1_digest(bytes)),
{
}

/// A document belongs to the image whose name it has.
pub proof fn documents_belong_to_the_image_they_name(doc: Seq<(Field, FieldModel)>, id: Seq<char>)
    ensures
        document_image(doc) == Some(id) <==> first_value(doc, Field::ImageId) == Some(
            FieldModel::Text(id),
        ),
{
}

/// The index tells of each of its documents who has read which image.
pub proof fn keys_are_those_of_the_documents(
    docs: Seq<Seq<(Field, FieldModel)>>,
    doc: Seq<(Field, FieldModel)>,
)
    ensures
        document_keys(Seq::empty()).len() == 0,
        document_key(doc) matches Some(k) ==> document_keys(docs.push(doc)) == document_keys(
            docs,
        ).push(k),
        document_key(doc) is None ==> document_keys(docs.push(doc)) == document_keys(docs),
{
    assert(docs.push(doc).drop_last() =~= docs);
}

/// The short form of the name of an image is its first eight letters.
pub proof fn short_names_have_eight_letters(id: Seq<char>)
    requires
        is_ascii_chars(id),
        id.len() >= 8,
    ensures
        short_id(id) == id.take(8),
{
    excerpt_is_longest_prefix(id, 8);
    let k = excerpt_of(id, 8).len() as int;
    let kept = id.take(k);
    assert forall|i: int| 0 <= i < kept.len() implies '\0' <= #[trigger] kept[i] <= '\u{7f}' by {
        assert(kept[i] == id[i]);
    }
    is_ascii_chars_encode_utf8(kept);
    if k < id.len() {
        let more = id.take(k + 1);
        assert forall|i: int| 0 <= i < more.len() implies '\0' <= #[trigger] more[i] <= '\u{7f}' by {
            assert(more[i] == id[i]);
        }
        is_ascii_chars_encode_utf8(more);
    }
}

/// A plugin takes out of a disk that is its own what it finds there, and nothing out of any
/// other disk.
pub proof fn plugins_read_their_own_disks<P: SchemaPlugin>(plugin: &P, ctx: ContextModel)
    ensures
        !plugin.detects(ctx) ==> partition_run(plugin, ctx).records.len() == 0 && partition_run(
            plugin,
            ctx,
        ).detected == Ok::<bool, FsError>(false),
        plugin.detects(ctx) ==> (plugin.extracts(ctx) matches Ok(x) ==> partition_run(
            plugin,
            ctx,
        ).records == x.records && partition_run(plugin, ctx).detected == Ok::<bool, FsError>(true)),
        plugin.detects(ctx) ==> (plugin.extracts(ctx) matches Err(e) ==> partition_run(
            plugin,
            ctx,
        ).detected == Err::<bool, FsError>(e)),
{
}

/// Of a hard disk each partition that can be mounted is tried under its number, one after
/// the other; a failure ends the run and keeps what was taken out before.
pub proof fn plugins_read_partition_by_partition<P: SchemaPlugin>(
    plugin: &P,
    opened: OpenedImage,
    count: nat,
    idx: nat,
    path: Seq<char>,
    id: Seq<char>,
)
    requires
        idx < count,
    ensures
        ({
            let now = partitions_run(plugin, opened, count, idx, path, id);
            let rest = partitions_run(plugin, opened, count, idx + 1, path, id);
            match mounted_partition(opened, Some(idx as usize)) {
                Err(_) => now == rest,
                Ok(fs) => {
                    let ctx = ContextModel {
                        image_path: path,
                        image_id: id,
                        partition: idx as usize,
                        fs,
                    };
                    let here = partition_run(plugin, ctx);
                    &&& here.detected is Err ==> now == here
                    &&& here.detected is Ok ==> now.records == here.records + rest.records
                    &&& here.detected is Ok && rest.detected is Ok ==> now.detected == Ok::<
                        bool,
                        FsError,
                    >(here.detected->Ok_0 || rest.detected->Ok_0)
                    &&& here.detected is Ok && rest.detected is Err ==> now.detected is Err
                },
            }
        }),
        partitions_run(plugin, opened, count, count, path, id).records.len() == 0,
        opened matches OpenedImage::Hdd(h) ==> image_run(plugin, opened, path, id)
            == partitions_run(plugin, opened, h.places().len(), 0, path, id),
{
}

/// A trial of a plugin on a floppy shows what it would take out, or that the disk is not one
/// of its own.
pub proof fn trials_show_what_would_be_taken<P: SchemaPlugin>(
    plugin: &P,
    opened: OpenedImage,
    path: Seq<char>,
    id: Seq<char>,
    fs: DiskModel,
)
    requires
        opened is Floppy,
        mounted_partition(opened, None) == Ok::<DiskModel, FsError>(fs),
    ensures
        ({
            let ctx = ContextModel { image_path: path, image_id: id, partition: 0, fs };
            &&& !plugin.detects(ctx) ==> dry_run(plugin, opened, path, id) == Err::<
                Seq<ExtractModel>,
                DryRunError,
            >(DryRunError::NotDetected)
            &&& plugin.detects(ctx) ==> (plugin.extracts(ctx) matches Ok(x) ==> dry_run(
                plugin,
                opened,
                path,
                id,
            ) == Ok::<Seq<ExtractModel>, DryRunError>(seq![x]))
            &&& plugin.detects(ctx) ==> (plugin.extracts(ctx) matches Err(e) ==> dry_run(
                plugin,
                opened,
                path,
                id,
            ) == Err::<Seq<ExtractModel>, DryRunError>(DryRunError::Failed(e)))
        }),
{
}

/// The names of the orders of rows.
pub proof fn orders_have_names(s: Seq<char>)
    ensures
        order_named(s) == Some(OrderBy::IssueAsc) <==> s == "issue_asc"@,
        order_named(s) == Some(OrderBy::IssueDesc) <==> s == "issue_desc"@,
        order_named(s) == Some(OrderBy::TitleAsc) <==> s == "title_asc"@,
{
    reveal_strlit("issue_asc");
    reveal_strlit("issue_desc");
    reveal_strlit("title_asc");
    assert("issue_asc"@.len() == 9 && "issue_desc"@.len() == 10 && "title_asc"@.len() == 9);
    assert("issue_asc"@[0] == 'i' && "title_asc"@[0] == 't');
}

/// A signed number has its digits, behind a minus sign where it is negative.
pub proof fn signed_numbers_have_a_sign(n: nat)
    ensures
        signed_decimal(n as int) == decimal(n),
        n > 0 ==> signed_decimal(-(n as int)) == seq!['-'] + decimal(n),
{
}

/// A table in comma-separated form starts with a byte order mark and the names of its
/// columns. Fields have commas between them; a field with a comma, a quote or a line break in
/// it stands in quotes.
pub proof fn fields_are_separated_by_commas(
    fields: Seq<Seq<char>>,
    field: Seq<char>,
    rows: Seq<Seq<Seq<char>>>,
)
    ensures
        fields.len() > 0 ==> csv_line(fields.push(field)) == csv_line(fields) + seq![','] + quoted(
            field,
        ),
        csv_line(seq![field]) == quoted(field),
        !field.contains(',') && !field.contains('"') && !field.contains('\n') && !field.contains(
            '\r',
        ) ==> quoted(field) == field,
        field.contains(',') || field.contains('"') || field.contains('\n') || field.contains('\r')
            ==> quoted(field).len() > 0 && quoted(field)[0] == '"' && quoted(field).last() == '"',
        csv_text(fields, Seq::empty()) == seq!['\u{FEFF}'] + csv_line(fields) + seq!['\n'],
        csv_text(fields, rows.push(fields)) == csv_text(fields, rows) + csv_line(fields)
            + seq!['\n'],
{
    assert(fields.push(field).drop_last() =~= fields);
    let lead = seq!['\u{FEFF}'] + csv_line(fields) + seq!['\n'];
    assert(lead + Seq::<char>::empty() =~= lead);
    assert(rows.push(fields).drop_last() =~= rows);
    assert(csv_text(fields, rows.push(fields)) =~= csv_text(fields, rows) + csv_line(fields)
        + seq!['\n']);
}

/// Partitions of Human68k bear its name.
pub proof fn human68k_is_told_by_name(name: Seq<char>)
    ensures
        named_human68k(name) <==> name == "Human68k"@,
{
}

proof fn steps_add_up(parts: Seq<Seq<char>>, rooted: bool, name: Seq<char>)
    requires
        name != "."@,
        name != ".."@,
    ensures
        steps_of(parts.push(name), rooted) == steps_of(parts, rooted).push(
            seq!['\u{4}'] + name,
        ),
{
    assert(parts.push(name).drop_last() =~= parts);
    let before = steps_of(parts, rooted);
    assert(before + seq![seq!['\u{4}'] + name] =~= before.push(seq!['\u{4}'] + name));
}

proof fn last_steps_decide(common: Seq<Seq<char>>, a: Seq<char>, b: Seq<char>)
    ensures
        steps_le(common.push(a), common.push(b)) <==> a == b || text_le(a, b),
        steps_le(common, common.push(a)),
        !steps_le(common.push(a), common),
    decreases common.len(),
{
    if common.len() > 0 {
        assert(common.push(a).skip(1) =~= common.skip(1).push(a));
        assert(common.push(b).skip(1) =~= common.skip(1).push(b));
        last_steps_decide(common.skip(1), a, b);
    } else {
        assert(common.push(a).skip(1) =~= Seq::<Seq<char>>::empty());
        assert(common.push(b).skip(1) =~= Seq::<Seq<char>>::empty());
        assert(common.push(a)[0] == a && common.push(b)[0] == b);
        assert(steps_le(Seq::<Seq<char>>::empty(), Seq::<Seq<char>>::empty()));
    }
}

/// Paths are ordered name by name: a directory comes before what is below it, and of two
/// names in a directory the one that comes first as a text.
pub proof fn paths_are_ordered_name_by_name(dir: Seq<char>, a: Seq<char>, b: Seq<char>)
    requires
        dir.len() > 0,
        a.len() > 0,
        b.len() > 0,
        !a.contains('/'),
        !b.contains('/'),
        a != "."@,
        a != ".."@,
        b != "."@,
        b != ".."@,
    ensures
        path_le(dir + seq!['/'] + a, dir + seq!['/'] + b) <==> text_le(a, b),
        path_le(dir, dir + seq!['/'] + a),
        !path_le(dir + seq!['/'] + a, dir),
{
    let x = dir + seq!['/'] + a;
    let y = dir + seq!['/'] + b;
    paths_are_names_between_slashes(dir, a);
    paths_are_names_between_slashes(dir, b);
    let rooted = is_rooted(dir);
    assert(is_rooted(x) == rooted && is_rooted(y) == rooted);
    let parts = components(dir);
    steps_add_up(parts, rooted, a);
    steps_add_up(parts, rooted, b);
    let u = seq!['\u{4}'] + a;
    let v = seq!['\u{4}'] + b;
    last_steps_decide(steps_of(parts, rooted), u, v);
    assert(u.skip(1) =~= a);
    assert(v.skip(1) =~= b);
    crate::text::text_order_is_total(a, a);
}

/// Extensions that are searched for are put in capitals.
pub proof fn extensions_are_searched_in_capitals(ext: Seq<Seq<char>>, i: int)
    requires
        0 <= i < ext.len(),
    ensures
        upper_all(ext).len() == ext.len(),
        upper_all(ext)[i] == uppered(ext[i]),
{
}

/// What a field of the index can be used for.
pub open spec fn is_kept(
    field: Field,
    kind: FieldType,
    indexed: bool,
    stored: bool,
    fast: bool,
) -> bool {
    field_table().contains(FieldSpec { field, kind, indexed, stored, fast })
}

/// The fields of the index: texts of files can be searched but not read back, excerpts can be
/// read back but not searched, and so on.
pub proof fn fields_are_kept_for_their_use()
    ensures
        field_table().len() == 20,
        is_kept(Field::ImagePath, FieldType::Exact, true, true, false),
        is_kept(Field::ImageId, FieldType::Exact, true, true, false),
        is_kept(Field::Partition, FieldType::U64, true, true, true),
        is_kept(Field::FilePath, FieldType::Exact, true, true, false),
        is_kept(Field::FileName, FieldType::FullText, true, true, false),
        is_kept(Field::Ext, FieldType::Exact, true, true, true),
        is_kept(Field::Size, FieldType::U64, true, true, true),
        is_kept(Field::Mtime, FieldType::I64, true, true, true),
        is_kept(Field::Attr, FieldType::Exact, true, true, false),
        is_kept(Field::Body, FieldType::FullText, true, false, false),
        is_kept(Field::BodyExcerpt, FieldType::Plain, false, true, false),
        is_kept(Field::Category, FieldType::Exact, true, true, true),
        is_kept(Field::IssueNo, FieldType::U64, true, true, true),
        is_kept(Field::IssueKind, FieldType::Exact, true, true, true),
        is_kept(Field::IssueRole, FieldType::Exact, true, true, true),
        is_kept(Field::UniqueId, FieldType::Exact, true, true, false),
        is_kept(Field::SchemaPlugin, FieldType::Exact, true, true, true),
        is_kept(Field::SchemaVersion, FieldType::U64, false, true, true),
        is_kept(Field::Payload, FieldType::Json, true, true, false),
        is_kept(Field::LocationFacet, FieldType::Facet, true, false, false),
{
    let t = field_table();
    assert(t[0].field == Field::ImagePath && t[1].field == Field::ImageId && t[2].field
        == Field::Partition && t[3].field == Field::FilePath && t[4].field == Field::FileName
        && t[5].field == Field::Ext && t[6].field == Field::Size && t[7].field == Field::Mtime
        && t[8].field == Field::Attr && t[9].field == Field::Body && t[10].field
        == Field::BodyExcerpt && t[11].field == Field::Category && t[12].field == Field::IssueNo
        && t[13].field == Field::IssueKind && t[14].field == Field::IssueRole && t[15].field
        == Field::UniqueId && t[16].field == Field::SchemaPlugin && t[17].field
        == Field::SchemaVersion && t[18].field == Field::Payload && t[19].field
        == Field::LocationFacet);
    assert(t.contains(t[0]) && t.contains(t[1]) && t.contains(t[2]) && t.contains(t[3])
        && t.contains(t[4]) && t.contains(t[5]) && t.contains(t[6]) && t.contains(t[7])
        && t.contains(t[8]) && t.contains(t[9]));
    assert(t.contains(t[10]) && t.contains(t[11]) && t.contains(t[12]) && t.contains(t[13])
        && t.contains(t[14]) && t.contains(t[15]) && t.contains(t[16]) && t.contains(t[17])
        && t.contains(t[18]) && t.contains(t[19]));
}

/// Whether a path has no colon in it.
pub open spec fn has_no_colon(path: Seq<char>) -> bool {
    forall|k: int| 0 <= k < path.len() ==> #[trigger] path[k] != ':'
}

/// A specification is the path of an image, and behind colons, if they are given, the number
/// of a partition and a path inside, which starts with a slash.
pub proof fn specifications_have_three_parts(path: Seq<char>, n: usize, inner: Seq<char>)
    requires
        path.len() >= 2,
        has_no_colon(path),
        inner.len() > 0,
        inner[0] == '/',
    ensures
        spec_of(path) == (ImageSpecModel { path, partition: None, inner_path: Seq::empty() }),
        spec_of(path + seq![':'] + inner) == (ImageSpecModel {
            path,
            partition: None,
            inner_path: inner,
        }),
        spec_of(path + seq![':'] + decimal(n as nat)) == (ImageSpecModel {
            path,
            partition: Some(n),
            inner_path: Seq::empty(),
        }),
        spec_of(path + seq![':'] + decimal(n as nat) + seq![':'] + inner) == (ImageSpecModel {
            path,
            partition: Some(n),
            inner_path: inner,
        }),
{
    let none = Seq::<char>::empty();
    spec_round_trip(ImageSpecModel { path, partition: None, inner_path: none });
    spec_round_trip(ImageSpecModel { path, partition: None, inner_path: inner });
    spec_round_trip(ImageSpecModel { path, partition: Some(n), inner_path: none });
    spec_round_trip(ImageSpecModel { path, partition: Some(n), inner_path: inner });
}

/// The colon of a drive letter separates nothing.
pub proof fn drive_letters_are_part_of_the_path(letter: char, rest: Seq<char>, inner: Seq<char>)
    requires
        65 <= letter as int <= 90 || 97 <= letter as int <= 122,
        has_no_colon(rest),
        inner.len() > 0,
        inner[0] == '/',
    ensures
        ({
            let path = seq![letter, ':'] + rest;
            &&& spec_of(path) == (ImageSpecModel { path, partition: None, inner_path: Seq::empty() })
            &&& spec_of(path + seq![':'] + inner) == (ImageSpecModel {
                path,
                partition: None,
                inner_path: inner,
            })
        }),
{
    let path = seq![letter, ':'] + rest;
    let none = Seq::<char>::empty();
    assert forall|k: int| 2 <= k < path.len() implies path[k] != ':' by {
        assert(path[k] == rest[k - 2]);
    }
    spec_round_trip(ImageSpecModel { path, partition: None, inner_path: none });
    spec_round_trip(ImageSpecModel { path, partition: None, inner_path: inner });
}

/// Of a text the model is shown a beginning: at most half as many characters as bytes are
/// allowed.
pub proof fn texts_are_shown_from_the_beginning(text: Seq<char>, max_text: int)
    requires
        max_text >= 0,
    ensures
        shown_text(text, max_text).len() <= text.len(),
        2 * shown_text(text, max_text).len() <= max_text,
        shown_text(text, max_text) == text.take(shown_text(text, max_text).len() as int),
        encode_utf8(shown_text(text, max_text)).len() <= max_text,
{
    let head = first_of(text, max_text / 2);
    excerpt_is_longest_prefix(head, max_text);
    let n = shown_text(text, max_text).len() as int;
    assert(head.take(n) =~= text.take(n));
}

/// The entry of an image in a summary has the name and the path of the image, and its format
/// in small letters, its size and its number of files as they were found.
pub proof fn summaries_tell_of_their_images(info: MemberInfo, image: ImageModel, snap: SnapshotModel)
    requires
        is_info_of(info, image, snap),
    ensures
        info.image_id@ == image.image_id,
        info.image_path@ == image.path,
        info.size == snap.total_size,
        info.file_count == snap.file_count,
        snap.format == ImageKind::Xdf ==> info.format@ == "xdf"@,
        snap.format == ImageKind::Hds ==> info.format@ == "hds"@,
        snap.format == ImageKind::Hdf ==> info.format@ == "hdf"@,
{
}

/// The title of a trial names its only image by its path.
pub proof fn trials_name_their_image(id: Seq<char>, image: ImageModel)
    ensures
        dry_title(id, seq![image]) == "DRY RUN: "@ + image.path + " (solo)"@,
{
}

/// A visitor is shown the entries of a directory one by one, each under its path. Where the
/// visitor stops, the rest of the directory is passed over; otherwise what lies in a
/// directory follows it. Entries that are not in use, the directory itself and its parent are
/// not shown.
pub proof fn visitors_are_shown_entry_by_entry<V: Visitor>(
    fs: DiskModel,
    entries: Seq<DirEntryModel>,
    dir: Seq<char>,
    trail: Seq<u16>,
    follow: bool,
    state: V::State,
)
    requires
        entries.len() > 0,
        trail.len() < usize::MAX,
    ensures
        ({
            let e = entries[0];
            let rest = entries.skip(1);
            let path = if dir.len() > 0 {
                dir + seq!['/'] + full_name(e)
            } else {
                full_name(e)
            };
            let (seen, go_on) = V::step(state, path, e);
            let now = walked::<V>(fs, entries, dir, trail, follow, state);
            if !is_met(e) {
                now == walked::<V>(fs, rest, dir, trail, follow, state)
            } else if !go_on {
                now == (seen, None::<FsError>)
            } else if e.attr.bits & 0x10 != 0x10 {
                now == walked::<V>(fs, rest, dir, trail, follow, seen)
            } else if !follow && trail.contains(e.start_cluster) {
                now == (seen, Some(FsError::DirectoryLoop { cluster: e.start_cluster }))
            } else {
                match fs.subdir_entries(e.start_cluster) {
                    Err(x) => now == (seen, Some(x)),
                    Ok(sub) => {
                        let below = walked::<V>(
                            fs,
                            sub,
                            path,
                            trail.push(e.start_cluster),
                            follow,
                            seen,
                        );
                        now == if below.1 is Some {
                            below
                        } else {
                            walked::<V>(fs, rest, dir, trail, follow, below.0)
                        }
                    },
                }
            }
        }),
        walked::<V>(fs, Seq::empty(), dir, trail, follow, state) == (state, None::<FsError>),
{
}

/// A listing with all directories below has each directory that it comes across, under its
/// path, with what is listed of it.
pub proof fn listings_have_all_directories(
    fs: DiskModel,
    entries: Seq<DirEntryModel>,
    path: Seq<char>,
    trail: Seq<u16>,
    deleted: bool,
    k: int,
)
    requires
        0 <= k < entries.len(),
        is_met(entries[k]),
        entries[k].attr.bits & 0x10 == 0x10,
        listed_below(fs, entries, path, trail, deleted).1 is None,
    ensures
        fs.subdir_entries(entries[k].start_cluster) is Ok,
        listed_below(fs, entries, path, trail, deleted).0.contains(
            DirListingModel {
                path: path + seq!['/'] + full_name(entries[k]),
                entries: listed_of(
                    fs.subdir_entries(entries[k].start_cluster)->Ok_0,
                    deleted,
                ),
            },
        ),
    decreases entries.len(),
{
    let e = entries[0];
    let rest = entries.skip(1);
    let all = listed_below(fs, entries, path, trail, deleted).0;
    let later = listed_below(fs, rest, path, trail, deleted).0;
    let dir = DirListingModel {
        path: path + seq!['/'] + full_name(entries[k]),
        entries: listed_of(fs.subdir_entries(entries[k].start_cluster)->Ok_0, deleted),
    };
    if k > 0 {
        assert(rest[k - 1] == entries[k]);
        listings_have_all_directories(fs, rest, path, trail, deleted, k - 1);
        let i = choose|i: int| 0 <= i < later.len() && later[i] == dir;
        assert(all[all.len() - later.len() + i] == dir);
    } else {
        assert(all[0] == dir);
    }
}

/// A listing starts with the directory itself; what is below follows where it is wanted.
pub proof fn listings_go_below_where_wanted(
    fs: DiskModel,
    entries: Seq<DirEntryModel>,
    path: Seq<char>,
    trail: Seq<u16>,
    deleted: bool,
)
    ensures
        listed_tree(fs, entries, path, trail, false, deleted) == (
            seq![DirListingModel { path, entries: listed_of(entries, deleted) }],
            None::<FsError>,
        ),
        listed_tree(fs, entries, path, trail, true, deleted).0 == seq![
            DirListingModel { path, entries: listed_of(entries, deleted) },
        ] + listed_below(fs, entries, path, trail, deleted).0,
        listed_tree(fs, entries, path, trail, true, deleted).1 == listed_below(
            fs,
            entries,
            path,
            trail,
            deleted,
        ).1,
{
}

/// A name is followed from a directory by a slash; a path that starts at the root replaces
/// the directory.
pub proof fn names_are_followed_from_directories(dir: Seq<char>, name: Seq<char>)
    requires
        dir.len() > 0,
        name.len() > 0,
    ensures
        name[0] == '/' ==> followed(dir, name) == name,
        name[0] != '/' && dir.last() != '/' ==> followed(dir, name) == dir + seq!['/'] + name,
        name[0] != '/' && dir.last() == '/' ==> followed(dir, name) == dir + name,
{
}

/// All the documents of a set belong to an image where each of them names it.
pub proof fn sets_belong_to_the_image_they_name(
    docs: Seq<Seq<(Field, FieldModel)>>,
    id: Seq<char>,
)
    ensures
        all_belong_to(docs, id) <==> forall|i: int|
            0 <= i < docs.len() ==> first_value(#[trigger] docs[i], Field::ImageId) == Some(
                FieldModel::Text(id),
            ),
{
    if all_belong_to(docs, id) {
        assert forall|i: int| 0 <= i < docs.len() implies first_value(
            #[trigger] docs[i],
            Field::ImageId,
        ) == Some(FieldModel::Text(id)) by {
            assert(document_image(docs[i]) == Some(id));
        }
    }
}

/// The tokens of all groups are those of each group together.
pub proof fn tokens_add_up(outcomes: Seq<GroupOutcome>, input: u64, output: u64)
    ensures
        tokens_in(Seq::empty()) == (0nat, 0nat),
        tokens_in(
            outcomes.push(
                GroupOutcome::Processed(
                    Some(UsageInfo { input_tokens: input, output_tokens: output }),
                ),
            ),
        ) == (tokens_in(outcomes).0 + input as nat, tokens_in(outcomes).1 + output as nat),
        tokens_in(outcomes.push(GroupOutcome::Skipped)) == tokens_in(outcomes),
        tokens_in(outcomes.push(GroupOutcome::Failed)) == tokens_in(outcomes),
        tokens_in(outcomes.push(GroupOutcome::Processed(None))) == tokens_in(outcomes),
{
    let usage = GroupOutcome::Processed(
        Some(UsageInfo { input_tokens: input, output_tokens: output }),
    );
    assert(outcomes.push(usage).drop_last() =~= outcomes);
    assert(outcomes.push(GroupOutcome::Skipped).drop_last() =~= outcomes);
    assert(outcomes.push(GroupOutcome::Failed).drop_last() =~= outcomes);
    assert(outcomes.push(GroupOutcome::Processed(None)).drop_last() =~= outcomes);
}

/// A trial on a hard disk shows what would be taken out of each partition that can be mounted
/// and is one of the plugin's own, one after the other; the first failure ends it.
pub proof fn trials_go_partition_by_partition<P: SchemaPlugin>(
    plugin: &P,
    opened: OpenedImage,
    count: nat,
    idx: nat,
    path: Seq<char>,
    id: Seq<char>,
)
    requires
        idx < count,
    ensures
        dry_partitions(plugin, opened, count, count, path, id) == Ok::<Seq<ExtractModel>, FsError>(
            Seq::empty(),
        ),
        ({
            let now = dry_partitions(plugin, opened, count, idx, path, id);
            let rest = dry_partitions(plugin, opened, count, idx + 1, path, id);
            match mounted_partition(opened, Some(idx as usize)) {
                Err(_) => now == rest,
                Ok(fs) => {
                    let ctx = ContextModel {
                        image_path: path,
                        image_id: id,
                        partition: idx as usize,
                        fs,
                    };
                    &&& !plugin.detects(ctx) ==> now == rest
                    &&& plugin.detects(ctx) && plugin.extracts(ctx) is Err ==> now == Err::<
                        Seq<ExtractModel>,
                        FsError,
                    >(plugin.extracts(ctx)->Err_0)
                    &&& plugin.detects(ctx) && plugin.extracts(ctx) is Ok && rest is Ok ==> now
                        == Ok::<Seq<ExtractModel>, FsError>(
                        seq![plugin.extracts(ctx)->Ok_0] + rest->Ok_0,
                    )
                    &&& plugin.detects(ctx) && plugin.extracts(ctx) is Ok && rest is Err ==> now
                        == rest
                },
            }
        }),
        opened matches OpenedImage::Hdd(h) ==> ({
            let all = dry_partitions(plugin, opened, h.places().len(), 0, path, id);
            &&& all matches Err(e) ==> dry_run(plugin, opened, path, id) == Err::<
                Seq<ExtractModel>,
                DryRunError,
            >(DryRunError::Failed(e))
            &&& all matches Ok(v) ==> dry_run(plugin, opened, path, id) == if v.len() == 0 {
                Err::<Seq<ExtractModel>, DryRunError>(DryRunError::NoPartitionDetected)
            } else {
                Ok::<Seq<ExtractModel>, DryRunError>(v)
            }
        }),
{
}

/// A plugin of which an image gives no records is counted for nothing.
pub proof fn plugins_are_counted_for_what_they_read(
    before: ExtractStats,
    now: ExtractStats,
    event: ImageEvent,
)
    requires
        counts_event(before, event, now),
    ensures
        now.warnings == before.warnings,
        event is Unreadable ==> now.by_plugin@ == before.by_plugin@ && now.images_skipped_extracted
            == before.images_skipped_extracted,
        event matches ImageEvent::Decided(d, _) ==> (!(d is Extracted) ==> now.by_plugin@
            == before.by_plugin@),
        event matches ImageEvent::Decided(d, _) ==> (d is NoPlugin ==> now.images_skipped_extracted
            == before.images_skipped_extracted),
{
}

/// A text without a line feed is one line, and nothing follows it.
pub proof fn a_text_of_one_line_stays(s: Seq<char>)
    requires
        !s.contains('\n'),
    ensures
        after_first_line(s) == s,
{
    find_char_is_first(s, '\n');
    let k = find_char(s, '\n');
    if k < s.len() {
        assert(s[k] == '\n');
    }
}

/// The entries of images in a summary are those of its images, one for one.
pub proof fn summaries_tell_of_all_their_images(
    infos: Seq<MemberInfo>,
    images: Seq<ImageModel>,
    snaps: Seq<SnapshotModel>,
    i: int,
)
    requires
        are_infos_of(infos, images, snaps),
        0 <= i < images.len(),
    ensures
        infos.len() == images.len(),
        infos[i].image_id@ == images[i].image_id,
        infos[i].image_path@ == images[i].path,
        infos[i].size == snaps[i].total_size,
        infos[i].file_count == snaps[i].file_count,
{
    assert(is_info_of(infos[i], images[i], snaps[i]));
}

/// Doubts about what a plugin reads are told with the number of the partition.
pub proof fn doubts_are_told_with_their_partition<P: SchemaPlugin>(
    plugin: &P,
    ctx: ContextModel,
    k: int,
)
    requires
        plugin.detects(ctx),
        plugin.extracts(ctx) is Ok,
        0 <= k < plugin.extracts(ctx)->Ok_0.warnings.len(),
    ensures
        partition_run(plugin, ctx).warnings.len() == plugin.extracts(ctx)->Ok_0.warnings.len(),
        partition_run(plugin, ctx).warnings[k] == (
            ctx.partition,
            plugin.extracts(ctx)->Ok_0.warnings[k],
        ),
{
}

/// Doubts about the partitions of a hard disk follow each other.
pub proof fn doubts_follow_each_other<P: SchemaPlugin>(
    plugin: &P,
    opened: OpenedImage,
    count: nat,
    idx: nat,
    path: Seq<char>,
    id: Seq<char>,
    fs: DiskModel,
)
    requires
        idx < count,
        mounted_partition(opened, Some(idx as usize)) == Ok::<DiskModel, FsError>(fs),
    ensures
        ({
            let ctx = ContextModel { image_path: path, image_id: id, partition: idx as usize, fs };
            let here = partition_run(plugin, ctx);
            here.detected is Ok ==> partitions_run(plugin, opened, count, idx, path, id).warnings
                == here.warnings + partitions_run(
                plugin,
                opened,
                count,
                idx + 1,
                path,
                id,
            ).warnings
        }),
{
}

/// A floppy that cannot be mounted makes every plugin fail; one that can is shown to it as
/// its only partition.
pub proof fn floppies_have_one_partition<P: SchemaPlugin>(
    plugin: &P,
    opened: OpenedImage,
    path: Seq<char>,
    id: Seq<char>,
)
    requires
        opened is Floppy,
    ensures
        mounted_partition(opened, None) matches Err(e) ==> image_run(plugin, opened, path, id)
            .detected == Err::<bool, FsError>(e) && image_run(plugin, opened, path, id).records.len()
            == 0,
        mounted_partition(opened, None) matches Ok(fs) ==> image_run(plugin, opened, path, id)
            == partition_run(
            plugin,
            ContextModel { image_path: path, image_id: id, partition: 0, fs },
        ),
{
}

/// A plugin that fails is told with its number and leaves what it had read, and the trial goes
/// on; one that takes the image as its own ends it. Doubts are told with the number of the
/// plugin.
pub proof fn trials_tell_of_failures_and_doubts<P: SchemaPlugin>(
    plugins: Seq<P>,
    i: int,
    only: Option<Seq<char>>,
    already: Seq<KeyModel>,
    opened: OpenedImage,
    path: Seq<char>,
    id: Seq<char>,
)
    requires
        0 <= i < plugins.len() <= usize::MAX,
        only is None || only->0 == plugins[i].spec_name(),
        !already.contains(
            KeyModel {
                plugin: plugins[i].spec_name(),
                version: plugins[i].spec_version(),
                image_id: id,
            },
        ),
    ensures
        ({
            let now = trial_from(plugins, i, only, already, opened, path, id);
            let rest = trial_from(plugins, i + 1, only, already, opened, path, id);
            let run = image_run(&plugins[i], opened, path, id);
            let n = run.warnings.len() as int;
            &&& forall|k: int|
                0 <= k < n ==> #[trigger] now.warnings[k] == (
                    i as usize,
                    run.warnings[k].0,
                    run.warnings[k].1,
                )
            &&& run.detected matches Err(e) ==> now.failures == seq![(i as usize, e)]
                + rest.failures
            &&& run.detected == Ok::<bool, FsError>(false) ==> now.failures == rest.failures
            &&& run.detected != Ok::<bool, FsError>(true) ==> now.decision == rest.decision
                && now.records == run.records + rest.records && now.warnings.skip(n)
                == rest.warnings
            &&& run.detected == Ok::<bool, FsError>(true) ==> now.failures.len() == 0
                && now.warnings.len() == n && now.records == run.records && now.decision == (
            ExtractDecision::Extracted {
                plugin: i as usize,
                records: run.records.len() as usize,
            })
        }),
{
    let now = trial_from(plugins, i, only, already, opened, path, id);
    let rest = trial_from(plugins, i + 1, only, already, opened, path, id);
    let run = image_run(&plugins[i], opened, path, id);
    if run.detected != Ok::<bool, FsError>(true) {
        assert(now.warnings.skip(run.warnings.len() as int) =~= rest.warnings);
    }
}

/// The title of a trial names a group, the number of its images and their file names.
pub proof fn trials_name_their_group(
    id: Seq<char>,
    a: ImageModel,
    b: ImageModel,
    x: Seq<char>,
    y: Seq<char>,
)
    requires
        file_name_of(a.path) == Some(x),
        file_name_of(b.path) == Some(y),
    ensures
        dry_title(id, seq![a, b]) == "DRY RUN: "@ + id + " (group of "@ + decimal(2) + ": "@ + (x
            + ", "@ + y) + ")"@,
{
    reveal_with_fuel(joined_texts, 3);
    let names = names_of(seq![a, b]);
    assert(names =~= seq![x, y]);
    assert(names.drop_last() =~= seq![x]);
    assert(names.drop_last().drop_last() =~= Seq::empty());
}

/// Sums that grow beyond what can be counted stay at the largest number.
pub proof fn sums_stay_within_what_can_be_counted(a: u64, b: u64, m: usize, n: usize)
    ensures
        a + b <= 0xffff_ffff_ffff_ffff ==> capped_sum(a as int, b as int) == a + b,
        a + b > 0xffff_ffff_ffff_ffff ==> capped_sum(a as int, b as int) == 0xffff_ffff_ffff_ffff,
        m + n <= usize::MAX ==> capped_count(m as nat, n as nat) == m + n,
        m + n > usize::MAX ==> capped_count(m as nat, n as nat) == usize::MAX,
{
}

proof fn plain_texts_have_nothing_to_double(s: Seq<char>)
    requires
        !s.contains('"'),
    ensures
        doubled(s) == s,
    decreases s.len(),
{
    if s.len() > 0 {
        let front = s.drop_last();
        assert forall|i: int| 0 <= i < front.len() implies #[trigger] front[i] != '"' by {
            assert(s.contains(s[i]));
        }
        plain_texts_have_nothing_to_double(front);
        assert(s.contains(s.last()));
        assert(front.push(s.last()) =~= s);
    }
}

proof fn doubling_goes_through(a: Seq<char>, b: Seq<char>)
    ensures
        doubled(a + b) == doubled(a) + doubled(b),
    decreases b.len(),
{
    if b.len() == 0 {
        assert(a + b =~= a);
        assert(doubled(a) + doubled(b) =~= doubled(a));
    } else {
        assert((a + b).drop_last() =~= a + b.drop_last());
        doubling_goes_through(a, b.drop_last());
        assert(doubled(a + b) =~= doubled(a) + doubled(b));
    }
}

/// In a field that stands in quotes a quote is written twice; the rest is kept as it is.
pub proof fn quotes_are_written_twice(a: Seq<char>, b: Seq<char>)
    requires
        !a.contains('"'),
        !b.contains('"'),
    ensures
        a.contains(',') || a.contains('\n') || a.contains('\r') ==> quoted(a) == seq!['"'] + a
            + seq!['"'],
        quoted(a + seq!['"'] + b) == seq!['"'] + a + seq!['"', '"'] + b + seq!['"'],
{
    plain_texts_have_nothing_to_double(a);
    plain_texts_have_nothing_to_double(b);
    let one = seq!['"'];
    assert(one.drop_last() =~= Seq::empty());
    assert(one.last() == '"');
    assert(doubled(one.drop_last()) =~= Seq::<char>::empty());
    assert(doubled(one) =~= seq!['"', '"']);
    doubling_goes_through(a, one);
    doubling_goes_through(a + one, b);
    let whole = a + one + b;
    assert(whole[a.len() as int] == '"');
    assert(whole.contains('"'));
    assert(quoted(whole) =~= seq!['"'] + a + seq!['"', '"'] + b + seq!['"']);
}

/// A name is among some names where one of them is that name, the first and the last one
/// counted.
pub proof fn names_are_among_names(names: Seq<String>, name: Seq<char>)
    ensures
        has_name(names, name) <==> texts(names).contains(name),
{
    if has_name(names, name) {
        let i = choose|i: int| 0 <= i < names.len() && (#[trigger] names[i])@ == name;
        assert(texts(names)[i] == name);
    }
    if texts(names).contains(name) {
        let i = choose|i: int| 0 <= i < texts(names).len() && texts(names)[i] == name;
        assert(names[i]@ == name);
    }
}

/// A search from the root sees all names of a path.
pub proof fn searches_may_start_at_the_root(rest: Seq<char>)
    ensures
        is_found(seq!['/'], seq!['/'] + rest) <==> image_path(seq!['/'] + rest) && forall|i: int|
            0 <= i < components(rest).len() - 1 ==> !host_directory(#[trigger] components(rest)[i]),
{
    let root = seq!['/'];
    assert(root.drop_last() =~= Seq::empty());
    assert(without_end_slashes(root.drop_last()) == Seq::<char>::empty());
    assert(without_end_slashes(root) == Seq::<char>::empty());
    assert(path_in_search(root, root + rest) == root + rest);
    components_ignore_leading_slash(rest);
}

proof fn no_separator_is_found(s: Seq<char>, i: int)
    requires
        0 <= i,
        forall|j: int| i <= j < s.len() - 1 ==> !(#[trigger] s[j] == ':' && s[j + 1] == '/'),
    ensures
        separator_from(s, i) is None,
    decreases s.len() - i,
{
    if i + 1 < s.len() {
        no_separator_is_found(s, i + 1);
    }
}

/// A colon that is followed by neither a number nor a slash is part of the path.
pub proof fn other_colons_are_part_of_the_path(path: Seq<char>, word: Seq<char>)
    requires
        path.len() >= 2,
        has_no_colon(path),
        has_no_colon(word),
        word.len() > 0 ==> word[0] != '/',
        !is_number(word) || number_value(word) > usize::MAX,
    ensures
        spec_of(path + seq![':'] + word) == (ImageSpecModel {
            path: path + seq![':'] + word,
            partition: None,
            inner_path: Seq::empty(),
        }),
{
    let s = path + seq![':'] + word;
    let n = path.len() as int;
    assert(s[0] == path[0] && s[1] == path[1] && s[n] == ':');
    assert forall|j: int| 0 <= j < s.len() && j != n implies #[trigger] s[j] != ':' by {
        if j < n {
            assert(s[j] == path[j]);
        } else {
            assert(s[j] == word[j - n - 1]);
        }
    }
    if word.len() > 0 {
        assert(s[n + 1] == word[0]);
    }
    no_separator_is_found(s, 0);
    the_last_place_is_found(s, ':');
    assert(rfind_char(s, ':') == n);
    assert(s.skip(n + 1) =~= word);
}

/// A character that is no letter is no drive: what follows its colon is the inner path.
pub proof fn other_characters_are_no_drives(c: char, inner: Seq<char>)
    requires
        c != ':',
        !(65 <= c as int <= 90 || 97 <= c as int <= 122),
        inner.len() > 0,
        inner[0] == '/',
    ensures
        spec_of(seq![c, ':'] + inner) == (ImageSpecModel {
            path: seq![c],
            partition: None,
            inner_path: inner,
        }),
{
    let s = seq![c, ':'] + inner;
    assert(s[0] == c && s[1] == ':' && s[2] == '/');
    assert(separator_from(s, 1) == Some(1int));
    assert(separator_from(s, 0) == Some(1int));
    assert(s.take(1) =~= seq![c]);
    the_last_place_is_found(s.take(1), ':');
    assert(s.skip(2) =~= inner);
}

} // verus!
