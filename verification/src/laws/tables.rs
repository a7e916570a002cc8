//! What stands in the tables that are made from records.

use crate::document::{first_value, FieldModel};
use crate::extract::{kept_json, record_document, RecordModel};
use crate::json::JsonModel;
use crate::laws::records::value_under;
use crate::metadata::{all_cells, cells, clauses_of, flattened, flattened_members, meets_all,
    passes, prefetch_of, row_of, row_order, row_orders_are_orders, rows_passing, table_rows,
    text_under, DENNOU_COLUMNS, MetadataFilters, MetadataView, OrderBy, QueryOpts, RowModel};
use crate::schema::Field;
use crate::sort::{in_order, sorted_by, sorting_keeps_all, sorting_puts_in_order};
use crate::text::{decimal, has_part, text_le, text_order_is_total};
use vstd::prelude::*;

verus! {

/// The columns of the table of music, in order.
pub proof fn columns_have_their_names()
    ensures
        DENNOU_COLUMNS@.len() == 12,
        DENNOU_COLUMNS@[0]@ == "issue_no"@,
        DENNOU_COLUMNS@[1]@ == "issue_kind"@,
        DENNOU_COLUMNS@[2]@ == "title"@,
        DENNOU_COLUMNS@[3]@ == "original_artist"@,
        DENNOU_COLUMNS@[4]@ == "composer"@,
        DENNOU_COLUMNS@[5]@ == "arranger"@,
        DENNOU_COLUMNS@[6]@ == "submitter"@,
        DENNOU_COLUMNS@[7]@ == "submitter_pref"@,
        DENNOU_COLUMNS@[8]@ == "engine"@,
        DENNOU_COLUMNS@[9]@ == "duration"@,
        DENNOU_COLUMNS@[10]@ == "image_path"@,
        DENNOU_COLUMNS@[11]@ == "source_path"@,
{
}

/// The cells of a row: the number and the kind of the issue, what the payload has under the
/// names of the columns, and where the record is from.
pub proof fn cells_stand_under_their_columns(row: RowModel)
    ensures
        cells(row).len() == 12,
        cells(row)[0] == decimal(row.issue_no as nat),
        cells(row)[1] == row.issue_kind,
        cells(row)[2] == text_under(row.payload, "title"@),
        cells(row)[3] == text_under(row.payload, "original_artist"@),
        cells(row)[4] == text_under(row.payload, "composer"@),
        cells(row)[5] == text_under(row.payload, "arranger"@),
        cells(row)[6] == text_under(row.payload, "submitter"@),
        cells(row)[7] == text_under(row.payload, "submitter_pref"@),
        cells(row)[8] == text_under(row.payload, "engine"@),
        cells(row)[9] == text_under(row.payload, "duration"@),
        cells(row)[10] == row.image_path,
        cells(row)[11] == row.source_path,
{
    reveal_strlit("issue_no");
    reveal_strlit("issue_kind");
    reveal_strlit("title");
    reveal_strlit("original_artist");
    reveal_strlit("composer");
    reveal_strlit("arranger");
    reveal_strlit("submitter");
    reveal_strlit("submitter_pref");
    reveal_strlit("engine");
    reveal_strlit("duration");
    reveal_strlit("image_path");
    reveal_strlit("source_path");
    assert("title"@.len() == 5 && "composer"@.len() == 8 && "composer"@[0] == 'c');
    assert("arranger"@.len() == 8 && "arranger"@[0] == 'a' && "issue_no"@[0] == 'i');
    assert("submitter"@.len() == 9 && "engine"@.len() == 6);
    assert("duration"@.len() == 8 && "duration"@[0] == 'd');
    assert("submitter_pref"@.len() == 14 && "original_artist"@.len() == 15);
    assert("image_path"@.len() == 10 && "issue_kind"@.len() == 10 && "image_path"@[1] == 'm'
        && "issue_kind"@[1] == 's');
    assert("source_path"@.len() == 11);
}

/// The row of a document: its fields, and its payload spread out.
pub proof fn rows_have_the_fields_of_their_documents(doc: Seq<(Field, FieldModel)>)
    ensures
        ({
            let row = row_of(doc);
            &&& first_value(doc, Field::ImagePath) matches Some(FieldModel::Text(s)) ==> row.image_path
                == s
            &&& first_value(doc, Field::FilePath) matches Some(FieldModel::Text(s)) ==> row.source_path
                == s
            &&& first_value(doc, Field::IssueNo) matches Some(FieldModel::U64(n)) ==> row.issue_no
                == n
            &&& first_value(doc, Field::IssueKind) matches Some(FieldModel::Text(s)) ==> row.issue_kind
                == s
            &&& first_value(doc, Field::Payload) matches Some(FieldModel::Json(j)) ==> row.payload
                == flattened(Seq::empty(), j, Map::empty())
            &&& first_value(doc, Field::Payload) is None ==> row.payload == Map::<
                Seq<char>,
                Seq<char>,
            >::empty()
        }),
{
}

/// Whether a payload is flat: a list of names with texts.
pub open spec fn flat(members: Seq<(Seq<char>, JsonModel)>) -> bool {
    forall|i: int| 0 <= i < members.len() ==> (#[trigger] members[i]).1 is Text
}

proof fn text_is_spread(members: Seq<(Seq<char>, JsonModel)>, n: nat)
    requires
        0 < n <= members.len(),
        members[n - 1].1 is Text,
    ensures
        flattened_members(Seq::empty(), members, n, Map::empty()) == flattened_members(
            Seq::empty(),
            members,
            (n - 1) as nat,
            Map::empty(),
        ).insert(members[n - 1].0, members[n - 1].1->Text_0),
{
    reveal_with_fuel(flattened, 2);
    reveal_with_fuel(flattened_members, 2);
}

proof fn flat_members_are_spread(members: Seq<(Seq<char>, JsonModel)>, n: nat, k: int)
    requires
        flat(members),
        0 <= k < n <= members.len(),
        forall|j: int| k < j < n ==> (#[trigger] members[j]).0 != members[k].0,
    ensures
        ({
            let m = flattened_members(Seq::empty(), members, n, Map::empty());
            m.dom().contains(members[k].0) && m[members[k].0] == members[k].1->Text_0
        }),
    decreases n,
{
    let last = members[n - 1];
    assert(last.1 is Text);
    text_is_spread(members, n);
    if k < n - 1 {
        flat_members_are_spread(members, (n - 1) as nat, k);
        assert(last.0 != members[k].0);
    }
}

proof fn other_names_are_not_spread(members: Seq<(Seq<char>, JsonModel)>, n: nat, name: Seq<char>)
    requires
        flat(members),
        n <= members.len(),
        forall|j: int| 0 <= j < n ==> (#[trigger] members[j]).0 != name,
    ensures
        !flattened_members(Seq::empty(), members, n, Map::empty()).dom().contains(name),
    decreases n,
{
    reveal_with_fuel(flattened_members, 2);
    if n > 0 {
        assert(members[n - 1].1 is Text);
        text_is_spread(members, n);
        assert(members[n - 1].0 != name);
        other_names_are_not_spread(members, (n - 1) as nat, name);
    }
}

/// A flat payload is spread by its names: under each name stands the text of its last
/// member with that name, and under any other name the empty text.
pub proof fn payloads_are_spread_by_name(members: Seq<(Seq<char>, JsonModel)>, name: Seq<char>)
    requires
        flat(members),
    ensures
        ({
            let m = flattened(Seq::empty(), JsonModel::Object(members), Map::empty());
            &&& forall|k: int|
                #![trigger members[k]]
                0 <= k < members.len() && members[k].0 == name && (forall|j: int|
                    k < j < members.len() ==> (#[trigger] members[j]).0 != name) ==> text_under(
                    m,
                    name,
                ) == members[k].1->Text_0
            &&& (forall|j: int| 0 <= j < members.len() ==> (#[trigger] members[j]).0 != name)
                ==> text_under(m, name) == Seq::<char>::empty()
        }),
{
    let m = flattened(Seq::empty(), JsonModel::Object(members), Map::empty());
    assert(m == flattened_members(Seq::empty(), members, members.len(), Map::empty()));
    assert forall|k: int|
        #![trigger members[k]]
        0 <= k < members.len() && members[k].0 == name && (forall|j: int|
            k < j < members.len() ==> (#[trigger] members[j]).0 != name) implies text_under(m, name)
        == members[k].1->Text_0 by {
        flat_members_are_spread(members, members.len(), k);
    }
    if forall|j: int| 0 <= j < members.len() ==> (#[trigger] members[j]).0 != name {
        other_names_are_not_spread(members, members.len(), name);
    }
}

/// Whether a cell holds what is asked for, if anything is.
pub open spec fn cell_holds(cell: Seq<char>, part: Option<String>) -> bool {
    part matches Some(p) ==> has_part(cell, p@)
}

/// Whether the cells of a row meet the filters: those under `title`, `submitter` and
/// `engine`.
pub open spec fn cells_meet(row: Seq<Seq<char>>, f: MetadataFilters) -> bool {
    &&& cell_holds(row[2], f.title_contains)
    &&& cell_holds(row[6], f.submitter_contains)
    &&& cell_holds(row[8], f.engine_contains)
}

proof fn passing_is_by_cells(row: RowModel, f: MetadataFilters)
    ensures
        passes(row, f) <==> cells_meet(cells(row), f),
{
    cells_stand_under_their_columns(row);
}

proof fn passing_rows_are_filtered(docs: Seq<Seq<(Field, FieldModel)>>, f: MetadataFilters)
    ensures
        rows_passing(docs, f) == docs.map_values(
            |d: Seq<(Field, FieldModel)>| row_of(d),
        ).filter(|row: RowModel| cells_meet(cells(row), f)),
    decreases docs.len(),
{
    reveal(Seq::filter);
    let made = |d: Seq<(Field, FieldModel)>| row_of(d);
    let keep = |row: RowModel| cells_meet(cells(row), f);
    let all = docs.map_values(made);
    if docs.len() > 0 {
        passing_rows_are_filtered(docs.drop_last(), f);
        assert(all.drop_last() =~= docs.drop_last().map_values(made));
        passing_is_by_cells(row_of(docs.last()), f);
        assert(all.last() == row_of(docs.last()));
    } else {
        assert(all.filter(keep) =~= Seq::empty());
    }
}

/// A table has the rows of those documents whose cells hold what is asked for: all of them,
/// where there are not more than may be; otherwise the first ones in the order.
pub proof fn tables_have_the_rows_that_are_asked_for(
    docs: Seq<Seq<(Field, FieldModel)>>,
    opts: QueryOpts,
)
    ensures
        ({
            let table = all_cells(table_rows(docs, opts));
            let asked = docs.map_values(|d: Seq<(Field, FieldModel)>| row_of(d)).filter(
                |row: RowModel| cells_meet(cells(row), opts.filters),
            );
            let all = sorted_by(asked, row_order(opts.order_by));
            &&& all.to_multiset() == asked.to_multiset()
            &&& in_order(all, row_order(opts.order_by))
            &&& table.len() == if asked.len() < opts.limit {
                asked.len() as int
            } else {
                opts.limit as int
            }
            &&& forall|i: int|
                0 <= i < table.len() ==> #[trigger] table[i] == cells(all[i]) && cells_meet(
                    table[i],
                    opts.filters,
                )
        }),
{
    broadcast use vstd::seq_lib::group_to_multiset_ensures;

    let le = row_order(opts.order_by);
    let made = |d: Seq<(Field, FieldModel)>| row_of(d);
    let keep = |row: RowModel| cells_meet(cells(row), opts.filters);
    let asked = docs.map_values(made).filter(keep);
    let all = sorted_by(asked, le);
    passing_rows_are_filtered(docs, opts.filters);
    row_orders_are_orders(opts.order_by);
    sorting_keeps_all(asked, le);
    sorting_puts_in_order(asked, le);
    let table = all_cells(table_rows(docs, opts));
    assert forall|i: int| 0 <= i < table.len() implies #[trigger] table[i] == cells(all[i])
        && cells_meet(table[i], opts.filters) by {
        assert(all.contains(all[i]));
        assert(asked.to_multiset().contains(all[i]));
        assert(asked.contains(all[i]));
        docs.map_values(made).lemma_filter_contains_rev(keep, all[i]);
    }
}

/// A document whose cells hold what is asked for is in the table, if there are not more
/// such documents than may be; one whose cells do not hold it is not.
pub proof fn documents_are_in_the_table_if_asked_for(
    docs: Seq<Seq<(Field, FieldModel)>>,
    opts: QueryOpts,
    d: int,
)
    requires
        0 <= d < docs.len(),
        docs.len() <= opts.limit,
        cells_meet(cells(row_of(docs[d])), opts.filters),
    ensures
        all_cells(table_rows(docs, opts)).contains(cells(row_of(docs[d]))),
{
    broadcast use vstd::seq_lib::group_to_multiset_ensures;

    let made = |d: Seq<(Field, FieldModel)>| row_of(d);
    let keep = |row: RowModel| cells_meet(cells(row), opts.filters);
    let rows = docs.map_values(made);
    let asked = rows.filter(keep);
    tables_have_the_rows_that_are_asked_for(docs, opts);
    let all = sorted_by(asked, row_order(opts.order_by));
    rows.lemma_filter_len(keep);
    let row = row_of(docs[d]);
    assert(rows[d] == row);
    rows.lemma_filter_contains(keep, d);
    assert(asked.contains(row));
    assert(asked.to_multiset().contains(row));
    assert(all.to_multiset().contains(row));
    assert(all.contains(row));
    let i = choose|i: int| 0 <= i < all.len() && all[i] == row;
    sorting_keeps_all(asked, row_order(opts.order_by));
    let table = all_cells(table_rows(docs, opts));
    assert(table[i] == cells(all[i]));
}

/// Issues are ordered by kind, then by number, up or down, then by file; titles by
/// themselves.
pub proof fn rows_are_ordered_by_issue_or_title(
    docs: Seq<Seq<(Field, FieldModel)>>,
    opts: QueryOpts,
    i: int,
    j: int,
)
    requires
        0 <= i < j < table_rows(docs, opts).len(),
    ensures
        ({
            let a = table_rows(docs, opts)[i];
            let b = table_rows(docs, opts)[j];
            &&& opts.order_by == OrderBy::TitleAsc ==> text_le(
                text_under(a.payload, "title"@),
                text_under(b.payload, "title"@),
            )
            &&& opts.order_by != OrderBy::TitleAsc ==> text_le(a.issue_kind, b.issue_kind)
            &&& opts.order_by == OrderBy::IssueAsc && a.issue_kind == b.issue_kind ==> a.issue_no
                <= b.issue_no
            &&& opts.order_by == OrderBy::IssueDesc && a.issue_kind == b.issue_kind ==> a.issue_no
                >= b.issue_no
            &&& opts.order_by != OrderBy::TitleAsc && a.issue_kind == b.issue_kind && a.issue_no
                == b.issue_no ==> text_le(a.source_path, b.source_path)
        }),
{
    crate::metadata::tables_are_in_order(docs, opts);
    let a = table_rows(docs, opts)[i];
    let b = table_rows(docs, opts)[j];
    let le = row_order(opts.order_by);
    assert(le(a, b));
    text_order_is_total(a.issue_kind, a.issue_kind);
}

/// A document is asked of the index where it is of the category `music`, its issue is not
/// before the first nor after the last one asked for, and it is of the kind asked for,
/// unless that is `all` or nothing.
pub proof fn the_index_is_asked_for_the_filters(
    doc: Seq<(Field, FieldModel)>,
    view: MetadataView,
    f: MetadataFilters,
)
    ensures
        meets_all(doc, clauses_of(view, f)) <==> {
            &&& first_value(doc, Field::Category) == Some(FieldModel::Text("music"@))
            &&& f.issue_no_min is Some || f.issue_no_max is Some ==> first_value(
                doc,
                Field::IssueNo,
            ) is Some && first_value(doc, Field::IssueNo)->0 is U64
            &&& f.issue_no_min matches Some(n) ==> first_value(doc, Field::IssueNo)->0->U64_0 >= n
            &&& f.issue_no_max matches Some(n) ==> first_value(doc, Field::IssueNo)->0->U64_0 <= n
            &&& f.issue_kind matches Some(k) ==> k@ == "all"@ || k@.len() == 0 || first_value(
                doc,
                Field::IssueKind,
            ) == Some(FieldModel::Text(k@))
        },
{
    crate::metadata::conditions_mean_the_filters(doc, view, f);
}

/// Four times as many records are asked of the index as rows may be, but never more than
/// fifty thousand.
pub proof fn enough_records_are_asked_for(limit: int)
    requires
        1 <= limit <= 50_000,
    ensures
        limit <= prefetch_of(limit) <= 50_000,
        4 * limit <= 50_000 ==> prefetch_of(limit) == 4 * limit,
        4 * limit >= 50_000 ==> prefetch_of(limit) == 50_000,
{
}

proof fn inner_values_have_dots(
    prefix: Seq<char>,
    v: JsonModel,
    m: Map<Seq<char>, Seq<char>>,
    key: Seq<char>,
)
    requires
        prefix.len() > 0,
        key != prefix,
        !key.contains('.'),
    ensures
        ({
            let r = flattened(prefix, v, m);
            &&& r.dom().contains(key) == m.dom().contains(key)
            &&& r.dom().contains(key) ==> r[key] == m[key]
        }),
    decreases v, 0nat,
{
    match v {
        JsonModel::Array(items) => {
            if items.len() > 0 {
                reveal_strlit(".0");
                let inner = prefix + ".0"@;
                assert(inner[prefix.len() as int] == '.');
                assert(inner != key) by {
                    if inner == key {
                        assert(key.contains('.'));
                    }
                }
                assert(decreases_to!(v => items));
                assert(decreases_to!(items => items[0]));
                inner_values_have_dots(inner, items[0], m, key);
            }
        },
        JsonModel::Object(members) => {
            assert(decreases_to!(v => members));
            inner_members_have_dots(prefix, members, members.len(), m, key);
        },
        _ => {},
    }
}

proof fn inner_members_have_dots(
    prefix: Seq<char>,
    members: Seq<(Seq<char>, JsonModel)>,
    n: nat,
    m: Map<Seq<char>, Seq<char>>,
    key: Seq<char>,
)
    requires
        prefix.len() > 0,
        key != prefix,
        !key.contains('.'),
        n <= members.len(),
    ensures
        ({
            let r = flattened_members(prefix, members, n, m);
            &&& r.dom().contains(key) == m.dom().contains(key)
            &&& r.dom().contains(key) ==> r[key] == m[key]
        }),
    decreases members, n,
{
    if n > 0 {
        inner_members_have_dots(prefix, members, (n - 1) as nat, m, key);
        let before = flattened_members(prefix, members, (n - 1) as nat, m);
        let inner = prefix + seq!['.'] + members[n - 1].0;
        assert(inner[prefix.len() as int] == '.');
        assert(inner != key) by {
            if inner == key {
                assert(key.contains('.'));
            }
        }
        assert(decreases_to!(members => members[n - 1]));
        assert(decreases_to!(members[n - 1] => members[n - 1].1));
        inner_values_have_dots(inner, members[n - 1].1, before, key);
    }
}

proof fn names_are_spread(members: Seq<(Seq<char>, JsonModel)>, n: nat, key: Seq<char>)
    requires
        n <= members.len(),
        !key.contains('.'),
        forall|i: int| 0 <= i < members.len() ==> (#[trigger] members[i]).0.len() > 0,
    ensures
        ({
            let m = flattened_members(Seq::empty(), members, n, Map::empty());
            match value_under(members.take(n as int), key) {
                Some(JsonModel::Text(t)) => m.dom().contains(key) && m[key] == t,
                None => !m.dom().contains(key),
                _ => true,
            }
        }),
    decreases n,
{
    let now = members.take(n as int);
    if n > 0 {
        let last = members[n - 1];
        assert(now.last() == last);
        assert(now.drop_last() =~= members.take(n - 1));
        names_are_spread(members, (n - 1) as nat, key);
        let before = flattened_members(Seq::empty(), members, (n - 1) as nat, Map::empty());
        reveal_with_fuel(flattened, 2);
        reveal_with_fuel(flattened_members, 2);
        assert(flattened_members(Seq::empty(), members, n, Map::empty()) == flattened(
            last.0,
            last.1,
            before,
        ));
        if last.0 != key {
            inner_values_have_dots(last.0, last.1, before, key);
        }
    }
}

proof fn kept_values_stand_under_their_names(members: Seq<(Seq<char>, JsonModel)>, key: Seq<char>)
    ensures
        ({
            let kept = kept_json(JsonModel::Object(members))->Object_0;
            &&& kept.len() == members.len()
            &&& forall|i: int| 0 <= i < kept.len() ==> (#[trigger] kept[i]).0 == members[i].0
            &&& match value_under(members, key) {
                Some(JsonModel::Text(t)) => value_under(kept, key) == Some(JsonModel::Text(t)),
                None => value_under(kept, key) is None,
                _ => true,
            }
        }),
    decreases members.len(),
{
    reveal_with_fuel(kept_json, 2);
    let kept = kept_json(JsonModel::Object(members))->Object_0;
    if members.len() > 0 {
        let fewer = members.drop_last();
        kept_values_stand_under_their_names(fewer, key);
        assert(kept_json(JsonModel::Object(fewer))->Object_0 =~= kept.drop_last());
        assert(kept.last() == (members.last().0, kept_json(members.last().1)));
    }
}

/// A record fills the columns of its row: under each name without a dot stands the text
/// that its payload has under that name, and nothing where it has none.
pub proof fn records_fill_their_columns(
    r: RecordModel,
    members: Seq<(Seq<char>, JsonModel)>,
    name: Seq<char>,
)
    requires
        r.payload == JsonModel::Object(members),
        !name.contains('.'),
        forall|i: int| 0 <= i < members.len() ==> (#[trigger] members[i]).0.len() > 0,
    ensures
        ({
            let cell = text_under(row_of(record_document(r)).payload, name);
            match value_under(members, name) {
                Some(JsonModel::Text(t)) => cell == t,
                None => cell == Seq::<char>::empty(),
                _ => true,
            }
        }),
{
    crate::metadata::rows_give_records_back(r);
    let kept = kept_json(r.payload)->Object_0;
    kept_values_stand_under_their_names(members, name);
    assert forall|i: int| 0 <= i < kept.len() implies (#[trigger] kept[i]).0.len() > 0 by {
        assert(kept[i].0 == members[i].0);
    }
    names_are_spread(kept, kept.len(), name);
    assert(kept.take(kept.len() as int) =~= kept);
}

} // verus!
