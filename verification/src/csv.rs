//! Reading comma-separated lines back.

use crate::metadata::{csv_line, csv_lines, csv_text, doubled, needs_quotes, quoted,
    quoting_is_reversible, unquoted};
use vstd::prelude::*;

verus! {

/// Where a field ends that starts at `i` and is not in quotes: at the next comma or
/// line feed.
pub open spec fn bare_end(s: Seq<char>, i: int) -> int
    decreases s.len() - i,
{
    if !(0 <= i < s.len()) || s[i] == ',' || s[i] == '\n' {
        i
    } else {
        bare_end(s, i + 1)
    }
}

/// Where a field in quotes ends, from a place behind its first quote on: behind the
/// first quote that is not one of a pair.
pub open spec fn quotes_end(s: Seq<char>, i: int) -> int
    decreases s.len() - i,
{
    if !(0 <= i < s.len()) {
        i
    } else if s[i] != '"' {
        quotes_end(s, i + 1)
    } else if i + 1 < s.len() && s[i + 1] == '"' {
        quotes_end(s, i + 2)
    } else {
        i + 1
    }
}

/// Where the field that starts at `i` ends.
pub open spec fn field_end(s: Seq<char>, i: int) -> int {
    if 0 <= i < s.len() && s[i] == '"' {
        quotes_end(s, i + 1)
    } else {
        bare_end(s, i)
    }
}

/// The fields from `i` to the end of the line, and where the next line starts.
pub open spec fn fields_from(s: Seq<char>, i: int) -> (Seq<Seq<char>>, int)
    decreases s.len() - i,
{
    let end = field_end(s, i);
    if !(0 <= i <= end <= s.len()) {
        (Seq::empty(), s.len() as int)
    } else {
        let field = unquoted(s.subrange(i, end));
        if end < s.len() && s[end] == ',' {
            let (more, next) = fields_from(s, end + 1);
            (seq![field] + more, next)
        } else {
            (seq![field], end + 1)
        }
    }
}

/// The lines from `i` on, each as its fields.
pub open spec fn lines_from(s: Seq<char>, i: int) -> Seq<Seq<Seq<char>>>
    decreases s.len() - i,
{
    if !(0 <= i < s.len()) {
        Seq::empty()
    } else {
        let (fields, next) = fields_from(s, i);
        if !(i < next <= s.len()) {
            seq![fields]
        } else {
            seq![fields] + lines_from(s, next)
        }
    }
}

/// The lines of a comma-separated text behind its byte order mark.
pub open spec fn csv_read(s: Seq<char>) -> Seq<Seq<Seq<char>>> {
    lines_from(s, 1)
}

/// Whether `part` stands in `s` at `at`.
spec fn stands(s: Seq<char>, at: int, part: Seq<char>) -> bool {
    &&& 0 <= at
    &&& at + part.len() <= s.len()
    &&& forall|j: int| at <= j < at + part.len() ==> #[trigger] s[j] == part[j - at]
}

/// Whether a field may end at `at`.
spec fn is_end(s: Seq<char>, at: int) -> bool {
    0 <= at < s.len() && (s[at] == ',' || s[at] == '\n')
}

proof fn part_stands(s: Seq<char>, at: int, a: Seq<char>, b: Seq<char>)
    requires
        stands(s, at, a + b),
    ensures
        stands(s, at, a),
        stands(s, at + a.len(), b),
{
    let whole = a + b;
    assert forall|j: int| at <= j < at + a.len() implies #[trigger] s[j] == a[j - at] by {
        assert(s[j] == whole[j - at]);
    }
    assert forall|j: int| at + a.len() <= j < at + a.len() + b.len() implies #[trigger] s[j] == b[j
        - (at + a.len())] by {
        assert(s[j] == whole[j - at]);
    }
}

proof fn bare_field_ends(s: Seq<char>, i: int, end: int)
    requires
        0 <= i <= end,
        is_end(s, end),
        forall|j: int| i <= j < end ==> #[trigger] s[j] != ',' && s[j] != '\n',
    ensures
        bare_end(s, i) == end,
    decreases end - i,
{
    if i < end {
        bare_field_ends(s, i + 1, end);
    }
}

/// The doubled beginning of a text is a beginning of the doubled text.
proof fn doubled_beginning(f: Seq<char>, k: int)
    requires
        0 <= k <= f.len(),
    ensures
        doubled(f.take(k)).len() <= doubled(f).len(),
        doubled(f.take(k)) == doubled(f).take(doubled(f.take(k)).len() as int),
    decreases f.len() - k,
{
    if k == f.len() {
        assert(f.take(k) =~= f);
        assert(doubled(f).take(doubled(f).len() as int) =~= doubled(f));
    } else {
        doubled_beginning(f, k + 1);
        let now = f.take(k + 1);
        assert(now.drop_last() =~= f.take(k));
        assert(doubled(f.take(k)) =~= doubled(f).take(doubled(f.take(k)).len() as int));
    }
}

proof fn quotes_are_passed(s: Seq<char>, at: int, f: Seq<char>, k: int)
    requires
        stands(s, at, doubled(f)),
        0 <= k <= f.len(),
    ensures
        quotes_end(s, at) == quotes_end(s, at + doubled(f.take(k)).len()),
    decreases k,
{
    if k == 0 {
        assert(f.take(0).len() == 0);
    } else {
        quotes_are_passed(s, at, f, k - 1);
        let now = f.take(k);
        assert(now.drop_last() =~= f.take(k - 1));
        let before = doubled(f.take(k - 1));
        doubled_beginning(f, k);
        let here = at + before.len();
        assert(doubled(now)[before.len() as int] == doubled(f)[before.len() as int]);
        assert(s[here] == doubled(f)[before.len() as int]);
        if now.last() == '"' {
            assert(doubled(now)[before.len() as int + 1] == doubled(f)[before.len() as int + 1]);
            assert(s[here + 1] == doubled(f)[before.len() as int + 1]);
        }
    }
}

proof fn field_is_read(s: Seq<char>, i: int, f: Seq<char>)
    requires
        stands(s, i, quoted(f)),
        is_end(s, i + quoted(f).len()),
    ensures
        field_end(s, i) == i + quoted(f).len(),
        unquoted(s.subrange(i, i + quoted(f).len())) == f,
{
    let q = quoted(f);
    let end = i + q.len();
    quoting_is_reversible(f);
    assert(s.subrange(i, end) =~= q);
    if needs_quotes(f) {
        let inner = doubled(f);
        assert(q =~= seq!['"'] + (inner + seq!['"']));
        part_stands(s, i, seq!['"'], inner + seq!['"']);
        part_stands(s, i + 1, inner, seq!['"']);
        quotes_are_passed(s, i + 1, f, f.len() as int);
        assert(f.take(f.len() as int) =~= f);
        assert(s[i] == '"');
        assert(s[i + 1 + inner.len()] == '"');
        assert(s[end] != '"');
    } else {
        assert forall|j: int| i <= j < end implies #[trigger] s[j] != ',' && s[j] != '\n' by {
            assert(s[j] == f[j - i]);
            assert(f.contains(f[j - i]));
        }
        if f.len() > 0 {
            assert(s[i] == f[0]);
            assert(f.contains(f[0]));
        }
        bare_field_ends(s, i, end);
    }
}

/// The line up to its `k`th field is a beginning of the line.
proof fn line_beginning(row: Seq<Seq<char>>, k: int)
    requires
        0 < k <= row.len(),
    ensures
        csv_line(row.take(k)).len() <= csv_line(row).len(),
        csv_line(row.take(k)) == csv_line(row).take(csv_line(row.take(k)).len() as int),
        k < row.len() ==> csv_line(row.take(k)).len() < csv_line(row).len() && csv_line(
            row,
        )[csv_line(row.take(k)).len() as int] == ',',
    decreases row.len() - k,
{
    if k == row.len() {
        assert(row.take(k) =~= row);
        assert(csv_line(row).take(csv_line(row).len() as int) =~= csv_line(row));
    } else {
        line_beginning(row, k + 1);
        let now = row.take(k + 1);
        let here = csv_line(row.take(k));
        assert(now.drop_last() =~= row.take(k));
        assert(csv_line(now) == here + seq![','] + quoted(now.last()));
        assert(csv_line(now)[here.len() as int] == csv_line(row)[here.len() as int]);
        assert(here =~= csv_line(row).take(here.len() as int));
    }
}

/// Where field `k` of a line starts.
spec fn field_start(row: Seq<Seq<char>>, k: int) -> int {
    if k <= 0 {
        0
    } else {
        csv_line(row.take(k)).len() as int + 1
    }
}

proof fn fields_are_read(s: Seq<char>, at: int, row: Seq<Seq<char>>, k: int)
    requires
        stands(s, at, csv_line(row)),
        at + csv_line(row).len() < s.len(),
        s[at + csv_line(row).len()] == '\n',
        0 <= k < row.len(),
    ensures
        fields_from(s, at + field_start(row, k)) == (
            row.skip(k),
            at + csv_line(row).len() + 1,
        ),
    decreases row.len() - k,
{
    let line = csv_line(row);
    let start = field_start(row, k);
    let i = at + start;
    let now = row.take(k + 1);
    let q = quoted(row[k]);
    if k > 0 {
        line_beginning(row, k);
    }
    line_beginning(row, k + 1);
    assert(now.last() == row[k]);
    assert(csv_line(now).len() == start + q.len()) by {
        assert(now.drop_last() =~= row.take(k));
    }
    assert forall|j: int| i <= j < i + q.len() implies #[trigger] s[j] == q[j - i] by {
        assert(s[j] == line[j - at]);
        assert(line[j - at] == csv_line(now)[j - at]);
        if k == 0 {
            assert(csv_line(now) == q);
        } else {
            assert(now.drop_last() =~= row.take(k));
            assert(csv_line(now) == csv_line(row.take(k)) + seq![','] + q);
        }
    }
    let end = i + q.len();
    assert(0 <= start);
    if k + 1 < row.len() {
        assert(s[end] == line[end - at]);
        assert(s[end] == ',');
    } else {
        assert(now =~= row);
        assert(s[end] == '\n');
    }
    field_is_read(s, i, row[k]);
    if k + 1 < row.len() {
        fields_are_read(s, at, row, k + 1);
        assert(field_start(row, k + 1) == end - at + 1);
        assert(row.skip(k) =~= seq![row[k]] + row.skip(k + 1));
    } else {
        assert(row.skip(k) =~= seq![row[k]]);
    }
}

proof fn line_is_read(s: Seq<char>, at: int, row: Seq<Seq<char>>)
    requires
        row.len() > 0,
        stands(s, at, csv_line(row) + seq!['\n']),
    ensures
        fields_from(s, at) == (row, at + csv_line(row).len() + 1),
{
    part_stands(s, at, csv_line(row), seq!['\n']);
    assert(s[at + csv_line(row).len()] == '\n');
    fields_are_read(s, at, row, 0);
    assert(row.skip(0) =~= row);
}

proof fn lines_in_front(rows: Seq<Seq<Seq<char>>>)
    requires
        rows.len() > 0,
    ensures
        csv_lines(rows) == csv_line(rows[0]) + seq!['\n'] + csv_lines(rows.skip(1)),
    decreases rows.len(),
{
    if rows.len() == 1 {
        assert(rows.drop_last() =~= Seq::empty());
        assert(rows.skip(1) =~= Seq::empty());
        assert(csv_lines(rows) =~= csv_line(rows[0]) + seq!['\n'] + csv_lines(rows.skip(1)));
    } else {
        let head = rows.drop_last();
        lines_in_front(head);
        assert(head.skip(1) =~= rows.skip(1).drop_last());
        assert(rows.skip(1).last() == rows.last());
        assert(csv_lines(rows) =~= csv_line(rows[0]) + seq!['\n'] + csv_lines(rows.skip(1)));
    }
}

proof fn lines_are_read(s: Seq<char>, at: int, rows: Seq<Seq<Seq<char>>>)
    requires
        stands(s, at, csv_lines(rows)),
        at + csv_lines(rows).len() == s.len(),
        forall|i: int| 0 <= i < rows.len() ==> (#[trigger] rows[i]).len() > 0,
    ensures
        lines_from(s, at) == rows,
    decreases rows.len(),
{
    if rows.len() == 0 {
        assert(lines_from(s, at) =~= rows);
    } else {
        let first = csv_line(rows[0]) + seq!['\n'];
        let rest = rows.skip(1);
        lines_in_front(rows);
        part_stands(s, at, first, csv_lines(rest));
        line_is_read(s, at, rows[0]);
        assert forall|i: int| 0 <= i < rest.len() implies (#[trigger] rest[i]).len() > 0 by {
            assert(rest[i] == rows[i + 1]);
        }
        lines_are_read(s, at + first.len(), rest);
        assert(rows =~= seq![rows[0]] + rest);
    }
}

/// A table is read back from its comma-separated lines: first the columns, then all
/// rows. A line without any field looks like one with an empty field, so each has to
/// have one.
pub proof fn tables_are_read_back(columns: Seq<Seq<char>>, rows: Seq<Seq<Seq<char>>>)
    requires
        columns.len() > 0,
        forall|i: int| 0 <= i < rows.len() ==> (#[trigger] rows[i]).len() > 0,
    ensures
        csv_read(csv_text(columns, rows)) == seq![columns] + rows,
{
    let s = csv_text(columns, rows);
    let all = seq![columns] + rows;
    lines_in_front(all);
    assert(all.skip(1) =~= rows);
    assert(s =~= seq!['\u{FEFF}'] + csv_lines(all));
    assert(stands(s, 1, csv_lines(all)));
    lines_are_read(s, 1, all);
}

} // verus!
