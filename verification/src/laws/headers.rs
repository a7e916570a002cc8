//! What the documents and tables of contents of Dennou Club tell.

use crate::dennou::{blocks_from, cleaned, facet_of, header_after, header_of, header_range,
    hint_for, hint_of_block, hints_of, hints_on, is_separator, link_from, links_of, note_count,
    piece_doubts, separator_from, text_at_path, three_digits, HeaderModel, HeaderStateModel,
    HintModel, SubmitterModel};
use crate::fs::DiskModel;
use crate::laws::texts::{all_white, is_bare, trimming_takes_white_space_away};
use crate::pattern::regex_captures;
use crate::text::{decimal, decimal_round_trip, find_char_unique, has_part, is_number, is_white,
    joined_texts, lines_of, number_value, trimmed, uppered};
use crate::text_norm::collapsed;
use vstd::prelude::*;

verus! {

/// Whether a line separates the parts of a document: it holds five notes or more, and
/// nothing else but white space.
pub open spec fn is_row_of_notes(line: Seq<char>) -> bool {
    let t = trimmed(line);
    &&& t.filter(|c: char| c == '♪').len() >= 5
    &&& forall|i: int| 0 <= i < t.len() ==> #[trigger] t[i] == '♪' || is_white(t[i])
}

proof fn notes_are_counted(s: Seq<char>)
    ensures
        note_count(s) == s.filter(|c: char| c == '♪').len(),
    decreases s.len(),
{
    reveal(Seq::filter);
    if s.len() > 0 {
        notes_are_counted(s.drop_last());
    }
}

proof fn the_first_separator_is_found(lines: Seq<Seq<char>>, from: int)
    requires
        0 <= from <= lines.len(),
    ensures
        from <= separator_from(lines, from) <= lines.len(),
        forall|i: int|
            from <= i < separator_from(lines, from) ==> !is_row_of_notes(#[trigger] lines[i]),
        separator_from(lines, from) < lines.len() ==> is_row_of_notes(
            lines[separator_from(lines, from)],
        ),
    decreases lines.len() - from,
{
    if from < lines.len() {
        notes_are_counted(trimmed(lines[from]));
        if !is_separator(lines[from]) {
            the_first_separator_is_found(lines, from + 1);
        }
    }
}

/// The head of a document: the lines between the first two rows of notes; where there is but
/// one, the 29 lines after it; where there is none, the first 40 lines.
pub proof fn heads_stand_between_rows_of_notes(lines: Seq<Seq<char>>)
    ensures
        ({
            let (from, to) = header_range(lines);
            let n = lines.len() as int;
            ||| {
                &&& forall|i: int| 0 <= i < n ==> !is_row_of_notes(#[trigger] lines[i])
                &&& from == 0
                &&& to == if n < 40 {
                    n
                } else {
                    40
                }
            }
            ||| {
                &&& 0 < from <= n
                &&& is_row_of_notes(lines[from - 1])
                &&& forall|i: int| 0 <= i < from - 1 ==> !is_row_of_notes(#[trigger] lines[i])
                &&& from <= to <= n
                &&& (to < n && is_row_of_notes(lines[to]) && forall|i: int|
                    from <= i < to ==> !is_row_of_notes(#[trigger] lines[i])) || ((forall|i: int|
                    from <= i < n ==> !is_row_of_notes(#[trigger] lines[i])) && to == if n < from
                    + 29 {
                    n
                } else {
                    from + 29
                })
            }
        }),
{
    the_first_separator_is_found(lines, 0);
    let first = separator_from(lines, 0);
    if first < lines.len() {
        the_first_separator_is_found(lines, first + 1);
    }
}

/// The composer is told by the first line that tells one.
pub proof fn the_first_composer_line_counts(lines: Seq<Seq<char>>, from: int, to: int)
    requires
        0 <= from <= to <= lines.len(),
    ensures
        ({
            let pattern = "(?i)(?:MUSIC\\s+by\\s+|作曲\\s*[:：]?\\s*)(.+?)\\s*$"@;
            match header_after(lines, from, to).composer {
                Some(name) => exists|i: int|
                    {
                        &&& from <= i < to
                        &&& collapsed(#[trigger] lines[i]).len() > 0
                        &&& regex_captures(pattern, collapsed(lines[i])) matches Some(c)
                            && name == cleaned(
                            if c.len() > 1 && c[1] is Some {
                                c[1]->0
                            } else {
                                Seq::empty()
                            },
                        )
                        &&& forall|j: int|
                            from <= j < i && collapsed(#[trigger] lines[j]).len() > 0
                                ==> regex_captures(pattern, collapsed(lines[j])) is None
                    },
                None => forall|j: int|
                    from <= j < to && collapsed(#[trigger] lines[j]).len() > 0 ==> regex_captures(
                        pattern,
                        collapsed(lines[j]),
                    ) is None,
            }
        }),
    decreases to - from,
{
    if from < to {
        the_first_composer_line_counts(lines, from, to - 1);
        let pattern = "(?i)(?:MUSIC\\s+by\\s+|作曲\\s*[:：]?\\s*)(.+?)\\s*$"@;
        let before = header_after(lines, from, to - 1);
        let line = collapsed(lines[to - 1]);
        if before.composer is None && line.len() > 0 && regex_captures(pattern, line) is Some {
            assert(from <= to - 1 < to);
        }
    }
}

/// A line of a head tells one thing: the composer, the arranger, the music driver or the
/// playing time, the first of these that is not known yet and that the line tells; or else
/// it may be a title. Lines of white space tell nothing.
pub proof fn lines_tell_one_thing(lines: Seq<Seq<char>>, from: int, to: int)
    requires
        0 <= from <= to < lines.len(),
    ensures
        ({
            let st = header_after(lines, from, to);
            let now = header_after(lines, from, to + 1);
            let line = collapsed(lines[to]);
            let composer = regex_captures(
                "(?i)(?:MUSIC\\s+by\\s+|作曲\\s*[:：]?\\s*)(.+?)\\s*$"@,
                line,
            );
            let arranger = regex_captures(
                "(?i)(?:(?:68)?ARR[AE]N?GE\\s+by\\s+|編曲\\s*[:：]?\\s*)(.+?)\\s*$"@,
                line,
            );
            let engine = regex_captures(
                "(?i)\\b(Z[-\\u{2212}\\u{2010}]?MUSIC|MXDRV|MUSIC\\s+LALF|MUSPRO|YM2151)\\b(?:\\s*Ver\\.?\\s*([0-9.]+))?"@,
                line,
            );
            let duration = regex_captures("演奏時間\\s*[:：]?\\s*(.+?)\\s*$"@, line);
            if line.len() == 0 {
                now == st
            } else if st.composer is None && composer is Some {
                &&& now.composer == Some(cleaned(captured(composer->0, 1)))
                &&& now == (HeaderStateModel { composer: now.composer, ..st })
            } else if st.arranger is None && arranger is Some {
                &&& now.arranger == Some(cleaned(captured(arranger->0, 1)))
                &&& now == (HeaderStateModel { arranger: now.arranger, ..st })
            } else if st.engine is None && engine is Some {
                let name = captured(engine->0, 1);
                let version = captured(engine->0, 2);
                &&& now.engine == Some(
                    if version.len() > 0 {
                        name + " Ver "@ + version
                    } else {
                        name
                    },
                )
                &&& now == (HeaderStateModel { engine: now.engine, ..st })
            } else if st.duration is None && duration is Some {
                &&& now.duration == Some(cleaned(captured(duration->0, 1)))
                &&& now == (HeaderStateModel { duration: now.duration, ..st })
            } else if has_part(line, "演奏時間"@) || has_part(uppered(line), "MUSIC BY"@) || has_part(
                uppered(line),
                "ARRANGE BY"@,
            ) || has_part(uppered(line), "ARRENGE BY"@) || has_part(line, "作曲"@) || has_part(
                line,
                "編曲"@,
            ) {
                now == st
            } else {
                now == (HeaderStateModel { candidates: st.candidates.push(line), ..st })
            }
        }),
        header_after(lines, from, from) == (HeaderStateModel {
            composer: None,
            arranger: None,
            engine: None,
            duration: None,
            candidates: Seq::empty(),
        }),
{
}

/// A capture of a match; nothing where it took no part.
pub open spec fn captured(c: Seq<Option<Seq<char>>>, i: int) -> Seq<char> {
    if 0 <= i < c.len() && c[i] is Some {
        c[i]->0
    } else {
        Seq::empty()
    }
}

/// The first line of a head that may be a title is the title, the second one the original
/// artist. The rest is what the lines of the head told.
pub proof fn heads_tell_title_and_artist(text: Seq<char>)
    ensures
        ({
            let lines = lines_of(text);
            let (from, to) = header_range(lines);
            let st = header_after(lines, from, to);
            let h = header_of(text);
            &&& h.title is Some <==> st.candidates.len() > 0
            &&& h.title matches Some(t) ==> t == st.candidates[0]
            &&& h.original_artist is Some <==> st.candidates.len() > 1
            &&& h.original_artist matches Some(t) ==> t == st.candidates[1]
            &&& h.composer == st.composer
            &&& h.arranger == st.arranger
            &&& h.engine == st.engine
            &&& h.duration == st.duration
        }),
{
}

/// A field is cleaned of the white space around it and of a remark in parentheses, of
/// either width, at its end.
pub proof fn fields_are_cleaned_of_remarks(
    before: Seq<char>,
    s: Seq<char>,
    gap: Seq<char>,
    remark: Seq<char>,
)
    requires
        all_white(before),
        all_white(gap),
        is_bare(s),
        s.len() > 0,
        !s.contains('('),
        !s.contains('（'),
        remark.len() == 0 || (remark[0] == '(' && remark.last() == ')'),
    ensures
        cleaned(before + s + gap + remark) == s,
{
    let open = '(';
    let wide = '（';
    assert(!is_white('('));
    assert(!is_white(')'));
    assert forall|i: int| 0 <= i < s.len() implies #[trigger] s[i] != '(' && s[i] != '（' by {
        if s[i] == '(' {
            assert(s.contains('('));
        }
        if s[i] == '（' {
            assert(s.contains('（'));
        }
    }
    let none = Seq::<char>::empty();
    find_char_unique(s, '（', s.len() as int);
    if remark.len() == 0 {
        assert(before + s + gap + remark =~= before + s + gap);
        trimming_takes_white_space_away(before, s, gap);
        find_char_unique(s, '(', s.len() as int);
    } else {
        let t = s + gap + remark;
        assert(before + s + gap + remark =~= before + t + none);
        assert(t[0] == s[0] && t.last() == remark.last());
        trimming_takes_white_space_away(before, t, none);
        let k = (s.len() + gap.len()) as int;
        assert forall|i: int| 0 <= i < k implies #[trigger] t[i] != '(' by {
            if i < s.len() {
                assert(t[i] == s[i]);
            } else {
                assert(t[i] == gap[i - s.len()]);
                assert(is_white(gap[i - s.len()]));
            }
        }
        assert(t[k] == remark[0]);
        find_char_unique(t, '(', k);
        assert(t.take(k) =~= s + gap);
        trimming_takes_white_space_away(none, s, gap);
    }
}

proof fn the_first_link_is_found(stems: Seq<Option<Seq<char>>>, from: int, next: int)
    requires
        0 <= from <= next <= stems.len(),
        forall|i: int| from <= i < next ==> #[trigger] stems[i] is None,
        next < stems.len() ==> stems[next] is Some,
    ensures
        link_from(stems, from) == next,
    decreases next - from,
{
    if from < next {
        assert(stems[from] is None);
        the_first_link_is_found(stems, from + 1, next);
    }
}

proof fn links_start_blocks(
    lines: Seq<Seq<char>>,
    stems: Seq<Option<Seq<char>>>,
    from: int,
    at: int,
    next: int,
)
    requires
        0 <= from <= at < next <= stems.len(),
        stems[at] is Some,
        forall|i: int| at < i < next ==> #[trigger] stems[i] is None,
        next < stems.len() ==> stems[next] is Some,
    ensures
        blocks_from(lines, stems, from).contains(
            (uppered(stems[at]->0), joined_texts(lines.subrange(at, next), seq!['\n'])),
        ),
    decreases at - from,
{
    let block = (uppered(stems[at]->0), joined_texts(lines.subrange(at, next), seq!['\n']));
    let start = first_link(stems, from);
    the_first_link_is_found(stems, from, start);
    let end = if start + 1 <= stems.len() {
        first_link(stems, start + 1)
    } else {
        stems.len() as int
    };
    the_first_link_is_found(stems, start + 1, end);
    let rest = blocks_from(lines, stems, end);
    let all = blocks_from(lines, stems, from);
    assert(start <= at);
    if start == at {
        assert(end == next);
        assert(all[0] == block);
    } else {
        assert(end <= at);
        links_start_blocks(lines, stems, end, at, next);
        let i = choose|i: int| 0 <= i < rest.len() && rest[i] == block;
        assert(all[i + 1] == block);
    }
}

proof fn first_link(stems: Seq<Option<Seq<char>>>, from: int) -> (next: int)
    requires
        0 <= from <= stems.len(),
    ensures
        from <= next <= stems.len(),
        forall|i: int| from <= i < next ==> #[trigger] stems[i] is None,
        next < stems.len() ==> stems[next] is Some,
    decreases stems.len() - from,
{
    if from >= stems.len() || stems[from] is Some {
        from
    } else {
        first_link(stems, from + 1)
    }
}

/// The table of contents tells of a piece from the line that links to it up to the next
/// link.
pub proof fn links_start_what_is_told(text: Seq<char>, at: int, next: int)
    requires
        ({
            let lines = lines_of(text);
            let links = links_of(lines);
            &&& 0 <= at < next <= lines.len()
            &&& links[at] is Some
            &&& forall|i: int| at < i < next ==> #[trigger] links[i] is None
            &&& next < lines.len() ==> links[next] is Some
        }),
    ensures
        hints_of(text).contains(
            (
                uppered(links_of(lines_of(text))[at]->0),
                hint_of_block(joined_texts(lines_of(text).subrange(at, next), seq!['\n'])),
            ),
        ),
{
    let lines = lines_of(text);
    let links = links_of(lines);
    links_start_blocks(lines, links, 0, at, next);
    let blocks = blocks_from(lines, links, 0);
    let block = (uppered(links[at]->0), joined_texts(lines.subrange(at, next), seq!['\n']));
    let i = choose|i: int| 0 <= i < blocks.len() && blocks[i] == block;
    assert(hints_of(text)[i] == (block.0, hint_of_block(block.1)));
}

/// A line links to a piece by its path in the directory `MUSIC`, with the extension `ZMS`.
pub proof fn links_are_paths_of_scores(lines: Seq<Seq<char>>, i: int)
    requires
        0 <= i < lines.len(),
    ensures
        links_of(lines).len() == lines.len(),
        ({
            let m = regex_captures("(?i)A:\\\\MUSIC\\\\([A-Za-z0-9_]+)\\.ZMS"@, lines[i]);
            &&& m is None ==> links_of(lines)[i] is None
            &&& m matches Some(c) ==> (c.len() > 1 ==> links_of(lines)[i] == c[1])
        }),
{
}

/// Of what is told of a piece, the first counts.
pub proof fn the_first_hint_counts(hints: Seq<(Seq<char>, HintModel)>, stem: Seq<char>)
    ensures
        match hint_for(hints, stem) {
            Some(h) => exists|i: int|
                {
                    &&& 0 <= i < hints.len()
                    &&& #[trigger] hints[i] == (stem, h)
                    &&& forall|j: int| 0 <= j < i ==> (#[trigger] hints[j]).0 != stem
                },
            None => forall|j: int| 0 <= j < hints.len() ==> (#[trigger] hints[j]).0 != stem,
        },
    decreases hints.len(),
{
    if hints.len() > 0 && hints[0].0 == stem {
        assert(hints[0] == (stem, hints[0].1));
    } else if hints.len() > 0 {
        let rest = hints.skip(1);
        the_first_hint_counts(rest, stem);
        match hint_for(rest, stem) {
            Some(h) => {
                let i = choose|i: int|
                    {
                        &&& 0 <= i < rest.len()
                        &&& #[trigger] rest[i] == (stem, h)
                        &&& forall|j: int| 0 <= j < i ==> (#[trigger] rest[j]).0 != stem
                    };
                assert(hints[i + 1] == rest[i]);
                assert forall|j: int| 0 <= j < i + 1 implies (#[trigger] hints[j]).0 != stem by {
                    if j > 0 {
                        assert(hints[j] == rest[j - 1]);
                    }
                }
            },
            None => {
                assert forall|j: int| 0 <= j < hints.len() implies (#[trigger] hints[j]).0
                    != stem by {
                    if j > 0 {
                        assert(hints[j] == rest[j - 1]);
                    }
                }
            },
        }
    }
}

/// The table of contents is read from `QS`, or else from `QUICKSTART`.
pub proof fn contents_are_read_from_their_places(fs: DiskModel)
    ensures
        text_at_path(fs, "QS/MOKUJI.DOC"@) matches Some(text) ==> hints_on(fs) == hints_of(text),
        text_at_path(fs, "QS/MOKUJI.DOC"@) is None ==> (text_at_path(
            fs,
            "QUICKSTART/MOKUJI.DOC"@,
        ) matches Some(text) ==> hints_on(fs) == hints_of(text)),
        text_at_path(fs, "QS/MOKUJI.DOC"@) is None && text_at_path(
            fs,
            "QUICKSTART/MOKUJI.DOC"@,
        ) is None ==> hints_on(fs).len() == 0,
{
}

/// The place of an issue in the hierarchy of issues has its kind and its number, with at
/// least three digits.
pub proof fn places_have_numbers_of_three_digits(kind: Seq<char>, number: u64)
    ensures
        exists|digits: Seq<char>|
            {
                &&& facet_of(kind, number) == #[trigger] ("/dennou/"@ + kind + "/"@ + digits)
                &&& is_number(digits)
                &&& number_value(digits) == number
                &&& digits.len() >= 3
                &&& number < 1000 ==> digits.len() == 3
                &&& number >= 1000 ==> digits == decimal(number as nat)
            },
{
    let n = number as nat;
    let d = decimal(n);
    decimal_round_trip(n);
    let digits = three_digits(n);
    digits_of(n);
    if n < 10 {
        zero_before(d);
        zero_before(seq!['0'] + d);
        assert(digits =~= seq!['0'] + (seq!['0'] + d));
    } else if n < 100 {
        assert(digits =~= seq!['0'] + d);
        zero_before(d);
    }
    assert forall|i: int| 0 <= i < digits.len() implies crate::text::is_digit(
        #[trigger] digits[i],
    ) by {
        if n < 10 {
            if i == 2 {
                assert(digits[i] == d[0]);
            }
        } else if n < 100 {
            if i > 0 {
                assert(digits[i] == d[i - 1]);
            }
        }
    }
    assert(facet_of(kind, number) == "/dennou/"@ + kind + "/"@ + digits);
}

proof fn zero_before(d: Seq<char>)
    ensures
        number_value(seq!['0'] + d) == number_value(d),
    decreases d.len(),
{
    let all = seq!['0'] + d;
    if d.len() == 0 {
        assert(all.drop_last() =~= Seq::<char>::empty());
        assert(number_value(all.drop_last()) == 0);
        assert(all.last() == '0');
    } else {
        assert(all.drop_last() =~= seq!['0'] + d.drop_last());
        assert(all.last() == d.last());
        zero_before(d.drop_last());
    }
}

proof fn digits_of(n: nat)
    ensures
        n < 10 ==> decimal(n).len() == 1 && decimal(n)[0] as u32 == 48 + n,
        10 <= n < 100 ==> decimal(n).len() == 2,
        100 <= n ==> decimal(n).len() >= 3,
        100 <= n < 1000 ==> decimal(n).len() == 3,
    decreases n,
{
    reveal_with_fuel(decimal, 4);
    if n >= 10 {
        digits_of(n / 10);
    }
}

/// The warnings of a record say that its submitter or its title was not found, exactly where
/// that is so.
pub proof fn warnings_tell_what_is_missing(header: HeaderModel, submitter: Option<SubmitterModel>)
    ensures
        piece_doubts(header, submitter).contains("submitter not found"@) <==> submitter is None,
        piece_doubts(header, submitter).contains("title not found"@) <==> header.title is None,
{
    reveal_strlit("submitter not found");
    reveal_strlit("title not found");
    let d = piece_doubts(header, submitter);
    assert("submitter not found"@.len() == 19 && "title not found"@.len() == 15);
    if submitter is None {
        assert(d[0] == "submitter not found"@);
    }
    if header.title is None {
        assert(d[d.len() - 1] == "title not found"@);
    }
}

} // verus!
