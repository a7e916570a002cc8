//! What the records of Dennou Club tell.

use crate::codec::{decodable_length, nfkc_text, sjis_text};
use crate::dennou::{file_at, header_of, hint_for, hint_of_block, hints_on, is_dennou, issue_of,
    issue_of_autoexec, issue_of_path, opt_file, opt_member, opt_value, piece_doubts,
    piece_files, piece_payload, piece_record, piece_records, stems_among, stems_on,
    submitter_for, submitter_members, taken_from, text_array, text_at_path, HeaderModel,
    HintModel, SubmitterModel};
use crate::direntry::DirEntryModel;
use crate::extract::ContextModel;
use crate::fs::DiskModel;
use crate::json::JsonModel;
use crate::laws::layout::{case_is_all_that_goes, same_letters};
use crate::path::{file_name_of, text_order, text_orders_are_orders, TextOrder};
use crate::pattern::regex_captures;
use crate::sort::{in_order, insertion};
use crate::text::{components, has_part, is_number, number_value, trimmed, uppered};
use crate::text_norm::collapsed;
use vstd::prelude::*;

verus! {

/// The value under a name in an object; where a name occurs twice, the last one counts.
pub open spec fn value_under(members: Seq<(Seq<char>, JsonModel)>, name: Seq<char>) -> Option<
    JsonModel,
>
    decreases members.len(),
{
    if members.len() == 0 {
        None
    } else if members.last().0 == name {
        Some(members.last().1)
    } else {
        value_under(members.drop_last(), name)
    }
}

proof fn value_under_joined(
    a: Seq<(Seq<char>, JsonModel)>,
    b: Seq<(Seq<char>, JsonModel)>,
    name: Seq<char>,
)
    ensures
        value_under(a + b, name) == if value_under(b, name) is Some {
            value_under(b, name)
        } else {
            value_under(a, name)
        },
    decreases b.len(),
{
    if b.len() == 0 {
        assert(a + b =~= a);
    } else {
        assert((a + b).last() == b.last());
        assert((a + b).drop_last() =~= a + b.drop_last());
        value_under_joined(a, b.drop_last(), name);
    }
}

/// A text as a value, if there is one.
pub open spec fn text_value(text: Option<Seq<char>>) -> Option<JsonModel> {
    match text {
        Some(s) => Some(JsonModel::Text(s)),
        None => None,
    }
}

proof fn value_of_one(name: Seq<char>, value: JsonModel, other: Seq<char>)
    ensures
        value_under(seq![(name, value)], other) == if name == other {
            Some(value)
        } else {
            None
        },
{
    assert(seq![(name, value)].drop_last() =~= Seq::<(Seq<char>, JsonModel)>::empty());
    assert(value_under(Seq::<(Seq<char>, JsonModel)>::empty(), other) is None);
}

proof fn value_of_two(a: (Seq<char>, JsonModel), b: (Seq<char>, JsonModel), other: Seq<char>)
    ensures
        value_under(seq![a, b], other) == if b.0 == other {
            Some(b.1)
        } else if a.0 == other {
            Some(a.1)
        } else {
            None
        },
{
    assert(seq![a, b].drop_last() =~= seq![a]);
    value_of_one(a.0, a.1, other);
}

proof fn value_of_optional(name: Seq<char>, text: Option<Seq<char>>, other: Seq<char>)
    ensures
        value_under(opt_member(name, text), other) == if name == other {
            text_value(text)
        } else {
            None
        },
{
    if let Some(s) = text {
        value_of_one(name, JsonModel::Text(s), other);
    }
}

proof fn value_of_wanted(name: Seq<char>, wanted: bool, value: JsonModel, other: Seq<char>)
    ensures
        value_under(opt_value(name, wanted, value), other) == if name == other && wanted {
            Some(value)
        } else {
            None
        },
{
    if wanted {
        value_of_one(name, value, other);
    }
}

/// The names in a payload are different.
proof fn names_differ()
    ensures
        ({
            let names = seq![
                "issue_no"@,
                "issue_kind"@,
                "title"@,
                "original_artist"@,
                "composer"@,
                "arranger"@,
                "engine"@,
                "duration"@,
                "submitter"@,
                "submitter_pref"@,
                "files"@,
                "jasrac_note"@,
                "_warnings"@,
            ];
            forall|i: int, j: int| 0 <= i < j < 13 ==> names[i] != names[j]
        }),
{
    reveal_strlit("issue_no");
    reveal_strlit("issue_kind");
    reveal_strlit("title");
    reveal_strlit("original_artist");
    reveal_strlit("composer");
    reveal_strlit("arranger");
    reveal_strlit("engine");
    reveal_strlit("duration");
    reveal_strlit("submitter");
    reveal_strlit("submitter_pref");
    reveal_strlit("files");
    reveal_strlit("jasrac_note");
    reveal_strlit("_warnings");
    let a = "issue_no"@;
    assert(a.len() == 8 && a[0] == 'i');
    assert("issue_kind"@.len() == 10);
    assert("title"@.len() == 5 && "title"@[0] == 't');
    assert("original_artist"@.len() == 15);
    assert("composer"@.len() == 8 && "composer"@[0] == 'c');
    assert("arranger"@.len() == 8 && "arranger"@[0] == 'a');
    assert("engine"@.len() == 6);
    assert("duration"@.len() == 8 && "duration"@[0] == 'd');
    assert("submitter"@.len() == 9 && "submitter"@[0] == 's');
    assert("submitter_pref"@.len() == 14);
    assert("files"@.len() == 5 && "files"@[0] == 'f');
    assert("jasrac_note"@.len() == 11);
    assert("_warnings"@.len() == 9 && "_warnings"@[0] == '_');
}

/// Each thing that is known of a piece stands in its payload under its own name, and what
/// is not known does not stand there.
pub proof fn payloads_tell_what_is_known(
    kind: Seq<char>,
    number: u64,
    header: HeaderModel,
    submitter: Option<SubmitterModel>,
    files: Seq<(Seq<char>, JsonModel)>,
    jasrac: Option<Seq<char>>,
)
    ensures
        ({
            let p = piece_payload(kind, number, header, submitter, files, jasrac);
            &&& value_under(p, "issue_no"@) == Some(JsonModel::Unsigned(number))
            &&& value_under(p, "issue_kind"@) == Some(JsonModel::Text(kind))
            &&& value_under(p, "title"@) == text_value(header.title)
            &&& value_under(p, "original_artist"@) == text_value(header.original_artist)
            &&& value_under(p, "composer"@) == text_value(header.composer)
            &&& value_under(p, "arranger"@) == text_value(header.arranger)
            &&& value_under(p, "engine"@) == text_value(header.engine)
            &&& value_under(p, "duration"@) == text_value(header.duration)
            &&& value_under(p, "submitter"@) == match submitter {
                Some(s) => Some(JsonModel::Text(s.name)),
                None => None,
            }
            &&& value_under(p, "submitter_pref"@) == match submitter {
                Some(s) => Some(JsonModel::Text(s.pref)),
                None => None,
            }
            &&& value_under(p, "jasrac_note"@) == text_value(jasrac)
            &&& value_under(p, "files"@) == if files.len() > 0 {
                Some(JsonModel::Object(files))
            } else {
                None
            }
            &&& value_under(p, "_warnings"@) is Some <==> submitter is None || header.title is None
        }),
{
    names_differ();
    let names = seq![
        "issue_no"@,
        "issue_kind"@,
        "title"@,
        "original_artist"@,
        "composer"@,
        "arranger"@,
        "engine"@,
        "duration"@,
        "submitter"@,
        "submitter_pref"@,
        "files"@,
        "jasrac_note"@,
        "_warnings"@,
    ];
    assert forall|i: int| 0 <= i < 13 implies payload_value(
        kind,
        number,
        header,
        submitter,
        files,
        jasrac,
        #[trigger] names[i],
    ) by {
        value_by_name(kind, number, header, submitter, files, jasrac, names[i]);
    }
    assert(names[0] == "issue_no"@ && names[1] == "issue_kind"@ && names[2] == "title"@ && names[3]
        == "original_artist"@ && names[4] == "composer"@ && names[5] == "arranger"@ && names[6]
        == "engine"@ && names[7] == "duration"@ && names[8] == "submitter"@ && names[9]
        == "submitter_pref"@ && names[10] == "files"@ && names[11] == "jasrac_note"@ && names[12]
        == "_warnings"@);
    assert(payload_value(kind, number, header, submitter, files, jasrac, names[0]));
    assert(payload_value(kind, number, header, submitter, files, jasrac, names[1]));
    assert(payload_value(kind, number, header, submitter, files, jasrac, names[2]));
    assert(payload_value(kind, number, header, submitter, files, jasrac, names[3]));
    assert(payload_value(kind, number, header, submitter, files, jasrac, names[4]));
    assert(payload_value(kind, number, header, submitter, files, jasrac, names[5]));
    assert(payload_value(kind, number, header, submitter, files, jasrac, names[6]));
    assert(payload_value(kind, number, header, submitter, files, jasrac, names[7]));
    assert(payload_value(kind, number, header, submitter, files, jasrac, names[8]));
    assert(payload_value(kind, number, header, submitter, files, jasrac, names[9]));
    assert(payload_value(kind, number, header, submitter, files, jasrac, names[10]));
    assert(payload_value(kind, number, header, submitter, files, jasrac, names[11]));
    assert(payload_value(kind, number, header, submitter, files, jasrac, names[12]));
}

/// The value under a name in the payload of a piece.
spec fn payload_value(
    kind: Seq<char>,
    number: u64,
    header: HeaderModel,
    submitter: Option<SubmitterModel>,
    files: Seq<(Seq<char>, JsonModel)>,
    jasrac: Option<Seq<char>>,
    name: Seq<char>,
) -> bool {
    value_under(piece_payload(kind, number, header, submitter, files, jasrac), name) == (
    if name == "_warnings"@ && piece_doubts(header, submitter).len() > 0 {
        Some(text_array(piece_doubts(header, submitter)))
    } else if name == "jasrac_note"@ && jasrac is Some {
        text_value(jasrac)
    } else if name == "files"@ && files.len() > 0 {
        Some(JsonModel::Object(files))
    } else if name == "submitter_pref"@ && submitter is Some {
        Some(JsonModel::Text(submitter->0.pref))
    } else if name == "submitter"@ && submitter is Some {
        Some(JsonModel::Text(submitter->0.name))
    } else if name == "duration"@ && header.duration is Some {
        text_value(header.duration)
    } else if name == "engine"@ && header.engine is Some {
        text_value(header.engine)
    } else if name == "arranger"@ && header.arranger is Some {
        text_value(header.arranger)
    } else if name == "composer"@ && header.composer is Some {
        text_value(header.composer)
    } else if name == "original_artist"@ && header.original_artist is Some {
        text_value(header.original_artist)
    } else if name == "title"@ && header.title is Some {
        text_value(header.title)
    } else if name == "issue_kind"@ {
        Some(JsonModel::Text(kind))
    } else if name == "issue_no"@ {
        Some(JsonModel::Unsigned(number))
    } else {
        None
    })
}

proof fn value_by_name(
    kind: Seq<char>,
    number: u64,
    header: HeaderModel,
    submitter: Option<SubmitterModel>,
    files: Seq<(Seq<char>, JsonModel)>,
    jasrac: Option<Seq<char>>,
    name: Seq<char>,
)
    ensures
        payload_value(kind, number, header, submitter, files, jasrac, name),
{
    let doubts = piece_doubts(header, submitter);
    let p0 = seq![
        ("issue_no"@, JsonModel::Unsigned(number)),
        ("issue_kind"@, JsonModel::Text(kind)),
    ];
    let q1 = opt_member("title"@, header.title);
    let q2 = opt_member("original_artist"@, header.original_artist);
    let q3 = opt_member("composer"@, header.composer);
    let q4 = opt_member("arranger"@, header.arranger);
    let q5 = opt_member("engine"@, header.engine);
    let q6 = opt_member("duration"@, header.duration);
    let q7 = submitter_members(submitter);
    let q8 = opt_value("files"@, files.len() > 0, JsonModel::Object(files));
    let q9 = opt_member("jasrac_note"@, jasrac);
    let q10 = opt_value("_warnings"@, doubts.len() > 0, text_array(doubts));
    value_of_two(p0[0], p0[1], name);
    value_of_optional("title"@, header.title, name);
    value_of_optional("original_artist"@, header.original_artist, name);
    value_of_optional("composer"@, header.composer, name);
    value_of_optional("arranger"@, header.arranger, name);
    value_of_optional("engine"@, header.engine, name);
    value_of_optional("duration"@, header.duration, name);
    if let Some(s) = submitter {
        value_of_two(
            ("submitter"@, JsonModel::Text(s.name)),
            ("submitter_pref"@, JsonModel::Text(s.pref)),
            name,
        );
    }
    value_of_wanted("files"@, files.len() > 0, JsonModel::Object(files), name);
    value_of_optional("jasrac_note"@, jasrac, name);
    value_of_wanted("_warnings"@, doubts.len() > 0, text_array(doubts), name);
    let p1 = p0 + q1;
    let p2 = p1 + q2;
    let p3 = p2 + q3;
    let p4 = p3 + q4;
    let p5 = p4 + q5;
    let p6 = p5 + q6;
    let p7 = p6 + q7;
    let p8 = p7 + q8;
    let p9 = p8 + q9;
    value_under_joined(p0, q1, name);
    value_under_joined(p1, q2, name);
    value_under_joined(p2, q3, name);
    value_under_joined(p3, q4, name);
    value_under_joined(p4, q5, name);
    value_under_joined(p5, q6, name);
    value_under_joined(p6, q7, name);
    value_under_joined(p7, q8, name);
    value_under_joined(p8, q9, name);
    value_under_joined(p9, q10, name);
    assert(piece_payload(kind, number, header, submitter, files, jasrac) == p9 + q10);
}

/// A capture of a match without the white space around it; nothing where it took no part.
pub open spec fn trimmed_capture(c: Seq<Option<Seq<char>>>, i: int) -> Seq<char> {
    if 0 <= i < c.len() && c[i] is Some {
        trimmed(c[i]->0)
    } else {
        trimmed(Seq::empty())
    }
}

/// Who sent a piece in: where its document has the sentence, the second capture is the name
/// and the first one the prefecture; otherwise the table of contents is asked in the same
/// way, and where that does not tell either, the record does not.
pub proof fn records_tell_who_sent_a_piece_in(
    ctx: ContextModel,
    issue: (Seq<char>, u64, Seq<char>),
    hints: Seq<(Seq<char>, HintModel)>,
    stem: Seq<char>,
    text: Seq<char>,
)
    requires
        text_at_path(ctx.fs, "MUSIC/"@ + stem + "."@ + "DOC"@) == Some(text),
    ensures
        piece_record(ctx, issue, hints, stem) is Some,
        ({
            let p = piece_record(ctx, issue, hints, stem)->0.payload->Object_0;
            let own = regex_captures(
                "(\\p{Han}{1,4}(?:都|道|府|県))の([^\\n]{1,30}?)\\s*さん(?:の投稿)?"@,
                text,
            );
            let hint = hint_for(hints, uppered(stem));
            &&& own matches Some(c) ==> value_under(p, "submitter"@) == Some(
                JsonModel::Text(trimmed_capture(c, 2)),
            ) && value_under(p, "submitter_pref"@) == Some(JsonModel::Text(trimmed_capture(c, 1)))
            &&& own is None && hint is Some && hint->0.submitter is Some ==> value_under(
                p,
                "submitter"@,
            ) == Some(JsonModel::Text(hint->0.submitter->0.name)) && value_under(
                p,
                "submitter_pref"@,
            ) == Some(JsonModel::Text(hint->0.submitter->0.pref))
            &&& own is None && (hint is None || hint->0.submitter is None) ==> value_under(
                p,
                "submitter"@,
            ) is None && value_under(p, "submitter_pref"@) is None
        }),
{
    let header = header_of(text);
    let hint = hint_for(hints, uppered(stem));
    payloads_tell_what_is_known(
        issue.0,
        issue.1,
        header,
        submitter_for(text, hint),
        piece_files(ctx.fs, stem),
        match hint {
            Some(h) => h.jasrac_note,
            None => None,
        },
    );
}

/// What the table of contents tells of a piece: who sent it in, as its document would, and
/// the note on copyright, with white space folded.
pub proof fn blocks_tell_submitter_and_note(block: Seq<char>)
    ensures
        ({
            let own = regex_captures(
                "(\\p{Han}{1,4}(?:都|道|府|県))の([^\\n]{1,30}?)\\s*さん(?:の投稿)?"@,
                block,
            );
            let note = regex_captures("(?:JASRAC|日本音楽著作権協会)[^\\n]{0,80}"@, block);
            let h = hint_of_block(block);
            &&& h.submitter is Some <==> own is Some
            &&& own matches Some(c) ==> h.submitter->0.name == trimmed_capture(c, 2)
                && h.submitter->0.pref == trimmed_capture(c, 1)
            &&& note matches Some(c) ==> (c.len() > 0 && c[0] is Some ==> h.jasrac_note == Some(
                collapsed(c[0]->0),
            ))
            &&& note is None ==> h.jasrac_note is None
        }),
{
}

/// A record of a piece: where it is from, which issue it belongs to, and what its document
/// and the table of contents tell.
pub proof fn records_tell_what_documents_tell(
    ctx: ContextModel,
    issue: (Seq<char>, u64, Seq<char>),
    hints: Seq<(Seq<char>, HintModel)>,
    stem: Seq<char>,
)
    ensures
        piece_record(ctx, issue, hints, stem) is Some <==> text_at_path(
            ctx.fs,
            "MUSIC/"@ + stem + "."@ + "DOC"@,
        ) is Some,
        piece_record(ctx, issue, hints, stem) matches Some(r) ==> {
            let path = "MUSIC/"@ + stem + "."@ + "DOC"@;
            let header = header_of(text_at_path(ctx.fs, path)->0);
            let hint = hint_for(hints, uppered(stem));
            let p = r.payload->Object_0;
            &&& r.source_path == path
            &&& r.category == "music"@
            &&& r.image_path == ctx.image_path
            &&& r.image_id == ctx.image_id
            &&& r.partition == ctx.partition
            &&& r.issue_kind == issue.0
            &&& r.issue_no == issue.1
            &&& r.issue_role == issue.2
            &&& r.schema_plugin == "dennou"@
            &&& r.schema_version == 1
            &&& r.unique_id == "dennou"@ + ":"@ + crate::extract::short_id(ctx.image_id) + ":"@
                + path
            &&& r.payload is Object
            &&& value_under(p, "issue_no"@) == Some(JsonModel::Unsigned(issue.1))
            &&& value_under(p, "issue_kind"@) == Some(JsonModel::Text(issue.0))
            &&& value_under(p, "title"@) == text_value(header.title)
            &&& value_under(p, "original_artist"@) == text_value(header.original_artist)
            &&& value_under(p, "composer"@) == text_value(header.composer)
            &&& value_under(p, "arranger"@) == text_value(header.arranger)
            &&& value_under(p, "engine"@) == text_value(header.engine)
            &&& value_under(p, "duration"@) == text_value(header.duration)
            &&& hint matches Some(h) ==> value_under(p, "jasrac_note"@) == text_value(h.jasrac_note)
            &&& hint is None ==> value_under(p, "jasrac_note"@) is None
        },
{
    let path = "MUSIC/"@ + stem + "."@ + "DOC"@;
    if let Some(text) = text_at_path(ctx.fs, path) {
        let hint = hint_for(hints, uppered(stem));
        payloads_tell_what_is_known(
            issue.0,
            issue.1,
            header_of(text),
            submitter_for(text, hint),
            piece_files(ctx.fs, stem),
            match hint {
                Some(h) => h.jasrac_note,
                None => None,
            },
        );
    }
}

/// The files of a piece stand in its payload where they can be read: the document, the
/// score with the extension `ZMS` and the voices with the extension `ZPD`.
pub proof fn files_of_a_piece_are_told(fs: DiskModel, stem: Seq<char>)
    ensures
        ({
            let f = piece_files(fs, stem);
            let doc = "MUSIC/"@ + stem + "."@ + "DOC"@;
            let score = "MUSIC/"@ + stem + "."@ + "ZMS"@;
            let voice = "MUSIC/"@ + stem + "."@ + "ZPD"@;
            &&& value_under(f, "doc"@) == if file_at(fs, doc) is Ok {
                Some(JsonModel::Text(doc))
            } else {
                None
            }
            &&& value_under(f, "score"@) == if file_at(fs, score) is Ok {
                Some(JsonModel::Text(score))
            } else {
                None
            }
            &&& value_under(f, "voice"@) == if file_at(fs, voice) is Ok {
                Some(JsonModel::Text(voice))
            } else {
                None
            }
        }),
{
    reveal_strlit("doc");
    reveal_strlit("score");
    reveal_strlit("voice");
    assert("doc"@.len() == 3 && "score"@.len() == 5 && "voice"@.len() == 5 && "score"@[0] == 's'
        && "voice"@[0] == 'v');
    let names = seq!["doc"@, "score"@, "voice"@];
    let a = opt_file(fs, "doc"@, "MUSIC/"@ + stem + "."@ + "DOC"@);
    let b = opt_file(fs, "score"@, "MUSIC/"@ + stem + "."@ + "ZMS"@);
    let c = opt_file(fs, "voice"@, "MUSIC/"@ + stem + "."@ + "ZPD"@);
    assert forall|i: int| 0 <= i < 3 implies value_under(
        piece_files(fs, stem),
        #[trigger] names[i],
    ) == (if value_under(c, names[i]) is Some {
        value_under(c, names[i])
    } else if value_under(b, names[i]) is Some {
        value_under(b, names[i])
    } else {
        value_under(a, names[i])
    }) by {
        value_under_joined(a, b, names[i]);
        value_under_joined(a + b, c, names[i]);
    }
    assert(names[0] == "doc"@ && names[1] == "score"@ && names[2] == "voice"@);
    assert forall|i: int| 0 <= i < 3 implies {
        &&& value_under(a, #[trigger] names[i]) is Some ==> i == 0
        &&& value_under(b, names[i]) is Some ==> i == 1
        &&& value_under(c, names[i]) is Some ==> i == 2
        &&& i == 0 && a.len() > 0 ==> value_under(a, names[i]) == Some(a[0].1)
        &&& i == 1 && b.len() > 0 ==> value_under(b, names[i]) == Some(b[0].1)
        &&& i == 2 && c.len() > 0 ==> value_under(c, names[i]) == Some(c[0].1)
    } by {
        if a.len() > 0 {
            value_of_one(a[0].0, a[0].1, names[i]);
        }
        if b.len() > 0 {
            value_of_one(b[0].0, b[0].1, names[i]);
        }
        if c.len() > 0 {
            value_of_one(c[0].0, c[0].1, names[i]);
        }
    }
    assert(names[0] == "doc"@);
    assert(names[1] == "score"@);
    assert(names[2] == "voice"@);
}

/// The issue in the name of an image: its number is the first capture, its side the second
/// one in capitals. The name of an issue goes before that of a special issue.
pub proof fn names_of_images_tell_the_issue(path: Seq<char>, name: Seq<char>)
    requires
        file_name_of(path) == Some(name),
    ensures
        ({
            let main = regex_captures("(?i)Dennou0*(\\d+)([ABX])\\.(?:img|xdf)$"@, name);
            let extra = regex_captures("(?i)Bessatu0*(\\d+)([ABX])\\.(?:img|xdf)$"@, name);
            let told = issue_of_path(path);
            &&& main matches Some(c) ==> (c.len() > 2 && c[1] is Some && c[2] is Some && is_number(
                c[1]->0,
            ) && number_value(c[1]->0) <= u64::MAX ==> told == Some(
                ("main"@, number_value(c[1]->0) as u64, uppered(c[2]->0)),
            ))
            &&& main is None && extra is Some ==> {
                let c = extra->0;
                c.len() > 2 && c[1] is Some && c[2] is Some && is_number(c[1]->0) && number_value(
                    c[1]->0,
                ) <= u64::MAX ==> told == Some(
                    ("extra"@, number_value(c[1]->0) as u64, uppered(c[2]->0)),
                )
            }
            &&& main is None && extra is None ==> told is None
        }),
{
}

/// The issue in the text of `AUTOEXEC.BAT`.
pub proof fn autoexec_tells_the_issue(text: Seq<char>)
    ensures
        ({
            let main = regex_captures("電脳倶楽部\\\\\\s*0*(\\d{1,4})"@, text);
            let extra = regex_captures("(?i)Bessatu\\\\\\s*0*(\\d{1,4})"@, text);
            let told = issue_of_autoexec(text);
            &&& main matches Some(c) ==> (c.len() > 1 && c[1] is Some && is_number(c[1]->0)
                && number_value(c[1]->0) <= u64::MAX ==> told == Some(
                ("main"@, number_value(c[1]->0) as u64),
            ))
            &&& main is None && extra is Some ==> {
                let c = extra->0;
                c.len() > 1 && c[1] is Some && is_number(c[1]->0) && number_value(c[1]->0)
                    <= u64::MAX ==> told == Some(("extra"@, number_value(c[1]->0) as u64))
            }
            &&& main is None && extra is None ==> told is None
        }),
{
}

/// A disk is one of the magazine where its name tells an issue, where `AUTOEXEC.BAT` tells
/// one or names the magazine, or where there is a table of contents. The name of the image
/// goes before `AUTOEXEC.BAT`, which does not tell the side.
pub proof fn disks_of_the_magazine_are_told(ctx: ContextModel)
    ensures
        is_dennou(ctx) <==> {
            ||| issue_of_path(ctx.image_path) is Some
            ||| text_at_path(ctx.fs, "AUTOEXEC.BAT"@) is Some && issue_of_autoexec(
                text_at_path(ctx.fs, "AUTOEXEC.BAT"@)->0,
            ) is Some
            ||| text_at_path(ctx.fs, "AUTOEXEC.BAT"@) is Some && has_part(
                text_at_path(ctx.fs, "AUTOEXEC.BAT"@)->0,
                "電脳倶楽部"@,
            )
            ||| ctx.fs.found(components("QS/MOKUJI.DOC"@)) is Ok
            ||| ctx.fs.found(components("QUICKSTART/MOKUJI.DOC"@)) is Ok
        },
        issue_of_path(ctx.image_path) is Some ==> issue_of(ctx).0 == issue_of_path(ctx.image_path),
        issue_of_path(ctx.image_path) is None && text_at_path(ctx.fs, "AUTOEXEC.BAT"@) is Some
            && issue_of_autoexec(text_at_path(ctx.fs, "AUTOEXEC.BAT"@)->0) is Some ==> {
            let told = issue_of_autoexec(text_at_path(ctx.fs, "AUTOEXEC.BAT"@)->0)->0;
            issue_of(ctx).0 == Some((told.0, told.1, Seq::<char>::empty())) && issue_of(ctx).1
                == seq!["issue_role unknown (resolved from AUTOEXEC.BAT)"@]
        },
        issue_of_path(ctx.image_path) is Some || issue_of(ctx).0 is None ==> issue_of(ctx).1.len()
            == 0,
        issue_of(ctx).0 is Some && issue_of_path(ctx.image_path) is None ==> text_at_path(
            ctx.fs,
            "AUTOEXEC.BAT"@,
        ) is Some,
{
}

/// A text on a disk is what its path leads to, from Shift_JIS and in the normal form.
pub proof fn texts_are_decoded_and_normalized(fs: DiskModel, path: Seq<char>)
    ensures
        text_at_path(fs, path) is Some <==> fs.found(components(path)) is Ok && fs.file_bytes(
            fs.found(components(path))->Ok_0,
        ) is Ok && decodable_length(
            fs.file_bytes(fs.found(components(path))->Ok_0)->Ok_0.len(),
        ),
        text_at_path(fs, path) matches Some(text) ==> fs.found(components(path)) is Ok
            && fs.file_bytes(fs.found(components(path))->Ok_0) is Ok && text == nfkc_text(
            sjis_text(fs.file_bytes(fs.found(components(path))->Ok_0)->Ok_0),
        ),
{
}

proof fn insertion_has(s: Seq<Seq<char>>, x: Seq<char>, y: Seq<char>)
    ensures
        insertion(s, x, text_order(TextOrder::Plain)).contains(y) <==> s.contains(y) || x == y,
        insertion(s, x, text_order(TextOrder::Plain)).len() == s.len() + 1,
    decreases s.len(),
{
    let le = text_order(TextOrder::Plain);
    let r = insertion(s, x, le);
    if s.len() == 0 || le(s.last(), x) {
        assert(r == s.push(x));
        if s.contains(y) {
            let k = choose|k: int| 0 <= k < s.len() && s[k] == y;
            assert(r[k] == y);
        }
        assert(r[s.len() as int] == x);
        if r.contains(y) && x != y {
            let k = choose|k: int| 0 <= k < r.len() && r[k] == y;
            assert(s[k] == y);
        }
    } else {
        insertion_has(s.drop_last(), x, y);
        let sub = insertion(s.drop_last(), x, le);
        assert(r == sub.push(s.last()));
        if sub.contains(y) {
            let k = choose|k: int| 0 <= k < sub.len() && sub[k] == y;
            assert(r[k] == y);
        }
        assert(r[sub.len() as int] == s.last());
        if s.contains(y) {
            let k = choose|k: int| 0 <= k < s.len() && s[k] == y;
            if k < s.len() - 1 {
                assert(s.drop_last()[k] == y);
            }
        }
        if s.drop_last().contains(y) {
            let k = choose|k: int| 0 <= k < s.drop_last().len() && s.drop_last()[k] == y;
            assert(s[k] == y);
        }
        if r.contains(y) {
            let k = choose|k: int| 0 <= k < r.len() && r[k] == y;
            if k < sub.len() {
                assert(sub[k] == y);
            } else {
                assert(s[s.len() - 1] == y);
            }
        }
    }
}

/// Whether an entry is a piece of music: a file with the extension `DOC` that is neither
/// the directory itself nor its parent.
pub open spec fn is_music(e: DirEntryModel) -> bool {
    &&& e.attr.bits & 0x10 != 0x10
    &&& e.attr.bits & 0x08 != 0x08
    &&& e.name != "."@
    &&& e.name != ".."@
    &&& same_letters(e.ext, "DOC"@)
}

/// The pieces in a directory are the names, in capitals, of its files with the extension
/// `DOC`: all of them, each once, and no others.
pub proof fn pieces_are_the_documents(entries: Seq<DirEntryModel>, name: Seq<char>)
    ensures
        stems_among(entries).contains(name) <==> exists|i: int|
            0 <= i < entries.len() && is_music(#[trigger] entries[i]) && uppered(entries[i].name)
                == name,
        stems_among(entries).no_duplicates(),
        in_order(stems_among(entries), text_order(TextOrder::Plain)),
    decreases entries.len(),
{
    if entries.len() > 0 {
        let head = entries.drop_last();
        let last = entries.last();
        let before = stems_among(head);
        let own = uppered(last.name);
        pieces_are_the_documents(head, name);
        case_is_all_that_goes(last.ext, "DOC"@);
        insertion_has(before, own, name);
        text_orders_are_orders(TextOrder::Plain);
        if is_music(last) {
            assert(entries[entries.len() - 1] == last);
            if !before.contains(own) {
                crate::sort::insertion_stays_distinct(before, own, text_order(TextOrder::Plain));
                crate::sort::insertion_stays_in_order(before, own, text_order(TextOrder::Plain));
            }
        }
        if exists|i: int|
            0 <= i < head.len() && is_music(#[trigger] head[i]) && uppered(head[i].name) == name {
            let i = choose|i: int|
                0 <= i < head.len() && is_music(#[trigger] head[i]) && uppered(head[i].name)
                    == name;
            assert(entries[i] == head[i]);
        }
        if exists|i: int|
            0 <= i < entries.len() && is_music(#[trigger] entries[i]) && uppered(entries[i].name)
                == name {
            let i = choose|i: int|
                0 <= i < entries.len() && is_music(#[trigger] entries[i]) && uppered(
                    entries[i].name,
                ) == name;
            if i < head.len() {
                assert(head[i] == entries[i]);
            }
        }
    }
}

/// The pieces of a disk are those in its directory `MUSIC`.
pub proof fn pieces_are_in_the_music_directory(fs: DiskModel)
    ensures
        stems_on(fs) == match fs.listed(components("MUSIC"@)) {
            Ok(entries) => stems_among(entries),
            Err(_) => Seq::empty(),
        },
{
}

/// The records of some pieces are those of each of them, in their order, as far as their
/// documents can be read.
pub proof fn each_piece_gives_its_record(
    ctx: ContextModel,
    issue: (Seq<char>, u64, Seq<char>),
    hints: Seq<(Seq<char>, HintModel)>,
    stems: Seq<Seq<char>>,
    k: int,
)
    requires
        0 <= k < stems.len(),
        piece_record(ctx, issue, hints, stems[k]) is Some,
    ensures
        piece_records(ctx, issue, hints, stems).contains(
            piece_record(ctx, issue, hints, stems[k])->0,
        ),
        piece_records(ctx, issue, hints, stems).len() <= stems.len(),
    decreases stems.len(),
{
    let fewer = stems.drop_last();
    let before = piece_records(ctx, issue, hints, fewer);
    let now = piece_records(ctx, issue, hints, stems);
    let record = piece_record(ctx, issue, hints, stems[k])->0;
    fewer_records(ctx, issue, hints, stems);
    if k < fewer.len() {
        assert(fewer[k] == stems[k]);
        each_piece_gives_its_record(ctx, issue, hints, fewer, k);
        let i = choose|i: int| 0 <= i < before.len() && before[i] == record;
        assert(now[i] == record);
    } else {
        assert(now[before.len() as int] == record);
    }
}

proof fn fewer_records(
    ctx: ContextModel,
    issue: (Seq<char>, u64, Seq<char>),
    hints: Seq<(Seq<char>, HintModel)>,
    stems: Seq<Seq<char>>,
)
    ensures
        piece_records(ctx, issue, hints, stems).len() <= stems.len(),
    decreases stems.len(),
{
    if stems.len() > 0 {
        fewer_records(ctx, issue, hints, stems.drop_last());
    }
}

/// A disk of side `A`, whichever way the letter is written, gives the records of the pieces
/// in its directory `MUSIC`; any other disk gives none.
pub proof fn side_a_gives_its_pieces(ctx: ContextModel, issue: (Seq<char>, u64, Seq<char>))
    requires
        issue_of(ctx).0 == Some(issue),
    ensures
        same_letters(issue.2, "A"@) ==> taken_from(ctx).records == piece_records(
            ctx,
            issue,
            hints_on(ctx.fs),
            stems_on(ctx.fs),
        ),
        !same_letters(issue.2, "A"@) ==> taken_from(ctx).records.len() == 0,
{
    case_is_all_that_goes(issue.2, "A"@);
    if stems_on(ctx.fs).len() == 0 {
        assert(piece_records(ctx, issue, hints_on(ctx.fs), stems_on(ctx.fs)) =~= Seq::empty());
    }
}

} // verus!
