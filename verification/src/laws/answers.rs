//! What the model is asked, what its answers cost, and what is made of them.

use crate::anthropic::{answer_text, price_of, ContentBlock};
use crate::image::ImageKind;
use crate::laws::texts::{all_white, is_bare, the_last_place_is_found,
    trimming_takes_white_space_away};
use crate::path::{name_extension, rfind_char};
use crate::summarizer::{block_facts, block_heading, block_label, block_text, braces_of,
    cleaned_answer, group_prompt, last_place, listing_heading, listing_lines, lower_name,
    member_block, set_blocks, system_text, SYSTEM_PROMPT_EN, SYSTEM_PROMPT_JA, SnapshotModel};
use crate::summary::{has_member, scanned_from, summarized, summary_for, FoundSummary,
    ImageSummary};
use crate::text::{decimal, find_char_is_first, find_char_unique, text_at};
use vstd::prelude::*;

verus! {

/// The name of a format, as the model is told it.
pub open spec fn format_name(kind: ImageKind) -> Seq<char> {
    match kind {
        ImageKind::Xdf => "XDF"@,
        ImageKind::Hds => "HDS"@,
        ImageKind::Hdf => "HDF"@,
    }
}

/// What the model is shown of one disk in English: the format, the size, the number of
/// files, the volume label if there is one, the listing, and the main text if there is one.
pub proof fn disks_are_described_in_english(path: Seq<char>, snap: SnapshotModel)
    ensures
        member_block(path, snap, "en"@, None) == "Image format: "@ + format_name(snap.format)
            + "\nTotal bytes: "@ + decimal(snap.total_size as nat)
            + "\nFile count (after LZH expansion): "@ + decimal(snap.file_count) + "\n"@ + (
        match snap.volume_label {
            Some(l) => "Volume label: "@ + l + "\n"@,
            None => Seq::empty(),
        }) + ("\nFile listing (first "@ + decimal(snap.listing.len()) + "):\n"@) + listing_lines(
            snap.listing,
        ) + (match snap.main_text {
            Some((name, text)) => "\nMain text content from "@ + name + ":\n---\n"@ + text
                + "\n---\n"@,
            None => Seq::empty(),
        }),
{
    let facts = "Image format: "@ + format_name(snap.format) + "\nTotal bytes: "@ + decimal(
        snap.total_size as nat,
    ) + "\nFile count (after LZH expansion): "@ + decimal(snap.file_count) + "\n"@;
    assert(Seq::<char>::empty() + facts =~= facts);
}

/// What the model is shown of one disk in Japanese, which is any language but English.
pub proof fn disks_are_described_in_japanese(path: Seq<char>, snap: SnapshotModel, lang: Seq<char>)
    requires
        lang != "en"@,
    ensures
        member_block(path, snap, lang, None) == "イメージ形式: "@ + format_name(snap.format)
            + "\n総バイト数: "@ + decimal(snap.total_size as nat) + "\nファイル数 (LZH展開後): "@ + decimal(
            snap.file_count,
        ) + "\n"@ + (match snap.volume_label {
            Some(l) => "ボリュームラベル: "@ + l + "\n"@,
            None => Seq::empty(),
        }) + ("\nファイル一覧 (先頭"@ + decimal(snap.listing.len()) + "件):\n"@) + listing_lines(
            snap.listing,
        ) + (match snap.main_text {
            Some((name, text)) => "\n主要テキストの抜粋 ("@ + name + "):\n---\n"@ + text + "\n---\n"@,
            None => Seq::empty(),
        }),
{
    let facts = "イメージ形式: "@ + format_name(snap.format) + "\n総バイト数: "@ + decimal(
        snap.total_size as nat,
    ) + "\nファイル数 (LZH展開後): "@ + decimal(snap.file_count) + "\n"@;
    assert(Seq::<char>::empty() + facts =~= facts);
}

/// Each file of a listing has a line with its path and its size.
pub proof fn listings_have_a_line_for_each_file(
    listing: Seq<(Seq<char>, u64)>,
    path: Seq<char>,
    size: u64,
)
    ensures
        listing_lines(Seq::empty()).len() == 0,
        listing_lines(listing.push((path, size))) == listing_lines(listing) + "  "@ + path + " ("@
            + decimal(size as nat) + " B)\n"@,
{
    assert(listing.push((path, size)).drop_last() =~= listing);
}

proof fn parts_follow_the_heading(
    h: Seq<char>,
    a: Seq<char>,
    b: Seq<char>,
    c: Seq<char>,
    d: Seq<char>,
    e: Seq<char>,
)
    ensures
        h + a + b + c + d + e == h + (Seq::<char>::empty() + a + b + c + d + e),
{
    assert(h + a + b + c + d + e =~= h + (Seq::<char>::empty() + a + b + c + d + e));
}

proof fn headings_come_first(path: Seq<char>, snap: SnapshotModel, lang: Seq<char>, label: Seq<char>)
    ensures
        member_block(path, snap, lang, Some(label)) == (if lang == "en"@ {
            "=== Disk: "@
        } else {
            "=== ディスク: "@
        }) + label + " ("@ + path + ") ===\n"@ + member_block(path, snap, lang, None),
{
    let english = lang == "en"@;
    parts_follow_the_heading(
        block_heading(english, path, Some(label)),
        block_facts(english, snap),
        block_label(english, snap),
        listing_heading(english, snap.listing.len()),
        listing_lines(snap.listing),
        block_text(english, snap),
    );
}

proof fn one_more_block(a: Seq<char>, h: Seq<char>, m: Seq<char>, i: Seq<char>, p: Seq<char>, e: Seq<char>, b: Seq<char>, z: Seq<char>)
    ensures
        a + (h + m + i + p + e + b) + z == a + h + m + i + p + e + b + z,
{
    assert(a + (h + m + i + p + e + b) + z =~= a + h + m + i + p + e + b + z);
}

/// A single disk is described alone; of several, each has a heading with its number and its
/// path, in their order.
pub proof fn sets_are_described_disk_by_disk(
    paths: Seq<Seq<char>>,
    snaps: Seq<SnapshotModel>,
    lang: Seq<char>,
    n: int,
)
    requires
        paths.len() == snaps.len(),
        0 <= n < snaps.len(),
    ensures
        snaps.len() == 1 ==> group_prompt(paths, snaps, lang) == member_block(
            paths[0],
            snaps[0],
            lang,
            None,
        ),
        set_blocks(paths, snaps, lang, 0).len() == 0,
        set_blocks(paths, snaps, lang, n + 1) == set_blocks(paths, snaps, lang, n) + (if lang
            == "en"@ {
            "=== Disk: "@
        } else {
            "=== ディスク: "@
        }) + decimal((n + 1) as nat) + " ("@ + paths[n] + ") ===\n"@ + member_block(
            paths[n],
            snaps[n],
            lang,
            None,
        ) + "\n"@,
        snaps.len() != 1 ==> group_prompt(paths, snaps, lang) == (if lang == "en"@ {
            "This is a multi-disk set ("@ + decimal(snaps.len()) + " disks total).\n\n"@
        } else {
            "これは "@ + decimal(snaps.len()) + " 枚組のディスクセットです。各ディスクの内容を以下に列挙します。\n\n"@
        }) + set_blocks(paths, snaps, lang, snaps.len() as int),
{
    let number = decimal((n + 1) as nat);
    headings_come_first(paths[n], snaps[n], lang, number);
    one_more_block(
        set_blocks(paths, snaps, lang, n),
        if lang == "en"@ {
            "=== Disk: "@
        } else {
            "=== ディスク: "@
        },
        number,
        " ("@,
        paths[n],
        ") ===\n"@,
        member_block(paths[n], snaps[n], lang, None),
        "\n"@,
    );
}

/// The model is told in English what to do where that is asked for, otherwise in Japanese; a
/// set of several disks is told with their number.
pub proof fn the_language_chooses_the_instructions(lang: Seq<char>, count: nat)
    ensures
        count <= 1 && lang == "en"@ ==> system_text(lang, count) == SYSTEM_PROMPT_EN@,
        count <= 1 && lang != "en"@ ==> system_text(lang, count) == SYSTEM_PROMPT_JA@,
        count > 1 && lang == "en"@ ==> system_text(lang, count).len() > SYSTEM_PROMPT_EN@.len()
            && system_text(lang, count).take(SYSTEM_PROMPT_EN@.len() as int) == SYSTEM_PROMPT_EN@,
        count > 1 && lang != "en"@ ==> system_text(lang, count).take(
            SYSTEM_PROMPT_JA@.len() as int,
        ) == SYSTEM_PROMPT_JA@,
        count > 1 && lang == "en"@ ==> system_text(lang, count) == SYSTEM_PROMPT_EN@ + (
        "\n\n**Important**: This is a "@ + decimal(count)
            + "-disk related set (e.g. side A/B/X of one magazine issue). Summarize the SET as a whole, not individual disks. You may prefix highlight paths with the disk name to disambiguate."@),
        count > 1 && lang != "en"@ ==> system_text(lang, count) == SYSTEM_PROMPT_JA@ + (
        "\n\n**重要**: これは "@ + decimal(count)
            + " 枚組の関連ディスクセット (例: 雑誌1号分の A 面 / B 面 / X 面) です。個別の面ごとではなく、セット全体としての概要・特徴・代表的なファイルを記述してください。highlights のパスにはどのディスクのファイルか分かるよう接頭辞を付けてもOK。"@),
{
    let none = Seq::<char>::empty();
    assert(SYSTEM_PROMPT_EN@ + none =~= SYSTEM_PROMPT_EN@);
    assert(SYSTEM_PROMPT_JA@ + none =~= SYSTEM_PROMPT_JA@);
    if count > 1 {
        reveal_strlit("\n\n**Important**: This is a ");
        assert(system_text(lang, count).take(SYSTEM_PROMPT_EN@.len() as int) =~= SYSTEM_PROMPT_EN@
            || lang != "en"@);
        assert(system_text(lang, count).take(SYSTEM_PROMPT_JA@.len() as int) =~= SYSTEM_PROMPT_JA@
            || lang == "en"@);
    }
}

/// What a million tokens cost, read and written, in dollars: one and five with the small
/// model, fifteen and seventy-five with the large one, three and fifteen otherwise.
pub proof fn models_have_their_prices(series: Seq<char>, model: Seq<char>)
    ensures
        model == series + "-"@ + "haiku-4-5-20251001"@ ==> price_of(series, model) == (1u32, 5u32),
        model == series + "-"@ + "sonnet-4-6"@ ==> price_of(series, model) == (3u32, 15u32),
        model == series + "-"@ + "opus-4-7"@ ==> price_of(series, model) == (15u32, 75u32),
        model != series + "-"@ + "haiku-4-5-20251001"@ && model != series + "-"@ + "opus-4-7"@
            ==> price_of(series, model) == (3u32, 15u32),
{
    reveal_strlit("haiku-4-5-20251001");
    reveal_strlit("sonnet-4-6");
    reveal_strlit("opus-4-7");
    let a = series + "-"@ + "haiku-4-5-20251001"@;
    let b = series + "-"@ + "sonnet-4-6"@;
    let c = series + "-"@ + "opus-4-7"@;
    assert(a.len() != b.len() && a.len() != c.len() && b.len() != c.len());
}

/// The text of an answer is that of its parts of the kind `text`, one after the other.
pub proof fn answers_are_their_texts(blocks: Seq<ContentBlock>, n: int)
    requires
        0 <= n < blocks.len(),
    ensures
        answer_text(blocks, 0).len() == 0,
        blocks[n].block_type@ == "text"@ && blocks[n].text is Some ==> answer_text(blocks, n + 1)
            == answer_text(blocks, n) + blocks[n].text->0@,
        blocks[n].block_type@ != "text"@ || blocks[n].text is None ==> answer_text(blocks, n + 1)
            == answer_text(blocks, n),
{
}

proof fn the_last_fence_is_found(s: Seq<char>, k: int, n: int)
    requires
        0 <= k < n,
        text_at(s, k, "```"@),
        forall|i: int| k < i < n ==> !text_at(s, i, "```"@),
    ensures
        last_place(s, "```"@, n) == k,
    decreases n,
{
    if n - 1 > k {
        assert(!text_at(s, n - 1, "```"@));
        the_last_fence_is_found(s, k, n - 1);
    }
}

/// An answer in a code block is what stands between the line that opens the block and the
/// mark that closes it, without white space around it. An answer without one is taken as it
/// is, without white space around it.
pub proof fn answers_are_taken_out_of_code_blocks(
    before: Seq<char>,
    kind: Seq<char>,
    body: Seq<char>,
    gap: Seq<char>,
    after: Seq<char>,
)
    requires
        all_white(before),
        all_white(gap),
        all_white(after),
        is_bare(body),
        !kind.contains('\n'),
    ensures
        cleaned_answer(
            before + ("```"@ + kind + seq!['\n'] + body + gap + "```"@) + after,
        ) == body,
        !text_at(body, 0, "```"@) ==> cleaned_answer(before + body + after) == body,
{
    reveal_strlit("```");
    let fence = "```"@;
    assert(fence =~= seq!['`', '`', '`']);
    let t = fence + kind + seq!['\n'] + body + gap + fence;
    assert(t[0] == '`' && t.last() == '`');
    assert(!crate::text::is_white('`'));
    trimming_takes_white_space_away(before, t, after);
    trimming_takes_white_space_away(before, body, after);
    assert(t.subrange(0, 3) =~= fence);
    let k = (3 + kind.len()) as int;
    assert forall|i: int| 0 <= i < k implies #[trigger] t[i] != '\n' by {
        if i >= 3 {
            assert(t[i] == kind[i - 3]);
            if kind[i - 3] == '\n' {
                assert(kind.contains('\n'));
            }
        }
    }
    assert(t[k] == '\n');
    find_char_unique(t, '\n', k);
    let rest = body + gap + fence;
    assert(t.skip(k + 1) =~= rest);
    let m = (body.len() + gap.len()) as int;
    assert(rest.subrange(m, m + 3) =~= fence);
    assert(text_at(rest, m, fence));
    assert forall|i: int| m < i < rest.len() implies !text_at(rest, i, fence) by {
    }
    the_last_fence_is_found(rest, m, rest.len() as int);
    assert(rest.take(m) =~= body + gap);
    let none = Seq::<char>::empty();
    assert(none + body + gap =~= body + gap);
    trimming_takes_white_space_away(none, body, gap);
}

/// Of an answer with words around it, what stands from the first opening brace to the last
/// closing one is taken.
pub proof fn braces_are_taken_out_of_words(before: Seq<char>, inner: Seq<char>, after: Seq<char>)
    requires
        !before.contains('{'),
        !after.contains('}'),
    ensures
        braces_of(before + seq!['{'] + inner + seq!['}'] + after) == Some(
            seq!['{'] + inner + seq!['}'],
        ),
{
    let s = before + seq!['{'] + inner + seq!['}'] + after;
    let a = before.len() as int;
    let b = (before.len() + 1 + inner.len()) as int;
    assert forall|i: int| 0 <= i < a implies #[trigger] s[i] != '{' by {
        assert(s[i] == before[i]);
        if before[i] == '{' {
            assert(before.contains('{'));
        }
    }
    assert(s[a] == '{');
    find_char_unique(s, '{', a);
    the_last_place_is_found(s, '}');
    let last = rfind_char(s, '}');
    assert(s[b] == '}');
    if last > b {
        assert(s[last] == after[last - b - 1]);
        assert(after.contains('}'));
    }
    assert(last == b);
    assert(s.subrange(a, b + 1) =~= seq!['{'] + inner + seq!['}']);
}

/// The formats of images in a summary, in small letters.
pub proof fn formats_have_small_names(kind: ImageKind)
    ensures
        kind == ImageKind::Xdf ==> lower_name(kind) == "xdf"@,
        kind == ImageKind::Hds ==> lower_name(kind) == "hds"@,
        kind == ImageKind::Hdf ==> lower_name(kind) == "hdf"@,
{
}

proof fn the_first_scan_counts(all: Seq<ImageSummary>, from: int, k: int, id: Seq<char>)
    requires
        0 <= from <= k < all.len() <= usize::MAX,
        forall|i: int| from <= i < k ==> !has_member(#[trigger] all[i], id),
        has_member(all[k], id),
    ensures
        scanned_from(all, from, id) == Some(k as usize),
    decreases k - from,
{
    if from < k {
        the_first_scan_counts(all, from + 1, k, id);
    }
}

/// The summary of an image is the one that bears its name, if that has the image as a member
/// or has no members and the name of the image; otherwise the first one that has the image as
/// a member.
pub proof fn summaries_are_found_by_member(
    direct: Option<ImageSummary>,
    all: Seq<ImageSummary>,
    id: Seq<char>,
    k: int,
)
    requires
        0 <= k < all.len() <= usize::MAX,
        forall|i: int| 0 <= i < k ==> !has_member(#[trigger] all[i], id),
        has_member(all[k], id),
    ensures
        direct matches Some(s) ==> (has_member(s, id) || (s.members@.len() == 0 && s.image_id@
            == id) ==> summary_for(direct, all, id) == FoundSummary::Direct),
        direct matches Some(s) ==> (!has_member(s, id) && !(s.members@.len() == 0 && s.image_id@
            == id) ==> summary_for(direct, all, id) == FoundSummary::Scanned(k as usize)),
        direct is None ==> summary_for(direct, all, id) == FoundSummary::Scanned(k as usize),
{
    the_first_scan_counts(all, 0, k, id);
}

/// The summaries that there are go by the names of their files without the extension `json`;
/// other files do not count.
pub proof fn summaries_are_files_with_their_names(files: Seq<Seq<char>>, id: Seq<char>)
    requires
        id.len() > 0,
    ensures
        summarized(Seq::empty()).len() == 0,
        summarized(files.push(id + ".json"@)) == summarized(files).push(id),
        name_extension(id) != Some("json"@) ==> summarized(files.push(id)) == summarized(files),
{
    reveal_strlit(".json");
    reveal_strlit("json");
    let ext = "json"@;
    assert(!ext.contains('.'));
    crate::laws::texts::names_are_stem_and_extension(id, ext);
    assert(id + ".json"@ =~= id + seq!['.'] + ext);
    assert(files.push(id + ".json"@).drop_last() =~= files);
    assert(files.push(id).drop_last() =~= files);
}

/// An answer without an opening brace is taken from its beginning, one without a closing brace
/// to its end. Where the last closing brace stands before the first opening one, nothing can
/// be taken.
pub proof fn missing_braces_are_made_up_for(a: Seq<char>, b: Seq<char>)
    requires
        !a.contains('{'),
        !a.contains('}'),
        !b.contains('}'),
    ensures
        braces_of(a) == Some(a),
        braces_of(a + seq!['{'] + b) == Some(seq!['{'] + b),
        braces_of(a + seq!['}']) == Some(a + seq!['}']),
        braces_of(a + seq!['}', ' ', '{'] + b) is None,
{
    let opened = a + seq!['{'] + b;
    let closed = a + seq!['}'];
    let turned = a + seq!['}', ' ', '{'] + b;
    let n = a.len() as int;
    assert forall|i: int| 0 <= i < n implies #[trigger] a[i] != '{' && a[i] != '}' by {
        assert(a.contains(a[i]));
    }
    assert forall|i: int| 0 <= i < b.len() implies #[trigger] b[i] != '}' by {
        assert(b.contains(b[i]));
    }
    find_char_is_first(a, '{');
    the_last_place_is_found(a, '}');
    assert(a.subrange(0, n) =~= a);
    find_char_unique(opened, '{', n);
    the_last_place_is_found(opened, '}');
    let last = rfind_char(opened, '}');
    if last >= 0 {
        assert(opened[last] == if last < n {
            a[last]
        } else if last == n {
            '{'
        } else {
            b[last - n - 1]
        });
    }
    assert(opened.subrange(n, opened.len() as int) =~= seq!['{'] + b);
    find_char_is_first(closed, '{');
    the_last_place_is_found(closed, '}');
    assert(closed[n] == '}');
    assert(closed.subrange(0, n + 1) =~= closed);
    find_char_unique(turned, '{', n + 2);
    the_last_place_is_found(turned, '}');
    let end = rfind_char(turned, '}');
    assert(turned[n] == '}' && turned[n + 1] == ' ' && turned[n + 2] == '{');
    if end > n + 2 {
        assert(turned[end] == b[end - n - 3]);
    }
}

/// The members of a summary are the images that its entries name, and no others.
pub proof fn members_are_those_that_entries_name(s: ImageSummary, id: Seq<char>, k: int)
    ensures
        0 <= k < s.members@.len() ==> has_member(s, s.members@[k].image_id@),
        (forall|i: int| 0 <= i < s.members@.len() ==> (#[trigger] s.members@[i]).image_id@ != id)
            ==> !has_member(s, id),
{
}

} // verus!
