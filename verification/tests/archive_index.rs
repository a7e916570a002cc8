//! Documents, records, groups, tables and summaries.

use x68k_archive::anthropic::{completion, cost_in_millionths, join_text_blocks, model_name,
    price_per_million, ContentBlock, MODEL_HAIKU, MODEL_OPUS, MODEL_SONNET};
use x68k_archive::dennou::{clean_field, is_separator_line, issue_from_filename, parse_doc_header,
    parse_mokuji, parse_submitter};
use x68k_archive::document::{decode_sjis_lossy, make_excerpt};
use x68k_archive::extract::{json_value_to_owned, record_to_doc, ExtractedRecord};
use x68k_archive::grouping::{resolve_groups, GroupConfig, GroupConfigError, GroupConfigRaw,
    ImageFile, ManualGroupRaw, ResolvedGroup, RuleFault, RuleRaw};
use x68k_archive::json::{Json, Member};
use x68k_archive::metadata::{csv_quote, flatten_owned_value, pass_post_filters, rows_to_csv,
    MetadataFilters, MetadataView, QueryResult, RowExtracted, TextMap};
use x68k_archive::schema::{is_text_extension, ArchiveSchema, Field};
use x68k_archive::summarizer::{clean_answer, parse_summary_json, salvage_json, system_prompt,
    AnswerError, ParsedSummary};
use x68k_archive::summary::{find_summary_by_image_id, list_summarized_ids, summaries_dir,
    summary_path, FoundSummary, HighlightEntry, ImageSummary, MemberInfo, UsageInfo};
use x68k_archive::text_norm::{collapse_spaces, decode_sjis_nfkc, nfkc};

#[test]
fn issue_from_filename_main() {
    let r = issue_from_filename("/archive/Dennou094A.img").unwrap();
    assert_eq!(r.0, "main");
    assert_eq!(r.1, 94);
    assert_eq!(r.2, "A");
}

#[test]
fn issue_from_filename_extra() {
    let r = issue_from_filename("/archive/Bessatu14A.xdf").unwrap();
    assert_eq!(r.0, "extra");
    assert_eq!(r.1, 14);
    assert_eq!(r.2, "A");
}

#[test]
fn issue_from_filename_zero_padded() {
    let r = issue_from_filename("/archive/Dennou074A.img").unwrap();
    assert_eq!(r.1, 74);
}

#[test]
fn issue_from_filename_b_side_excluded_from_music() {
    let r = issue_from_filename("/archive/Dennou094B.img").unwrap();
    assert_eq!(r.2, "B");
}

#[test]
fn separator_detection() {
    assert!(is_separator_line("♪♪♪♪♪♪♪♪♪♪"));
    assert!(is_separator_line("  ♪♪♪♪♪♪♪♪♪♪  "));
    assert!(!is_separator_line("♪ Title ♪"));
    assert!(!is_separator_line(""));
    assert!(!is_separator_line("MUSIC by 山田 太郎"));
}

#[test]
fn parse_doc_header_typical() {
    let sample = "
♪♪♪♪♪♪♪♪♪♪♪♪♪♪♪♪♪♪♪♪♪♪♪♪♪♪♪♪♪♪♪♪

   　　  SAMPLE SONG TITLE

         Sample Artist

         MUSIC by 山田 太郎

         68ARRENGE by Hanako

         Z-MUSIC Ver 2.06

         演奏時間 3分 19杪

♪♪♪♪♪♪♪♪♪♪♪♪♪♪♪♪♪♪♪♪♪♪♪♪♪♪♪♪♪♪♪♪
";
    let mut warnings = Vec::new();
    let h = parse_doc_header(sample, &mut warnings);
    assert_eq!(h.title.as_deref(), Some("SAMPLE SONG TITLE"));
    assert_eq!(h.original_artist.as_deref(), Some("Sample Artist"));
    assert_eq!(h.composer.as_deref(), Some("山田 太郎"));
    assert_eq!(h.arranger.as_deref(), Some("Hanako"));
    assert!(h.engine.as_deref().unwrap().contains("Z-MUSIC"));
    assert!(h.duration.as_deref().unwrap().contains("3"));
    assert_eq!(h.engine.as_deref(), Some("Z-MUSIC Ver 2.06"));
    assert_eq!(h.duration.as_deref(), Some("3分 19杪"));
    assert!(warnings.is_empty());
}

#[test]
fn submitter_pref_name() {
    let sample = "本曲は、茨城県の山田 太郎さんの投稿です。";
    let s = parse_submitter(sample).unwrap();
    assert_eq!(s.pref, "茨城県");
    assert_eq!(s.name, "山田 太郎");
}

#[test]
fn submitter_alt_form() {
    let sample = "山口県の田中花子さんの投稿です";
    let s = parse_submitter(sample).unwrap();
    assert_eq!(s.pref, "山口県");
    assert_eq!(s.name, "田中花子");
}

#[test]
fn parse_mokuji_yields_stem_to_submitter() {
    let sample = "
%V%W SAMPLE SONG TITLE
◎演奏を聞く                 TYPE=OPM:A:\\MUSIC\\SONGA.ZMS
◎説明                       TYPE=DOC:A:\\MUSIC\\SONGA.DOC
作曲：山田 太郎             (頒布版：日本音楽著作権協会許諾 R-XXXXXXX)
茨城県の田中花子さんの投稿です。

%V%W ANOTHER SONG
◎演奏を聞く                 TYPE=OPM:A:\\MUSIC\\SONGB.ZMS
東京都の佐藤 太郎さんの投稿です。
";
    let m = parse_mokuji(sample);
    assert_eq!(
        m.get("SONGA").and_then(|h| h.submitter.as_ref()).map(|s| s.name.clone()),
        Some("田中花子".to_string())
    );
    assert_eq!(
        m.get("SONGB").and_then(|h| h.submitter.as_ref()).map(|s| s.pref.clone()),
        Some("東京都".to_string())
    );
    assert!(m.get("SONGA").and_then(|h| h.jasrac_note.as_ref()).is_some());
}

#[test]
fn clean_field_strips_trailing_paren() {
    assert_eq!(clean_field("山田 太郎 (作詞:○○)"), "山田 太郎");
    assert_eq!(clean_field("山田 太郎（メイン）"), "山田 太郎");
    assert_eq!(clean_field("  Hanako  "), "Hanako");
}

#[test]
fn excerpt_respects_char_boundary() {
    let s = "abc\u{3042}defg";
    let cut = make_excerpt(s, 5);
    assert_eq!(cut, "abc");
}

#[test]
fn excerpt_full_when_short() {
    assert_eq!(make_excerpt("hello", 100), "hello");
}

#[test]
fn sjis_decode_basic_ascii() {
    let bytes = b"Hello, World!";
    assert_eq!(decode_sjis_lossy(bytes), "Hello, World!");
}

#[test]
fn sjis_decode_japanese() {
    let bytes = b"\x82\xB1\x82\xF1\x82\xC9\x82\xBF\x82\xCD";
    assert_eq!(decode_sjis_lossy(bytes), "こんにちは");
}

fn text(s: &str) -> Json {
    Json::Text(s.to_string())
}

fn member(name: &str, value: Json) -> Member {
    Member { name: name.to_string(), value }
}

fn sample_record() -> ExtractedRecord {
    ExtractedRecord {
        unique_id: "dennou:9dc9b31f:MUSIC/SONGA.DOC".into(),
        category: "music".into(),
        source_path: "MUSIC/SONGA.DOC".into(),
        image_path: "/archive/Dennou094A.img".into(),
        image_id: "9dc9b31fab1c2d3e".into(),
        partition: 0,
        issue_no: 94,
        issue_kind: "main".into(),
        issue_role: "A".into(),
        location_facet: "/dennou/main/094".into(),
        payload: Json::Object(vec![
            member("title", text("SAMPLE SONG TITLE")),
            member("composer", text("山田 太郎")),
            member("submitter", text("田中花子")),
        ]),
        schema_plugin: "dennou".into(),
        schema_version: 1,
    }
}

#[test]
fn record_to_doc_round_trip() {
    let rec = sample_record();
    let doc = record_to_doc(&rec);
    assert!(doc.get_first(Field::UniqueId).is_some());
    assert!(doc.get_first(Field::Category).is_some());
    assert!(doc.get_first(Field::IssueNo).is_some());
    assert!(doc.get_first(Field::Payload).is_some());
    assert!(doc.get_first(Field::LocationFacet).is_some());
}

#[test]
fn json_value_owned_supports_nested() {
    let v = Json::Object(vec![
        member("title", text("SONGA")),
        member(
            "files",
            Json::Object(vec![
                member("score", text("MUSIC/SONGA.ZMS")),
                member("doc", text("MUSIC/SONGA.DOC")),
            ]),
        ),
        member("n", Json::Unsigned(94)),
        member("tags", Json::Array(vec![text("a"), text("b")])),
    ]);
    match json_value_to_owned(&v) {
        Json::Object(map) => {
            assert!(map.iter().any(|m| m.name == "title"));
            let files = map.iter().find(|m| m.name == "files").unwrap();
            assert!(matches!(files.value, Json::Object(_)));
            let n = map.iter().find(|m| m.name == "n").unwrap();
            assert!(matches!(n.value, Json::Signed(94)));
            let tags = map.iter().find(|m| m.name == "tags").unwrap();
            assert!(matches!(tags.value, Json::Array(_)));
        }
        other => panic!("expected an object, got {:?}", other),
    }
}

fn from_toml(s: &str) -> Result<GroupConfig, GroupConfigError> {
    let table: toml::Table = s.parse().unwrap();
    let strings = |v: Option<&toml::Value>| -> Vec<String> {
        v.and_then(|x| x.as_array())
            .map(|a| a.iter().map(|x| x.as_str().unwrap().to_string()).collect())
            .unwrap_or_default()
    };
    let tables = |name: &str| -> Vec<toml::Table> {
        table
            .get(name)
            .and_then(|x| x.as_array())
            .map(|a| a.iter().map(|x| x.as_table().unwrap().clone()).collect())
            .unwrap_or_default()
    };
    let word = |t: &toml::Table, name: &str| -> String {
        t.get(name).and_then(|x| x.as_str()).unwrap_or_default().to_string()
    };
    GroupConfig::from_raw(GroupConfigRaw {
        solo_extensions: strings(table.get("solo_extensions")),
        rules: tables("rule")
            .iter()
            .map(|t| RuleRaw { name: word(t, "name"), pattern: word(t, "pattern") })
            .collect(),
        manual_groups: tables("manual_group")
            .iter()
            .map(|t| ManualGroupRaw { id: word(t, "id"), members: strings(t.get("members")) })
            .collect(),
    })
}

fn base(path: &str) -> String {
    path.rsplit('/').next().unwrap().to_string()
}

fn groups_of(paths: &[&str], cfg: &GroupConfig) -> Vec<ResolvedGroup> {
    let images: Vec<ImageFile> = paths
        .iter()
        .map(|p| ImageFile { path: p.to_string(), image_id: base(p) })
        .collect();
    resolve_groups(&images, cfg)
}

#[test]
fn empty_config_makes_everything_solo() {
    let cfg = GroupConfig::empty();
    let groups =
        groups_of(&["/a/Dennou074A.img", "/a/Dennou074B.img", "/a/SCSIHDD1.HDS"], &cfg);
    assert_eq!(groups.len(), 3);
    assert!(groups.iter().all(|g| g.is_solo()));
}

#[test]
fn solo_extensions_isolate_hdds() {
    let cfg = from_toml(
        r#"
        solo_extensions = ["hds", "hdf"]
        [[rule]]
        name = "any-floppy"
        pattern = '^(.+?)[A-Z]?\.(?:img|xdf)$'
        "#,
    )
    .unwrap();
    let groups = groups_of(
        &["/a/Dennou074A.img", "/a/Dennou074B.img", "/a/SCSIHDD1.HDS", "/a/sub.HDF"],
        &cfg,
    );
    assert_eq!(groups.len(), 3);
    let dennou = groups.iter().find(|g| g.members.len() == 2).unwrap();
    assert_eq!(
        dennou.members.iter().map(|m| base(m)).collect::<Vec<_>>(),
        vec!["Dennou074A.img", "Dennou074B.img"]
    );
}

#[test]
fn dennou_specific_rule_with_x_suffix() {
    let cfg = from_toml(
        r#"
        [[rule]]
        name = "dennou"
        pattern = '^(Dennou\d+)[A-Z]\.(?:img|xdf)$'
        "#,
    )
    .unwrap();
    let groups =
        groups_of(&["/a/Dennou074A.img", "/a/Dennou074B.img", "/a/Dennou074X.img"], &cfg);
    assert_eq!(groups.len(), 1);
    assert_eq!(groups[0].members.len(), 3);
}

#[test]
fn manual_group_overrides_rule() {
    let cfg = from_toml(
        r#"
        [[rule]]
        name = "any"
        pattern = '^(.+?)[A-Z]?\.img$'
        [[manual_group]]
        id = "anniversary"
        members = ["Special1.img", "Special2.img"]
        "#,
    )
    .unwrap();
    let groups = groups_of(&["/a/Special1.img", "/a/Special2.img", "/a/Other.img"], &cfg);
    assert_eq!(groups.len(), 2);
    let manual = groups.iter().find(|g| g.origin.starts_with("manual:")).unwrap();
    assert_eq!(manual.members.len(), 2);
    assert_eq!(manual.id, "anniversary");
}

#[test]
fn no_match_falls_back_to_solo() {
    let cfg = from_toml(
        r#"
        [[rule]]
        name = "dennou-only"
        pattern = '^(Dennou\d+)[A-Z]\.img$'
        "#,
    )
    .unwrap();
    let groups = groups_of(&["/a/RandomFloppy.xdf"], &cfg);
    assert_eq!(groups.len(), 1);
    assert_eq!(groups[0].origin, "default-solo");
}

#[test]
fn group_id_stable_under_member_reorder() {
    let cfg = from_toml(
        r#"
        [[rule]]
        name = "any"
        pattern = '^(.+?)[A-Z]\.img$'
        "#,
    )
    .unwrap();
    let g_a = groups_of(&["/a/FooA.img", "/a/FooB.img"], &cfg);
    let g_b = groups_of(&["/a/FooB.img", "/a/FooA.img"], &cfg);
    assert_eq!(g_a[0].id, g_b[0].id);
}

#[test]
fn rule_without_capture_is_rejected() {
    let err = from_toml(
        r#"
        [[rule]]
        name = "bad"
        pattern = '^Dennou\d+\.img$'
        "#,
    );
    assert!(err.is_err());
    assert_eq!(
        err.unwrap_err(),
        GroupConfigError { rule: 0, fault: RuleFault::NoCaptureGroup }
    );
}

#[test]
fn view_columns_match_t1_18() {
    let cols = MetadataView::DennouTracks.columns();
    assert_eq!(cols[0], "issue_no");
    assert!(cols.contains(&"title"));
    assert!(cols.contains(&"composer"));
    assert!(cols.contains(&"submitter"));
    assert_eq!(cols[cols.len() - 1], "source_path");
}

#[test]
fn csv_quotes_special_chars() {
    let q = csv_quote("Hello, World");
    assert_eq!(q, "\"Hello, World\"");
    let q = csv_quote("plain");
    assert_eq!(q, "plain");
    let q = csv_quote("with \"quote\"");
    assert_eq!(q, "\"with \"\"quote\"\"\"");
}

#[test]
fn csv_starts_with_bom() {
    let result = QueryResult {
        rows: vec![vec!["94".into(), "main".into()]],
        columns: vec!["issue_no".into(), "issue_kind".into()],
        row_count: 1,
        truncated: false,
    };
    let csv = rows_to_csv(&result);
    assert!(csv.starts_with('\u{FEFF}'));
    assert!(csv.contains("issue_no,issue_kind"));
    assert_eq!(csv, "\u{FEFF}issue_no,issue_kind\n94,main\n");
}

#[test]
fn pass_post_filter_substring() {
    let mut row = RowExtracted::default();
    row.payload.insert("submitter".into(), "山田 太郎".into());
    let f = MetadataFilters {
        submitter_contains: Some("山田".into()),
        ..Default::default()
    };
    assert!(pass_post_filters(&row, &f));
    let f2 = MetadataFilters {
        submitter_contains: Some("鈴木".into()),
        ..Default::default()
    };
    assert!(!pass_post_filters(&row, &f2));
}

#[test]
fn flatten_object_payload() {
    let v = Json::Object(vec![
        member("title", text("SONGA")),
        member("files", Json::Object(vec![member("doc", text("MUSIC/SONGA.DOC"))])),
    ]);
    let mut m = TextMap::new();
    flatten_owned_value("", &v, &mut m);
    assert_eq!(m.get("title").map(|s| s.as_str()), Some("SONGA"));
    assert_eq!(m.get("files.doc").map(|s| s.as_str()), Some("MUSIC/SONGA.DOC"));
}

#[test]
fn schema_builds_and_has_all_fields() {
    let s = ArchiveSchema::build();
    let names = s.names();
    for name in [
        "image_id",
        "partition",
        "file_path",
        "body",
        "body_excerpt",
        "category",
        "issue_no",
        "payload",
        "location_facet",
        "unique_id",
    ] {
        assert!(names.iter().any(|n| n == name), "{}", name);
    }
    assert!(ArchiveSchema::has_structured_fields(&names));
}

#[test]
fn text_extensions_recognized() {
    assert!(is_text_extension("DOC"));
    assert!(is_text_extension("ZMS"));
    assert!(is_text_extension("BAS"));
    assert!(!is_text_extension("X8"));
    assert!(!is_text_extension("PIC"));
}

fn read_summary(raw: &str) -> Option<ParsedSummary> {
    let v: serde_json::Value = serde_json::from_str(raw).ok()?;
    let strings = |name: &str| -> Vec<String> {
        v.get(name)
            .and_then(|x| x.as_array())
            .map(|a| a.iter().map(|x| x.as_str().unwrap().to_string()).collect())
            .unwrap_or_default()
    };
    Some(ParsedSummary {
        summary: v.get("summary")?.as_str()?.to_string(),
        categories: strings("categories"),
        topics: strings("topics"),
        highlights: Vec::new(),
    })
}

fn read_answer(raw: &str) -> Result<ParsedSummary, AnswerError> {
    let cleaned = clean_answer(raw);
    let direct = read_summary(&cleaned);
    let salvaged = salvage_json(&cleaned).and_then(|s| read_summary(&s));
    parse_summary_json(direct, salvaged)
}

#[test]
fn parse_clean_json() {
    let raw = r#"{"summary":"foo","categories":["bar"],"topics":["baz"],"highlights":[]}"#;
    let p = read_answer(raw).unwrap();
    assert_eq!(p.summary, "foo");
    assert_eq!(p.categories, vec!["bar"]);
}

#[test]
fn parse_with_markdown_fence() {
    let raw = "```json\n{\"summary\":\"hi\"}\n```";
    let p = read_answer(raw).unwrap();
    assert_eq!(p.summary, "hi");
}

#[test]
fn parse_empty_summary_errors() {
    let raw = r#"{"summary":""}"#;
    assert!(read_answer(raw).is_err());
    assert_eq!(read_answer(raw).unwrap_err(), AnswerError::EmptySummary);
}

#[test]
fn system_prompt_mentions_multi_disk() {
    let p = system_prompt("ja", 3);
    assert!(p.contains("3 枚組"), "should mention multi-disk note: {}", p);
    let p1 = system_prompt("ja", 1);
    assert!(!p1.contains("枚組"));
}

#[test]
fn nfkc_normalizes_fullwidth_alphanumeric() {
    assert_eq!(nfkc("ＳＡＭＰＬＥ"), "SAMPLE");
    assert_eq!(nfkc("Ｚ－ＭＵＳＩＣ"), "Z-MUSIC");
    assert_eq!(nfkc("Ｖｅｒ ２．０６"), "Ver 2.06");
}

#[test]
fn collapse_handles_fullwidth_space() {
    assert_eq!(collapse_spaces("SONGA\u{3000}\u{3000}SONGB"), "SONGA SONGB");
    assert_eq!(collapse_spaces("  abc   def  "), "abc def");
}

#[test]
fn sjis_doc_header_normalized() {
    let bytes = b"\x83\x50\x82\x4F\x82\x6E\x82\x5B\x82\x64\x81\x40\
                  \x82\x65\x82\x6E\x82\x5B\x82\x64";
    let _ = decode_sjis_nfkc(bytes);
}

fn sample() -> ImageSummary {
    ImageSummary {
        image_id: "abc123".to_string(),
        image_path: "/archive/disk.xdf".to_string(),
        format: "xdf".to_string(),
        size: 1_261_568,
        file_count: 100,
        summarized_at: "2026-04-27T00:00:00Z".to_string(),
        model: "series-sonnet-4-6".to_string(),
        lang: "ja".to_string(),
        summary: "サンプル要約".to_string(),
        categories: vec!["音楽".to_string()],
        topics: vec!["Z-MUSIC".to_string()],
        highlights: vec![HighlightEntry {
            path: "/MUSIC/SAMPLE.ZMS".to_string(),
            note: "曲データ".to_string(),
        }],
        usage: Some(UsageInfo { input_tokens: 5000, output_tokens: 800 }),
        members: vec![],
        origin: String::new(),
    }
}

fn image_of_group(id: &str, path: &str, size: u64, file_count: usize) -> MemberInfo {
    MemberInfo {
        image_id: id.to_string(),
        image_path: path.to_string(),
        format: "xdf".to_string(),
        size,
        file_count,
    }
}

#[test]
fn list_summarized_ids_finds_jsons() {
    let files = vec!["xyz789.json".to_string(), "notes.txt".to_string(), "abc123.json".to_string()];
    assert_eq!(list_summarized_ids(&files), vec!["abc123", "xyz789"]);
    assert_eq!(summaries_dir("/index"), "/index/summaries");
    assert_eq!(summary_path("/index/", "abc123"), "/index/summaries/abc123.json");
}

#[test]
fn find_by_image_id_solo() {
    let all = vec![sample()];
    assert_eq!(
        find_summary_by_image_id(&Some(sample()), &all, "abc123"),
        FoundSummary::Direct
    );
}

#[test]
fn find_by_image_id_via_members() {
    let mut s = sample();
    s.image_id = "groupABCDEF".to_string();
    s.members =
        vec![image_of_group("memberA", "/a.img", 100, 10), image_of_group("memberB", "/b.img", 200, 20)];
    let all = vec![sample(), s];
    assert_eq!(find_summary_by_image_id(&None, &all, "memberB"), FoundSummary::Scanned(1));
}

#[test]
fn find_by_image_id_missing() {
    let all = vec![sample()];
    assert_eq!(find_summary_by_image_id(&None, &all, "nope"), FoundSummary::Missing);
}

/// A stored summary; what an old one lacks is empty.
fn read_stored(json: &str) -> ImageSummary {
    let v: serde_json::Value = serde_json::from_str(json).unwrap();
    let word = |name: &str| v[name].as_str().unwrap().to_string();
    let words = |name: &str| -> Vec<String> {
        v.get(name)
            .and_then(|x| x.as_array())
            .map(|a| a.iter().map(|x| x.as_str().unwrap().to_string()).collect())
            .unwrap_or_default()
    };
    let list = |name: &str| -> Vec<serde_json::Value> {
        v.get(name).and_then(|x| x.as_array()).cloned().unwrap_or_default()
    };
    ImageSummary {
        image_id: word("image_id"),
        image_path: word("image_path"),
        format: word("format"),
        size: v["size"].as_u64().unwrap(),
        file_count: v["file_count"].as_u64().unwrap() as usize,
        summarized_at: word("summarized_at"),
        model: word("model"),
        lang: word("lang"),
        summary: word("summary"),
        categories: words("categories"),
        topics: words("topics"),
        highlights: list("highlights")
            .iter()
            .map(|h| HighlightEntry {
                path: h["path"].as_str().unwrap().to_string(),
                note: h["note"].as_str().unwrap().to_string(),
            })
            .collect(),
        usage: v.get("usage").filter(|u| !u.is_null()).map(|u| UsageInfo {
            input_tokens: u["input_tokens"].as_u64().unwrap(),
            output_tokens: u["output_tokens"].as_u64().unwrap(),
        }),
        members: list("members")
            .iter()
            .map(|m| MemberInfo {
                image_id: m["image_id"].as_str().unwrap().to_string(),
                image_path: m["image_path"].as_str().unwrap().to_string(),
                format: m["format"].as_str().unwrap().to_string(),
                size: m["size"].as_u64().unwrap(),
                file_count: m["file_count"].as_u64().unwrap() as usize,
            })
            .collect(),
        origin: v.get("origin").and_then(|x| x.as_str()).unwrap_or_default().to_string(),
    }
}

#[test]
fn legacy_solo_summary_loads() {
    let legacy_json = r#"{
            "image_id": "legacy1",
            "image_path": "/a.img",
            "format": "xdf",
            "size": 100,
            "file_count": 10,
            "summarized_at": "2026-04-27T00:00:00Z",
            "model": "series-sonnet-4-6",
            "lang": "ja",
            "summary": "old schema"
        }"#;
    let s = read_stored(legacy_json);
    assert_eq!(s.summary, "old schema");
    assert!(s.members.is_empty());
    assert!(s.origin.is_empty());
    let all = vec![read_stored(legacy_json)];
    assert_eq!(find_summary_by_image_id(&Some(s), &all, "legacy1"), FoundSummary::Direct);
}

#[test]
fn prices_follow_the_model() {
    assert_eq!(model_name("series", MODEL_OPUS), "series-opus-4-7");
    assert_eq!(price_per_million("series", "series-haiku-4-5-20251001"), (1, 5));
    assert_eq!(price_per_million("series", "series-sonnet-4-6"), (3, 15));
    assert_eq!(price_per_million("series", "series-opus-4-7"), (15, 75));
    assert_eq!(price_per_million("series", "foo"), (3, 15));
    assert_eq!(price_per_million("series", "foo-opus-4-7"), (3, 15));
    assert_eq!(price_per_million("series", MODEL_HAIKU), (3, 15));
}

#[test]
fn answers_are_put_together_from_texts() {
    let block = |kind: &str, words: Option<&str>| ContentBlock {
        block_type: kind.to_string(),
        text: words.map(|s| s.to_string()),
    };
    let blocks = vec![
        block("text", Some("one ")),
        block("thinking", Some("hm")),
        block("text", None),
        block("text", Some("two")),
    ];
    assert_eq!(join_text_blocks(&blocks).as_deref(), Some("one two"));
    assert_eq!(join_text_blocks(&vec![block("tool_use", Some("x"))]), None);
    let answer = completion(&blocks, 12, 34).unwrap();
    assert_eq!((answer.text.as_str(), answer.input_tokens, answer.output_tokens), ("one two", 12, 34));
    assert!(completion(&vec![block("text", None)], 12, 34).is_none());
}

#[test]
fn pricing_known_models() {
    let (i, o) = price_per_million("series", &model_name("series", MODEL_SONNET));
    assert_eq!(f64::from(i), 3.0);
    assert_eq!(f64::from(o), 15.0);
}

#[test]
fn pricing_unknown_falls_back_to_sonnet() {
    let (i, o) = price_per_million("series", "foo");
    assert_eq!(f64::from(i), 3.0);
    assert_eq!(f64::from(o), 15.0);
}

#[test]
fn cost_estimation() {
    let sonnet = model_name("series", MODEL_SONNET);
    let cost = cost_in_millionths("series", &sonnet, 1000, 500) as f64 / 1_000_000.0;
    assert!((cost - 0.0105).abs() < 1e-9);
    let opus = model_name("series", MODEL_OPUS);
    assert_eq!(cost_in_millionths("series", &opus, u64::MAX, 0), u64::MAX as u128 * 15);
}
