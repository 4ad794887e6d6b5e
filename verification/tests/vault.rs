use crabase::vault::{
    CanvasLinks, ColumnKind, FrontmatterSplit, LinkedNote, compute_backlinks, extract_canvas_file_refs,
    extract_frontmatter_link_values, extract_frontmatter_tags, extract_inline_frontmatter_wikilinks,
    extract_inline_tags, extract_inline_tags_from_line, extract_wikilinks, file_meta_columns, infer_dtype, is_reserved, natural_sort_key,
    obsidian_sort_key, parse_i64, plan_frontmatter_columns, resolve_closest, split_frontmatter,
    strip_code_regions, strip_wikilink, value_as_i64, yaml_value_to_string_cell,
};
use crabase::error::CrabaseError;
use crabase::yaml::{YamlNumber, YamlValue};

fn s(x: &str) -> String {
    x.to_string()
}

fn ystr(x: &str) -> YamlValue {
    YamlValue::String(x.to_string())
}

#[test]
fn test_obsidian_sort_key_numeric_runs_sort_numerically() {
    let mut items = vec![s("Exodus 19"), s("Exodus 9"), s("Exodus 11")];
    items.sort_by_key(|x| obsidian_sort_key(x));
    assert_eq!(items.join("\n"), "Exodus 9\nExodus 11\nExodus 19");
}

#[test]
fn test_obsidian_sort_key_collapses_punctuation() {
    let mut items = vec![s("D. E. Shaw"), s("d'Vijff Vlieghen"), s("Daffy Duck")];
    items.sort_by_key(|x| obsidian_sort_key(x));
    assert_eq!(items.join("\n"), "D. E. Shaw\nd'Vijff Vlieghen\nDaffy Duck");
}

#[test]
fn test_natural_sort_key_preserves_punctuation() {
    let mut items = vec![s("Study.md"), s("Study Notes.md")];
    items.sort_by_key(|x| natural_sort_key(x));
    assert_eq!(items.join("\n"), "Study Notes.md\nStudy.md");
}

#[test]
fn natural_sort_key_pads_digit_runs() {
    assert_eq!(natural_sort_key("A10b"), "a0000000000000010b");
    assert_eq!(natural_sort_key("007"), "0000000000000007");
    assert_eq!(obsidian_sort_key("a-b/c"), "a b/c");
}

#[test]
fn code_regions_are_blanked_keeping_length() {
    let text = "a `[[x]]` b\n```\n[[y]]\n```\n[[z]]";
    let out = strip_code_regions(text);
    assert_eq!(out.len(), text.len());
    assert!(!out.contains("[[x]]"));
    assert!(!out.contains("[[y]]"));
    assert!(out.contains("[[z]]"));
}

#[test]
fn wikilinks_drop_aliases_and_anchors_and_skip_code() {
    let links = extract_wikilinks("See [[Alpha|the A]] and [[Beta#Part]], `[[Gamma]]` and [[Delta]].");
    assert_eq!(links, vec![s("Alpha"), s("Beta"), s("Delta")]);
}

#[test]
fn inline_tags_are_found_per_line() {
    assert_eq!(extract_inline_tags_from_line("work #project/a and #b, not a#c"), vec![s("project/a"), s("b")]);
    assert_eq!(extract_inline_tags("#one\ntext #two"), vec![s("one"), s("two")]);
}

#[test]
fn frontmatter_tags_lose_their_hashes() {
    let fm = vec![(s("tags"), YamlValue::Sequence(vec![ystr("#a"), ystr("b")]))];
    assert_eq!(extract_frontmatter_tags(&fm), vec![s("a"), s("b")]);
    let fm = vec![(s("tags"), ystr("solo"))];
    assert_eq!(extract_frontmatter_tags(&fm), vec![s("solo")]);
}

#[test]
fn frontmatter_links_only_when_whole_value_is_a_link() {
    let fm = vec![
        (s("up"), ystr("[[Parent]]")),
        (s("comment"), ystr("mentions [[Other]] inline")),
        (s("related"), YamlValue::Sequence(vec![ystr("[[A|x]]"), ystr("plain")])),
    ];
    assert_eq!(extract_frontmatter_link_values(&fm), vec![s("Parent"), s("A")]);
    assert_eq!(extract_inline_frontmatter_wikilinks(&fm), vec![s("Other")]);
}

#[test]
fn frontmatter_block_is_split_off() {
    match split_frontmatter("---\na: 1\n---\nbody\n") {
        FrontmatterSplit::Found { yaml, body } => {
            assert_eq!(yaml, "a: 1\n");
            assert_eq!(body, "body\n");
        }
        other => panic!("unexpected split {other:?}"),
    }
    assert!(matches!(split_frontmatter("no block"), FrontmatterSplit::Absent));
    assert!(matches!(split_frontmatter("---\nunclosed"), FrontmatterSplit::Absent));
}

#[test]
fn canvas_file_entries_are_read() {
    let content = "{\n\"nodes\":[\n{\"type\":\"file\",\"file\": \"Notes/A.md\"},\n{\"file\":\"\"}\n]}";
    assert_eq!(extract_canvas_file_refs(content), vec![s("Notes/A.md")]);
}

fn note(path: &str, stem: &str, folder: &str, links: &[&str]) -> LinkedNote {
    LinkedNote {
        rel_path: s(path),
        stem: s(stem),
        folder: s(folder),
        links: links.iter().map(|l| s(l)).collect(),
    }
}

#[test]
fn backlinks_resolve_paths_stems_and_canvases() {
    let files = vec![
        note("A.md", "A", "", &["B", "Sub/C.md"]),
        note("B.md", "B", "", &["A"]),
        note("Sub/C.md", "C", "Sub", &["B"]),
    ];
    let canvases = vec![CanvasLinks { rel_path: s("board.canvas"), links: vec![s("A.md")] }];
    let b = compute_backlinks(&files, &canvases);
    assert_eq!(b[0], vec![s("B.md"), s("board.canvas")]);
    assert_eq!(b[1], vec![s("A.md"), s("Sub/C.md")]);
    assert_eq!(b[2], vec![s("A.md")]);
}

#[test]
fn closest_candidate_wins() {
    let candidates = vec![s("X/Note.md"), s("Y/Z/Note.md")];
    assert_eq!(resolve_closest(&candidates, "Y/Z"), 1);
    assert_eq!(resolve_closest(&candidates, "Q"), 0);
}

#[test]
fn column_types_follow_the_values() {
    let ints = vec![YamlValue::Number(YamlNumber::PosInt(1)), YamlValue::Null];
    assert_eq!(infer_dtype(&ints.iter().collect()), ColumnKind::Int64);
    let mixed = vec![YamlValue::Number(YamlNumber::PosInt(1)), YamlValue::Number(YamlNumber::Float(s("1.5")))];
    assert_eq!(infer_dtype(&mixed.iter().collect()), ColumnKind::Float64);
    let dates = vec![ystr("2024-01-02"), ystr("2024-01-02 10:00:00")];
    assert_eq!(infer_dtype(&dates.iter().collect()), ColumnKind::Datetime);
    let other = vec![ystr("x"), YamlValue::Bool(true)];
    assert_eq!(infer_dtype(&other.iter().collect()), ColumnKind::String);
}

#[test]
fn integers_parse_like_std() {
    assert_eq!(parse_i64("-42"), Some(-42));
    assert_eq!(parse_i64("+7"), Some(7));
    assert_eq!(parse_i64("9223372036854775808"), None);
    assert_eq!(parse_i64(""), None);
    assert_eq!(value_as_i64(&YamlValue::Bool(true)), Some(1));
}

#[test]
fn cells_render_values() {
    assert_eq!(yaml_value_to_string_cell(&YamlValue::Sequence(vec![YamlValue::Null, ystr("a")])), "null, a");
    assert_eq!(yaml_value_to_string_cell(&YamlValue::Number(YamlNumber::NegInt(-3))), "-3");
    assert_eq!(strip_wikilink("  [[Note]] "), "Note");
}

#[test]
fn reserved_keys_get_a_prefix_and_clashes_fail() {
    let cols = plan_frontmatter_columns(&vec![s("file_path"), s("title")]).expect("plan");
    assert_eq!(cols, vec![s("note_file_path"), s("title")]);
    let err = plan_frontmatter_columns(&vec![s("file_path"), s("note_file_path")]).unwrap_err();
    assert!(matches!(err, CrabaseError::Query(_)));
}

#[test]
fn metadata_columns_come_in_order_and_are_reserved() {
    let cols = file_meta_columns();
    assert_eq!(cols.len(), 12);
    assert_eq!(cols[0], "file_path");
    assert_eq!(cols[9], "file_backlinks");
    assert_eq!(cols[11], "file_name_natkey");
    assert!(cols.iter().all(|c| is_reserved(c)));
    assert!(!is_reserved("title"));
}
