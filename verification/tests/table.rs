use crabase::error::CrabaseError;
use crabase::expr::InferredType;
use crabase::table::{ColumnData, NoteFile, build_table, cross_lookup_rows, first_occurrence_rows, read_note};
use crabase::vault::CanvasLinks;
use crabase::yaml::{YamlNumber, YamlValue};

fn s(x: &str) -> String {
    x.to_string()
}

fn note_with(path: &str, stem: &str, fm: Vec<(String, YamlValue)>, body: &str) -> NoteFile {
    read_note(s(path), s(stem), s("md"), s(""), 10, None, None, fm, body)
}

#[test]
fn notes_collect_tags_and_links() {
    let fm = vec![
        (s("comment"), YamlValue::String(s("see [[Inline]]"))),
        (s("tags"), YamlValue::Sequence(vec![YamlValue::String(s("a")), YamlValue::String(s("#b"))])),
        (s("up"), YamlValue::String(s("[[Parent]]"))),
    ];
    let n = note_with("N.md", "N", fm, "text #a #c [[Body]]");
    assert_eq!(n.tags, vec![s("a"), s("b"), s("c")]);
    assert_eq!(n.links, vec![s("Parent"), s("Body")]);
    assert_eq!(n.note.links, vec![s("Parent"), s("Body"), s("Inline")]);
}

#[test]
fn table_has_typed_frontmatter_columns() {
    let a = note_with("A.md", "A", vec![(s("n"), YamlValue::Number(YamlNumber::PosInt(3))), (s("when"), YamlValue::String(s("2024-01-02")))], "[[B]]");
    let b = note_with("B.md", "B", vec![(s("n"), YamlValue::Null)], "");
    let (t, schema) = build_table(vec![a, b], &vec![CanvasLinks { rel_path: s("c.canvas"), links: vec![s("B")] }]).expect("table");
    assert_eq!(t.file_path, vec![s("A.md"), s("B.md")]);
    assert_eq!(t.file_backlinks[1], vec![s("A.md"), s("c.canvas")]);
    assert_eq!(t.frontmatter.len(), 2);
    assert_eq!(t.frontmatter[0].key, "n");
    assert!(matches!(&t.frontmatter[0].data, ColumnData::Int64(v) if v == &vec![Some(3), None]));
    assert_eq!(t.frontmatter[1].key, "when");
    assert!(matches!(&t.frontmatter[1].data, ColumnData::Date(v) if v == &vec![Some(19724), None]));
    assert_eq!(schema.columns.len(), 14);
    assert_eq!(schema.columns[12], (s("n"), InferredType::Int));
    assert!(schema.has_rows);
    assert_eq!(t.file_name_natkey[0], "a");
}

#[test]
fn clashing_keys_are_refused() {
    let a = note_with("A.md", "A", vec![(s("file_path"), YamlValue::Null), (s("note_file_path"), YamlValue::Null)], "");
    let err = build_table(vec![a], &vec![]).map(|_| ()).unwrap_err();
    assert!(matches!(err, CrabaseError::Query(_)));
}

#[test]
fn lookups_keep_the_first_of_each_stem() {
    let names = vec![s("x"), s("y"), s("x"), s("z"), s("y")];
    assert_eq!(first_occurrence_rows(&names), vec![0, 1, 3]);
}

#[test]
fn lookups_read_first_notes_and_nothing_in_an_empty_vault() {
    assert_eq!(cross_lookup_rows(&Vec::new()), None);
    let names: Vec<String> = ["a", "b", "a", "c"].iter().map(|s| s.to_string()).collect();
    assert_eq!(cross_lookup_rows(&names), Some(vec![0, 1, 3]));
}
