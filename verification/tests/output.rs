use crabase::base_file::BaseFile;
use crabase::error::CrabaseError;
use crabase::output::{Cell, JsonValue, TimeUnitKind, csv_field, header_for, list_cell, micros_split, toon_value, write_csv};
use crabase::yaml::YamlValue;

fn ys(x: &str) -> YamlValue {
    YamlValue::String(x.to_string())
}

fn base(props: Vec<(&str, &str)>) -> BaseFile {
    let props = YamlValue::Mapping(
        props
            .into_iter()
            .map(|(k, d)| (ys(k), YamlValue::Mapping(vec![(ys("displayName"), ys(d))])))
            .collect(),
    );
    let root = YamlValue::Mapping(vec![
        (ys("properties"), props),
        (ys("views"), YamlValue::Sequence(vec![YamlValue::Mapping(vec![(ys("type"), ys("table"))])])),
    ]);
    BaseFile::from_yaml(&root).expect("base")
}

#[test]
fn test_csv_datetime_cell_uses_iso_t_separator() {
    let b = base(vec![]);
    let micros: i64 = chrono::NaiveDate::from_ymd_opt(2025, 4, 27)
        .and_then(|d| d.and_hms_opt(15, 30, 0))
        .map(|dt| dt.and_utc().timestamp_micros())
        .expect("timestamp");
    let rows = vec![vec![Cell::Datetime(micros, TimeUnitKind::Microseconds)]];
    let csv = write_csv(&vec!["when".to_string()], &rows, &b).expect("csv");
    assert_eq!(csv, "when\n2025-04-27T15:30:00\n");
}

#[test]
fn headers_use_display_names_and_friendly_aliases() {
    let b = base(vec![("note.x", "Custom")]);
    assert_eq!(header_for("note.x", &b), "Custom");
    assert_eq!(header_for("formula.total", &b), "total");
    assert_eq!(header_for("file.mtime", &b), "modified time");
    assert_eq!(header_for("file.ext", &b), "file extension");
    assert_eq!(header_for("a.b", &b), "a b");
}

#[test]
fn fields_with_separators_are_quoted() {
    assert_eq!(csv_field("plain"), "plain");
    assert_eq!(csv_field("a,b"), "\"a,b\"");
    assert_eq!(csv_field("say \"hi\""), "\"say \"\"hi\"\"\"");
    assert_eq!(csv_field("line\nbreak"), "\"line\nbreak\"");
}

#[test]
fn tag_lists_get_hashes() {
    let v = vec!["a".to_string(), "#b".to_string(), String::new(), "c".to_string()];
    assert_eq!(list_cell(&v, true), "#a, #b, , #c");
    assert_eq!(list_cell(&v, false), "a, #b, , c");
}

#[test]
fn csv_rows_render_each_kind() {
    let b = base(vec![]);
    let cols = vec!["file.tags".to_string(), "n".to_string(), "d".to_string(), "t".to_string(), "x".to_string()];
    let rows = vec![
        vec![
            Cell::List(vec![Cell::Str("a".to_string()), Cell::Str("b".to_string())]),
            Cell::Int(-3),
            Cell::Date(0),
            Cell::Str("x,y".to_string()),
            Cell::Null,
        ],
        vec![Cell::Null, Cell::Bool(true), Cell::Date(19000), Cell::Float("2.5".to_string())],
    ];
    let csv = write_csv(&cols, &rows, &b).expect("csv");
    assert_eq!(csv, "tags,n,d,t,x\n\"#a, #b\",-3,1970-01-01,\"x,y\",\n,true,2022-01-08,2.5,\n");
}

#[test]
fn no_columns_gives_only_the_header_line() {
    let b = base(vec![]);
    let csv = write_csv(&vec![], &vec![vec![Cell::Int(1)]], &b).expect("csv");
    assert_eq!(csv, "\n");
}

#[test]
fn date_out_of_range_aborts() {
    let b = base(vec![]);
    let err = write_csv(&vec!["d".to_string()], &vec![vec![Cell::Date(i32::MAX)]], &b).unwrap_err();
    assert!(matches!(err, CrabaseError::Abort(_)));
}

#[test]
fn timestamps_split_like_rust_division() {
    assert_eq!(micros_split(1_500_000, TimeUnitKind::Microseconds), (1, 500_000_000));
    assert_eq!(micros_split(2_000, TimeUnitKind::Milliseconds), (2, 0));
}

#[test]
fn toon_rows_are_objects_keyed_by_header() {
    let b = base(vec![("formula.x", "X")]);
    let cols = vec!["formula.x".to_string(), "file.tags".to_string(), "f".to_string(), "g".to_string()];
    let rows = vec![vec![
        Cell::Float("3".to_string()),
        Cell::List(vec![Cell::Str("t".to_string())]),
        Cell::Float("2.5".to_string()),
        Cell::Float(String::new()),
    ]];
    match toon_value(&cols, &rows, &b).expect("toon") {
        JsonValue::Array(items) => {
            assert_eq!(items.len(), 1);
            match &items[0] {
                JsonValue::Object(entries) => {
                    assert_eq!(entries[0].0, "X");
                    assert!(matches!(entries[0].1, JsonValue::Int(3)));
                    assert_eq!(entries[1].0, "tags");
                    assert!(matches!(&entries[1].1, JsonValue::Str(s) if s == "#t"));
                    assert!(matches!(&entries[2].1, JsonValue::Float(s) if s == "2.5"));
                    assert!(matches!(entries[3].1, JsonValue::Null));
                }
                other => panic!("unexpected row {other:?}"),
            }
        }
        other => panic!("unexpected value {other:?}"),
    }
}
