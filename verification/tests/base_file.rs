use crabase::base_file::{BaseFile, FilterNode, SortDirection, View};
use crabase::error::CrabaseError;
use crabase::yaml::{YamlNumber, YamlValue};

fn ys(x: &str) -> YamlValue {
    YamlValue::String(x.to_string())
}

fn map(entries: Vec<(&str, YamlValue)>) -> YamlValue {
    YamlValue::Mapping(entries.into_iter().map(|(k, v)| (ys(k), v)).collect())
}

fn view(name: &str) -> YamlValue {
    map(vec![
        ("type", ys("table")),
        ("name", ys(name)),
        ("order", YamlValue::Sequence(vec![ys("file.name"), ys("formula.x")])),
        ("limit", YamlValue::Number(YamlNumber::PosInt(5))),
        (
            "sort",
            YamlValue::Sequence(vec![map(vec![("property", ys("file.name")), ("direction", ys("DESC"))])]),
        ),
    ])
}

fn base() -> YamlValue {
    map(vec![
        ("filters", map(vec![("and", YamlValue::Sequence(vec![ys("a > 1"), map(vec![("not", YamlValue::Sequence(vec![ys("b")]))])]))])),
        ("formulas", map(vec![("x", ys("1 + 2"))])),
        ("properties", map(vec![("formula.x", map(vec![("displayName", ys("Sum"))]))])),
        ("views", YamlValue::Sequence(vec![view("First"), view("Second")])),
    ])
}

#[test]
fn base_file_is_decoded() {
    let b = BaseFile::from_yaml(&base()).expect("decode");
    assert_eq!(b.formulas, vec![("x".to_string(), "1 + 2".to_string())]);
    assert_eq!(b.properties.len(), 1);
    assert_eq!(b.properties[0].1.display_name, Some("Sum".to_string()));
    assert_eq!(b.views.len(), 2);
    match &b.filters {
        Some(FilterNode::And(children)) => {
            assert_eq!(children.len(), 2);
            assert!(matches!(&children[0], FilterNode::Expr(e) if e == "a > 1"));
            assert!(matches!(&children[1], FilterNode::Not(_)));
        }
        other => panic!("unexpected filters {other:?}"),
    }
}

#[test]
fn view_fields_are_decoded() {
    let v = View::from_yaml(&view("V")).expect("decode");
    assert_eq!(v.view_type, "table");
    assert_eq!(v.name, Some("V".to_string()));
    assert_eq!(v.limit, Some(5));
    assert_eq!(v.order, Some(vec!["file.name".to_string(), "formula.x".to_string()]));
    let sort = v.sort.expect("sort");
    assert_eq!(sort[0].property, "file.name");
    assert_eq!(sort[0].direction, SortDirection::Desc);
}

#[test]
fn views_are_found_by_name() {
    let b = BaseFile::from_yaml(&base()).expect("decode");
    assert_eq!(b.get_view(None).expect("first").name, Some("First".to_string()));
    assert_eq!(b.get_view(Some("Second")).expect("second").name, Some("Second".to_string()));
    let err = b.get_view(Some("Third")).map(|_| ()).unwrap_err();
    assert!(matches!(err, CrabaseError::ViewNotFound(n) if n == "Third"));
}

#[test]
fn no_views_is_an_error() {
    let b = BaseFile::from_yaml(&map(vec![])).expect("decode");
    let err = b.get_view(None).map(|_| ()).unwrap_err();
    assert!(matches!(err, CrabaseError::NoViews));
}

#[test]
fn non_mapping_root_is_refused() {
    let err = BaseFile::from_yaml(&ys("nope")).map(|_| ()).unwrap_err();
    assert!(matches!(err, CrabaseError::BaseFile(_)));
}

#[test]
fn filter_leaf_is_an_expression() {
    let f = FilterNode::from_yaml(&ys("x == 1")).expect("decode");
    assert!(matches!(f, FilterNode::Expr(e) if e == "x == 1"));
    assert!(FilterNode::from_yaml(&YamlValue::Bool(true)).is_err());
}

#[test]
fn views_are_listed_by_name_or_as_unnamed() {
    let b = BaseFile::from_yaml(&map(vec![(
        "views",
        YamlValue::Sequence(vec![view("First"), map(vec![("type", ys("table"))])]),
    )]))
    .expect("decode");
    assert_eq!(b.view_labels(), vec!["First".to_string(), "(unnamed)".to_string()]);
}
