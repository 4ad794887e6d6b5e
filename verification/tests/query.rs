use crabase::base_file::{BaseFile, FilterNode, View};
use crabase::error::CrabaseError;
use crabase::expr::plan::{BinPOp, Plan, TerOp, UnOp};
use crabase::expr::{InferredType, TranslateCtx};
use crabase::filter::{combine_filters, filter_node_to_expr};
use crabase::query::build_query_plan;
use crabase::vault::VaultSchema;
use crabase::yaml::YamlValue;

fn ys(x: &str) -> YamlValue {
    YamlValue::String(x.to_string())
}

fn schema() -> VaultSchema {
    VaultSchema {
        columns: vec![
            ("file_path".to_string(), InferredType::String),
            ("file_name".to_string(), InferredType::String),
            ("session".to_string(), InferredType::Int),
            ("wc".to_string(), InferredType::Int),
            ("title".to_string(), InferredType::String),
        ],
        frontmatter_keys: vec![
            ("session".to_string(), "session".to_string()),
            ("wc".to_string(), "wc".to_string()),
            ("title".to_string(), "title".to_string()),
        ],
        has_rows: true,
    }
}

fn expr(s: &str) -> FilterNode {
    FilterNode::Expr(s.to_string())
}

#[test]
fn and_filter_folds_its_children() {
    let s = schema();
    let f = vec![];
    let ctx = TranslateCtx::new(&s, &f);
    let node = FilterNode::And(vec![expr("session == 1130"), expr("wc > 500")]);
    let p = filter_node_to_expr(&node, &ctx).expect("compile");
    match p {
        Plan::Bin(BinPOp::FillNull, inner, d) => {
            assert!(matches!(*d, Plan::Bool(false)));
            assert!(matches!(*inner, Plan::Bin(BinPOp::And, _, _)));
        }
        other => panic!("unexpected plan {other:?}"),
    }
}

#[test]
fn empty_groups_and_negation() {
    let s = schema();
    let f = vec![];
    let ctx = TranslateCtx::new(&s, &f);
    let p = filter_node_to_expr(&FilterNode::And(vec![]), &ctx).expect("compile");
    assert!(matches!(p, Plan::Bin(BinPOp::FillNull, ref a, _) if matches!(**a, Plan::Bool(true))));
    let p = filter_node_to_expr(&FilterNode::Or(vec![]), &ctx).expect("compile");
    assert!(matches!(p, Plan::Bin(BinPOp::FillNull, ref a, _) if matches!(**a, Plan::Bool(false))));
    let p = filter_node_to_expr(&FilterNode::Not(vec![expr("wc > 1")]), &ctx).expect("compile");
    assert!(matches!(p, Plan::Bin(BinPOp::FillNull, ref a, _) if matches!(**a, Plan::Un(UnOp::Not, _))));
    let p = combine_filters(None, None, &ctx).expect("combine");
    assert!(matches!(p, Plan::Bool(true)));
}

#[test]
fn filter_errors_surface() {
    let s = schema();
    let f = vec![];
    let ctx = TranslateCtx::new(&s, &f);
    let err = filter_node_to_expr(&FilterNode::Or(vec![expr("1 +")]), &ctx).map(|_| ()).unwrap_err();
    assert!(matches!(err, CrabaseError::ExprParse(_)));
}

fn base_with_view(v: Vec<(YamlValue, YamlValue)>) -> BaseFile {
    let root = YamlValue::Mapping(vec![
        (ys("formulas"), YamlValue::Mapping(vec![(ys("double"), ys("wc * 2"))])),
        (ys("views"), YamlValue::Sequence(vec![YamlValue::Mapping(v)])),
    ]);
    BaseFile::from_yaml(&root).expect("base")
}

#[test]
fn implicit_sort_uses_first_order_column() {
    let b = base_with_view(vec![
        (ys("type"), ys("table")),
        (ys("order"), YamlValue::Sequence(vec![ys("session"), ys("title")])),
    ]);
    let s = schema();
    let ctx = TranslateCtx::new(&s, &b.formulas);
    let view: &View = b.get_view(None).expect("view");
    let plan = build_query_plan(&b, view, &ctx).expect("plan");
    let (keys, desc) = plan.sort.expect("sort");
    assert_eq!(keys.len(), 3);
    assert!(matches!(keys[0], Plan::Col(ref c) if c == "session"));
    assert!(matches!(keys[1], Plan::Col(ref c) if c == "file_path_natkey"));
    assert!(matches!(keys[2], Plan::Col(ref c) if c == "file_name_natkey"));
    assert_eq!(desc, vec![false, false, false]);
    assert_eq!(plan.columns.len(), 2);
    assert!(matches!(plan.columns[0], Plan::Alias(_, ref n) if n == "session"));
    assert!(matches!(plan.filter, Plan::Bool(true)));
}

#[test]
fn string_sort_keys_use_the_natural_key() {
    let b = base_with_view(vec![
        (ys("type"), ys("table")),
        (ys("order"), YamlValue::Sequence(vec![ys("title"), ys("formula.double"), ys("file.name")])),
        (
            ys("sort"),
            YamlValue::Sequence(vec![YamlValue::Mapping(vec![(ys("property"), ys("title")), (ys("direction"), ys("DESC"))])]),
        ),
        (ys("limit"), YamlValue::Number(crabase::yaml::YamlNumber::PosInt(2))),
    ]);
    let s = schema();
    let ctx = TranslateCtx::new(&s, &b.formulas);
    let view = b.get_view(None).expect("view");
    let plan = build_query_plan(&b, view, &ctx).expect("plan");
    let (keys, desc) = plan.sort.expect("sort");
    assert!(matches!(keys[0], Plan::Un(UnOp::SortKey, _)));
    assert_eq!(desc, vec![true, false, false]);
    assert_eq!(plan.limit, Some(2));
    match &plan.columns[0] {
        Plan::Alias(p, n) => {
            assert_eq!(n, "title");
            assert!(matches!(**p, Plan::ConcatStr(_)));
        }
        other => panic!("unexpected column {other:?}"),
    }
    match &plan.columns[1] {
        Plan::Alias(p, _) => assert!(matches!(**p, Plan::Ter(TerOp::When, _, _, _))),
        other => panic!("unexpected column {other:?}"),
    }
    assert!(matches!(plan.columns[2], Plan::Alias(ref p, _) if matches!(**p, Plan::Col(ref c) if c == "file_name")));
}

#[test]
fn view_without_order_or_sort_is_unsorted() {
    let b = base_with_view(vec![(ys("type"), ys("table"))]);
    let s = schema();
    let ctx = TranslateCtx::new(&s, &b.formulas);
    let plan = build_query_plan(&b, b.get_view(None).expect("view"), &ctx).expect("plan");
    assert!(plan.sort.is_none());
    assert!(plan.columns.is_empty());
}
