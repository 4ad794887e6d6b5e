use crabase::error::CrabaseError;
use crabase::expr::ast::BinOp;
use crabase::expr::plan::{BinPOp, DType, Plan, TerOp, UnOp};
use crabase::expr::translate::{moment_duration_to_polars, moment_to_chrono, titlecase_str};
use crabase::expr::{InferredType, TranslateCtx, Translated, parse, translate, truthy};
use crabase::vault::VaultSchema;

fn schema(cols: &[(&str, InferredType)]) -> VaultSchema {
    VaultSchema {
        columns: cols.iter().map(|(n, t)| (n.to_string(), *t)).collect(),
        frontmatter_keys: cols.iter().filter(|(n, _)| !n.starts_with("file_")).map(|(n, _)| (n.to_string(), n.to_string())).collect(),
        has_rows: true,
    }
}

fn tr(expr: &str, s: &VaultSchema, formulas: &[(&str, &str)]) -> Result<Translated, CrabaseError> {
    let formulas: Vec<(String, String)> = formulas.iter().map(|(a, b)| (a.to_string(), b.to_string())).collect();
    let ctx = TranslateCtx::new(s, &formulas);
    let ast = parse(expr).expect("parse");
    translate(&ast, &ctx)
}

#[test]
fn test_formula_cycle_detection() {
    let s = schema(&[]);
    let err = tr("formula.a", &s, &[("a", "formula.b"), ("b", "formula.a")]).map(|_| ()).unwrap_err();
    match err {
        CrabaseError::ExprEval(msg) => assert_eq!(msg, "Formula cycle detected: a -> b -> a"),
        other => panic!("unexpected error {other:?}"),
    }
}

#[test]
fn formula_bracket_access_translates_the_formula_body() {
    let s = schema(&[]);
    let t = tr("formula[\"double\"]", &s, &[("double", "6 * 7")]).expect("translate");
    assert_eq!(t.ty, InferredType::Int);
    match t.expr {
        Plan::Bin(BinPOp::Mul, a, b) => {
            assert!(matches!(*a, Plan::Int(6)));
            assert!(matches!(*b, Plan::Int(7)));
        }
        other => panic!("unexpected plan {other:?}"),
    }
}

#[test]
fn comparison_of_a_column_and_a_number() {
    let s = schema(&[("session", InferredType::Int)]);
    let t = tr("session == 1130", &s, &[]).expect("translate");
    assert_eq!(t.ty, InferredType::Bool);
    match t.expr {
        Plan::Bin(BinPOp::FillNull, eq, d) => {
            assert!(matches!(*d, Plan::Bool(false)));
            match *eq {
                Plan::Bin(BinPOp::Eq, a, b) => {
                    assert!(matches!(*a, Plan::Col(ref c) if c == "session"));
                    assert!(matches!(*b, Plan::Int(1130)));
                }
                other => panic!("unexpected plan {other:?}"),
            }
        }
        other => panic!("unexpected plan {other:?}"),
    }
}

#[test]
fn fractional_literal_is_a_float_by_its_text() {
    let s = schema(&[]);
    let t = tr("2.50", &s, &[]).expect("translate");
    assert_eq!(t.ty, InferredType::Float);
    assert!(matches!(t.expr, Plan::Float(ref x) if x == "2.50"));
    let t = tr("3.00", &s, &[]).expect("translate");
    assert_eq!(t.ty, InferredType::Int);
    assert!(matches!(t.expr, Plan::Int(3)));
    let t = tr("99999999999999999999", &s, &[]).expect("translate");
    assert_eq!(t.ty, InferredType::Float);
}

#[test]
fn replace_with_regex_literal_uses_regex_mode() {
    let s = schema(&[]);
    let t = tr("\"abc123def\".replace(/\\d+/, \"X\")", &s, &[]).expect("translate");
    assert!(matches!(t.expr, Plan::Ter(TerOp::StrReplaceRegex, _, _, _)));
}

#[test]
fn replace_with_string_pattern_is_literal() {
    let s = schema(&[]);
    let t = tr("\"a.b.c\".replace(\".\", \"-\")", &s, &[]).expect("translate");
    assert!(matches!(t.expr, Plan::Ter(TerOp::StrReplaceLiteral, _, _, _)));
}

#[test]
fn division_is_always_float() {
    let s = schema(&[("a", InferredType::Int), ("b", InferredType::Int)]);
    let t = tr("a / b", &s, &[]).expect("translate");
    assert_eq!(t.ty, InferredType::Float);
    match t.expr {
        Plan::Bin(BinPOp::Div, l, r) => {
            assert!(matches!(*l, Plan::Cast(DType::Float64, _)));
            assert!(matches!(*r, Plan::Cast(DType::Float64, _)));
        }
        other => panic!("unexpected plan {other:?}"),
    }
}

#[test]
fn contains_folds_case_on_both_sides() {
    let s = schema(&[("title", InferredType::String)]);
    let t = tr("title.contains(\"Foo\")", &s, &[]).expect("translate");
    match t.expr {
        Plan::Bin(BinPOp::StrContains, l, r) => {
            assert!(matches!(*l, Plan::Un(UnOp::StrToLower, _)));
            assert!(matches!(*r, Plan::Un(UnOp::StrToLower, _)));
        }
        other => panic!("unexpected plan {other:?}"),
    }
}

#[test]
fn bare_file_is_the_path_column() {
    let s = schema(&[("file_path", InferredType::String)]);
    let t = tr("file", &s, &[]).expect("translate");
    assert_eq!(t.ty, InferredType::String);
    assert!(matches!(t.expr, Plan::Col(ref c) if c == "file_path"));
}

#[test]
fn file_basename_is_the_name_column() {
    let s = schema(&[("file_name", InferredType::String)]);
    let t = tr("file.basename", &s, &[]).expect("translate");
    assert!(matches!(t.expr, Plan::Col(ref c) if c == "file_name"));
}

#[test]
fn unknown_identifier_is_null() {
    let s = schema(&[]);
    let t = tr("nothing_here", &s, &[]).expect("translate");
    assert_eq!(t.ty, InferredType::Null);
    assert!(matches!(t.expr, Plan::Null));
}

#[test]
fn today_is_a_date() {
    let s = schema(&[]);
    let t = tr("today()", &s, &[]).expect("translate");
    assert_eq!(t.ty, InferredType::Date);
    assert!(matches!(t.expr, Plan::DateLit(_)));
}

#[test]
fn today_and_now_come_from_the_context() {
    let s = schema(&[]);
    let formulas: Vec<(String, String)> = Vec::new();
    let ctx = TranslateCtx::at_time(&s, &formulas, 20099, 1736589600000000);
    let t = translate(&parse("today()").expect("parse"), &ctx).expect("translate");
    assert_eq!(t.ty, InferredType::Date);
    assert!(matches!(t.expr, Plan::DateLit(20099)));
    let t = translate(&parse("now()").expect("parse"), &ctx).expect("translate");
    assert_eq!(t.ty, InferredType::Datetime);
    assert!(matches!(t.expr, Plan::DatetimeLit(1736589600000000)));
}

#[test]
fn date_literal_is_read_with_chrono() {
    let s = schema(&[]);
    let t = tr("date(\"2025-01-11\")", &s, &[]).expect("translate");
    assert_eq!(t.ty, InferredType::Date);
    assert!(matches!(t.expr, Plan::DateLit(20099)));
    let t = tr("date(\"2025-01-11T10:00:00\")", &s, &[]).expect("translate");
    assert_eq!(t.ty, InferredType::Datetime);
    assert!(matches!(t.expr, Plan::DatetimeLit(1736589600000000)));
    let err = tr("date(\"not a date\")", &s, &[]).map(|_| ()).unwrap_err();
    assert!(matches!(err, CrabaseError::ExprEval(m) if m == "Cannot parse date: \"not a date\""));
}

#[test]
fn date_plus_duration_shifts_it() {
    let s = schema(&[("due", InferredType::Date)]);
    let t = tr("due + \"1d\"", &s, &[]).expect("translate");
    assert_eq!(t.ty, InferredType::Date);
    match t.expr {
        Plan::Bin(BinPOp::DtOffsetBy, _, d) => assert!(matches!(*d, Plan::Str(ref x) if x == "1d")),
        other => panic!("unexpected plan {other:?}"),
    }
    let t = tr("due - \"2 weeks\"", &s, &[]).expect("translate");
    assert!(matches!(t.expr, Plan::Bin(BinPOp::Sub, _, _)) || matches!(t.expr, Plan::Bin(BinPOp::DtOffsetBy, _, _)));
    let t = tr("due - \"2w\"", &s, &[]).expect("translate");
    match t.expr {
        Plan::Bin(BinPOp::DtOffsetBy, _, d) => assert!(matches!(*d, Plan::Str(ref x) if x == "-2w")),
        other => panic!("unexpected plan {other:?}"),
    }
}

#[test]
fn missing_if_arguments_abort() {
    let s = schema(&[]);
    let err = tr("if(true)", &s, &[]).map(|_| ()).unwrap_err();
    assert!(matches!(err, CrabaseError::Abort(_)));
}

#[test]
fn empty_list_call_is_an_error() {
    let s = schema(&[]);
    let err = tr("list()", &s, &[]).map(|_| ()).unwrap_err();
    assert!(matches!(err, CrabaseError::ExprEval(_)));
}

#[test]
fn formula_body_parse_error_is_reported() {
    let s = schema(&[]);
    let err = tr("formula.bad", &s, &[("bad", "1 +")]).map(|_| ()).unwrap_err();
    assert!(matches!(err, CrabaseError::ExprParse(_)));
}

#[test]
fn later_formula_entry_wins() {
    let s = schema(&[]);
    let t = tr("formula.x", &s, &[("x", "1"), ("x", "\"s\"")]).expect("translate");
    assert_eq!(t.ty, InferredType::String);
}

#[test]
fn if_with_numeric_branches_stays_numeric() {
    let s = schema(&[("a", InferredType::Int), ("b", InferredType::Float)]);
    let t = tr("if(a > 1, a, b)", &s, &[]).expect("translate");
    assert_eq!(t.ty, InferredType::Float);
}

#[test]
fn cross_file_lookup_reads_the_target_column() {
    let s = schema(&[("file_name", InferredType::String), ("author", InferredType::String), ("ref", InferredType::String)]);
    let t = tr("ref.asFile().properties.author", &s, &[]).expect("translate");
    assert_eq!(t.ty, InferredType::String);
    assert!(matches!(t.expr, Plan::CrossFile(_, ref c) if c == "author"));
}

#[test]
fn truthy_of_a_string_tests_its_length() {
    let t = Translated::new(Plan::Col("s".to_string()), InferredType::String);
    match truthy(t) {
        Plan::Bin(BinPOp::FillNull, inner, d) => {
            assert!(matches!(*inner, Plan::Bin(BinPOp::Gt, _, _)));
            assert!(matches!(*d, Plan::Bool(false)));
        }
        other => panic!("unexpected plan {other:?}"),
    }
    let t = Translated::new(Plan::Null, InferredType::Null);
    assert!(matches!(truthy(t), Plan::Bool(false)));
}

#[test]
fn binary_operator_kinds_are_kept() {
    let ast = parse("a >= b").expect("parse");
    assert!(matches!(ast.kind, crabase::expr::ast::ExprKind::Binary { op: BinOp::Ge, .. }));
}

#[test]
fn moment_formats_become_strftime() {
    assert_eq!(moment_to_chrono("YYYY-MM-DD"), "%Y-%m-%d");
    assert_eq!(moment_to_chrono("HH:mm:ss"), "%H:%M:%S");
}

#[test]
fn durations_become_engine_durations() {
    assert_eq!(moment_duration_to_polars("1d"), Some("1d".to_string()));
    assert_eq!(moment_duration_to_polars("3M"), Some("3mo".to_string()));
    assert_eq!(moment_duration_to_polars("2weeks"), Some("2w".to_string()));
    assert_eq!(moment_duration_to_polars("d"), None);
    assert_eq!(moment_duration_to_polars("5 parsecs"), None);
}

#[test]
fn title_case_capitalises_words() {
    assert_eq!(titlecase_str("hello world"), "Hello World");
    assert_eq!(titlecase_str("the 2nd act"), "The 2Nd Act");
}

#[test]
fn expression_errors_carry_their_messages() {
    let s = schema(&[("tags", InferredType::List)]);
    let err = tr("list()", &s, &[]).map(|_| ()).unwrap_err();
    assert!(matches!(err, CrabaseError::ExprEval(m) if m == "`concat_list` needs one or more expressions"));
    let err = tr("tags.map()", &s, &[]).map(|_| ()).unwrap_err();
    assert!(matches!(err, CrabaseError::ExprEval(m) if m == ".map() requires a callback argument"));
    let err = tr("file.inFolder()", &s, &[]).map(|_| ()).unwrap_err();
    assert!(matches!(err, CrabaseError::ExprEval(m) if m == "missing string literal argument at position 0"));
    let err = tr("file.hasTag(tags)", &s, &[]).map(|_| ()).unwrap_err();
    assert!(matches!(err, CrabaseError::ExprEval(m) if m == "expected a string literal argument"));
    let err = tr("(1)(2)", &s, &[]).map(|_| ()).unwrap_err();
    assert!(matches!(err, CrabaseError::ExprEval(m) if m == "Expression is not callable: literal"));
}

#[test]
fn starts_with_and_ends_with_fold_case() {
    let s = schema(&[("title", InferredType::String)]);
    for (expr, op) in [("title.startsWith(\"The\")", BinPOp::StrStartsWith), ("title.endsWith(\"END\")", BinPOp::StrEndsWith)] {
        let t = tr(expr, &s, &[]).expect("translate");
        assert_eq!(t.ty, InferredType::Bool);
        match t.expr {
            Plan::Bin(o, l, r) => {
                assert_eq!(o, op);
                assert!(matches!(*l, Plan::Un(UnOp::StrToLower, ref c) if matches!(**c, Plan::Col(ref n) if n == "title")));
                assert!(matches!(*r, Plan::Un(UnOp::StrToLower, _)));
            }
            other => panic!("unexpected plan {other:?}"),
        }
    }
}

#[test]
fn contains_any_is_an_or_of_contains() {
    let s = schema(&[("title", InferredType::String)]);
    let t = tr("title.containsAny(\"a\", \"b\")", &s, &[]).expect("translate");
    assert_eq!(t.ty, InferredType::Bool);
    match t.expr {
        Plan::Bin(BinPOp::Or, rest, last) => {
            assert!(matches!(*last, Plan::Bin(BinPOp::StrContains, _, _)));
            match *rest {
                Plan::Bin(BinPOp::Or, none, first) => {
                    assert!(matches!(*none, Plan::Bool(false)));
                    assert!(matches!(*first, Plan::Bin(BinPOp::StrContains, _, _)));
                }
                other => panic!("unexpected plan {other:?}"),
            }
        }
        other => panic!("unexpected plan {other:?}"),
    }
    let t = tr("title.containsAny()", &s, &[]).expect("translate");
    assert!(matches!(t.expr, Plan::Bool(false)));
}

#[test]
fn link_keeps_bracketed_input_and_wraps_plain_paths() {
    let s = schema(&[("p", InferredType::String), ("d", InferredType::String)]);
    let t = tr("link(p)", &s, &[]).expect("translate");
    assert_eq!(t.ty, InferredType::String);
    match t.expr {
        Plan::Ter(TerOp::When, cond, keep, wrap) => {
            assert!(matches!(*cond, Plan::Bin(BinPOp::And, _, _)));
            assert!(matches!(*keep, Plan::Cast(DType::Utf8, _)));
            assert!(matches!(*wrap, Plan::ConcatStr(_)));
        }
        other => panic!("unexpected plan {other:?}"),
    }
    let t = tr("link(p, d)", &s, &[]).expect("translate");
    assert_eq!(t.ty, InferredType::String);
    assert!(matches!(t.expr, Plan::Ter(TerOp::When, _, _, _)));
}

#[test]
fn list_slice_clamps_and_lists_concatenate() {
    let s = schema(&[("tags", InferredType::List), ("more", InferredType::List)]);
    let t = tr("tags.slice(1, -1)", &s, &[]).expect("translate");
    assert_eq!(t.ty, InferredType::List);
    assert!(matches!(t.expr, Plan::Ter(TerOp::ListSlice, _, _, _)));
    let t = tr("tags + more", &s, &[]).expect("translate");
    assert_eq!(t.ty, InferredType::List);
    assert!(matches!(t.expr, Plan::ConcatList(_)));
    let t = tr("[].length", &s, &[]).expect("translate");
    assert_eq!(t.ty, InferredType::Int);
    assert!(matches!(t.expr, Plan::Cast(DType::Int64, ref l) if matches!(**l, Plan::Un(UnOp::ListLen, _))));
}

#[test]
fn title_strips_link_brackets_first() {
    let s = schema(&[("p", InferredType::String)]);
    let t = tr("p.title()", &s, &[]).expect("translate");
    assert_eq!(t.ty, InferredType::String);
    match t.expr {
        Plan::Un(UnOp::StrTitle, inner) => assert!(matches!(*inner, Plan::Ter(TerOp::StrReplaceLiteral, _, _, _))),
        other => panic!("unexpected plan {other:?}"),
    }
    assert_eq!(titlecase_str("[[my note]]").replace("[[", "").replace("]]", ""), "My Note");
    assert_eq!(titlecase_str("x9y"), "X9Y");
}

#[test]
fn date_parts_methods_and_differences() {
    let s = schema(&[("due", InferredType::Date), ("start", InferredType::Date)]);
    let t = tr("due + \"1M\"", &s, &[]).expect("translate");
    match t.expr {
        Plan::Bin(BinPOp::DtOffsetBy, _, d) => assert!(matches!(*d, Plan::Str(ref x) if x == "1mo")),
        other => panic!("unexpected plan {other:?}"),
    }
    let t = tr("due.format(\"YYYY-MM\")", &s, &[]).expect("translate");
    assert_eq!(t.ty, InferredType::String);
    assert!(matches!(t.expr, Plan::DtFormat(_, ref f) if f == "%Y-%m"));
    let t = tr("due.date()", &s, &[]).expect("translate");
    assert!(matches!(t.expr, Plan::Un(UnOp::DtTruncateDay, _)));
    let t = tr("due.isEmpty()", &s, &[]).expect("translate");
    assert!(matches!(t.expr, Plan::Un(UnOp::IsNull, _)));
    let t = tr("(due - start).days", &s, &[]).expect("translate");
    assert_eq!(t.ty, InferredType::Int);
    match t.expr {
        Plan::Un(UnOp::DtTotalDays, d) => assert!(matches!(*d, Plan::Bin(BinPOp::Sub, _, _))),
        other => panic!("unexpected plan {other:?}"),
    }
    let t = tr("date(\"2025-04-27T15:30:00\").hour", &s, &[]).expect("translate");
    assert_eq!(t.ty, InferredType::Int);
    match t.expr {
        Plan::Cast(DType::Int64, h) => match *h {
            Plan::Un(UnOp::DtHour, v) => assert!(matches!(*v, Plan::DatetimeLit(1745767800000000))),
            other => panic!("unexpected plan {other:?}"),
        },
        other => panic!("unexpected plan {other:?}"),
    }
    let t = tr("date(\"[[2025-01-15]]\")", &s, &[]).expect("translate");
    assert_eq!(t.ty, InferredType::Date);
    assert!(matches!(t.expr, Plan::DateLit(20103)));
}

#[test]
fn ascii_title_case_is_exact() {
    assert_eq!(titlecase_str("hello world"), "Hello World");
    assert_eq!(titlecase_str("mIxEd CASE-words"), "Mixed Case-Words");
}
