use crabase::error::{CrabaseError, ExprParseError};
use crabase::expr::ast::{BinOp, ExprKind, Literal, UnaryOp};
use crabase::expr::lexer::{Lexer, TokenKind};
use crabase::expr::parse;

#[test]
fn test_parser_ast_includes_spans() {
    let ast = parse("title + author.upper()").expect("parse");
    let expected = r#"Expr {
    kind: Binary {
        op: Add,
        left: Expr {
            kind: Variable(
                Ident(
                    "title",
                ),
            ),
            span: Span {
                start: 0,
                end: 5,
            },
        },
        right: Expr {
            kind: Call {
                callee: Expr {
                    kind: Member {
                        object: Expr {
                            kind: Variable(
                                Ident(
                                    "author",
                                ),
                            ),
                            span: Span {
                                start: 8,
                                end: 14,
                            },
                        },
                        field: Ident(
                            "upper",
                        ),
                    },
                    span: Span {
                        start: 8,
                        end: 20,
                    },
                },
                args: [],
            },
            span: Span {
                start: 8,
                end: 22,
            },
        },
    },
    span: Span {
        start: 0,
        end: 22,
    },
}"#;
    assert_eq!(format!("{ast:#?}"), expected);
}

#[test]
fn test_parser_reports_precise_error_positions() {
    let err = parse("1.2.3").map(|_| ()).unwrap_err();
    match err {
        CrabaseError::ExprParse(ExprParseError::ExpectedIdentifierAfterDot { pos, found }) => {
            assert_eq!(pos, 4);
            assert_eq!(found, TokenKind::Number("3".to_string()));
        }
        other => panic!("unexpected error {other:?}"),
    }
    let err = parse("1.2.3").map(|_| ()).unwrap_err();
    match err {
        CrabaseError::ExprParse(e) => {
            let number = format!("Number({:?})", 3.0f64);
            assert_eq!(
                format!("Expression parse error: {}", e.message(&number, "")),
                "Expression parse error: Expected identifier after '.' at 4, got Number(3.0)"
            );
        }
        other => panic!("unexpected error {other:?}"),
    }
}

#[test]
fn parse_error_messages_show_tokens_and_positions() {
    match parse("a b").map(|_| ()).unwrap_err() {
        CrabaseError::ExprParse(e) => assert_eq!(e.message("", ""), "Unexpected trailing token Ident(Ident(\"b\")) at 2"),
        other => panic!("unexpected error {other:?}"),
    }
    match parse("a & b").map(|_| ()).unwrap_err() {
        CrabaseError::ExprParse(e) => assert_eq!(e.message("", ""), "Expected '&&' at 2"),
        other => panic!("unexpected error {other:?}"),
    }
    match parse("(1").map(|_| ()).unwrap_err() {
        CrabaseError::ExprParse(e) => assert_eq!(e.message("", ""), "Expected RParen at 2, got Eof"),
        other => panic!("unexpected error {other:?}"),
    }
}

#[test]
fn multiplication_binds_tighter_than_addition() {
    let ast = parse("1 + 2 * 3").expect("parse");
    match ast.kind {
        ExprKind::Binary { op: BinOp::Add, right, .. } => {
            assert!(matches!(right.kind, ExprKind::Binary { op: BinOp::Mul, .. }));
        }
        other => panic!("unexpected tree {other:?}"),
    }
}

#[test]
fn subtraction_is_left_associative() {
    let ast = parse("1 - 2 - 3").expect("parse");
    match ast.kind {
        ExprKind::Binary { op: BinOp::Sub, left, .. } => {
            assert!(matches!(left.kind, ExprKind::Binary { op: BinOp::Sub, .. }));
        }
        other => panic!("unexpected tree {other:?}"),
    }
}

#[test]
fn unterminated_string_is_reported_at_its_quote() {
    let err = parse("x + \"abc").map(|_| ()).unwrap_err();
    assert!(matches!(
        err,
        CrabaseError::ExprParse(ExprParseError::UnterminatedString { start: 4 })
    ));
}

#[test]
fn trailing_token_is_an_error() {
    let err = parse("a b").map(|_| ()).unwrap_err();
    assert!(matches!(
        err,
        CrabaseError::ExprParse(ExprParseError::TrailingToken { pos: 2, .. })
    ));
}

#[test]
fn single_ampersand_is_an_error() {
    let err = parse("a & b").map(|_| ()).unwrap_err();
    assert!(matches!(
        err,
        CrabaseError::ExprParse(ExprParseError::ExpectedAmpAmp { pos: 2 })
    ));
}

#[test]
fn spans_count_bytes() {
    let ast = parse("\"é\" + x").expect("parse");
    assert_eq!(ast.span.start, 0);
    assert_eq!(ast.span.end, 8);
}

#[test]
fn lexer_steps_over_whitespace() {
    let mut lexer = Lexer::new("  ab");
    assert_eq!(lexer.peek_char(), Some(' '));
    lexer.skip_whitespace();
    assert_eq!(lexer.peek_char(), Some('a'));
    assert_eq!(lexer.advance(), Some('a'));
    assert_eq!(lexer.advance(), Some('b'));
    assert_eq!(lexer.advance(), None);
    assert_eq!(lexer.peek_char(), None);
}

#[test]
fn regex_literal_after_operator_and_division_after_operand() {
    let mut lexer = Lexer::new("a / b");
    let tokens = lexer.tokenize().expect("lex");
    assert!(tokens.iter().any(|t| t.kind == TokenKind::Slash));
    let mut lexer = Lexer::new("x.replace(/\\d+/, \"\")");
    let tokens = lexer.tokenize().expect("lex");
    assert!(tokens.iter().any(|t| t.kind == TokenKind::Regex("\\d+".to_string())));
}

fn eval_int(e: &crabase::expr::ast::Expr) -> i64 {
    match &e.kind {
        ExprKind::Literal(Literal::Number(n)) => n.parse().expect("integer"),
        ExprKind::Unary { op: UnaryOp::Neg, operand } => -eval_int(operand),
        ExprKind::Binary { op, left, right } => {
            let (l, r) = (eval_int(left), eval_int(right));
            match op {
                BinOp::Add => l + r,
                BinOp::Sub => l - r,
                BinOp::Mul => l * r,
                other => panic!("unexpected operator {other:?}"),
            }
        }
        other => panic!("unexpected node {other:?}"),
    }
}

#[test]
fn addition_respects_precedence_over_a_range() {
    for a in [-500i64, -7, 0, 3, 499] {
        for b in [-12i64, 0, 5, 250] {
            for c in [-3i64, 1, 40] {
                let ast = parse(&format!("{a} + {b} * {c}")).expect("parse");
                assert!(matches!(ast.kind, ExprKind::Binary { op: BinOp::Add, .. }));
                assert_eq!(eval_int(&ast), a + b * c);
                let ast = parse(&format!("{a} - {b} - {c}")).expect("parse");
                assert!(matches!(ast.kind, ExprKind::Binary { op: BinOp::Sub, ref left, .. }
                    if matches!(left.kind, ExprKind::Binary { op: BinOp::Sub, .. })));
                assert_eq!(eval_int(&ast), a - b - c);
            }
        }
    }
}
