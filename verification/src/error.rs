//! Error type shared by the whole library.
use vstd::prelude::*;

use crate::expr::lexer::{TokenKind, TokenKindV};
use crate::text::{debug_text, push_char, str_debug, string_from_chars};
use crate::vault::{dec, u64_text};

verus! {

/// Errors of the library. I/O and YAML errors carry the message of the
/// underlying error; expression-parse errors are structured.
#[derive(Debug)]
pub enum CrabaseError {
    Io(String),
    Yaml(String),
    BaseFile(String),
    ExprParse(ExprParseError),
    ExprEval(String),
    Filter(String),
    Query(String),
    NoViews,
    ViewNotFound(String),
    MissingArg(String),
    /// The expression supplies fewer arguments than a function or method
    /// reads; the command line stops with a panic on it.
    Abort(String),
}

/// What went wrong while lexing or parsing an expression; positions are byte
/// offsets into the expression text.
#[derive(Debug)]
pub enum ExprParseError {
    UnterminatedString { start: usize },
    UnterminatedEscape { pos: usize },
    UnterminatedRegex { start: usize },
    UnexpectedChar { ch: char, pos: usize },
    ExpectedAmpAmp { pos: usize },
    ExpectedPipePipe { pos: usize },
    ExpectedToken { expected: TokenKind, pos: usize, found: TokenKind },
    ExpectedIdentifierAfterDot { pos: usize, found: TokenKind },
    UnexpectedToken { found: TokenKind, pos: usize },
    TrailingToken { found: TokenKind, pos: usize },
}

pub enum ExprParseErrorV {
    UnterminatedString { start: nat },
    UnterminatedEscape { pos: nat },
    UnterminatedRegex { start: nat },
    UnexpectedChar { ch: char, pos: nat },
    ExpectedAmpAmp { pos: nat },
    ExpectedPipePipe { pos: nat },
    ExpectedToken { expected: TokenKindV, pos: nat, found: TokenKindV },
    ExpectedIdentifierAfterDot { pos: nat, found: TokenKindV },
    UnexpectedToken { found: TokenKindV, pos: nat },
    TrailingToken { found: TokenKindV, pos: nat },
}

impl View for ExprParseError {
    type V = ExprParseErrorV;

    open spec fn view(&self) -> ExprParseErrorV {
        match self {
            ExprParseError::UnterminatedString { start } => ExprParseErrorV::UnterminatedString {
                start: *start as nat,
            },
            ExprParseError::UnterminatedEscape { pos } => ExprParseErrorV::UnterminatedEscape {
                pos: *pos as nat,
            },
            ExprParseError::UnterminatedRegex { start } => ExprParseErrorV::UnterminatedRegex {
                start: *start as nat,
            },
            ExprParseError::UnexpectedChar { ch, pos } => ExprParseErrorV::UnexpectedChar {
                ch: *ch,
                pos: *pos as nat,
            },
            ExprParseError::ExpectedAmpAmp { pos } => ExprParseErrorV::ExpectedAmpAmp {
                pos: *pos as nat,
            },
            ExprParseError::ExpectedPipePipe { pos } => ExprParseErrorV::ExpectedPipePipe {
                pos: *pos as nat,
            },
            ExprParseError::ExpectedToken { expected, pos, found } => ExprParseErrorV::ExpectedToken {
                expected: expected@,
                pos: *pos as nat,
                found: found@,
            },
            ExprParseError::ExpectedIdentifierAfterDot {
                pos,
                found,
            } => ExprParseErrorV::ExpectedIdentifierAfterDot { pos: *pos as nat, found: found@ },
            ExprParseError::UnexpectedToken { found, pos } => ExprParseErrorV::UnexpectedToken {
                found: found@,
                pos: *pos as nat,
            },
            ExprParseError::TrailingToken { found, pos } => ExprParseErrorV::TrailingToken {
                found: found@,
                pos: *pos as nat,
            },
        }
    }
}

/// `r` is an expression-parse error whose model is `e`.
pub open spec fn is_parse_error<T>(r: Result<T, CrabaseError>, e: ExprParseErrorV) -> bool {
    match r {
        Err(CrabaseError::ExprParse(pe)) => pe@ == e,
        _ => false,
    }
}


// ---------- Messages of parse errors ----------

/// How a token is shown in a parse-error message (its `Debug` form); none
/// for a number, which is shown as the floating-point value it denotes.
pub open spec fn token_text(k: TokenKindV) -> Option<Seq<char>> {
    match k {
        TokenKindV::Number(_) => None,
        TokenKindV::Str(s) => Some("Str("@ + str_debug(s) + ")"@),
        TokenKindV::Regex(s) => Some("Str("@ + str_debug(s) + ")"@),
        TokenKindV::Bool(b) => Some(if b { "Bool(true)"@ } else { "Bool(false)"@ }),
        TokenKindV::Null => Some("Null"@),
        TokenKindV::Ident(n) => Some("Ident(Ident("@ + str_debug(n) + "))"@),
        TokenKindV::Dot => Some("Dot"@),
        TokenKindV::LParen => Some("LParen"@),
        TokenKindV::RParen => Some("RParen"@),
        TokenKindV::LBracket => Some("LBracket"@),
        TokenKindV::RBracket => Some("RBracket"@),
        TokenKindV::Comma => Some("Comma"@),
        TokenKindV::Plus => Some("Plus"@),
        TokenKindV::Minus => Some("Minus"@),
        TokenKindV::Star => Some("Star"@),
        TokenKindV::Slash => Some("Slash"@),
        TokenKindV::Percent => Some("Percent"@),
        TokenKindV::EqEq => Some("EqEq"@),
        TokenKindV::BangEq => Some("BangEq"@),
        TokenKindV::Gt => Some("Gt"@),
        TokenKindV::Lt => Some("Lt"@),
        TokenKindV::GtEq => Some("GtEq"@),
        TokenKindV::LtEq => Some("LtEq"@),
        TokenKindV::AmpAmp => Some("AmpAmp"@),
        TokenKindV::PipePipe => Some("PipePipe"@),
        TokenKindV::Bang => Some("Bang"@),
        TokenKindV::Eof => Some("Eof"@),
    }
}

/// The text of a token in a parse-error message; none for a number.
pub fn token_text_of(k: &TokenKind) -> (r: Option<String>)
    ensures
        match token_text(k@) {
            Some(t) => r is Some && r->0@ == t,
            None => r is None,
        },
{
    match k {
        TokenKind::Number(_) => None,
        TokenKind::Str(x) => Some(wrapped("Str(", x.as_str(), ")")),
        TokenKind::Regex(x) => Some(wrapped("Str(", x.as_str(), ")")),
        TokenKind::Bool(b) => Some(if *b { String::from_str("Bool(true)") } else { String::from_str("Bool(false)") }),
        TokenKind::Null => Some(String::from_str("Null")),
        TokenKind::Ident(n) => Some(wrapped("Ident(Ident(", n.as_str(), "))")),
        TokenKind::Dot => Some(String::from_str("Dot")),
        TokenKind::LParen => Some(String::from_str("LParen")),
        TokenKind::RParen => Some(String::from_str("RParen")),
        TokenKind::LBracket => Some(String::from_str("LBracket")),
        TokenKind::RBracket => Some(String::from_str("RBracket")),
        TokenKind::Comma => Some(String::from_str("Comma")),
        TokenKind::Plus => Some(String::from_str("Plus")),
        TokenKind::Minus => Some(String::from_str("Minus")),
        TokenKind::Star => Some(String::from_str("Star")),
        TokenKind::Slash => Some(String::from_str("Slash")),
        TokenKind::Percent => Some(String::from_str("Percent")),
        TokenKind::EqEq => Some(String::from_str("EqEq")),
        TokenKind::BangEq => Some(String::from_str("BangEq")),
        TokenKind::Gt => Some(String::from_str("Gt")),
        TokenKind::Lt => Some(String::from_str("Lt")),
        TokenKind::GtEq => Some(String::from_str("GtEq")),
        TokenKind::LtEq => Some(String::from_str("LtEq")),
        TokenKind::AmpAmp => Some(String::from_str("AmpAmp")),
        TokenKind::PipePipe => Some(String::from_str("PipePipe")),
        TokenKind::Bang => Some(String::from_str("Bang")),
        TokenKind::Eof => Some(String::from_str("Eof")),
    }
}

/// `pre`, the `Debug` form of `x`, then `post`.
fn wrapped(pre: &str, x: &str, post: &str) -> (r: String)
    ensures
        r@ == pre@ + str_debug(x@) + post@,
{
    let mut r = String::from_str(pre);
    let shown = debug_text(x);
    r.append(shown.as_str());
    r.append(post);
    r
}

/// A token as a message shows it: by `token_text`, or for a number by
/// `number` (the text of the floating-point value it denotes).
pub open spec fn shown(k: TokenKindV, number: Seq<char>) -> Seq<char> {
    match token_text(k) {
        Some(t) => t,
        None => number,
    }
}

/// The message of a parse error; `found_number` and `expected_number` show
/// the found and the expected token where that token is a number.
pub open spec fn parse_message(e: ExprParseErrorV, found_number: Seq<char>, expected_number: Seq<char>) -> Seq<char> {
    match e {
        ExprParseErrorV::UnterminatedString { start } => "Unterminated string literal at "@ + dec(start),
        ExprParseErrorV::UnterminatedEscape { pos } => "Unterminated escape sequence at "@ + dec(pos),
        ExprParseErrorV::UnterminatedRegex { start } => "Unterminated regex literal at "@ + dec(start),
        ExprParseErrorV::UnexpectedChar { ch, pos } => "Unexpected character '"@ + seq![ch] + "' at "@ + dec(pos),
        ExprParseErrorV::ExpectedAmpAmp { pos } => "Expected '&&' at "@ + dec(pos),
        ExprParseErrorV::ExpectedPipePipe { pos } => "Expected '||' at "@ + dec(pos),
        ExprParseErrorV::ExpectedToken { expected, pos, found } => "Expected "@ + shown(expected, expected_number)
            + " at "@ + dec(pos) + ", got "@ + shown(found, found_number),
        ExprParseErrorV::ExpectedIdentifierAfterDot { pos, found } => "Expected identifier after '.' at "@ + dec(
            pos,
        ) + ", got "@ + shown(found, found_number),
        ExprParseErrorV::UnexpectedToken { found, pos } => "Unexpected token "@ + shown(found, found_number) + " at "@
            + dec(pos),
        ExprParseErrorV::TrailingToken { found, pos } => "Unexpected trailing token "@ + shown(found, found_number)
            + " at "@ + dec(pos),
    }
}

fn shown_of(k: &TokenKind, number: &str) -> (r: String)
    ensures
        r@ == shown(k@, number@),
{
    match token_text_of(k) {
        Some(t) => t,
        None => String::from_str(number),
    }
}

/// `s` followed by the decimal digits of `n`.
fn push_dec(s: &mut String, n: usize)
    ensures
        final(s)@ == old(s)@ + dec(n as nat),
{
    let v = u64_text(n as u64);
    let t = string_from_chars(&v, 0, v.len());
    proof {
        assert(v@.subrange(0, v.len() as int) =~= v@);
    }
    s.append(t.as_str());
}

impl ExprParseError {
    /// The message of the error; `found_number` and `expected_number` show
    /// the found and the expected token where that token is a number.
    pub fn message(&self, found_number: &str, expected_number: &str) -> (r: String)
        ensures
            r@ == parse_message(self@, found_number@, expected_number@),
    {
        let mut r: String;
        match self {
            ExprParseError::UnterminatedString { start } => {
                r = String::from_str("Unterminated string literal at ");
                push_dec(&mut r, *start);
            },
            ExprParseError::UnterminatedEscape { pos } => {
                r = String::from_str("Unterminated escape sequence at ");
                push_dec(&mut r, *pos);
            },
            ExprParseError::UnterminatedRegex { start } => {
                r = String::from_str("Unterminated regex literal at ");
                push_dec(&mut r, *start);
            },
            ExprParseError::UnexpectedChar { ch, pos } => {
                r = String::from_str("Unexpected character '");
                push_char(&mut r, *ch);
                r.append("' at ");
                push_dec(&mut r, *pos);
            },
            ExprParseError::ExpectedAmpAmp { pos } => {
                r = String::from_str("Expected '&&' at ");
                push_dec(&mut r, *pos);
            },
            ExprParseError::ExpectedPipePipe { pos } => {
                r = String::from_str("Expected '||' at ");
                push_dec(&mut r, *pos);
            },
            ExprParseError::ExpectedToken { expected, pos, found } => {
                r = String::from_str("Expected ");
                let e = shown_of(expected, expected_number);
                r.append(e.as_str());
                r.append(" at ");
                push_dec(&mut r, *pos);
                r.append(", got ");
                let f = shown_of(found, found_number);
                r.append(f.as_str());
            },
            ExprParseError::ExpectedIdentifierAfterDot { pos, found } => {
                r = String::from_str("Expected identifier after '.' at ");
                push_dec(&mut r, *pos);
                r.append(", got ");
                let f = shown_of(found, found_number);
                r.append(f.as_str());
            },
            ExprParseError::UnexpectedToken { found, pos } => {
                r = String::from_str("Unexpected token ");
                let f = shown_of(found, found_number);
                r.append(f.as_str());
                r.append(" at ");
                push_dec(&mut r, *pos);
            },
            ExprParseError::TrailingToken { found, pos } => {
                r = String::from_str("Unexpected trailing token ");
                let f = shown_of(found, found_number);
                r.append(f.as_str());
                r.append(" at ");
                push_dec(&mut r, *pos);
            },
        }
        r
    }
}

} // verus!
