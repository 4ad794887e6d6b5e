//! Tokenizer for the expression language.
use vstd::prelude::*;

use crate::error::{is_parse_error, CrabaseError, ExprParseError, ExprParseErrorV};
use crate::expr::ast::{Ident, Span};
use crate::text::{
    char_is_alphabetic, char_is_alphanumeric, char_is_whitespace, char_len_utf8, chars_of,
    is_alphabetic, is_alphanumeric, is_ascii_digit, is_digit, is_whitespace,
    lemma_utf8_len_full, lemma_utf8_len_mono, lemma_utf8_len_step, push_char, string_from_chars,
    utf8_len,
};

verus! {

#[derive(Debug, PartialEq)]
pub enum TokenKind {
    /// A numeric literal, as written: digits with at most one decimal point.
    Number(String),
    Str(String),
    /// A `/pattern/` literal; the pattern is kept as written.
    Regex(String),
    Bool(bool),
    Null,
    Ident(Ident),
    Dot,
    LParen,
    RParen,
    LBracket,
    RBracket,
    Comma,
    Plus,
    Minus,
    Star,
    Slash,
    Percent,
    EqEq,
    BangEq,
    Gt,
    Lt,
    GtEq,
    LtEq,
    AmpAmp,
    PipePipe,
    Bang,
    Eof,
}

pub enum TokenKindV {
    Number(Seq<char>),
    Str(Seq<char>),
    Regex(Seq<char>),
    Bool(bool),
    Null,
    Ident(Seq<char>),
    Dot,
    LParen,
    RParen,
    LBracket,
    RBracket,
    Comma,
    Plus,
    Minus,
    Star,
    Slash,
    Percent,
    EqEq,
    BangEq,
    Gt,
    Lt,
    GtEq,
    LtEq,
    AmpAmp,
    PipePipe,
    Bang,
    Eof,
}

impl View for TokenKind {
    type V = TokenKindV;

    open spec fn view(&self) -> TokenKindV {
        match self {
            TokenKind::Number(s) => TokenKindV::Number(s@),
            TokenKind::Str(s) => TokenKindV::Str(s@),
            TokenKind::Regex(s) => TokenKindV::Regex(s@),
            TokenKind::Bool(b) => TokenKindV::Bool(*b),
            TokenKind::Null => TokenKindV::Null,
            TokenKind::Ident(i) => TokenKindV::Ident(i@),
            TokenKind::Dot => TokenKindV::Dot,
            TokenKind::LParen => TokenKindV::LParen,
            TokenKind::RParen => TokenKindV::RParen,
            TokenKind::LBracket => TokenKindV::LBracket,
            TokenKind::RBracket => TokenKindV::RBracket,
            TokenKind::Comma => TokenKindV::Comma,
            TokenKind::Plus => TokenKindV::Plus,
            TokenKind::Minus => TokenKindV::Minus,
            TokenKind::Star => TokenKindV::Star,
            TokenKind::Slash => TokenKindV::Slash,
            TokenKind::Percent => TokenKindV::Percent,
            TokenKind::EqEq => TokenKindV::EqEq,
            TokenKind::BangEq => TokenKindV::BangEq,
            TokenKind::Gt => TokenKindV::Gt,
            TokenKind::Lt => TokenKindV::Lt,
            TokenKind::GtEq => TokenKindV::GtEq,
            TokenKind::LtEq => TokenKindV::LtEq,
            TokenKind::AmpAmp => TokenKindV::AmpAmp,
            TokenKind::PipePipe => TokenKindV::PipePipe,
            TokenKind::Bang => TokenKindV::Bang,
            TokenKind::Eof => TokenKindV::Eof,
        }
    }
}

impl Clone for TokenKind {
    fn clone(&self) -> (r: Self)
        ensures
            r == *self,
    {
        match self {
            TokenKind::Number(s) => TokenKind::Number(s.clone()),
            TokenKind::Str(s) => TokenKind::Str(s.clone()),
            TokenKind::Regex(s) => TokenKind::Regex(s.clone()),
            TokenKind::Bool(b) => TokenKind::Bool(*b),
            TokenKind::Null => TokenKind::Null,
            TokenKind::Ident(i) => TokenKind::Ident(i.clone()),
            TokenKind::Dot => TokenKind::Dot,
            TokenKind::LParen => TokenKind::LParen,
            TokenKind::RParen => TokenKind::RParen,
            TokenKind::LBracket => TokenKind::LBracket,
            TokenKind::RBracket => TokenKind::RBracket,
            TokenKind::Comma => TokenKind::Comma,
            TokenKind::Plus => TokenKind::Plus,
            TokenKind::Minus => TokenKind::Minus,
            TokenKind::Star => TokenKind::Star,
            TokenKind::Slash => TokenKind::Slash,
            TokenKind::Percent => TokenKind::Percent,
            TokenKind::EqEq => TokenKind::EqEq,
            TokenKind::BangEq => TokenKind::BangEq,
            TokenKind::Gt => TokenKind::Gt,
            TokenKind::Lt => TokenKind::Lt,
            TokenKind::GtEq => TokenKind::GtEq,
            TokenKind::LtEq => TokenKind::LtEq,
            TokenKind::AmpAmp => TokenKind::AmpAmp,
            TokenKind::PipePipe => TokenKind::PipePipe,
            TokenKind::Bang => TokenKind::Bang,
            TokenKind::Eof => TokenKind::Eof,
        }
    }
}

#[derive(Debug, PartialEq)]
pub struct Token {
    pub kind: TokenKind,
    pub span: Span,
}

pub struct TokenV {
    pub kind: TokenKindV,
    pub start: nat,
    pub end: nat,
}

impl View for Token {
    type V = TokenV;

    open spec fn view(&self) -> TokenV {
        TokenV { kind: self.kind@, start: self.span.start as nat, end: self.span.end as nat }
    }
}

impl Clone for Token {
    fn clone(&self) -> (r: Self)
        ensures
            r == *self,
    {
        Token { kind: self.kind.clone(), span: self.span }
    }
}

pub open spec fn tokens_view(v: Seq<Token>) -> Seq<TokenV> {
    v.map_values(|t: Token| t@)
}

// ---------- Specification of tokenization ----------

/// Byte offset of character index `i` in `s`.
pub open spec fn byte_pos(s: Seq<char>, i: int) -> nat {
    utf8_len(s.take(i))
}

/// First index at or after `i` that is not whitespace.
pub open spec fn skip_ws(s: Seq<char>, i: int) -> int
    decreases s.len() - i,
{
    if 0 <= i < s.len() && char_is_whitespace(s[i]) {
        skip_ws(s, i + 1)
    } else {
        i
    }
}

pub open spec fn is_ident_char(c: char) -> bool {
    char_is_alphanumeric(c) || c == '_'
}

/// End of the run of identifier characters starting at `i`.
pub open spec fn ident_end(s: Seq<char>, i: int) -> int
    decreases s.len() - i,
{
    if 0 <= i < s.len() && is_ident_char(s[i]) {
        ident_end(s, i + 1)
    } else {
        i
    }
}

/// End of the run of ASCII digits starting at `i`.
pub open spec fn digits_end(s: Seq<char>, i: int) -> int
    decreases s.len() - i,
{
    if 0 <= i < s.len() && is_digit(s[i]) {
        digits_end(s, i + 1)
    } else {
        i
    }
}

/// End of a number starting with the digit at `st`: digits, then optionally
/// one `.` followed by digits.
pub open spec fn number_end(s: Seq<char>, st: int) -> int {
    let j = digits_end(s, st + 1);
    if 0 <= j < s.len() && s[j] == '.' {
        digits_end(s, j + 1)
    } else {
        j
    }
}

/// Outcome of scanning a quoted string or a regex body.
pub enum Scan {
    /// The contents and the index just after the closing delimiter.
    Done(Seq<char>, int),
    Unterminated,
    /// A backslash was the last character of the input.
    BadEscape,
}

/// Text that the escape `\e` stands for inside a string quoted by `quote`.
pub open spec fn escape_text(e: char, quote: char) -> Seq<char> {
    if e == 'n' {
        seq!['\n']
    } else if e == 't' {
        seq!['\t']
    } else if e == 'r' {
        seq!['\r']
    } else if e == '\\' {
        seq!['\\']
    } else if e == quote {
        seq![quote]
    } else {
        seq!['\\', e]
    }
}

pub open spec fn scan_string(s: Seq<char>, i: int, quote: char, acc: Seq<char>) -> Scan
    decreases s.len() - i,
{
    if i < 0 || i >= s.len() {
        Scan::Unterminated
    } else if s[i] == '\\' {
        if i + 1 >= s.len() {
            Scan::BadEscape
        } else {
            scan_string(s, i + 2, quote, acc + escape_text(s[i + 1], quote))
        }
    } else if s[i] == quote {
        Scan::Done(acc, i + 1)
    } else {
        scan_string(s, i + 1, quote, acc.push(s[i]))
    }
}

/// Body of a regex literal up to the next unescaped `/`; escapes are kept verbatim.
pub open spec fn scan_regex(s: Seq<char>, i: int, acc: Seq<char>) -> Scan
    decreases s.len() - i,
{
    if i < 0 || i >= s.len() {
        Scan::Unterminated
    } else if s[i] == '\\' {
        if i + 1 >= s.len() {
            Scan::Unterminated
        } else {
            scan_regex(s, i + 2, acc.push('\\').push(s[i + 1]))
        }
    } else if s[i] == '/' {
        Scan::Done(acc, i + 1)
    } else {
        scan_regex(s, i + 1, acc.push(s[i]))
    }
}

/// Keywords `true`, `false`, `null`; any other word is an identifier.
pub open spec fn word_kind(w: Seq<char>) -> TokenKindV {
    if w == seq!['t', 'r', 'u', 'e'] {
        TokenKindV::Bool(true)
    } else if w == seq!['f', 'a', 'l', 's', 'e'] {
        TokenKindV::Bool(false)
    } else if w == seq!['n', 'u', 'l', 'l'] {
        TokenKindV::Null
    } else {
        TokenKindV::Ident(w)
    }
}

/// Tokens after which `/` is the division operator rather than the start of
/// a regex literal.
pub open spec fn ends_operand(k: TokenKindV) -> bool {
    match k {
        TokenKindV::Number(_) | TokenKindV::Str(_) | TokenKindV::Regex(_) | TokenKindV::Bool(_)
        | TokenKindV::Null | TokenKindV::Ident(_) | TokenKindV::RParen | TokenKindV::RBracket => true,
        _ => false,
    }
}

/// Characters that form a token on their own.
pub open spec fn single_char_kind(c: char) -> Option<TokenKindV> {
    if c == '.' {
        Some(TokenKindV::Dot)
    } else if c == '(' {
        Some(TokenKindV::LParen)
    } else if c == ')' {
        Some(TokenKindV::RParen)
    } else if c == '[' {
        Some(TokenKindV::LBracket)
    } else if c == ']' {
        Some(TokenKindV::RBracket)
    } else if c == ',' {
        Some(TokenKindV::Comma)
    } else if c == '+' {
        Some(TokenKindV::Plus)
    } else if c == '-' {
        Some(TokenKindV::Minus)
    } else if c == '*' {
        Some(TokenKindV::Star)
    } else if c == '%' {
        Some(TokenKindV::Percent)
    } else {
        None
    }
}

pub enum LexStep {
    /// A token and the character index just after it.
    Token(TokenV, int),
    Error(ExprParseErrorV),
}

pub open spec fn tok(s: Seq<char>, st: int, e: int, k: TokenKindV) -> LexStep {
    LexStep::Token(TokenV { kind: k, start: byte_pos(s, st), end: byte_pos(s, e) }, e)
}

/// The token that starts at character index `i` (after skipping whitespace).
pub open spec fn next_token_spec(s: Seq<char>, i: int, after_operand: bool) -> LexStep {
    let st = skip_ws(s, i);
    let start = byte_pos(s, st);
    if st >= s.len() {
        tok(s, st, st, TokenKindV::Eof)
    } else {
        let c = s[st];
        let n = st + 1;
        let next_is_eq = n < s.len() && s[n] == '=';
        if single_char_kind(c) is Some {
            tok(s, st, n, single_char_kind(c)->0)
        } else if c == '/' {
            if after_operand {
                tok(s, st, n, TokenKindV::Slash)
            } else {
                match scan_regex(s, n, seq![]) {
                    Scan::Done(p, e) => tok(s, st, e, TokenKindV::Regex(p)),
                    _ => LexStep::Error(ExprParseErrorV::UnterminatedRegex { start }),
                }
            }
        } else if c == '=' {
            if next_is_eq {
                tok(s, st, n + 1, TokenKindV::EqEq)
            } else {
                LexStep::Error(ExprParseErrorV::UnexpectedChar { ch: '=', pos: start })
            }
        } else if c == '!' {
            if next_is_eq {
                tok(s, st, n + 1, TokenKindV::BangEq)
            } else {
                tok(s, st, n, TokenKindV::Bang)
            }
        } else if c == '>' {
            if next_is_eq {
                tok(s, st, n + 1, TokenKindV::GtEq)
            } else {
                tok(s, st, n, TokenKindV::Gt)
            }
        } else if c == '<' {
            if next_is_eq {
                tok(s, st, n + 1, TokenKindV::LtEq)
            } else {
                tok(s, st, n, TokenKindV::Lt)
            }
        } else if c == '&' {
            if n < s.len() && s[n] == '&' {
                tok(s, st, n + 1, TokenKindV::AmpAmp)
            } else {
                LexStep::Error(ExprParseErrorV::ExpectedAmpAmp { pos: start })
            }
        } else if c == '|' {
            if n < s.len() && s[n] == '|' {
                tok(s, st, n + 1, TokenKindV::PipePipe)
            } else {
                LexStep::Error(ExprParseErrorV::ExpectedPipePipe { pos: start })
            }
        } else if c == '\'' || c == '"' {
            match scan_string(s, n, c, seq![]) {
                Scan::Done(content, e) => tok(s, st, e, TokenKindV::Str(content)),
                Scan::Unterminated => LexStep::Error(
                    ExprParseErrorV::UnterminatedString { start },
                ),
                Scan::BadEscape => LexStep::Error(
                    ExprParseErrorV::UnterminatedEscape { pos: byte_pos(s, s.len() as int) },
                ),
            }
        } else if is_digit(c) {
            let e = number_end(s, st);
            tok(s, st, e, TokenKindV::Number(s.subrange(st, e)))
        } else if char_is_alphabetic(c) || c == '_' {
            let e = ident_end(s, n);
            tok(s, st, e, word_kind(s.subrange(st, e)))
        } else {
            LexStep::Error(ExprParseErrorV::UnexpectedChar { ch: c, pos: start })
        }
    }
}

/// All tokens from character index `i` up to and including `Eof`, or the
/// first error.
pub open spec fn tokenize_spec(s: Seq<char>, i: int, after_operand: bool) -> Result<
    Seq<TokenV>,
    ExprParseErrorV,
>
    decreases s.len() - i,
{
    match next_token_spec(s, i, after_operand) {
        LexStep::Error(e) => Err(e),
        LexStep::Token(t, j) => {
            if t.kind is Eof {
                Ok(seq![t])
            } else if i < j <= s.len() {
                match tokenize_spec(s, j, ends_operand(t.kind)) {
                    Ok(rest) => Ok(seq![t] + rest),
                    Err(e) => Err(e),
                }
            } else {
                Ok(seq![])
            }
        },
    }
}

/// Tokens of a whole expression text.
pub open spec fn lex(s: Seq<char>) -> Result<Seq<TokenV>, ExprParseErrorV> {
    tokenize_spec(s, 0, false)
}

// ---------- Facts about the specification ----------

proof fn lemma_skip_ws(s: Seq<char>, i: int)
    requires
        0 <= i <= s.len(),
    ensures
        i <= skip_ws(s, i) <= s.len(),
        forall|k: int| i <= k < skip_ws(s, i) ==> char_is_whitespace(#[trigger] s[k]),
    decreases s.len() - i,
{
    if i < s.len() && char_is_whitespace(s[i]) {
        lemma_skip_ws(s, i + 1);
    }
}

proof fn lemma_ident_end(s: Seq<char>, i: int)
    requires
        0 <= i <= s.len(),
    ensures
        i <= ident_end(s, i) <= s.len(),
    decreases s.len() - i,
{
    if i < s.len() && is_ident_char(s[i]) {
        lemma_ident_end(s, i + 1);
    }
}

proof fn lemma_digits_end(s: Seq<char>, i: int)
    requires
        0 <= i <= s.len(),
    ensures
        i <= digits_end(s, i) <= s.len(),
    decreases s.len() - i,
{
    if i < s.len() && is_digit(s[i]) {
        lemma_digits_end(s, i + 1);
    }
}

proof fn lemma_scan_string(s: Seq<char>, i: int, quote: char, acc: Seq<char>)
    requires
        0 <= i,
    ensures
        scan_string(s, i, quote, acc) matches Scan::Done(_, e) ==> i < e <= s.len(),
    decreases s.len() - i,
{
    if 0 <= i < s.len() {
        if s[i] == '\\' {
            if i + 1 < s.len() {
                lemma_scan_string(s, i + 2, quote, acc + escape_text(s[i + 1], quote));
            }
        } else if s[i] != quote {
            lemma_scan_string(s, i + 1, quote, acc.push(s[i]));
        }
    }
}

proof fn lemma_scan_regex(s: Seq<char>, i: int, acc: Seq<char>)
    requires
        0 <= i,
    ensures
        scan_regex(s, i, acc) matches Scan::Done(_, e) ==> i < e <= s.len(),
    decreases s.len() - i,
{
    if 0 <= i < s.len() {
        if s[i] == '\\' {
            if i + 1 < s.len() {
                lemma_scan_regex(s, i + 2, acc.push('\\').push(s[i + 1]));
            }
        } else if s[i] != '/' {
            lemma_scan_regex(s, i + 1, acc.push(s[i]));
        }
    }
}

/// Every token but `Eof` consumes at least one character and stays in bounds.
pub proof fn lemma_next_token_progress(s: Seq<char>, i: int, ao: bool)
    requires
        0 <= i <= s.len(),
    ensures
        next_token_spec(s, i, ao) matches LexStep::Token(t, j) ==> {
            &&& i <= j <= s.len()
            &&& (t.kind is Eof <==> j == skip_ws(s, i) && j == s.len())
            &&& !(t.kind is Eof) ==> skip_ws(s, i) < j
            &&& !(t.kind is Eof) ==> i < j
            &&& t.start == byte_pos(s, skip_ws(s, i))
            &&& t.end == byte_pos(s, j)
        },
{
    lemma_skip_ws(s, i);
    let st = skip_ws(s, i);
    if st < s.len() {
        let n = st + 1;
        lemma_scan_string(s, n, s[st], seq![]);
        lemma_scan_regex(s, n, seq![]);
        lemma_ident_end(s, n);
        lemma_digits_end(s, n);
        let j = digits_end(s, st + 1);
        if 0 <= j < s.len() && s[j] == '.' {
            lemma_digits_end(s, j + 1);
        }
    }
}

/// Byte offsets grow with character indices.
proof fn lemma_byte_pos_lt(s: Seq<char>, a: int, b: int)
    requires
        0 <= a < b <= s.len(),
    ensures
        byte_pos(s, a) < byte_pos(s, b),
{
    lemma_utf8_len_step(s, a);
    lemma_utf8_len_mono(s, a + 1, b);
}

/// The spans of a token in bytes: it starts after the whitespace skipped
/// from the position reached and ends where the lexer continues, within the
/// input; it is `Eof` exactly when it starts at the end of the input, and
/// any other token covers at least one byte.
pub proof fn law_next_token_spans(s: Seq<char>, i: int, ao: bool)
    requires
        0 <= i <= s.len(),
    ensures
        next_token_spec(s, i, ao) matches LexStep::Token(t, j) ==> {
            &&& byte_pos(s, i) <= t.start <= t.end
            &&& t.end == byte_pos(s, j)
            &&& t.end <= utf8_len(s)
            &&& forall|k: int| i <= k < skip_ws(s, i) ==> char_is_whitespace(#[trigger] s[k])
            &&& (t.kind is Eof <==> t.start == utf8_len(s))
            &&& !(t.kind is Eof) ==> t.start < t.end
        },
{
    lemma_next_token_progress(s, i, ao);
    lemma_skip_ws(s, i);
    lemma_utf8_len_full(s);
    let st = skip_ws(s, i);
    if let LexStep::Token(t, j) = next_token_spec(s, i, ao) {
        lemma_utf8_len_mono(s, i, st);
        lemma_utf8_len_mono(s, st, j);
        lemma_utf8_len_mono(s, j, s.len() as int);
        if !(t.kind is Eof) {
            lemma_byte_pos_lt(s, st, j);
        }
    }
}

// ---------- The lexer ----------

/// A lexer over one expression text. It remembers the position reached and
/// whether the previous token ended an operand (which decides whether `/`
/// divides or starts a regex literal).
pub struct Lexer {
    chars: Vec<char>,
    pos: usize,
    byte: usize,
    after_operand: bool,
}

impl Lexer {
    /// The text being tokenized.
    pub closed spec fn input(&self) -> Seq<char> {
        self.chars@
    }

    /// Character index reached.
    pub closed spec fn position(&self) -> int {
        self.pos as int
    }

    pub closed spec fn after_operand(&self) -> bool {
        self.after_operand
    }

    pub closed spec fn wf(&self) -> bool {
        &&& self.pos <= self.chars@.len()
        &&& self.byte == byte_pos(self.chars@, self.pos as int)
        &&& utf8_len(self.chars@) <= usize::MAX
    }

    /// A well-formed lexer's position lies within its input.
    pub proof fn lemma_position_bounds(&self)
        requires
            self.wf(),
        ensures
            0 <= self.position() <= self.input().len(),
    {
    }

    pub fn new(input: &str) -> (l: Lexer)
        ensures
            l.wf(),
            l.input() == input@,
            l.position() == 0,
            !l.after_operand(),
    {
        let _ = crate::text::byte_len(input);
        let chars = chars_of(input);
        proof {
            assert(chars@.take(0) =~= Seq::<char>::empty());
        }
        Lexer { chars, pos: 0, byte: 0, after_operand: false }
    }

    /// The character at the position reached, if any.
    pub fn peek_char(&self) -> (r: Option<char>)
        requires
            self.wf(),
        ensures
            r == (if self.position() < self.input().len() {
                Some(self.input()[self.position()])
            } else {
                None
            }),
    {
        if self.pos < self.chars.len() {
            Some(self.chars[self.pos])
        } else {
            None
        }
    }

    /// Take the character at the position reached, if any, and move past it.
    pub fn advance(&mut self) -> (r: Option<char>)
        requires
            old(self).wf(),
        ensures
            final(self).wf(),
            final(self).input() == old(self).input(),
            final(self).after_operand() == old(self).after_operand(),
            old(self).position() < old(self).input().len() ==> r == Some(old(self).input()[old(self).position()])
                && final(self).position() == old(self).position() + 1,
            old(self).position() >= old(self).input().len() ==> r is None && final(self).position()
                == old(self).position(),
    {
        if self.pos < self.chars.len() {
            let ch = self.chars[self.pos];
            proof {
                lemma_utf8_len_step(self.chars@, self.pos as int);
                lemma_utf8_len_mono(self.chars@, self.pos + 1, self.chars@.len() as int);
                lemma_utf8_len_full(self.chars@);
            }
            self.byte = self.byte + char_len_utf8(ch);
            self.pos = self.pos + 1;
            Some(ch)
        } else {
            None
        }
    }

    /// Move past any whitespace at the position reached.
    pub fn skip_whitespace(&mut self)
        requires
            old(self).wf(),
        ensures
            final(self).wf(),
            final(self).input() == old(self).input(),
            final(self).after_operand() == old(self).after_operand(),
            final(self).position() == skip_ws(old(self).input(), old(self).position()),
    {
        while self.pos < self.chars.len() && is_whitespace(self.chars[self.pos])
            invariant
                self.wf(),
                self.chars@ == old(self).chars@,
                self.after_operand == old(self).after_operand,
                skip_ws(self.chars@, self.pos as int) == skip_ws(
                    old(self).chars@,
                    old(self).pos as int,
                ),
            decreases self.chars@.len() - self.pos,
        {
            let _ = self.advance();
        }
    }

    fn token(&self, start: usize, kind: TokenKind) -> (t: Token)
        ensures
            t.kind == kind,
            t.span == (Span { start, end: self.byte }),
    {
        Token { kind, span: Span { start, end: self.byte } }
    }

    fn read_string(&mut self, quote: char, start: usize) -> (r: Result<Token, CrabaseError>)
        requires
            old(self).wf(),
            quote != '\\',
        ensures
            final(self).wf(),
            final(self).chars@ == old(self).chars@,
            final(self).after_operand == old(self).after_operand,
            match scan_string(old(self).chars@, old(self).pos as int, quote, seq![]) {
                Scan::Done(content, e) => r matches Ok(t) && t@ == (TokenV {
                    kind: TokenKindV::Str(content),
                    start: start as nat,
                    end: byte_pos(old(self).chars@, e),
                }) && final(self).pos == e,
                Scan::Unterminated => is_parse_error(
                    r,
                    ExprParseErrorV::UnterminatedString { start: start as nat },
                ),
                Scan::BadEscape => is_parse_error(
                    r,
                    ExprParseErrorV::UnterminatedEscape {
                        pos: byte_pos(old(self).chars@, old(self).chars@.len() as int),
                    },
                ),
            },
    {
        let ghost s = self.chars@;
        let ghost p0 = self.pos as int;
        let mut buf = String::new();
        loop
            invariant
                self.wf(),
                self.chars@ == s,
                s == old(self).chars@,
                p0 == old(self).pos,
                self.after_operand == old(self).after_operand,
                quote != '\\',
                scan_string(s, p0, quote, seq![]) == scan_string(s, self.pos as int, quote, buf@),
            decreases self.chars@.len() - self.pos,
        {
            let ghost before = self.pos as int;
            match self.advance() {
                None => {
                    return Err(
                        CrabaseError::ExprParse(ExprParseError::UnterminatedString { start }),
                    );
                },
                Some(c) => {
                    if c == '\\' {
                        match self.advance() {
                            None => {
                                proof {
                                    lemma_utf8_len_full(s);
                                }
                                return Err(
                                    CrabaseError::ExprParse(
                                        ExprParseError::UnterminatedEscape { pos: self.byte },
                                    ),
                                );
                            },
                            Some(e) => {
                                let ghost old_buf = buf@;
                                if e == 'n' {
                                    push_char(&mut buf, '\n');
                                } else if e == 't' {
                                    push_char(&mut buf, '\t');
                                } else if e == 'r' {
                                    push_char(&mut buf, '\r');
                                } else if e == '\\' {
                                    push_char(&mut buf, '\\');
                                } else if e == quote {
                                    push_char(&mut buf, e);
                                } else {
                                    push_char(&mut buf, '\\');
                                    push_char(&mut buf, e);
                                }
                                assert(buf@ =~= old_buf + escape_text(e, quote));
                            },
                        }
                    } else if c == quote {
                        return Ok(self.token(start, TokenKind::Str(buf)));
                    } else {
                        push_char(&mut buf, c);
                    }
                },
            }
        }
    }

    fn read_regex(&mut self, start: usize) -> (r: Result<Token, CrabaseError>)
        requires
            old(self).wf(),
        ensures
            final(self).wf(),
            final(self).chars@ == old(self).chars@,
            final(self).after_operand == old(self).after_operand,
            match scan_regex(old(self).chars@, old(self).pos as int, seq![]) {
                Scan::Done(p, e) => r matches Ok(t) && t@ == (TokenV {
                    kind: TokenKindV::Regex(p),
                    start: start as nat,
                    end: byte_pos(old(self).chars@, e),
                }) && final(self).pos == e,
                _ => is_parse_error(r, ExprParseErrorV::UnterminatedRegex { start: start as nat }),
            },
    {
        let ghost s = self.chars@;
        let ghost p0 = self.pos as int;
        let mut buf = String::new();
        loop
            invariant
                self.wf(),
                self.chars@ == s,
                s == old(self).chars@,
                p0 == old(self).pos,
                self.after_operand == old(self).after_operand,
                scan_regex(s, p0, seq![]) == scan_regex(s, self.pos as int, buf@),
            decreases self.chars@.len() - self.pos,
        {
            match self.advance() {
                None => {
                    return Err(
                        CrabaseError::ExprParse(ExprParseError::UnterminatedRegex { start }),
                    );
                },
                Some(c) => {
                    if c == '\\' {
                        match self.advance() {
                            None => {
                                return Err(
                                    CrabaseError::ExprParse(
                                        ExprParseError::UnterminatedRegex { start },
                                    ),
                                );
                            },
                            Some(e) => {
                                push_char(&mut buf, '\\');
                                push_char(&mut buf, e);
                            },
                        }
                    } else if c == '/' {
                        return Ok(self.token(start, TokenKind::Regex(buf)));
                    } else {
                        push_char(&mut buf, c);
                    }
                },
            }
        }
    }

    /// Advance over a run of ASCII digits.
    fn skip_digits(&mut self)
        requires
            old(self).wf(),
        ensures
            final(self).wf(),
            final(self).chars@ == old(self).chars@,
            final(self).after_operand == old(self).after_operand,
            final(self).pos == digits_end(old(self).chars@, old(self).pos as int),
    {
        while self.pos < self.chars.len() && is_ascii_digit(self.chars[self.pos])
            invariant
                self.wf(),
                self.chars@ == old(self).chars@,
                self.after_operand == old(self).after_operand,
                digits_end(self.chars@, self.pos as int) == digits_end(
                    old(self).chars@,
                    old(self).pos as int,
                ),
            decreases self.chars@.len() - self.pos,
        {
            let _ = self.advance();
        }
    }

    fn read_number(&mut self, start: usize) -> (t: Token)
        requires
            old(self).wf(),
            old(self).pos >= 1,
            start == byte_pos(old(self).chars@, old(self).pos - 1),
        ensures
            final(self).wf(),
            final(self).chars@ == old(self).chars@,
            final(self).after_operand == old(self).after_operand,
            final(self).pos == number_end(old(self).chars@, old(self).pos - 1),
            t@ == (TokenV {
                kind: TokenKindV::Number(
                    old(self).chars@.subrange(old(self).pos - 1, final(self).pos as int),
                ),
                start: start as nat,
                end: byte_pos(old(self).chars@, final(self).pos as int),
            }),
    {
        let first = self.pos - 1;
        proof {
            lemma_digits_end(self.chars@, self.pos as int);
        }
        self.skip_digits();
        if self.pos < self.chars.len() && self.chars[self.pos] == '.' {
            let _ = self.advance();
            proof {
                lemma_digits_end(self.chars@, self.pos as int);
            }
            self.skip_digits();
        }
        let raw = string_from_chars(&self.chars, first, self.pos);
        self.token(start, TokenKind::Number(raw))
    }

    fn read_ident(&mut self, start: usize) -> (t: Token)
        requires
            old(self).wf(),
            old(self).pos >= 1,
        ensures
            final(self).wf(),
            final(self).chars@ == old(self).chars@,
            final(self).after_operand == old(self).after_operand,
            final(self).pos == ident_end(old(self).chars@, old(self).pos as int),
            t@ == (TokenV {
                kind: word_kind(old(self).chars@.subrange(old(self).pos - 1, final(self).pos as int)),
                start: start as nat,
                end: byte_pos(old(self).chars@, final(self).pos as int),
            }),
    {
        let first = self.pos - 1;
        while self.pos < self.chars.len() && (is_alphanumeric(self.chars[self.pos])
            || self.chars[self.pos] == '_')
            invariant
                self.wf(),
                self.chars@ == old(self).chars@,
                self.after_operand == old(self).after_operand,
                old(self).pos <= self.pos,
                first as int == old(self).pos - 1,
                ident_end(self.chars@, self.pos as int) == ident_end(
                    old(self).chars@,
                    old(self).pos as int,
                ),
            decreases self.chars@.len() - self.pos,
        {
            let _ = self.advance();
        }
        let end = self.pos;
        let w = &self.chars;
        let len = end - first;
        let kind = if len == 4 && w[first] == 't' && w[first + 1] == 'r' && w[first + 2] == 'u'
            && w[first + 3] == 'e' {
            TokenKind::Bool(true)
        } else if len == 5 && w[first] == 'f' && w[first + 1] == 'a' && w[first + 2] == 'l'
            && w[first + 3] == 's' && w[first + 4] == 'e' {
            TokenKind::Bool(false)
        } else if len == 4 && w[first] == 'n' && w[first + 1] == 'u' && w[first + 2] == 'l'
            && w[first + 3] == 'l' {
            TokenKind::Null
        } else {
            TokenKind::Ident(Ident::new(string_from_chars(&self.chars, first, end)))
        };
        proof {
            let word = self.chars@.subrange(first as int, end as int);
            assert(word.len() == len);
            if word == seq!['t', 'r', 'u', 'e'] {
                assert(len == 4 && word[0] == 't' && word[1] == 'r');
            }
            if word == seq!['f', 'a', 'l', 's', 'e'] {
                assert(len == 5 && word[0] == 'f');
            }
            if word == seq!['n', 'u', 'l', 'l'] {
                assert(len == 4 && word[0] == 'n');
            }
            if len == 4 && w@[first as int] == 't' && w@[first + 1] == 'r' && w@[first + 2] == 'u'
                && w@[first + 3] == 'e' {
                assert(word =~= seq!['t', 'r', 'u', 'e']);
            }
            if len == 5 && w@[first as int] == 'f' && w@[first + 1] == 'a' && w@[first + 2] == 'l'
                && w@[first + 3] == 's' && w@[first + 4] == 'e' {
                assert(word =~= seq!['f', 'a', 'l', 's', 'e']);
            }
            if len == 4 && w@[first as int] == 'n' && w@[first + 1] == 'u' && w@[first + 2] == 'l'
                && w@[first + 3] == 'l' {
                assert(word =~= seq!['n', 'u', 'l', 'l']);
            }
        }
        self.token(start, kind)
    }
}


pub open spec fn prepend_tokens(
    v: Seq<TokenV>,
    r: Result<Seq<TokenV>, ExprParseErrorV>,
) -> Result<Seq<TokenV>, ExprParseErrorV> {
    match r {
        Ok(rest) => Ok(v + rest),
        Err(e) => Err(e),
    }
}

fn ends_operand_kind(k: &TokenKind) -> (b: bool)
    ensures
        b == ends_operand(k@),
{
    match k {
        TokenKind::Number(_) | TokenKind::Str(_) | TokenKind::Regex(_) | TokenKind::Bool(_)
        | TokenKind::Null | TokenKind::Ident(_) | TokenKind::RParen | TokenKind::RBracket => true,
        _ => false,
    }
}

impl Lexer {
    /// Whether the next character exists and equals `ch`.
    fn next_is(&self, ch: char) -> (b: bool)
        requires
            self.wf(),
        ensures
            b == (self.pos < self.chars@.len() && self.chars@[self.pos as int] == ch),
    {
        self.pos < self.chars.len() && self.chars[self.pos] == ch
    }

    /// Skip whitespace and read one token.
    pub fn next_token(&mut self) -> (r: Result<Token, CrabaseError>)
        requires
            old(self).wf(),
        ensures
            final(self).wf(),
            final(self).input() == old(self).input(),
            match next_token_spec(old(self).input(), old(self).position(), old(self).after_operand()) {
                LexStep::Token(t, j) => r matches Ok(tok) && tok@ == t && final(self).position() == j
                    && final(self).after_operand() == ends_operand(t.kind),
                LexStep::Error(e) => is_parse_error(r, e),
            },
    {
        self.skip_whitespace();
        let start = self.byte;
        let r = match self.peek_char() {
            None => Ok(self.token(start, TokenKind::Eof)),
            Some(c) => {
                let _ = self.advance();
                if c == '.' {
                    Ok(self.token(start, TokenKind::Dot))
                } else if c == '(' {
                    Ok(self.token(start, TokenKind::LParen))
                } else if c == ')' {
                    Ok(self.token(start, TokenKind::RParen))
                } else if c == '[' {
                    Ok(self.token(start, TokenKind::LBracket))
                } else if c == ']' {
                    Ok(self.token(start, TokenKind::RBracket))
                } else if c == ',' {
                    Ok(self.token(start, TokenKind::Comma))
                } else if c == '+' {
                    Ok(self.token(start, TokenKind::Plus))
                } else if c == '-' {
                    Ok(self.token(start, TokenKind::Minus))
                } else if c == '*' {
                    Ok(self.token(start, TokenKind::Star))
                } else if c == '%' {
                    Ok(self.token(start, TokenKind::Percent))
                } else if c == '/' {
                    if self.after_operand {
                        Ok(self.token(start, TokenKind::Slash))
                    } else {
                        self.read_regex(start)
                    }
                } else if c == '=' {
                    if self.next_is('=') {
                        let _ = self.advance();
                        Ok(self.token(start, TokenKind::EqEq))
                    } else {
                        Err(
                            CrabaseError::ExprParse(
                                ExprParseError::UnexpectedChar { ch: '=', pos: start },
                            ),
                        )
                    }
                } else if c == '!' {
                    if self.next_is('=') {
                        let _ = self.advance();
                        Ok(self.token(start, TokenKind::BangEq))
                    } else {
                        Ok(self.token(start, TokenKind::Bang))
                    }
                } else if c == '>' {
                    if self.next_is('=') {
                        let _ = self.advance();
                        Ok(self.token(start, TokenKind::GtEq))
                    } else {
                        Ok(self.token(start, TokenKind::Gt))
                    }
                } else if c == '<' {
                    if self.next_is('=') {
                        let _ = self.advance();
                        Ok(self.token(start, TokenKind::LtEq))
                    } else {
                        Ok(self.token(start, TokenKind::Lt))
                    }
                } else if c == '&' {
                    if self.next_is('&') {
                        let _ = self.advance();
                        Ok(self.token(start, TokenKind::AmpAmp))
                    } else {
                        Err(CrabaseError::ExprParse(ExprParseError::ExpectedAmpAmp { pos: start }))
                    }
                } else if c == '|' {
                    if self.next_is('|') {
                        let _ = self.advance();
                        Ok(self.token(start, TokenKind::PipePipe))
                    } else {
                        Err(
                            CrabaseError::ExprParse(ExprParseError::ExpectedPipePipe { pos: start }),
                        )
                    }
                } else if c == '\'' || c == '"' {
                    self.read_string(c, start)
                } else if is_ascii_digit(c) {
                    Ok(self.read_number(start))
                } else if is_alphabetic(c) || c == '_' {
                    Ok(self.read_ident(start))
                } else {
                    Err(CrabaseError::ExprParse(ExprParseError::UnexpectedChar { ch: c, pos: start }))
                }
            },
        };
        if let Ok(t) = &r {
            self.after_operand = ends_operand_kind(&t.kind);
        }
        r
    }

    /// Read tokens up to and including `Eof`, or stop at the first error.
    pub fn tokenize(&mut self) -> (r: Result<Vec<Token>, CrabaseError>)
        requires
            old(self).wf(),
        ensures
            match tokenize_spec(old(self).input(), old(self).position(), old(self).after_operand()) {
                Ok(ts) => r matches Ok(v) && tokens_view(v@) == ts,
                Err(e) => is_parse_error(r, e),
            },
    {
        let ghost s = self.chars@;
        let ghost p0 = self.pos as int;
        let ghost a0 = self.after_operand;
        let mut tokens: Vec<Token> = Vec::new();
        loop
            invariant
                self.wf(),
                self.chars@ == s,
                s == old(self).chars@,
                p0 == old(self).pos,
                a0 == old(self).after_operand,
                tokenize_spec(s, p0, a0) == prepend_tokens(
                    tokens_view(tokens@),
                    tokenize_spec(s, self.pos as int, self.after_operand),
                ),
            decreases s.len() - self.pos,
        {
            let ghost i = self.pos as int;
            let ghost ao = self.after_operand;
            proof {
                lemma_next_token_progress(s, i, ao);
            }
            let token = match self.next_token() {
                Ok(t) => t,
                Err(e) => {
                    return Err(e);
                },
            };
            let is_eof = match token.kind {
                TokenKind::Eof => true,
                _ => false,
            };
            let ghost before = tokens_view(tokens@);
            tokens.push(token);
            proof {
                assert(tokens_view(tokens@) =~= before.push(token@));
            }
            if is_eof {
                proof {
                    assert(before + seq![token@] =~= before.push(token@));
                }
                return Ok(tokens);
            }
            proof {
                let rest = tokenize_spec(s, self.pos as int, self.after_operand);
                match rest {
                    Ok(r) => {
                        assert(before + (seq![token@] + r) =~= before.push(token@) + r);
                    },
                    Err(_) => {},
                }
            }
        }
    }
}

/// A successful tokenization ends with `Eof`, its only `Eof`.
pub proof fn lemma_tokenize_ends_with_eof(s: Seq<char>, i: int, ao: bool)
    requires
        0 <= i <= s.len(),
    ensures
        tokenize_spec(s, i, ao) matches Ok(ts) ==> ts.len() > 0 && ts.last().kind is Eof,
    decreases s.len() - i,
{
    lemma_next_token_progress(s, i, ao);
    match next_token_spec(s, i, ao) {
        LexStep::Token(t, j) => {
            if !(t.kind is Eof) && i < j <= s.len() {
                lemma_tokenize_ends_with_eof(s, j, ends_operand(t.kind));
                match tokenize_spec(s, j, ends_operand(t.kind)) {
                    Ok(rest) => {
                        assert((seq![t] + rest).last() == rest.last());
                    },
                    Err(_) => {},
                }
            }
        },
        LexStep::Error(_) => {},
    }
}

/// `a@ == b@`, decided by comparing the two kinds.
pub fn kind_eq(a: &TokenKind, b: &TokenKind) -> (r: bool)
    ensures
        r == (a@ == b@),
{
    match (a, b) {
        (TokenKind::Number(x), TokenKind::Number(y)) => *x == *y,
        (TokenKind::Str(x), TokenKind::Str(y)) => *x == *y,
        (TokenKind::Regex(x), TokenKind::Regex(y)) => *x == *y,
        (TokenKind::Bool(x), TokenKind::Bool(y)) => *x == *y,
        (TokenKind::Null, TokenKind::Null) => true,
        (TokenKind::Ident(x), TokenKind::Ident(y)) => x.same_name(y),
        (TokenKind::Dot, TokenKind::Dot) => true,
        (TokenKind::LParen, TokenKind::LParen) => true,
        (TokenKind::RParen, TokenKind::RParen) => true,
        (TokenKind::LBracket, TokenKind::LBracket) => true,
        (TokenKind::RBracket, TokenKind::RBracket) => true,
        (TokenKind::Comma, TokenKind::Comma) => true,
        (TokenKind::Plus, TokenKind::Plus) => true,
        (TokenKind::Minus, TokenKind::Minus) => true,
        (TokenKind::Star, TokenKind::Star) => true,
        (TokenKind::Slash, TokenKind::Slash) => true,
        (TokenKind::Percent, TokenKind::Percent) => true,
        (TokenKind::EqEq, TokenKind::EqEq) => true,
        (TokenKind::BangEq, TokenKind::BangEq) => true,
        (TokenKind::Gt, TokenKind::Gt) => true,
        (TokenKind::Lt, TokenKind::Lt) => true,
        (TokenKind::GtEq, TokenKind::GtEq) => true,
        (TokenKind::LtEq, TokenKind::LtEq) => true,
        (TokenKind::AmpAmp, TokenKind::AmpAmp) => true,
        (TokenKind::PipePipe, TokenKind::PipePipe) => true,
        (TokenKind::Bang, TokenKind::Bang) => true,
        (TokenKind::Eof, TokenKind::Eof) => true,
        _ => false,
    }
}

} // verus!
