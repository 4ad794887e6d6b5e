//! Precedence-climbing parser for the expression language.
use vstd::prelude::*;

use crate::error::{is_parse_error, CrabaseError, ExprParseError, ExprParseErrorV};
use crate::expr::ast::{
    exprs_view, BinOp, Expr, ExprKind, ExprKindV, ExprV, Ident, Literal, LiteralV, Span, UnaryOp,
};
use crate::expr::lexer::{
    kind_eq, lemma_tokenize_ends_with_eof, lex, tokens_view, Lexer, Token, TokenKind, TokenKindV,
    TokenV,
};
use crate::text::utf8_len;

verus! {

// ---------- Specification of parsing ----------

/// The token the parser looks at: the one at `pos`, or the last one once
/// `pos` has run past the end.
pub open spec fn peek(ts: Seq<TokenV>, pos: int) -> TokenV {
    if pos < ts.len() {
        ts[pos]
    } else {
        ts[ts.len() - 1]
    }
}

/// Position after consuming one token (it never runs past the end).
pub open spec fn adv(ts: Seq<TokenV>, pos: int) -> int {
    if pos < ts.len() {
        pos + 1
    } else {
        pos
    }
}

/// Binary operators with their left and right binding powers.
pub open spec fn infix_bp(k: TokenKindV) -> Option<(BinOp, nat, nat)> {
    match k {
        TokenKindV::PipePipe => Some((BinOp::Or, 1, 2)),
        TokenKindV::AmpAmp => Some((BinOp::And, 3, 4)),
        TokenKindV::EqEq => Some((BinOp::Eq, 5, 6)),
        TokenKindV::BangEq => Some((BinOp::Ne, 5, 6)),
        TokenKindV::Gt => Some((BinOp::Gt, 5, 6)),
        TokenKindV::Lt => Some((BinOp::Lt, 5, 6)),
        TokenKindV::GtEq => Some((BinOp::Ge, 5, 6)),
        TokenKindV::LtEq => Some((BinOp::Le, 5, 6)),
        TokenKindV::Plus => Some((BinOp::Add, 7, 8)),
        TokenKindV::Minus => Some((BinOp::Sub, 7, 8)),
        TokenKindV::Star => Some((BinOp::Mul, 9, 10)),
        TokenKindV::Slash => Some((BinOp::Div, 9, 10)),
        TokenKindV::Percent => Some((BinOp::Mod, 9, 10)),
        _ => None,
    }
}

pub open spec fn min_nat(a: nat, b: nat) -> nat {
    if a <= b {
        a
    } else {
        b
    }
}

pub open spec fn max_nat(a: nat, b: nat) -> nat {
    if a >= b {
        a
    } else {
        b
    }
}

/// The span covering spans `a` and `b`.
pub open spec fn merge(a: (nat, nat), b: (nat, nat)) -> (nat, nat) {
    (min_nat(a.0, b.0), max_nat(a.1, b.1))
}

pub open spec fn tspan(t: TokenV) -> (nat, nat) {
    (t.start, t.end)
}

pub open spec fn espan(e: ExprV) -> (nat, nat) {
    (e.start, e.end)
}

pub open spec fn mk(k: ExprKindV, sp: (nat, nat)) -> ExprV {
    ExprV { kind: k, start: sp.0, end: sp.1 }
}

/// `sp` merged with the spans of all `items`, left to right.
pub open spec fn fold_spans(sp: (nat, nat), items: Seq<ExprV>) -> (nat, nat)
    decreases items.len(),
{
    if items.len() == 0 {
        sp
    } else {
        merge(fold_spans(sp, items.drop_last()), espan(items.last()))
    }
}

pub type PRes = Result<(ExprV, int), ExprParseErrorV>;

pub type LRes = Result<(Seq<ExprV>, int), ExprParseErrorV>;

/// Outcome of parsing one expression at `pos`.
pub open spec fn p_expr(ts: Seq<TokenV>, pos: int) -> PRes
    decreases ts.len() - pos, 4int,
{
    p_prec(ts, pos, 0)
}

/// An operand followed by binary operators whose left binding power is at
/// least `min_bp`.
pub open spec fn p_prec(ts: Seq<TokenV>, pos: int, min_bp: nat) -> PRes
    decreases ts.len() - pos, 3int,
{
    match p_prefix(ts, pos) {
        Err(e) => Err(e),
        Ok((left, p1)) => if pos < p1 <= ts.len() {
            p_infix(ts, left, p1, min_bp)
        } else {
            Ok((left, p1))
        },
    }
}

/// Continue after `left` with binary operators binding at least `min_bp`.
pub open spec fn p_infix(ts: Seq<TokenV>, left: ExprV, pos: int, min_bp: nat) -> PRes
    decreases ts.len() - pos, 0int,
{
    match infix_bp(peek(ts, pos).kind) {
        Some((op, lbp, rbp)) => if lbp >= min_bp && 0 <= pos < ts.len() - 1 {
            match p_prec(ts, pos + 1, rbp) {
                Err(e) => Err(e),
                Ok((right, p2)) => {
                    let e = mk(
                        ExprKindV::Binary(op, Box::new(left), Box::new(right)),
                        merge(espan(left), espan(right)),
                    );
                    if pos < p2 <= ts.len() {
                        p_infix(ts, e, p2, min_bp)
                    } else {
                        Ok((e, p2))
                    }
                },
            }
        } else {
            Ok((left, pos))
        },
        None => Ok((left, pos)),
    }
}

/// A unary `!`/`-` applied to an operand that binds tighter than any binary
/// operator, or a primary expression; either followed by postfix operators.
pub open spec fn p_prefix(ts: Seq<TokenV>, pos: int) -> PRes
    decreases ts.len() - pos, 2int,
{
    let t = peek(ts, pos);
    if t.kind is Bang || t.kind is Minus {
        if 0 <= pos < ts.len() - 1 {
            match p_prec(ts, pos + 1, 11) {
                Err(e) => Err(e),
                Ok((operand, p1)) => {
                    let op = if t.kind is Bang {
                        UnaryOp::Not
                    } else {
                        UnaryOp::Neg
                    };
                    let u = mk(
                        ExprKindV::Unary(op, Box::new(operand)),
                        merge(tspan(t), espan(operand)),
                    );
                    if pos < p1 <= ts.len() {
                        p_postfix(ts, u, p1)
                    } else {
                        Ok((u, p1))
                    }
                },
            }
        } else {
            Ok((mk(ExprKindV::Literal(LiteralV::Null), tspan(t)), pos))
        }
    } else {
        match p_primary(ts, pos) {
            Err(e) => Err(e),
            Ok((e, p1)) => if pos < p1 <= ts.len() {
                p_postfix(ts, e, p1)
            } else {
                Ok((e, p1))
            },
        }
    }
}

/// Calls `(...)`, member accesses `.name` and index accesses `[...]` after `cur`.
pub open spec fn p_postfix(ts: Seq<TokenV>, cur: ExprV, pos: int) -> PRes
    decreases ts.len() - pos, 0int,
{
    let t = peek(ts, pos);
    if t.kind is LParen && 0 <= pos < ts.len() - 1 {
        match p_args(ts, pos + 1) {
            Err(e) => Err(e),
            Ok((args, p2)) => {
                let c = peek(ts, p2);
                if c.kind is RParen {
                    let p3 = adv(ts, p2);
                    let call = mk(
                        ExprKindV::Call(Box::new(cur), args),
                        merge(merge(espan(cur), tspan(t)), tspan(c)),
                    );
                    if pos < p3 <= ts.len() {
                        p_postfix(ts, call, p3)
                    } else {
                        Ok((call, p3))
                    }
                } else {
                    Err(
                        ExprParseErrorV::ExpectedToken {
                            expected: TokenKindV::RParen,
                            pos: c.start,
                            found: c.kind,
                        },
                    )
                }
            },
        }
    } else if t.kind is Dot && 0 <= pos < ts.len() - 1 {
        let f = peek(ts, pos + 1);
        let p2 = adv(ts, pos + 1);
        match f.kind {
            TokenKindV::Ident(name) => {
                let m = mk(ExprKindV::Member(Box::new(cur), name), merge(espan(cur), tspan(f)));
                if pos < p2 <= ts.len() {
                    p_postfix(ts, m, p2)
                } else {
                    Ok((m, p2))
                }
            },
            _ => Err(ExprParseErrorV::ExpectedIdentifierAfterDot { pos: f.start, found: f.kind }),
        }
    } else if t.kind is LBracket && 0 <= pos < ts.len() - 1 {
        match p_expr(ts, pos + 1) {
            Err(e) => Err(e),
            Ok((idx, p2)) => {
                let c = peek(ts, p2);
                if c.kind is RBracket {
                    let p3 = adv(ts, p2);
                    let ix = mk(
                        ExprKindV::Index(Box::new(cur), Box::new(idx)),
                        merge(merge(merge(espan(cur), tspan(t)), espan(idx)), tspan(c)),
                    );
                    if pos < p3 <= ts.len() {
                        p_postfix(ts, ix, p3)
                    } else {
                        Ok((ix, p3))
                    }
                } else {
                    Err(
                        ExprParseErrorV::ExpectedToken {
                            expected: TokenKindV::RBracket,
                            pos: c.start,
                            found: c.kind,
                        },
                    )
                }
            },
        }
    } else {
        Ok((cur, pos))
    }
}

/// Call arguments up to (not including) the closing `)`.
pub open spec fn p_args(ts: Seq<TokenV>, pos: int) -> LRes
    decreases ts.len() - pos, 5int,
{
    if peek(ts, pos).kind is RParen {
        Ok((Seq::empty(), pos))
    } else {
        match p_expr(ts, pos) {
            Err(e) => Err(e),
            Ok((e, p1)) => if pos < p1 <= ts.len() {
                p_list_rest(ts, seq![e], p1)
            } else {
                Ok((seq![e], p1))
            },
        }
    }
}

/// Further `, expr` items after `items`.
pub open spec fn p_list_rest(ts: Seq<TokenV>, items: Seq<ExprV>, pos: int) -> LRes
    decreases ts.len() - pos, 0int,
{
    if peek(ts, pos).kind is Comma && 0 <= pos < ts.len() - 1 {
        match p_expr(ts, pos + 1) {
            Err(e) => Err(e),
            Ok((e, p2)) => if pos < p2 <= ts.len() {
                p_list_rest(ts, items.push(e), p2)
            } else {
                Ok((items.push(e), p2))
            },
        }
    } else {
        Ok((items, pos))
    }
}

pub open spec fn lit_at(t: TokenV, l: LiteralV, pos: int, ts: Seq<TokenV>) -> PRes {
    Ok((mk(ExprKindV::Literal(l), tspan(t)), adv(ts, pos)))
}

/// Literals, variables, parenthesized expressions and array literals.
pub open spec fn p_primary(ts: Seq<TokenV>, pos: int) -> PRes
    decreases ts.len() - pos, 1int,
{
    let t = peek(ts, pos);
    match t.kind {
        TokenKindV::Number(n) => lit_at(t, LiteralV::Number(n), pos, ts),
        TokenKindV::Str(s) => lit_at(t, LiteralV::Str(s), pos, ts),
        TokenKindV::Regex(s) => lit_at(t, LiteralV::Regex(s), pos, ts),
        TokenKindV::Bool(b) => lit_at(t, LiteralV::Bool(b), pos, ts),
        TokenKindV::Null => lit_at(t, LiteralV::Null, pos, ts),
        TokenKindV::Ident(name) => Ok((mk(ExprKindV::Variable(name), tspan(t)), adv(ts, pos))),
        TokenKindV::LParen => if 0 <= pos < ts.len() - 1 {
            match p_expr(ts, pos + 1) {
                Err(e) => Err(e),
                Ok((e, p1)) => {
                    let c = peek(ts, p1);
                    if c.kind is RParen {
                        Ok((mk(e.kind, merge(merge(tspan(t), espan(e)), tspan(c))), adv(ts, p1)))
                    } else {
                        Err(
                            ExprParseErrorV::ExpectedToken {
                                expected: TokenKindV::RParen,
                                pos: c.start,
                                found: c.kind,
                            },
                        )
                    }
                },
            }
        } else {
            Ok((mk(ExprKindV::Literal(LiteralV::Null), tspan(t)), pos))
        },
        TokenKindV::LBracket => if 0 <= pos < ts.len() - 1 {
            let p1 = pos + 1;
            if peek(ts, p1).kind is RBracket {
                Ok(
                    (
                        mk(ExprKindV::Array(Seq::empty()), merge(tspan(t), tspan(peek(ts, p1)))),
                        adv(ts, p1),
                    ),
                )
            } else {
                match p_expr(ts, p1) {
                    Err(e) => Err(e),
                    Ok((e, p2)) => {
                        let rest = if p1 < p2 <= ts.len() {
                            p_list_rest(ts, seq![e], p2)
                        } else {
                            Ok((seq![e], p2))
                        };
                        match rest {
                            Err(err) => Err(err),
                            Ok((items, p3)) => {
                                let c = peek(ts, p3);
                                if c.kind is RBracket {
                                    Ok(
                                        (
                                            mk(
                                                ExprKindV::Array(items),
                                                merge(fold_spans(tspan(t), items), tspan(c)),
                                            ),
                                            adv(ts, p3),
                                        ),
                                    )
                                } else {
                                    Err(
                                        ExprParseErrorV::ExpectedToken {
                                            expected: TokenKindV::RBracket,
                                            pos: c.start,
                                            found: c.kind,
                                        },
                                    )
                                }
                            },
                        }
                    },
                }
            }
        } else {
            Ok((mk(ExprKindV::Literal(LiteralV::Null), tspan(t)), pos))
        },
        _ => Err(ExprParseErrorV::UnexpectedToken { found: t.kind, pos: t.start }),
    }
}

/// A whole token sequence as one expression followed by `Eof`.
pub open spec fn parse_tokens(ts: Seq<TokenV>) -> Result<ExprV, ExprParseErrorV> {
    match p_expr(ts, 0) {
        Err(e) => Err(e),
        Ok((e, p)) => {
            let t = peek(ts, p);
            if t.kind is Eof {
                Ok(e)
            } else {
                Err(ExprParseErrorV::TrailingToken { found: t.kind, pos: t.start })
            }
        },
    }
}

/// An expression text, tokenized and parsed.
pub open spec fn parse_text(s: Seq<char>) -> Result<ExprV, ExprParseErrorV> {
    match lex(s) {
        Err(e) => Err(e),
        Ok(ts) => parse_tokens(ts),
    }
}

/// `r` and the position reached agree with the specified outcome `s`.
pub open spec fn pres(r: Result<Expr, CrabaseError>, p: int, s: PRes) -> bool {
    match s {
        Ok((e, q)) => r matches Ok(x) && x@ == e && p == q,
        Err(e) => is_parse_error(r, e),
    }
}

pub open spec fn lres(r: Result<Vec<Expr>, CrabaseError>, p: int, s: LRes) -> bool {
    match s {
        Ok((es, q)) => r matches Ok(v) && exprs_view(v@) == es && p == q,
        Err(e) => is_parse_error(r, e),
    }
}

proof fn lemma_exprs_view_push(v: Seq<Expr>, e: Expr)
    ensures
        exprs_view(v.push(e)) == exprs_view(v).push(e@),
{
    assert(v.push(e).drop_last() =~= v);
}

// ---------- The parser ----------

pub struct Parser {
    tokens: Vec<Token>,
    pos: usize,
}

fn infix_binding_power(k: &TokenKind) -> (r: Option<(BinOp, u8, u8)>)
    ensures
        match infix_bp(k@) {
            Some((op, l, rr)) => r == Some((op, l as u8, rr as u8)),
            None => r is None,
        },
{
    match k {
        TokenKind::PipePipe => Some((BinOp::Or, 1, 2)),
        TokenKind::AmpAmp => Some((BinOp::And, 3, 4)),
        TokenKind::EqEq => Some((BinOp::Eq, 5, 6)),
        TokenKind::BangEq => Some((BinOp::Ne, 5, 6)),
        TokenKind::Gt => Some((BinOp::Gt, 5, 6)),
        TokenKind::Lt => Some((BinOp::Lt, 5, 6)),
        TokenKind::GtEq => Some((BinOp::Ge, 5, 6)),
        TokenKind::LtEq => Some((BinOp::Le, 5, 6)),
        TokenKind::Plus => Some((BinOp::Add, 7, 8)),
        TokenKind::Minus => Some((BinOp::Sub, 7, 8)),
        TokenKind::Star => Some((BinOp::Mul, 9, 10)),
        TokenKind::Slash => Some((BinOp::Div, 9, 10)),
        TokenKind::Percent => Some((BinOp::Mod, 9, 10)),
        _ => None,
    }
}

impl Parser {
    pub closed spec fn tokens(&self) -> Seq<TokenV> {
        tokens_view(self.tokens@)
    }

    pub closed spec fn position(&self) -> int {
        self.pos as int
    }

    pub closed spec fn token_vec(&self) -> Seq<Token> {
        self.tokens@
    }

    /// Tokens left to read; every recursive step of the parser shrinks it.
    pub closed spec fn remaining(&self) -> int {
        self.tokens@.len() - self.pos
    }

    /// The token sequence is non-empty and ends with `Eof`.
    pub closed spec fn wf(&self) -> bool {
        &&& self.tokens@.len() > 0
        &&& self.tokens@.last().kind is Eof
        &&& self.pos <= self.tokens@.len()
    }

    pub fn new(tokens: Vec<Token>) -> (p: Parser)
        ensures
            p.tokens() == tokens_view(tokens@),
            p.position() == 0,
            p.wf() == (tokens@.len() > 0 && tokens@.last().kind is Eof),
    {
        Parser { tokens, pos: 0 }
    }

    fn peek(&self) -> (t: &Token)
        requires
            self.wf(),
        ensures
            t@ == peek(self.tokens(), self.pos as int),
    {
        let last_index = self.tokens.len() - 1;
        if self.pos < last_index {
            &self.tokens[self.pos]
        } else {
            &self.tokens[last_index]
        }
    }

    fn advance(&mut self) -> (t: Token)
        requires
            old(self).wf(),
        ensures
            final(self).wf(),
            final(self).tokens@ == old(self).tokens@,
            t@ == peek(old(self).tokens(), old(self).pos as int),
            final(self).pos == adv(old(self).tokens(), old(self).pos as int),
    {
        let token = self.peek().clone();
        if self.pos < self.tokens.len() {
            self.pos += 1;
        }
        token
    }

    fn expect(&mut self, expected: TokenKind) -> (r: Result<Token, CrabaseError>)
        requires
            old(self).wf(),
        ensures
            final(self).wf(),
            final(self).tokens@ == old(self).tokens@,
            final(self).pos == adv(old(self).tokens(), old(self).pos as int),
            ({
                let t = peek(old(self).tokens(), old(self).pos as int);
                if t.kind == expected@ {
                    r matches Ok(tok) && tok@ == t
                } else {
                    is_parse_error(
                        r,
                        ExprParseErrorV::ExpectedToken {
                            expected: expected@,
                            pos: t.start,
                            found: t.kind,
                        },
                    )
                }
            }),
    {
        let token = self.advance();
        if kind_eq(&token.kind, &expected) {
            Ok(token)
        } else {
            Err(
                CrabaseError::ExprParse(
                    ExprParseError::ExpectedToken {
                        expected,
                        pos: token.span.start,
                        found: token.kind,
                    },
                ),
            )
        }
    }

    pub fn parse_expr(&mut self) -> (r: Result<Expr, CrabaseError>)
        requires
            old(self).wf(),
        ensures
            final(self).wf(),
            final(self).token_vec() == old(self).token_vec(),
            pres(r, final(self).position(), p_expr(old(self).tokens(), old(self).position())),
            r is Ok ==> old(self).position() < final(self).position(),
        decreases old(self).remaining(), 4int,
    {
        self.parse_precedence(0)
    }

    fn parse_precedence(&mut self, min_bp: u8) -> (r: Result<Expr, CrabaseError>)
        requires
            old(self).wf(),
        ensures
            final(self).wf(),
            final(self).tokens@ == old(self).tokens@,
            pres(r, final(self).pos as int, p_prec(old(self).tokens(), old(self).pos as int, min_bp as nat)),
            r is Ok ==> old(self).pos < final(self).pos,
        decreases old(self).tokens@.len() - old(self).pos, 3int,
    {
        let ghost ts = self.tokens();
        let ghost p0 = self.pos as int;
        let mut left = match self.parse_prefix() {
            Ok(e) => e,
            Err(e) => {
                return Err(e);
            },
        };
        loop
            invariant
                self.wf(),
                self.tokens@ == old(self).tokens@,
                ts == self.tokens(),
                p0 == old(self).pos,
                p0 < self.pos,
                p_prec(ts, p0, min_bp as nat) == p_infix(ts, left@, self.pos as int, min_bp as nat),
            decreases self.tokens@.len() - self.pos,
        {
            let info = infix_binding_power(&self.peek().kind);
            let (op, lbp, rbp) = match info {
                Some(x) => x,
                None => {
                    return Ok(left);
                },
            };
            if lbp < min_bp {
                return Ok(left);
            }
            let ghost at = self.pos as int;
            let _ = self.advance();
            let right = match self.parse_precedence(rbp) {
                Ok(e) => e,
                Err(e) => {
                    return Err(e);
                },
            };
            let span = left.span.merge(right.span);
            left = Expr::new(ExprKind::Binary { op, left: Box::new(left), right: Box::new(right) }, span);
        }
    }

    fn parse_prefix(&mut self) -> (r: Result<Expr, CrabaseError>)
        requires
            old(self).wf(),
        ensures
            final(self).wf(),
            final(self).tokens@ == old(self).tokens@,
            pres(r, final(self).pos as int, p_prefix(old(self).tokens(), old(self).pos as int)),
            r is Ok ==> old(self).pos < final(self).pos,
        decreases old(self).tokens@.len() - old(self).pos, 2int,
    {
        let tag: u8 = match &self.peek().kind {
            TokenKind::Bang => 1,
            TokenKind::Minus => 2,
            _ => 0,
        };
        let expr = if tag != 0 {
            let operator = self.advance();
            let operand = match self.parse_precedence(11) {
                Ok(e) => e,
                Err(e) => {
                    return Err(e);
                },
            };
            let span = operator.span.merge(operand.span);
            let op = if tag == 1 {
                UnaryOp::Not
            } else {
                UnaryOp::Neg
            };
            Expr::new(ExprKind::Unary { op, operand: Box::new(operand) }, span)
        } else {
            match self.parse_primary() {
                Ok(e) => e,
                Err(e) => {
                    return Err(e);
                },
            }
        };
        self.parse_postfix(expr)
    }

    fn parse_postfix(&mut self, expr: Expr) -> (r: Result<Expr, CrabaseError>)
        requires
            old(self).wf(),
        ensures
            final(self).wf(),
            final(self).tokens@ == old(self).tokens@,
            pres(r, final(self).pos as int, p_postfix(old(self).tokens(), expr@, old(self).pos as int)),
            r is Ok ==> old(self).pos <= final(self).pos,
        decreases old(self).tokens@.len() - old(self).pos, 0int,
    {
        let ghost ts = self.tokens();
        let ghost p0 = self.pos as int;
        let mut current = expr;
        loop
            invariant
                self.wf(),
                self.tokens@ == old(self).tokens@,
                ts == self.tokens(),
                p0 == old(self).pos,
                p0 <= self.pos,
                p_postfix(ts, expr@, p0) == p_postfix(ts, current@, self.pos as int),
            decreases self.tokens@.len() - self.pos,
        {
            let tag: u8 = match &self.peek().kind {
                TokenKind::LParen => 1,
                TokenKind::Dot => 2,
                TokenKind::LBracket => 3,
                _ => 0,
            };
            if tag == 1 {
                let open = self.advance();
                let args = match self.parse_args() {
                    Ok(a) => a,
                    Err(e) => {
                        return Err(e);
                    },
                };
                let close = match self.expect(TokenKind::RParen) {
                    Ok(t) => t,
                    Err(e) => {
                        return Err(e);
                    },
                };
                let span = current.span.merge(open.span).merge(close.span);
                current = Expr::new(ExprKind::Call { callee: Box::new(current), args }, span);
            } else if tag == 2 {
                let _dot = self.advance();
                let (field, fspan) = match self.parse_identifier() {
                    Ok(x) => x,
                    Err(e) => {
                        return Err(e);
                    },
                };
                let span = current.span.merge(fspan);
                current = Expr::new(ExprKind::Member { object: Box::new(current), field }, span);
            } else if tag == 3 {
                let open = self.advance();
                let index = match self.parse_expr() {
                    Ok(e) => e,
                    Err(e) => {
                        return Err(e);
                    },
                };
                let close = match self.expect(TokenKind::RBracket) {
                    Ok(t) => t,
                    Err(e) => {
                        return Err(e);
                    },
                };
                let span = current.span.merge(open.span).merge(index.span).merge(close.span);
                current = Expr::new(
                    ExprKind::Index { object: Box::new(current), index: Box::new(index) },
                    span,
                );
            } else {
                return Ok(current);
            }
        }
    }

    fn parse_identifier(&mut self) -> (r: Result<(Ident, Span), CrabaseError>)
        requires
            old(self).wf(),
        ensures
            final(self).wf(),
            final(self).tokens@ == old(self).tokens@,
            final(self).pos == adv(old(self).tokens(), old(self).pos as int),
            ({
                let t = peek(old(self).tokens(), old(self).pos as int);
                match t.kind {
                    TokenKindV::Ident(name) => r matches Ok((id, sp)) && id@ == name && sp.start
                        == t.start && sp.end == t.end,
                    _ => is_parse_error(
                        r,
                        ExprParseErrorV::ExpectedIdentifierAfterDot { pos: t.start, found: t.kind },
                    ),
                }
            }),
    {
        let token = self.advance();
        let span = token.span;
        match token.kind {
            TokenKind::Ident(name) => Ok((name, span)),
            other => Err(
                CrabaseError::ExprParse(
                    ExprParseError::ExpectedIdentifierAfterDot { pos: span.start, found: other },
                ),
            ),
        }
    }

    fn parse_args(&mut self) -> (r: Result<Vec<Expr>, CrabaseError>)
        requires
            old(self).wf(),
        ensures
            final(self).wf(),
            final(self).tokens@ == old(self).tokens@,
            lres(r, final(self).pos as int, p_args(old(self).tokens(), old(self).pos as int)),
            r is Ok ==> old(self).pos <= final(self).pos,
        decreases old(self).tokens@.len() - old(self).pos, 5int,
    {
        let is_close = match &self.peek().kind {
            TokenKind::RParen => true,
            _ => false,
        };
        if is_close {
            return Ok(Vec::new());
        }
        let first = match self.parse_expr() {
            Ok(e) => e,
            Err(e) => {
                return Err(e);
            },
        };
        let mut args: Vec<Expr> = Vec::new();
        args.push(first);
        proof {
            lemma_exprs_view_push(Seq::empty(), first);
            assert(Seq::<Expr>::empty().push(first) =~= args@);
            assert(exprs_view(Seq::<Expr>::empty()) =~= Seq::<ExprV>::empty());
            assert(Seq::<ExprV>::empty().push(first@) =~= seq![first@]);
        }
        self.parse_list_rest(args)
    }

    /// Parse `, expr` items after `items`, appending them.
    fn parse_list_rest(&mut self, init: Vec<Expr>) -> (r: Result<Vec<Expr>, CrabaseError>)
        requires
            old(self).wf(),
        ensures
            final(self).wf(),
            final(self).tokens@ == old(self).tokens@,
            lres(
                r,
                final(self).pos as int,
                p_list_rest(old(self).tokens(), exprs_view(init@), old(self).pos as int),
            ),
            r is Ok ==> old(self).pos <= final(self).pos,
        decreases old(self).tokens@.len() - old(self).pos, 0int,
    {
        let ghost ts = self.tokens();
        let ghost p0 = self.pos as int;
        let ghost items0 = exprs_view(init@);
        let mut items = init;
        loop
            invariant
                self.wf(),
                self.tokens@ == old(self).tokens@,
                ts == self.tokens(),
                p0 == old(self).pos,
                p0 <= self.pos,
                items0 == exprs_view(init@),
                p_list_rest(ts, items0, p0) == p_list_rest(ts, exprs_view(items@), self.pos as int),
            decreases self.tokens@.len() - self.pos,
        {
            let is_comma = match &self.peek().kind {
                TokenKind::Comma => true,
                _ => false,
            };
            if !is_comma {
                return Ok(items);
            }
            let _ = self.advance();
            let e = match self.parse_expr() {
                Ok(e) => e,
                Err(err) => {
                    return Err(err);
                },
            };
            proof {
                lemma_exprs_view_push(items@, e);
            }
            items.push(e);
        }
    }

    fn parse_paren(&mut self) -> (r: Result<Expr, CrabaseError>)
        requires
            old(self).wf(),
            peek(old(self).tokens(), old(self).pos as int).kind is LParen,
        ensures
            final(self).wf(),
            final(self).tokens@ == old(self).tokens@,
            pres(r, final(self).pos as int, p_primary(old(self).tokens(), old(self).pos as int)),
            r is Ok ==> old(self).pos < final(self).pos,
        decreases old(self).tokens@.len() - old(self).pos, 0int,
    {
                let open = self.advance();
                let expr = match self.parse_expr() {
                    Ok(e) => e,
                    Err(e) => {
                        return Err(e);
                    },
                };
                let close = match self.expect(TokenKind::RParen) {
                    Ok(t) => t,
                    Err(e) => {
                        return Err(e);
                    },
                };
                let sp = open.span.merge(expr.span).merge(close.span);
                Ok(Expr::new(expr.kind, sp))
                }

    fn parse_array(&mut self) -> (r: Result<Expr, CrabaseError>)
        requires
            old(self).wf(),
            peek(old(self).tokens(), old(self).pos as int).kind is LBracket,
        ensures
            final(self).wf(),
            final(self).tokens@ == old(self).tokens@,
            pres(r, final(self).pos as int, p_primary(old(self).tokens(), old(self).pos as int)),
            r is Ok ==> old(self).pos < final(self).pos,
        decreases old(self).tokens@.len() - old(self).pos, 0int,
    {
                let open = self.advance();
                let is_close = match &self.peek().kind {
                    TokenKind::RBracket => true,
                    _ => false,
                };
                if is_close {
                    let close = self.advance();
                    let empty: Vec<Expr> = Vec::new();
                    proof {
                        assert(exprs_view(empty@) =~= Seq::<ExprV>::empty());
                    }
                    return Ok(Expr::new(ExprKind::Array(empty), open.span.merge(close.span)));
                }
                let first = match self.parse_expr() {
                    Ok(e) => e,
                    Err(e) => {
                        return Err(e);
                    },
                };
                let mut items: Vec<Expr> = Vec::new();
                items.push(first);
                proof {
                    lemma_exprs_view_push(Seq::empty(), first);
                    assert(Seq::<Expr>::empty().push(first) =~= items@);
                    assert(exprs_view(Seq::<Expr>::empty()) =~= Seq::<ExprV>::empty());
                    assert(Seq::<ExprV>::empty().push(first@) =~= seq![first@]);
                }
                let items = match self.parse_list_rest(items) {
                    Ok(v) => v,
                    Err(e) => {
                        return Err(e);
                    },
                };
                let close = match self.expect(TokenKind::RBracket) {
                    Ok(t) => t,
                    Err(e) => {
                        return Err(e);
                    },
                };
                let mut sp = open.span;
                let mut k: usize = 0;
                while k < items.len()
                    invariant
                        k <= items@.len(),
                        (sp.start as nat, sp.end as nat) == fold_spans(
                            tspan(open@),
                            exprs_view(items@.take(k as int)),
                        ),
                    decreases items@.len() - k,
                {
                    proof {
                        let pre = exprs_view(items@.take(k as int));
                        lemma_exprs_view_push(items@.take(k as int), items@[k as int]);
                        assert(items@.take(k + 1) =~= items@.take(k as int).push(items@[k as int]));
                        assert(pre.push(items@[k as int]@).drop_last() =~= pre);
                    }
                    sp = sp.merge(items[k].span);
                    k += 1;
                }
                proof {
                    assert(items@.take(items@.len() as int) =~= items@);
                }
                Ok(Expr::new(ExprKind::Array(items), sp.merge(close.span)))
                }

    fn parse_primary(&mut self) -> (r: Result<Expr, CrabaseError>)
        requires
            old(self).wf(),
        ensures
            final(self).wf(),
            final(self).tokens@ == old(self).tokens@,
            pres(r, final(self).pos as int, p_primary(old(self).tokens(), old(self).pos as int)),
            r is Ok ==> old(self).pos < final(self).pos,
        decreases old(self).tokens@.len() - old(self).pos, 1int,
    {
        let token = self.peek().clone();
        let span = token.span;
        match token.kind {
            TokenKind::Number(n) => {
                let t = self.advance();
                Ok(Expr::new(ExprKind::Literal(Literal::Number(n)), t.span))
            },
            TokenKind::Str(s) => {
                let t = self.advance();
                Ok(Expr::new(ExprKind::Literal(Literal::Str(s)), t.span))
            },
            TokenKind::Regex(s) => {
                let t = self.advance();
                Ok(Expr::new(ExprKind::Literal(Literal::Regex(s)), t.span))
            },
            TokenKind::Bool(b) => {
                let t = self.advance();
                Ok(Expr::new(ExprKind::Literal(Literal::Bool(b)), t.span))
            },
            TokenKind::Null => {
                let t = self.advance();
                Ok(Expr::new(ExprKind::Literal(Literal::Null), t.span))
            },
            TokenKind::Ident(name) => {
                let t = self.advance();
                Ok(Expr::new(ExprKind::Variable(name), t.span))
            },
            TokenKind::LParen => self.parse_paren(),
            TokenKind::LBracket => self.parse_array(),
            other => Err(
                CrabaseError::ExprParse(
                    ExprParseError::UnexpectedToken { found: other, pos: span.start },
                ),
            ),
        }
    }
}

/// Tokenize and parse a whole expression text.
pub fn parse(input: &str) -> (r: Result<Expr, CrabaseError>)
    ensures
        match parse_text(input@) {
            Ok(e) => r matches Ok(x) && x@ == e,
            Err(e) => is_parse_error(r, e),
        },
{
    let mut lexer = Lexer::new(input);
    let tokens = match lexer.tokenize() {
        Ok(t) => t,
        Err(e) => {
            return Err(e);
        },
    };
    proof {
        lemma_tokenize_ends_with_eof(input@, 0, false);
        assert(tokens@.len() == tokens_view(tokens@).len());
        assert(tokens_view(tokens@).last() == tokens@.last()@);
    }
    let mut parser = Parser::new(tokens);
    let expr = match parser.parse_expr() {
        Ok(e) => e,
        Err(e) => {
            return Err(e);
        },
    };
    let t = parser.peek();
    match &t.kind {
        TokenKind::Eof => Ok(expr),
        other => Err(
            CrabaseError::ExprParse(
                ExprParseError::TrailingToken { found: other.clone(), pos: t.span.start },
            ),
        ),
    }
}

// ---------- Laws ----------

/// Tokens that stand alone as an operand: literals and identifiers.
pub open spec fn is_atom(k: TokenKindV) -> bool {
    k is Number || k is Str || k is Regex || k is Bool || k is Null || k is Ident
}

/// The expression an atom token parses to.
pub open spec fn atom_kind(k: TokenKindV) -> ExprKindV {
    match k {
        TokenKindV::Number(n) => ExprKindV::Literal(LiteralV::Number(n)),
        TokenKindV::Str(s) => ExprKindV::Literal(LiteralV::Str(s)),
        TokenKindV::Regex(s) => ExprKindV::Literal(LiteralV::Regex(s)),
        TokenKindV::Bool(b) => ExprKindV::Literal(LiteralV::Bool(b)),
        TokenKindV::Null => ExprKindV::Literal(LiteralV::Null),
        TokenKindV::Ident(n) => ExprKindV::Variable(n),
        _ => ExprKindV::Literal(LiteralV::Null),
    }
}

/// Operator grouping: in `a op1 b op2 c` with atoms `a`, `b`, `c`, the second
/// operator groups with `b` when its left binding power reaches the first
/// operator's right binding power (`*` after `+`), and otherwise the first
/// operation becomes its left operand (`-` after `-`: left associativity).
pub proof fn law_binary_grouping(a: TokenV, o1: TokenV, b: TokenV, o2: TokenV, c: TokenV, eof: TokenV)
    requires
        is_atom(a.kind),
        is_atom(b.kind),
        is_atom(c.kind),
        infix_bp(o1.kind) is Some,
        infix_bp(o2.kind) is Some,
        eof.kind is Eof,
    ensures
        ({
            let (op1, l1, r1) = infix_bp(o1.kind)->0;
            let (op2, l2, r2) = infix_bp(o2.kind)->0;
            parse_tokens(seq![a, o1, b, o2, c, eof]) matches Ok(e) && e.kind matches ExprKindV::Binary(
                top,
                x,
                y,
            ) && if l2 >= r1 {
                &&& top == op1
                &&& x.kind == atom_kind(a.kind)
                &&& y.kind matches ExprKindV::Binary(inner, yl, yr) && inner == op2 && yl.kind
                    == atom_kind(b.kind) && yr.kind == atom_kind(c.kind)
            } else {
                &&& top == op2
                &&& y.kind == atom_kind(c.kind)
                &&& x.kind matches ExprKindV::Binary(inner, xl, xr) && inner == op1 && xl.kind
                    == atom_kind(a.kind) && xr.kind == atom_kind(b.kind)
            }
        }),
{
    let ts = seq![a, o1, b, o2, c, eof];
    let (op1, l1, r1) = infix_bp(o1.kind)->0;
    let (op2, l2, r2) = infix_bp(o2.kind)->0;
    assert(peek(ts, 0) == a);
    assert(peek(ts, 1) == o1);
    assert(peek(ts, 2) == b);
    assert(peek(ts, 3) == o2);
    assert(peek(ts, 4) == c);
    assert(peek(ts, 5) == eof);
    let ea = mk(atom_kind(a.kind), tspan(a));
    let eb = mk(atom_kind(b.kind), tspan(b));
    let ec = mk(atom_kind(c.kind), tspan(c));
    // the three operands
    assert(p_primary(ts, 0) == Ok::<(ExprV, int), ExprParseErrorV>((ea, 1int)));
    assert(p_postfix(ts, ea, 1) == Ok::<(ExprV, int), ExprParseErrorV>((ea, 1int)));
    assert(p_prefix(ts, 0) == Ok::<(ExprV, int), ExprParseErrorV>((ea, 1int)));
    assert(p_primary(ts, 2) == Ok::<(ExprV, int), ExprParseErrorV>((eb, 3int)));
    assert(p_postfix(ts, eb, 3) == Ok::<(ExprV, int), ExprParseErrorV>((eb, 3int)));
    assert(p_prefix(ts, 2) == Ok::<(ExprV, int), ExprParseErrorV>((eb, 3int)));
    assert(p_primary(ts, 4) == Ok::<(ExprV, int), ExprParseErrorV>((ec, 5int)));
    assert(p_postfix(ts, ec, 5) == Ok::<(ExprV, int), ExprParseErrorV>((ec, 5int)));
    assert(p_prefix(ts, 4) == Ok::<(ExprV, int), ExprParseErrorV>((ec, 5int)));
    // `c` followed by end of input
    assert(p_infix(ts, ec, 5, r2) == Ok::<(ExprV, int), ExprParseErrorV>((ec, 5int)));
    assert(p_prec(ts, 4, r2) == Ok::<(ExprV, int), ExprParseErrorV>((ec, 5int)));
    if l2 >= r1 {
        let bc = mk(ExprKindV::Binary(op2, Box::new(eb), Box::new(ec)), merge(espan(eb), espan(ec)));
        assert(p_infix(ts, bc, 5, r1) == Ok::<(ExprV, int), ExprParseErrorV>((bc, 5int)));
        assert(p_infix(ts, eb, 3, r1) == Ok::<(ExprV, int), ExprParseErrorV>((bc, 5int)));
        assert(p_prec(ts, 2, r1) == Ok::<(ExprV, int), ExprParseErrorV>((bc, 5int)));
        let abc = mk(ExprKindV::Binary(op1, Box::new(ea), Box::new(bc)), merge(espan(ea), espan(bc)));
        assert(p_infix(ts, abc, 5, 0) == Ok::<(ExprV, int), ExprParseErrorV>((abc, 5int)));
        assert(p_infix(ts, ea, 1, 0) == Ok::<(ExprV, int), ExprParseErrorV>((abc, 5int)));
        assert(p_prec(ts, 0, 0) == Ok::<(ExprV, int), ExprParseErrorV>((abc, 5int)));
        assert(p_expr(ts, 0) == Ok::<(ExprV, int), ExprParseErrorV>((abc, 5int)));
    } else {
        assert(p_infix(ts, eb, 3, r1) == Ok::<(ExprV, int), ExprParseErrorV>((eb, 3int)));
        assert(p_prec(ts, 2, r1) == Ok::<(ExprV, int), ExprParseErrorV>((eb, 3int)));
        let ab = mk(ExprKindV::Binary(op1, Box::new(ea), Box::new(eb)), merge(espan(ea), espan(eb)));
        assert(p_infix(ts, ec, 5, 0) == Ok::<(ExprV, int), ExprParseErrorV>((ec, 5int)));
        assert(p_prec(ts, 4, r2) == Ok::<(ExprV, int), ExprParseErrorV>((ec, 5int)));
        let abc = mk(ExprKindV::Binary(op2, Box::new(ab), Box::new(ec)), merge(espan(ab), espan(ec)));
        assert(p_infix(ts, abc, 5, 0) == Ok::<(ExprV, int), ExprParseErrorV>((abc, 5int)));
        assert(p_infix(ts, ab, 3, 0) == Ok::<(ExprV, int), ExprParseErrorV>((abc, 5int)));
        assert(p_infix(ts, ea, 1, 0) == Ok::<(ExprV, int), ExprParseErrorV>((abc, 5int)));
        assert(p_prec(ts, 0, 0) == Ok::<(ExprV, int), ExprParseErrorV>((abc, 5int)));
        assert(p_expr(ts, 0) == Ok::<(ExprV, int), ExprParseErrorV>((abc, 5int)));
    }
}


// ---------- Numerals ----------

/// A run of one or more ASCII digits.
pub open spec fn digit_run(n: Seq<char>) -> bool {
    n.len() > 0 && forall|i: int| 0 <= i < n.len() ==> crate::text::is_digit(#[trigger] n[i])
}

/// An integer as `format!` writes it: digits, or `-` followed by digits.
pub open spec fn is_numeral(n: Seq<char>) -> bool {
    digit_run(n) || (n.len() > 1 && n[0] == '-' && digit_run(n.drop_first()))
}

pub open spec fn negative(n: Seq<char>) -> bool {
    n.len() > 0 && n[0] == '-'
}

/// What a numeral parses to: a number literal, or the negation of one.
pub open spec fn numeral_expr(e: ExprV, n: Seq<char>) -> bool {
    if negative(n) {
        e.kind matches ExprKindV::Unary(op, x) && op == UnaryOp::Neg && x.kind == ExprKindV::Literal(
            LiteralV::Number(n.drop_first()),
        )
    } else {
        e.kind == ExprKindV::Literal(LiteralV::Number(n))
    }
}

/// Number of tokens of a numeral.
pub open spec fn numeral_width(n: Seq<char>) -> int {
    if negative(n) {
        2
    } else {
        1
    }
}

/// The tokens of numeral `n` start at `pos`.
pub open spec fn numeral_at(ts: Seq<TokenV>, pos: int, n: Seq<char>) -> bool {
    if negative(n) {
        ts[pos].kind is Minus && ts[pos + 1].kind == TokenKindV::Number(n.drop_first())
    } else {
        ts[pos].kind == TokenKindV::Number(n)
    }
}

/// Tokens that may follow an operand here: `+`, `-`, `*` or the end.
pub open spec fn after_operand_kind(k: TokenKindV) -> bool {
    k is Plus || k is Minus || k is Star || k is Eof
}

proof fn lemma_number_operand(ts: Seq<TokenV>, pos: int, d: Seq<char>) -> (r: (ExprV, int))
    requires
        0 <= pos,
        pos + 1 < ts.len(),
        ts[pos].kind == TokenKindV::Number(d),
        after_operand_kind(ts[pos + 1].kind),
    ensures
        p_prefix(ts, pos) == Ok::<(ExprV, int), ExprParseErrorV>(r),
        r.1 == pos + 1,
        r.0.kind == ExprKindV::Literal(LiteralV::Number(d)),
{
    let e = mk(ExprKindV::Literal(LiteralV::Number(d)), tspan(ts[pos]));
    assert(peek(ts, pos) == ts[pos]);
    assert(peek(ts, pos + 1) == ts[pos + 1]);
    assert(p_primary(ts, pos) == Ok::<(ExprV, int), ExprParseErrorV>((e, pos + 1)));
    assert(p_postfix(ts, e, pos + 1) == Ok::<(ExprV, int), ExprParseErrorV>((e, pos + 1)));
    (e, pos + 1)
}

proof fn lemma_numeral_operand(ts: Seq<TokenV>, pos: int, n: Seq<char>) -> (r: (ExprV, int))
    requires
        is_numeral(n),
        0 <= pos,
        pos + numeral_width(n) < ts.len(),
        numeral_at(ts, pos, n),
        after_operand_kind(ts[pos + numeral_width(n)].kind),
    ensures
        p_prefix(ts, pos) == Ok::<(ExprV, int), ExprParseErrorV>(r),
        r.1 == pos + numeral_width(n),
        numeral_expr(r.0, n),
{
    if negative(n) {
        let (x, p1) = lemma_number_operand(ts, pos + 1, n.drop_first());
        assert(peek(ts, pos + 2) == ts[pos + 2]);
        assert(p_infix(ts, x, pos + 2, 11) == Ok::<(ExprV, int), ExprParseErrorV>((x, pos + 2)));
        assert(p_prec(ts, pos + 1, 11) == Ok::<(ExprV, int), ExprParseErrorV>((x, pos + 2)));
        assert(peek(ts, pos) == ts[pos]);
        let t = ts[pos];
        let u = mk(ExprKindV::Unary(UnaryOp::Neg, Box::new(x)), merge(tspan(t), espan(x)));
        assert(p_postfix(ts, u, pos + 2) == Ok::<(ExprV, int), ExprParseErrorV>((u, pos + 2)));
        assert(p_prefix(ts, pos) == Ok::<(ExprV, int), ExprParseErrorV>((u, pos + 2)));
        (u, pos + 2)
    } else {
        lemma_number_operand(ts, pos, n)
    }
}

/// Grouping of `a o1 b o2 c` over numerals, as tokens.
proof fn lemma_numeral_grouping(ts: Seq<TokenV>, a: Seq<char>, b: Seq<char>, c: Seq<char>)
    requires
        is_numeral(a),
        is_numeral(b),
        is_numeral(c),
        ts.len() == numeral_width(a) + numeral_width(b) + numeral_width(c) + 3,
        numeral_at(ts, 0, a),
        infix_bp(ts[numeral_width(a)].kind) is Some,
        after_operand_kind(ts[numeral_width(a)].kind),
        numeral_at(ts, numeral_width(a) + 1, b),
        infix_bp(ts[numeral_width(a) + 1 + numeral_width(b)].kind) is Some,
        after_operand_kind(ts[numeral_width(a) + 1 + numeral_width(b)].kind),
        numeral_at(ts, numeral_width(a) + numeral_width(b) + 2, c),
        ts.last().kind is Eof,
    ensures
        ({
            let (op1, l1, r1) = infix_bp(ts[numeral_width(a)].kind)->0;
            let (op2, l2, r2) = infix_bp(ts[numeral_width(a) + 1 + numeral_width(b)].kind)->0;
            parse_tokens(ts) matches Ok(e) && e.kind matches ExprKindV::Binary(top, x, y) && if l2 >= r1 {
                &&& top == op1
                &&& numeral_expr(*x, a)
                &&& y.kind matches ExprKindV::Binary(inner, yl, yr) && inner == op2 && numeral_expr(*yl, b)
                    && numeral_expr(*yr, c)
            } else {
                &&& top == op2
                &&& numeral_expr(*y, c)
                &&& x.kind matches ExprKindV::Binary(inner, xl, xr) && inner == op1 && numeral_expr(*xl, a)
                    && numeral_expr(*xr, b)
            }
        }),
{
    let wa = numeral_width(a);
    let wb = numeral_width(b);
    let wc = numeral_width(c);
    let q1 = wa;
    let pb = wa + 1;
    let q2 = pb + wb;
    let pc = q2 + 1;
    let end = pc + wc;
    assert(end == ts.len() - 1);
    let (op1, l1, r1) = infix_bp(ts[q1].kind)->0;
    let (op2, l2, r2) = infix_bp(ts[q2].kind)->0;
    assert(peek(ts, q1) == ts[q1]);
    assert(peek(ts, q2) == ts[q2]);
    assert(peek(ts, end) == ts[end]);
    let (ea, _) = lemma_numeral_operand(ts, 0, a);
    let (eb, _) = lemma_numeral_operand(ts, pb, b);
    let (ec, _) = lemma_numeral_operand(ts, pc, c);
    assert(p_infix(ts, ec, end, r2) == Ok::<(ExprV, int), ExprParseErrorV>((ec, end)));
    assert(p_prec(ts, pc, r2) == Ok::<(ExprV, int), ExprParseErrorV>((ec, end)));
    if l2 >= r1 {
        let bc = mk(ExprKindV::Binary(op2, Box::new(eb), Box::new(ec)), merge(espan(eb), espan(ec)));
        assert(p_infix(ts, bc, end, r1) == Ok::<(ExprV, int), ExprParseErrorV>((bc, end)));
        assert(p_infix(ts, eb, q2, r1) == Ok::<(ExprV, int), ExprParseErrorV>((bc, end)));
        assert(p_prec(ts, pb, r1) == Ok::<(ExprV, int), ExprParseErrorV>((bc, end)));
        let abc = mk(ExprKindV::Binary(op1, Box::new(ea), Box::new(bc)), merge(espan(ea), espan(bc)));
        assert(p_infix(ts, abc, end, 0) == Ok::<(ExprV, int), ExprParseErrorV>((abc, end)));
        assert(p_infix(ts, ea, q1, 0) == Ok::<(ExprV, int), ExprParseErrorV>((abc, end)));
        assert(p_prec(ts, 0, 0) == Ok::<(ExprV, int), ExprParseErrorV>((abc, end)));
        assert(p_expr(ts, 0) == Ok::<(ExprV, int), ExprParseErrorV>((abc, end)));
    } else {
        assert(p_infix(ts, eb, q2, r1) == Ok::<(ExprV, int), ExprParseErrorV>((eb, q2)));
        assert(p_prec(ts, pb, r1) == Ok::<(ExprV, int), ExprParseErrorV>((eb, q2)));
        let ab = mk(ExprKindV::Binary(op1, Box::new(ea), Box::new(eb)), merge(espan(ea), espan(eb)));
        assert(p_infix(ts, ec, end, 0) == Ok::<(ExprV, int), ExprParseErrorV>((ec, end)));
        let abc = mk(ExprKindV::Binary(op2, Box::new(ab), Box::new(ec)), merge(espan(ab), espan(ec)));
        assert(p_infix(ts, abc, end, 0) == Ok::<(ExprV, int), ExprParseErrorV>((abc, end)));
        assert(p_infix(ts, ab, q2, 0) == Ok::<(ExprV, int), ExprParseErrorV>((abc, end)));
        assert(p_infix(ts, ea, q1, 0) == Ok::<(ExprV, int), ExprParseErrorV>((abc, end)));
        assert(p_prec(ts, 0, 0) == Ok::<(ExprV, int), ExprParseErrorV>((abc, end)));
        assert(p_expr(ts, 0) == Ok::<(ExprV, int), ExprParseErrorV>((abc, end)));
    }
}

// ---------- Lexing numerals and operators ----------

proof fn lemma_digits_end(s: Seq<char>, k: int, e: int)
    requires
        0 <= k <= e <= s.len(),
        forall|i: int| k <= i < e ==> crate::text::is_digit(#[trigger] s[i]),
        e == s.len() || !crate::text::is_digit(s[e]),
    ensures
        crate::expr::lexer::digits_end(s, k) == e,
    decreases e - k,
{
    if k < e {
        lemma_digits_end(s, k + 1, e);
    }
}

/// The tokens of numeral `n`, which starts at `st` once the whitespace from
/// `i` is skipped, followed by the tokens `rest` of what comes after it.
proof fn lemma_lex_numeral(s: Seq<char>, i: int, st: int, n: Seq<char>, ao: bool, rest: Seq<TokenV>) -> (toks: Seq<TokenV>)
    requires
        0 <= i <= st,
        crate::expr::lexer::skip_ws(s, i) == st,
        is_numeral(n),
        st + n.len() <= s.len(),
        s.subrange(st, st + n.len()) == n,
        st + n.len() == s.len() || s[st + n.len()] == ' ',
        crate::expr::lexer::tokenize_spec(s, st + n.len(), true) == Ok::<Seq<TokenV>, ExprParseErrorV>(rest),
    ensures
        toks.len() == numeral_width(n),
        numeral_at(toks + rest, 0, n),
        crate::expr::lexer::tokenize_spec(s, i, ao) == Ok::<Seq<TokenV>, ExprParseErrorV>(toks + rest),
{
    let e = st + n.len();
    assert(s[st] == n[0]);
    if negative(n) {
        let d = n.drop_first();
        assert forall|k: int| st + 1 <= k < e implies crate::text::is_digit(#[trigger] s[k]) by {
            assert(s[k] == n[k - st]);
            assert(n[k - st] == d[k - st - 1]);
        }
        assert(crate::text::is_digit(s[st + 1]));
        if e < s.len() {
            assert(!crate::text::is_digit(s[e]));
        }
        lemma_digits_end(s, st + 2, e);
        assert(crate::expr::lexer::skip_ws(s, st + 1) == st + 1);
        assert(s.subrange(st + 1, e) =~= d);
        let step2 = crate::expr::lexer::next_token_spec(s, st + 1, false);
        assert(step2 matches crate::expr::lexer::LexStep::Token(t, j) && t.kind == TokenKindV::Number(d) && j == e);
        let t2 = step2->Token_0;
        assert(crate::expr::lexer::tokenize_spec(s, st + 1, false) == Ok::<Seq<TokenV>, ExprParseErrorV>(seq![t2] + rest));
        let step1 = crate::expr::lexer::next_token_spec(s, i, ao);
        assert(step1 matches crate::expr::lexer::LexStep::Token(t, j) && t.kind is Minus && j == st + 1);
        let t1 = step1->Token_0;
        assert(crate::expr::lexer::tokenize_spec(s, i, ao) == Ok::<Seq<TokenV>, ExprParseErrorV>(seq![t1] + (seq![t2] + rest)));
        assert(seq![t1] + (seq![t2] + rest) =~= seq![t1, t2] + rest);
        seq![t1, t2]
    } else {
        assert forall|k: int| st <= k < e implies crate::text::is_digit(#[trigger] s[k]) by {
            assert(s[k] == n[k - st]);
        }
        if e < s.len() {
            assert(!crate::text::is_digit(s[e]));
        }
        lemma_digits_end(s, st + 1, e);
        let step = crate::expr::lexer::next_token_spec(s, i, ao);
        assert(step matches crate::expr::lexer::LexStep::Token(t, j) && t.kind == TokenKindV::Number(n) && j == e);
        let t = step->Token_0;
        assert(crate::expr::lexer::tokenize_spec(s, i, ao) == Ok::<Seq<TokenV>, ExprParseErrorV>(seq![t] + rest));
        seq![t]
    }
}

proof fn lemma_numeral_head(n: Seq<char>)
    requires
        is_numeral(n),
    ensures
        n.len() > 0,
        !crate::text::char_is_whitespace(n[0]),
{
    if !negative(n) {
        assert(crate::text::is_digit(n[0]));
    }
}

/// One space at `i`, then a character that is not whitespace.
proof fn lemma_skip_space(s: Seq<char>, i: int)
    requires
        0 <= i,
        i + 1 < s.len(),
        s[i] == ' ',
        !crate::text::char_is_whitespace(s[i + 1]),
    ensures
        crate::expr::lexer::skip_ws(s, i) == i + 1,
{
    assert(crate::text::char_is_whitespace(s[i]));
    assert(crate::expr::lexer::skip_ws(s, i + 1) == i + 1);
}

/// An operator character between two spaces, at `i + 1`.
proof fn lemma_lex_operator(s: Seq<char>, i: int, rest: Seq<TokenV>) -> (t: TokenV)
    requires
        0 <= i,
        i + 3 <= s.len(),
        s[i] == ' ',
        s[i + 1] == '+' || s[i + 1] == '-' || s[i + 1] == '*',
        crate::expr::lexer::tokenize_spec(s, i + 2, false) == Ok::<Seq<TokenV>, ExprParseErrorV>(rest),
    ensures
        t.kind == crate::expr::lexer::single_char_kind(s[i + 1])->0,
        crate::expr::lexer::tokenize_spec(s, i, true) == Ok::<Seq<TokenV>, ExprParseErrorV>(seq![t] + rest),
{
    lemma_skip_space(s, i);
    let step = crate::expr::lexer::next_token_spec(s, i, true);
    assert(step matches crate::expr::lexer::LexStep::Token(t, j) && t.kind == crate::expr::lexer::single_char_kind(s[i + 1])->0 && j == i + 2);
    step->Token_0
}

/// Whether `c` is `+`, `-` or `*`.
pub open spec fn arith_char(c: char) -> bool {
    c == '+' || c == '-' || c == '*'
}

/// The text `a o1 b o2 c` with single spaces around the operators.
pub open spec fn spaced(a: Seq<char>, o1: char, b: Seq<char>, o2: char, c: Seq<char>) -> Seq<char> {
    a + seq![' ', o1, ' '] + b + seq![' ', o2, ' '] + c
}

/// The text of three numerals joined by two operators, tokenized.
#[verifier::rlimit(40)]
proof fn lemma_lex_spaced(a: Seq<char>, o1: char, b: Seq<char>, o2: char, c: Seq<char>) -> (ts: Seq<TokenV>)
    requires
        is_numeral(a),
        is_numeral(b),
        is_numeral(c),
        arith_char(o1),
        arith_char(o2),
    ensures
        lex(spaced(a, o1, b, o2, c)) == Ok::<Seq<TokenV>, ExprParseErrorV>(ts),
        ts.len() == numeral_width(a) + numeral_width(b) + numeral_width(c) + 3,
        numeral_at(ts, 0, a),
        ts[numeral_width(a)].kind == crate::expr::lexer::single_char_kind(o1)->0,
        numeral_at(ts, numeral_width(a) + 1, b),
        ts[numeral_width(a) + 1 + numeral_width(b)].kind == crate::expr::lexer::single_char_kind(o2)->0,
        numeral_at(ts, numeral_width(a) + numeral_width(b) + 2, c),
        ts.last().kind is Eof,
{
    let s = spaced(a, o1, b, o2, c);
    let la = a.len() as int;
    let lb = b.len() as int;
    let lc = c.len() as int;
    let pb = la + 3;
    let pc = la + lb + 6;
    assert(s.len() == pc + lc);
    assert(s.subrange(0, la) =~= a);
    assert(s.subrange(pb, pb + lb) =~= b);
    assert(s.subrange(pc, pc + lc) =~= c);
    assert(s[la] == ' ' && s[la + 1] == o1 && s[la + 2] == ' ');
    assert(s[pb + lb] == ' ' && s[pb + lb + 1] == o2 && s[pb + lb + 2] == ' ');
    // the end
    let eof_step = crate::expr::lexer::next_token_spec(s, s.len() as int, true);
    assert(eof_step matches crate::expr::lexer::LexStep::Token(t, _) && t.kind is Eof);
    let teof = eof_step->Token_0;
    let r0 = seq![teof];
    assert(crate::expr::lexer::tokenize_spec(s, s.len() as int, true) == Ok::<Seq<TokenV>, ExprParseErrorV>(r0));
    // c
    assert(s[pc] == c[0]);
    lemma_numeral_head(c);
    lemma_skip_space(s, pc - 1);
    let tc = lemma_lex_numeral(s, pc - 1, pc, c, false, r0);
    let r1 = tc + r0;
    let t2 = lemma_lex_operator(s, pb + lb, r1);
    let r2 = seq![t2] + r1;
    // b
    assert(s[pb] == b[0]);
    lemma_numeral_head(b);
    lemma_skip_space(s, pb - 1);
    let tb = lemma_lex_numeral(s, pb - 1, pb, b, false, r2);
    let r3 = tb + r2;
    let t1 = lemma_lex_operator(s, la, r3);
    let r4 = seq![t1] + r3;
    // a
    assert(s[0] == a[0]);
    lemma_numeral_head(a);
    assert(crate::expr::lexer::skip_ws(s, 0) == 0);
    let ta = lemma_lex_numeral(s, 0, 0, a, false, r4);
    let ts = ta + r4;
    let wa = numeral_width(a);
    let wb = numeral_width(b);
    assert(ts[wa] == t1);
    assert(ts =~= ta + seq![t1] + tb + seq![t2] + tc + r0);
    assert(forall|k: int| 0 <= k < wb + 1 ==> #[trigger] ts[wa + 1 + k] == r3[k]);
    assert(ts[wa + 1 + wb] == t2);
    assert(forall|k: int| 0 <= k < numeral_width(c) + 1 ==> #[trigger] ts[wa + wb + 2 + k] == r1[k]);
    if negative(b) {
        assert(ts[wa + 1] == r3[0]);
        assert(ts[wa + 2] == r3[1]);
    } else {
        assert(ts[wa + 1] == r3[0]);
    }
    if negative(c) {
        assert(ts[wa + wb + 2] == r1[0]);
        assert(ts[wa + wb + 3] == r1[1]);
    } else {
        assert(ts[wa + wb + 2] == r1[0]);
    }
    ts
}

/// `*` binds tighter than `+`: for integers `a`, `b`, `c` written as
/// numerals, `a + b * c` parses as `a + (b * c)`.
pub proof fn law_multiplication_binds_tighter(a: Seq<char>, b: Seq<char>, c: Seq<char>)
    requires
        is_numeral(a),
        is_numeral(b),
        is_numeral(c),
    ensures
        parse_text(spaced(a, '+', b, '*', c)) matches Ok(e) && e.kind matches ExprKindV::Binary(
            op,
            x,
            y,
        ) && ({
            &&& op == BinOp::Add
            &&& numeral_expr(*x, a)
            &&& y.kind matches ExprKindV::Binary(op2, yl, yr) && op2 == BinOp::Mul && numeral_expr(*yl, b)
                && numeral_expr(*yr, c)
        }),
{
    let ts = lemma_lex_spaced(a, '+', b, '*', c);
    lemma_numeral_grouping(ts, a, b, c);
}

/// `-` is left-associative: for integers `a`, `b`, `c` written as numerals,
/// `a - b - c` parses as `(a - b) - c`.
pub proof fn law_subtraction_left_associative(a: Seq<char>, b: Seq<char>, c: Seq<char>)
    requires
        is_numeral(a),
        is_numeral(b),
        is_numeral(c),
    ensures
        parse_text(spaced(a, '-', b, '-', c)) matches Ok(e) && e.kind matches ExprKindV::Binary(
            op,
            x,
            y,
        ) && ({
            &&& op == BinOp::Sub
            &&& numeral_expr(*y, c)
            &&& x.kind matches ExprKindV::Binary(op1, xl, xr) && op1 == BinOp::Sub && numeral_expr(*xl, a)
                && numeral_expr(*xr, b)
        }),
{
    let ts = lemma_lex_spaced(a, '-', b, '-', c);
    lemma_numeral_grouping(ts, a, b, c);
}

/// `&&` binds tighter than `||`: for atoms `a`, `b`, `c`, `a || b && c`
/// parses as `a || (b && c)`.
pub proof fn law_and_binds_tighter_after_or(a: TokenV, o1: TokenV, b: TokenV, o2: TokenV, c: TokenV, eof: TokenV)
    requires
        is_atom(a.kind),
        is_atom(b.kind),
        is_atom(c.kind),
        o1.kind is PipePipe,
        o2.kind is AmpAmp,
        eof.kind is Eof,
    ensures
        parse_tokens(seq![a, o1, b, o2, c, eof]) matches Ok(e) && e.kind matches ExprKindV::Binary(top, x, y)
            && ({
            &&& top == BinOp::Or
            &&& x.kind == atom_kind(a.kind)
            &&& y.kind matches ExprKindV::Binary(inner, yl, yr) && inner == BinOp::And && yl.kind == atom_kind(
                b.kind,
            ) && yr.kind == atom_kind(c.kind)
        }),
{
    law_binary_grouping(a, o1, b, o2, c, eof);
}

/// `&&` binds tighter than `||`: for atoms `a`, `b`, `c`, `a && b || c`
/// parses as `(a && b) || c`.
pub proof fn law_and_binds_tighter_before_or(a: TokenV, o1: TokenV, b: TokenV, o2: TokenV, c: TokenV, eof: TokenV)
    requires
        is_atom(a.kind),
        is_atom(b.kind),
        is_atom(c.kind),
        o1.kind is AmpAmp,
        o2.kind is PipePipe,
        eof.kind is Eof,
    ensures
        parse_tokens(seq![a, o1, b, o2, c, eof]) matches Ok(e) && e.kind matches ExprKindV::Binary(top, x, y)
            && ({
            &&& top == BinOp::Or
            &&& y.kind == atom_kind(c.kind)
            &&& x.kind matches ExprKindV::Binary(inner, xl, xr) && inner == BinOp::And && xl.kind == atom_kind(
                a.kind,
            ) && xr.kind == atom_kind(b.kind)
        }),
{
    law_binary_grouping(a, o1, b, o2, c, eof);
}

/// Precedence level of a binary operator token, loosest first: `||`, `&&`,
/// the comparisons, `+` and `-`, then `*`, `/` and `%`; 0 for any other
/// token.
pub open spec fn precedence_level(k: TokenKindV) -> int {
    match k {
        TokenKindV::PipePipe => 1,
        TokenKindV::AmpAmp => 2,
        TokenKindV::EqEq | TokenKindV::BangEq | TokenKindV::Gt | TokenKindV::Lt | TokenKindV::GtEq
        | TokenKindV::LtEq => 3,
        TokenKindV::Plus | TokenKindV::Minus => 4,
        TokenKindV::Star | TokenKindV::Slash | TokenKindV::Percent => 5,
        _ => 0,
    }
}

/// The operation a binary operator token denotes.
pub open spec fn token_op(k: TokenKindV) -> BinOp {
    match k {
        TokenKindV::PipePipe => BinOp::Or,
        TokenKindV::AmpAmp => BinOp::And,
        TokenKindV::EqEq => BinOp::Eq,
        TokenKindV::BangEq => BinOp::Ne,
        TokenKindV::Gt => BinOp::Gt,
        TokenKindV::Lt => BinOp::Lt,
        TokenKindV::GtEq => BinOp::Ge,
        TokenKindV::LtEq => BinOp::Le,
        TokenKindV::Plus => BinOp::Add,
        TokenKindV::Minus => BinOp::Sub,
        TokenKindV::Star => BinOp::Mul,
        TokenKindV::Slash => BinOp::Div,
        _ => BinOp::Mod,
    }
}

/// Precedence and associativity: in `a o1 b o2 c` over atoms, when `o2`
/// binds tighter than `o1` the second operation is the right operand of the
/// first, and otherwise (a looser or an equally tight `o2`) the first
/// operation is the left operand of the second, so operators of one level
/// group to the left; each node carries its operator's operation.
pub proof fn law_precedence_levels(a: TokenV, o1: TokenV, b: TokenV, o2: TokenV, c: TokenV, eof: TokenV)
    requires
        is_atom(a.kind),
        is_atom(b.kind),
        is_atom(c.kind),
        precedence_level(o1.kind) > 0,
        precedence_level(o2.kind) > 0,
        eof.kind is Eof,
    ensures
        parse_tokens(seq![a, o1, b, o2, c, eof]) matches Ok(e) && e.kind matches ExprKindV::Binary(top, x, y)
            && if precedence_level(o2.kind) > precedence_level(o1.kind) {
            &&& top == token_op(o1.kind)
            &&& x.kind == atom_kind(a.kind)
            &&& y.kind matches ExprKindV::Binary(inner, yl, yr) && inner == token_op(o2.kind) && yl.kind
                == atom_kind(b.kind) && yr.kind == atom_kind(c.kind)
        } else {
            &&& top == token_op(o2.kind)
            &&& y.kind == atom_kind(c.kind)
            &&& x.kind matches ExprKindV::Binary(inner, xl, xr) && inner == token_op(o1.kind) && xl.kind
                == atom_kind(a.kind) && xr.kind == atom_kind(b.kind)
        },
{
    law_binary_grouping(a, o1, b, o2, c, eof);
}

} // verus!
