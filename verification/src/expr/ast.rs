//! AST nodes for the expression language.
use vstd::prelude::*;

verus! {

/// Byte range `[start, end)` of a token or expression in the source text.
#[derive(Debug, Clone, Copy, PartialEq, Eq, Structural)]
pub struct Span {
    pub start: usize,
    pub end: usize,
}

impl Span {
    /// The smallest span covering both `self` and `other`.
    pub fn merge(self, other: Span) -> (r: Span)
        ensures
            r.start == (if self.start <= other.start { self.start } else { other.start }),
            r.end == (if self.end >= other.end { self.end } else { other.end }),
    {
        Span {
            start: if self.start <= other.start { self.start } else { other.start },
            end: if self.end >= other.end { self.end } else { other.end },
        }
    }
}

/// An identifier (a variable, member or method name).
#[derive(Debug, PartialEq, Eq)]
pub struct Ident(String);

impl View for Ident {
    type V = Seq<char>;

    closed spec fn view(&self) -> Seq<char> {
        self.0@
    }
}

impl Clone for Ident {
    fn clone(&self) -> (r: Self)
        ensures
            r == *self,
    {
        Ident(self.0.clone())
    }
}

impl Ident {
    pub fn new(name: String) -> (r: Ident)
        ensures
            r@ == name@,
    {
        Ident(name)
    }

    pub fn same_name(&self, other: &Ident) -> (r: bool)
        ensures
            r == (self@ == other@),
    {
        self.0 == other.0
    }

    pub fn as_str(&self) -> (r: &str)
        ensures
            r@ == self@,
    {
        self.0.as_str()
    }
}

/// Literal values. A number keeps its source text (digits with at most one
/// decimal point), which is exactly what the lexer accepted.
#[derive(Debug, PartialEq)]
pub enum Literal {
    Number(String),
    Str(String),
    Regex(String),
    Bool(bool),
    Null,
}

#[derive(Debug, Clone, Copy, PartialEq, Eq, Structural)]
pub enum BinOp {
    Add,
    Sub,
    Mul,
    Div,
    Mod,
    Eq,
    Ne,
    Gt,
    Lt,
    Ge,
    Le,
    And,
    Or,
}

#[derive(Debug, Clone, Copy, PartialEq, Eq, Structural)]
pub enum UnaryOp {
    Neg,
    Not,
}

#[derive(Debug)]
pub enum ExprKind {
    Literal(Literal),
    Variable(Ident),
    Member { object: Box<Expr>, field: Ident },
    Index { object: Box<Expr>, index: Box<Expr> },
    Call { callee: Box<Expr>, args: Vec<Expr> },
    Array(Vec<Expr>),
    Binary { op: BinOp, left: Box<Expr>, right: Box<Expr> },
    Unary { op: UnaryOp, operand: Box<Expr> },
}

/// An expression node together with the source span it covers.
#[derive(Debug)]
pub struct Expr {
    pub kind: ExprKind,
    pub span: Span,
}

impl Expr {
    pub fn new(kind: ExprKind, span: Span) -> (r: Expr)
        ensures
            r.kind == kind,
            r.span == span,
    {
        Expr { kind, span }
    }
}

// ---------- Mathematical model ----------

/// Model of a literal: string contents as character sequences.
pub enum LiteralV {
    Number(Seq<char>),
    Str(Seq<char>),
    Regex(Seq<char>),
    Bool(bool),
    Null,
}

impl View for Literal {
    type V = LiteralV;

    open spec fn view(&self) -> LiteralV {
        match self {
            Literal::Number(s) => LiteralV::Number(s@),
            Literal::Str(s) => LiteralV::Str(s@),
            Literal::Regex(s) => LiteralV::Regex(s@),
            Literal::Bool(b) => LiteralV::Bool(*b),
            Literal::Null => LiteralV::Null,
        }
    }
}

/// Model of an expression tree.
pub enum ExprKindV {
    Literal(LiteralV),
    Variable(Seq<char>),
    Member(Box<ExprV>, Seq<char>),
    Index(Box<ExprV>, Box<ExprV>),
    Call(Box<ExprV>, Seq<ExprV>),
    Array(Seq<ExprV>),
    Binary(BinOp, Box<ExprV>, Box<ExprV>),
    Unary(UnaryOp, Box<ExprV>),
}

/// Model of an expression node: its kind and the byte span it covers.
pub struct ExprV {
    pub kind: ExprKindV,
    pub start: nat,
    pub end: nat,
}

pub open spec fn expr_view(e: Expr) -> ExprV
    decreases e,
{
    let k = match e.kind {
        ExprKind::Literal(l) => ExprKindV::Literal(l@),
        ExprKind::Variable(n) => ExprKindV::Variable(n@),
        ExprKind::Member { object, field } => ExprKindV::Member(
            Box::new(expr_view(*object)),
            field@,
        ),
        ExprKind::Index { object, index } => ExprKindV::Index(
            Box::new(expr_view(*object)),
            Box::new(expr_view(*index)),
        ),
        ExprKind::Call { callee, args } => ExprKindV::Call(
            Box::new(expr_view(*callee)),
            exprs_view(args@),
        ),
        ExprKind::Array(items) => ExprKindV::Array(exprs_view(items@)),
        ExprKind::Binary { op, left, right } => ExprKindV::Binary(
            op,
            Box::new(expr_view(*left)),
            Box::new(expr_view(*right)),
        ),
        ExprKind::Unary { op, operand } => ExprKindV::Unary(op, Box::new(expr_view(*operand))),
    };
    ExprV { kind: k, start: e.span.start as nat, end: e.span.end as nat }
}

pub open spec fn exprs_view(es: Seq<Expr>) -> Seq<ExprV>
    decreases es,
{
    if es.len() == 0 {
        Seq::empty()
    } else {
        exprs_view(es.drop_last()).push(expr_view(es.last()))
    }
}

impl View for Expr {
    type V = ExprV;

    open spec fn view(&self) -> ExprV {
        expr_view(*self)
    }
}

} // verus!
