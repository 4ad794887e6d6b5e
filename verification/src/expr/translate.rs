//! Compile expressions to column-expression plans.
//!
//! Each AST node is translated once, together with a best-effort static
//! type that picks the right operation namespace (`.length` on a string is
//! its character count, on a list its element count).
use vstd::prelude::*;
use vstd::view::View as _;

use crate::error::{CrabaseError, ExprParseErrorV, is_parse_error};
use crate::expr::plan::{BinPOp, DType, PList, PListV, Plan, PlanV, TerOp, UnOp, plist_from, to_plist};
use crate::expr::ast::{Expr, ExprKind, ExprKindV, ExprV, Literal, LiteralV, expr_view, exprs_view};
use crate::text::{
    char_is_alphabetic, char_to_lowercase, char_to_uppercase, chars_of, is_alphabetic, push_char,
    str_eq, string_from_chars, to_lowercase_chars, to_uppercase_chars,
};

verus! {

/// Best-effort static type of a translated expression.
#[derive(Debug, Clone, Copy, PartialEq, Eq, Structural)]
pub enum InferredType {
    Unknown,
    Null,
    Bool,
    Int,
    Float,
    String,
    Date,
    Datetime,
    Duration,
    /// A list of strings.
    List,
}

impl InferredType {
    pub open spec fn date_like(self) -> bool {
        self == InferredType::Date || self == InferredType::Datetime
    }

    pub open spec fn numeric(self) -> bool {
        self == InferredType::Int || self == InferredType::Float
    }

    pub fn is_date_or_datetime(&self) -> (r: bool)
        ensures
            r == self.date_like(),
    {
        *self == InferredType::Date || *self == InferredType::Datetime
    }

    pub fn is_numeric(&self) -> (r: bool)
        ensures
            r == self.numeric(),
    {
        *self == InferredType::Int || *self == InferredType::Float
    }
}

// ---------- Plan builders ----------

pub open spec fn u(op: UnOp, a: PlanV) -> PlanV {
    Plan::Un(op, Box::new(a))
}

pub open spec fn b2(op: BinPOp, a: PlanV, b: PlanV) -> PlanV {
    Plan::Bin(op, Box::new(a), Box::new(b))
}

pub open spec fn t3(op: TerOp, a: PlanV, b: PlanV, c: PlanV) -> PlanV {
    Plan::Ter(op, Box::new(a), Box::new(b), Box::new(c))
}

pub open spec fn cs(t: DType, a: PlanV) -> PlanV {
    Plan::Cast(t, Box::new(a))
}

pub open spec fn when(c: PlanV, a: PlanV, b: PlanV) -> PlanV {
    t3(TerOp::When, c, a, b)
}

pub open spec fn sstr(s: Seq<char>) -> PlanV {
    Plan::Str(s)
}

pub(crate) fn mk_un(op: UnOp, a: Plan<String>) -> (r: Plan<String>)
    ensures
        r@ == u(op, a@),
{
    Plan::Un(op, Box::new(a))
}

pub(crate) fn mk_bin(op: BinPOp, a: Plan<String>, b: Plan<String>) -> (r: Plan<String>)
    ensures
        r@ == b2(op, a@, b@),
{
    Plan::Bin(op, Box::new(a), Box::new(b))
}

pub(crate) fn mk_ter(op: TerOp, a: Plan<String>, b: Plan<String>, c: Plan<String>) -> (r: Plan<String>)
    ensures
        r@ == t3(op, a@, b@, c@),
{
    Plan::Ter(op, Box::new(a), Box::new(b), Box::new(c))
}

pub(crate) fn mk_cast(t: DType, a: Plan<String>) -> (r: Plan<String>)
    ensures
        r@ == cs(t, a@),
{
    Plan::Cast(t, Box::new(a))
}

pub(crate) fn mk_str(s: &str) -> (r: Plan<String>)
    ensures
        r@ == sstr(s@),
{
    Plan::Str(s.to_owned())
}

pub(crate) fn mk_col(s: &str) -> (r: Plan<String>)
    ensures
        r@ == Plan::Col(s@),
{
    Plan::Col(s.to_owned())
}

/// A copy of a plan.
pub fn clone_plan(p: &Plan<String>) -> (r: Plan<String>)
    ensures
        r@ == p@,
    decreases p,
{
    match p {
        Plan::Col(s) => Plan::Col(s.clone()),
        Plan::Elem => Plan::Elem,
        Plan::Null => Plan::Null,
        Plan::Bool(b) => Plan::Bool(*b),
        Plan::Int(i) => Plan::Int(*i),
        Plan::UInt(x) => Plan::UInt(*x),
        Plan::Float(s) => Plan::Float(s.clone()),
        Plan::Str(s) => Plan::Str(s.clone()),
        Plan::DateLit(d) => Plan::DateLit(*d),
        Plan::DatetimeLit(m) => Plan::DatetimeLit(*m),
        Plan::EmptyStrList => Plan::EmptyStrList,
        Plan::Cast(t, a) => Plan::Cast(*t, Box::new(clone_plan(a))),
        Plan::Un(o, a) => Plan::Un(*o, Box::new(clone_plan(a))),
        Plan::Bin(o, a, b) => Plan::Bin(*o, Box::new(clone_plan(a)), Box::new(clone_plan(b))),
        Plan::Ter(o, a, b, c) => Plan::Ter(
            *o,
            Box::new(clone_plan(a)),
            Box::new(clone_plan(b)),
            Box::new(clone_plan(c)),
        ),
        Plan::DtFormat(a, f) => Plan::DtFormat(Box::new(clone_plan(a)), f.clone()),
        Plan::Strptime(a, f) => Plan::Strptime(Box::new(clone_plan(a)), f.clone()),
        Plan::ConcatStr(l) => Plan::ConcatStr(Box::new(clone_plist(l))),
        Plan::ConcatList(l) => Plan::ConcatList(Box::new(clone_plist(l))),
        Plan::CrossFile(a, c) => Plan::CrossFile(Box::new(clone_plan(a)), c.clone()),
        Plan::Alias(a, n) => Plan::Alias(Box::new(clone_plan(a)), n.clone()),
    }
}

fn clone_plist(l: &PList<String>) -> (r: PList<String>)
    ensures
        r@ == l@,
    decreases l,
{
    match l {
        PList::Nil => PList::Nil,
        PList::Cons(h, t) => PList::Cons(Box::new(clone_plan(h)), Box::new(clone_plist(t))),
    }
}

// ---------- Typing rules ----------

/// Boolean reading of a value: null, zero, the empty string and the empty
/// list are false; dates and durations are true when present.
pub open spec fn truthy_spec(p: PlanV, ty: InferredType) -> PlanV {
    match ty {
        InferredType::Bool => b2(BinPOp::FillNull, p, Plan::Bool(false)),
        InferredType::Int | InferredType::Float => b2(
            BinPOp::FillNull,
            b2(BinPOp::Neq, cs(DType::Float64, p), Plan::Float("0.0"@)),
            Plan::Bool(false),
        ),
        InferredType::String => b2(
            BinPOp::FillNull,
            b2(BinPOp::Gt, u(UnOp::StrLenChars, p), Plan::UInt(0)),
            Plan::Bool(false),
        ),
        InferredType::List => b2(
            BinPOp::FillNull,
            b2(BinPOp::Gt, u(UnOp::ListLen, p), Plan::UInt(0)),
            Plan::Bool(false),
        ),
        InferredType::Date | InferredType::Datetime | InferredType::Duration => u(UnOp::IsNotNull, p),
        InferredType::Null => Plan::Bool(false),
        InferredType::Unknown => b2(BinPOp::FillNull, cs(DType::Boolean, p), Plan::Bool(false)),
    }
}

fn truthy_plan(p: Plan<String>, ty: InferredType) -> (r: Plan<String>)
    ensures
        r@ == truthy_spec(p@, ty),
{
    match ty {
        InferredType::Bool => mk_bin(BinPOp::FillNull, p, Plan::Bool(false)),
        InferredType::Int | InferredType::Float => mk_bin(
            BinPOp::FillNull,
            mk_bin(BinPOp::Neq, mk_cast(DType::Float64, p), Plan::Float(String::from_str("0.0"))),
            Plan::Bool(false),
        ),
        InferredType::String => mk_bin(
            BinPOp::FillNull,
            mk_bin(BinPOp::Gt, mk_un(UnOp::StrLenChars, p), Plan::UInt(0)),
            Plan::Bool(false),
        ),
        InferredType::List => mk_bin(
            BinPOp::FillNull,
            mk_bin(BinPOp::Gt, mk_un(UnOp::ListLen, p), Plan::UInt(0)),
            Plan::Bool(false),
        ),
        InferredType::Date | InferredType::Datetime | InferredType::Duration => mk_un(
            UnOp::IsNotNull,
            p,
        ),
        InferredType::Null => Plan::Bool(false),
        InferredType::Unknown => mk_bin(
            BinPOp::FillNull,
            mk_cast(DType::Boolean, p),
            Plan::Bool(false),
        ),
    }
}

/// Common type of two branches: equal types stay, null gives way, mixed
/// numbers become floats, anything else strings.
pub open spec fn align_spec(a: PlanV, ta: InferredType, b: PlanV, tb: InferredType) -> (PlanV, PlanV, InferredType) {
    if ta == tb {
        (a, b, ta)
    } else if ta == InferredType::Null {
        (a, b, tb)
    } else if tb == InferredType::Null {
        (a, b, ta)
    } else if ta.numeric() && tb.numeric() {
        (cs(DType::Float64, a), cs(DType::Float64, b), InferredType::Float)
    } else {
        (cs(DType::Utf8, a), cs(DType::Utf8, b), InferredType::String)
    }
}

fn align_branches(a: Plan<String>, ta: InferredType, b: Plan<String>, tb: InferredType) -> (r: (
    Plan<String>,
    Plan<String>,
    InferredType,
))
    ensures
        (r.0@, r.1@, r.2) == align_spec(a@, ta, b@, tb),
{
    if ta == tb {
        (a, b, ta)
    } else if ta == InferredType::Null {
        (a, b, tb)
    } else if tb == InferredType::Null {
        (a, b, ta)
    } else if ta.is_numeric() && tb.is_numeric() {
        (mk_cast(DType::Float64, a), mk_cast(DType::Float64, b), InferredType::Float)
    } else {
        (mk_cast(DType::Utf8, a), mk_cast(DType::Utf8, b), InferredType::String)
    }
}

/// Type of an arithmetic result: floats win; two integers stay integers;
/// anything else is taken as a float.
pub open spec fn combined_spec(l: InferredType, r: InferredType) -> InferredType {
    if l == InferredType::Float || r == InferredType::Float {
        InferredType::Float
    } else if l.numeric() && r.numeric() {
        InferredType::Int
    } else {
        InferredType::Float
    }
}

fn combined_numeric_type(l: InferredType, r: InferredType) -> (t: InferredType)
    ensures
        t == combined_spec(l, r),
{
    if l == InferredType::Float || r == InferredType::Float {
        InferredType::Float
    } else if l.is_numeric() && r.is_numeric() {
        InferredType::Int
    } else {
        InferredType::Float
    }
}

/// Operands cast to a comparable type: as they are when their types agree,
/// floats for mixed numbers, timestamps for mixed dates, strings otherwise.
pub open spec fn cmp_cast_spec(l: PlanV, tl: InferredType, r: PlanV, tr: InferredType) -> (PlanV, PlanV) {
    if tl == tr {
        (l, r)
    } else if tl.numeric() && tr.numeric() {
        (cs(DType::Float64, l), cs(DType::Float64, r))
    } else if tl.date_like() && tr.date_like() {
        (cs(DType::DatetimeUs, l), cs(DType::DatetimeUs, r))
    } else {
        (cs(DType::Utf8, l), cs(DType::Utf8, r))
    }
}

fn cast_for_comparison(l: Plan<String>, tl: InferredType, r: Plan<String>, tr: InferredType) -> (res: (
    Plan<String>,
    Plan<String>,
))
    ensures
        (res.0@, res.1@) == cmp_cast_spec(l@, tl, r@, tr),
{
    if tl == tr {
        (l, r)
    } else if tl.is_numeric() && tr.is_numeric() {
        (mk_cast(DType::Float64, l), mk_cast(DType::Float64, r))
    } else if tl.is_date_or_datetime() && tr.is_date_or_datetime() {
        (mk_cast(DType::DatetimeUs, l), mk_cast(DType::DatetimeUs, r))
    } else {
        (mk_cast(DType::Utf8, l), mk_cast(DType::Utf8, r))
    }
}

/// Equality (or inequality): against null it is a null test; otherwise a
/// missing value compares unequal.
pub open spec fn eq_spec(l: PlanV, tl: InferredType, r: PlanV, tr: InferredType, neg: bool) -> PlanV {
    if tr == InferredType::Null {
        u(if neg { UnOp::IsNotNull } else { UnOp::IsNull }, l)
    } else if tl == InferredType::Null {
        u(if neg { UnOp::IsNotNull } else { UnOp::IsNull }, r)
    } else {
        let (a, b) = cmp_cast_spec(l, tl, r, tr);
        if neg {
            b2(BinPOp::FillNull, b2(BinPOp::Neq, a, b), Plan::Bool(true))
        } else {
            b2(BinPOp::FillNull, b2(BinPOp::Eq, a, b), Plan::Bool(false))
        }
    }
}

fn translate_eq(l: Plan<String>, tl: InferredType, r: Plan<String>, tr: InferredType, neg: bool) -> (res: Plan<String>)
    ensures
        res@ == eq_spec(l@, tl, r@, tr, neg),
{
    if tr == InferredType::Null {
        mk_un(
            if neg {
                UnOp::IsNotNull
            } else {
                UnOp::IsNull
            },
            l,
        )
    } else if tl == InferredType::Null {
        mk_un(
            if neg {
                UnOp::IsNotNull
            } else {
                UnOp::IsNull
            },
            r,
        )
    } else {
        let (a, b) = cast_for_comparison(l, tl, r, tr);
        if neg {
            mk_bin(BinPOp::FillNull, mk_bin(BinPOp::Neq, a, b), Plan::Bool(true))
        } else {
            mk_bin(BinPOp::FillNull, mk_bin(BinPOp::Eq, a, b), Plan::Bool(false))
        }
    }
}

/// `a + b`: strings concatenate, two lists concatenate, numbers add.
pub open spec fn add_spec(l: PlanV, tl: InferredType, r: PlanV, tr: InferredType) -> (PlanV, InferredType) {
    if tl == InferredType::String || tr == InferredType::String {
        (
            Plan::ConcatStr(Box::new(to_plist(seq![cs(DType::Utf8, l), cs(DType::Utf8, r)]))),
            InferredType::String,
        )
    } else if tl == InferredType::List && tr == InferredType::List {
        (Plan::ConcatList(Box::new(to_plist(seq![l, r]))), InferredType::List)
    } else {
        (b2(BinPOp::Add, l, r), combined_spec(tl, tr))
    }
}

fn plist2(a: Plan<String>, b: Plan<String>) -> (r: PList<String>)
    ensures
        r@ == to_plist(seq![a@, b@]),
{
    let mut v: Vec<Plan<String>> = Vec::new();
    v.push(a);
    v.push(b);
    let r = plist_from(v);
    proof {
        assert(v@.map_values(|p: Plan<String>| p@) =~= seq![a@, b@]);
    }
    r
}

fn translate_add(l: Plan<String>, tl: InferredType, r: Plan<String>, tr: InferredType) -> (res: (
    Plan<String>,
    InferredType,
))
    ensures
        (res.0@, res.1) == add_spec(l@, tl, r@, tr),
{
    if tl == InferredType::String || tr == InferredType::String {
        (
            Plan::ConcatStr(Box::new(plist2(mk_cast(DType::Utf8, l), mk_cast(DType::Utf8, r)))),
            InferredType::String,
        )
    } else if tl == InferredType::List && tr == InferredType::List {
        (Plan::ConcatList(Box::new(plist2(l, r))), InferredType::List)
    } else {
        (mk_bin(BinPOp::Add, l, r), combined_numeric_type(tl, tr))
    }
}

/// `a - b`: two dates give a duration; otherwise numbers subtract.
pub open spec fn sub_spec(l: PlanV, tl: InferredType, r: PlanV, tr: InferredType) -> (PlanV, InferredType) {
    if tl.date_like() && tr.date_like() {
        (b2(BinPOp::Sub, l, r), InferredType::Duration)
    } else {
        (b2(BinPOp::Sub, l, r), combined_spec(tl, tr))
    }
}

/// Binary operators on translated operands.
pub open spec fn binary_spec(op: crate::expr::ast::BinOp, l: PlanV, tl: InferredType, r: PlanV, tr: InferredType) -> (PlanV, InferredType) {
    match op {
        crate::expr::ast::BinOp::Add => add_spec(l, tl, r, tr),
        crate::expr::ast::BinOp::Sub => sub_spec(l, tl, r, tr),
        crate::expr::ast::BinOp::Mul => (b2(BinPOp::Mul, l, r), combined_spec(tl, tr)),
        crate::expr::ast::BinOp::Div => (
            b2(BinPOp::Div, cs(DType::Float64, l), cs(DType::Float64, r)),
            InferredType::Float,
        ),
        crate::expr::ast::BinOp::Mod => (b2(BinPOp::Rem, l, r), combined_spec(tl, tr)),
        crate::expr::ast::BinOp::Eq => (eq_spec(l, tl, r, tr, false), InferredType::Bool),
        crate::expr::ast::BinOp::Ne => (eq_spec(l, tl, r, tr, true), InferredType::Bool),
        crate::expr::ast::BinOp::Gt => {
            let (a, b) = cmp_cast_spec(l, tl, r, tr);
            (b2(BinPOp::Gt, a, b), InferredType::Bool)
        },
        crate::expr::ast::BinOp::Lt => {
            let (a, b) = cmp_cast_spec(l, tl, r, tr);
            (b2(BinPOp::Lt, a, b), InferredType::Bool)
        },
        crate::expr::ast::BinOp::Ge => {
            let (a, b) = cmp_cast_spec(l, tl, r, tr);
            (b2(BinPOp::GtEq, a, b), InferredType::Bool)
        },
        crate::expr::ast::BinOp::Le => {
            let (a, b) = cmp_cast_spec(l, tl, r, tr);
            (b2(BinPOp::LtEq, a, b), InferredType::Bool)
        },
        crate::expr::ast::BinOp::And => (
            b2(BinPOp::And, truthy_spec(l, tl), truthy_spec(r, tr)),
            InferredType::Bool,
        ),
        crate::expr::ast::BinOp::Or => (
            b2(BinPOp::Or, truthy_spec(l, tl), truthy_spec(r, tr)),
            InferredType::Bool,
        ),
    }
}

fn translate_binary_op(op: crate::expr::ast::BinOp, l: Plan<String>, tl: InferredType, r: Plan<String>, tr: InferredType) -> (res: (
    Plan<String>,
    InferredType,
))
    ensures
        (res.0@, res.1) == binary_spec(op, l@, tl, r@, tr),
{
    match op {
        crate::expr::ast::BinOp::Add => translate_add(l, tl, r, tr),
        crate::expr::ast::BinOp::Sub => if tl.is_date_or_datetime() && tr.is_date_or_datetime() {
            (mk_bin(BinPOp::Sub, l, r), InferredType::Duration)
        } else {
            (mk_bin(BinPOp::Sub, l, r), combined_numeric_type(tl, tr))
        },
        crate::expr::ast::BinOp::Mul => (mk_bin(BinPOp::Mul, l, r), combined_numeric_type(tl, tr)),
        crate::expr::ast::BinOp::Div => (
            mk_bin(BinPOp::Div, mk_cast(DType::Float64, l), mk_cast(DType::Float64, r)),
            InferredType::Float,
        ),
        crate::expr::ast::BinOp::Mod => (mk_bin(BinPOp::Rem, l, r), combined_numeric_type(tl, tr)),
        crate::expr::ast::BinOp::Eq => (translate_eq(l, tl, r, tr, false), InferredType::Bool),
        crate::expr::ast::BinOp::Ne => (translate_eq(l, tl, r, tr, true), InferredType::Bool),
        crate::expr::ast::BinOp::Gt => {
            let (a, b) = cast_for_comparison(l, tl, r, tr);
            (mk_bin(BinPOp::Gt, a, b), InferredType::Bool)
        },
        crate::expr::ast::BinOp::Lt => {
            let (a, b) = cast_for_comparison(l, tl, r, tr);
            (mk_bin(BinPOp::Lt, a, b), InferredType::Bool)
        },
        crate::expr::ast::BinOp::Ge => {
            let (a, b) = cast_for_comparison(l, tl, r, tr);
            (mk_bin(BinPOp::GtEq, a, b), InferredType::Bool)
        },
        crate::expr::ast::BinOp::Le => {
            let (a, b) = cast_for_comparison(l, tl, r, tr);
            (mk_bin(BinPOp::LtEq, a, b), InferredType::Bool)
        },
        crate::expr::ast::BinOp::And => (
            mk_bin(BinPOp::And, truthy_plan(l, tl), truthy_plan(r, tr)),
            InferredType::Bool,
        ),
        crate::expr::ast::BinOp::Or => (
            mk_bin(BinPOp::Or, truthy_plan(l, tl), truthy_plan(r, tr)),
            InferredType::Bool,
        ),
    }
}


// ---------- Outcomes ----------

/// How a translation can fail.
pub enum TrErr {
    /// A formula body does not parse.
    Parse(ExprParseErrorV),
    /// An expression error, with its message (a formula cycle, a missing or
    /// non-literal argument where a literal is required, an unparsable date
    /// literal, a call of something that is not a function, an empty
    /// `list()`, a `.map()` without a callback).
    Eval(Seq<char>),
    /// An argument that a function or method reads is missing.
    Abort,
}

/// The message for a formula cycle: each formula being translated followed
/// by an arrow, then the formula entered again.
pub open spec fn cycle_message(stack: Seq<Seq<char>>, name: Seq<char>) -> Seq<char> {
    "Formula cycle detected: "@ + arrow_prefix(stack) + name
}

/// Each name followed by ` -> `, in order.
pub open spec fn arrow_prefix(stack: Seq<Seq<char>>) -> Seq<char>
    decreases stack.len(),
{
    if stack.len() == 0 {
        Seq::empty()
    } else {
        arrow_prefix(stack.drop_last()) + stack.last() + " -> "@
    }
}

/// The message for a string-literal argument that is missing (none given)
/// or not a string literal.
pub open spec fn literal_arg_message(args: Seq<ExprV>) -> Seq<char> {
    if args.len() == 0 {
        "missing string literal argument at position 0"@
    } else {
        "expected a string literal argument"@
    }
}

/// The message for a date literal that reads as no date: the literal in its
/// `Debug` form.
pub open spec fn date_message(s: Seq<char>) -> Seq<char> {
    "Cannot parse date: "@ + crate::text::str_debug(s)
}

/// The name of an expression's kind, in the message for calling it.
pub open spec fn kind_label(e: ExprV) -> Seq<char> {
    match e.kind {
        ExprKindV::Literal(_) => "literal"@,
        ExprKindV::Variable(_) => "variable"@,
        ExprKindV::Member(..) => "member access"@,
        ExprKindV::Index(..) => "index"@,
        ExprKindV::Call(..) => "call"@,
        ExprKindV::Array(_) => "array"@,
        ExprKindV::Binary(..) => "binary operation"@,
        ExprKindV::Unary(..) => "unary operation"@,
    }
}

/// The message for calling an expression that names no function or method.
pub open spec fn not_callable_message(callee: ExprV) -> Seq<char> {
    "Expression is not callable: "@ + kind_label(callee)
}

/// The message for `list()` with no arguments.
pub open spec fn empty_list_message() -> Seq<char> {
    "`concat_list` needs one or more expressions"@
}

/// The message for `.map()` without a callback.
pub open spec fn map_message() -> Seq<char> {
    ".map() requires a callback argument"@
}

/// Outcome of translating an expression: its plan and type, or an error.
pub type TrOut = Result<(PlanV, InferredType), TrErr>;

/// Output of translating one expression.
#[derive(Debug)]
pub struct Translated {
    pub expr: Plan<String>,
    pub ty: InferredType,
}

impl Translated {
    pub fn new(expr: Plan<String>, ty: InferredType) -> (r: Translated)
        ensures
            r.expr == expr,
            r.ty == ty,
    {
        Translated { expr, ty }
    }
}

/// `r` agrees with the outcome `s`.
pub open spec fn tres(r: Result<Translated, CrabaseError>, s: TrOut) -> bool {
    match s {
        Ok((p, t)) => r is Ok && r->Ok_0.expr@ == p && r->Ok_0.ty == t,
        Err(TrErr::Parse(pe)) => is_parse_error(r, pe),
        Err(TrErr::Eval(m)) => r matches Err(CrabaseError::ExprEval(x)) && x@ == m,
        Err(TrErr::Abort) => r is Err && r->Err_0 is Abort,
    }
}

pub open spec fn null_out() -> TrOut {
    Ok((Plan::Null, InferredType::Null))
}

fn null_result() -> (r: Result<Translated, CrabaseError>)
    ensures
        tres(r, null_out()),
{
    Ok(Translated::new(Plan::Null, InferredType::Null))
}

fn ok_result(p: Plan<String>, t: InferredType) -> (r: Result<Translated, CrabaseError>)
    ensures
        tres(r, Ok((p@, t))),
{
    Ok(Translated::new(p, t))
}

fn abort(what: &str) -> (r: Result<Translated, CrabaseError>)
    ensures
        tres(r, Err(TrErr::Abort)),
{
    Err(CrabaseError::Abort(what.to_owned()))
}

fn eval_error(msg: String) -> (r: Result<Translated, CrabaseError>)
    ensures
        tres(r, Err(TrErr::Eval(msg@))),
{
    Err(CrabaseError::ExprEval(msg))
}

/// The error for a string-literal argument that is missing or not a literal.
fn literal_arg_error(args: &Vec<Expr>) -> (r: Result<Translated, CrabaseError>)
    ensures
        tres(r, Err(TrErr::Eval(literal_arg_message(exprs_view(args@))))),
{
    proof {
        lemma_exprs_view(args@);
    }
    if args.len() == 0 {
        eval_error(String::from_str("missing string literal argument at position 0"))
    } else {
        eval_error(String::from_str("expected a string literal argument"))
    }
}

fn kind_label_exec(e: &Expr) -> (r: &'static str)
    ensures
        r@ == kind_label(e@),
{
    match &e.kind {
        ExprKind::Literal(_) => "literal",
        ExprKind::Variable(_) => "variable",
        ExprKind::Member { .. } => "member access",
        ExprKind::Index { .. } => "index",
        ExprKind::Call { .. } => "call",
        ExprKind::Array(_) => "array",
        ExprKind::Binary { .. } => "binary operation",
        ExprKind::Unary { .. } => "unary operation",
    }
}

// ---------- Member access on values ----------

/// `.field` on a typed value: string and list `length`, duration and
/// millisecond-count `days`, the calendar parts of dates; anything else null.
pub open spec fn member_spec(p: PlanV, ty: InferredType, field: Seq<char>) -> (PlanV, InferredType) {
    if ty == InferredType::String && field == "length"@ {
        (cs(DType::Int64, u(UnOp::StrLenChars, p)), InferredType::Int)
    } else if ty == InferredType::List && field == "length"@ {
        (cs(DType::Int64, u(UnOp::ListLen, p)), InferredType::Int)
    } else if ty == InferredType::Duration && field == "days"@ {
        (u(UnOp::DtTotalDays, p), InferredType::Int)
    } else if ty.numeric() && field == "days"@ {
        (cs(DType::Int64, b2(BinPOp::Div, p, Plan::Int(86400000))), InferredType::Int)
    } else if ty.date_like() && field == "year"@ {
        (cs(DType::Int64, u(UnOp::DtYear, p)), InferredType::Int)
    } else if ty.date_like() && field == "month"@ {
        (cs(DType::Int64, u(UnOp::DtMonth, p)), InferredType::Int)
    } else if ty.date_like() && field == "day"@ {
        (cs(DType::Int64, u(UnOp::DtDay, p)), InferredType::Int)
    } else if ty.date_like() && field == "hour"@ {
        (cs(DType::Int64, u(UnOp::DtHour, p)), InferredType::Int)
    } else if ty.date_like() && field == "minute"@ {
        (cs(DType::Int64, u(UnOp::DtMinute, p)), InferredType::Int)
    } else if ty.date_like() && field == "second"@ {
        (cs(DType::Int64, u(UnOp::DtSecond, p)), InferredType::Int)
    } else if ty.date_like() && field == "millisecond"@ {
        (Plan::Int(0), InferredType::Int)
    } else {
        (Plan::Null, InferredType::Null)
    }
}

fn member_on_value(p: Plan<String>, ty: InferredType, field: &str) -> (r: (Plan<String>, InferredType))
    ensures
        (r.0@, r.1) == member_spec(p@, ty, field@),
{
    if ty == InferredType::String && str_eq(field, "length") {
        (mk_cast(DType::Int64, mk_un(UnOp::StrLenChars, p)), InferredType::Int)
    } else if ty == InferredType::List && str_eq(field, "length") {
        (mk_cast(DType::Int64, mk_un(UnOp::ListLen, p)), InferredType::Int)
    } else if ty == InferredType::Duration && str_eq(field, "days") {
        (mk_un(UnOp::DtTotalDays, p), InferredType::Int)
    } else if ty.is_numeric() && str_eq(field, "days") {
        (mk_cast(DType::Int64, mk_bin(BinPOp::Div, p, Plan::Int(86400000))), InferredType::Int)
    } else if ty.is_date_or_datetime() && str_eq(field, "year") {
        (mk_cast(DType::Int64, mk_un(UnOp::DtYear, p)), InferredType::Int)
    } else if ty.is_date_or_datetime() && str_eq(field, "month") {
        (mk_cast(DType::Int64, mk_un(UnOp::DtMonth, p)), InferredType::Int)
    } else if ty.is_date_or_datetime() && str_eq(field, "day") {
        (mk_cast(DType::Int64, mk_un(UnOp::DtDay, p)), InferredType::Int)
    } else if ty.is_date_or_datetime() && str_eq(field, "hour") {
        (mk_cast(DType::Int64, mk_un(UnOp::DtHour, p)), InferredType::Int)
    } else if ty.is_date_or_datetime() && str_eq(field, "minute") {
        (mk_cast(DType::Int64, mk_un(UnOp::DtMinute, p)), InferredType::Int)
    } else if ty.is_date_or_datetime() && str_eq(field, "second") {
        (mk_cast(DType::Int64, mk_un(UnOp::DtSecond, p)), InferredType::Int)
    } else if ty.is_date_or_datetime() && str_eq(field, "millisecond") {
        (Plan::Int(0), InferredType::Int)
    } else {
        (Plan::Null, InferredType::Null)
    }
}

// ---------- Text helpers ----------

/// Every non-overlapping occurrence of `pat` (scanning left to right)
/// replaced by `rep`, as `str::replace` does.
pub open spec fn replace_all(s: Seq<char>, pat: Seq<char>, rep: Seq<char>) -> Seq<char>
    decreases s.len(),
{
    if s.len() == 0 {
        Seq::empty()
    } else if pat.len() > 0 && s.len() >= pat.len() && s.take(pat.len() as int) == pat {
        rep + replace_all(s.skip(pat.len() as int), pat, rep)
    } else {
        seq![s[0]] + replace_all(s.skip(1), pat, rep)
    }
}

fn replace_all_exec(s: &Vec<char>, pat: &str, rep: &str) -> (r: Vec<char>)
    requires
        pat@.len() > 0,
    ensures
        r@ == replace_all(s@, pat@, rep@),
{
    let p = chars_of(pat);
    let rv = chars_of(rep);
    let ghost total = replace_all(s@, pat@, rep@);
    let mut out: Vec<char> = Vec::new();
    let mut i: usize = 0;
    assert(s@.skip(0) =~= s@);
    while i < s.len()
        invariant
            0 <= i <= s.len(),
            p@ == pat@,
            rv@ == rep@,
            p@.len() > 0,
            total == replace_all(s@, pat@, rep@),
            out@ + replace_all(s@.skip(i as int), pat@, rep@) == total,
        decreases s.len() - i,
    {
        let mut m: usize = 0;
        let fits = s.len() - i >= p.len();
        if fits {
            while m < p.len() && s[i + m] == p[m]
                invariant
                    0 <= m <= p.len(),
                    i + p.len() <= s.len(),
                    forall|q: int| 0 <= q < m ==> s@[i + q] == p@[q],
                decreases p.len() - m,
            {
                m += 1;
            }
        }
        let ghost rest = s@.skip(i as int);
        if fits && m == p.len() {
            assert(rest.take(p@.len() as int) =~= p@);
            assert(rest.skip(p@.len() as int) =~= s@.skip(i + p.len()));
            let mut k: usize = 0;
            let ghost before = out@;
            while k < rv.len()
                invariant
                    0 <= k <= rv.len(),
                    out@ == before + rv@.take(k as int),
                decreases rv.len() - k,
            {
                out.push(rv[k]);
                k += 1;
                assert(out@ =~= before + rv@.take(k as int));
            }
            assert(rv@.take(rv.len() as int) =~= rv@);
            assert(out@ + replace_all(s@.skip(i + p.len()), pat@, rep@) =~= total);
            i = i + p.len();
        } else {
            proof {
                if rest.len() >= p@.len() && rest.take(p@.len() as int) == p@ {
                    assert(fits);
                    assert(rest.take(p@.len() as int)[m as int] == p@[m as int]);
                }
                assert(rest.skip(1) =~= s@.skip(i + 1));
            }
            out.push(s[i]);
            assert(out@ + replace_all(s@.skip(i + 1), pat@, rep@) =~= total);
            i += 1;
        }
    }
    assert(s@.skip(i as int) =~= Seq::<char>::empty());
    out
}

/// Moment.js format tokens turned into strftime specifiers.
pub open spec fn moment_to_chrono_spec(fmt: Seq<char>) -> Seq<char> {
    replace_all(
        replace_all(
            replace_all(
                replace_all(
                    replace_all(replace_all(replace_all(fmt, "YYYY"@, "%Y"@), "YY"@, "%y"@), "MM"@, "%m"@),
                    "DD"@,
                    "%d"@,
                ),
                "HH"@,
                "%H"@,
            ),
            "mm"@,
            "%M"@,
        ),
        "ss"@,
        "%S"@,
    )
}

/// Convert Moment.js format tokens to strftime specifiers.
pub fn moment_to_chrono(fmt: &str) -> (r: String)
    ensures
        r@ == moment_to_chrono_spec(fmt@),
{
    proof {
        reveal_strlit("YYYY");
        reveal_strlit("YY");
        reveal_strlit("MM");
        reveal_strlit("DD");
        reveal_strlit("HH");
        reveal_strlit("mm");
        reveal_strlit("ss");
    }
    let v = chars_of(fmt);
    let v = replace_all_exec(&v, "YYYY", "%Y");
    let v = replace_all_exec(&v, "YY", "%y");
    let v = replace_all_exec(&v, "MM", "%m");
    let v = replace_all_exec(&v, "DD", "%d");
    let v = replace_all_exec(&v, "HH", "%H");
    let v = replace_all_exec(&v, "mm", "%M");
    let v = replace_all_exec(&v, "ss", "%S");
    proof {
        assert(v@.subrange(0, v@.len() as int) =~= v@);
    }
    string_from_chars(&v, 0, v.len())
}

/// Title case from position `i`: the first letter of each run of letters
/// uppercased, the rest lowercased; other characters kept and ending a word.
pub open spec fn title_from(s: Seq<char>, i: int, at_start: bool) -> Seq<char>
    decreases s.len() - i,
{
    if i < 0 || i >= s.len() {
        Seq::empty()
    } else if char_is_alphabetic(s[i]) {
        (if at_start {
            char_to_uppercase(s[i])
        } else {
            char_to_lowercase(s[i])
        }) + title_from(s, i + 1, false)
    } else {
        seq![s[i]] + title_from(s, i + 1, true)
    }
}

/// Whether every character is ASCII.
pub open spec fn all_ascii(s: Seq<char>) -> bool {
    forall|i: int| 0 <= i < s.len() ==> (#[trigger] s[i] as u32) < 0x80
}

/// Title case of ASCII text from position `i`: each run of ASCII letters
/// with its first letter uppercased and the rest lowercased.
pub open spec fn ascii_title_from(s: Seq<char>, i: int, at_start: bool) -> Seq<char>
    decreases s.len() - i,
{
    if i < 0 || i >= s.len() {
        Seq::empty()
    } else if crate::text::is_ascii_letter(s[i]) {
        seq![if at_start { crate::text::ascii_upper(s[i]) } else { crate::text::ascii_lower(s[i]) }]
            + ascii_title_from(s, i + 1, false)
    } else {
        seq![s[i]] + ascii_title_from(s, i + 1, true)
    }
}

/// Title-case a string; on ASCII text, the ASCII title case.
pub fn titlecase_str(input: &str) -> (r: String)
    ensures
        r@ == title_from(input@, 0, true),
        all_ascii(input@) ==> r@ == ascii_title_from(input@, 0, true),
{
    let v = chars_of(input);
    let ghost total = title_from(v@, 0, true);
    let ghost atotal = ascii_title_from(v@, 0, true);
    let mut out = String::new();
    let mut at_start = true;
    let mut i: usize = 0;
    while i < v.len()
        invariant
            0 <= i <= v.len(),
            total == title_from(v@, 0, true),
            out@ + title_from(v@, i as int, at_start) == total,
            atotal == ascii_title_from(v@, 0, true),
            all_ascii(v@) ==> out@ + ascii_title_from(v@, i as int, at_start) == atotal,
        decreases v.len() - i,
    {
        let c = v[i];
        let ghost before = out@;
        proof {
            if all_ascii(v@) {
                assert((v@[i as int] as u32) < 0x80);
            }
        }
        if is_alphabetic(c) {
            let m = if at_start {
                to_uppercase_chars(c)
            } else {
                to_lowercase_chars(c)
            };
            let mut k: usize = 0;
            while k < m.len()
                invariant
                    0 <= k <= m.len(),
                    out@ == before + m@.take(k as int),
                decreases m.len() - k,
            {
                push_char(&mut out, m[k]);
                k += 1;
                assert(out@ =~= before + m@.take(k as int));
            }
            assert(m@.take(m.len() as int) =~= m@);
            assert(out@ + title_from(v@, i + 1, false) =~= total);
            proof {
                if all_ascii(v@) {
                    assert(out@ + ascii_title_from(v@, i + 1, false) =~= atotal);
                }
            }
            at_start = false;
        } else {
            push_char(&mut out, c);
            assert(out@ + title_from(v@, i + 1, true) =~= total);
            proof {
                if all_ascii(v@) {
                    assert(out@ + ascii_title_from(v@, i + 1, true) =~= atotal);
                }
            }
            at_start = true;
        }
        i += 1;
    }
    assert(out@ =~= total);
    assert(all_ascii(v@) ==> out@ =~= atotal);
    out
}

/// Duration unit of a Moment.js duration, in the engine's notation.
pub open spec fn duration_unit(unit: Seq<char>) -> Option<Seq<char>> {
    if unit == "d"@ || unit == "day"@ || unit == "days"@ {
        Some("d"@)
    } else if unit == "w"@ || unit == "week"@ || unit == "weeks"@ {
        Some("w"@)
    } else if unit == "M"@ || unit == "month"@ || unit == "months"@ {
        Some("mo"@)
    } else if unit == "y"@ || unit == "year"@ || unit == "years"@ {
        Some("y"@)
    } else if unit == "h"@ || unit == "hour"@ || unit == "hours"@ {
        Some("h"@)
    } else if unit == "m"@ || unit == "minute"@ || unit == "minutes"@ {
        Some("m"@)
    } else if unit == "s"@ || unit == "second"@ || unit == "seconds"@ {
        Some("s"@)
    } else {
        None
    }
}

/// Index of the first character that is not an ASCII digit, or -1.
pub open spec fn first_non_digit(s: Seq<char>, i: int) -> int
    decreases s.len() - i,
{
    if i < 0 || i >= s.len() {
        -1
    } else if !crate::text::is_digit(s[i]) {
        i
    } else {
        first_non_digit(s, i + 1)
    }
}

/// A Moment.js duration (`1d`, `2 weeks` without the space, `3M`...) as an
/// engine duration string: a count that fits `i64` followed by a unit.
pub open spec fn duration_spec(s: Seq<char>) -> Option<Seq<char>> {
    let split = first_non_digit(s, 0);
    if split <= 0 {
        None
    } else {
        let num = s.take(split);
        match crate::vault::parse_i64_spec(num) {
            None => None,
            Some(_) => match duration_unit(s.skip(split)) {
                Some(u) => Some(num + u),
                None => None,
            },
        }
    }
}

fn duration_unit_exec(unit: &str) -> (r: Option<&'static str>)
    ensures
        match duration_unit(unit@) {
            Some(x) => r is Some && r->0@ == x,
            None => r is None,
        },
{
    if str_eq(unit, "d") || str_eq(unit, "day") || str_eq(unit, "days") {
        Some("d")
    } else if str_eq(unit, "w") || str_eq(unit, "week") || str_eq(unit, "weeks") {
        Some("w")
    } else if str_eq(unit, "M") || str_eq(unit, "month") || str_eq(unit, "months") {
        Some("mo")
    } else if str_eq(unit, "y") || str_eq(unit, "year") || str_eq(unit, "years") {
        Some("y")
    } else if str_eq(unit, "h") || str_eq(unit, "hour") || str_eq(unit, "hours") {
        Some("h")
    } else if str_eq(unit, "m") || str_eq(unit, "minute") || str_eq(unit, "minutes") {
        Some("m")
    } else if str_eq(unit, "s") || str_eq(unit, "second") || str_eq(unit, "seconds") {
        Some("s")
    } else {
        None
    }
}

/// Translate a Moment.js duration to the engine's duration syntax.
pub fn moment_duration_to_polars(s: &str) -> (r: Option<String>)
    ensures
        match duration_spec(s@) {
            Some(x) => r is Some && r->0@ == x,
            None => r is None,
        },
{
    let v = chars_of(s);
    let mut split: usize = 0;
    while split < v.len() && crate::text::is_ascii_digit(v[split])
        invariant
            0 <= split <= v.len(),
            v@ == s@,
            first_non_digit(v@, 0) == first_non_digit(v@, split as int),
        decreases v.len() - split,
    {
        split += 1;
    }
    if split == v.len() || split == 0 {
        return None;
    }
    let num = string_from_chars(&v, 0, split);
    let unit = string_from_chars(&v, split, v.len());
    assert(v@.subrange(0, split as int) =~= v@.take(split as int));
    assert(v@.subrange(split as int, v@.len() as int) =~= v@.skip(split as int));
    match crate::vault::parse_i64(num.as_str()) {
        None => None,
        Some(_) => match duration_unit_exec(unit.as_str()) {
            Some(x) => {
                let mut out = num.clone();
                out.append(x);
                Some(out)
            },
            None => None,
        },
    }
}


// ---------- Methods ----------

pub proof fn lemma_exprs_view(v: Seq<Expr>)
    ensures
        exprs_view(v).len() == v.len(),
        forall|i: int| 0 <= i < v.len() ==> #[trigger] exprs_view(v)[i] == expr_view(v[i]),
    decreases v.len(),
{
    if v.len() > 0 {
        lemma_exprs_view(v.drop_last());
    }
}

pub open spec fn plans_view(v: Seq<Plan<String>>) -> Seq<PlanV> {
    v.map_values(|p: Plan<String>| p@)
}

/// The string of a string-literal expression.
pub open spec fn str_lit_of(e: ExprV) -> Option<Seq<char>> {
    match e.kind {
        ExprKindV::Literal(LiteralV::Str(s)) => Some(s),
        _ => None,
    }
}

/// The string literal at argument `i`, if that argument is one.
pub open spec fn str_lit_arg(args: Seq<ExprV>, i: int) -> Option<Seq<char>> {
    if 0 <= i < args.len() {
        str_lit_of(args[i])
    } else {
        None
    }
}

fn str_lit(e: &Expr) -> (r: Option<String>)
    ensures
        match str_lit_of(expr_view(*e)) {
            Some(s) => r is Some && r->0@ == s,
            None => r is None,
        },
{
    match &e.kind {
        ExprKind::Literal(Literal::Str(s)) => Some(s.clone()),
        _ => None,
    }
}

fn str_lit_at(args: &Vec<Expr>, i: usize) -> (r: Option<String>)
    ensures
        match str_lit_arg(exprs_view(args@), i as int) {
            Some(s) => r is Some && r->0@ == s,
            None => r is None,
        },
{
    proof {
        lemma_exprs_view(args@);
    }
    if i < args.len() {
        str_lit(&args[i])
    } else {
        None
    }
}

/// Name a type has for `isType`.
pub open spec fn kind_name(ty: InferredType) -> Seq<char> {
    match ty {
        InferredType::Bool => "boolean"@,
        InferredType::Int | InferredType::Float => "number"@,
        InferredType::String => "string"@,
        InferredType::Date | InferredType::Datetime => "date"@,
        InferredType::List => "list"@,
        _ => Seq::empty(),
    }
}

fn kind_name_exec(ty: InferredType) -> (r: &'static str)
    ensures
        r@ == kind_name(ty),
{
    match ty {
        InferredType::Bool => "boolean",
        InferredType::Int | InferredType::Float => "number",
        InferredType::String => "string",
        InferredType::Date | InferredType::Datetime => "date",
        InferredType::List => "list",
        _ => {
            proof {
                reveal_strlit("");
            }
            ""
        },
    }
}

/// Null, or empty text or list.
pub open spec fn is_empty_spec(p: PlanV, ty: InferredType) -> PlanV {
    match ty {
        InferredType::String => b2(
            BinPOp::Or,
            u(UnOp::IsNull, p),
            b2(BinPOp::Eq, u(UnOp::StrLenChars, p), Plan::UInt(0)),
        ),
        InferredType::List => b2(
            BinPOp::Or,
            u(UnOp::IsNull, p),
            b2(BinPOp::Eq, u(UnOp::ListLen, p), Plan::UInt(0)),
        ),
        InferredType::Null => Plan::Bool(true),
        _ => u(UnOp::IsNull, p),
    }
}

/// Case-insensitive `containsAny`: any argument occurs in the receiver.
pub open spec fn any_contains(rl: PlanV, args: Seq<PlanV>) -> PlanV
    decreases args.len(),
{
    if args.len() == 0 {
        Plan::Bool(false)
    } else {
        b2(
            BinPOp::Or,
            any_contains(rl, args.drop_last()),
            b2(BinPOp::StrContains, rl, u(UnOp::StrToLower, args.last())),
        )
    }
}

pub open spec fn strip_brackets(p: PlanV) -> PlanV {
    t3(
        TerOp::StrReplaceLiteral,
        t3(TerOp::StrReplaceLiteral, p, sstr("[["@), sstr(Seq::empty())),
        sstr("]]"@),
        sstr(Seq::empty()),
    )
}

pub open spec fn is_regex_arg(raw: Seq<ExprV>) -> bool {
    raw.len() > 0 && raw[0].kind matches ExprKindV::Literal(LiteralV::Regex(_))
}

/// String methods. Predicates fold case on both sides; `replace` takes a
/// regex literal as a regex and anything else literally.
pub open spec fn string_method_spec(p: PlanV, method: Seq<char>, raw: Seq<ExprV>, args: Seq<PlanV>) -> TrOut {
    if method == "lower"@ {
        Ok((u(UnOp::StrToLower, p), InferredType::String))
    } else if method == "upper"@ {
        Ok((u(UnOp::StrToUpper, p), InferredType::String))
    } else if method == "trim"@ {
        Ok((u(UnOp::StrStrip, p), InferredType::String))
    } else if method == "reverse"@ {
        Ok((u(UnOp::StrReverse, p), InferredType::String))
    } else if method == "title"@ {
        Ok((u(UnOp::StrTitle, strip_brackets(p)), InferredType::String))
    } else if method == "contains"@ {
        if args.len() < 1 {
            Err(TrErr::Abort)
        } else {
            Ok((b2(BinPOp::StrContains, u(UnOp::StrToLower, p), u(UnOp::StrToLower, args[0])), InferredType::Bool))
        }
    } else if method == "containsAny"@ {
        Ok((any_contains(u(UnOp::StrToLower, p), args), InferredType::Bool))
    } else if method == "startsWith"@ {
        if args.len() < 1 {
            Err(TrErr::Abort)
        } else {
            Ok((b2(BinPOp::StrStartsWith, u(UnOp::StrToLower, p), u(UnOp::StrToLower, args[0])), InferredType::Bool))
        }
    } else if method == "endsWith"@ {
        if args.len() < 1 {
            Err(TrErr::Abort)
        } else {
            Ok((b2(BinPOp::StrEndsWith, u(UnOp::StrToLower, p), u(UnOp::StrToLower, args[0])), InferredType::Bool))
        }
    } else if method == "length"@ {
        Ok((cs(DType::Int64, u(UnOp::StrLenChars, p)), InferredType::Int))
    } else if method == "replace"@ {
        if args.len() < 2 {
            Err(TrErr::Abort)
        } else {
            Ok((
                t3(
                    if is_regex_arg(raw) { TerOp::StrReplaceRegex } else { TerOp::StrReplaceLiteral },
                    p,
                    args[0],
                    args[1],
                ),
                InferredType::String,
            ))
        }
    } else if method == "split"@ {
        if args.len() < 1 {
            Err(TrErr::Abort)
        } else {
            Ok((b2(BinPOp::StrSplit, p, args[0]), InferredType::List))
        }
    } else {
        null_out()
    }
}

/// Number methods; `round` always rounds to whole numbers.
pub open spec fn number_method_spec(p: PlanV, ty: InferredType, method: Seq<char>) -> TrOut {
    if method == "abs"@ {
        Ok((u(UnOp::Abs, p), ty))
    } else if method == "ceil"@ {
        Ok((u(UnOp::Ceil, p), ty))
    } else if method == "floor"@ {
        Ok((u(UnOp::Floor, p), ty))
    } else if method == "round"@ {
        Ok((u(UnOp::Round, p), ty))
    } else {
        null_out()
    }
}

/// JS-style list slice: negative indices count from the end, both bounds
/// clamped into the list, a negative length taken as zero.
pub open spec fn slice_spec(p: PlanV, args: Seq<PlanV>) -> PlanV {
    let len = cs(DType::Int64, u(UnOp::ListLen, p));
    let start_arg = if args.len() > 0 {
        args[0]
    } else {
        Plan::Int(0)
    };
    let si = cs(DType::Int64, start_arg);
    let start0 = when(b2(BinPOp::Lt, si, Plan::Int(0)), b2(BinPOp::Add, len, si), si);
    let end0 = if args.len() > 1 {
        let ei = cs(DType::Int64, args[1]);
        when(b2(BinPOp::Lt, ei, Plan::Int(0)), b2(BinPOp::Add, len, ei), ei)
    } else {
        len
    };
    let start = when(
        b2(BinPOp::Lt, start0, Plan::Int(0)),
        Plan::Int(0),
        when(b2(BinPOp::Gt, start0, len), len, start0),
    );
    let end = when(
        b2(BinPOp::Lt, end0, Plan::Int(0)),
        Plan::Int(0),
        when(b2(BinPOp::Gt, end0, len), len, end0),
    );
    let length0 = cs(DType::Int64, b2(BinPOp::Sub, end, start));
    let length = when(b2(BinPOp::Lt, length0, Plan::Int(0)), Plan::Int(0), length0);
    t3(TerOp::ListSlice, p, start, length)
}

/// List methods; `length` of a missing list stays null.
pub open spec fn list_method_spec(p: PlanV, method: Seq<char>, args: Seq<PlanV>) -> TrOut {
    if method == "contains"@ {
        if args.len() < 1 {
            Err(TrErr::Abort)
        } else {
            Ok((b2(BinPOp::ListContains, p, args[0]), InferredType::Bool))
        }
    } else if method == "length"@ {
        Ok((when(u(UnOp::IsNull, p), Plan::Null, cs(DType::Int64, u(UnOp::ListLen, p))), InferredType::Int))
    } else if method == "join"@ {
        Ok((
            b2(BinPOp::ListJoin, p, if args.len() > 0 { args[0] } else { sstr(", "@) }),
            InferredType::String,
        ))
    } else if method == "reverse"@ {
        Ok((u(UnOp::ListReverse, p), InferredType::List))
    } else if method == "unique"@ {
        Ok((u(UnOp::ListUnique, p), InferredType::List))
    } else if method == "sort"@ {
        Ok((u(UnOp::ListSort, p), InferredType::List))
    } else if method == "slice"@ {
        Ok((slice_spec(p, args), InferredType::List))
    } else {
        null_out()
    }
}

/// Date methods; `format` takes a Moment.js pattern literal.
pub open spec fn date_method_spec(p: PlanV, method: Seq<char>, raw: Seq<ExprV>) -> TrOut {
    if method == "format"@ {
        let fmt = match str_lit_arg(raw, 0) {
            Some(s) => s,
            None => "%Y-%m-%d %H:%M:%S"@,
        };
        Ok((Plan::DtFormat(Box::new(p), moment_to_chrono_spec(fmt)), InferredType::String))
    } else if method == "date"@ {
        Ok((u(UnOp::DtTruncateDay, p), InferredType::Datetime))
    } else if method == "time"@ {
        Ok((Plan::DtFormat(Box::new(p), "%H:%M:%S"@), InferredType::String))
    } else {
        null_out()
    }
}

/// A method call on a translated receiver.
pub open spec fn apply_method_spec(p: PlanV, ty: InferredType, method: Seq<char>, raw: Seq<ExprV>, args: Seq<PlanV>) -> TrOut {
    if method == "toString"@ {
        Ok((cs(DType::Utf8, p), InferredType::String))
    } else if method == "isEmpty"@ {
        Ok((is_empty_spec(p, ty), InferredType::Bool))
    } else if method == "isType"@ {
        match str_lit_arg(raw, 0) {
            None => Err(TrErr::Eval(literal_arg_message(raw))),
            Some(t) => Ok((Plan::Bool(kind_name(ty) == t), InferredType::Bool)),
        }
    } else if method == "isTruthy"@ {
        Ok((truthy_spec(p, ty), InferredType::Bool))
    } else {
        match ty {
            InferredType::String => string_method_spec(p, method, raw, args),
            InferredType::Int | InferredType::Float => number_method_spec(p, ty, method),
            InferredType::List => list_method_spec(p, method, args),
            InferredType::Date | InferredType::Datetime => date_method_spec(p, method, raw),
            _ => null_out(),
        }
    }
}

fn arg_plan(args: &Vec<Plan<String>>, i: usize) -> (r: Plan<String>)
    requires
        i < args.len(),
    ensures
        r@ == plans_view(args@)[i as int],
{
    clone_plan(&args[i])
}

fn string_method(p: Plan<String>, method: &str, raw: &Vec<Expr>, args: &Vec<Plan<String>>) -> (r: Result<Translated, CrabaseError>)
    ensures
        tres(r, string_method_spec(p@, method@, exprs_view(raw@), plans_view(args@))),
{
    proof {
        lemma_exprs_view(raw@);
    }
    if str_eq(method, "lower") {
        ok_result(mk_un(UnOp::StrToLower, p), InferredType::String)
    } else if str_eq(method, "upper") {
        ok_result(mk_un(UnOp::StrToUpper, p), InferredType::String)
    } else if str_eq(method, "trim") {
        ok_result(mk_un(UnOp::StrStrip, p), InferredType::String)
    } else if str_eq(method, "reverse") {
        ok_result(mk_un(UnOp::StrReverse, p), InferredType::String)
    } else if str_eq(method, "title") {
        proof {
            reveal_strlit("");
            assert(""@ =~= Seq::<char>::empty());
        }
        let stripped = mk_ter(
            TerOp::StrReplaceLiteral,
            mk_ter(TerOp::StrReplaceLiteral, p, mk_str("[["), mk_str("")),
            mk_str("]]"),
            mk_str(""),
        );
        ok_result(mk_un(UnOp::StrTitle, stripped), InferredType::String)
    } else if str_eq(method, "contains") {
        if args.len() < 1 {
            return abort("contains needs an argument");
        }
        ok_result(
            mk_bin(BinPOp::StrContains, mk_un(UnOp::StrToLower, p), mk_un(UnOp::StrToLower, arg_plan(args, 0))),
            InferredType::Bool,
        )
    } else if str_eq(method, "containsAny") {
        let rl = mk_un(UnOp::StrToLower, p);
        let mut acc = Plan::Bool(false);
        let mut i: usize = 0;
        while i < args.len()
            invariant
                0 <= i <= args.len(),
                acc@ == any_contains(rl@, plans_view(args@).take(i as int)),
            decreases args.len() - i,
        {
            proof {
                assert(plans_view(args@).take(i + 1).drop_last() =~= plans_view(args@).take(i as int));
            }
            acc = mk_bin(
                BinPOp::Or,
                acc,
                mk_bin(BinPOp::StrContains, clone_plan(&rl), mk_un(UnOp::StrToLower, arg_plan(args, i))),
            );
            i += 1;
        }
        assert(plans_view(args@).take(args.len() as int) =~= plans_view(args@));
        ok_result(acc, InferredType::Bool)
    } else if str_eq(method, "startsWith") {
        if args.len() < 1 {
            return abort("startsWith needs an argument");
        }
        ok_result(
            mk_bin(BinPOp::StrStartsWith, mk_un(UnOp::StrToLower, p), mk_un(UnOp::StrToLower, arg_plan(args, 0))),
            InferredType::Bool,
        )
    } else if str_eq(method, "endsWith") {
        if args.len() < 1 {
            return abort("endsWith needs an argument");
        }
        ok_result(
            mk_bin(BinPOp::StrEndsWith, mk_un(UnOp::StrToLower, p), mk_un(UnOp::StrToLower, arg_plan(args, 0))),
            InferredType::Bool,
        )
    } else if str_eq(method, "length") {
        ok_result(mk_cast(DType::Int64, mk_un(UnOp::StrLenChars, p)), InferredType::Int)
    } else if str_eq(method, "replace") {
        if args.len() < 2 {
            return abort("replace needs two arguments");
        }
        let is_regex = raw.len() > 0 && match &raw[0].kind {
            ExprKind::Literal(Literal::Regex(_)) => true,
            _ => false,
        };
        proof {
            if raw@.len() > 0 {
                assert(exprs_view(raw@)[0] == expr_view(raw@[0]));
            }
            assert(is_regex == is_regex_arg(exprs_view(raw@)));
        }
        let op = if is_regex {
            TerOp::StrReplaceRegex
        } else {
            TerOp::StrReplaceLiteral
        };
        ok_result(mk_ter(op, p, arg_plan(args, 0), arg_plan(args, 1)), InferredType::String)
    } else if str_eq(method, "split") {
        if args.len() < 1 {
            return abort("split needs an argument");
        }
        ok_result(mk_bin(BinPOp::StrSplit, p, arg_plan(args, 0)), InferredType::List)
    } else {
        null_result()
    }
}

fn number_method(p: Plan<String>, ty: InferredType, method: &str) -> (r: Result<Translated, CrabaseError>)
    ensures
        tres(r, number_method_spec(p@, ty, method@)),
{
    if str_eq(method, "abs") {
        ok_result(mk_un(UnOp::Abs, p), ty)
    } else if str_eq(method, "ceil") {
        ok_result(mk_un(UnOp::Ceil, p), ty)
    } else if str_eq(method, "floor") {
        ok_result(mk_un(UnOp::Floor, p), ty)
    } else if str_eq(method, "round") {
        ok_result(mk_un(UnOp::Round, p), ty)
    } else {
        null_result()
    }
}

pub open spec fn norm_spec(idx: PlanV, len: PlanV) -> PlanV {
    let ii = cs(DType::Int64, idx);
    when(b2(BinPOp::Lt, ii, Plan::Int(0)), b2(BinPOp::Add, len, ii), ii)
}

fn normalize_index(idx: Plan<String>, len: &Plan<String>) -> (r: Plan<String>)
    ensures
        r@ == norm_spec(idx@, len@),
{
    let ii = mk_cast(DType::Int64, idx);
    mk_ter(
        TerOp::When,
        mk_bin(BinPOp::Lt, clone_plan(&ii), Plan::Int(0)),
        mk_bin(BinPOp::Add, clone_plan(len), clone_plan(&ii)),
        ii,
    )
}

fn clamp_index(e: Plan<String>, len: &Plan<String>) -> (r: Plan<String>)
    ensures
        r@ == when(b2(BinPOp::Lt, e@, Plan::Int(0)), Plan::Int(0), when(b2(BinPOp::Gt, e@, len@), len@, e@)),
{
    mk_ter(
        TerOp::When,
        mk_bin(BinPOp::Lt, clone_plan(&e), Plan::Int(0)),
        Plan::Int(0),
        mk_ter(TerOp::When, mk_bin(BinPOp::Gt, clone_plan(&e), clone_plan(len)), clone_plan(len), e),
    )
}

fn list_slice(p: Plan<String>, args: &Vec<Plan<String>>) -> (r: Plan<String>)
    ensures
        r@ == slice_spec(p@, plans_view(args@)),
{
    let len = mk_cast(DType::Int64, mk_un(UnOp::ListLen, clone_plan(&p)));
    let start_arg = if args.len() > 0 {
        arg_plan(args, 0)
    } else {
        Plan::Int(0)
    };
    let start0 = normalize_index(start_arg, &len);
    let end0 = if args.len() > 1 {
        normalize_index(arg_plan(args, 1), &len)
    } else {
        clone_plan(&len)
    };
    let start = clamp_index(start0, &len);
    let end = clamp_index(end0, &len);
    let length0 = mk_cast(DType::Int64, mk_bin(BinPOp::Sub, end, clone_plan(&start)));
    let length = mk_ter(
        TerOp::When,
        mk_bin(BinPOp::Lt, clone_plan(&length0), Plan::Int(0)),
        Plan::Int(0),
        length0,
    );
    mk_ter(TerOp::ListSlice, p, start, length)
}

fn list_method(p: Plan<String>, method: &str, args: &Vec<Plan<String>>) -> (r: Result<Translated, CrabaseError>)
    ensures
        tres(r, list_method_spec(p@, method@, plans_view(args@))),
{
    if str_eq(method, "contains") {
        if args.len() < 1 {
            return abort("contains needs an argument");
        }
        ok_result(mk_bin(BinPOp::ListContains, p, arg_plan(args, 0)), InferredType::Bool)
    } else if str_eq(method, "length") {
        let n = mk_cast(DType::Int64, mk_un(UnOp::ListLen, clone_plan(&p)));
        ok_result(mk_ter(TerOp::When, mk_un(UnOp::IsNull, p), Plan::Null, n), InferredType::Int)
    } else if str_eq(method, "join") {
        let sep = if args.len() > 0 {
            arg_plan(args, 0)
        } else {
            mk_str(", ")
        };
        ok_result(mk_bin(BinPOp::ListJoin, p, sep), InferredType::String)
    } else if str_eq(method, "reverse") {
        ok_result(mk_un(UnOp::ListReverse, p), InferredType::List)
    } else if str_eq(method, "unique") {
        ok_result(mk_un(UnOp::ListUnique, p), InferredType::List)
    } else if str_eq(method, "sort") {
        ok_result(mk_un(UnOp::ListSort, p), InferredType::List)
    } else if str_eq(method, "slice") {
        ok_result(list_slice(p, args), InferredType::List)
    } else {
        null_result()
    }
}

fn date_method(p: Plan<String>, method: &str, raw: &Vec<Expr>) -> (r: Result<Translated, CrabaseError>)
    ensures
        tres(r, date_method_spec(p@, method@, exprs_view(raw@))),
{
    if str_eq(method, "format") {
        let fmt = match str_lit_at(raw, 0) {
            Some(s) => s,
            None => String::from_str("%Y-%m-%d %H:%M:%S"),
        };
        ok_result(Plan::DtFormat(Box::new(p), moment_to_chrono(fmt.as_str())), InferredType::String)
    } else if str_eq(method, "date") {
        ok_result(mk_un(UnOp::DtTruncateDay, p), InferredType::Datetime)
    } else if str_eq(method, "time") {
        ok_result(Plan::DtFormat(Box::new(p), String::from_str("%H:%M:%S")), InferredType::String)
    } else {
        null_result()
    }
}

fn apply_method(p: Plan<String>, ty: InferredType, method: &str, raw: &Vec<Expr>, args: &Vec<Plan<String>>) -> (r: Result<Translated, CrabaseError>)
    ensures
        tres(r, apply_method_spec(p@, ty, method@, exprs_view(raw@), plans_view(args@))),
{
    if str_eq(method, "toString") {
        ok_result(mk_cast(DType::Utf8, p), InferredType::String)
    } else if str_eq(method, "isEmpty") {
        let e = match ty {
            InferredType::String => mk_bin(
                BinPOp::Or,
                mk_un(UnOp::IsNull, clone_plan(&p)),
                mk_bin(BinPOp::Eq, mk_un(UnOp::StrLenChars, p), Plan::UInt(0)),
            ),
            InferredType::List => mk_bin(
                BinPOp::Or,
                mk_un(UnOp::IsNull, clone_plan(&p)),
                mk_bin(BinPOp::Eq, mk_un(UnOp::ListLen, p), Plan::UInt(0)),
            ),
            InferredType::Null => Plan::Bool(true),
            _ => mk_un(UnOp::IsNull, p),
        };
        ok_result(e, InferredType::Bool)
    } else if str_eq(method, "isType") {
        match str_lit_at(raw, 0) {
            None => literal_arg_error(raw),
            Some(t) => ok_result(Plan::Bool(str_eq(kind_name_exec(ty), t.as_str())), InferredType::Bool),
        }
    } else if str_eq(method, "isTruthy") {
        ok_result(truthy_plan(p, ty), InferredType::Bool)
    } else {
        match ty {
            InferredType::String => string_method(p, method, raw, args),
            InferredType::Int | InferredType::Float => number_method(p, ty, method),
            InferredType::List => list_method(p, method, args),
            InferredType::Date | InferredType::Datetime => date_method(p, method, raw),
            _ => null_result(),
        }
    }
}


// ---------- Schema and context ----------

/// What translation knows of the vault table: each column with its type,
/// the column of each frontmatter key, and whether the table has rows.
#[derive(Debug)]
pub struct VaultSchema {
    pub columns: Vec<(String, InferredType)>,
    pub frontmatter_keys: Vec<(String, String)>,
    pub has_rows: bool,
}

/// Type of the first column named `name`.
pub open spec fn col_type(cols: Seq<(Seq<char>, InferredType)>, name: Seq<char>) -> Option<InferredType>
    decreases cols.len(),
{
    if cols.len() == 0 {
        None
    } else if cols[0].0 == name {
        Some(cols[0].1)
    } else {
        col_type(cols.drop_first(), name)
    }
}

/// Value of the last entry for `key` (later entries replace earlier ones).
pub open spec fn last_value(m: Seq<(Seq<char>, Seq<char>)>, key: Seq<char>) -> Option<Seq<char>>
    decreases m.len(),
{
    if m.len() == 0 {
        None
    } else if m.last().0 == key {
        Some(m.last().1)
    } else {
        last_value(m.drop_last(), key)
    }
}

pub open spec fn pairs_view(v: Seq<(String, String)>) -> Seq<(Seq<char>, Seq<char>)> {
    v.map_values(|p: (String, String)| (p.0@, p.1@))
}

pub open spec fn cols_view(v: Seq<(String, InferredType)>) -> Seq<(Seq<char>, InferredType)> {
    v.map_values(|p: (String, InferredType)| (p.0@, p.1))
}

pub(crate) fn last_value_exec<'a>(m: &'a Vec<(String, String)>, key: &str) -> (r: Option<&'a String>)
    ensures
        match last_value(pairs_view(m@), key@) {
            Some(v) => r is Some && r->0@ == v,
            None => r is None,
        },
{
    let ghost mv = pairs_view(m@);
    let mut i = m.len();
    assert(mv.take(mv.len() as int) =~= mv);
    while i > 0
        invariant
            0 <= i <= m.len(),
            mv == pairs_view(m@),
            last_value(mv, key@) == last_value(mv.take(i as int), key@),
        decreases i,
    {
        assert(mv.take(i as int).drop_last() =~= mv.take(i - 1));
        let entry = &m[i - 1];
        assert(mv[i - 1] == (entry.0@, entry.1@));
        if str_eq(entry.0.as_str(), key) {
            return Some(&entry.1);
        }
        i -= 1;
    }
    None
}

impl VaultSchema {
    pub open spec fn cols(&self) -> Seq<(Seq<char>, InferredType)> {
        cols_view(self.columns@)
    }

    pub open spec fn keys(&self) -> Seq<(Seq<char>, Seq<char>)> {
        pairs_view(self.frontmatter_keys@)
    }

    /// Type of the column `name`.
    pub fn dtype(&self, name: &str) -> (r: Option<InferredType>)
        ensures
            r == col_type(self.cols(), name@),
    {
        let ghost cv = self.cols();
        let mut i: usize = 0;
        assert(cv.skip(0) =~= cv);
        while i < self.columns.len()
            invariant
                0 <= i <= self.columns.len(),
                cv == self.cols(),
                col_type(cv, name@) == col_type(cv.skip(i as int), name@),
            decreases self.columns.len() - i,
        {
            assert(cv.skip(i as int).drop_first() =~= cv.skip(i + 1));
            let entry = &self.columns[i];
            assert(cv[i as int] == (entry.0@, entry.1));
            if str_eq(entry.0.as_str(), name) {
                return Some(entry.1);
            }
            i += 1;
        }
        None
    }

    pub fn has_column(&self, name: &str) -> (r: bool)
        ensures
            r == (col_type(self.cols(), name@) is Some),
    {
        self.dtype(name).is_some()
    }

    /// Column of a frontmatter key.
    pub fn resolve_frontmatter(&self, key: &str) -> (r: Option<&String>)
        ensures
            match last_value(self.keys(), key@) {
                Some(v) => r is Some && r->0@ == v,
                None => r is None,
            },
    {
        last_value_exec(&self.frontmatter_keys, key)
    }
}

/// Model of a translation context.
pub struct CtxV {
    pub cols: Seq<(Seq<char>, InferredType)>,
    pub keys: Seq<(Seq<char>, Seq<char>)>,
    pub has_rows: bool,
    pub formulas: Seq<(Seq<char>, Seq<char>)>,
    pub stack: Seq<Seq<char>>,
    pub value_bound: bool,
    pub today: i32,
    pub now: i64,
}

/// How many more formulas can be entered.
pub open spec fn fuel(c: CtxV) -> nat {
    if c.stack.len() <= c.formulas.len() {
        (c.formulas.len() - c.stack.len()) as nat
    } else {
        0
    }
}

pub open spec fn enter_formula(c: CtxV, name: Seq<char>) -> CtxV {
    CtxV { stack: c.stack.push(name), ..c }
}

pub open spec fn bind_value(c: CtxV) -> CtxV {
    CtxV { value_bound: true, ..c }
}

// ---------- Translation ----------

/// The digits before the decimal point.
pub open spec fn int_part(t: Seq<char>) -> Seq<char> {
    t.take(crate::expr::translate::dot_index(t, 0))
}

/// Index of the decimal point, or the length.
pub open spec fn dot_index(t: Seq<char>, k: int) -> int
    decreases t.len() - k,
{
    if k < 0 || k >= t.len() {
        t.len() as int
    } else if t[k] == '.' {
        k
    } else {
        dot_index(t, k + 1)
    }
}

/// A number literal is an integer when it has no non-zero fractional digit
/// and its integral part is a run of digits below 2^63; otherwise it is a
/// float given by its text.
pub open spec fn number_spec(t: Seq<char>) -> (PlanV, InferredType) {
    let frac_zero = forall|k: int| dot_index(t, 0) < k < t.len() ==> #[trigger] t[k] == '0';
    let v = crate::vault::digits_value(int_part(t));
    if frac_zero && crate::vault::all_digits(int_part(t)) && v < 9223372036854775808 {
        (Plan::Int(v as i64), InferredType::Int)
    } else {
        (Plan::Float(t), InferredType::Float)
    }
}

pub open spec fn literal_spec(l: LiteralV) -> (PlanV, InferredType) {
    match l {
        LiteralV::Number(t) => number_spec(t),
        LiteralV::Str(s) => (Plan::Str(s), InferredType::String),
        LiteralV::Regex(s) => (Plan::Str(s), InferredType::String),
        LiteralV::Bool(b) => (Plan::Bool(b), InferredType::Bool),
        LiteralV::Null => (Plan::Null, InferredType::Null),
    }
}

pub open spec fn is_var(e: ExprV, name: Seq<char>) -> bool {
    e.kind matches ExprKindV::Variable(n) && n == name
}

/// `file.<field>`: the `file_<field>` column (`basename` meaning `name`).
pub open spec fn file_field_spec(field: Seq<char>, c: CtxV) -> (PlanV, InferredType) {
    let eff = if field == "basename"@ {
        "name"@
    } else {
        field
    };
    let cname = "file_"@ + eff;
    match col_type(c.cols, cname) {
        Some(t) => (Plan::Col(cname), t),
        None => (Plan::Null, InferredType::Null),
    }
}

/// `note.<field>`: the frontmatter column of that key.
pub open spec fn note_field_spec(field: Seq<char>, c: CtxV) -> (PlanV, InferredType) {
    match last_value(c.keys, field) {
        Some(name) => match col_type(c.cols, name) {
            Some(t) => (Plan::Col(name), t),
            None => (Plan::Null, InferredType::Null),
        },
        None => (Plan::Null, InferredType::Null),
    }
}

/// The target of `<target>.asFile().properties`.
pub open spec fn as_file_target(obj: ExprV) -> Option<ExprV> {
    match obj.kind {
        ExprKindV::Member(inner, pf) => if pf != "properties"@ {
            None
        } else {
            match inner.kind {
                ExprKindV::Call(callee, args) => if args.len() != 0 {
                    None
                } else {
                    match callee.kind {
                        ExprKindV::Member(target, m) => if m == "asFile"@ {
                            Some(*target)
                        } else {
                            None
                        },
                        _ => None,
                    }
                },
                _ => None,
            }
        },
        _ => None,
    }
}

/// Column read through a cross-note lookup of `field`: its frontmatter
/// column, else the `file_<field>` column.
pub open spec fn cross_column(field: Seq<char>, c: CtxV) -> Option<Seq<char>> {
    match last_value(c.keys, field) {
        Some(n) => Some(n),
        None => if col_type(c.cols, "file_"@ + field) is Some {
            Some("file_"@ + field)
        } else {
            None
        },
    }
}

/// The stem a link names: without `[[`/`]]` and before any `|`.
pub open spec fn link_target_plan(p: PlanV) -> PlanV {
    let raw = cs(DType::Utf8, p);
    let stripped = b2(BinPOp::StrStripSuffix, b2(BinPOp::StrStripPrefix, raw, sstr("[["@)), sstr("]]"@));
    b2(BinPOp::ListGet, b2(BinPOp::StrSplit, stripped, sstr("|"@)), Plan::Int(0))
}

/// `<link>.asFile().properties.<field>` once the link is translated.
pub open spec fn cross_file_spec(p: PlanV, field: Seq<char>, c: CtxV) -> (PlanV, InferredType) {
    match cross_column(field, c) {
        None => (Plan::Null, InferredType::Null),
        Some(col) => match col_type(c.cols, col) {
            None => (Plan::Null, InferredType::Null),
            Some(t) => if !c.has_rows {
                (Plan::Null, InferredType::Null)
            } else {
                (Plan::CrossFile(Box::new(link_target_plan(p)), col), t)
            },
        },
    }
}

pub open spec fn index_spec(rp: PlanV, rt: InferredType, ip: PlanV) -> (PlanV, InferredType) {
    match rt {
        InferredType::List => (b2(BinPOp::ListGet, rp, cs(DType::Int64, ip)), InferredType::Unknown),
        InferredType::String => (
            t3(TerOp::StrSlice, rp, cs(DType::Int64, ip), Plan::UInt(1)),
            InferredType::String,
        ),
        _ => (Plan::Null, InferredType::Null),
    }
}

/// `min`/`max` over plans: pairwise `when` from the left.
pub open spec fn min_max_spec(ps: Seq<PlanV>, want_min: bool) -> PlanV
    decreases ps.len(),
{
    if ps.len() == 0 {
        Plan::Null
    } else if ps.len() == 1 {
        ps[0]
    } else {
        let a = min_max_spec(ps.drop_last(), want_min);
        when(
            b2(if want_min { BinPOp::Lt } else { BinPOp::Gt }, a, ps.last()),
            a,
            ps.last(),
        )
    }
}

/// Strings parsed as timestamps: ISO date-time, ISO date, then date-time
/// with a space; first match wins.
pub open spec fn parse_dates_plan(p: PlanV) -> PlanV {
    let st = strip_brackets(cs(DType::Utf8, p));
    let a = Plan::Strptime(Box::new(st), "%Y-%m-%dT%H:%M:%S"@);
    let b = Plan::Strptime(Box::new(st), "%Y-%m-%d"@);
    let d = Plan::Strptime(Box::new(st), "%Y-%m-%d %H:%M:%S"@);
    when(u(UnOp::IsNotNull, a), a, when(u(UnOp::IsNotNull, b), b, d))
}

/// `date("...")` on a literal: the literal (unwrapped from `[[ ]]`) read as
/// a date-time with a space or a `T`, else as a date.
pub open spec fn date_literal_spec(s: Seq<char>) -> TrOut {
    let st = crate::vault::strip_wikilink_spec(s);
    match crate::dates::naive_datetime_micros(st, "%Y-%m-%d %H:%M:%S"@) {
        Some(m) => Ok((Plan::DatetimeLit(m), InferredType::Datetime)),
        None => match crate::dates::naive_datetime_micros(st, "%Y-%m-%dT%H:%M:%S"@) {
            Some(m) => Ok((Plan::DatetimeLit(m), InferredType::Datetime)),
            None => match crate::dates::naive_date_days(st, "%Y-%m-%d"@) {
                Some(d) => Ok((Plan::DateLit(d), InferredType::Date)),
                None => Err(TrErr::Eval(date_message(s))),
            },
        },
    }
}

/// `date(x)` once `x` is translated.
pub open spec fn date_value_spec(p: PlanV, t: InferredType) -> (PlanV, InferredType) {
    if t.date_like() {
        (p, t)
    } else if !(t == InferredType::String || t == InferredType::Unknown) {
        (cs(DType::DatetimeUs, Plan::Null), InferredType::Datetime)
    } else {
        (parse_dates_plan(p), InferredType::Datetime)
    }
}

pub open spec fn link_one_spec(path: PlanV) -> PlanV {
    let path_str = cs(DType::Utf8, path);
    let already = b2(
        BinPOp::And,
        b2(BinPOp::StrStartsWith, path_str, sstr("[["@)),
        b2(BinPOp::StrEndsWith, path_str, sstr("]]"@)),
    );
    let wrapped = Plan::ConcatStr(Box::new(to_plist(seq![sstr("[["@), path, sstr("]]"@)])));
    when(already, path_str, wrapped)
}

pub open spec fn link_two_spec(path: PlanV, display: PlanV) -> PlanV {
    let path_str = cs(DType::Utf8, path);
    let already = b2(
        BinPOp::And,
        b2(BinPOp::StrStartsWith, path_str, sstr("[["@)),
        b2(BinPOp::StrEndsWith, path_str, sstr("]]"@)),
    );
    let ds = cs(DType::Utf8, display);
    let present = b2(
        BinPOp::And,
        u(UnOp::IsNotNull, ds),
        b2(BinPOp::Gt, u(UnOp::StrLenChars, ds), Plan::UInt(0)),
    );
    let with = Plan::ConcatStr(
        Box::new(to_plist(seq![sstr("[["@), path, sstr("|"@), ds, sstr("]]"@)])),
    );
    let without = Plan::ConcatStr(Box::new(to_plist(seq![sstr("[["@), path, sstr("]]"@)])));
    when(already, path_str, when(present, with, without))
}

/// All arguments as string literals, if they all are.
pub open spec fn all_str_lits(args: Seq<ExprV>) -> Option<Seq<Seq<char>>>
    decreases args.len(),
{
    if args.len() == 0 {
        Some(Seq::empty())
    } else {
        match all_str_lits(args.drop_last()) {
            None => None,
            Some(prev) => match str_lit_of(args.last()) {
                None => None,
                Some(s) => Some(prev.push(s)),
            },
        }
    }
}

pub open spec fn tag_match(needle: Seq<char>) -> PlanV {
    b2(
        BinPOp::Or,
        b2(BinPOp::Eq, Plan::Elem, sstr(needle)),
        b2(BinPOp::StrStartsWith, Plan::Elem, sstr(needle + "/"@)),
    )
}

pub open spec fn link_match(needle: Seq<char>) -> PlanV {
    b2(
        BinPOp::Or,
        b2(
            BinPOp::Or,
            b2(
                BinPOp::Or,
                b2(BinPOp::Eq, Plan::Elem, sstr(needle)),
                b2(BinPOp::StrEndsWith, Plan::Elem, sstr("/"@ + needle)),
            ),
            b2(BinPOp::Eq, Plan::Elem, sstr(needle + ".md"@)),
        ),
        b2(BinPOp::StrEndsWith, Plan::Elem, sstr("/"@ + needle + ".md"@)),
    )
}

/// Disjunction of the element tests for each needle.
pub open spec fn any_needle(needles: Seq<Seq<char>>, tags: bool) -> PlanV
    decreases needles.len(),
{
    if needles.len() == 0 {
        Plan::Bool(false)
    } else {
        b2(
            BinPOp::Or,
            any_needle(needles.drop_last(), tags),
            if tags {
                tag_match(needles.last())
            } else {
                link_match(needles.last())
            },
        )
    }
}

/// Some element of the list column satisfies the tests (false when the
/// list is missing).
pub open spec fn list_any_spec(column: Seq<char>, pred: PlanV) -> PlanV {
    b2(
        BinPOp::FillNull,
        u(UnOp::ListAny, b2(BinPOp::ListEval, Plan::Col(column), pred)),
        Plan::Bool(false),
    )
}

pub open spec fn in_folder_spec(folder: Seq<char>) -> PlanV {
    let ws = folder + "/"@;
    b2(
        BinPOp::Or,
        b2(
            BinPOp::Or,
            b2(BinPOp::Eq, Plan::Col("file_folder"@), sstr(folder)),
            b2(BinPOp::StrStartsWith, Plan::Col("file_folder"@), sstr(ws)),
        ),
        b2(BinPOp::StrStartsWith, Plan::Col("file_path"@), sstr(ws)),
    )
}

/// Translation of an expression in a context. A formula is entered at most
/// once on any path; entering one already being translated is an error.
pub open spec fn tr(e: ExprV, c: CtxV) -> TrOut
    decreases fuel(c), e, 2nat,
{
    match e.kind {
        ExprKindV::Literal(l) => Ok(literal_spec(l)),
        ExprKindV::Variable(name) => if name == "value"@ && c.value_bound {
            Ok((Plan::Elem, InferredType::Unknown))
        } else if name == "file"@ {
            Ok((Plan::Col("file_path"@), InferredType::String))
        } else if last_value(c.formulas, name) is Some {
            tr_formula(name, c, e)
        } else {
            match col_type(c.cols, name) {
                Some(t) => Ok((Plan::Col(name), t)),
                None => null_out(),
            }
        },
        ExprKindV::Member(obj, field) => if is_var(*obj, "file"@) {
            Ok(file_field_spec(field, c))
        } else if is_var(*obj, "note"@) {
            Ok(note_field_spec(field, c))
        } else if is_var(*obj, "formula"@) {
            tr_formula(field, c, e)
        } else if as_file_target(*obj) is Some {
            match tr(as_file_target(*obj)->0, c) {
                Err(x) => Err(x),
                Ok((p, _)) => Ok(cross_file_spec(p, field, c)),
            }
        } else {
            match tr(*obj, c) {
                Err(x) => Err(x),
                Ok((p, t)) => Ok(member_spec(p, t, field)),
            }
        },
        ExprKindV::Index(obj, idx) => if is_var(*obj, "formula"@) {
            match str_lit_of(*idx) {
                Some(name) => tr_formula(name, c, e),
                None => null_out(),
            }
        } else if is_var(*obj, "note"@) {
            match str_lit_of(*idx) {
                Some(name) => Ok(note_field_spec(name, c)),
                None => null_out(),
            }
        } else {
            match tr(*obj, c) {
                Err(x) => Err(x),
                Ok((rp, rt)) => match tr(*idx, c) {
                    Err(x) => Err(x),
                    Ok((ip, _)) => Ok(index_spec(rp, rt, ip)),
                },
            }
        },
        ExprKindV::Call(callee, args) => match callee.kind {
            ExprKindV::Variable(name) => tr_function(c, e),
            ExprKindV::Member(obj, method) => tr_method(c, e),
            _ => Err(TrErr::Eval(not_callable_message(*callee))),
        },
        ExprKindV::Array(items) => if items.len() == 0 {
            Ok((Plan::EmptyStrList, InferredType::List))
        } else {
            match tr_args(items, c) {
                Err(x) => Err(x),
                Ok(ts) => Ok((Plan::ConcatList(Box::new(to_plist(ts.map_values(|t: (PlanV, InferredType)| t.0)))), InferredType::List)),
            }
        },
        ExprKindV::Binary(op, left, right) => tr_binary(c, e),
        ExprKindV::Unary(op, operand) => match tr(*operand, c) {
            Err(x) => Err(x),
            Ok((p, t)) => match op {
                crate::expr::ast::UnaryOp::Not => Ok((u(UnOp::Not, truthy_spec(p, t)), InferredType::Bool)),
                crate::expr::ast::UnaryOp::Neg => Ok((b2(BinPOp::Sub, Plan::Int(0), p), t)),
            },
        },
    }
}

/// Translation of each expression, in order; the first error stops it.
pub open spec fn tr_args(args: Seq<ExprV>, c: CtxV) -> Result<Seq<(PlanV, InferredType)>, TrErr>
    decreases fuel(c), args, 2nat,
{
    if args.len() == 0 {
        Ok(Seq::empty())
    } else {
        match tr_args(args.drop_last(), c) {
            Err(x) => Err(x),
            Ok(prev) => match tr(args.last(), c) {
                Err(x) => Err(x),
                Ok(t) => Ok(prev.push(t)),
            },
        }
    }
}

/// A formula by name: a missing formula is null; its body is parsed, then
/// translated with the formula marked as entered.
pub open spec fn tr_formula(name: Seq<char>, c: CtxV, origin: ExprV) -> TrOut
    decreases fuel(c), origin, 0nat,
{
    match last_value(c.formulas, name) {
        None => null_out(),
        Some(body) => match crate::expr::parser::parse_text(body) {
            Err(pe) => Err(TrErr::Parse(pe)),
            Ok(ast) => if c.stack.contains(name) {
                Err(TrErr::Eval(cycle_message(c.stack, name)))
            } else if c.stack.len() >= c.formulas.len() {
                null_out()
            } else {
                tr(ast, enter_formula(c, name))
            },
        },
    }
}

/// `left op right`; a date plus or minus a duration literal shifts it.
pub open spec fn tr_binary(c: CtxV, origin: ExprV) -> TrOut
    decreases fuel(c), origin, 1nat,
{
    match origin.kind {
        ExprKindV::Binary(op, left_box, right_box) => {
            let left = *left_box;
            let right = *right_box;
    let dur = match right.kind {
        ExprKindV::Literal(LiteralV::Str(d)) => duration_spec(d),
        _ => None,
    };
    let shift = (op == crate::expr::ast::BinOp::Add || op == crate::expr::ast::BinOp::Sub) && dur is Some;
    match tr(left, c) {
        Err(x) => Err(x),
        Ok((lp, lt)) => if shift && lt.date_like() {
            let signed = if op == crate::expr::ast::BinOp::Add {
                dur->0
            } else {
                "-"@ + dur->0
            };
            Ok((b2(BinPOp::DtOffsetBy, lp, sstr(signed)), lt))
        } else {
            match tr(right, c) {
                Err(x) => Err(x),
                Ok((rp, rt)) => Ok(binary_spec(op, lp, lt, rp, rt)),
            }
        },
    }
        },
        _ => null_out(),
    }
}

/// Calls of named functions.
pub open spec fn tr_function(c: CtxV, origin: ExprV) -> TrOut
    decreases fuel(c), origin, 1nat,
{
    match origin.kind {
        ExprKindV::Call(callee, args) => match callee.kind {
            ExprKindV::Variable(name) => {
    if name == "if"@ {
        if args.len() < 1 {
            Err(TrErr::Abort)
        } else {
            match tr(args[0], c) {
                Err(x) => Err(x),
                Ok((cp, ct)) => if args.len() < 2 {
                    Err(TrErr::Abort)
                } else {
                    match tr(args[1], c) {
                        Err(x) => Err(x),
                        Ok((ap, at)) => if args.len() < 3 {
                            Err(TrErr::Abort)
                        } else {
                            match tr(args[2], c) {
                                Err(x) => Err(x),
                                Ok((bp, bt)) => {
                                    let (a, b, t) = align_spec(ap, at, bp, bt);
                                    Ok((when(truthy_spec(cp, ct), a, b), t))
                                },
                            }
                        },
                    }
                },
            }
        }
    } else if name == "number"@ {
        if args.len() < 1 {
            Err(TrErr::Abort)
        } else {
            match tr(args[0], c) {
                Err(x) => Err(x),
                Ok((p, _)) => Ok((cs(DType::Float64, p), InferredType::Float)),
            }
        }
    } else if name == "list"@ {
        match tr_args(args, c) {
            Err(x) => Err(x),
            Ok(ts) => if ts.len() == 0 {
                Err(TrErr::Eval(empty_list_message()))
            } else {
                Ok((Plan::ConcatList(Box::new(to_plist(ts.map_values(|t: (PlanV, InferredType)| t.0)))), InferredType::List))
            },
        }
    } else if name == "min"@ || name == "max"@ {
        match tr_args(args, c) {
            Err(x) => Err(x),
            Ok(ts) => Ok((min_max_spec(ts.map_values(|t: (PlanV, InferredType)| t.0), name == "min"@), InferredType::Float)),
        }
    } else if name == "date"@ {
        if args.len() == 0 {
            null_out()
        } else {
            match str_lit_of(args[0]) {
                Some(s) => date_literal_spec(s),
                None => match tr(args[0], c) {
                    Err(x) => Err(x),
                    Ok((p, t)) => Ok(date_value_spec(p, t)),
                },
            }
        }
    } else if name == "today"@ {
        Ok((Plan::DateLit(c.today), InferredType::Date))
    } else if name == "now"@ {
        Ok((Plan::DatetimeLit(c.now), InferredType::Datetime))
    } else if name == "link"@ {
        if args.len() < 1 {
            Err(TrErr::Abort)
        } else {
            match tr(args[0], c) {
                Err(x) => Err(x),
                Ok((pp, _)) => if args.len() >= 2 {
                    match tr(args[1], c) {
                        Err(x) => Err(x),
                        Ok((dp, _)) => Ok((link_two_spec(pp, dp), InferredType::String)),
                    }
                } else {
                    Ok((link_one_spec(pp), InferredType::String))
                },
            }
        }
    } else if last_value(c.formulas, name) is Some {
        tr_formula(name, c, origin)
    } else {
        null_out()
    }
            },
            _ => null_out(),
        },
        _ => null_out(),
    }
}

/// Method calls: `file.<method>(...)`, `.map(callback)` with `value` bound
/// to each element, and methods on translated receivers.
pub open spec fn tr_method(c: CtxV, origin: ExprV) -> TrOut
    decreases fuel(c), origin, 1nat,
{
    match origin.kind {
        ExprKindV::Call(callee, args) => match callee.kind {
            ExprKindV::Member(obj_box, method) => {
                let obj = *obj_box;
    if is_var(obj, "file"@) {
        if method == "inFolder"@ {
            match str_lit_arg(args, 0) {
                None => Err(TrErr::Eval(literal_arg_message(args))),
                Some(f) => Ok((in_folder_spec(f), InferredType::Bool)),
            }
        } else if method == "hasTag"@ {
            match all_str_lits(args) {
                None => Err(TrErr::Eval("expected a string literal argument"@)),
                Some(ns) => Ok((list_any_spec("file_tags"@, any_needle(ns, true)), InferredType::Bool)),
            }
        } else if method == "hasLink"@ {
            match all_str_lits(args) {
                None => Err(TrErr::Eval("expected a string literal argument"@)),
                Some(ns) => Ok((list_any_spec("file_links"@, any_needle(ns, false)), InferredType::Bool)),
            }
        } else if method == "hasProperty"@ {
            match str_lit_arg(args, 0) {
                None => Err(TrErr::Eval(literal_arg_message(args))),
                Some(prop) => match last_value(c.keys, prop) {
                    Some(n) => if col_type(c.cols, n) is Some {
                        Ok((u(UnOp::IsNotNull, Plan::Col(n)), InferredType::Bool))
                    } else {
                        Ok((Plan::Bool(false), InferredType::Bool))
                    },
                    None => Ok((Plan::Bool(false), InferredType::Bool)),
                },
            }
        } else if method == "asLink"@ {
            if args.len() > 0 {
                match tr(args[0], c) {
                    Err(x) => Err(x),
                    Ok((dp, _)) => Ok((
                        Plan::ConcatStr(Box::new(to_plist(seq![sstr("[["@), Plan::Col("file_path"@), sstr("|"@), dp, sstr("]]"@)]))),
                        InferredType::String,
                    )),
                }
            } else {
                Ok((
                    Plan::ConcatStr(Box::new(to_plist(seq![sstr("[["@), Plan::Col("file_path"@), sstr("]]"@)]))),
                    InferredType::String,
                ))
            }
        } else {
            null_out()
        }
    } else if method == "map"@ {
        match tr(obj, c) {
            Err(x) => Err(x),
            Ok((rp, _)) => if args.len() == 0 {
                Err(TrErr::Eval(map_message()))
            } else {
                match tr(args[0], bind_value(c)) {
                    Err(x) => Err(x),
                    Ok((cp, _)) => Ok((b2(BinPOp::ListEval, rp, cs(DType::Utf8, cp)), InferredType::List)),
                }
            },
        }
    } else {
        match tr(obj, c) {
            Err(x) => Err(x),
            Ok((rp, rt)) => match tr_args(args, c) {
                Err(x) => Err(x),
                Ok(ts) => apply_method_spec(rp, rt, method, args, ts.map_values(|t: (PlanV, InferredType)| t.0)),
            },
        }
    }
            },
            _ => null_out(),
        },
        _ => null_out(),
    }
}


// ---------- Translation context ----------

/// State threaded through translation: the vault schema, the formulas (by
/// name; a later entry replaces an earlier one), the formulas being
/// translated (to detect cycles), whether `value` names the current list
/// element, and today's date and the current time as read once.
#[derive(Debug)]
pub struct TranslateCtx<'a> {
    pub schema: &'a VaultSchema,
    pub formulas: &'a Vec<(String, String)>,
    formula_stack: Vec<String>,
    value_bound: bool,
    today: i32,
    now: i64,
}

pub open spec fn strs_view(v: Seq<String>) -> Seq<Seq<char>> {
    v.map_values(|x: String| x@)
}

impl<'a> TranslateCtx<'a> {
    pub closed spec fn model(&self) -> CtxV {
        CtxV {
            cols: self.schema.cols(),
            keys: self.schema.keys(),
            has_rows: self.schema.has_rows,
            formulas: pairs_view(self.formulas@),
            stack: strs_view(self.formula_stack@),
            value_bound: self.value_bound,
            today: self.today,
            now: self.now,
        }
    }

    /// A context with nothing entered and `value` unbound; today's date and
    /// the current time are read from the clock.
    pub fn new(schema: &'a VaultSchema, formulas: &'a Vec<(String, String)>) -> (r: TranslateCtx<'a>)
        ensures
            r.model().cols == schema.cols(),
            r.model().keys == schema.keys(),
            r.model().has_rows == schema.has_rows,
            r.model().formulas == pairs_view(formulas@),
            r.model().stack == Seq::<Seq<char>>::empty(),
            stack_ok(r.model()),
            !r.model().value_bound,
    {
        let today = crate::dates::today_days();
        let now = crate::dates::now_micros();
        Self::at_time(schema, formulas, today, now)
    }

    /// A context with nothing entered and `value` unbound, for the given
    /// day (days since 1970-01-01) and time (microseconds since the epoch).
    pub fn at_time(
        schema: &'a VaultSchema,
        formulas: &'a Vec<(String, String)>,
        today: i32,
        now: i64,
    ) -> (r: TranslateCtx<'a>)
        ensures
            r.model().cols == schema.cols(),
            r.model().keys == schema.keys(),
            r.model().has_rows == schema.has_rows,
            r.model().formulas == pairs_view(formulas@),
            r.model().stack == Seq::<Seq<char>>::empty(),
            stack_ok(r.model()),
            !r.model().value_bound,
            r.model().today == today,
            r.model().now == now,
    {
        let r = TranslateCtx { schema, formulas, formula_stack: Vec::new(), value_bound: false, today, now };
        assert(strs_view(r.formula_stack@) =~= Seq::<Seq<char>>::empty());
        r
    }

    /// The vault schema.
    pub fn vault_schema(&self) -> (r: &'a VaultSchema)
        ensures
            schema_ctx(self.model(), *r),
    {
        self.schema
    }

    /// The body of formula `name` (the later entry where the name repeats).
    pub fn formula_body(&self, name: &str) -> (r: Option<&'a String>)
        ensures
            match last_value(self.model().formulas, name@) {
                Some(b) => r is Some && r->0@ == b,
                None => r is None,
            },
    {
        last_value_exec(self.formulas, name)
    }

    fn copy_stack(&self) -> (r: Vec<String>)
        ensures
            strs_view(r@) == strs_view(self.formula_stack@),
    {
        let mut out: Vec<String> = Vec::new();
        let mut i: usize = 0;
        while i < self.formula_stack.len()
            invariant
                0 <= i <= self.formula_stack.len(),
                strs_view(out@) == strs_view(self.formula_stack@.take(i as int)),
            decreases self.formula_stack.len() - i,
        {
            let ghost before = out@;
            let item = self.formula_stack[i].clone();
            out.push(item);
            assert(self.formula_stack@.take(i + 1) =~= self.formula_stack@.take(i as int).push(self.formula_stack@[i as int]));
            assert(strs_view(out@) =~= strs_view(before).push(item@));
            assert(strs_view(self.formula_stack@.take(i + 1)) =~= strs_view(self.formula_stack@.take(i as int)).push(self.formula_stack@[i as int]@));
            i += 1;
        }
        assert(self.formula_stack@.take(self.formula_stack.len() as int) =~= self.formula_stack@);
        out
    }

    fn stack_contains(&self, name: &str) -> (r: bool)
        ensures
            r == self.model().stack.contains(name@),
    {
        let ghost sv = strs_view(self.formula_stack@);
        let mut i: usize = 0;
        while i < self.formula_stack.len()
            invariant
                0 <= i <= self.formula_stack.len(),
                sv == strs_view(self.formula_stack@),
                forall|k: int| 0 <= k < i ==> sv[k] != name@,
            decreases self.formula_stack.len() - i,
        {
            if str_eq(self.formula_stack[i].as_str(), name) {
                assert(sv[i as int] == name@);
                return true;
            }
            i += 1;
        }
        false
    }

    /// The context inside formula `name`; a cycle error when `name` is
    /// already being translated.
    fn with_formula(&self, name: &str) -> (r: Result<TranslateCtx<'a>, CrabaseError>)
        ensures
            self.model().stack.contains(name@) ==> (r matches Err(CrabaseError::ExprEval(m))
                && m@ == cycle_message(self.model().stack, name@)),
            !self.model().stack.contains(name@) ==> r is Ok && r->Ok_0.model() == enter_formula(self.model(), name@),
    {
        if self.stack_contains(name) {
            let ghost sv = strs_view(self.formula_stack@);
            let mut msg = String::from_str("Formula cycle detected: ");
            let mut i: usize = 0;
            assert(sv.take(0) =~= Seq::<Seq<char>>::empty());
            while i < self.formula_stack.len()
                invariant
                    0 <= i <= self.formula_stack.len(),
                    sv == strs_view(self.formula_stack@),
                    sv.len() == self.formula_stack.len(),
                    msg@ == "Formula cycle detected: "@ + arrow_prefix(sv.take(i as int)),
                decreases self.formula_stack.len() - i,
            {
                assert(sv.take(i + 1).drop_last() =~= sv.take(i as int));
                assert(sv[i as int] == self.formula_stack@[i as int]@);
                msg.append(self.formula_stack[i].as_str());
                msg.append(" -> ");
                i += 1;
                assert(msg@ =~= "Formula cycle detected: "@ + arrow_prefix(sv.take(i as int)));
            }
            assert(sv.take(sv.len() as int) =~= sv);
            msg.append(name);
            return Err(CrabaseError::ExprEval(msg));
        }
        let mut stack = self.copy_stack();
        let ghost before = stack@;
        stack.push(name.to_owned());
        assert(strs_view(stack@) =~= strs_view(before).push(name@));
        let r = TranslateCtx {
            schema: self.schema,
            formulas: self.formulas,
            formula_stack: stack,
            value_bound: self.value_bound,
            today: self.today,
            now: self.now,
        };
        Ok(r)
    }

    /// The context inside a `.map()` callback: `value` names the element.
    fn with_value_binding(&self) -> (r: TranslateCtx<'a>)
        ensures
            r.model() == bind_value(self.model()),
    {
        TranslateCtx {
            schema: self.schema,
            formulas: self.formulas,
            formula_stack: self.copy_stack(),
            value_bound: true,
            today: self.today,
            now: self.now,
        }
    }

    fn has_formula(&self, name: &str) -> (r: bool)
        ensures
            r == (last_value(self.model().formulas, name@) is Some),
    {
        last_value_exec(self.formulas, name).is_some()
    }

    fn stack_full(&self) -> (r: bool)
        ensures
            r == (self.model().stack.len() >= self.model().formulas.len()),
    {
        self.formula_stack.len() >= self.formulas.len()
    }

    fn value_bound(&self) -> (r: bool)
        ensures
            r == self.model().value_bound,
    {
        self.value_bound
    }

    fn today(&self) -> (r: i32)
        ensures
            r == self.model().today,
    {
        self.today
    }

    fn now(&self) -> (r: i64)
        ensures
            r == self.model().now,
    {
        self.now
    }
}


// ---------- Formula nesting ----------

/// The formulas being translated are distinct names of formulas, as they are
/// in every context made by `TranslateCtx::new` and the contexts derived
/// from it.
pub open spec fn stack_ok(c: CtxV) -> bool {
    &&& c.stack.no_duplicates()
    &&& forall|i: int| 0 <= i < c.stack.len() ==> #[trigger] last_value(c.formulas, c.stack[i]) is Some
}

proof fn lemma_last_value_key(m: Seq<(Seq<char>, Seq<char>)>, key: Seq<char>)
    requires
        last_value(m, key) is Some,
    ensures
        m.map_values(|p: (Seq<char>, Seq<char>)| p.0).contains(key),
    decreases m.len(),
{
    let ks = m.map_values(|p: (Seq<char>, Seq<char>)| p.0);
    if m.last().0 == key {
        assert(ks[m.len() - 1] == key);
    } else {
        lemma_last_value_key(m.drop_last(), key);
        let ks0 = m.drop_last().map_values(|p: (Seq<char>, Seq<char>)| p.0);
        let j = choose|j: int| 0 <= j < ks0.len() && ks0[j] == key;
        assert(ks[j] == ks0[j]);
    }
}

/// Entering a formula that is not being translated keeps the formulas being
/// translated distinct formula names, and there is always room for it: a
/// translation never runs out of formulas to enter, so the depth guard of
/// `tr_formula` never decides.
pub proof fn law_formula_nesting_bounded(c: CtxV, name: Seq<char>)
    requires
        stack_ok(c),
        last_value(c.formulas, name) is Some,
        !c.stack.contains(name),
    ensures
        c.stack.len() < c.formulas.len(),
        stack_ok(enter_formula(c, name)),
{
    let st = c.stack.push(name);
    let keys = c.formulas.map_values(|p: (Seq<char>, Seq<char>)| p.0);
    assert(st.no_duplicates()) by {
        assert forall|i: int, j: int| 0 <= i < st.len() && 0 <= j < st.len() && i != j implies st[i] != st[j] by {
            if i < c.stack.len() && j < c.stack.len() {
            } else if i == c.stack.len() {
                assert(st[j] == c.stack[j]);
            } else {
                assert(st[i] == c.stack[i]);
            }
        }
    }
    st.unique_seq_to_set();
    assert(st.to_set().subset_of(keys.to_set())) by {
        assert forall|x: Seq<char>| st.to_set().contains(x) implies keys.to_set().contains(x) by {
            let i = choose|i: int| 0 <= i < st.len() && st[i] == x;
            if i < c.stack.len() {
                assert(st[i] == c.stack[i]);
                lemma_last_value_key(c.formulas, c.stack[i]);
            } else {
                lemma_last_value_key(c.formulas, name);
            }
        }
    }
    vstd::seq_lib::seq_to_set_is_finite(keys);
    vstd::set_lib::lemma_len_subset(st.to_set(), keys.to_set());
    keys.lemma_cardinality_of_set();
    assert forall|i: int| 0 <= i < st.len() implies #[trigger] last_value(c.formulas, st[i]) is Some by {
        if i < c.stack.len() {
            assert(st[i] == c.stack[i]);
        }
    }
}

// ---------- Building translations ----------

/// `r` agrees with the outcome of translating each argument.
pub open spec fn terr(x: CrabaseError, e: TrErr) -> bool {
    match e {
        TrErr::Parse(pe) => x matches CrabaseError::ExprParse(p) && p@ == pe,
        TrErr::Eval(m) => x matches CrabaseError::ExprEval(y) && y@ == m,
        TrErr::Abort => x is Abort,
    }
}

pub open spec fn trs_view(v: Seq<Translated>) -> Seq<(PlanV, InferredType)> {
    v.map_values(|t: Translated| (t.expr@, t.ty))
}

pub open spec fn args_res(
    r: Result<Vec<Translated>, CrabaseError>,
    s: Result<Seq<(PlanV, InferredType)>, TrErr>,
) -> bool {
    match s {
        Ok(ts) => r is Ok && trs_view(r->Ok_0@) == ts,
        Err(e) => r is Err && terr(r->Err_0, e),
    }
}

pub open spec fn plans_of_spec(ts: Seq<(PlanV, InferredType)>) -> Seq<PlanV> {
    ts.map_values(|t: (PlanV, InferredType)| t.0)
}

/// The plans of translated expressions, in order.
fn plans_of(ts: Vec<Translated>) -> (r: Vec<Plan<String>>)
    ensures
        plans_view(r@) == plans_of_spec(trs_view(ts@)),
{
    let ghost tv = trs_view(ts@);
    let mut out: Vec<Plan<String>> = Vec::new();
    let mut rest = ts;
    let mut rev: Vec<Translated> = Vec::new();
    // Take the items off the end, then put them back in order.
    while rest.len() > 0
        invariant
            trs_view(rest@) + trs_view(rev@).reverse() == tv,
        decreases rest.len(),
    {
        let ghost before = rest@;
        let ghost rb = rev@;
        let t = rest.pop().unwrap();
        rev.push(t);
        proof {
            assert(before =~= rest@.push(t));
            assert(trs_view(before) =~= trs_view(rest@).push((t.expr@, t.ty)));
            assert(trs_view(rev@) =~= trs_view(rb).push((t.expr@, t.ty)));
            assert(trs_view(rev@).reverse() =~= seq![(t.expr@, t.ty)] + trs_view(rb).reverse());
            assert(trs_view(rest@) + trs_view(rev@).reverse() =~= trs_view(before) + trs_view(rb).reverse());
        }
    }
    assert(trs_view(rest@) =~= Seq::<(PlanV, InferredType)>::empty());
    assert(trs_view(rev@).reverse() =~= tv);
    while rev.len() > 0
        invariant
            plans_view(out@) + plans_of_spec(trs_view(rev@).reverse()) == plans_of_spec(tv),
        decreases rev.len(),
    {
        let ghost before = rev@;
        let ghost ob = out@;
        let t = rev.pop().unwrap();
        out.push(t.expr);
        proof {
            assert(before =~= rev@.push(t));
            assert(trs_view(before) =~= trs_view(rev@).push((t.expr@, t.ty)));
            assert(trs_view(before).reverse() =~= seq![(t.expr@, t.ty)] + trs_view(rev@).reverse());
            assert(plans_of_spec(trs_view(before).reverse()) =~= seq![t.expr@] + plans_of_spec(trs_view(rev@).reverse()));
            assert(plans_view(out@) =~= plans_view(ob).push(t.expr@));
            assert(plans_view(out@) + plans_of_spec(trs_view(rev@).reverse()) =~= plans_view(ob) + plans_of_spec(trs_view(before).reverse()));
        }
    }
    assert(trs_view(rev@).reverse() =~= Seq::<(PlanV, InferredType)>::empty());
    assert(plans_of_spec(Seq::<(PlanV, InferredType)>::empty()) =~= Seq::<PlanV>::empty());
    assert(plans_view(out@) =~= plans_view(out@) + Seq::<PlanV>::empty());
    out
}

pub(crate) fn strip_brackets_exec(p: Plan<String>) -> (r: Plan<String>)
    ensures
        r@ == strip_brackets(p@),
{
    proof {
        reveal_strlit("");
        assert(""@ =~= Seq::<char>::empty());
    }
    mk_ter(
        TerOp::StrReplaceLiteral,
        mk_ter(TerOp::StrReplaceLiteral, p, mk_str("[["), mk_str("")),
        mk_str("]]"),
        mk_str(""),
    )
}

pub(crate) fn concat_str(a: &str, b: &str) -> (r: String)
    ensures
        r@ == a@ + b@,
{
    let mut s = String::from_str(a);
    s.append(b);
    s
}

/// The plan and type of a number literal.
fn number_literal(t: &String) -> (r: (Plan<String>, InferredType))
    ensures
        (r.0@, r.1) == number_spec(t@),
{
    let v = chars_of(t.as_str());
    let mut d: usize = 0;
    while d < v.len() && v[d] != '.'
        invariant
            0 <= d <= v.len(),
            v@ == t@,
            dot_index(t@, 0) == dot_index(t@, d as int),
        decreases v.len() - d,
    {
        d += 1;
    }
    assert(dot_index(t@, 0) == d);
    let mut frac_zero = true;
    let mut k: usize = if d < v.len() {
        d + 1
    } else {
        d
    };
    while k < v.len()
        invariant
            d <= k <= v.len(),
            d < v.len() ==> d < k,
            v@ == t@,
            frac_zero == (forall|j: int| d < j < k ==> #[trigger] t@[j] == '0'),
        decreases v.len() - k,
    {
        if v[k] != '0' {
            frac_zero = false;
        }
        k += 1;
    }
    let ghost ip = int_part(t@);
    assert(ip =~= t@.take(d as int));
    let mut acc: u64 = 0;
    let mut big = false;
    let mut digits = true;
    let mut i: usize = 0;
    while i < d
        invariant
            0 <= i <= d <= v.len(),
            v@ == t@,
            ip == t@.take(d as int),
            digits == crate::vault::all_digits(ip.take(i as int)),
            digits && !big ==> acc == crate::vault::digits_value(ip.take(i as int)) && acc < 9223372036854775808u64,
            digits && big ==> crate::vault::digits_value(ip.take(i as int)) >= 9223372036854775808,
        decreases d - i,
    {
        let c = v[i];
        proof {
            assert(ip.take(i + 1).drop_last() =~= ip.take(i as int));
            assert(ip.take(i + 1).last() == c);
            if digits {
                crate::vault::lemma_digits_value_nonneg(ip.take(i as int));
            }
        }
        if !crate::text::is_ascii_digit(c) {
            digits = false;
            assert(!crate::text::is_digit(ip.take(i + 1)[i as int]));
        } else if digits && !big {
            let dv = (c as u32 - 48) as u64;
            if acc > (9223372036854775807u64 - dv) / 10 {
                big = true;
            } else {
                acc = acc * 10 + dv;
            }
        }
        i += 1;
    }
    assert(ip.take(d as int) =~= ip);
    if frac_zero && digits && !big {
        (Plan::Int(acc as i64), InferredType::Int)
    } else {
        (Plan::Float(t.clone()), InferredType::Float)
    }
}

fn literal_plan(l: &Literal) -> (r: (Plan<String>, InferredType))
    ensures
        (r.0@, r.1) == literal_spec(l@),
{
    match l {
        Literal::Number(t) => number_literal(t),
        Literal::Str(s) => (Plan::Str(s.clone()), InferredType::String),
        Literal::Regex(s) => (Plan::Str(s.clone()), InferredType::String),
        Literal::Bool(b) => (Plan::Bool(*b), InferredType::Bool),
        Literal::Null => (Plan::Null, InferredType::Null),
    }
}

/// The model of a context over `schema` (the parts the column lookups read).
pub open spec fn schema_ctx(c: CtxV, schema: VaultSchema) -> bool {
    c.cols == schema.cols() && c.keys == schema.keys() && c.has_rows == schema.has_rows
}

fn file_field(field: &str, schema: &VaultSchema) -> (r: (Plan<String>, InferredType))
    ensures
        forall|c: CtxV| schema_ctx(c, *schema) ==> (r.0@, r.1) == #[trigger] file_field_spec(field@, c),
{
    let cname = if str_eq(field, "basename") {
        concat_str("file_", "name")
    } else {
        concat_str("file_", field)
    };
    match schema.dtype(cname.as_str()) {
        Some(t) => (Plan::Col(cname), t),
        None => (Plan::Null, InferredType::Null),
    }
}

fn note_field(field: &str, schema: &VaultSchema) -> (r: (Plan<String>, InferredType))
    ensures
        forall|c: CtxV| schema_ctx(c, *schema) ==> (r.0@, r.1) == #[trigger] note_field_spec(field@, c),
{
    match schema.resolve_frontmatter(field) {
        Some(name) => match schema.dtype(name.as_str()) {
            Some(t) => (Plan::Col(name.clone()), t),
            None => (Plan::Null, InferredType::Null),
        },
        None => (Plan::Null, InferredType::Null),
    }
}

fn as_file_target_exec(obj: &Expr) -> (r: Option<&Expr>)
    ensures
        match as_file_target(obj@) {
            Some(t) => r is Some && r->0@ == t,
            None => r is None,
        },
{
    match &obj.kind {
        ExprKind::Member { object: inner, field: pf } => {
            assert(obj@.kind == ExprKindV::Member(Box::new(inner@), pf@));
            if !str_eq(pf.as_str(), "properties") {
                return None;
            }
            match &inner.kind {
                ExprKind::Call { callee, args } => {
                    proof {
                        lemma_exprs_view(args@);
                    }
                    assert(inner@.kind == ExprKindV::Call(Box::new(callee@), exprs_view(args@)));
                    if args.len() != 0 {
                        return None;
                    }
                    match &callee.kind {
                        ExprKind::Member { object: target, field: m } => if {
                            assert(callee@.kind == ExprKindV::Member(Box::new(target@), m@));
                            str_eq(m.as_str(), "asFile")
                        } {
                            Some(&**target)
                        } else {
                            None
                        },
                        _ => None,
                    }
                },
                _ => None,
            }
        },
        _ => None,
    }
}

fn cross_column_exec(field: &str, schema: &VaultSchema) -> (r: Option<String>)
    ensures
        forall|c: CtxV| schema_ctx(c, *schema) ==> match #[trigger] cross_column(field@, c) {
            Some(n) => r is Some && r->0@ == n,
            None => r is None,
        },
{
    match schema.resolve_frontmatter(field) {
        Some(n) => Some(n.clone()),
        None => {
            let fc = concat_str("file_", field);
            if schema.has_column(fc.as_str()) {
                Some(fc)
            } else {
                None
            }
        },
    }
}

fn link_target(p: Plan<String>) -> (r: Plan<String>)
    ensures
        r@ == link_target_plan(p@),
{
    let raw = mk_cast(DType::Utf8, p);
    let stripped = mk_bin(BinPOp::StrStripSuffix, mk_bin(BinPOp::StrStripPrefix, raw, mk_str("[[")), mk_str("]]"));
    mk_bin(BinPOp::ListGet, mk_bin(BinPOp::StrSplit, stripped, mk_str("|")), Plan::Int(0))
}

fn cross_file(p: Plan<String>, field: &str, schema: &VaultSchema) -> (r: (Plan<String>, InferredType))
    ensures
        forall|c: CtxV| schema_ctx(c, *schema) ==> (r.0@, r.1) == #[trigger] cross_file_spec(p@, field@, c),
{
    match cross_column_exec(field, schema) {
        None => (Plan::Null, InferredType::Null),
        Some(col) => match schema.dtype(col.as_str()) {
            None => (Plan::Null, InferredType::Null),
            Some(t) => if !schema.has_rows {
                (Plan::Null, InferredType::Null)
            } else {
                (Plan::CrossFile(Box::new(link_target(p)), col), t)
            },
        },
    }
}

fn index_plan(rp: Plan<String>, rt: InferredType, ip: Plan<String>) -> (r: (Plan<String>, InferredType))
    ensures
        (r.0@, r.1) == index_spec(rp@, rt, ip@),
{
    match rt {
        InferredType::List => (mk_bin(BinPOp::ListGet, rp, mk_cast(DType::Int64, ip)), InferredType::Unknown),
        InferredType::String => (
            mk_ter(TerOp::StrSlice, rp, mk_cast(DType::Int64, ip), Plan::UInt(1)),
            InferredType::String,
        ),
        _ => (Plan::Null, InferredType::Null),
    }
}

fn min_max(ps: &Vec<Plan<String>>, want_min: bool) -> (r: Plan<String>)
    ensures
        r@ == min_max_spec(plans_view(ps@), want_min),
{
    let ghost pv = plans_view(ps@);
    if ps.len() == 0 {
        return Plan::Null;
    }
    let mut acc = clone_plan(&ps[0]);
    assert(pv.take(1).drop_last() =~= Seq::<PlanV>::empty());
    let mut i: usize = 1;
    while i < ps.len()
        invariant
            1 <= i <= ps.len(),
            pv == plans_view(ps@),
            acc@ == min_max_spec(pv.take(i as int), want_min),
        decreases ps.len() - i,
    {
        assert(pv.take(i + 1).drop_last() =~= pv.take(i as int));
        assert(pv.take(i + 1).last() == ps@[i as int]@);
        let op = if want_min {
            BinPOp::Lt
        } else {
            BinPOp::Gt
        };
        let cond = mk_bin(op, clone_plan(&acc), clone_plan(&ps[i]));
        acc = mk_ter(TerOp::When, cond, acc, clone_plan(&ps[i]));
        i += 1;
    }
    assert(pv.take(ps.len() as int) =~= pv);
    acc
}

fn parse_dates(p: Plan<String>) -> (r: Plan<String>)
    ensures
        r@ == parse_dates_plan(p@),
{
    let st = strip_brackets_exec(mk_cast(DType::Utf8, p));
    let a = Plan::Strptime(Box::new(clone_plan(&st)), String::from_str("%Y-%m-%dT%H:%M:%S"));
    let b = Plan::Strptime(Box::new(clone_plan(&st)), String::from_str("%Y-%m-%d"));
    let d = Plan::Strptime(Box::new(st), String::from_str("%Y-%m-%d %H:%M:%S"));
    let na = mk_un(UnOp::IsNotNull, clone_plan(&a));
    let nb = mk_un(UnOp::IsNotNull, clone_plan(&b));
    mk_ter(TerOp::When, na, a, mk_ter(TerOp::When, nb, b, d))
}

fn date_literal(s: &str) -> (r: Result<Translated, CrabaseError>)
    ensures
        tres(r, date_literal_spec(s@)),
{
    let st = crate::vault::strip_wikilink(s);
    proof {
        crate::dates::lemma_datetime_patterns();
    }
    match crate::dates::parse_datetime_micros(st.as_str(), "%Y-%m-%d %H:%M:%S") {
        Some(m) => ok_result(Plan::DatetimeLit(m), InferredType::Datetime),
        None => match crate::dates::parse_datetime_micros(st.as_str(), "%Y-%m-%dT%H:%M:%S") {
            Some(m) => ok_result(Plan::DatetimeLit(m), InferredType::Datetime),
            None => match crate::dates::parse_date_days(st.as_str(), "%Y-%m-%d") {
                Some(d) => ok_result(Plan::DateLit(d), InferredType::Date),
                None => {
                    let mut msg = String::from_str("Cannot parse date: ");
                    let shown = crate::text::debug_text(s);
                    msg.append(shown.as_str());
                    eval_error(msg)
                },
            },
        },
    }
}

fn date_value(p: Plan<String>, t: InferredType) -> (r: (Plan<String>, InferredType))
    ensures
        (r.0@, r.1) == date_value_spec(p@, t),
{
    if t.is_date_or_datetime() {
        (p, t)
    } else if !(t == InferredType::String || t == InferredType::Unknown) {
        (mk_cast(DType::DatetimeUs, Plan::Null), InferredType::Datetime)
    } else {
        (parse_dates(p), InferredType::Datetime)
    }
}

pub(crate) fn plist3(a: Plan<String>, b: Plan<String>, c: Plan<String>) -> (r: PList<String>)
    ensures
        r@ == to_plist(seq![a@, b@, c@]),
{
    let ghost s = seq![a@, b@, c@];
    let mut v: Vec<Plan<String>> = Vec::new();
    v.push(a);
    v.push(b);
    v.push(c);
    proof {
        assert(v@.map_values(|p: Plan<String>| p@) =~= s);
    }
    plist_from(v)
}

pub(crate) fn plist5(a: Plan<String>, b: Plan<String>, c: Plan<String>, d: Plan<String>, e: Plan<String>) -> (r: PList<String>)
    ensures
        r@ == to_plist(seq![a@, b@, c@, d@, e@]),
{
    let ghost s = seq![a@, b@, c@, d@, e@];
    let mut v: Vec<Plan<String>> = Vec::new();
    v.push(a);
    v.push(b);
    v.push(c);
    v.push(d);
    v.push(e);
    proof {
        assert(v@.map_values(|p: Plan<String>| p@) =~= s);
    }
    plist_from(v)
}

fn already_link(path: &Plan<String>) -> (r: Plan<String>)
    ensures
        r@ == b2(
            BinPOp::And,
            b2(BinPOp::StrStartsWith, cs(DType::Utf8, path@), sstr("[["@)),
            b2(BinPOp::StrEndsWith, cs(DType::Utf8, path@), sstr("]]"@)),
        ),
{
    mk_bin(
        BinPOp::And,
        mk_bin(BinPOp::StrStartsWith, mk_cast(DType::Utf8, clone_plan(path)), mk_str("[[")),
        mk_bin(BinPOp::StrEndsWith, mk_cast(DType::Utf8, clone_plan(path)), mk_str("]]")),
    )
}

fn link_one(path: Plan<String>) -> (r: Plan<String>)
    ensures
        r@ == link_one_spec(path@),
{
    let already = already_link(&path);
    let path_str = mk_cast(DType::Utf8, clone_plan(&path));
    let wrapped = Plan::ConcatStr(Box::new(plist3(mk_str("[["), path, mk_str("]]"))));
    mk_ter(TerOp::When, already, path_str, wrapped)
}

fn link_two(path: Plan<String>, display: Plan<String>) -> (r: Plan<String>)
    ensures
        r@ == link_two_spec(path@, display@),
{
    let already = already_link(&path);
    let path_str = mk_cast(DType::Utf8, clone_plan(&path));
    let ds = mk_cast(DType::Utf8, display);
    let present = mk_bin(
        BinPOp::And,
        mk_un(UnOp::IsNotNull, clone_plan(&ds)),
        mk_bin(BinPOp::Gt, mk_un(UnOp::StrLenChars, clone_plan(&ds)), Plan::UInt(0)),
    );
    let with = Plan::ConcatStr(
        Box::new(plist5(mk_str("[["), clone_plan(&path), mk_str("|"), ds, mk_str("]]"))),
    );
    let without = Plan::ConcatStr(Box::new(plist3(mk_str("[["), path, mk_str("]]"))));
    mk_ter(TerOp::When, already, path_str, mk_ter(TerOp::When, present, with, without))
}

proof fn lemma_all_str_lits_prefix(args: Seq<ExprV>, i: int)
    requires
        0 <= i <= args.len(),
        all_str_lits(args.take(i)) is None,
    ensures
        all_str_lits(args) is None,
    decreases args.len(),
{
    if i == args.len() {
        assert(args.take(i) =~= args);
    } else {
        assert(args.drop_last().take(i) =~= args.take(i));
        lemma_all_str_lits_prefix(args.drop_last(), i);
    }
}

fn all_str_lits_exec(args: &Vec<Expr>) -> (r: Option<Vec<String>>)
    ensures
        match all_str_lits(exprs_view(args@)) {
            Some(ns) => r is Some && strs_view(r->0@) == ns,
            None => r is None,
        },
{
    let ghost ev = exprs_view(args@);
    proof {
        lemma_exprs_view(args@);
    }
    let mut out: Vec<String> = Vec::new();
    let mut i: usize = 0;
    assert(ev.take(0) =~= Seq::<ExprV>::empty());
    assert(strs_view(out@) =~= Seq::<Seq<char>>::empty());
    while i < args.len()
        invariant
            0 <= i <= args.len(),
            ev == exprs_view(args@),
            ev.len() == args.len(),
            forall|k: int| 0 <= k < args.len() ==> #[trigger] ev[k] == expr_view(args@[k]),
            all_str_lits(ev.take(i as int)) == Some(strs_view(out@)),
        decreases args.len() - i,
    {
        assert(ev.take(i + 1).drop_last() =~= ev.take(i as int));
        assert(ev.take(i + 1).last() == ev[i as int]);
        match str_lit(&args[i]) {
            None => {
                proof {
                    lemma_all_str_lits_prefix(ev, i + 1);
                }
                return None;
            },
            Some(s) => {
                let ghost before = out@;
                out.push(s);
                assert(strs_view(out@) =~= strs_view(before).push(s@));
            },
        }
        i += 1;
    }
    assert(ev.take(args.len() as int) =~= ev);
    Some(out)
}

fn tag_match_exec(needle: &str) -> (r: Plan<String>)
    ensures
        r@ == tag_match(needle@),
{
    let with_slash = concat_str(needle, "/");
    mk_bin(
        BinPOp::Or,
        mk_bin(BinPOp::Eq, Plan::Elem, mk_str(needle)),
        mk_bin(BinPOp::StrStartsWith, Plan::Elem, Plan::Str(with_slash)),
    )
}

fn link_match_exec(needle: &str) -> (r: Plan<String>)
    ensures
        r@ == link_match(needle@),
{
    let slash_needle = concat_str("/", needle);
    let needle_md = concat_str(needle, ".md");
    let slash_needle_md = concat_str(slash_needle.as_str(), ".md");
    mk_bin(
        BinPOp::Or,
        mk_bin(
            BinPOp::Or,
            mk_bin(
                BinPOp::Or,
                mk_bin(BinPOp::Eq, Plan::Elem, mk_str(needle)),
                mk_bin(BinPOp::StrEndsWith, Plan::Elem, Plan::Str(slash_needle)),
            ),
            mk_bin(BinPOp::Eq, Plan::Elem, Plan::Str(needle_md)),
        ),
        mk_bin(BinPOp::StrEndsWith, Plan::Elem, Plan::Str(slash_needle_md)),
    )
}

fn any_needle_exec(needles: &Vec<String>, tags: bool) -> (r: Plan<String>)
    ensures
        r@ == any_needle(strs_view(needles@), tags),
{
    let ghost nv = strs_view(needles@);
    let mut acc = Plan::Bool(false);
    let mut i: usize = 0;
    assert(nv.take(0) =~= Seq::<Seq<char>>::empty());
    while i < needles.len()
        invariant
            0 <= i <= needles.len(),
            nv == strs_view(needles@),
            acc@ == any_needle(nv.take(i as int), tags),
        decreases needles.len() - i,
    {
        assert(nv.take(i + 1).drop_last() =~= nv.take(i as int));
        assert(nv.take(i + 1).last() == needles@[i as int]@);
        let m = if tags {
            tag_match_exec(needles[i].as_str())
        } else {
            link_match_exec(needles[i].as_str())
        };
        acc = mk_bin(BinPOp::Or, acc, m);
        i += 1;
    }
    assert(nv.take(needles.len() as int) =~= nv);
    acc
}

fn list_any(column: &str, pred: Plan<String>) -> (r: Plan<String>)
    ensures
        r@ == list_any_spec(column@, pred@),
{
    mk_bin(
        BinPOp::FillNull,
        mk_un(UnOp::ListAny, mk_bin(BinPOp::ListEval, mk_col(column), pred)),
        Plan::Bool(false),
    )
}

fn in_folder(folder: &str) -> (r: Plan<String>)
    ensures
        r@ == in_folder_spec(folder@),
{
    let ws = concat_str(folder, "/");
    mk_bin(
        BinPOp::Or,
        mk_bin(
            BinPOp::Or,
            mk_bin(BinPOp::Eq, mk_col("file_folder"), mk_str(folder)),
            mk_bin(BinPOp::StrStartsWith, mk_col("file_folder"), Plan::Str(ws.clone())),
        ),
        mk_bin(BinPOp::StrStartsWith, mk_col("file_path"), Plan::Str(ws)),
    )
}

proof fn lemma_call_arg_decreases(e: ExprV, i: int)
    requires
        e.kind is Call,
        0 <= i < e.kind->Call_1.len(),
    ensures
        decreases_to!(e => e.kind->Call_1[i]),
{
    let args = e.kind->Call_1;
    assert(decreases_to!(e => e.kind));
    assert(decreases_to!(e.kind => args));
    assert(decreases_to!(args => args[i]));
}

fn is_var_exec(e: &Expr, name: &str) -> (r: bool)
    ensures
        r == is_var(e@, name@),
{
    match &e.kind {
        ExprKind::Variable(n) => str_eq(n.as_str(), name),
        _ => false,
    }
}

proof fn lemma_tr_args_prefix(args: Seq<ExprV>, c: CtxV, i: int)
    requires
        0 <= i <= args.len(),
        tr_args(args.take(i), c) is Err,
    ensures
        tr_args(args, c) == tr_args(args.take(i), c),
    decreases args.len(),
{
    if i == args.len() {
        assert(args.take(i) =~= args);
    } else {
        assert(args.drop_last().take(i) =~= args.take(i));
        lemma_tr_args_prefix(args.drop_last(), c, i);
    }
}

/// The truth value of a translated expression as a boolean plan: null and
/// false are false; zero and empty strings and lists are false.
pub fn truthy(t: Translated) -> (r: Plan<String>)
    ensures
        r@ == truthy_spec(t.expr@, t.ty),
{
    truthy_plan(t.expr, t.ty)
}

/// Translate an expression of the query language to a column plan.
pub fn translate(ast: &Expr, ctx: &TranslateCtx) -> (r: Result<Translated, CrabaseError>)
    ensures
        tres(r, tr(ast@, ctx.model())),
{
    translate_inner(ast, ctx)
}

fn translate_inner(e: &Expr, ctx: &TranslateCtx) -> (r: Result<Translated, CrabaseError>)
    ensures
        tres(r, tr(e@, ctx.model())),
    decreases fuel(ctx.model()), e@, 2nat,
{
    match &e.kind {
        ExprKind::Literal(l) => {
            let (p, t) = literal_plan(l);
            ok_result(p, t)
        },
        ExprKind::Variable(_) => translate_variable(e, ctx),
        ExprKind::Member { .. } => translate_member(e, ctx),
        ExprKind::Index { .. } => translate_index(e, ctx),
        ExprKind::Call { callee, args } => match &callee.kind {
            ExprKind::Variable(_) => {
                assert(e@.kind == ExprKindV::Call(Box::new(expr_view(**callee)), exprs_view(args@)));
                translate_function(e, ctx)
            },
            ExprKind::Member { .. } => {
                assert(e@.kind == ExprKindV::Call(Box::new(expr_view(**callee)), exprs_view(args@)));
                translate_method(e, ctx)
            },
            _ => {
                let mut msg = String::from_str("Expression is not callable: ");
                msg.append(kind_label_exec(callee));
                assert(e@.kind == ExprKindV::Call(Box::new(expr_view(**callee)), exprs_view(args@)));
                eval_error(msg)
            },
        },
        ExprKind::Array(items) => {
            proof {
                lemma_exprs_view(items@);
            }
            if items.len() == 0 {
                ok_result(Plan::EmptyStrList, InferredType::List)
            } else {
                match translate_args(items, ctx) {
                    Err(x) => Err(x),
                    Ok(ts) => ok_result(Plan::ConcatList(Box::new(plist_from(plans_of(ts)))), InferredType::List),
                }
            }
        },
        ExprKind::Binary { .. } => translate_binary(e, ctx),
        ExprKind::Unary { op, operand } => match translate_inner(operand, ctx) {
            Err(x) => Err(x),
            Ok(t) => match op {
                crate::expr::ast::UnaryOp::Not => ok_result(mk_un(UnOp::Not, truthy_plan(t.expr, t.ty)), InferredType::Bool),
                crate::expr::ast::UnaryOp::Neg => ok_result(mk_bin(BinPOp::Sub, Plan::Int(0), t.expr), t.ty),
            },
        },
    }
}

fn translate_args(args: &Vec<Expr>, ctx: &TranslateCtx) -> (r: Result<Vec<Translated>, CrabaseError>)
    ensures
        args_res(r, tr_args(exprs_view(args@), ctx.model())),
    decreases fuel(ctx.model()), exprs_view(args@), 2nat,
{
    let ghost ev = exprs_view(args@);
    let ghost c = ctx.model();
    proof {
        lemma_exprs_view(args@);
    }
    let mut out: Vec<Translated> = Vec::new();
    let mut i: usize = 0;
    assert(ev.take(0) =~= Seq::<ExprV>::empty());
    assert(trs_view(out@) =~= Seq::<(PlanV, InferredType)>::empty());
    while i < args.len()
        invariant
            0 <= i <= args.len(),
            ev == exprs_view(args@),
            c == ctx.model(),
            ev.len() == args.len(),
            forall|k: int| 0 <= k < args.len() ==> #[trigger] ev[k] == expr_view(args@[k]),
            tr_args(ev.take(i as int), c) == Ok::<Seq<(PlanV, InferredType)>, TrErr>(trs_view(out@)),
        decreases args.len() - i,
    {
        assert(ev.take(i + 1).drop_last() =~= ev.take(i as int));
        assert(ev.take(i + 1).last() == ev[i as int]);
        assert(decreases_to!(ev => ev[i as int]));
        match translate_inner(&args[i], ctx) {
            Err(x) => {
                proof {
                    lemma_tr_args_prefix(ev, c, i + 1);
                }
                return Err(x);
            },
            Ok(t) => {
                let ghost before = out@;
                out.push(t);
                assert(trs_view(out@) =~= trs_view(before).push((t.expr@, t.ty)));
            },
        }
        i += 1;
    }
    assert(ev.take(args.len() as int) =~= ev);
    Ok(out)
}

fn translate_formula(name: &str, ctx: &TranslateCtx, origin: &Expr) -> (r: Result<Translated, CrabaseError>)
    ensures
        tres(r, tr_formula(name@, ctx.model(), origin@)),
    decreases fuel(ctx.model()), origin@, 0nat,
{
    match last_value_exec(ctx.formulas, name) {
        None => null_result(),
        Some(body) => match crate::expr::parser::parse(body.as_str()) {
            Err(x) => Err(x),
            Ok(ast) => {
                if ctx.stack_contains(name) {
                    return match ctx.with_formula(name) {
                        Err(x) => Err(x),
                        Ok(_) => null_result(),
                    };
                }
                if ctx.stack_full() {
                    return null_result();
                }
                match ctx.with_formula(name) {
                    Err(x) => Err(x),
                    Ok(inner) => translate_inner(&ast, &inner),
                }
            },
        },
    }
}

fn translate_variable(e: &Expr, ctx: &TranslateCtx) -> (r: Result<Translated, CrabaseError>)
    requires
        e@.kind is Variable,
    ensures
        tres(r, tr(e@, ctx.model())),
    decreases fuel(ctx.model()), e@, 1nat,
{
    match &e.kind {
        ExprKind::Variable(name) => {
            let n = name.as_str();
            if str_eq(n, "value") && ctx.value_bound() {
                ok_result(Plan::Elem, InferredType::Unknown)
            } else if str_eq(n, "file") {
                ok_result(mk_col("file_path"), InferredType::String)
            } else if ctx.has_formula(n) {
                translate_formula(n, ctx, e)
            } else {
                match ctx.schema.dtype(n) {
                    Some(t) => ok_result(mk_col(n), t),
                    None => null_result(),
                }
            }
        },
        _ => null_result(),
    }
}

fn translate_member(e: &Expr, ctx: &TranslateCtx) -> (r: Result<Translated, CrabaseError>)
    requires
        e@.kind is Member,
    ensures
        tres(r, tr(e@, ctx.model())),
    decreases fuel(ctx.model()), e@, 1nat,
{
    assert(schema_ctx(ctx.model(), *ctx.schema));
    match &e.kind {
        ExprKind::Member { object, field } => {
            let f = field.as_str();
            if is_var_exec(object, "file") {
                let (p, t) = file_field(f, ctx.schema);
                ok_result(p, t)
            } else if is_var_exec(object, "note") {
                let (p, t) = note_field(f, ctx.schema);
                ok_result(p, t)
            } else if is_var_exec(object, "formula") {
                translate_formula(f, ctx, e)
            } else {
                match as_file_target_exec(object) {
                    Some(target) => match translate_inner(target, ctx) {
                        Err(x) => Err(x),
                        Ok(t) => {
                            let (p, ty) = cross_file(t.expr, f, ctx.schema);
                            ok_result(p, ty)
                        },
                    },
                    None => match translate_inner(object, ctx) {
                        Err(x) => Err(x),
                        Ok(t) => {
                            let (p, ty) = member_on_value(t.expr, t.ty, f);
                            ok_result(p, ty)
                        },
                    },
                }
            }
        },
        _ => null_result(),
    }
}

fn translate_index(e: &Expr, ctx: &TranslateCtx) -> (r: Result<Translated, CrabaseError>)
    requires
        e@.kind is Index,
    ensures
        tres(r, tr(e@, ctx.model())),
    decreases fuel(ctx.model()), e@, 1nat,
{
    assert(schema_ctx(ctx.model(), *ctx.schema));
    match &e.kind {
        ExprKind::Index { object, index } => {
            if is_var_exec(object, "formula") {
                match str_lit(index) {
                    Some(name) => translate_formula(name.as_str(), ctx, e),
                    None => null_result(),
                }
            } else if is_var_exec(object, "note") {
                match str_lit(index) {
                    Some(name) => {
                        let (p, t) = note_field(name.as_str(), ctx.schema);
                        ok_result(p, t)
                    },
                    None => null_result(),
                }
            } else {
                match translate_inner(object, ctx) {
                    Err(x) => Err(x),
                    Ok(rt) => match translate_inner(index, ctx) {
                        Err(x) => Err(x),
                        Ok(it) => {
                            let (p, t) = index_plan(rt.expr, rt.ty, it.expr);
                            ok_result(p, t)
                        },
                    },
                }
            }
        },
        _ => null_result(),
    }
}

fn translate_binary(e: &Expr, ctx: &TranslateCtx) -> (r: Result<Translated, CrabaseError>)
    requires
        e@.kind is Binary,
    ensures
        tres(r, tr(e@, ctx.model())),
    decreases fuel(ctx.model()), e@, 1nat,
{
    match &e.kind {
        ExprKind::Binary { op, left, right } => {
            assert(e@.kind == ExprKindV::Binary(*op, Box::new(expr_view(**left)), Box::new(expr_view(**right))));
            assert(decreases_to!(e@ => e@.kind));
            assert(decreases_to!(e@.kind => e@.kind->Binary_1));
            assert(decreases_to!(e@.kind => e@.kind->Binary_2));
            assert(tr(e@, ctx.model()) == tr_binary(ctx.model(), e@));
            let ghost sdur = match right@.kind {
                ExprKindV::Literal(LiteralV::Str(d)) => duration_spec(d),
                _ => None,
            };
            let dur = match &right.kind {
                ExprKind::Literal(Literal::Str(d)) => {
                    assert(right@.kind == ExprKindV::Literal(LiteralV::Str(d@)));
                    moment_duration_to_polars(d.as_str())
                },
                _ => None,
            };
            assert(dur is Some <==> sdur is Some);
            assert(dur is Some ==> dur->0@ == sdur->0);
            let additive = *op == crate::expr::ast::BinOp::Add || *op == crate::expr::ast::BinOp::Sub;
            match translate_inner(left, ctx) {
                Err(x) => Err(x),
                Ok(l) => {
                    if additive && dur.is_some() && l.ty.is_date_or_datetime() {
                        let d = dur.unwrap();
                        let signed = if *op == crate::expr::ast::BinOp::Add {
                            d
                        } else {
                            concat_str("-", d.as_str())
                        };
                        ok_result(mk_bin(BinPOp::DtOffsetBy, l.expr, Plan::Str(signed)), l.ty)
                    } else {
                        match translate_inner(right, ctx) {
                            Err(x) => Err(x),
                            Ok(rt) => {
                                let (p, t) = translate_binary_op(*op, l.expr, l.ty, rt.expr, rt.ty);
                                ok_result(p, t)
                            },
                        }
                    }
                },
            }
        },
        _ => null_result(),
    }
}

fn translate_function(e: &Expr, ctx: &TranslateCtx) -> (r: Result<Translated, CrabaseError>)
    requires
        e@.kind is Call,
        e@.kind->Call_0.kind is Variable,
    ensures
        tres(r, tr(e@, ctx.model())),
    decreases fuel(ctx.model()), e@, 1nat,
{
    match &e.kind {
        ExprKind::Call { callee, args } => {
            proof {
                lemma_exprs_view(args@);
            }
            let ghost ev = exprs_view(args@);
            assert(e@.kind == ExprKindV::Call(Box::new(expr_view(**callee)), ev));
            match &callee.kind {
                ExprKind::Variable(fname) => {
                    assert(callee@.kind == ExprKindV::Variable(fname@));
                    assert(tr(e@, ctx.model()) == tr_function(ctx.model(), e@));
                    let name = fname.as_str();
                    if str_eq(name, "if") {
                        if args.len() < 1 {
                            return abort("if() needs a condition");
                        }
                        proof { lemma_call_arg_decreases(e@, 0); }
                        let c = match translate_inner(&args[0], ctx) {
                            Err(x) => return Err(x),
                            Ok(t) => t,
                        };
                        if args.len() < 2 {
                            return abort("if() needs a value when true");
                        }
                        proof { lemma_call_arg_decreases(e@, 1); }
                        let a = match translate_inner(&args[1], ctx) {
                            Err(x) => return Err(x),
                            Ok(t) => t,
                        };
                        if args.len() < 3 {
                            return abort("if() needs a value when false");
                        }
                        proof { lemma_call_arg_decreases(e@, 2); }
                        let b = match translate_inner(&args[2], ctx) {
                            Err(x) => return Err(x),
                            Ok(t) => t,
                        };
                        let (pa, pb, t) = align_branches(a.expr, a.ty, b.expr, b.ty);
                        ok_result(mk_ter(TerOp::When, truthy_plan(c.expr, c.ty), pa, pb), t)
                    } else if str_eq(name, "number") {
                        if args.len() < 1 {
                            return abort("number() needs an argument");
                        }
                        proof { lemma_call_arg_decreases(e@, 0); }
                        match translate_inner(&args[0], ctx) {
                            Err(x) => Err(x),
                            Ok(t) => ok_result(mk_cast(DType::Float64, t.expr), InferredType::Float),
                        }
                    } else if str_eq(name, "list") {
                        match translate_args(args, ctx) {
                            Err(x) => Err(x),
                            Ok(ts) => {
                                if ts.len() == 0 {
                                    return eval_error(String::from_str("`concat_list` needs one or more expressions"));
                                }
                                ok_result(Plan::ConcatList(Box::new(plist_from(plans_of(ts)))), InferredType::List)
                            },
                        }
                    } else if str_eq(name, "min") || str_eq(name, "max") {
                        match translate_args(args, ctx) {
                            Err(x) => Err(x),
                            Ok(ts) => {
                                let ps = plans_of(ts);
                                ok_result(min_max(&ps, str_eq(name, "min")), InferredType::Float)
                            },
                        }
                    } else if str_eq(name, "date") {
                        if args.len() == 0 {
                            return null_result();
                        }
                        match str_lit(&args[0]) {
                            Some(s) => date_literal(s.as_str()),
                            None => {
                                proof { lemma_call_arg_decreases(e@, 0); }
                                match translate_inner(&args[0], ctx) {
                                    Err(x) => Err(x),
                                    Ok(t) => {
                                        let (p, ty) = date_value(t.expr, t.ty);
                                        ok_result(p, ty)
                                    },
                                }
                            },
                        }
                    } else if str_eq(name, "today") {
                        ok_result(Plan::DateLit(ctx.today()), InferredType::Date)
                    } else if str_eq(name, "now") {
                        ok_result(Plan::DatetimeLit(ctx.now()), InferredType::Datetime)
                    } else if str_eq(name, "link") {
                        if args.len() < 1 {
                            return abort("link() needs a path");
                        }
                        proof { lemma_call_arg_decreases(e@, 0); }
                        let path = match translate_inner(&args[0], ctx) {
                            Err(x) => return Err(x),
                            Ok(t) => t,
                        };
                        if args.len() >= 2 {
                            proof { lemma_call_arg_decreases(e@, 1); }
                            match translate_inner(&args[1], ctx) {
                                Err(x) => Err(x),
                                Ok(d) => ok_result(link_two(path.expr, d.expr), InferredType::String),
                            }
                        } else {
                            ok_result(link_one(path.expr), InferredType::String)
                        }
                    } else if ctx.has_formula(name) {
                        translate_formula(name, ctx, e)
                    } else {
                        null_result()
                    }
                },
                _ => null_result(),
            }
        },
        _ => null_result(),
    }
}

fn translate_method(e: &Expr, ctx: &TranslateCtx) -> (r: Result<Translated, CrabaseError>)
    requires
        e@.kind is Call,
        e@.kind->Call_0.kind is Member,
    ensures
        tres(r, tr(e@, ctx.model())),
    decreases fuel(ctx.model()), e@, 1nat,
{
    assert(schema_ctx(ctx.model(), *ctx.schema));
    match &e.kind {
        ExprKind::Call { callee, args } => {
            proof {
                lemma_exprs_view(args@);
            }
            let ghost ev = exprs_view(args@);
            assert(e@.kind == ExprKindV::Call(Box::new(expr_view(**callee)), ev));
            match &callee.kind {
                ExprKind::Member { object, field } => {
                    assert(callee@.kind == ExprKindV::Member(Box::new(expr_view(**object)), field@));
                    assert(tr(e@, ctx.model()) == tr_method(ctx.model(), e@));
                    assert(decreases_to!(e@ => e@.kind));
                    assert(decreases_to!(e@.kind => e@.kind->Call_0));
                    assert(decreases_to!(callee@ => callee@.kind));
                    assert(decreases_to!(callee@.kind => callee@.kind->Member_0));
                    let method = field.as_str();
                    if is_var_exec(object, "file") {
                        if str_eq(method, "inFolder") {
                            match str_lit_at(args, 0) {
                                None => literal_arg_error(args),
                                Some(f) => ok_result(in_folder(f.as_str()), InferredType::Bool),
                            }
                        } else if str_eq(method, "hasTag") {
                            match all_str_lits_exec(args) {
                                None => eval_error(String::from_str("expected a string literal argument")),
                                Some(ns) => ok_result(list_any("file_tags", any_needle_exec(&ns, true)), InferredType::Bool),
                            }
                        } else if str_eq(method, "hasLink") {
                            match all_str_lits_exec(args) {
                                None => eval_error(String::from_str("expected a string literal argument")),
                                Some(ns) => ok_result(list_any("file_links", any_needle_exec(&ns, false)), InferredType::Bool),
                            }
                        } else if str_eq(method, "hasProperty") {
                            match str_lit_at(args, 0) {
                                None => literal_arg_error(args),
                                Some(prop) => match ctx.schema.resolve_frontmatter(prop.as_str()) {
                                    Some(n) => if ctx.schema.has_column(n.as_str()) {
                                        ok_result(mk_un(UnOp::IsNotNull, Plan::Col(n.clone())), InferredType::Bool)
                                    } else {
                                        ok_result(Plan::Bool(false), InferredType::Bool)
                                    },
                                    None => ok_result(Plan::Bool(false), InferredType::Bool),
                                },
                            }
                        } else if str_eq(method, "asLink") {
                            if args.len() > 0 {
                                proof { lemma_call_arg_decreases(e@, 0); }
                                match translate_inner(&args[0], ctx) {
                                    Err(x) => Err(x),
                                    Ok(d) => ok_result(
                                        Plan::ConcatStr(Box::new(plist5(mk_str("[["), mk_col("file_path"), mk_str("|"), d.expr, mk_str("]]")))),
                                        InferredType::String,
                                    ),
                                }
                            } else {
                                ok_result(
                                    Plan::ConcatStr(Box::new(plist3(mk_str("[["), mk_col("file_path"), mk_str("]]")))),
                                    InferredType::String,
                                )
                            }
                        } else {
                            null_result()
                        }
                    } else if str_eq(method, "map") {
                        match translate_inner(object, ctx) {
                            Err(x) => Err(x),
                            Ok(recv) => {
                                if args.len() == 0 {
                                    return eval_error(String::from_str(".map() requires a callback argument"));
                                }
                                let inner = ctx.with_value_binding();
                                proof { lemma_call_arg_decreases(e@, 0); }
                                match translate_inner(&args[0], &inner) {
                                    Err(x) => Err(x),
                                    Ok(cb) => ok_result(mk_bin(BinPOp::ListEval, recv.expr, mk_cast(DType::Utf8, cb.expr)), InferredType::List),
                                }
                            },
                        }
                    } else {
                        match translate_inner(object, ctx) {
                            Err(x) => Err(x),
                            Ok(recv) => match translate_args(args, ctx) {
                                Err(x) => Err(x),
                                Ok(ts) => {
                                    let ps = plans_of(ts);
                                    apply_method(recv.expr, recv.ty, method, args, &ps)
                                },
                            },
                        }
                    }
                },
                _ => null_result(),
            }
        },
        _ => null_result(),
    }
}

/// The expression `x op y` with the given span.
pub open spec fn binary_expr(op: crate::expr::ast::BinOp, x: ExprV, y: ExprV, start: nat, end: nat) -> ExprV {
    ExprV { kind: ExprKindV::Binary(op, Box::new(x), Box::new(y)), start, end }
}

/// The four orderings compare the same two (cast) operands, each with its
/// own engine comparison: `<` strictly, `<=` also on equal operands, and
/// `>` and `>=` likewise; the result is a boolean.
pub proof fn law_comparisons_keep_their_operator(x: ExprV, y: ExprV, c: CtxV, start: nat, end: nat)
    requires
        tr(x, c) is Ok,
        tr(y, c) is Ok,
    ensures
        tr(binary_expr(crate::expr::ast::BinOp::Le, x, y, start, end), c) matches Ok((p, t)) && p matches Plan::Bin(
            op,
            a,
            b,
        ) && ({
            &&& t == InferredType::Bool
            &&& op == BinPOp::LtEq
            &&& tr(binary_expr(crate::expr::ast::BinOp::Lt, x, y, start, end), c) == Ok::<
                (PlanV, InferredType),
                TrErr,
            >((Plan::Bin(BinPOp::Lt, a, b), InferredType::Bool))
            &&& tr(binary_expr(crate::expr::ast::BinOp::Ge, x, y, start, end), c) == Ok::<
                (PlanV, InferredType),
                TrErr,
            >((Plan::Bin(BinPOp::GtEq, a, b), InferredType::Bool))
            &&& tr(binary_expr(crate::expr::ast::BinOp::Gt, x, y, start, end), c) == Ok::<
                (PlanV, InferredType),
                TrErr,
            >((Plan::Bin(BinPOp::Gt, a, b), InferredType::Bool))
        }),
{
    let le = binary_expr(crate::expr::ast::BinOp::Le, x, y, start, end);
    let lt = binary_expr(crate::expr::ast::BinOp::Lt, x, y, start, end);
    let ge = binary_expr(crate::expr::ast::BinOp::Ge, x, y, start, end);
    let gt = binary_expr(crate::expr::ast::BinOp::Gt, x, y, start, end);
    assert(tr(le, c) == tr_binary(c, le));
    assert(tr(lt, c) == tr_binary(c, lt));
    assert(tr(ge, c) == tr_binary(c, ge));
    assert(tr(gt, c) == tr_binary(c, gt));
}

/// Of two numbers, the engine operations mean what the operators say: `+`,
/// `-`, `*` and `%` become addition, subtraction, multiplication and
/// remainder of the two operands (whole numbers when both are whole), `/`
/// divides them as floats, `==` and `!=` test equality and its negation of
/// the same (cast) operands with a missing value counted as unequal, and
/// `&&` and `||` are a conjunction and a disjunction; the orderings compare
/// the operands themselves when both have one type.
pub proof fn law_number_operators(x: ExprV, y: ExprV, c: CtxV, start: nat, end: nat)
    requires
        tr(x, c) matches Ok((_, tx)) && tx.numeric(),
        tr(y, c) matches Ok((_, ty)) && ty.numeric(),
    ensures
        ({
            let (px, tx) = tr(x, c)->Ok_0;
            let (py, ty) = tr(y, c)->Ok_0;
            let whole = if tx == InferredType::Int && ty == InferredType::Int {
                InferredType::Int
            } else {
                InferredType::Float
            };
            &&& tr(binary_expr(crate::expr::ast::BinOp::Add, x, y, start, end), c) == Ok::<(PlanV, InferredType), TrErr>(
                (Plan::Bin(BinPOp::Add, Box::new(px), Box::new(py)), whole),
            )
            &&& tr(binary_expr(crate::expr::ast::BinOp::Sub, x, y, start, end), c) == Ok::<(PlanV, InferredType), TrErr>(
                (Plan::Bin(BinPOp::Sub, Box::new(px), Box::new(py)), whole),
            )
            &&& tr(binary_expr(crate::expr::ast::BinOp::Mul, x, y, start, end), c) == Ok::<(PlanV, InferredType), TrErr>(
                (Plan::Bin(BinPOp::Mul, Box::new(px), Box::new(py)), whole),
            )
            &&& tr(binary_expr(crate::expr::ast::BinOp::Mod, x, y, start, end), c) == Ok::<(PlanV, InferredType), TrErr>(
                (Plan::Bin(BinPOp::Rem, Box::new(px), Box::new(py)), whole),
            )
            &&& tr(binary_expr(crate::expr::ast::BinOp::Div, x, y, start, end), c) == Ok::<(PlanV, InferredType), TrErr>(
                (
                    Plan::Bin(
                        BinPOp::Div,
                        Box::new(Plan::Cast(DType::Float64, Box::new(px))),
                        Box::new(Plan::Cast(DType::Float64, Box::new(py))),
                    ),
                    InferredType::Float,
                ),
            )
            &&& tr(binary_expr(crate::expr::ast::BinOp::Eq, x, y, start, end), c) matches Ok((pe, te)) && pe matches Plan::Bin(
                fe,
                eqb,
                dflt,
            ) && ({
                &&& te == InferredType::Bool
                &&& fe == BinPOp::FillNull
                &&& *dflt == Plan::<Seq<char>>::Bool(false)
                &&& *eqb matches Plan::Bin(eop, a, b) && eop == BinPOp::Eq && tr(
                    binary_expr(crate::expr::ast::BinOp::Ne, x, y, start, end),
                    c,
                ) == Ok::<(PlanV, InferredType), TrErr>(
                    (
                        Plan::Bin(
                            BinPOp::FillNull,
                            Box::new(Plan::Bin(BinPOp::Neq, a, b)),
                            Box::new(Plan::Bool(true)),
                        ),
                        InferredType::Bool,
                    ),
                ) && (tx == ty ==> (*a == px && *b == py))
            })
            &&& tr(binary_expr(crate::expr::ast::BinOp::And, x, y, start, end), c) matches Ok((pa, ta)) && pa matches Plan::Bin(
                aop,
                _,
                _,
            ) && (ta == InferredType::Bool && aop == BinPOp::And)
            &&& tr(binary_expr(crate::expr::ast::BinOp::Or, x, y, start, end), c) matches Ok((po, to)) && po matches Plan::Bin(
                oop,
                _,
                _,
            ) && (to == InferredType::Bool && oop == BinPOp::Or)
            &&& tr(binary_expr(crate::expr::ast::BinOp::Lt, x, y, start, end), c) matches Ok((pl, _)) && pl matches Plan::Bin(
                _,
                la,
                lb,
            ) && (tx == ty ==> (*la == px && *lb == py))
        }),
{
    let e_add = binary_expr(crate::expr::ast::BinOp::Add, x, y, start, end);
    let e_sub = binary_expr(crate::expr::ast::BinOp::Sub, x, y, start, end);
    let e_mul = binary_expr(crate::expr::ast::BinOp::Mul, x, y, start, end);
    let e_mod = binary_expr(crate::expr::ast::BinOp::Mod, x, y, start, end);
    let e_div = binary_expr(crate::expr::ast::BinOp::Div, x, y, start, end);
    let e_eq = binary_expr(crate::expr::ast::BinOp::Eq, x, y, start, end);
    let e_ne = binary_expr(crate::expr::ast::BinOp::Ne, x, y, start, end);
    let e_and = binary_expr(crate::expr::ast::BinOp::And, x, y, start, end);
    let e_or = binary_expr(crate::expr::ast::BinOp::Or, x, y, start, end);
    let e_lt = binary_expr(crate::expr::ast::BinOp::Lt, x, y, start, end);
    assert(tr(e_add, c) == tr_binary(c, e_add));
    assert(tr(e_sub, c) == tr_binary(c, e_sub));
    assert(tr(e_mul, c) == tr_binary(c, e_mul));
    assert(tr(e_mod, c) == tr_binary(c, e_mod));
    assert(tr(e_div, c) == tr_binary(c, e_div));
    assert(tr(e_eq, c) == tr_binary(c, e_eq));
    assert(tr(e_ne, c) == tr_binary(c, e_ne));
    assert(tr(e_and, c) == tr_binary(c, e_and));
    assert(tr(e_or, c) == tr_binary(c, e_or));
    assert(tr(e_lt, c) == tr_binary(c, e_lt));
}

} // verus!
