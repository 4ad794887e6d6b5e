//! Column-expression plans: what an expression of the query language
//! compiles to. Each node names one operation of the dataframe engine; the
//! plan is lowered to an engine expression node for node.
use vstd::prelude::*;

verus! {

/// Column data types a plan casts to.
#[derive(Debug, Clone, Copy, PartialEq, Eq, Structural)]
pub enum DType {
    Int64,
    Float64,
    Utf8,
    Boolean,
    Date,
    DatetimeUs,
}

/// Operations on one operand.
#[derive(Debug, Clone, Copy, PartialEq, Eq, Structural)]
pub enum UnOp {
    /// Length of a string in characters.
    StrLenChars,
    StrToLower,
    StrToUpper,
    /// Strip leading and trailing whitespace.
    StrStrip,
    StrReverse,
    /// Title-case each string (the library's title-casing, applied per row).
    StrTitle,
    ListLen,
    ListReverse,
    ListUnique,
    ListSort,
    /// Whether any element of a boolean list holds.
    ListAny,
    DtYear,
    DtMonth,
    DtDay,
    DtHour,
    DtMinute,
    DtSecond,
    DtTotalDays,
    /// Truncate a timestamp to its day.
    DtTruncateDay,
    IsNull,
    IsNotNull,
    Not,
    Abs,
    Ceil,
    Floor,
    /// Round to zero decimals.
    Round,
    /// The string sort key of each row (the library's sort key, per row).
    SortKey,
}

/// Operations on two operands.
#[derive(Debug, Clone, Copy, PartialEq, Eq, Structural)]
pub enum BinPOp {
    Add,
    Sub,
    Mul,
    Div,
    Rem,
    Eq,
    Neq,
    Gt,
    Lt,
    GtEq,
    LtEq,
    And,
    Or,
    /// Replace nulls of the left operand by the right one.
    FillNull,
    /// Literal substring test.
    StrContains,
    StrStartsWith,
    StrEndsWith,
    StrSplit,
    StrStripPrefix,
    StrStripSuffix,
    /// Element at an index (null when out of bounds).
    ListGet,
    ListContains,
    /// Join the elements with a separator.
    ListJoin,
    /// Evaluate the right operand on every element of the left list.
    ListEval,
    /// Shift a timestamp by a duration string.
    DtOffsetBy,
}

/// Operations on three operands.
#[derive(Debug, Clone, Copy, PartialEq, Eq, Structural)]
pub enum TerOp {
    /// `when(a).then(b).otherwise(c)`.
    When,
    /// Replace every literal occurrence of `b` by `c`.
    StrReplaceLiteral,
    /// Replace every match of the regex `b` by `c`.
    StrReplaceRegex,
    /// Substring from offset `b` of length `c`.
    StrSlice,
    /// Sub-list from offset `b` of length `c`.
    ListSlice,
}

/// A column-expression plan; `S` is the string type (`String` for plans
/// built at run time, `Seq<char>` for their model).
#[derive(Debug)]
pub enum Plan<S> {
    Col(S),
    /// The current element inside a list evaluation.
    Elem,
    Null,
    Bool(bool),
    Int(i64),
    UInt(u32),
    /// A floating-point literal, by its decimal text.
    Float(S),
    Str(S),
    /// Days since 1970-01-01.
    DateLit(i32),
    /// Microseconds since 1970-01-01T00:00:00.
    DatetimeLit(i64),
    /// The empty list of strings.
    EmptyStrList,
    Cast(DType, Box<Plan<S>>),
    Un(UnOp, Box<Plan<S>>),
    Bin(BinPOp, Box<Plan<S>>, Box<Plan<S>>),
    Ter(TerOp, Box<Plan<S>>, Box<Plan<S>>, Box<Plan<S>>),
    /// Format a timestamp with a strftime pattern.
    DtFormat(Box<Plan<S>>, S),
    /// Parse strings as timestamps with a strftime pattern (null on failure).
    Strptime(Box<Plan<S>>, S),
    /// Concatenate the strings of the parts, skipping nulls.
    ConcatStr(Box<PList<S>>),
    /// Concatenate the parts into one list.
    ConcatList(Box<PList<S>>),
    /// Look a note's stem up in the vault and take that note's value in the
    /// named column.
    CrossFile(Box<Plan<S>>, S),
    /// Name the result column.
    Alias(Box<Plan<S>>, S),
}

/// A list of plans.
#[derive(Debug)]
pub enum PList<S> {
    Nil,
    Cons(Box<Plan<S>>, Box<PList<S>>),
}

/// Model of a plan.
pub type PlanV = Plan<Seq<char>>;

pub type PListV = PList<Seq<char>>;

pub open spec fn plan_view(p: Plan<String>) -> PlanV
    decreases p,
{
    match p {
        Plan::Col(s) => Plan::Col(s@),
        Plan::Elem => Plan::Elem,
        Plan::Null => Plan::Null,
        Plan::Bool(b) => Plan::Bool(b),
        Plan::Int(i) => Plan::Int(i),
        Plan::UInt(u) => Plan::UInt(u),
        Plan::Float(s) => Plan::Float(s@),
        Plan::Str(s) => Plan::Str(s@),
        Plan::DateLit(d) => Plan::DateLit(d),
        Plan::DatetimeLit(m) => Plan::DatetimeLit(m),
        Plan::EmptyStrList => Plan::EmptyStrList,
        Plan::Cast(t, a) => Plan::Cast(t, Box::new(plan_view(*a))),
        Plan::Un(o, a) => Plan::Un(o, Box::new(plan_view(*a))),
        Plan::Bin(o, a, b) => Plan::Bin(o, Box::new(plan_view(*a)), Box::new(plan_view(*b))),
        Plan::Ter(o, a, b, c) => Plan::Ter(
            o,
            Box::new(plan_view(*a)),
            Box::new(plan_view(*b)),
            Box::new(plan_view(*c)),
        ),
        Plan::DtFormat(a, f) => Plan::DtFormat(Box::new(plan_view(*a)), f@),
        Plan::Strptime(a, f) => Plan::Strptime(Box::new(plan_view(*a)), f@),
        Plan::ConcatStr(l) => Plan::ConcatStr(Box::new(plist_view(*l))),
        Plan::ConcatList(l) => Plan::ConcatList(Box::new(plist_view(*l))),
        Plan::CrossFile(a, c) => Plan::CrossFile(Box::new(plan_view(*a)), c@),
        Plan::Alias(a, n) => Plan::Alias(Box::new(plan_view(*a)), n@),
    }
}

pub open spec fn plist_view(l: PList<String>) -> PListV
    decreases l,
{
    match l {
        PList::Nil => PList::Nil,
        PList::Cons(h, t) => PList::Cons(Box::new(plan_view(*h)), Box::new(plist_view(*t))),
    }
}

impl vstd::view::View for Plan<String> {
    type V = PlanV;

    open spec fn view(&self) -> PlanV {
        plan_view(*self)
    }
}

impl vstd::view::View for PList<String> {
    type V = PListV;

    open spec fn view(&self) -> PListV {
        plist_view(*self)
    }
}

/// The plans of a sequence as a list.
pub open spec fn to_plist(s: Seq<PlanV>) -> PListV
    decreases s.len(),
{
    if s.len() == 0 {
        PList::Nil
    } else {
        PList::Cons(Box::new(s[0]), Box::new(to_plist(s.drop_first())))
    }
}

/// Build a list from plans, in order.
pub fn plist_from(v: Vec<Plan<String>>) -> (r: PList<String>)
    ensures
        r@ == to_plist(v@.map_values(|p: Plan<String>| p@)),
{
    let ghost vv = v@.map_values(|p: Plan<String>| p@);
    let mut v = v;
    let mut acc: PList<String> = PList::Nil;
    let mut n = v.len();
    assert(vv.skip(n as int) =~= Seq::<PlanV>::empty());
    while n > 0
        invariant
            n == v.len(),
            n <= vv.len(),
            v@.map_values(|p: Plan<String>| p@) == vv.take(n as int),
            acc@ == to_plist(vv.skip(n as int)),
        decreases n,
    {
        let ghost before = v@;
        let p = v.pop().unwrap();
        proof {
            assert(before.drop_last() =~= v@);
            assert(before.map_values(|p: Plan<String>| p@)[n - 1] == before[n - 1]@);
            assert(vv.take(n as int)[n - 1] == vv[n - 1]);
            assert(p@ == vv[n - 1]);
            assert(v@.map_values(|p: Plan<String>| p@) =~= vv.take(n - 1));
            assert(vv.skip(n - 1).drop_first() =~= vv.skip(n as int));
        }
        acc = PList::Cons(Box::new(p), Box::new(acc));
        n -= 1;
    }
    assert(vv.skip(0) =~= vv);
    acc
}

} // verus!
