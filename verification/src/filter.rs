//! Compile a filter tree into one boolean column plan.
//!
//! `And` folds its children with `and`, `Or` with `or`, and `Not` is the
//! negation of the `Or` of its children ("none of the children holds"). An
//! empty `And` holds and an empty `Or` does not. A leaf expression is parsed,
//! translated and reduced to its truth value; nulls count as false.
use vstd::prelude::*;

use crate::base_file::{FilterNode, FilterNodeV, filter_view, filters_view};
use crate::error::CrabaseError;
use crate::expr::parser::{parse, parse_text};
use crate::expr::plan::{BinPOp, Plan, PlanV, UnOp};
use crate::expr::translate::{
    CtxV, TrErr, TranslateCtx, b2, mk_bin, terr, tr, translate, truthy, truthy_spec, u,
};

verus! {

/// Outcome of compiling a filter.
pub type FilterOut = Result<PlanV, TrErr>;

/// The plans of the children, in order; the first error stops it.
pub open spec fn children_spec(cs: Seq<FilterNodeV>, c: CtxV) -> Result<Seq<PlanV>, TrErr>
    decreases cs, 0nat,
{
    if cs.len() == 0 {
        Ok(Seq::empty())
    } else {
        match children_spec(cs.subrange(0, cs.len() - 1), c) {
            Err(e) => Err(e),
            Ok(prev) => match compile_spec(cs[cs.len() - 1], c) {
                Err(e) => Err(e),
                Ok(p) => Ok(prev.push(p)),
            },
        }
    }
}

/// Left fold of non-empty plans with a binary operation.
pub open spec fn combine_seq(ps: Seq<PlanV>, op: BinPOp) -> PlanV
    decreases ps.len(),
{
    if ps.len() <= 1 {
        ps[0]
    } else {
        b2(op, combine_seq(ps.drop_last(), op), ps.last())
    }
}

/// The children folded with `op`, or `empty` when there are none.
pub open spec fn fold_spec(cs: Seq<FilterNodeV>, c: CtxV, empty: PlanV, op: BinPOp) -> FilterOut
    decreases cs, 1nat,
{
    match children_spec(cs, c) {
        Err(e) => Err(e),
        Ok(ps) => if ps.len() == 0 {
            Ok(empty)
        } else {
            Ok(combine_seq(ps, op))
        },
    }
}

/// The predicate a filter tree compiles to (before nulls become false).
pub open spec fn compile_spec(n: FilterNodeV, c: CtxV) -> FilterOut
    decreases n, 2nat,
{
    match n {
        FilterNodeV::And(cs) => fold_spec(cs, c, Plan::Bool(true), BinPOp::And),
        FilterNodeV::Or(cs) => fold_spec(cs, c, Plan::Bool(false), BinPOp::Or),
        FilterNodeV::Not(cs) => match fold_spec(cs, c, Plan::Bool(false), BinPOp::Or) {
            Err(e) => Err(e),
            Ok(p) => Ok(u(UnOp::Not, p)),
        },
        FilterNodeV::Expr(s) => match parse_text(s) {
            Err(pe) => Err(TrErr::Parse(pe)),
            Ok(ast) => match tr(ast, c) {
                Err(e) => Err(e),
                Ok((p, t)) => Ok(truthy_spec(p, t)),
            },
        },
    }
}

/// The predicate of a filter tree, nulls read as false.
pub open spec fn filter_spec(n: FilterNodeV, c: CtxV) -> FilterOut {
    match compile_spec(n, c) {
        Err(e) => Err(e),
        Ok(p) => Ok(b2(BinPOp::FillNull, p, Plan::Bool(false))),
    }
}

/// The global and view filters together; `true` when neither is present.
pub open spec fn combine_spec(g: Option<FilterNodeV>, v: Option<FilterNodeV>, c: CtxV) -> FilterOut {
    match (g, v) {
        (None, None) => Ok(Plan::Bool(true)),
        (Some(g), None) => filter_spec(g, c),
        (None, Some(v)) => filter_spec(v, c),
        (Some(g), Some(v)) => match filter_spec(g, c) {
            Err(e) => Err(e),
            Ok(gp) => match filter_spec(v, c) {
                Err(e) => Err(e),
                Ok(vp) => Ok(b2(BinPOp::And, gp, vp)),
            },
        },
    }
}

/// `r` agrees with the compilation outcome `s`.
pub open spec fn fres(r: Result<Plan<String>, CrabaseError>, s: FilterOut) -> bool {
    match s {
        Ok(p) => r is Ok && r->Ok_0@ == p,
        Err(e) => r is Err && terr(r->Err_0, e),
    }
}

pub proof fn lemma_filters_view(v: Seq<FilterNode>)
    ensures
        filters_view(v).len() == v.len(),
        forall|i: int| 0 <= i < v.len() ==> #[trigger] filters_view(v)[i] == filter_view(v[i]),
    decreases v.len(),
{
    if v.len() > 0 {
        lemma_filters_view(v.drop_last());
    }
}

proof fn lemma_children_prefix(cs: Seq<FilterNodeV>, c: CtxV, i: int)
    requires
        0 <= i <= cs.len(),
        children_spec(cs.take(i), c) is Err,
    ensures
        children_spec(cs, c) == children_spec(cs.take(i), c),
    decreases cs.len(),
{
    if i == cs.len() {
        assert(cs.take(i) =~= cs);
    } else {
        let init = cs.subrange(0, cs.len() - 1);
        assert(init.take(i) =~= cs.take(i));
        lemma_children_prefix(init, c, i);
    }
}

/// A `Not` node is the negation of the `Or` of its children: it holds
/// when none of them does.
pub proof fn law_not_is_negated_or(cs: Seq<FilterNodeV>, c: CtxV)
    ensures
        compile_spec(FilterNodeV::Not(cs), c) == match compile_spec(FilterNodeV::Or(cs), c) {
            Ok(p) => Ok(u(UnOp::Not, p)),
            Err(e) => Err(e),
        },
{
}

/// An empty `And` holds, an empty `Or` does not, and an empty `Not` holds.
pub proof fn law_empty_groups(c: CtxV)
    ensures
        compile_spec(FilterNodeV::And(Seq::empty()), c) == Ok::<PlanV, TrErr>(Plan::Bool(true)),
        compile_spec(FilterNodeV::Or(Seq::empty()), c) == Ok::<PlanV, TrErr>(Plan::Bool(false)),
        compile_spec(FilterNodeV::Not(Seq::empty()), c) == Ok::<PlanV, TrErr>(u(UnOp::Not, Plan::Bool(false))),
{
    assert(children_spec(Seq::<FilterNodeV>::empty(), c) == Ok::<Seq<PlanV>, TrErr>(Seq::empty()));
}

/// A group of one child compiles to that child.
pub proof fn law_single_child(n: FilterNodeV, c: CtxV)
    ensures
        compile_spec(FilterNodeV::And(seq![n]), c) == compile_spec(n, c),
        compile_spec(FilterNodeV::Or(seq![n]), c) == compile_spec(n, c),
{
    let cs = seq![n];
    assert(cs.subrange(0, 0) =~= Seq::<FilterNodeV>::empty());
    assert(children_spec(Seq::<FilterNodeV>::empty(), c) == Ok::<Seq<PlanV>, TrErr>(Seq::empty()));
    assert(cs[0] == n);
    match compile_spec(n, c) {
        Ok(p) => {
            assert(children_spec(cs, c) == Ok::<Seq<PlanV>, TrErr>(seq![p]));
            assert(combine_seq(seq![p], BinPOp::And) == p);
            assert(combine_seq(seq![p], BinPOp::Or) == p);
        },
        Err(e) => {
            assert(children_spec(cs, c) == Err::<Seq<PlanV>, TrErr>(e));
        },
    }
}

/// The children of a group are combined from the left: adding a child
/// combines the group so far with it.
pub proof fn law_group_folds_left(cs: Seq<FilterNodeV>, n: FilterNodeV, c: CtxV)
    requires
        cs.len() > 0,
        compile_spec(FilterNodeV::And(cs), c) is Ok,
        compile_spec(n, c) is Ok,
    ensures
        compile_spec(FilterNodeV::And(cs.push(n)), c) == Ok::<PlanV, TrErr>(
            b2(BinPOp::And, compile_spec(FilterNodeV::And(cs), c)->Ok_0, compile_spec(n, c)->Ok_0),
        ),
{
    let all = cs.push(n);
    assert(all.subrange(0, all.len() - 1) =~= cs);
    assert(all[all.len() - 1] == n);
    let ps = children_spec(cs, c)->Ok_0;
    assert(children_spec(all, c) == Ok::<Seq<PlanV>, TrErr>(ps.push(compile_spec(n, c)->Ok_0)));
    let qs = ps.push(compile_spec(n, c)->Ok_0);
    assert(qs.drop_last() =~= ps);
    if ps.len() == 0 {
        lemma_children_len(cs, c);
    }
}

proof fn lemma_children_len(cs: Seq<FilterNodeV>, c: CtxV)
    requires
        children_spec(cs, c) is Ok,
    ensures
        children_spec(cs, c)->Ok_0.len() == cs.len(),
    decreases cs.len(),
{
    if cs.len() > 0 {
        lemma_children_len(cs.subrange(0, cs.len() - 1), c);
    }
}

/// Compile a filter tree to a predicate plan whose nulls read as false.
pub fn filter_node_to_expr(node: &FilterNode, ctx: &TranslateCtx) -> (r: Result<Plan<String>, CrabaseError>)
    ensures
        fres(r, filter_spec(node@, ctx.model())),
{
    match compile(node, ctx) {
        Err(x) => Err(x),
        Ok(p) => Ok(mk_bin(BinPOp::FillNull, p, Plan::Bool(false))),
    }
}

fn compile(node: &FilterNode, ctx: &TranslateCtx) -> (r: Result<Plan<String>, CrabaseError>)
    ensures
        fres(r, compile_spec(node@, ctx.model())),
    decreases node, 1nat,
{
    match node {
        FilterNode::And(children) => fold_children(children, ctx, Plan::Bool(true), BinPOp::And),
        FilterNode::Or(children) => fold_children(children, ctx, Plan::Bool(false), BinPOp::Or),
        FilterNode::Not(children) => match fold_children(children, ctx, Plan::Bool(false), BinPOp::Or) {
            Err(x) => Err(x),
            Ok(p) => Ok(Plan::Un(UnOp::Not, Box::new(p))),
        },
        FilterNode::Expr(text) => match parse(text.as_str()) {
            Err(x) => Err(x),
            Ok(ast) => match translate(&ast, ctx) {
                Err(x) => Err(x),
                Ok(t) => Ok(truthy(t)),
            },
        },
    }
}

/// The children compiled and folded with `op`, or `empty` without children.
fn fold_children(children: &Vec<FilterNode>, ctx: &TranslateCtx, empty: Plan<String>, op: BinPOp) -> (r: Result<Plan<String>, CrabaseError>)
    ensures
        fres(r, fold_spec(filters_view(children@), ctx.model(), empty@, op)),
    decreases children, 0nat,
{
    let ghost fv = filters_view(children@);
    let ghost c = ctx.model();
    proof {
        lemma_filters_view(children@);
    }
    let mut acc: Option<Plan<String>> = None;
    let ghost mut ps: Seq<PlanV> = Seq::empty();
    let mut i: usize = 0;
    assert(fv.take(0) =~= Seq::<FilterNodeV>::empty());
    while i < children.len()
        invariant
            0 <= i <= children.len(),
            fv == filters_view(children@),
            c == ctx.model(),
            fv.len() == children.len(),
            forall|k: int| 0 <= k < children.len() ==> #[trigger] fv[k] == filter_view(children@[k]),
            children_spec(fv.take(i as int), c) == Ok::<Seq<PlanV>, TrErr>(ps),
            ps.len() == i,
            i == 0 ==> acc is None,
            i > 0 ==> acc is Some && acc->0@ == combine_seq(ps, op),
        decreases children.len() - i,
    {
        assert(fv.take(i + 1).subrange(0, i as int) =~= fv.take(i as int));
        assert(fv.take(i + 1)[i as int] == fv[i as int]);
        assert(decreases_to!(children => children@));
        assert(decreases_to!(children@ => children@[i as int]));
        match compile(&children[i], ctx) {
            Err(x) => {
                proof {
                    lemma_children_prefix(fv, c, i + 1);
                }
                return Err(x);
            },
            Ok(p) => {
                let ghost pv = p@;
                acc = match acc {
                    None => Some(p),
                    Some(a) => Some(Plan::Bin(op, Box::new(a), Box::new(p))),
                };
                proof {
                    let old_ps = ps;
                    ps = ps.push(pv);
                    assert(ps.drop_last() =~= old_ps);
                }
            },
        }
        i += 1;
    }
    assert(fv.take(children.len() as int) =~= fv);
    match acc {
        None => Ok(empty),
        Some(a) => Ok(a),
    }
}

/// The global filter and the view's filter as one predicate; `true` when
/// neither is present.
pub fn combine_filters(global: Option<&FilterNode>, view: Option<&FilterNode>, ctx: &TranslateCtx) -> (r: Result<Plan<String>, CrabaseError>)
    ensures
        fres(
            r,
            combine_spec(
                match global {
                    Some(g) => Some(g@),
                    None => None,
                },
                match view {
                    Some(v) => Some(v@),
                    None => None,
                },
                ctx.model(),
            ),
        ),
{
    match (global, view) {
        (None, None) => Ok(Plan::Bool(true)),
        (Some(g), None) => filter_node_to_expr(g, ctx),
        (None, Some(v)) => filter_node_to_expr(v, ctx),
        (Some(g), Some(v)) => {
            let ge = match filter_node_to_expr(g, ctx) {
                Err(x) => return Err(x),
                Ok(p) => p,
            };
            let ve = match filter_node_to_expr(v, ctx) {
                Err(x) => return Err(x),
                Ok(p) => p,
            };
            Ok(mk_bin(BinPOp::And, ge, ve))
        },
    }
}

/// With both a root filter and a view filter, a row must pass both: the
/// combined predicate is the conjunction of the predicate of the root filter
/// alone and that of the view filter alone, and it fails when either fails.
pub proof fn law_root_and_view_filters_both_apply(g: FilterNodeV, v: FilterNodeV, c: CtxV)
    ensures
        match (combine_spec(Some(g), None, c), combine_spec(None, Some(v), c)) {
            (Ok(gp), Ok(vp)) => combine_spec(Some(g), Some(v), c) == Ok::<PlanV, TrErr>(
                Plan::Bin(BinPOp::And, Box::new(gp), Box::new(vp)),
            ),
            _ => combine_spec(Some(g), Some(v), c) is Err,
        },
{
}

/// A filter present on one side alone applies as it is, wherever it is
/// given, with a missing value read as false; with no filters every row
/// passes.
pub proof fn law_single_filter_applies_alone(n: FilterNodeV, c: CtxV)
    ensures
        combine_spec(None, None, c) == Ok::<PlanV, TrErr>(Plan::Bool(true)),
        combine_spec(Some(n), None, c) == combine_spec(None, Some(n), c),
        combine_spec(Some(n), None, c) == match compile_spec(n, c) {
            Ok(p) => Ok::<PlanV, TrErr>(Plan::Bin(BinPOp::FillNull, Box::new(p), Box::new(Plan::Bool(false)))),
            Err(e) => Err(e),
        },
{
}

} // verus!
