//! Plan a query end to end: filter, sort, limit and select.
//!
//! The plan names, in column plans, what the dataframe engine computes: one
//! predicate, the sort keys with their directions (always ending with the
//! path and name tie-breakers), the row limit, and one aliased column per
//! entry of the view's `order`.
use vstd::prelude::*;
use vstd::view::View as _;

use crate::base_file::{BaseFile, SortDirection, SortKey, View, ViewV, strings_view, sort_keys_view};
use crate::error::CrabaseError;
use crate::expr::parser::{parse, parse_text};
use crate::expr::plan::{BinPOp, DType, PList, Plan, PlanV, TerOp, UnOp, plist_from, to_plist};
use crate::expr::translate::{
    schema_ctx, CtxV, InferredType, TrErr, TranslateCtx, b2, col_type, concat_str, cs, last_value, mk_bin,
    mk_cast, mk_col, mk_str, mk_ter, mk_un, plans_view, sstr, terr, tr, translate, u,
};
use crate::filter::{FilterOut, combine_filters, combine_spec, fres};
use crate::text::{chars_of, string_from_chars, str_eq};

verus! {

// ---------- Text helpers ----------

/// `s` without the prefix `pre`, when it starts with it.
pub open spec fn strip_prefix_spec(s: Seq<char>, pre: Seq<char>) -> Option<Seq<char>> {
    if pre.len() <= s.len() && s.take(pre.len() as int) == pre {
        Some(s.skip(pre.len() as int))
    } else {
        None
    }
}

fn strip_prefix_str(s: &str, pre: &str) -> (r: Option<String>)
    ensures
        match strip_prefix_spec(s@, pre@) {
            Some(t) => r is Some && r->0@ == t,
            None => r is None,
        },
{
    let sv = chars_of(s);
    let pv = chars_of(pre);
    if pv.len() > sv.len() {
        return None;
    }
    let mut i: usize = 0;
    while i < pv.len()
        invariant
            0 <= i <= pv.len() <= sv.len(),
            sv@ == s@,
            pv@ == pre@,
            forall|k: int| 0 <= k < i ==> sv@[k] == pv@[k],
        decreases pv.len() - i,
    {
        if sv[i] != pv[i] {
            assert(sv@.take(pv.len() as int)[i as int] != pv@[i as int]);
            return None;
        }
        i += 1;
    }
    assert(sv@.take(pv.len() as int) =~= pv@);
    assert(sv@.subrange(pv.len() as int, sv.len() as int) =~= sv@.skip(pv.len() as int));
    Some(string_from_chars(&sv, pv.len(), sv.len()))
}

// ---------- Column plans ----------

/// A null column as long as the table: null on every row that has a path.
pub open spec fn null_column() -> PlanV {
    crate::expr::translate::when(u(UnOp::IsNotNull, Plan::Col("file_path"@)), Plan::Null, Plan::Null)
}

/// `e` spread over the table's rows (a constant becomes a column).
pub open spec fn broadcast(e: PlanV) -> PlanV {
    crate::expr::translate::when(u(UnOp::IsNotNull, Plan::Col("file_path"@)), e, e)
}

fn null_column_expr() -> (r: Plan<String>)
    ensures
        r@ == null_column(),
{
    mk_ter(TerOp::When, mk_un(UnOp::IsNotNull, mk_col("file_path")), Plan::Null, Plan::Null)
}

fn broadcast_to_frame(e: Plan<String>) -> (r: Plan<String>)
    ensures
        r@ == broadcast(e@),
{
    let c = crate::expr::translate::clone_plan(&e);
    mk_ter(TerOp::When, mk_un(UnOp::IsNotNull, mk_col("file_path")), c, e)
}

/// A formula's plan by name: none when there is no such formula; an error
/// when its body does not parse or translate.
pub open spec fn formula_plan(name: Seq<char>, c: CtxV) -> Option<Result<(PlanV, InferredType), TrErr>> {
    match last_value(c.formulas, name) {
        None => None,
        Some(body) => Some(
            match parse_text(body) {
                Err(pe) => Err(TrErr::Parse(pe)),
                Ok(ast) => tr(ast, c),
            },
        ),
    }
}

/// The column a property reads before sorting, and whether it holds strings.
pub open spec fn sort_base_spec(prop: Seq<char>, c: CtxV) -> Result<(PlanV, bool), TrErr> {
    match strip_prefix_spec(prop, "file."@) {
        Some(rest) => {
            let name = "file_"@ + rest;
            match col_type(c.cols, name) {
                Some(t) => Ok((Plan::Col(name), t == InferredType::String)),
                None => Ok((null_column(), false)),
            }
        },
        None => match strip_prefix_spec(prop, "note."@) {
            Some(rest) => match last_value(c.keys, rest) {
                Some(name) => Ok((Plan::Col(name), col_type(c.cols, name) == Some(InferredType::String))),
                None => Ok((null_column(), false)),
            },
            None => match strip_prefix_spec(prop, "formula."@) {
                Some(rest) => match formula_plan(rest, c) {
                    None => Ok((null_column(), false)),
                    Some(Err(e)) => Err(e),
                    Some(Ok((p, t))) => Ok((broadcast(p), t == InferredType::String)),
                },
                None => match last_value(c.keys, prop) {
                    Some(name) => Ok((Plan::Col(name), col_type(c.cols, name) == Some(InferredType::String))),
                    None => Ok((null_column(), false)),
                },
            },
        },
    }
}

/// The sort key of a property: strings sort by their natural sort key.
pub open spec fn sort_key_spec(prop: Seq<char>, c: CtxV) -> FilterOut {
    match sort_base_spec(prop, c) {
        Err(e) => Err(e),
        Ok((p, s)) => if s {
            Ok(u(UnOp::SortKey, crate::expr::translate::cs(DType::Utf8, p)))
        } else {
            Ok(p)
        },
    }
}

/// Sort keys of `(property, direction)` entries, in order.
pub open spec fn keys_spec(ks: Seq<(Seq<char>, SortDirection)>, c: CtxV) -> Result<Seq<PlanV>, TrErr>
    decreases ks.len(),
{
    if ks.len() == 0 {
        Ok(Seq::empty())
    } else {
        match keys_spec(ks.drop_last(), c) {
            Err(e) => Err(e),
            Ok(prev) => match sort_key_spec(ks.last().0, c) {
                Err(e) => Err(e),
                Ok(p) => Ok(prev.push(p)),
            },
        }
    }
}

/// The `(property, direction)` entries a view sorts by: its grouping, then
/// its sort keys; the first `order` column ascending when there are neither.
pub open spec fn sort_entries(v: ViewV) -> Seq<(Seq<char>, SortDirection)> {
    let g = match v.group_by {
        Some(gb) => seq![gb],
        None => Seq::empty(),
    };
    let s = match v.sort {
        Some(ks) => ks,
        None => Seq::empty(),
    };
    if g.len() + s.len() > 0 {
        g + s
    } else {
        match v.order {
            Some(o) => if o.len() > 0 {
                seq![(o[0], SortDirection::Asc)]
            } else {
                Seq::empty()
            },
            None => Seq::empty(),
        }
    }
}

pub open spec fn is_desc(e: (Seq<char>, SortDirection)) -> bool {
    e.1 == SortDirection::Desc
}

/// Sort keys and descending flags of a view, ending with the path and name
/// tie-breakers; none when the view sorts by nothing.
pub open spec fn sort_spec(v: ViewV, c: CtxV) -> Result<Option<(Seq<PlanV>, Seq<bool>)>, TrErr> {
    let es = sort_entries(v);
    match keys_spec(es, c) {
        Err(e) => Err(e),
        Ok(ps) => if es.len() == 0 {
            Ok(None)
        } else {
            Ok(
                Some(
                    (
                        ps.push(Plan::Col("file_path_natkey"@)).push(Plan::Col("file_name_natkey"@)),
                        es.map_values(|e: (Seq<char>, SortDirection)| is_desc(e)).push(false).push(false),
                    ),
                ),
            )
        },
    }
}

/// The title column: a link to the note showing its frontmatter title when
/// it has one, else its name.
pub open spec fn title_column(c: CtxV) -> PlanV {
    let display = if col_type(c.cols, "title"@) is Some {
        crate::expr::translate::when(
            u(UnOp::IsNotNull, Plan::Col("title"@)),
            cs(DType::Utf8, Plan::Col("title"@)),
            Plan::Col("file_name"@),
        )
    } else {
        Plan::Col("file_name"@)
    };
    Plan::ConcatStr(
        Box::new(
            to_plist(seq![sstr("[["@), Plan::Col("file_path"@), sstr("| "@), display, sstr("]]"@)]),
        ),
    )
}

/// The plan of one output column.
pub open spec fn column_spec(column: Seq<char>, c: CtxV) -> FilterOut {
    if column == "title"@ {
        Ok(title_column(c))
    } else {
        match strip_prefix_spec(column, "file."@) {
            Some(rest) => if col_type(c.cols, "file_"@ + rest) is Some {
                Ok(Plan::Col("file_"@ + rest))
            } else {
                Ok(Plan::Null)
            },
            None => match strip_prefix_spec(column, "formula."@) {
                Some(rest) => match formula_plan(rest, c) {
                    None => Ok(null_column()),
                    Some(Err(e)) => Err(e),
                    Some(Ok((p, _))) => Ok(broadcast(p)),
                },
                None => match strip_prefix_spec(column, "note."@) {
                    Some(rest) => match last_value(c.keys, rest) {
                        Some(name) => Ok(Plan::Col(name)),
                        None => Ok(Plan::Null),
                    },
                    None => match last_value(c.keys, column) {
                        Some(name) => Ok(Plan::Col(name)),
                        None => Ok(Plan::Null),
                    },
                },
            },
        }
    }
}

/// The output columns, each named after its `order` entry.
pub open spec fn columns_spec(order: Seq<Seq<char>>, c: CtxV) -> Result<Seq<PlanV>, TrErr>
    decreases order.len(),
{
    if order.len() == 0 {
        Ok(Seq::empty())
    } else {
        match columns_spec(order.drop_last(), c) {
            Err(e) => Err(e),
            Ok(prev) => match column_spec(order.last(), c) {
                Err(e) => Err(e),
                Ok(p) => Ok(prev.push(Plan::Alias(Box::new(p), order.last()))),
            },
        }
    }
}

pub open spec fn view_order(v: ViewV) -> Seq<Seq<char>> {
    match v.order {
        Some(o) => o,
        None => Seq::empty(),
    }
}

pub open spec fn entries_view(v: Seq<(String, SortDirection)>) -> Seq<(Seq<char>, SortDirection)> {
    v.map_values(|e: (String, SortDirection)| (e.0@, e.1))
}

/// The sort keys and flags `s` are those of the model `so`.
pub open spec fn sort_matches(s: Option<(Vec<Plan<String>>, Vec<bool>)>, so: Option<(Seq<PlanV>, Seq<bool>)>) -> bool {
    match (s, so) {
        (None, None) => true,
        (Some((ks, ds)), Some((kv, dv))) => plans_view(ks@) == kv && ds@ == dv,
        _ => false,
    }
}

/// `r` agrees with the outcome `s` of planning a list of columns.
pub open spec fn plans_res(r: Result<Vec<Plan<String>>, CrabaseError>, s: Result<Seq<PlanV>, TrErr>) -> bool {
    match s {
        Ok(ps) => r is Ok && plans_view(r->Ok_0@) == ps,
        Err(e) => r is Err && terr(r->Err_0, e),
    }
}

fn formula_plan_exec(name: &str, ctx: &TranslateCtx) -> (r: Option<Result<crate::expr::translate::Translated, CrabaseError>>)
    ensures
        match formula_plan(name@, ctx.model()) {
            None => r is None,
            Some(s) => r is Some && crate::expr::translate::tres(r->0, s),
        },
{
    match ctx.formula_body(name) {
        None => None,
        Some(body) => match parse(body.as_str()) {
            Err(x) => Some(Err(x)),
            Ok(ast) => Some(translate(&ast, ctx)),
        },
    }
}

fn sort_base_expr(prop: &str, ctx: &TranslateCtx) -> (r: Result<(Plan<String>, bool), CrabaseError>)
    ensures
        match sort_base_spec(prop@, ctx.model()) {
            Ok((p, b)) => r is Ok && r->Ok_0.0@ == p && r->Ok_0.1 == b,
            Err(e) => r is Err && terr(r->Err_0, e),
        },
{
    let schema = ctx.vault_schema();
    if let Some(rest) = strip_prefix_str(prop, "file.") {
        let name = concat_str("file_", rest.as_str());
        return match schema.dtype(name.as_str()) {
            Some(t) => Ok((Plan::Col(name), t == InferredType::String)),
            None => Ok((null_column_expr(), false)),
        };
    }
    if let Some(rest) = strip_prefix_str(prop, "note.") {
        return match schema.resolve_frontmatter(rest.as_str()) {
            Some(name) => {
                let is_string = schema.dtype(name.as_str()) == Some(InferredType::String);
                Ok((Plan::Col(name.clone()), is_string))
            },
            None => Ok((null_column_expr(), false)),
        };
    }
    if let Some(rest) = strip_prefix_str(prop, "formula.") {
        return match formula_plan_exec(rest.as_str(), ctx) {
            None => Ok((null_column_expr(), false)),
            Some(Err(x)) => Err(x),
            Some(Ok(t)) => {
                let is_string = t.ty == InferredType::String;
                Ok((broadcast_to_frame(t.expr), is_string))
            },
        };
    }
    match schema.resolve_frontmatter(prop) {
        Some(name) => {
            let is_string = schema.dtype(name.as_str()) == Some(InferredType::String);
            Ok((Plan::Col(name.clone()), is_string))
        },
        None => Ok((null_column_expr(), false)),
    }
}

/// The sort key of a property: strings sort by their natural sort key,
/// anything else by its value.
fn sort_expr_for(prop: &str, ctx: &TranslateCtx) -> (r: Result<Plan<String>, CrabaseError>)
    ensures
        fres(r, sort_key_spec(prop@, ctx.model())),
{
    match sort_base_expr(prop, ctx) {
        Err(x) => Err(x),
        Ok((base, is_string)) => if is_string {
            Ok(mk_un(UnOp::SortKey, mk_cast(DType::Utf8, base)))
        } else {
            Ok(base)
        },
    }
}

fn sort_entries_exec(view: &View) -> (r: Vec<(String, SortDirection)>)
    ensures
        entries_view(r@) == sort_entries(view@),
{
    let mut out: Vec<(String, SortDirection)> = Vec::new();
    let ghost g: Seq<(Seq<char>, SortDirection)> = match view@.group_by {
        Some(gb) => seq![gb],
        None => Seq::empty(),
    };
    if let Some(gb) = &view.group_by {
        out.push((gb.property.clone(), gb.direction));
    }
    assert(entries_view(out@) =~= g);
    let ghost s: Seq<(Seq<char>, SortDirection)> = match view@.sort {
        Some(ks) => ks,
        None => Seq::empty(),
    };
    if let Some(keys) = &view.sort {
        let mut i: usize = 0;
        while i < keys.len()
            invariant
                0 <= i <= keys.len(),
                view.sort == Some(*keys),
                s == sort_keys_view(*keys),
                entries_view(out@) == g + s.take(i as int),
            decreases keys.len() - i,
        {
            let ghost before = out@;
            out.push((keys[i].property.clone(), keys[i].direction));
            assert(s[i as int] == keys@[i as int]@);
            assert(entries_view(out@) =~= entries_view(before).push((keys@[i as int].property@, keys@[i as int].direction)));
            assert(s.take(i + 1) =~= s.take(i as int).push(s[i as int]));
            i += 1;
        }
        assert(s.take(keys.len() as int) =~= s);
    } else {
        assert(g + s =~= g);
    }
    if out.len() > 0 {
        return out;
    }
    if let Some(order) = &view.order {
        if order.len() > 0 {
            out.push((order[0].clone(), SortDirection::Asc));
            assert(strings_view(*order)[0] == order@[0]@);
            assert(entries_view(out@) =~= seq![(order@[0]@, SortDirection::Asc)]);
        }
    }
    out
}

proof fn lemma_keys_prefix(ks: Seq<(Seq<char>, SortDirection)>, c: CtxV, i: int)
    requires
        0 <= i <= ks.len(),
        keys_spec(ks.take(i), c) is Err,
    ensures
        keys_spec(ks, c) == keys_spec(ks.take(i), c),
    decreases ks.len(),
{
    if i == ks.len() {
        assert(ks.take(i) =~= ks);
    } else {
        assert(ks.drop_last().take(i) =~= ks.take(i));
        lemma_keys_prefix(ks.drop_last(), c, i);
    }
}

/// The sort keys of a view with their descending flags, ending with the
/// path and name tie-breakers; none when the view sorts by nothing.
fn sort_exprs(view: &View, ctx: &TranslateCtx) -> (r: Result<Option<(Vec<Plan<String>>, Vec<bool>)>, CrabaseError>)
    ensures
        match sort_spec(view@, ctx.model()) {
            Ok(None) => r is Ok && r->Ok_0 is None,
            Ok(Some(k)) => r is Ok && sort_matches(r->Ok_0, Some(k)),
            Err(e) => r is Err && terr(r->Err_0, e),
        },
{
    let entries = sort_entries_exec(view);
    let ghost es = entries_view(entries@);
    let ghost c = ctx.model();
    let mut exprs: Vec<Plan<String>> = Vec::new();
    let mut desc: Vec<bool> = Vec::new();
    let mut i: usize = 0;
    assert(es.take(0) =~= Seq::<(Seq<char>, SortDirection)>::empty());
    assert(plans_view(exprs@) =~= Seq::<PlanV>::empty());
    while i < entries.len()
        invariant
            0 <= i <= entries.len(),
            es == entries_view(entries@),
            es == sort_entries(view@),
            c == ctx.model(),
            keys_spec(es.take(i as int), c) == Ok::<Seq<PlanV>, TrErr>(plans_view(exprs@)),
            desc@ == es.take(i as int).map_values(|e: (Seq<char>, SortDirection)| is_desc(e)),
        decreases entries.len() - i,
    {
        assert(es.take(i + 1).drop_last() =~= es.take(i as int));
        assert(es[i as int] == (entries@[i as int].0@, entries@[i as int].1));
        assert(es.take(i + 1).last() == es[i as int]);
        match sort_expr_for(entries[i].0.as_str(), ctx) {
            Err(x) => {
                proof {
                    let e = sort_key_spec(es.take(i + 1).last().0, c)->Err_0;
                    assert(keys_spec(es.take(i + 1), c) == Err::<Seq<PlanV>, TrErr>(e));
                    lemma_keys_prefix(es, c, i + 1);
                }
                return Err(x);
            },
            Ok(p) => {
                let ghost before = exprs@;
                exprs.push(p);
                assert(plans_view(exprs@) =~= plans_view(before).push(p@));
            },
        }
        let d = match entries[i].1 {
            SortDirection::Desc => true,
            SortDirection::Asc => false,
        };
        desc.push(d);
        assert(es.take(i + 1).map_values(|e: (Seq<char>, SortDirection)| is_desc(e)) =~= es.take(i as int).map_values(
            |e: (Seq<char>, SortDirection)| is_desc(e),
        ).push(d));
        i += 1;
    }
    assert(es.take(entries.len() as int) =~= es);
    if entries.len() == 0 {
        return Ok(None);
    }
    let ghost before = exprs@;
    exprs.push(mk_col("file_path_natkey"));
    exprs.push(mk_col("file_name_natkey"));
    assert(plans_view(exprs@) =~= plans_view(before).push(Plan::Col("file_path_natkey"@)).push(Plan::Col("file_name_natkey"@)));
    desc.push(false);
    desc.push(false);
    Ok(Some((exprs, desc)))
}

fn title_column_exec(ctx: &TranslateCtx) -> (r: Plan<String>)
    ensures
        r@ == title_column(ctx.model()),
{
    let display = if ctx.vault_schema().has_column("title") {
        mk_ter(
            TerOp::When,
            mk_un(UnOp::IsNotNull, mk_col("title")),
            mk_cast(DType::Utf8, mk_col("title")),
            mk_col("file_name"),
        )
    } else {
        mk_col("file_name")
    };
    Plan::ConcatStr(
        Box::new(crate::expr::translate::plist5(mk_str("[["), mk_col("file_path"), mk_str("| "), display, mk_str("]]"))),
    )
}

/// The plan of one output column: the linked title, a file property, a
/// formula (spread over the rows), or a frontmatter property; null when the
/// column names nothing known.
fn column_to_expr(column: &str, ctx: &TranslateCtx) -> (r: Result<Plan<String>, CrabaseError>)
    ensures
        fres(r, column_spec(column@, ctx.model())),
{
    let schema = ctx.vault_schema();
    if str_eq(column, "title") {
        return Ok(title_column_exec(ctx));
    }
    if let Some(rest) = strip_prefix_str(column, "file.") {
        let name = concat_str("file_", rest.as_str());
        return if schema.has_column(name.as_str()) {
            Ok(Plan::Col(name))
        } else {
            Ok(Plan::Null)
        };
    }
    if let Some(rest) = strip_prefix_str(column, "formula.") {
        return match formula_plan_exec(rest.as_str(), ctx) {
            None => Ok(null_column_expr()),
            Some(Err(x)) => Err(x),
            Some(Ok(t)) => Ok(broadcast_to_frame(t.expr)),
        };
    }
    if let Some(rest) = strip_prefix_str(column, "note.") {
        return match schema.resolve_frontmatter(rest.as_str()) {
            Some(name) => Ok(Plan::Col(name.clone())),
            None => Ok(Plan::Null),
        };
    }
    match schema.resolve_frontmatter(column) {
        Some(name) => Ok(Plan::Col(name.clone())),
        None => Ok(Plan::Null),
    }
}

proof fn lemma_columns_prefix(order: Seq<Seq<char>>, c: CtxV, i: int)
    requires
        0 <= i <= order.len(),
        columns_spec(order.take(i), c) is Err,
    ensures
        columns_spec(order, c) == columns_spec(order.take(i), c),
    decreases order.len(),
{
    if i == order.len() {
        assert(order.take(i) =~= order);
    } else {
        assert(order.drop_last().take(i) =~= order.take(i));
        lemma_columns_prefix(order.drop_last(), c, i);
    }
}

/// One plan per `order` entry, named after the entry.
fn column_select_exprs(view: &View, ctx: &TranslateCtx) -> (r: Result<Vec<Plan<String>>, CrabaseError>)
    ensures
        plans_res(r, columns_spec(view_order(view@), ctx.model())),
{
    let ghost c = ctx.model();
    let mut out: Vec<Plan<String>> = Vec::new();
    assert(plans_view(out@) =~= Seq::<PlanV>::empty());
    match &view.order {
        None => Ok(out),
        Some(order) => {
            let ghost ov = strings_view(*order);
            assert(ov.take(0) =~= Seq::<Seq<char>>::empty());
            let mut i: usize = 0;
            while i < order.len()
                invariant
                    0 <= i <= order.len(),
                    ov == strings_view(*order),
                    ov == view_order(view@),
                    c == ctx.model(),
                    columns_spec(ov.take(i as int), c) == Ok::<Seq<PlanV>, TrErr>(plans_view(out@)),
                decreases order.len() - i,
            {
                assert(ov.take(i + 1).drop_last() =~= ov.take(i as int));
                assert(ov[i as int] == order@[i as int]@);
                assert(ov.take(i + 1).last() == ov[i as int]);
                match column_to_expr(order[i].as_str(), ctx) {
                    Err(x) => {
                        proof {
                            let e = column_spec(ov.take(i + 1).last(), c)->Err_0;
                            assert(columns_spec(ov.take(i + 1), c) == Err::<Seq<PlanV>, TrErr>(e));
                            lemma_columns_prefix(ov, c, i + 1);
                        }
                        return Err(x);
                    },
                    Ok(p) => {
                        let ghost before = out@;
                        let named = Plan::Alias(Box::new(p), order[i].clone());
                        out.push(named);
                        assert(plans_view(out@) =~= plans_view(before).push(Plan::Alias(Box::new(p@), order@[i as int]@)));
                    },
                }
                i += 1;
            }
            assert(ov.take(order.len() as int) =~= ov);
            Ok(out)
        },
    }
}

/// What the engine runs for a view: keep the rows the predicate holds of,
/// sort them (stably, nulls last) by the keys, keep the first `limit` rows,
/// and select the columns.
#[derive(Debug)]
pub struct QueryPlan {
    pub filter: Plan<String>,
    pub sort: Option<(Vec<Plan<String>>, Vec<bool>)>,
    pub limit: Option<usize>,
    pub columns: Vec<Plan<String>>,
}

/// The plan of a view of a base file over the vault described by `ctx`.
pub fn build_query_plan(base_file: &BaseFile, view: &View, ctx: &TranslateCtx) -> (r: Result<QueryPlan, CrabaseError>)
    ensures
        ({
            let c = ctx.model();
            let fo = combine_spec(
                match base_file.filters {
                    Some(g) => Some(g@),
                    None => None,
                },
                view@.filters,
                c,
            );
            match fo {
                Err(e) => r is Err && terr(r->Err_0, e),
                Ok(fp) => match sort_spec(view@, c) {
                    Err(e) => r is Err && terr(r->Err_0, e),
                    Ok(so) => match columns_spec(view_order(view@), c) {
                        Err(e) => r is Err && terr(r->Err_0, e),
                        Ok(cols) => r is Ok && r->Ok_0.filter@ == fp && r->Ok_0.limit == view.limit
                            && plans_view(r->Ok_0.columns@) == cols && sort_matches(r->Ok_0.sort, so),
                    },
                },
            }
        }),
{
    let filter = match combine_filters(base_file.filters.as_ref(), view.filters.as_ref(), ctx) {
        Err(x) => return Err(x),
        Ok(p) => p,
    };
    let sort = match sort_exprs(view, ctx) {
        Err(x) => return Err(x),
        Ok(s) => s,
    };
    let columns = match column_select_exprs(view, ctx) {
        Err(x) => return Err(x),
        Ok(c) => c,
    };
    Ok(QueryPlan { filter, sort, limit: view.limit, columns })
}

// ---------- Laws ----------

proof fn lemma_keys_len(ks: Seq<(Seq<char>, SortDirection)>, c: CtxV)
    requires
        keys_spec(ks, c) is Ok,
    ensures
        keys_spec(ks, c)->Ok_0.len() == ks.len(),
    decreases ks.len(),
{
    if ks.len() > 0 {
        lemma_keys_len(ks.drop_last(), c);
    }
}

/// Whenever a view sorts, it sorts by one key per grouping, sort key or
/// (without either) the first `order` column, each in its direction, and
/// then breaks ties by the path and the name ascending.
pub proof fn law_sort_keys_end_with_tie_breakers(v: ViewV, c: CtxV)
    requires
        sort_spec(v, c) matches Ok(Some(_)),
    ensures
        ({
            let (ps, ds) = sort_spec(v, c)->Ok_0->0;
            let n = sort_entries(v).len() as int;
            &&& n > 0
            &&& ps.len() == n + 2 && ds.len() == n + 2
            &&& forall|i: int| 0 <= i < n ==> ds[i] == (#[trigger] sort_entries(v)[i]).1 is Desc
            &&& ps[n] == Plan::<Seq<char>>::Col("file_path_natkey"@) && !ds[n]
            &&& ps[n + 1] == Plan::<Seq<char>>::Col("file_name_natkey"@) && !ds[n + 1]
        }),
{
    let es = sort_entries(v);
    lemma_keys_len(es, c);
}

/// A view with neither grouping nor sort keys sorts by its first `order`
/// column, ascending.
pub proof fn law_implicit_sort_by_first_column(v: ViewV)
    requires
        v.group_by is None,
        v.sort is None || v.sort->0.len() == 0,
        v.order matches Some(o) && o.len() > 0,
    ensures
        sort_entries(v) == seq![(v.order->0[0], SortDirection::Asc)],
{
}

proof fn lemma_keys_at(ks: Seq<(Seq<char>, SortDirection)>, c: CtxV)
    requires
        keys_spec(ks, c) is Ok,
    ensures
        keys_spec(ks, c)->Ok_0.len() == ks.len(),
        forall|k: int| 0 <= k < ks.len() ==> sort_key_spec(#[trigger] ks[k].0, c) == Ok::<PlanV, TrErr>(
            keys_spec(ks, c)->Ok_0[k],
        ),
    decreases ks.len(),
{
    if ks.len() > 0 {
        let init = ks.drop_last();
        lemma_keys_at(init, c);
        assert forall|k: int| 0 <= k < ks.len() implies sort_key_spec(#[trigger] ks[k].0, c) == Ok::<PlanV, TrErr>(
            keys_spec(ks, c)->Ok_0[k],
        ) by {
            if k < ks.len() - 1 {
                assert(ks[k] == init[k]);
            }
        }
    }
}

/// The sort keys a view lists (none when it lists none).
pub open spec fn view_sort_keys(v: ViewV) -> Seq<(Seq<char>, SortDirection)> {
    match v.sort {
        Some(ks) => ks,
        None => Seq::empty(),
    }
}

/// A view that sorts without grouping is ordered by each of its sort keys,
/// in order and in its direction, then by the path and name tie-breakers.
pub proof fn law_sort_keys_in_order(v: ViewV, c: CtxV)
    requires
        v.group_by is None,
        view_sort_keys(v).len() > 0,
        sort_spec(v, c) matches Ok(Some(_)),
    ensures
        ({
            let ks = view_sort_keys(v);
            let (ps, ds) = sort_spec(v, c)->Ok_0->0;
            &&& ps.len() == ks.len() + 2 && ds.len() == ks.len() + 2
            &&& forall|k: int| 0 <= k < ks.len() ==> sort_key_spec(#[trigger] ks[k].0, c) == Ok::<PlanV, TrErr>(ps[k])
                && ds[k] == (ks[k].1 == SortDirection::Desc)
        }),
{
    let es = sort_entries(v);
    let ks = view_sort_keys(v);
    assert(es =~= ks);
    lemma_keys_at(es, c);
}

/// A view that groups and sorts is ordered by its grouping property first,
/// in the grouping's direction, then by each of its sort keys in order and
/// in its direction, then by the path and name tie-breakers.
pub proof fn law_grouping_sorts_first(v: ViewV, c: CtxV)
    requires
        v.group_by is Some,
        sort_spec(v, c) matches Ok(Some(_)),
    ensures
        ({
            let (gp, gd) = v.group_by->0;
            let ks = view_sort_keys(v);
            let (ps, ds) = sort_spec(v, c)->Ok_0->0;
            &&& ps.len() == ks.len() + 3 && ds.len() == ks.len() + 3
            &&& sort_key_spec(gp, c) == Ok::<PlanV, TrErr>(ps[0])
            &&& ds[0] == (gd == SortDirection::Desc)
            &&& forall|k: int| 0 <= k < ks.len() ==> sort_key_spec(#[trigger] ks[k].0, c) == Ok::<PlanV, TrErr>(ps[k + 1])
                && ds[k + 1] == (ks[k].1 == SortDirection::Desc)
        }),
{
    let es = sort_entries(v);
    let ks = view_sort_keys(v);
    assert(es =~= seq![v.group_by->0] + ks);
    lemma_keys_at(es, c);
    assert(es[0] == v.group_by->0);
    let (ps, ds) = sort_spec(v, c)->Ok_0->0;
    assert forall|k: int| 0 <= k < ks.len() implies sort_key_spec(#[trigger] ks[k].0, c) == Ok::<PlanV, TrErr>(
        ps[k + 1],
    ) && ds[k + 1] == (ks[k].1 == SortDirection::Desc) by {
        assert(es[k + 1] == ks[k]);
    }
}

} // verus!
