//! Laws of the data that expressions need.
use crate::classify::hist_quantile;
use crate::eval::{instant_needs, range_needs, LeafView, RangeWindow};
use crate::number::whole_count;
use crate::plan::{instant_plan, range_plan, Partition, Shape, StepView};
use crate::promql::{BinaryModifier, Grouping, PromExpr, Selector};
use vstd::prelude::*;

verus! {

proof fn function_names_differ()
    ensures
        "scalar"@.len() == 6,
        "clamp_min"@.len() == 9,
        "clamp_min"@[7] == 'i',
        "clamp_max"@.len() == 9,
        "clamp_max"@[7] == 'a',
        "histogram_quantile"@.len() == 18,
        "topk"@.len() == 4,
        "topk"@[0] == 't',
        "bottomk"@.len() == 7,
        "sum"@.len() == 3,
        "max"@.len() == 3,
        "min"@.len() == 3,
        "avg"@.len() == 3,
        "count"@.len() == 5,
{
    reveal_strlit("scalar");
    reveal_strlit("clamp_min");
    reveal_strlit("clamp_max");
    reveal_strlit("histogram_quantile");
    reveal_strlit("topk");
    reveal_strlit("bottomk");
    reveal_strlit("sum");
    reveal_strlit("max");
    reveal_strlit("min");
    reveal_strlit("avg");
    reveal_strlit("count");
}

/// Whether a modifier belongs to a set operator.
pub open spec fn is_many_to_many(modifier: Option<BinaryModifier>) -> bool {
    modifier is Some && modifier->0.card is ManyToMany
}

/// A binary operator needs the data of its left operand, and then that of its right one,
/// and no more. It cannot be planned where one of them cannot, the left one first.
pub proof fn operands_need_their_data_in_order(
    tables: Seq<String>,
    op: String,
    lhs: Box<PromExpr>,
    rhs: Box<PromExpr>,
    modifier: Option<BinaryModifier>,
    time: i64,
    now: i64,
    win: RangeWindow,
    table: Seq<char>,
)
    requires
        !is_many_to_many(modifier),
    ensures
        ({
            let e = PromExpr::Binary { op, lhs, rhs, modifier };
            let both = instant_needs(tables, e, time, now);
            let l = instant_needs(tables, *lhs, time, now);
            let r = instant_needs(tables, *rhs, time, now);
            &&& l.error is None ==> both.leaves == l.leaves + r.leaves && both.error == r.error
            &&& l.error is Some ==> both == l
        }),
        ({
            let e = PromExpr::Binary { op, lhs, rhs, modifier };
            let both = range_needs(tables, e, win, table);
            let l = range_needs(tables, *lhs, win, table);
            let r = range_needs(tables, *rhs, win, table);
            &&& l.error is None ==> both.leaves == l.leaves + r.leaves && both.error == r.error
            &&& l.error is Some ==> both == l
        }),
{
    let e = PromExpr::Binary { op, lhs, rhs, modifier };
    let l = instant_needs(tables, *lhs, time, now);
    let r = instant_needs(tables, *rhs, time, now);
    assert(l.leaves + r.leaves + Seq::<LeafView>::empty() =~= l.leaves + r.leaves);
    let l = range_needs(tables, *lhs, win, table);
    let r = range_needs(tables, *rhs, win, table);
    assert(l.leaves + r.leaves + Seq::<LeafView>::empty() =~= l.leaves + r.leaves);
}

/// Over a range the argument of `scalar` and the bound of a clamp are evaluated at the end of
/// the window, and the clamped expression over the window.
pub proof fn scalars_are_taken_at_the_end(
    tables: Seq<String>,
    name: String,
    args: Vec<PromExpr>,
    win: RangeWindow,
    table: Seq<char>,
)
    requires
        args@.len() >= 2,
    ensures
        ({
            let needs = range_needs(tables, PromExpr::Call { name, args }, win, table);
            let v = range_needs(tables, args@[0], win, table);
            let bound = instant_needs(tables, args@[1], win.end, win.end);
            &&& name@ == "scalar"@ ==> needs == instant_needs(tables, args@[0], win.end, win.end)
            &&& (name@ == "clamp_min"@ || name@ == "clamp_max"@) && v.error is None ==> needs.leaves
                == v.leaves + bound.leaves && needs.error == bound.error
        }),
{
    function_names_differ();
}

/// A range function or a selector needs one leaf: its plan over the scanned window of the
/// table. What cannot be planned is refused with the reason.
pub proof fn leaves_are_planned_over_the_scanned_window(
    tables: Seq<String>,
    name: String,
    args: Vec<PromExpr>,
    s: Selector,
    win: RangeWindow,
    table: Seq<char>,
)
    requires
        name@ != "scalar"@,
        name@ != "clamp_min"@,
        name@ != "clamp_max"@,
        name@ != "histogram_quantile"@,
    ensures
        ({
            let call = PromExpr::Call { name, args };
            let needs = range_needs(tables, call, win, table);
            let plan = range_plan(call, win.scan_start, win.end, table);
            &&& plan is Ok ==> needs.leaves == seq![LeafView::Range(plan->Ok_0)] && needs.error is None
            &&& plan is Err ==> needs.leaves.len() == 0 && needs.error == Some(plan->Err_0)
        }),
        ({
            let e = PromExpr::Vector(s);
            let needs = range_needs(tables, e, win, table);
            let plan = range_plan(e, win.scan_start, win.end, table);
            &&& plan is Ok ==> needs.leaves == seq![LeafView::Range(plan->Ok_0)] && needs.error is None
            &&& plan is Err ==> needs.leaves.len() == 0 && needs.error == Some(plan->Err_0)
        }),
{
}

/// An instant function or selector needs one leaf: its plan at the time of the query.
pub proof fn leaves_are_planned_at_the_instant(
    tables: Seq<String>,
    name: String,
    args: Vec<PromExpr>,
    s: Selector,
    time: i64,
    now: i64,
)
    requires
        name@ != "scalar"@,
        name@ != "clamp_min"@,
        name@ != "clamp_max"@,
        name@ != "histogram_quantile"@,
    ensures
        ({
            let call = PromExpr::Call { name, args };
            let needs = instant_needs(tables, call, time, now);
            let plan = instant_plan(tables, call, time, now);
            &&& plan is Ok ==> needs.leaves == seq![LeafView::Instant(plan->Ok_0)] && needs.error is None
            &&& plan is Err ==> needs.leaves.len() == 0 && needs.error == Some(plan->Err_0)
        }),
        ({
            let e = PromExpr::Vector(s);
            let needs = instant_needs(tables, e, time, now);
            let plan = instant_plan(tables, e, time, now);
            &&& plan is Ok ==> needs.leaves == seq![LeafView::Instant(plan->Ok_0)] && needs.error is None
            &&& plan is Err ==> needs.leaves.len() == 0 && needs.error == Some(plan->Err_0)
        }),
{
}

/// `topk(n, e)` and `bottomk(n, e)` inside an expression need the plan of `e` with one more
/// step, which keeps the `n` highest or lowest of its series.
pub proof fn inner_ranks_are_steps(
    tables: Seq<String>,
    op: String,
    expr: Box<PromExpr>,
    bits: u64,
    win: RangeWindow,
    table: Seq<char>,
)
    requires
        op@ == "topk"@ || op@ == "bottomk"@,
        whole_count(bits) is Some,
        hist_quantile(*expr) is None,
        range_plan(*expr, win.scan_start, win.end, table) is Ok,
    ensures
        ({
            let e = PromExpr::Aggregate {
                op,
                expr,
                param: Some(Box::new(PromExpr::Number(bits))),
                grouping: None,
            };
            let inner = range_plan(*expr, win.scan_start, win.end, table)->Ok_0;
            let needs = range_needs(tables, e, win, table);
            &&& needs.error is None
            &&& needs.leaves.len() == 1
            &&& needs.leaves[0] is Range
            &&& needs.leaves[0]->Range_0.scans == inner.scans
            &&& needs.leaves[0]->Range_0.steps == inner.steps.push(
                StepView::TopK {
                    k: whole_count(bits)->0 as i64,
                    top: op@ == "topk"@,
                    part: match inner.shape {
                        Shape::Samples => Partition::NameServiceSeries,
                        Shape::Series => Partition::ServiceSeries,
                        Shape::Groups => Partition::GroupKey,
                    },
                },
            )
        }),
{
    function_names_differ();
}

/// An aggregation over a range needs the data of its inner expression, since it is computed
/// from its value.
pub proof fn aggregations_need_what_they_reduce(
    tables: Seq<String>,
    op: String,
    expr: Box<PromExpr>,
    param: Option<Box<PromExpr>>,
    l: Vec<String>,
    win: RangeWindow,
    table: Seq<char>,
)
    requires
        op@ == "sum"@ || op@ == "max"@ || op@ == "min"@ || op@ == "avg"@ || op@ == "count"@,
    ensures
        range_needs(
            tables,
            PromExpr::Aggregate { op, expr, param, grouping: None },
            win,
            table,
        ) == range_needs(tables, *expr, win, table),
        range_needs(
            tables,
            PromExpr::Aggregate { op, expr, param, grouping: Some(Grouping::Exclude(l)) },
            win,
            table,
        ) == range_needs(tables, *expr, win, table),
{
    function_names_differ();
}

} // verus!
