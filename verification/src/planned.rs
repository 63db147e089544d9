//! Laws of query plans.
use crate::classify::{agg_kind, grouping_view, AggKind};
use crate::grouping::{grouping_is_read, keeps, operator_names_differ};
use crate::plan::{
    grouped_plan, instant_plan, range_plan, OverTimeAgg, Partition, PlanView, Shape, StepView,
    TimeTest,
};
use crate::promql::{Grouping, LabelMatcher, PromExpr, Selector};
use crate::selector::{name_test, tests_of, value_of, TestView, ValueExpr};
use crate::text::ends_with;
use vstd::prelude::*;

verus! {

proof fn function_names_differ()
    ensures
        "rate"@.len() == 4,
        "increase"@.len() == 8,
        "irate"@.len() == 5,
        "max_over_time"@.len() == 13,
        "max_over_time"@[1] == 'a',
        "min_over_time"@.len() == 13,
        "min_over_time"@[1] == 'i',
        "avg_over_time"@.len() == 13,
        "avg_over_time"@[1] == 'v',
        "sum_over_time"@.len() == 13,
        "sum_over_time"@[1] == 'u',
        "count_over_time"@.len() == 15,
{
    reveal_strlit("rate");
    reveal_strlit("increase");
    reveal_strlit("irate");
    reveal_strlit("max_over_time");
    reveal_strlit("min_over_time");
    reveal_strlit("avg_over_time");
    reveal_strlit("sum_over_time");
    reveal_strlit("count_over_time");
}

/// Whether a call over a range vector of a named metric has a plan, whose steps are
/// exactly these.
pub open spec fn has_steps(plan: Result<PlanView, Seq<char>>, steps: Seq<StepView>) -> bool {
    plan is Ok && plan->Ok_0.steps == steps
}

/// The plan of a range function over a named metric is the step of that function: `rate`
/// divides the increase over the window by its seconds, and `increase` does not; `irate`
/// is the slope of the last samples; and `<f>_over_time` is the function `f` of the
/// samples in the window.
pub proof fn range_functions_have_their_steps(
    name: String,
    args: Vec<PromExpr>,
    s: Selector,
    range: u128,
    start: i64,
    end: i64,
)
    requires
        args@.len() > 0,
        args@[0] == PromExpr::Matrix(s, range),
        s.name is Some,
    ensures
        ({
            let plan = range_plan(PromExpr::Call { name, args }, start, end, "metrics"@);
            let range_ns: i64 = if range > i64::MAX {
                i64::MAX
            } else {
                range as i64
            };
            &&& name@ == "rate"@ ==> has_steps(
                plan,
                seq![StepView::Rate { range_ns, per_second: true }],
            )
            &&& name@ == "increase"@ ==> has_steps(
                plan,
                seq![StepView::Rate { range_ns, per_second: false }],
            )
            &&& name@ == "irate"@ ==> has_steps(plan, seq![StepView::Irate])
            &&& name@ == "max_over_time"@ ==> has_steps(
                plan,
                seq![StepView::OverTime { range_ns, agg: OverTimeAgg::Max }],
            )
            &&& name@ == "min_over_time"@ ==> has_steps(
                plan,
                seq![StepView::OverTime { range_ns, agg: OverTimeAgg::Min }],
            )
            &&& name@ == "avg_over_time"@ ==> has_steps(
                plan,
                seq![StepView::OverTime { range_ns, agg: OverTimeAgg::Avg }],
            )
            &&& name@ == "sum_over_time"@ ==> has_steps(
                plan,
                seq![StepView::OverTime { range_ns, agg: OverTimeAgg::Sum }],
            )
            &&& name@ == "count_over_time"@ ==> has_steps(
                plan,
                seq![StepView::OverTime { range_ns, agg: OverTimeAgg::Count }],
            )
        }),
{
    function_names_differ();
}

/// On a rollup table each `*_over_time` function reads the columns of its buckets: the
/// greatest of the maxima, the least of the minima, the sum of the sums, the sum of the
/// counts, and for an average the sums over the counts. Counters read the value.
pub proof fn range_functions_merge_buckets(
    name: String,
    args: Vec<PromExpr>,
    s: Selector,
    range: u128,
    start: i64,
    end: i64,
    table: Seq<char>,
)
    requires
        args@.len() > 0,
        args@[0] == PromExpr::Matrix(s, range),
        s.name is Some,
        table != "metrics"@,
    ensures
        ({
            let plan = range_plan(PromExpr::Call { name, args }, start, end, table);
            let scan = plan->Ok_0.scans[0];
            let range_ns: i64 = if range > i64::MAX {
                i64::MAX
            } else {
                range as i64
            };
            &&& name@ == "rate"@ ==> has_steps(
                plan,
                seq![StepView::Rate { range_ns, per_second: true }],
            ) && scan.count is None
            &&& name@ == "increase"@ ==> has_steps(
                plan,
                seq![StepView::Rate { range_ns, per_second: false }],
            ) && scan.count is None
            &&& name@ == "irate"@ ==> has_steps(plan, seq![StepView::Irate]) && scan.count is None
            &&& name@ == "max_over_time"@ ==> has_steps(
                plan,
                seq![StepView::OverTime { range_ns, agg: OverTimeAgg::Max }],
            ) && scan.value == ValueExpr::BucketMax && scan.count is None
            &&& name@ == "min_over_time"@ ==> has_steps(
                plan,
                seq![StepView::OverTime { range_ns, agg: OverTimeAgg::Min }],
            ) && scan.value == ValueExpr::BucketMin && scan.count is None
            &&& name@ == "sum_over_time"@ ==> has_steps(
                plan,
                seq![StepView::OverTime { range_ns, agg: OverTimeAgg::Sum }],
            ) && scan.value == ValueExpr::BucketSum && scan.count is None
            &&& name@ == "count_over_time"@ ==> has_steps(
                plan,
                seq![StepView::OverTime { range_ns, agg: OverTimeAgg::Sum }],
            ) && scan.value == ValueExpr::BucketCount && scan.count is None
            &&& name@ == "avg_over_time"@ ==> has_steps(
                plan,
                seq![StepView::OverTimeRatio { range_ns }],
            ) && scan.value == ValueExpr::BucketSum && scan.count == Some(ValueExpr::BucketCount)
        }),
{
    function_names_differ();
}

/// `rate` and `increase` of the same range vector have the same plan, but for the division
/// by the seconds of the window, which only `rate` has.
pub proof fn rate_is_the_increase_per_second(
    rate: String,
    increase: String,
    args: Vec<PromExpr>,
    start: i64,
    end: i64,
    table: Seq<char>,
)
    requires
        rate@ == "rate"@,
        increase@ == "increase"@,
        range_plan(PromExpr::Call { name: rate, args }, start, end, table) is Ok,
    ensures
        ({
            let r = range_plan(PromExpr::Call { name: rate, args }, start, end, table);
            let i = range_plan(PromExpr::Call { name: increase, args }, start, end, table);
            &&& i is Ok
            &&& r->Ok_0.scans == i->Ok_0.scans
            &&& r->Ok_0.shape == i->Ok_0.shape
            &&& exists|range_ns: i64|
                r->Ok_0.steps == seq![#[trigger] rate_step(range_ns, true)] && i->Ok_0.steps == seq![
                    rate_step(range_ns, false),
                ]
        }),
{
    function_names_differ();
    let r = range_plan(PromExpr::Call { name: rate, args }, start, end, table);
    let i = range_plan(PromExpr::Call { name: increase, args }, start, end, table);
    let range_ns = r->Ok_0.steps[0]->Rate_range_ns;
    assert(r->Ok_0.steps =~= seq![rate_step(range_ns, true)]);
    assert(i->Ok_0.steps =~= seq![rate_step(range_ns, false)]);
}

/// The increase over a window, divided by its seconds where asked for.
pub open spec fn rate_step(range_ns: i64, per_second: bool) -> StepView {
    StepView::Rate { range_ns, per_second }
}

/// At an instant, the plan of a range function over a named metric is the step of that
/// function over all of its windows, and then the latest value of each series. A raw
/// sample counts as one among the counts of rollup buckets.
pub proof fn instant_functions_have_their_steps(
    tables: Seq<String>,
    name: String,
    args: Vec<PromExpr>,
    s: Selector,
    range: u128,
    time: i64,
    now: i64,
)
    requires
        args@.len() > 0,
        args@[0] == PromExpr::Matrix(s, range),
        s.name is Some,
    ensures
        ({
            let plan = instant_plan(tables, PromExpr::Call { name, args }, time, now);
            let latest = StepView::Latest(Partition::ServiceSeries);
            let range_ns: i64 = if range > i64::MAX {
                i64::MAX
            } else {
                range as i64
            };
            &&& name@ == "rate"@ ==> has_steps(
                plan,
                seq![StepView::Rate { range_ns, per_second: true }, latest],
            )
            &&& name@ == "increase"@ ==> has_steps(
                plan,
                seq![StepView::Rate { range_ns, per_second: false }, latest],
            )
            &&& name@ == "irate"@ ==> has_steps(plan, seq![StepView::Irate, latest])
            &&& name@ == "max_over_time"@ ==> has_steps(
                plan,
                seq![StepView::OverTime { range_ns, agg: OverTimeAgg::Max }, latest],
            ) && bucket_values(plan, ValueExpr::BucketMax, None)
            &&& name@ == "min_over_time"@ ==> has_steps(
                plan,
                seq![StepView::OverTime { range_ns, agg: OverTimeAgg::Min }, latest],
            ) && bucket_values(plan, ValueExpr::BucketMin, None)
            &&& name@ == "sum_over_time"@ ==> has_steps(
                plan,
                seq![StepView::OverTime { range_ns, agg: OverTimeAgg::Sum }, latest],
            ) && bucket_values(plan, ValueExpr::BucketSum, None)
            &&& name@ == "count_over_time"@ ==> has_steps(
                plan,
                seq![StepView::OverTime { range_ns, agg: OverTimeAgg::Sum }, latest],
            ) && bucket_values(plan, ValueExpr::BucketCount, None) && raw_ones(plan, false)
            &&& name@ == "avg_over_time"@ ==> has_steps(
                plan,
                seq![StepView::OverTimeRatio { range_ns }, latest],
            ) && bucket_values(plan, ValueExpr::BucketSum, Some(ValueExpr::BucketCount))
                && raw_ones(plan, true)
        }),
{
    function_names_differ();
    let plan = instant_plan(tables, PromExpr::Call { name, args }, time, now);
    if plan is Ok {
        let steps = plan->Ok_0.steps;
        assert(steps =~= seq![steps[0], steps[1]]);
    }
}

/// Whether the scans of rollup tables in a plan read these values.
pub open spec fn bucket_values(
    plan: Result<PlanView, Seq<char>>,
    value: ValueExpr,
    count: Option<ValueExpr>,
) -> bool {
    forall|i: int|
        0 <= i < plan->Ok_0.scans.len() && (#[trigger] plan->Ok_0.scans[i]).table != "metrics"@
            ==> plan->Ok_0.scans[i].value == value && plan->Ok_0.scans[i].count == count
}

/// Whether each raw sample counts as one in a plan: as the count beside its value, or as
/// the value.
pub open spec fn raw_ones(plan: Result<PlanView, Seq<char>>, beside: bool) -> bool {
    forall|i: int|
        0 <= i < plan->Ok_0.scans.len() && (#[trigger] plan->Ok_0.scans[i]).table == "metrics"@
            ==> if beside {
            plan->Ok_0.scans[i].count == Some(ValueExpr::One)
        } else {
            plan->Ok_0.scans[i].value == ValueExpr::One
        }
}

/// Whether a plan is another one with a last step that groups its rows with an operator,
/// by exactly the labels that the aggregation keeps.
pub open spec fn groups_rows(
    plan: Result<PlanView, Seq<char>>,
    inner: PlanView,
    op: AggKind,
    grouping: Option<Grouping>,
    per_time: bool,
) -> bool {
    &&& plan is Ok
    &&& plan->Ok_0.scans == inner.scans
    &&& plan->Ok_0.shape == Shape::Groups
    &&& plan->Ok_0.steps.len() == inner.steps.len() + 1
    &&& plan->Ok_0.steps.take(inner.steps.len() as int) == inner.steps
    &&& plan->Ok_0.steps[inner.steps.len() as int] matches StepView::Group {
        op: o,
        by,
        nested,
        per_time: p,
    } && o == op && nested == (inner.shape == Shape::Groups) && p == per_time && forall|k: Seq<char>|
        #[trigger] by.takes(k) == keeps(grouping, k)
}

/// Whether a plan groups its rows with the operator of a keyword.
pub open spec fn groups_by_keyword(
    plan: Result<PlanView, Seq<char>>,
    inner: PlanView,
    op: Seq<char>,
    grouping: Option<Grouping>,
    per_time: bool,
) -> bool {
    &&& op == "sum"@ ==> groups_rows(plan, inner, AggKind::Sum, grouping, per_time)
    &&& op == "max"@ ==> groups_rows(plan, inner, AggKind::Max, grouping, per_time)
    &&& op == "min"@ ==> groups_rows(plan, inner, AggKind::Min, grouping, per_time)
    &&& op == "avg"@ ==> groups_rows(plan, inner, AggKind::Avg, grouping, per_time)
    &&& op == "count"@ ==> groups_rows(plan, inner, AggKind::Count, grouping, per_time)
    &&& op != "sum"@ && op != "max"@ && op != "min"@ && op != "avg"@ && op != "count"@ ==> plan
        == Err::<PlanView, Seq<char>>(
        "unsupported aggregation operator (instant: sum/max/min/avg/count)"@,
    )
}

proof fn grouped_plans_group(
    inner: PlanView,
    op: Seq<char>,
    grouping: Option<Grouping>,
    per_time: bool,
)
    requires
        agg_kind(op) is Some,
    ensures
        groups_by_keyword(
            Ok(grouped_plan(inner, agg_kind(op)->0, grouping_view(grouping), per_time)),
            inner,
            op,
            grouping,
            per_time,
        ),
{
    operator_names_differ();
    let p = grouped_plan(inner, agg_kind(op)->0, grouping_view(grouping), per_time);
    assert(p.steps.take(inner.steps.len() as int) =~= inner.steps);
    assert forall|k: Seq<char>| #[trigger] grouping_view(grouping).takes(k) == keeps(grouping, k) by {
        grouping_is_read(grouping, k);
    }
}

/// The plan of an aggregation over a range groups the rows of its inner expression at each
/// time: `sum`, `max`, `min`, `avg` and `count` with the operator of that name, without `by`
/// and `without` into one group, with `by` by the labels that are listed, and with `without`
/// by all others but the metric name. Other keywords are refused.
pub proof fn range_aggregations_group_their_rows(
    op: String,
    expr: Box<PromExpr>,
    param: Option<Box<PromExpr>>,
    grouping: Option<Grouping>,
    start: i64,
    end: i64,
    table: Seq<char>,
)
    requires
        range_plan(*expr, start, end, table) is Ok,
    ensures
        groups_by_keyword(
            range_plan(PromExpr::Aggregate { op, expr, param, grouping }, start, end, table),
            range_plan(*expr, start, end, table)->Ok_0,
            op@,
            grouping,
            true,
        ),
{
    let inner = range_plan(*expr, start, end, table)->Ok_0;
    operator_names_differ();
    if agg_kind(op@) is Some {
        grouped_plans_group(inner, op@, grouping, true);
    }
}

/// At an instant the plan of an aggregation groups the rows of its inner expression in the
/// same way: those of another aggregation, the latest samples of a selector, or the latest
/// values of a function over a range vector.
pub proof fn instant_aggregations_group_their_rows(
    tables: Seq<String>,
    op: String,
    expr: Box<PromExpr>,
    param: Option<Box<PromExpr>>,
    grouping: Option<Grouping>,
    time: i64,
    now: i64,
)
    requires
        *expr is Aggregate || *expr is Vector || *expr is Call,
        instant_plan(tables, *expr, time, now) is Ok,
    ensures
        groups_by_keyword(
            instant_plan(tables, PromExpr::Aggregate { op, expr, param, grouping }, time, now),
            instant_plan(tables, *expr, time, now)->Ok_0,
            op@,
            grouping,
            false,
        ),
{
    let inner = instant_plan(tables, *expr, time, now)->Ok_0;
    operator_names_differ();
    if agg_kind(op@) is Some {
        grouped_plans_group(inner, op@, grouping, false);
    }
}

/// The samples of a selector over a range are read from the table and the span that were
/// asked for, by the name of the metric, in ascending order of time; at an instant they are
/// the latest of each series up to it. They are those that pass every matcher but one on
/// the name. Without a name the query is refused.
pub proof fn selectors_read_their_samples(
    tables: Seq<String>,
    s: Selector,
    start: i64,
    end: i64,
    table: Seq<char>,
    now: i64,
)
    ensures
        ({
            let range = range_plan(PromExpr::Vector(s), start, end, table);
            let instant = instant_plan(tables, PromExpr::Vector(s), end, now);
            let tests = s.matchers@.filter(|m: LabelMatcher| m.name@ != "__name__"@).map_values(
                |m: LabelMatcher| TestView { label: m.name@, op: m.op, value: m.value@ },
            );
            &&& s.name is None ==> range == Err::<PlanView, Seq<char>>(
                "metric selector requires a name"@,
            ) && instant == Err::<PlanView, Seq<char>>("metric selector requires a name"@)
            &&& s.name is Some ==> {
                &&& has_steps(range, seq![StepView::SortByTime])
                &&& range->Ok_0.shape == Shape::Samples
                &&& range->Ok_0.scans.len() == 1
                &&& range->Ok_0.scans[0].table == table
                &&& range->Ok_0.scans[0].name.exact == s.name->0@
                &&& range->Ok_0.scans[0].tests == tests
                &&& range->Ok_0.scans[0].time == TimeTest::Between(start, end)
                &&& range->Ok_0.scans[0].count is None
                &&& has_steps(instant, seq![StepView::Latest(Partition::NameSeries)])
                &&& instant->Ok_0.shape == Shape::Samples
                &&& instant->Ok_0.scans.len() == 1
                &&& instant->Ok_0.scans[0].table == "metrics"@
                &&& instant->Ok_0.scans[0].name.exact == s.name->0@
                &&& instant->Ok_0.scans[0].tests == tests
                &&& instant->Ok_0.scans[0].time == TimeTest::AtMost(end)
                &&& instant->Ok_0.scans[0].count is None
            }
        }),
{
    matchers_are_tests(s.matchers@);
}

/// The tests of matchers are those on all labels but the metric name, in their order.
pub proof fn matchers_are_tests(matchers: Seq<LabelMatcher>)
    ensures
        tests_of(matchers) == matchers.filter(
            |m: LabelMatcher| m.name@ != "__name__"@,
        ).map_values(|m: LabelMatcher| TestView { label: m.name@, op: m.op, value: m.value@ }),
    decreases matchers.len(),
{
    reveal(Seq::filter);
    let pred = |m: LabelMatcher| m.name@ != "__name__"@;
    let f = |m: LabelMatcher| TestView { label: m.name@, op: m.op, value: m.value@ };
    if matchers.len() == 0 {
        assert(matchers.filter(pred).map_values(f) =~= Seq::empty());
    } else {
        let rest = matchers.drop_last();
        matchers_are_tests(rest);
        if pred(matchers.last()) {
            assert(rest.filter(pred).push(matchers.last()).map_values(f) =~= rest.filter(
                pred,
            ).map_values(f).push(f(matchers.last())));
        }
    }
}

/// A name with `_count` at its end reads the count of the histogram with the name before
/// it, and one with `_sum` the sum; every other name reads the plain value, and no
/// histogram.
pub proof fn suffixes_read_histograms(base: Seq<char>)
    ensures
        value_of(base + "_count"@) == ValueExpr::Count,
        name_test(base + "_count"@).histogram == Some(base),
        value_of(base + "_sum"@) == ValueExpr::Sum,
        name_test(base + "_sum"@).histogram == Some(base),
        !ends_with(base, "_count"@) && !ends_with(base, "_sum"@) ==> value_of(base)
            == ValueExpr::Plain && name_test(base).histogram is None,
        name_test(base).exact == base,
        ValueExpr::Plain.columns() == seq![("double_value"@, false), ("int_value"@, true)],
        ValueExpr::Count.columns() == seq![
            ("double_value"@, false),
            ("int_value"@, true),
            ("count"@, true),
        ],
        ValueExpr::Sum.columns() == seq![("double_value"@, false), ("sum"@, false)],
        ValueExpr::BucketMax.columns() == seq![("value_max"@, false)],
        ValueExpr::BucketMin.columns() == seq![("value_min"@, false)],
        ValueExpr::BucketSum.columns() == seq![("value_sum"@, false)],
        ValueExpr::BucketCount.columns() == seq![("value_count"@, false)],
{
    reveal_strlit("_count");
    reveal_strlit("_sum");
    let (c, m) = (base + "_count"@, base + "_sum"@);
    let n = base.len() as int;
    assert(c.subrange(n, c.len() as int) =~= "_count"@);
    assert(c.take(n) =~= base);
    assert(m.subrange(n, m.len() as int) =~= "_sum"@);
    assert(m.take(n) =~= base);
    assert(!ends_with(m, "_count"@)) by {
        if ends_with(m, "_count"@) {
            let tail = m.subrange(m.len() - 6, m.len() as int);
            assert(tail[5] == m[m.len() - 1]);
            assert(m[m.len() - 1] == "_sum"@[3]);
            assert("_count"@[5] == 't');
        }
    }
}

} // verus!
