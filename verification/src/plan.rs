//! Query plans: the scans of a query, and the steps from their rows to its result.
use crate::classify::{
    agg_grouping, agg_kind, agg_name, aggregate_inner, aggregate_inner_selector, anchored_windows,
    capped_ns, grouping_view, inner_aggregate, inner_selector, instant_range_windows,
    matrix_range, matrix_range_ns, no_instant_range, range_to_ns, unsupported_aggregation, AggKind,
};
use crate::labels::{KindView, MatchKind};
use crate::promql::{PromExpr, Selector};
use crate::selector::{
    matcher_tests, metric_value_expr, name_pred_expr, name_test, tests_of, tests_view, value_of,
    LabelTest, NameTest, NameView, TestView, ValueExpr,
};
use crate::text::{joined, owned, str_eq};
use crate::windows::{
    raw_table, resolve_metric_windows, window_view, windows_view, Capability,
    MetricWindow, QueryScope,
};
use vstd::prelude::*;

verus! {

/// A test on the time of a row, with inclusive bounds.
#[derive(Debug, Clone, Copy, PartialEq, Eq, Structural)]
pub enum TimeTest {
    Between(i64, i64),
    AtMost(i64),
}

/// The samples of a selector in one table: the rows that pass the tests, with their
/// identity (`prom_name`, `name`, `service_name`, `attributes`), their time, and a
/// value `v`, or two values `v` and `c`.
#[derive(Debug)]
pub struct Scan {
    pub table: String,
    pub scope: QueryScope,
    pub name: NameTest,
    pub tests: Vec<LabelTest>,
    pub time: TimeTest,
    pub value: ValueExpr,
    pub count: Option<ValueExpr>,
}

/// A scan, as a value.
pub struct ScanView {
    pub table: Seq<char>,
    pub scope: QueryScope,
    pub name: NameView,
    pub tests: Seq<TestView>,
    pub time: TimeTest,
    pub value: ValueExpr,
    pub count: Option<ValueExpr>,
}

impl View for Scan {
    type V = ScanView;

    open spec fn view(&self) -> ScanView {
        ScanView {
            table: self.table@,
            scope: self.scope,
            name: self.name@,
            tests: tests_view(self.tests@),
            time: self.time,
            value: self.value,
            count: self.count,
        }
    }
}

/// Scans, as values.
pub open spec fn scans_view(s: Seq<Scan>) -> Seq<ScanView> {
    Seq::new(s.len(), |i: int| s[i]@)
}

/// A function over a window of samples.
#[derive(Debug, Clone, Copy, PartialEq, Eq, Structural)]
pub enum OverTimeAgg {
    Max,
    Min,
    Avg,
    Sum,
    Count,
}

/// What identifies a series in a frame.
#[derive(Debug, Clone, Copy, PartialEq, Eq, Structural)]
pub enum Partition {
    /// `name`, `service_name` and the series key of the attributes.
    NameServiceSeries,
    /// `name` and the series key of the attributes.
    NameSeries,
    /// `service_name` and the series key of the attributes.
    ServiceSeries,
    /// The group key.
    GroupKey,
}

/// A step from one frame of rows to the next.
#[derive(Debug)]
pub enum Step {
    /// The reset-adjusted increase over a window, by series; divided by the window's
    /// seconds where `per_second` holds.
    Rate { range_ns: i64, per_second: bool },
    /// The slope between the last two samples, by series.
    Irate,
    /// A function of the values `v` over a window, by series.
    OverTime { range_ns: i64, agg: OverTimeAgg },
    /// The sum of the values `v` over the sum of the values `c` over a window.
    OverTimeRatio { range_ns: i64 },
    /// Ascending order of time.
    SortByTime,
    /// The latest row of each series.
    Latest(Partition),
    /// The aggregation of the values `v` of each group, by the labels that are kept:
    /// of the rows' labels, or, where `nested`, of the labels of their group key; at
    /// each time, where `per_time` holds.
    Group { op: AggKind, by: MatchKind, nested: bool, per_time: bool },
    /// The `k` series with the highest (or, where `top` is false, lowest) peak.
    TopK { k: i64, top: bool, part: Partition },
}

/// What identifies a series for a step that goes by series.
pub open spec fn partition_of(step: Step) -> Option<Partition> {
    match step {
        Step::Rate { .. } | Step::Irate | Step::OverTime { .. } | Step::OverTimeRatio { .. } => Some(
            Partition::NameServiceSeries,
        ),
        Step::Latest(p) => Some(p),
        Step::TopK { k, top, part } => Some(part),
        Step::SortByTime | Step::Group { .. } => None,
    }
}

/// What identifies a series for a step: windows run over the samples of one name, one
/// service and one series key.
pub fn step_partition(step: &Step) -> (r: Option<Partition>)
    ensures
        r == partition_of(*step),
{
    match step {
        Step::Rate { .. } | Step::Irate | Step::OverTime { .. } | Step::OverTimeRatio { .. } => Some(
            Partition::NameServiceSeries,
        ),
        Step::Latest(p) => Some(*p),
        Step::TopK { k: _, top: _, part } => Some(*part),
        Step::SortByTime | Step::Group { .. } => None,
    }
}

/// A step, as a value.
pub enum StepView {
    Rate { range_ns: i64, per_second: bool },
    Irate,
    OverTime { range_ns: i64, agg: OverTimeAgg },
    OverTimeRatio { range_ns: i64 },
    SortByTime,
    Latest(Partition),
    Group { op: AggKind, by: KindView, nested: bool, per_time: bool },
    TopK { k: i64, top: bool, part: Partition },
}

impl View for Step {
    type V = StepView;

    open spec fn view(&self) -> StepView {
        match *self {
            Step::Rate { range_ns, per_second } => StepView::Rate { range_ns, per_second },
            Step::Irate => StepView::Irate,
            Step::OverTime { range_ns, agg } => StepView::OverTime { range_ns, agg },
            Step::OverTimeRatio { range_ns } => StepView::OverTimeRatio { range_ns },
            Step::SortByTime => StepView::SortByTime,
            Step::Latest(p) => StepView::Latest(p),
            Step::Group { op, by, nested, per_time } => StepView::Group {
                op,
                by: by@,
                nested,
                per_time,
            },
            Step::TopK { k, top, part } => StepView::TopK { k, top, part },
        }
    }
}

/// Steps, as values.
pub open spec fn steps_view(s: Seq<Step>) -> Seq<StepView> {
    Seq::new(s.len(), |i: int| s[i]@)
}

/// What the rows of a frame are.
#[derive(Debug, Clone, Copy, PartialEq, Eq, Structural)]
pub enum Shape {
    /// Samples with all their identity columns.
    Samples,
    /// Values of series: `service_name`, `attributes`, time and value.
    Series,
    /// Values of groups: a group key, possibly a time, and a value.
    Groups,
}

/// A query plan: the union of the scans, and the steps over it.
#[derive(Debug)]
pub struct Plan {
    pub scans: Vec<Scan>,
    pub steps: Vec<Step>,
    pub shape: Shape,
}

/// A query plan, as a value.
pub struct PlanView {
    pub scans: Seq<ScanView>,
    pub steps: Seq<StepView>,
    pub shape: Shape,
}

impl View for Plan {
    type V = PlanView;

    open spec fn view(&self) -> PlanView {
        PlanView {
            scans: scans_view(self.scans@),
            steps: steps_view(self.steps@),
            shape: self.shape,
        }
    }
}

impl PlanView {
    /// The plan with one more step, after which the rows have the given shape.
    pub open spec fn plus(self, step: StepView, shape: Shape) -> PlanView {
        PlanView { scans: self.scans, steps: self.steps.push(step), shape }
    }
}

/// A planned query, or what is said of one that cannot be planned, as a value.
pub open spec fn planned(r: Result<Plan, String>) -> Result<PlanView, Seq<char>> {
    match r {
        Ok(p) => Ok(p@),
        Err(m) => Err(m@),
    }
}

impl Plan {
    /// The plan with one more step.
    fn plus(self, step: Step, shape: Shape) -> (r: Plan)
        ensures
            r@ == self@.plus(step@, shape),
    {
        let mut steps = self.steps;
        let ghost before = steps@;
        let ghost s = step@;
        steps.push(step);
        let r = Plan { scans: self.scans, steps, shape };
        assert(steps_view(r.steps@) =~= steps_view(before).push(s));
        r
    }

    /// The plan of one scan.
    fn of_scan(scan: Scan) -> (r: Plan)
        ensures
            r@ == scan_plan(scan@),
    {
        let mut scans: Vec<Scan> = Vec::new();
        let ghost s = scan@;
        scans.push(scan);
        let r = Plan { scans, steps: Vec::new(), shape: Shape::Samples };
        assert(scans_view(r.scans@) =~= seq![s]);
        assert(steps_view(r.steps@) =~= Seq::empty());
        r
    }
}

/// The plan of one scan.
pub open spec fn scan_plan(scan: ScanView) -> PlanView {
    PlanView { scans: seq![scan], steps: Seq::empty(), shape: Shape::Samples }
}

/// What is said of a selector without a name.
pub open spec fn nameless() -> Seq<char> {
    "metric selector requires a name"@
}

/// What is said of a histogram selector without a name.
pub open spec fn nameless_histogram() -> Seq<char> {
    "histogram selector requires a name"@
}

/// The scan of a selector over `[start, end]` of a table: its scope is exactly the
/// span, its tests are those of the selector, and it gives the chosen values.
pub open spec fn base_scan(
    s: Selector,
    start: i64,
    end: i64,
    table: Seq<char>,
    value: ValueExpr,
    count: Option<ValueExpr>,
) -> Result<ScanView, Seq<char>> {
    match s.name {
        None => Err(nameless()),
        Some(name) => Ok(
            ScanView {
                table,
                scope: (QueryScope { lo_ns: start, hi_ns: end }),
                name: name_test(name@),
                tests: tests_of(s.matchers@),
                time: TimeTest::Between(start, end),
                value,
                count,
            },
        ),
    }
}

/// The scan of a selector over `[start_ns, end_ns]` of `table`.
pub fn metric_base_df(
    vs: &Selector,
    start_ns: i64,
    end_ns: i64,
    table: &str,
    value: ValueExpr,
    count: Option<ValueExpr>,
) -> (r: Result<Scan, String>)
    ensures
        match r {
            Ok(scan) => base_scan(*vs, start_ns, end_ns, table@, value, count) == Ok::<
                ScanView,
                Seq<char>,
            >(scan@),
            Err(m) => base_scan(*vs, start_ns, end_ns, table@, value, count) == Err::<
                ScanView,
                Seq<char>,
            >(m@),
        },
{
    match &vs.name {
        None => Err(owned("metric selector requires a name")),
        Some(name) => Ok(
            Scan {
                table: owned(table),
                scope: QueryScope { lo_ns: start_ns, hi_ns: end_ns },
                name: name_pred_expr(name.as_str()),
                tests: matcher_tests(&vs.matchers),
                time: TimeTest::Between(start_ns, end_ns),
                value,
                count,
            },
        ),
    }
}

/// A function over a range vector.
#[derive(Debug, Clone, Copy, PartialEq, Eq, Structural)]
pub enum RangeFn {
    Rate,
    Increase,
    Irate,
    MaxOverTime,
    MinOverTime,
    AvgOverTime,
    SumOverTime,
    CountOverTime,
}

/// The function over a range vector with the given name.
pub open spec fn range_fn(name: Seq<char>) -> Option<RangeFn> {
    if name == "rate"@ {
        Some(RangeFn::Rate)
    } else if name == "increase"@ {
        Some(RangeFn::Increase)
    } else if name == "irate"@ {
        Some(RangeFn::Irate)
    } else if name == "max_over_time"@ {
        Some(RangeFn::MaxOverTime)
    } else if name == "min_over_time"@ {
        Some(RangeFn::MinOverTime)
    } else if name == "avg_over_time"@ {
        Some(RangeFn::AvgOverTime)
    } else if name == "sum_over_time"@ {
        Some(RangeFn::SumOverTime)
    } else if name == "count_over_time"@ {
        Some(RangeFn::CountOverTime)
    } else {
        None
    }
}

fn range_fn_named(name: &str) -> (r: Option<RangeFn>)
    ensures
        r == range_fn(name@),
{
    if str_eq(name, "rate") {
        Some(RangeFn::Rate)
    } else if str_eq(name, "increase") {
        Some(RangeFn::Increase)
    } else if str_eq(name, "irate") {
        Some(RangeFn::Irate)
    } else if str_eq(name, "max_over_time") {
        Some(RangeFn::MaxOverTime)
    } else if str_eq(name, "min_over_time") {
        Some(RangeFn::MinOverTime)
    } else if str_eq(name, "avg_over_time") {
        Some(RangeFn::AvgOverTime)
    } else if str_eq(name, "sum_over_time") {
        Some(RangeFn::SumOverTime)
    } else if str_eq(name, "count_over_time") {
        Some(RangeFn::CountOverTime)
    } else {
        None
    }
}

/// The value column of a rollup bucket, and the function that merges buckets, for an
/// `*_over_time` function: the counts of buckets are summed, not counted. None for an
/// average, which needs two columns, and for the other functions.
pub open spec fn tier_value(f: RangeFn) -> Option<(ValueExpr, OverTimeAgg)> {
    match f {
        RangeFn::MaxOverTime => Some((ValueExpr::BucketMax, OverTimeAgg::Max)),
        RangeFn::MinOverTime => Some((ValueExpr::BucketMin, OverTimeAgg::Min)),
        RangeFn::SumOverTime => Some((ValueExpr::BucketSum, OverTimeAgg::Sum)),
        RangeFn::CountOverTime => Some((ValueExpr::BucketCount, OverTimeAgg::Sum)),
        _ => None,
    }
}

/// The per-function **tier** value column and merge function.
pub fn tier_over_time_value(f: RangeFn) -> (r: Option<(ValueExpr, OverTimeAgg)>)
    ensures
        r == tier_value(f),
{
    match f {
        RangeFn::MaxOverTime => Some((ValueExpr::BucketMax, OverTimeAgg::Max)),
        RangeFn::MinOverTime => Some((ValueExpr::BucketMin, OverTimeAgg::Min)),
        RangeFn::SumOverTime => Some((ValueExpr::BucketSum, OverTimeAgg::Sum)),
        RangeFn::CountOverTime => Some((ValueExpr::BucketCount, OverTimeAgg::Sum)),
        _ => None,
    }
}

/// The values that a range function reads of a table, over a range: the coalesced
/// value for counters; for `*_over_time` the aggregate columns of a rollup bucket, or
/// the value of a raw sample.
pub open spec fn range_values(f: RangeFn, name: Seq<char>, tier: bool) -> (
    ValueExpr,
    Option<ValueExpr>,
) {
    if !tier || f is Rate || f is Increase || f is Irate {
        (value_of(name), None)
    } else {
        match tier_value(f) {
            Some(v) => (v.0, None),
            None => (ValueExpr::BucketSum, Some(ValueExpr::BucketCount)),
        }
    }
}

/// The step of a range function over a table.
pub open spec fn range_step(f: RangeFn, tier: bool, range_ns: i64) -> StepView {
    match f {
        RangeFn::Rate => StepView::Rate { range_ns, per_second: true },
        RangeFn::Increase => StepView::Rate { range_ns, per_second: false },
        RangeFn::Irate => StepView::Irate,
        RangeFn::MaxOverTime => StepView::OverTime { range_ns, agg: OverTimeAgg::Max },
        RangeFn::MinOverTime => StepView::OverTime { range_ns, agg: OverTimeAgg::Min },
        RangeFn::AvgOverTime => if tier {
            StepView::OverTimeRatio { range_ns }
        } else {
            StepView::OverTime { range_ns, agg: OverTimeAgg::Avg }
        },
        RangeFn::SumOverTime => StepView::OverTime { range_ns, agg: OverTimeAgg::Sum },
        RangeFn::CountOverTime => StepView::OverTime {
            range_ns,
            agg: if tier {
                OverTimeAgg::Sum
            } else {
                OverTimeAgg::Count
            },
        },
    }
}

fn values_for_range(f: RangeFn, name: &str, tier: bool) -> (r: (ValueExpr, Option<ValueExpr>))
    ensures
        r == range_values(f, name@, tier),
{
    match f {
        RangeFn::Rate => (metric_value_expr(name), None),
        RangeFn::Increase => (metric_value_expr(name), None),
        RangeFn::Irate => (metric_value_expr(name), None),
        _ => if tier {
            match tier_over_time_value(f) {
                Some(v) => (v.0, None),
                None => (ValueExpr::BucketSum, Some(ValueExpr::BucketCount)),
            }
        } else {
            (metric_value_expr(name), None)
        },
    }
}

fn step_for_range(f: RangeFn, tier: bool, range_ns: i64) -> (r: Step)
    ensures
        r@ == range_step(f, tier, range_ns),
{
    match f {
        RangeFn::Rate => Step::Rate { range_ns, per_second: true },
        RangeFn::Increase => Step::Rate { range_ns, per_second: false },
        RangeFn::Irate => Step::Irate,
        RangeFn::MaxOverTime => Step::OverTime { range_ns, agg: OverTimeAgg::Max },
        RangeFn::MinOverTime => Step::OverTime { range_ns, agg: OverTimeAgg::Min },
        RangeFn::AvgOverTime => if tier {
            Step::OverTimeRatio { range_ns }
        } else {
            Step::OverTime { range_ns, agg: OverTimeAgg::Avg }
        },
        RangeFn::SumOverTime => Step::OverTime { range_ns, agg: OverTimeAgg::Sum },
        RangeFn::CountOverTime => if tier {
            Step::OverTime { range_ns, agg: OverTimeAgg::Sum }
        } else {
            Step::OverTime { range_ns, agg: OverTimeAgg::Count }
        },
    }
}

/// What is said of a range function whose argument is no range vector.
pub open spec fn no_range_vector(name: Seq<char>) -> Seq<char> {
    name + "() expects a range-vector argument like m[5m]"@
}

/// What is said of a range function that is not supported.
pub open spec fn unsupported_range_fn(name: Seq<char>) -> Seq<char> {
    "unsupported range function: "@ + name + "() (v1)"@
}

/// What is said of an expression that no range query can have.
pub open spec fn unsupported_range_expr() -> Seq<char> {
    "unsupported PromQL expression for query_range (v1)"@
}

fn no_range_vector_text(name: &str) -> (r: String)
    ensures
        r@ == no_range_vector(name@),
{
    joined(name, "() expects a range-vector argument like m[5m]")
}

fn unsupported_range_fn_text(name: &str) -> (r: String)
    ensures
        r@ == unsupported_range_fn(name@),
{
    let head = joined("unsupported range function: ", name);
    joined(head.as_str(), "() (v1)")
}

/// The plan of a range function over `[start, end]` of a table.
pub open spec fn range_call_plan(
    name: Seq<char>,
    args: Seq<PromExpr>,
    start: i64,
    end: i64,
    table: Seq<char>,
) -> Result<PlanView, Seq<char>> {
    if args.len() == 0 {
        Err(no_range_vector(name))
    } else {
        match args[0] {
            PromExpr::Matrix(s, range) => match (s.name, range_fn(name)) {
                (None, _) => Err(nameless()),
                (Some(_), None) => Err(unsupported_range_fn(name)),
                (Some(metric), Some(f)) => {
                    let tier = table != raw_table();
                    let values = range_values(f, metric@, tier);
                    match base_scan(s, start, end, table, values.0, values.1) {
                        Ok(scan) => Ok(
                            scan_plan(scan).plus(
                                range_step(f, tier, capped_ns(range) as i64),
                                Shape::Series,
                            ),
                        ),
                        Err(m) => Err(m),
                    }
                },
            },
            _ => Err(no_range_vector(name)),
        }
    }
}

fn lower_range_call(
    name: &str,
    args: &Vec<PromExpr>,
    start_ns: i64,
    end_ns: i64,
    table: &str,
) -> (r: Result<Plan, String>)
    ensures
        planned(r) == range_call_plan(name@, args@, start_ns, end_ns, table@),
{
    if args.len() == 0 {
        return Err(no_range_vector_text(name));
    }
    match &args[0] {
        PromExpr::Matrix(vs, range) => match &vs.name {
            None => Err(owned("metric selector requires a name")),
            Some(metric) => match range_fn_named(name) {
                None => Err(unsupported_range_fn_text(name)),
                Some(f) => {
                    let tier = !str_eq(table, "metrics");
                    let (value, count) = values_for_range(f, metric.as_str(), tier);
                    match metric_base_df(vs, start_ns, end_ns, table, value, count) {
                        Ok(scan) => {
                            let step = step_for_range(f, tier, range_to_ns(*range));
                            Ok(Plan::of_scan(scan).plus(step, Shape::Series))
                        },
                        Err(m) => Err(m),
                    }
                },
            },
        },
        _ => Err(no_range_vector_text(name)),
    }
}

/// The aggregation of a planned frame: over the labels of its rows, or, where it is
/// grouped already, over the labels of its group keys.
pub open spec fn grouped_plan(p: PlanView, op: AggKind, by: KindView, per_time: bool) -> PlanView {
    p.plus(
        StepView::Group { op, by, nested: p.shape == Shape::Groups, per_time },
        Shape::Groups,
    )
}

fn group_plan(p: Plan, op: AggKind, by: MatchKind, per_time: bool) -> (r: Plan)
    ensures
        r@ == grouped_plan(p@, op, by@, per_time),
{
    let nested = p.shape == Shape::Groups;
    p.plus(Step::Group { op, by, nested, per_time }, Shape::Groups)
}

/// The plan of a range expression over `[start, end]` of a table: of a function over
/// a range vector, of an aggregation at each time, or of the samples of a selector.
pub open spec fn range_plan(e: PromExpr, start: i64, end: i64, table: Seq<char>) -> Result<
    PlanView,
    Seq<char>,
>
    decreases e,
{
    match e {
        PromExpr::Call { name, args } => range_call_plan(name@, args@, start, end, table),
        PromExpr::Paren(p) => range_plan(*p, start, end, table),
        PromExpr::Aggregate { op, expr, param, grouping } => match agg_kind(op@) {
            None => Err(unsupported_aggregation()),
            Some(k) => match range_plan(*expr, start, end, table) {
                Ok(p) => Ok(grouped_plan(p, k, grouping_view(grouping), true)),
                Err(m) => Err(m),
            },
        },
        PromExpr::Vector(s) => match s.name {
            None => Err(nameless()),
            Some(name) => match base_scan(s, start, end, table, value_of(name@), None) {
                Ok(scan) => Ok(scan_plan(scan).plus(StepView::SortByTime, Shape::Samples)),
                Err(m) => Err(m),
            },
        },
        _ => Err(unsupported_range_expr()),
    }
}

/// Lower a range PromQL expression to a plan: range functions, `<agg> by` via
/// group-by, bare selectors as raw samples.
pub fn lower_range_df(
    expr: &PromExpr,
    start_ns: i64,
    end_ns: i64,
    table: &str,
) -> (r: Result<Plan, String>)
    ensures
        planned(r) == range_plan(*expr, start_ns, end_ns, table@),
    decreases expr,
{
    match expr {
        PromExpr::Call { name, args } => lower_range_call(
            name.as_str(),
            args,
            start_ns,
            end_ns,
            table,
        ),
        PromExpr::Paren(p) => lower_range_df(p, start_ns, end_ns, table),
        PromExpr::Aggregate { op, expr: inner, param: _, grouping } => match agg_name(
            op.as_str(),
        ) {
            Err(m) => Err(m),
            Ok(k) => match lower_range_df(inner, start_ns, end_ns, table) {
                Err(m) => Err(m),
                Ok(p) => Ok(group_plan(p, k, agg_grouping(grouping), true)),
            },
        },
        PromExpr::Vector(vs) => match &vs.name {
            None => Err(owned("metric selector requires a name")),
            Some(name) => match metric_base_df(
                vs,
                start_ns,
                end_ns,
                table,
                metric_value_expr(name.as_str()),
                None,
            ) {
                Ok(scan) => Ok(Plan::of_scan(scan).plus(Step::SortByTime, Shape::Samples)),
                Err(m) => Err(m),
            },
        },
        _ => Err(owned("unsupported PromQL expression for query_range (v1)")),
    }
}

/// What identifies a series in a frame of the given shape.
pub open spec fn series_partition(shape: Shape) -> Partition {
    match shape {
        Shape::Samples => Partition::NameServiceSeries,
        Shape::Series => Partition::ServiceSeries,
        Shape::Groups => Partition::GroupKey,
    }
}

/// The plan that keeps the `k` highest (or lowest) series of a planned frame.
pub open spec fn ranked_plan(p: PlanView, k: i64, top: bool) -> PlanView {
    p.plus(StepView::TopK { k, top, part: series_partition(p.shape) }, p.shape)
}

/// Apply `topk(k, …)` / `bottomk` to an already-lowered range frame, by the series
/// identity that the frame has.
pub fn lower_topk_df(df: Plan, k: i64, is_topk: bool) -> (r: Plan)
    ensures
        r@ == ranked_plan(df@, k, is_topk),
{
    let shape = df.shape;
    let part = match shape {
        Shape::Samples => Partition::NameServiceSeries,
        Shape::Series => Partition::ServiceSeries,
        Shape::Groups => Partition::GroupKey,
    };
    df.plus(Step::TopK { k, top: is_topk, part }, shape)
}

/// The scan for the latest samples of a selector at or before a moment: only files
/// that start after the moment can be left out.
pub open spec fn latest_scan(s: Selector, name: Seq<char>, table: Seq<char>, time: i64) -> ScanView {
    ScanView {
        table,
        scope: (QueryScope { lo_ns: i64::MIN, hi_ns: time }),
        name: name_test(name),
        tests: tests_of(s.matchers@),
        time: TimeTest::AtMost(time),
        value: value_of(name),
        count: None,
    }
}

/// The plan of the latest sample of each series of a selector at or before `time`.
pub open spec fn latest_plan(s: Selector, time: i64) -> Result<PlanView, Seq<char>> {
    match s.name {
        None => Err(nameless()),
        Some(name) => Ok(
            scan_plan(latest_scan(s, name@, raw_table(), time)).plus(
                StepView::Latest(Partition::NameSeries),
                Shape::Samples,
            ),
        ),
    }
}

/// One scan for the latest samples at or before `time_ns`.
fn selector_base_df(vs: &Selector, name: &str, table: &str, time_ns: i64) -> (r: Scan)
    ensures
        r@ == latest_scan(*vs, name@, table@, time_ns),
{
    Scan {
        table: owned(table),
        scope: QueryScope { lo_ns: i64::MIN, hi_ns: time_ns },
        name: name_pred_expr(name),
        tests: matcher_tests(&vs.matchers),
        time: TimeTest::AtMost(time_ns),
        value: metric_value_expr(name),
        count: None,
    }
}

/// Latest sample per series at/before `time_ns`: the instant-query base. A bare
/// selector needs no tier, so the windows that it resolves to are the raw one.
pub fn latest_selected_df(tables: &Vec<String>, vs: &Selector, time_ns: i64) -> (r: Result<
    Plan,
    String,
>)
    ensures
        planned(r) == latest_plan(*vs, time_ns),
{
    match &vs.name {
        None => Err(owned("metric selector requires a name")),
        Some(name) => {
            let windows = resolve_metric_windows(
                tables,
                time_ns,
                time_ns,
                0,
                Capability::Raw,
                time_ns,
            );
            let ghost w = windows_view(windows@);
            assert(w.len() == 1);
            assert(w[0] == window_view(windows@[0]));
            let scan = selector_base_df(
                vs,
                name.as_str(),
                windows[0].0.as_str(),
                windows[0].2,
            );
            Ok(Plan::of_scan(scan).plus(Step::Latest(Partition::NameSeries), Shape::Samples))
        },
    }
}

/// The values that a range function reads of a window at an instant. Those of a raw
/// window are merged with those of rollup buckets, so a raw sample counts as one.
pub open spec fn instant_values(f: RangeFn, name: Seq<char>, tier: bool) -> (
    ValueExpr,
    Option<ValueExpr>,
) {
    match f {
        RangeFn::Rate | RangeFn::Increase | RangeFn::Irate => (value_of(name), None),
        RangeFn::AvgOverTime => if tier {
            (ValueExpr::BucketSum, Some(ValueExpr::BucketCount))
        } else {
            (value_of(name), Some(ValueExpr::One))
        },
        RangeFn::CountOverTime => if tier {
            (ValueExpr::BucketCount, None)
        } else {
            (ValueExpr::One, None)
        },
        _ => if tier {
            match tier_value(f) {
                Some(v) => (v.0, None),
                None => (value_of(name), None),
            }
        } else {
            (value_of(name), None)
        },
    }
}

/// The step of a range function over the union of windows at an instant: the one that
/// merges rollup buckets, whatever the windows are.
pub open spec fn instant_step(f: RangeFn, range_ns: i64) -> StepView {
    range_step(f, true, range_ns)
}

fn over_time_window_value(f: RangeFn, name: &str, tier: bool) -> (r: (ValueExpr, Option<ValueExpr>))
    ensures
        r == instant_values(f, name@, tier),
{
    match f {
        RangeFn::Rate => (metric_value_expr(name), None),
        RangeFn::Increase => (metric_value_expr(name), None),
        RangeFn::Irate => (metric_value_expr(name), None),
        RangeFn::AvgOverTime => if tier {
            (ValueExpr::BucketSum, Some(ValueExpr::BucketCount))
        } else {
            (metric_value_expr(name), Some(ValueExpr::One))
        },
        RangeFn::CountOverTime => if tier {
            (ValueExpr::BucketCount, None)
        } else {
            (ValueExpr::One, None)
        },
        _ => if tier {
            match tier_over_time_value(f) {
                Some(v) => (v.0, None),
                None => (metric_value_expr(name), None),
            }
        } else {
            (metric_value_expr(name), None)
        },
    }
}

/// The scan of one window for a range function at an instant.
pub open spec fn window_scan(
    f: RangeFn,
    s: Selector,
    name: Seq<char>,
    w: (Seq<char>, int, int),
) -> ScanView {
    let values = instant_values(f, name, w.0 != raw_table());
    ScanView {
        table: w.0,
        scope: (QueryScope { lo_ns: w.1 as i64, hi_ns: w.2 as i64 }),
        name: name_test(name),
        tests: tests_of(s.matchers@),
        time: TimeTest::Between(w.1 as i64, w.2 as i64),
        value: values.0,
        count: values.1,
    }
}

/// The scans of the windows for a range function at an instant.
pub open spec fn window_scans(
    f: RangeFn,
    s: Selector,
    name: Seq<char>,
    windows: Seq<(Seq<char>, int, int)>,
) -> Seq<ScanView> {
    Seq::new(windows.len(), |i: int| window_scan(f, s, name, windows[i]))
}

/// The plan of a range function at an instant: the windows are united before the
/// function is applied, so that its value takes in the whole span.
pub open spec fn leaf_frame(
    f: RangeFn,
    s: Selector,
    name: Seq<char>,
    windows: Seq<(Seq<char>, int, int)>,
    range_ns: i64,
) -> PlanView {
    PlanView {
        scans: window_scans(f, s, name, windows),
        steps: seq![instant_step(f, range_ns)],
        shape: Shape::Series,
    }
}

fn instant_leaf_frame(
    f: RangeFn,
    vs: &Selector,
    name: &String,
    windows: &Vec<MetricWindow>,
    range_ns: i64,
) -> (r: Plan)
    requires
        vs.name == Some(*name),
    ensures
        r@ == leaf_frame(f, *vs, name@, windows_view(windows@), range_ns),
{
    let ghost w = windows_view(windows@);
    let ghost want = window_scans(f, *vs, name@, w);
    let mut scans: Vec<Scan> = Vec::new();
    let mut i: usize = 0;
    while i < windows.len()
        invariant
            w == windows_view(windows@),
            want == window_scans(f, *vs, name@, w),
            i <= windows@.len(),
            scans_view(scans@) =~= want.take(i as int),
        decreases windows.len() - i,
    {
        let (lo, hi) = (windows[i].1, windows[i].2);
        let table = windows[i].0.as_str();
        let tier = !str_eq(table, "metrics");
        let (value, count) = over_time_window_value(f, name.as_str(), tier);
        let scan = Scan {
            table: owned(table),
            scope: QueryScope { lo_ns: lo, hi_ns: hi },
            name: name_pred_expr(name.as_str()),
            tests: matcher_tests(&vs.matchers),
            time: TimeTest::Between(lo, hi),
            value,
            count,
        };
        let ghost before = scans@;
        proof {
            assert(w[i as int] == window_view(windows@[i as int]));
            assert(scan@ == want[i as int]);
        }
        scans.push(scan);
        assert(scans_view(scans@) =~= scans_view(before).push(scan@));
        i = i + 1;
    }
    assert(want.take(windows@.len() as int) =~= want);
    let mut steps: Vec<Step> = Vec::new();
    steps.push(step_for_range(f, true, range_ns));
    assert(steps_view(steps@) =~= seq![instant_step(f, range_ns)]);
    Plan { scans, steps, shape: Shape::Series }
}

/// The plan of a range expression at an instant over given windows.
pub open spec fn leaf_plan(
    e: PromExpr,
    windows: Seq<(Seq<char>, int, int)>,
    range_ns: i64,
) -> Result<PlanView, Seq<char>> {
    match e {
        PromExpr::Call { name, args } => if args@.len() == 0 {
            Err(no_range_vector(name@))
        } else {
            match args@[0] {
                PromExpr::Matrix(s, _) => match (s.name, range_fn(name@)) {
                    (None, _) => Err(nameless()),
                    (Some(_), None) => Err(unsupported_range_fn(name@)),
                    (Some(metric), Some(f)) => Ok(leaf_frame(f, s, metric@, windows, range_ns)),
                },
                _ => Err(no_range_vector(name@)),
            }
        },
        _ => Err(no_instant_range()),
    }
}

/// Lower a leaf **instant** range expression (`rate(m[w])` / `<fn>_over_time(m[w])`)
/// over the resolved windows.
pub fn lower_instant_leaf(expr: &PromExpr, windows: &Vec<MetricWindow>, range_ns: i64) -> (r: Result<
    Plan,
    String,
>)
    ensures
        planned(r) == leaf_plan(*expr, windows_view(windows@), range_ns),
{
    match expr {
        PromExpr::Call { name, args } => {
            if args.len() == 0 {
                return Err(no_range_vector_text(name.as_str()));
            }
            match &args[0] {
                PromExpr::Matrix(vs, _) => match &vs.name {
                    None => Err(owned("metric selector requires a name")),
                    Some(metric) => match range_fn_named(name.as_str()) {
                        None => Err(unsupported_range_fn_text(name.as_str())),
                        Some(f) => Ok(instant_leaf_frame(f, vs, metric, windows, range_ns)),
                    },
                },
                _ => Err(no_range_vector_text(name.as_str())),
            }
        },
        _ => Err(owned("instant range function expects a range vector like m[5m] (v1)")),
    }
}

/// The plan of a range expression at an instant: over its windows, with each series
/// collapsed to its latest value.
pub open spec fn collapsed_plan(tables: Seq<String>, e: PromExpr, time: i64, now: i64) -> Result<
    PlanView,
    Seq<char>,
> {
    match (matrix_range(e), anchored_windows(tables, e, time as int, now as int)) {
        (Some(range), Ok(windows)) => match leaf_plan(e, windows, range as i64) {
            Ok(p) => Ok(p.plus(StepView::Latest(Partition::ServiceSeries), Shape::Series)),
            Err(m) => Err(m),
        },
        (_, Err(m)) => Err(m),
        (None, _) => Err(no_instant_range()),
    }
}

fn lower_collapsed(tables: &Vec<String>, expr: &PromExpr, time_ns: i64, now_ns: i64) -> (r: Result<
    Plan,
    String,
>)
    ensures
        planned(r) == collapsed_plan(tables@, *expr, time_ns, now_ns),
{
    let range = match matrix_range_ns(expr) {
        Some(range) => range,
        None => return Err(owned("instant range function expects a range vector like m[5m] (v1)")),
    };
    let windows = match instant_range_windows(tables, expr, time_ns, now_ns) {
        Ok(w) => w,
        Err(m) => return Err(m),
    };
    match lower_instant_leaf(expr, &windows, range) {
        Ok(p) => Ok(p.plus(Step::Latest(Partition::ServiceSeries), Shape::Series)),
        Err(m) => Err(m),
    }
}

/// What is said of an instant aggregation over something else than a selector, a
/// range function or an aggregation.
pub open spec fn unsupported_inner() -> Seq<char> {
    "instant aggregate inner must be a selector or a range function (v1)"@
}

/// The plan of an aggregation at an instant: over a nested aggregation; over the
/// latest samples of a selector; or over a range function, of which each series is
/// collapsed to its latest value first, so that every series takes part.
pub open spec fn aggregate_plan(tables: Seq<String>, e: PromExpr, time: i64, now: i64) -> Result<
    PlanView,
    Seq<char>,
>
    decreases e,
{
    match e {
        PromExpr::Paren(p) => aggregate_plan(tables, *p, time, now),
        PromExpr::Aggregate { op, expr, param, grouping } => match agg_kind(op@) {
            None => Err(unsupported_aggregation()),
            Some(k) => {
                let inner = if inner_aggregate(*expr) is Some {
                    aggregate_plan(tables, *expr, time, now)
                } else if inner_selector(*expr) is Some {
                    latest_plan(inner_selector(*expr)->0, time)
                } else if matrix_range(*expr) is None {
                    Err(unsupported_inner())
                } else {
                    collapsed_plan(tables, *expr, time, now)
                };
                match inner {
                    Ok(p) => Ok(grouped_plan(p, k, grouping_view(grouping), false)),
                    Err(m) => Err(m),
                }
            },
        },
        _ => Err(unsupported_inner()),
    }
}

/// Lower an aggregate at an **instant**.
pub fn lower_aggregate_instant(
    tables: &Vec<String>,
    agg: &PromExpr,
    time_ns: i64,
    now_ns: i64,
) -> (r: Result<Plan, String>)
    ensures
        planned(r) == aggregate_plan(tables@, *agg, time_ns, now_ns),
    decreases agg,
{
    match agg {
        PromExpr::Paren(p) => lower_aggregate_instant(tables, p, time_ns, now_ns),
        PromExpr::Aggregate { op, expr, param: _, grouping } => {
            let k = match agg_name(op.as_str()) {
                Ok(k) => k,
                Err(m) => return Err(m),
            };
            let inner = if aggregate_inner(expr).is_some() {
                lower_aggregate_instant(tables, expr, time_ns, now_ns)
            } else if let Some(vs) = aggregate_inner_selector(expr) {
                latest_selected_df(tables, vs, time_ns)
            } else if matrix_range_ns(expr).is_none() {
                Err(owned("instant aggregate inner must be a selector or a range function (v1)"))
            } else {
                lower_collapsed(tables, expr, time_ns, now_ns)
            };
            match inner {
                Ok(p) => Ok(group_plan(p, k, agg_grouping(grouping), false)),
                Err(m) => Err(m),
            }
        },
        _ => Err(owned("instant aggregate inner must be a selector or a range function (v1)")),
    }
}

/// What is said of an expression that no instant query can have.
pub open spec fn unsupported_instant_expr() -> Seq<char> {
    "unsupported PromQL expression for instant query (v1)"@
}

/// The plan of an instant expression.
pub open spec fn instant_plan(tables: Seq<String>, e: PromExpr, time: i64, now: i64) -> Result<
    PlanView,
    Seq<char>,
>
    decreases e,
{
    match e {
        PromExpr::Vector(s) => latest_plan(s, time),
        PromExpr::Paren(p) => instant_plan(tables, *p, time, now),
        PromExpr::Aggregate { op, expr, param, grouping } => aggregate_plan(tables, e, time, now),
        PromExpr::Call { name, args } => collapsed_plan(tables, e, time, now),
        _ => Err(unsupported_instant_expr()),
    }
}

/// Lower an instant PromQL expression to a plan: latest-per-series selectors, range
/// functions and `<agg> by` aggregations.
pub fn lower_instant_df(tables: &Vec<String>, expr: &PromExpr, time_ns: i64, now_ns: i64) -> (r:
    Result<Plan, String>)
    ensures
        planned(r) == instant_plan(tables@, *expr, time_ns, now_ns),
    decreases expr,
{
    match expr {
        PromExpr::Vector(vs) => latest_selected_df(tables, vs, time_ns),
        PromExpr::Paren(p) => lower_instant_df(tables, p, time_ns, now_ns),
        PromExpr::Aggregate { op: _, expr: _, param: _, grouping: _ } => lower_aggregate_instant(
            tables,
            expr,
            time_ns,
            now_ns,
        ),
        PromExpr::Call { name: _, args: _ } => lower_collapsed(tables, expr, time_ns, now_ns),
        _ => Err(owned("unsupported PromQL expression for instant query (v1)")),
    }
}

/// A scan reads exactly its scope: neither a file outside of it can hold a row that
/// passes the test on time, nor does the scope reach further than that test.
pub open spec fn scope_is_exact(s: ScanView) -> bool {
    match s.time {
        TimeTest::Between(lo, hi) => s.scope.lo_ns == lo && s.scope.hi_ns == hi,
        TimeTest::AtMost(hi) => s.scope.lo_ns == i64::MIN && s.scope.hi_ns == hi,
    }
}

/// Every scan of a range plan reads exactly its scope, in the table and the span that
/// were asked for.
pub proof fn range_scans_are_exact(e: PromExpr, start: i64, end: i64, table: Seq<char>)
    requires
        range_plan(e, start, end, table) is Ok,
    ensures
        range_plan(e, start, end, table)->Ok_0.scans.len() == 1,
        scope_is_exact(range_plan(e, start, end, table)->Ok_0.scans[0]),
        range_plan(e, start, end, table)->Ok_0.scans[0].table == table,
        range_plan(e, start, end, table)->Ok_0.scans[0].time == TimeTest::Between(start, end),
    decreases e,
{
    match e {
        PromExpr::Paren(p) => range_scans_are_exact(*p, start, end, table),
        PromExpr::Aggregate { op, expr, param, grouping } => range_scans_are_exact(
            *expr,
            start,
            end,
            table,
        ),
        _ => {},
    }
}

} // verus!
