//! The data that the evaluation of an expression needs.
use crate::classify::{
    agg_kind, agg_name, bucket_heatmap, detect_bucket_heatmap, detect_hist_quantile, hist_quantile,
    histogram_quantile_parts, instant_quantile, rank_of, topk_parts, BucketSpec, BucketView,
    HistSpec, HistView,
};
use crate::histogram::{hist_instant_scan, instant_hist_scan, HistScan, HistScanView};
use crate::plan::{
    instant_plan, lower_instant_df, lower_range_df, lower_topk_df, range_plan, ranked_plan, Plan,
    PlanView,
};
use crate::matching::{card_of, cardinality, unsupported_set_operator};
use crate::promql::{BinaryModifier, PromExpr};
use crate::text::{joined, owned, str_eq};
use vstd::prelude::*;

verus! {

/// A range shard's scan and emit bounds: the scan runs over `[scan_start, end]`, so
/// that a windowed function has its full window at `start`, while points are emitted
/// only for `[start, end]`.
#[derive(Debug, Clone, Copy, PartialEq, Eq, Structural)]
pub struct RangeWindow {
    /// Scan lower bound: the start less the lookback.
    pub scan_start: i64,
    /// First emitted timestamp (inclusive).
    pub start: i64,
    /// Last emitted timestamp (inclusive) and the scan upper bound.
    pub end: i64,
}

/// Data that the evaluation of an expression needs.
#[derive(Debug)]
pub enum Leaf {
    /// The series of a quantile query over the emitted span.
    Quantile(HistSpec),
    /// The series of a heatmap query over the emitted span.
    Heatmap(BucketSpec),
    /// The series of a planned range query.
    Range(Plan),
    /// The samples of a planned instant query.
    Instant(Plan),
    /// The samples of an instant quantile: its quantile, its metric, and the scan for
    /// the latest histograms.
    InstantQuantile(u64, String, HistScan),
}

/// Data that the evaluation of an expression needs, as a value.
pub enum LeafView {
    Quantile(HistView),
    Heatmap(BucketView),
    Range(PlanView),
    Instant(PlanView),
    InstantQuantile(u64, Seq<char>, HistScanView),
}

impl View for Leaf {
    type V = LeafView;

    open spec fn view(&self) -> LeafView {
        match self {
            Leaf::Quantile(h) => LeafView::Quantile(h@),
            Leaf::Heatmap(b) => LeafView::Heatmap(b@),
            Leaf::Range(p) => LeafView::Range(p@),
            Leaf::Instant(p) => LeafView::Instant(p@),
            Leaf::InstantQuantile(phi, name, s) => LeafView::InstantQuantile(*phi, name@, s@),
        }
    }
}

/// The data that an expression needs, in the order of evaluation, up to where
/// planning failed, if it did.
#[derive(Debug)]
pub struct Needs {
    pub leaves: Vec<Leaf>,
    pub error: Option<String>,
}

/// The data that an expression needs, as a value.
pub struct NeedsView {
    pub leaves: Seq<LeafView>,
    pub error: Option<Seq<char>>,
}

/// Leaves, as values.
pub open spec fn leaves_view(s: Seq<Leaf>) -> Seq<LeafView> {
    Seq::new(s.len(), |i: int| s[i]@)
}

impl View for Needs {
    type V = NeedsView;

    open spec fn view(&self) -> NeedsView {
        NeedsView {
            leaves: leaves_view(self.leaves@),
            error: match self.error {
                Some(m) => Some(m@),
                None => None,
            },
        }
    }
}

impl NeedsView {
    /// The needs of one expression and then of another.
    pub open spec fn before(self, next: NeedsView) -> NeedsView {
        if self.error is Some {
            self
        } else {
            NeedsView { leaves: self.leaves + next.leaves, error: next.error }
        }
    }
}

/// No need.
pub open spec fn needs_nothing() -> NeedsView {
    NeedsView { leaves: Seq::empty(), error: None }
}

/// The need of one leaf.
pub open spec fn needs_leaf(l: LeafView) -> NeedsView {
    NeedsView { leaves: seq![l], error: None }
}

/// What cannot be planned.
pub open spec fn cannot_plan(m: Seq<char>) -> NeedsView {
    NeedsView { leaves: Seq::empty(), error: Some(m) }
}

fn nothing() -> (r: Needs)
    ensures
        r@ == needs_nothing(),
{
    let r = Needs { leaves: Vec::new(), error: None };
    assert(r@.leaves =~= Seq::empty());
    r
}

fn just(leaf: Leaf) -> (r: Needs)
    ensures
        r@ == needs_leaf(leaf@),
{
    let mut leaves: Vec<Leaf> = Vec::new();
    let ghost v = leaf@;
    leaves.push(leaf);
    let r = Needs { leaves, error: None };
    assert(r@.leaves =~= seq![v]);
    r
}

fn failed(m: String) -> (r: Needs)
    ensures
        r@ == cannot_plan(m@),
{
    let r = Needs { leaves: Vec::new(), error: Some(m) };
    assert(r@.leaves =~= Seq::empty());
    r
}

impl Needs {
    fn before(self, next: Needs) -> (r: Needs)
        ensures
            r@ == self@.before(next@),
    {
        if self.error.is_some() {
            return self;
        }
        let mut leaves = self.leaves;
        let mut more = next.leaves;
        let ghost a = leaves@;
        let ghost b = more@;
        leaves.append(&mut more);
        let r = Needs { leaves, error: next.error };
        assert(leaves_view(r.leaves@) =~= leaves_view(a) + leaves_view(b));
        r
    }
}

/// A function call that is evaluated itself.
#[derive(Debug, Clone, Copy, PartialEq, Eq, Structural)]
pub enum CallKind {
    Scalar,
    ClampMin,
    ClampMax,
    /// A function that is planned as a query.
    Other,
}

/// How a function call is evaluated.
pub open spec fn call_kind(name: Seq<char>) -> CallKind {
    if name == "scalar"@ {
        CallKind::Scalar
    } else if name == "clamp_min"@ {
        CallKind::ClampMin
    } else if name == "clamp_max"@ {
        CallKind::ClampMax
    } else {
        CallKind::Other
    }
}

/// How a function call is evaluated.
pub fn kind_of_call(name: &str) -> (r: CallKind)
    ensures
        r == call_kind(name@),
{
    if str_eq(name, "scalar") {
        CallKind::Scalar
    } else if str_eq(name, "clamp_min") {
        CallKind::ClampMin
    } else if str_eq(name, "clamp_max") {
        CallKind::ClampMax
    } else {
        CallKind::Other
    }
}

/// What is said of `scalar()` without an argument.
pub open spec fn scalar_needs_argument() -> Seq<char> {
    "scalar() requires one argument"@
}

/// What is said of a clamp without two arguments.
pub open spec fn clamp_needs_arguments(name: Seq<char>) -> Seq<char> {
    name + "() requires two arguments"@
}

/// Whether an instant expression evaluates to a scalar.
pub open spec fn instant_scalar(e: PromExpr) -> bool
    decreases e,
{
    match e {
        PromExpr::Number(_) => true,
        PromExpr::Paren(p) => instant_scalar(*p),
        PromExpr::Unary(u) => instant_scalar(*u),
        PromExpr::Binary { op, lhs, rhs, modifier } => instant_scalar(*lhs) && instant_scalar(*rhs),
        PromExpr::Call { name, args } => match call_kind(name@) {
            CallKind::Scalar => true,
            CallKind::ClampMin | CallKind::ClampMax => args@.len() > 0 && instant_scalar(args@[0]),
            CallKind::Other => false,
        },
        _ => false,
    }
}

fn is_instant_scalar(expr: &PromExpr) -> (r: bool)
    ensures
        r == instant_scalar(*expr),
    decreases expr,
{
    match expr {
        PromExpr::Number(_) => true,
        PromExpr::Paren(p) => is_instant_scalar(p),
        PromExpr::Unary(u) => is_instant_scalar(u),
        PromExpr::Binary { op: _, lhs, rhs, modifier: _ } => is_instant_scalar(lhs)
            && is_instant_scalar(rhs),
        PromExpr::Call { name, args } => match kind_of_call(name.as_str()) {
            CallKind::Scalar => true,
            CallKind::Other => false,
            _ => args.len() > 0 && is_instant_scalar(&args[0]),
        },
        _ => false,
    }
}

/// Whether a binary operator is a set operator between two vectors, which is not
/// supported.
pub open spec fn is_set_operation(
    left_scalar: bool,
    right_scalar: bool,
    modifier: Option<BinaryModifier>,
) -> bool {
    !left_scalar && !right_scalar && card_of(modifier) is None
}

/// What is left to plan of two planned operands: nothing, or a refusal.
pub open spec fn combination(
    left_scalar: bool,
    right_scalar: bool,
    modifier: Option<BinaryModifier>,
) -> NeedsView {
    if is_set_operation(left_scalar, right_scalar, modifier) {
        cannot_plan(unsupported_set_operator())
    } else {
        needs_nothing()
    }
}

fn plan_combination(left_scalar: bool, right_scalar: bool, modifier: &Option<BinaryModifier>) -> (r:
    Needs)
    ensures
        r@ == combination(left_scalar, right_scalar, *modifier),
{
    if left_scalar || right_scalar {
        return nothing();
    }
    match cardinality(modifier) {
        Ok(_) => nothing(),
        Err(m) => failed(m),
    }
}

/// The data that an instant query of an expression is.
pub open spec fn instant_leaf(tables: Seq<String>, e: PromExpr, time: i64, now: i64) -> NeedsView {
    match instant_quantile(e) {
        Some((phi, s)) => match instant_hist_scan(s, time as int, now as int) {
            Ok(scan) => needs_leaf(LeafView::InstantQuantile(phi, scan.name.exact, scan)),
            Err(m) => cannot_plan(m),
        },
        None => match instant_plan(tables, e, time, now) {
            Ok(p) => needs_leaf(LeafView::Instant(p)),
            Err(m) => cannot_plan(m),
        },
    }
}

/// The data that an instant expression needs.
pub open spec fn instant_needs(tables: Seq<String>, e: PromExpr, time: i64, now: i64) -> NeedsView
    decreases e,
{
    match e {
        PromExpr::Number(_) => needs_nothing(),
        PromExpr::Paren(p) => instant_needs(tables, *p, time, now),
        PromExpr::Unary(u) => instant_needs(tables, *u, time, now),
        PromExpr::Binary { op, lhs, rhs, modifier } => instant_needs(
            tables,
            *lhs,
            time,
            now,
        ).before(instant_needs(tables, *rhs, time, now)).before(
            combination(instant_scalar(*lhs), instant_scalar(*rhs), modifier),
        ),
        PromExpr::Call { name, args } => match call_kind(name@) {
            CallKind::Scalar => if args@.len() == 0 {
                cannot_plan(scalar_needs_argument())
            } else {
                instant_needs(tables, args@[0], time, now)
            },
            CallKind::ClampMin | CallKind::ClampMax => if args@.len() < 2 {
                cannot_plan(clamp_needs_arguments(name@))
            } else {
                instant_needs(tables, args@[0], time, now).before(
                    instant_needs(tables, args@[1], time, now),
                )
            },
            CallKind::Other => instant_leaf(tables, e, time, now),
        },
        _ => instant_leaf(tables, e, time, now),
    }
}

fn plan_instant_leaf(tables: &Vec<String>, expr: &PromExpr, time_ns: i64, now_ns: i64) -> (r: Needs)
    ensures
        r@ == instant_leaf(tables@, *expr, time_ns, now_ns),
{
    match histogram_quantile_parts(expr) {
        Some((phi, vs)) => match hist_instant_scan(tables, vs, time_ns, now_ns) {
            Ok(scan) => {
                let name = owned(scan.name.exact.as_str());
                just(Leaf::InstantQuantile(phi, name, scan))
            },
            Err(m) => failed(m),
        },
        None => match lower_instant_df(tables, expr, time_ns, now_ns) {
            Ok(p) => just(Leaf::Instant(p)),
            Err(m) => failed(m),
        },
    }
}

/// The data that an instant expression needs, evaluated at `time_ns`. `now_ns`
/// anchors an omitted time.
pub fn plan_instant(tables: &Vec<String>, expr: &PromExpr, time_ns: i64, now_ns: i64) -> (r: Needs)
    ensures
        r@ == instant_needs(tables@, *expr, time_ns, now_ns),
    decreases expr,
{
    match expr {
        PromExpr::Number(_) => nothing(),
        PromExpr::Paren(p) => plan_instant(tables, p, time_ns, now_ns),
        PromExpr::Unary(u) => plan_instant(tables, u, time_ns, now_ns),
        PromExpr::Binary { op: _, lhs, rhs, modifier } => {
            let l = plan_instant(tables, lhs, time_ns, now_ns);
            let r = plan_instant(tables, rhs, time_ns, now_ns);
            let both = plan_combination(is_instant_scalar(lhs), is_instant_scalar(rhs), modifier);
            l.before(r).before(both)
        },
        PromExpr::Call { name, args } => match kind_of_call(name.as_str()) {
            CallKind::Scalar => if args.len() == 0 {
                failed(owned("scalar() requires one argument"))
            } else {
                plan_instant(tables, &args[0], time_ns, now_ns)
            },
            CallKind::Other => plan_instant_leaf(tables, expr, time_ns, now_ns),
            _ => if args.len() < 2 {
                failed(joined(name.as_str(), "() requires two arguments"))
            } else {
                let v = plan_instant(tables, &args[0], time_ns, now_ns);
                let bound = plan_instant(tables, &args[1], time_ns, now_ns);
                v.before(bound)
            },
        },
        _ => plan_instant_leaf(tables, expr, time_ns, now_ns),
    }
}

/// Whether an expression is an aggregation that is reduced from the evaluated inner
/// expression: one of a known operator that is no heatmap and no quantile.
pub open spec fn is_reduction(e: PromExpr) -> bool {
    match e {
        PromExpr::Aggregate { op, expr, param, grouping } => agg_kind(op@) is Some
            && bucket_heatmap(e) is None && hist_quantile(e) is None,
        _ => false,
    }
}

/// Whether a range expression evaluates to a scalar.
pub open spec fn range_scalar(e: PromExpr) -> bool
    decreases e,
{
    match e {
        PromExpr::Number(_) => true,
        PromExpr::Paren(p) => range_scalar(*p),
        PromExpr::Unary(u) => range_scalar(*u),
        PromExpr::Binary { op, lhs, rhs, modifier } => range_scalar(*lhs) && range_scalar(*rhs),
        PromExpr::Call { name, args } => match call_kind(name@) {
            CallKind::Scalar => true,
            CallKind::ClampMin | CallKind::ClampMax => args@.len() > 0 && range_scalar(args@[0]),
            CallKind::Other => false,
        },
        PromExpr::Aggregate { op, expr, param, grouping } => is_reduction(e) && range_scalar(*expr),
        _ => false,
    }
}

/// The data that a range query of an expression is: a quantile, a heatmap, the
/// highest or lowest series, or a plain plan.
pub open spec fn range_leaf(e: PromExpr, win: RangeWindow, table: Seq<char>) -> NeedsView {
    match hist_quantile(e) {
        Some(h) => needs_leaf(LeafView::Quantile(h)),
        None => match bucket_heatmap(e) {
            Some(b) => needs_leaf(LeafView::Heatmap(b)),
            None => match rank_of(e) {
                Some((n, top, inner)) => match range_plan(inner, win.scan_start, win.end, table) {
                    Ok(p) => needs_leaf(LeafView::Range(ranked_plan(p, n as i64, top))),
                    Err(m) => cannot_plan(m),
                },
                None => match range_plan(e, win.scan_start, win.end, table) {
                    Ok(p) => needs_leaf(LeafView::Range(p)),
                    Err(m) => cannot_plan(m),
                },
            },
        },
    }
}

/// The data that a range expression needs over a window of a table. What is folded to
/// a scalar is evaluated at the end of the window.
pub open spec fn range_needs(
    tables: Seq<String>,
    e: PromExpr,
    win: RangeWindow,
    table: Seq<char>,
) -> NeedsView
    decreases e,
{
    match e {
        PromExpr::Number(_) => needs_nothing(),
        PromExpr::Paren(p) => range_needs(tables, *p, win, table),
        PromExpr::Unary(u) => range_needs(tables, *u, win, table),
        PromExpr::Binary { op, lhs, rhs, modifier } => range_needs(
            tables,
            *lhs,
            win,
            table,
        ).before(range_needs(tables, *rhs, win, table)).before(
            combination(range_scalar(*lhs), range_scalar(*rhs), modifier),
        ),
        PromExpr::Call { name, args } => match call_kind(name@) {
            CallKind::Scalar => if args@.len() == 0 {
                cannot_plan(scalar_needs_argument())
            } else {
                instant_needs(tables, args@[0], win.end, win.end)
            },
            CallKind::ClampMin | CallKind::ClampMax => if args@.len() < 2 {
                cannot_plan(clamp_needs_arguments(name@))
            } else {
                range_needs(tables, args@[0], win, table).before(
                    instant_needs(tables, args@[1], win.end, win.end),
                )
            },
            CallKind::Other => range_leaf(e, win, table),
        },
        PromExpr::Aggregate { op, expr, param, grouping } => if is_reduction(e) {
            range_needs(tables, *expr, win, table)
        } else {
            range_leaf(e, win, table)
        },
        _ => range_leaf(e, win, table),
    }
}

fn plan_range_leaf(expr: &PromExpr, win: RangeWindow, table: &str) -> (r: Needs)
    ensures
        r@ == range_leaf(*expr, win, table@),
{
    if let Some(h) = detect_hist_quantile(expr) {
        return just(Leaf::Quantile(h));
    }
    if let Some(b) = detect_bucket_heatmap(expr) {
        return just(Leaf::Heatmap(b));
    }
    match topk_parts(expr) {
        Some((n, top, inner)) => match lower_range_df(inner, win.scan_start, win.end, table) {
            Ok(p) => just(Leaf::Range(lower_topk_df(p, n, top))),
            Err(m) => failed(m),
        },
        None => match lower_range_df(expr, win.scan_start, win.end, table) {
            Ok(p) => just(Leaf::Range(p)),
            Err(m) => failed(m),
        },
    }
}

/// Whether an aggregation is reduced from the evaluated inner expression.
pub fn reduces(expr: &PromExpr, op: &str) -> (r: bool)
    requires
        expr matches PromExpr::Aggregate { op: o, expr: _, param: _, grouping: _ } && o@ == op@,
    ensures
        r == is_reduction(*expr),
{
    agg_name(op).is_ok() && detect_bucket_heatmap(expr).is_none() && detect_hist_quantile(
        expr,
    ).is_none()
}

fn is_range_scalar(expr: &PromExpr) -> (r: bool)
    ensures
        r == range_scalar(*expr),
    decreases expr,
{
    match expr {
        PromExpr::Number(_) => true,
        PromExpr::Paren(p) => is_range_scalar(p),
        PromExpr::Unary(u) => is_range_scalar(u),
        PromExpr::Binary { op: _, lhs, rhs, modifier: _ } => is_range_scalar(lhs)
            && is_range_scalar(rhs),
        PromExpr::Call { name, args } => match kind_of_call(name.as_str()) {
            CallKind::Scalar => true,
            CallKind::Other => false,
            _ => args.len() > 0 && is_range_scalar(&args[0]),
        },
        PromExpr::Aggregate { op, expr: inner, param: _, grouping: _ } => reduces(
            expr,
            op.as_str(),
        ) && is_range_scalar(inner),
        _ => false,
    }
}

/// The data that a range expression needs over one window of `table`.
pub fn plan_range(tables: &Vec<String>, expr: &PromExpr, win: RangeWindow, table: &str) -> (r: Needs)
    ensures
        r@ == range_needs(tables@, *expr, win, table@),
    decreases expr,
{
    match expr {
        PromExpr::Number(_) => nothing(),
        PromExpr::Paren(p) => plan_range(tables, p, win, table),
        PromExpr::Unary(u) => plan_range(tables, u, win, table),
        PromExpr::Binary { op: _, lhs, rhs, modifier } => {
            let l = plan_range(tables, lhs, win, table);
            let r = plan_range(tables, rhs, win, table);
            let both = plan_combination(is_range_scalar(lhs), is_range_scalar(rhs), modifier);
            l.before(r).before(both)
        },
        PromExpr::Call { name, args } => match kind_of_call(name.as_str()) {
            CallKind::Scalar => if args.len() == 0 {
                failed(owned("scalar() requires one argument"))
            } else {
                plan_instant(tables, &args[0], win.end, win.end)
            },
            CallKind::Other => plan_range_leaf(expr, win, table),
            _ => if args.len() < 2 {
                failed(joined(name.as_str(), "() requires two arguments"))
            } else {
                let v = plan_range(tables, &args[0], win, table);
                let bound = plan_instant(tables, &args[1], win.end, win.end);
                v.before(bound)
            },
        },
        PromExpr::Aggregate { op, expr: inner, param: _, grouping: _ } => if reduces(
            expr,
            op.as_str(),
        ) {
            plan_range(tables, inner, win, table)
        } else {
            plan_range_leaf(expr, win, table)
        },
        _ => plan_range_leaf(expr, win, table),
    }
}

} // verus!
