//! The value of an expression, once the data that it needs is there.
use crate::aggregate::{aggregate_range_series, aligned_list, series_aggregated};
use crate::classify::{agg_grouping, agg_kind, agg_name, grouping_view, AggKind};
use crate::eval::{
    call_kind, instant_leaf, instant_needs, instant_scalar, is_reduction, is_set_operation,
    kind_of_call, range_leaf, range_needs, range_scalar, reduces, CallKind, LeafView, RangeWindow,
};
use crate::grid::Point;
use crate::matching::{
    combine_instant, combine_range, instant_values_combined, ranges_combined,
    unsupported_set_operator,
};
use crate::number::Number;
use crate::operators::{binary_op, clamp_value, clamped, op_of};
use crate::promql::PromExpr;
use crate::series::{
    folds_to, instant_to_scalar, is_ordered, samples_view, series_list, series_view, vector,
    InstantVal, RangeSeries, RangeVal, Sample, Series, SeriesView,
};
use crate::text::owned;
use crate::textmap::{ascending, has_key, mapping, mapping_at, place_of, TextMap};
use vstd::prelude::*;

verus! {

/// A change of every value of a vector.
pub enum Change<V> {
    /// The sign changed.
    Negate,
    /// Floored at a bound.
    Floor(V),
    /// Capped at a bound.
    Cap(V),
}

/// Whether `x` is the changed value.
pub open spec fn changed<V: Number>(c: Change<V>, v: V, x: V) -> bool {
    match c {
        Change::Negate => call_ensures(V::negated, (v,), x),
        Change::Floor(b) => clamped(true, v, b, x),
        Change::Cap(b) => clamped(false, v, b, x),
    }
}

fn change_value<V: Number>(c: &Change<V>, v: V) -> (x: V)
    ensures
        changed(*c, v, x),
{
    match c {
        Change::Negate => V::negated(v),
        Change::Floor(b) => clamp_value(true, v, *b),
        Change::Cap(b) => clamp_value(false, v, *b),
    }
}

/// Whether the points are changed in their values alone.
pub open spec fn points_changed<V: Number>(
    c: Change<V>,
    points: Seq<Point<V>>,
    out: Seq<Point<V>>,
) -> bool {
    out.len() == points.len() && forall|i: int|
        0 <= i < points.len() ==> (#[trigger] out[i]).0 == points[i].0 && changed(
            c,
            points[i].1,
            out[i].1,
        )
}

/// Whether the series are changed in the values of their points alone.
pub open spec fn series_changed<V: Number>(
    c: Change<V>,
    s: Map<Seq<char>, SeriesView<V>>,
    out: Map<Seq<char>, SeriesView<V>>,
) -> bool {
    &&& out.dom() == s.dom()
    &&& forall|k: Seq<char>|
        #![trigger out[k]]
        s.dom().contains(k) ==> out[k].labels == s[k].labels && points_changed(
            c,
            s[k].points,
            out[k].points,
        )
}

/// Whether a range value is changed in its values alone.
pub open spec fn range_changed<V: Number>(c: Change<V>, v: RangeVal<V>, out: RangeVal<V>) -> bool {
    match (v, out) {
        (RangeVal::Scalar(a), RangeVal::Scalar(x)) => changed(c, a, x),
        (RangeVal::Vector(m), RangeVal::Vector(o)) => series_changed(
            c,
            series_view(m@),
            series_view(o@),
        ),
        _ => false,
    }
}

fn change_points<V: Number>(c: &Change<V>, points: &Vec<Point<V>>) -> (out: Vec<Point<V>>)
    ensures
        points_changed(*c, points@, out@),
{
    let mut out: Vec<Point<V>> = Vec::new();
    let mut i: usize = 0;
    while i < points.len()
        invariant
            i <= points@.len(),
            out@.len() == i,
            forall|j: int|
                0 <= j < i ==> (#[trigger] out@[j]).0 == points@[j].0 && changed(
                    *c,
                    points@[j].1,
                    out@[j].1,
                ),
        decreases points.len() - i,
    {
        let x = change_value(c, points[i].1);
        out.push((points[i].0, x));
        i = i + 1;
    }
    out
}

fn change_series<V: Number>(c: &Change<V>, m: &RangeSeries<V>) -> (out: RangeSeries<V>)
    ensures
        series_changed(*c, series_view(m@), series_view(out@)),
{
    let n: usize = m.len();
    let ghost l = m.listing();
    let mut out: RangeSeries<V> = TextMap::new();
    let mut i: usize = 0;
    while i < n
        invariant
            l == m.listing(),
            ascending(l),
            i <= n == l.len(),
            forall|k: Seq<char>| #[trigger]
                out@.dom().contains(k) <==> has_key(l.take(i as int), k),
            forall|k: Seq<char>|
                #![trigger out@[k]]
                out@.dom().contains(k) ==> out@[k].labels@ == mapping(l)[k].labels@
                    && points_changed(*c, mapping(l)[k].points@, out@[k].points@),
        decreases n - i,
    {
        let (key, item) = m.at(i);
        let s = Series { labels: item.labels.copy(), points: change_points(c, &item.points) };
        let ghost before = out@;
        out = out.with(owned(key.as_str()), s);
        proof {
            mapping_at(l, i as int);
            let seen = l.take(i as int);
            let next = l.take(i + 1);
            assert(next[i as int].0@ == key@);
            assert forall|k: Seq<char>| #[trigger]
                out@.dom().contains(k) <==> has_key(next, k) by {
                assert(before.dom().contains(k) <==> has_key(seen, k));
                if has_key(seen, k) {
                    let p = place_of(seen, k);
                    assert(next[p].0@ == k);
                }
                if has_key(next, k) && k != key@ {
                    let p = place_of(next, k);
                    assert(seen[p].0@ == k);
                }
            }
        }
        i = i + 1;
    }
    proof {
        assert(l.take(n as int) =~= l);
        let s = series_view(m@);
        let o = series_view(out@);
        assert(o.dom() =~= s.dom()) by {
            assert forall|k: Seq<char>| o.dom().contains(k) <==> s.dom().contains(k) by {
                assert(out@.dom().contains(k) <==> has_key(l, k));
            }
        }
        assert forall|k: Seq<char>|
            #![trigger o[k]]
            s.dom().contains(k) implies o[k].labels == s[k].labels && points_changed(
            *c,
            s[k].points,
            o[k].points,
        ) by {
            assert(out@.dom().contains(k));
            assert(out@[k].labels@ == o[k].labels);
        }
    }
    out
}

/// Change every value of a range value.
fn change_range<V: Number>(c: Change<V>, v: RangeVal<V>) -> (out: RangeVal<V>)
    ensures
        range_changed(c, v, out),
        is_ordered(out),
{
    match v {
        RangeVal::Scalar(a) => RangeVal::Scalar(change_value(&c, a)),
        RangeVal::Vector(m) => vector(change_series(&c, &m)),
    }
}

/// Whether an instant value is changed in its values alone.
pub open spec fn instant_changed<V: Number>(
    c: Change<V>,
    v: InstantVal<V>,
    out: InstantVal<V>,
) -> bool {
    match (v, out) {
        (InstantVal::Scalar(a), InstantVal::Scalar(x)) => changed(c, a, x),
        (InstantVal::Vector(s), InstantVal::Vector(o)) => {
            let a = samples_view(s@);
            let b = samples_view(o@);
            b.len() == a.len() && forall|i: int|
                0 <= i < a.len() ==> (#[trigger] b[i]).0 == a[i].0 && changed(c, a[i].1, b[i].1)
        },
        _ => false,
    }
}

/// Change every value of an instant value.
fn change_instant<V: Number>(c: Change<V>, v: InstantVal<V>) -> (out: InstantVal<V>)
    ensures
        instant_changed(c, v, out),
{
    match v {
        InstantVal::Scalar(a) => InstantVal::Scalar(change_value(&c, a)),
        InstantVal::Vector(s) => {
            let mut out: Vec<Sample<V>> = Vec::new();
            let mut i: usize = 0;
            while i < s.len()
                invariant
                    i <= s@.len(),
                    out@.len() == i,
                    forall|j: int|
                        0 <= j < i ==> (#[trigger] out@[j]).0@ == s@[j].0@ && changed(
                            c,
                            s@[j].1,
                            out@[j].1,
                        ),
                decreases s.len() - i,
            {
                let x = change_value(&c, s[i].1);
                out.push((s[i].0.copy(), x));
                i = i + 1;
            }
            proof {
                let a = samples_view(s@);
                let b = samples_view(out@);
                assert forall|j: int| 0 <= j < a.len() implies (#[trigger] b[j]).0 == a[j].0
                    && changed(c, a[j].1, b[j].1) by {
                    assert(out@[j].0@ == s@[j].0@);
                }
            }
            InstantVal::Vector(out)
        },
    }
}

/// The data of a leaf.
#[derive(Debug)]
pub enum LeafVal<V> {
    /// The series of a range leaf.
    Range(RangeSeries<V>),
    /// The samples of an instant leaf.
    Instant(Vec<Sample<V>>),
}

/// The number of leaves that an instant expression needs.
pub open spec fn instant_count(e: PromExpr) -> nat
    decreases e,
{
    match e {
        PromExpr::Number(_) => 0,
        PromExpr::Paren(p) => instant_count(*p),
        PromExpr::Unary(u) => instant_count(*u),
        PromExpr::Binary { op, lhs, rhs, modifier } => instant_count(*lhs) + instant_count(*rhs),
        PromExpr::Call { name, args } => match call_kind(name@) {
            CallKind::Scalar => if args@.len() == 0 {
                0
            } else {
                instant_count(args@[0])
            },
            CallKind::ClampMin | CallKind::ClampMax => if args@.len() < 2 {
                0
            } else {
                instant_count(args@[0]) + instant_count(args@[1])
            },
            CallKind::Other => 1,
        },
        _ => 1,
    }
}

/// The number of leaves that a range expression needs.
pub open spec fn range_count(e: PromExpr) -> nat
    decreases e,
{
    match e {
        PromExpr::Number(_) => 0,
        PromExpr::Paren(p) => range_count(*p),
        PromExpr::Unary(u) => range_count(*u),
        PromExpr::Binary { op, lhs, rhs, modifier } => range_count(*lhs) + range_count(*rhs),
        PromExpr::Call { name, args } => match call_kind(name@) {
            CallKind::Scalar => if args@.len() == 0 {
                0
            } else {
                instant_count(args@[0])
            },
            CallKind::ClampMin | CallKind::ClampMax => if args@.len() < 2 {
                0
            } else {
                range_count(args@[0]) + instant_count(args@[1])
            },
            CallKind::Other => 1,
        },
        PromExpr::Aggregate { op, expr, param, grouping } => if is_reduction(e) {
            range_count(*expr)
        } else {
            1
        },
        _ => 1,
    }
}

/// Whether the data suits an instant expression: there is enough of it, and each leaf
/// is of the right kind.
pub open spec fn instant_fits<V>(e: PromExpr, leaves: Seq<LeafVal<V>>) -> bool
    decreases e,
{
    match e {
        PromExpr::Number(_) => true,
        PromExpr::Paren(p) => instant_fits(*p, leaves),
        PromExpr::Unary(u) => instant_fits(*u, leaves),
        PromExpr::Binary { op, lhs, rhs, modifier } => instant_fits(*lhs, leaves) && instant_fits(
            *rhs,
            leaves.skip(instant_count(*lhs) as int),
        ),
        PromExpr::Call { name, args } => match call_kind(name@) {
            CallKind::Scalar => args@.len() > 0 && instant_fits(args@[0], leaves),
            CallKind::ClampMin | CallKind::ClampMax => args@.len() >= 2 && instant_fits(
                args@[0],
                leaves,
            ) && instant_fits(args@[1], leaves.skip(instant_count(args@[0]) as int)),
            CallKind::Other => leaves.len() > 0 && leaves[0] is Instant,
        },
        _ => leaves.len() > 0 && leaves[0] is Instant,
    }
}

/// Whether the data suits a range expression.
pub open spec fn range_fits<V>(e: PromExpr, leaves: Seq<LeafVal<V>>) -> bool
    decreases e,
{
    match e {
        PromExpr::Number(_) => true,
        PromExpr::Paren(p) => range_fits(*p, leaves),
        PromExpr::Unary(u) => range_fits(*u, leaves),
        PromExpr::Binary { op, lhs, rhs, modifier } => range_fits(*lhs, leaves) && range_fits(
            *rhs,
            leaves.skip(range_count(*lhs) as int),
        ),
        PromExpr::Call { name, args } => match call_kind(name@) {
            CallKind::Scalar => args@.len() > 0 && instant_fits(args@[0], leaves),
            CallKind::ClampMin | CallKind::ClampMax => args@.len() >= 2 && range_fits(
                args@[0],
                leaves,
            ) && instant_fits(args@[1], leaves.skip(range_count(args@[0]) as int)),
            CallKind::Other => leaves.len() > 0 && leaves[0] is Range,
        },
        PromExpr::Aggregate { op, expr, param, grouping } => if is_reduction(e) {
            range_fits(*expr, leaves)
        } else {
            leaves.len() > 0 && leaves[0] is Range
        },
        _ => leaves.len() > 0 && leaves[0] is Range,
    }
}

/// Whether a set operator between two vectors occurs in the evaluation of an instant
/// expression.
pub open spec fn instant_refused(e: PromExpr) -> bool
    decreases e,
{
    match e {
        PromExpr::Paren(p) => instant_refused(*p),
        PromExpr::Unary(u) => instant_refused(*u),
        PromExpr::Binary { op, lhs, rhs, modifier } => instant_refused(*lhs) || instant_refused(
            *rhs,
        ) || is_set_operation(
            instant_scalar(*lhs),
            instant_scalar(*rhs),
            modifier,
        ),
        PromExpr::Call { name, args } => match call_kind(name@) {
            CallKind::Scalar => args@.len() > 0 && instant_refused(args@[0]),
            CallKind::ClampMin | CallKind::ClampMax => args@.len() >= 2 && (instant_refused(
                args@[0],
            ) || instant_refused(args@[1])),
            CallKind::Other => false,
        },
        _ => false,
    }
}

/// Whether a set operator between two vectors occurs in the evaluation of a range
/// expression.
pub open spec fn range_refused(e: PromExpr) -> bool
    decreases e,
{
    match e {
        PromExpr::Paren(p) => range_refused(*p),
        PromExpr::Unary(u) => range_refused(*u),
        PromExpr::Binary { op, lhs, rhs, modifier } => range_refused(*lhs) || range_refused(*rhs)
            || is_set_operation(range_scalar(*lhs), range_scalar(*rhs), modifier),
        PromExpr::Call { name, args } => match call_kind(name@) {
            CallKind::Scalar => args@.len() > 0 && instant_refused(args@[0]),
            CallKind::ClampMin | CallKind::ClampMax => args@.len() >= 2 && (range_refused(args@[0])
                || instant_refused(args@[1])),
            CallKind::Other => false,
        },
        PromExpr::Aggregate { op, expr, param, grouping } => is_reduction(e) && range_refused(*expr),
        _ => false,
    }
}

/// Whether `out` is the scalar that an instant value folds to.
pub open spec fn folds_to_instant<V: Number>(v: InstantVal<V>, out: InstantVal<V>) -> bool {
    match out {
        InstantVal::Scalar(x) => folds_to(v, x),
        InstantVal::Vector(_) => false,
    }
}

/// Whether `out` is the scalar that an instant value folds to.
pub open spec fn folds_to_range<V: Number>(v: InstantVal<V>, out: RangeVal<V>) -> bool {
    match out {
        RangeVal::Scalar(x) => folds_to(v, x),
        RangeVal::Vector(_) => false,
    }
}

/// Whether `out` is the value of an instant expression over its data.
pub open spec fn instant_value<V: Number>(
    e: PromExpr,
    leaves: Seq<LeafVal<V>>,
    out: InstantVal<V>,
) -> bool
    decreases e,
{
    match e {
        PromExpr::Number(bits) => match out {
            InstantVal::Scalar(x) => call_ensures(V::of_bits, (bits,), x),
            InstantVal::Vector(_) => false,
        },
        PromExpr::Paren(p) => instant_value(*p, leaves, out),
        PromExpr::Unary(u) => exists|v: InstantVal<V>|
            instant_value(*u, leaves, v) && #[trigger] instant_changed(Change::Negate, v, out),
        PromExpr::Binary { op, lhs, rhs, modifier } => exists|l: InstantVal<V>, r: InstantVal<V>|
            instant_value(*lhs, leaves, l) && instant_value(
                *rhs,
                leaves.skip(instant_count(*lhs) as int),
                r,
            ) && #[trigger] instant_values_combined(op_of(op@), l, r, modifier, out),
        PromExpr::Call { name, args } => match call_kind(name@) {
            CallKind::Scalar => exists|v: InstantVal<V>|
                args@.len() > 0 && instant_value(args@[0], leaves, v) && #[trigger] folds_to_instant(
                    v,
                    out,
                ),
            CallKind::ClampMin => exists|v: InstantVal<V>, b: InstantVal<V>, x: V|
                args@.len() >= 2 && instant_value(args@[0], leaves, v) && instant_value(
                    args@[1],
                    leaves.skip(instant_count(args@[0]) as int),
                    b,
                ) && #[trigger] folds_to(b, x) && #[trigger] instant_changed(
                    Change::Floor(x),
                    v,
                    out,
                ),
            CallKind::ClampMax => exists|v: InstantVal<V>, b: InstantVal<V>, x: V|
                args@.len() >= 2 && instant_value(args@[0], leaves, v) && instant_value(
                    args@[1],
                    leaves.skip(instant_count(args@[0]) as int),
                    b,
                ) && #[trigger] folds_to(b, x) && #[trigger] instant_changed(
                    Change::Cap(x),
                    v,
                    out,
                ),
            CallKind::Other => instant_leaf_value(leaves, out),
        },
        _ => instant_leaf_value(leaves, out),
    }
}

/// Whether `out` is the first of the leaves.
pub open spec fn instant_leaf_value<V>(leaves: Seq<LeafVal<V>>, out: InstantVal<V>) -> bool {
    leaves.len() > 0 && match (leaves[0], out) {
        (LeafVal::Instant(s), InstantVal::Vector(o)) => o == s,
        _ => false,
    }
}

/// Whether `out` is the first of the leaves.
pub open spec fn range_leaf_value<V>(leaves: Seq<LeafVal<V>>, out: RangeVal<V>) -> bool {
    leaves.len() > 0 && match (leaves[0], out) {
        (LeafVal::Range(m), RangeVal::Vector(o)) => o == m,
        _ => false,
    }
}

/// Whether `out` is the aggregation of a range value on the grid: a scalar has no
/// series to reduce.
pub open spec fn range_reduced<V: Number>(
    op: Seq<char>,
    grouping: Option<crate::promql::Grouping>,
    win: RangeWindow,
    step: i64,
    v: RangeVal<V>,
    out: RangeVal<V>,
) -> bool {
    match (v, out) {
        (RangeVal::Scalar(a), RangeVal::Scalar(x)) => x == a,
        (RangeVal::Vector(m), RangeVal::Vector(o)) => agg_kind(op) is Some && series_aggregated(
            agg_kind(op)->0,
            grouping_view(grouping),
            aligned_list(
                series_list(m.listing()),
                win.start as int,
                win.end as int,
                step as int,
            ),
            series_view(o@),
        ),
        _ => false,
    }
}

/// Whether `out` is the value of a range expression over its data, on a window and a
/// step.
pub open spec fn range_value<V: Number>(
    e: PromExpr,
    win: RangeWindow,
    step: i64,
    leaves: Seq<LeafVal<V>>,
    out: RangeVal<V>,
) -> bool
    decreases e,
{
    is_ordered(out) && match e {
        PromExpr::Number(bits) => match out {
            RangeVal::Scalar(x) => call_ensures(V::of_bits, (bits,), x),
            RangeVal::Vector(_) => false,
        },
        PromExpr::Paren(p) => range_value(*p, win, step, leaves, out),
        PromExpr::Unary(u) => exists|v: RangeVal<V>|
            range_value(*u, win, step, leaves, v) && #[trigger] range_changed(
                Change::Negate,
                v,
                out,
            ),
        PromExpr::Binary { op, lhs, rhs, modifier } => exists|l: RangeVal<V>, r: RangeVal<V>|
            range_value(*lhs, win, step, leaves, l) && range_value(
                *rhs,
                win,
                step,
                leaves.skip(range_count(*lhs) as int),
                r,
            ) && #[trigger] ranges_combined(op_of(op@), l, r, modifier, out),
        PromExpr::Call { name, args } => match call_kind(name@) {
            CallKind::Scalar => exists|v: InstantVal<V>|
                args@.len() > 0 && instant_value(args@[0], leaves, v) && #[trigger] folds_to_range(
                    v,
                    out,
                ),
            CallKind::ClampMin => exists|v: RangeVal<V>, b: InstantVal<V>, x: V|
                args@.len() >= 2 && range_value(args@[0], win, step, leaves, v) && instant_value(
                    args@[1],
                    leaves.skip(range_count(args@[0]) as int),
                    b,
                ) && #[trigger] folds_to(b, x) && #[trigger] range_changed(
                    Change::Floor(x),
                    v,
                    out,
                ),
            CallKind::ClampMax => exists|v: RangeVal<V>, b: InstantVal<V>, x: V|
                args@.len() >= 2 && range_value(args@[0], win, step, leaves, v) && instant_value(
                    args@[1],
                    leaves.skip(range_count(args@[0]) as int),
                    b,
                ) && #[trigger] folds_to(b, x) && #[trigger] range_changed(Change::Cap(x), v, out),
            CallKind::Other => range_leaf_value(leaves, out),
        },
        PromExpr::Aggregate { op, expr, param, grouping } => if is_reduction(e) {
            exists|v: RangeVal<V>|
                range_value(*expr, win, step, leaves, v) && #[trigger] range_reduced(
                    op@,
                    grouping,
                    win,
                    step,
                    v,
                    out,
                )
        } else {
            range_leaf_value(leaves, out)
        },
        _ => range_leaf_value(leaves, out),
    }
}

/// What is said where data is missing.
pub open spec fn missing_data() -> Seq<char> {
    "evaluation is missing data"@
}

/// What the evaluation of an instant expression fails with: the first that is met, in
/// the order of evaluation, of missing data and a set operator between two vectors.
pub open spec fn instant_failure<V>(e: PromExpr, leaves: Seq<LeafVal<V>>) -> Option<Seq<char>>
    decreases e,
{
    match e {
        PromExpr::Number(_) => None,
        PromExpr::Paren(p) => instant_failure(*p, leaves),
        PromExpr::Unary(u) => instant_failure(*u, leaves),
        PromExpr::Binary { op, lhs, rhs, modifier } => match instant_failure(*lhs, leaves) {
            Some(m) => Some(m),
            None => match instant_failure(*rhs, leaves.skip(instant_count(*lhs) as int)) {
                Some(m) => Some(m),
                None => if is_set_operation(instant_scalar(*lhs), instant_scalar(*rhs), modifier) {
                    Some(unsupported_set_operator())
                } else {
                    None
                },
            },
        },
        PromExpr::Call { name, args } => match call_kind(name@) {
            CallKind::Scalar => if args@.len() == 0 {
                Some(missing_data())
            } else {
                instant_failure(args@[0], leaves)
            },
            CallKind::ClampMin | CallKind::ClampMax => if args@.len() < 2 {
                Some(missing_data())
            } else {
                match instant_failure(args@[0], leaves) {
                    Some(m) => Some(m),
                    None => instant_failure(args@[1], leaves.skip(instant_count(args@[0]) as int)),
                }
            },
            CallKind::Other => next_failure(leaves.len() > 0 && leaves[0] is Instant),
        },
        _ => next_failure(leaves.len() > 0 && leaves[0] is Instant),
    }
}

/// What the reading of the next leaf fails with.
pub open spec fn next_failure(suited: bool) -> Option<Seq<char>> {
    if suited {
        None
    } else {
        Some(missing_data())
    }
}

/// What the evaluation of a range expression fails with: the first that is met, in the
/// order of evaluation, of missing data and a set operator between two vectors.
pub open spec fn range_failure<V>(e: PromExpr, leaves: Seq<LeafVal<V>>) -> Option<Seq<char>>
    decreases e,
{
    match e {
        PromExpr::Number(_) => None,
        PromExpr::Paren(p) => range_failure(*p, leaves),
        PromExpr::Unary(u) => range_failure(*u, leaves),
        PromExpr::Binary { op, lhs, rhs, modifier } => match range_failure(*lhs, leaves) {
            Some(m) => Some(m),
            None => match range_failure(*rhs, leaves.skip(range_count(*lhs) as int)) {
                Some(m) => Some(m),
                None => if is_set_operation(range_scalar(*lhs), range_scalar(*rhs), modifier) {
                    Some(unsupported_set_operator())
                } else {
                    None
                },
            },
        },
        PromExpr::Call { name, args } => match call_kind(name@) {
            CallKind::Scalar => if args@.len() == 0 {
                Some(missing_data())
            } else {
                instant_failure(args@[0], leaves)
            },
            CallKind::ClampMin | CallKind::ClampMax => if args@.len() < 2 {
                Some(missing_data())
            } else {
                match range_failure(args@[0], leaves) {
                    Some(m) => Some(m),
                    None => instant_failure(args@[1], leaves.skip(range_count(args@[0]) as int)),
                }
            },
            CallKind::Other => next_failure(leaves.len() > 0 && leaves[0] is Range),
        },
        PromExpr::Aggregate { op, expr, param, grouping } => if is_reduction(e) {
            range_failure(*expr, leaves)
        } else {
            next_failure(leaves.len() > 0 && leaves[0] is Range)
        },
        _ => next_failure(leaves.len() > 0 && leaves[0] is Range),
    }
}

fn missing() -> (r: String)
    ensures
        r@ == missing_data(),
{
    owned("evaluation is missing data")
}

/// The leaves that are left, in the order of evaluation; the next one stands last.
spec fn queue<V>(stack: Seq<LeafVal<V>>) -> Seq<LeafVal<V>> {
    stack.reverse()
}

proof fn queue_pops<V>(stack: Seq<LeafVal<V>>)
    requires
        stack.len() > 0,
    ensures
        queue(stack)[0] == stack.last(),
        queue(stack.drop_last()) == queue(stack).skip(1),
{
    assert(queue(stack.drop_last()) =~= queue(stack).skip(1));
}

proof fn queue_skips<V>(s: Seq<LeafVal<V>>, a: int, b: int)
    requires
        0 <= a,
        0 <= b,
        a + b <= s.len(),
    ensures
        s.skip(a).skip(b) == s.skip(a + b),
{
    assert(s.skip(a).skip(b) =~= s.skip(a + b));
}

fn take_instant<V: Number>(stack: &mut Vec<LeafVal<V>>) -> (r: Result<InstantVal<V>, String>)
    ensures
        r is Ok <==> queue(old(stack)@).len() > 0 && queue(old(stack)@)[0] is Instant,
        r matches Err(m) ==> m@ == missing_data(),
        r matches Ok(v) ==> instant_leaf_value(queue(old(stack)@), v) && v is Vector
            && queue(final(stack)@) == queue(old(stack)@).skip(1),
{
    let ghost before = stack@;
    match stack.pop() {
        Some(LeafVal::Instant(s)) => {
            proof {
                queue_pops(before);
            }
            Ok(InstantVal::Vector(s))
        },
        Some(LeafVal::Range(_)) => {
            proof {
                queue_pops(before);
            }
            Err(missing())
        },
        None => Err(missing()),
    }
}

fn take_range<V: Number>(stack: &mut Vec<LeafVal<V>>) -> (r: Result<RangeVal<V>, String>)
    ensures
        r is Ok <==> queue(old(stack)@).len() > 0 && queue(old(stack)@)[0] is Range,
        r matches Err(m) ==> m@ == missing_data(),
        r matches Ok(v) ==> is_ordered(v),
        r matches Ok(v) ==> range_leaf_value(queue(old(stack)@), v) && v is Vector && queue(
            final(stack)@,
        ) == queue(old(stack)@).skip(1),
{
    let ghost before = stack@;
    match stack.pop() {
        Some(LeafVal::Range(m)) => {
            proof {
                queue_pops(before);
            }
            Ok(vector(m))
        },
        Some(LeafVal::Instant(_)) => {
            proof {
                queue_pops(before);
            }
            Err(missing())
        },
        None => Err(missing()),
    }
}

fn instant_from<V: Number>(expr: &PromExpr, stack: &mut Vec<LeafVal<V>>) -> (r: Result<
    InstantVal<V>,
    String,
>)
    ensures
        r is Ok <==> instant_fits(*expr, queue(old(stack)@)) && !instant_refused(*expr),
        r matches Ok(v) ==> instant_count(*expr) <= old(stack)@.len() && queue(final(stack)@)
            == queue(old(stack)@).skip(instant_count(*expr) as int),
        r matches Ok(v) ==> instant_value(*expr, queue(old(stack)@), v),
        r matches Ok(v) ==> (v is Scalar <==> instant_scalar(*expr)),
        r matches Err(m) ==> instant_fits(*expr, queue(old(stack)@)) ==> m@
            == unsupported_set_operator(),
        r is Ok <==> instant_failure(*expr, queue(old(stack)@)) is None,
        r matches Err(m) ==> instant_failure(*expr, queue(old(stack)@)) == Some(m@),
    decreases expr,
{
    let ghost leaves = queue(stack@);
    match expr {
        PromExpr::Number(bits) => {
            let x = V::of_bits(*bits);
            assert(leaves.skip(0) =~= leaves);
            Ok(InstantVal::Scalar(x))
        },
        PromExpr::Paren(p) => instant_from(p, stack),
        PromExpr::Unary(u) => match instant_from(u, stack) {
            Ok(v) => Ok(change_instant(Change::Negate, v)),
            Err(m) => Err(m),
        },
        PromExpr::Binary { op, lhs, rhs, modifier } => {
            let l = match instant_from(lhs, stack) {
                Ok(v) => v,
                Err(m) => return Err(m),
            };
            let r = match instant_from(rhs, stack) {
                Ok(v) => v,
                Err(m) => return Err(m),
            };
            proof {
                queue_skips(leaves, instant_count(**lhs) as int, instant_count(**rhs) as int);
            }
            combine_instant(binary_op(op.as_str()), l, r, modifier)
        },
        PromExpr::Call { name, args } => match kind_of_call(name.as_str()) {
            CallKind::Scalar => {
                if args.len() == 0 {
                    return Err(missing());
                }
                match instant_from(&args[0], stack) {
                    Ok(v) => {
                        let x = instant_to_scalar(&v);
                        let out = InstantVal::Scalar(x);
                        assert(folds_to_instant(v, out));
                        Ok(out)
                    },
                    Err(m) => Err(m),
                }
            },
            CallKind::Other => take_instant(stack),
            kind => {
                if args.len() < 2 {
                    return Err(missing());
                }
                let v = match instant_from(&args[0], stack) {
                    Ok(v) => v,
                    Err(m) => return Err(m),
                };
                let b = match instant_from(&args[1], stack) {
                    Ok(v) => v,
                    Err(m) => return Err(m),
                };
                let x = instant_to_scalar(&b);
                proof {
                    assert(folds_to(b, x));
                    queue_skips(
                        leaves,
                        instant_count(args@[0]) as int,
                        instant_count(args@[1]) as int,
                    );
                }
                if kind == CallKind::ClampMin {
                    Ok(change_instant(Change::Floor(x), v))
                } else {
                    Ok(change_instant(Change::Cap(x), v))
                }
            },
        },
        _ => take_instant(stack),
    }
}

fn reduce_range<V: Number>(
    op: &str,
    k: AggKind,
    grouping: &Option<crate::promql::Grouping>,
    win: RangeWindow,
    step_ns: i64,
    v: RangeVal<V>,
) -> (out: RangeVal<V>)
    requires
        agg_kind(op@) == Some(k),
    ensures
        range_reduced(op@, *grouping, win, step_ns, v, out),
        out is Scalar <==> v is Scalar,
        is_ordered(out),
{
    match v {
        RangeVal::Scalar(a) => RangeVal::Scalar(a),
        RangeVal::Vector(m) => {
            let by = agg_grouping(grouping);
            vector(aggregate_range_series(k, &by, &m, win.start, win.end, step_ns))
        },
    }
}

fn range_from<V: Number>(
    expr: &PromExpr,
    win: RangeWindow,
    step_ns: i64,
    stack: &mut Vec<LeafVal<V>>,
) -> (r: Result<RangeVal<V>, String>)
    ensures
        r is Ok <==> range_fits(*expr, queue(old(stack)@)) && !range_refused(*expr),
        r matches Ok(v) ==> range_count(*expr) <= old(stack)@.len() && queue(final(stack)@)
            == queue(old(stack)@).skip(range_count(*expr) as int),
        r matches Ok(v) ==> range_value(*expr, win, step_ns, queue(old(stack)@), v),
        r matches Ok(v) ==> (v is Scalar <==> range_scalar(*expr)),
        r matches Err(m) ==> range_fits(*expr, queue(old(stack)@)) ==> m@
            == unsupported_set_operator(),
        r is Ok <==> range_failure(*expr, queue(old(stack)@)) is None,
        r matches Err(m) ==> range_failure(*expr, queue(old(stack)@)) == Some(m@),
    decreases expr,
{
    let ghost leaves = queue(stack@);
    match expr {
        PromExpr::Number(bits) => {
            let x = V::of_bits(*bits);
            assert(leaves.skip(0) =~= leaves);
            Ok(RangeVal::Scalar(x))
        },
        PromExpr::Paren(p) => range_from(p, win, step_ns, stack),
        PromExpr::Unary(u) => match range_from(u, win, step_ns, stack) {
            Ok(v) => Ok(change_range(Change::Negate, v)),
            Err(m) => Err(m),
        },
        PromExpr::Binary { op, lhs, rhs, modifier } => {
            let l = match range_from(lhs, win, step_ns, stack) {
                Ok(v) => v,
                Err(m) => return Err(m),
            };
            let r = match range_from(rhs, win, step_ns, stack) {
                Ok(v) => v,
                Err(m) => return Err(m),
            };
            proof {
                queue_skips(leaves, range_count(**lhs) as int, range_count(**rhs) as int);
            }
            combine_range(binary_op(op.as_str()), l, r, modifier)
        },
        PromExpr::Call { name, args } => match kind_of_call(name.as_str()) {
            CallKind::Scalar => {
                if args.len() == 0 {
                    return Err(missing());
                }
                match instant_from(&args[0], stack) {
                    Ok(v) => {
                        let x = instant_to_scalar(&v);
                        let out = RangeVal::Scalar(x);
                        assert(folds_to_range(v, out));
                        Ok(out)
                    },
                    Err(m) => Err(m),
                }
            },
            CallKind::Other => take_range(stack),
            kind => {
                if args.len() < 2 {
                    return Err(missing());
                }
                let v = match range_from(&args[0], win, step_ns, stack) {
                    Ok(v) => v,
                    Err(m) => return Err(m),
                };
                let b = match instant_from(&args[1], stack) {
                    Ok(v) => v,
                    Err(m) => return Err(m),
                };
                let x = instant_to_scalar(&b);
                proof {
                    assert(folds_to(b, x));
                    queue_skips(
                        leaves,
                        range_count(args@[0]) as int,
                        instant_count(args@[1]) as int,
                    );
                }
                if kind == CallKind::ClampMin {
                    Ok(change_range(Change::Floor(x), v))
                } else {
                    Ok(change_range(Change::Cap(x), v))
                }
            },
        },
        PromExpr::Aggregate { op, expr: inner, param: _, grouping } => {
            if !reduces(expr, op.as_str()) {
                return take_range(stack);
            }
            let k = match agg_name(op.as_str()) {
                Ok(k) => k,
                Err(m) => return Err(m),
            };
            match range_from(inner, win, step_ns, stack) {
                Ok(v) => Ok(reduce_range(op.as_str(), k, grouping, win, step_ns, v)),
                Err(m) => Err(m),
            }
        },
        _ => take_range(stack),
    }
}

fn reversed<V>(leaves: Vec<LeafVal<V>>) -> (r: Vec<LeafVal<V>>)
    ensures
        queue(r@) == leaves@,
{
    let mut left = leaves;
    let mut r: Vec<LeafVal<V>> = Vec::new();
    let ghost all = leaves@;
    while left.len() > 0
        invariant
            left@.len() + r@.len() == all.len(),
            left@ == all.take(left@.len() as int),
            r@ == all.skip(left@.len() as int).reverse(),
        decreases left.len(),
    {
        let ghost before = r@;
        let ghost n = left@.len() as int;
        match left.pop() {
            Some(x) => {
                r.push(x);
                proof {
                    assert(left@ =~= all.take(n - 1));
                    assert(r@ =~= all.skip(n - 1).reverse());
                }
            },
            None => {},
        }
    }
    assert(queue(r@) =~= all);
    r
}

/// The value of a range expression over one window, from the data of its leaves in
/// the order in which [`crate::eval::plan_range`] gave them. A set operator between
/// two vectors is refused.
pub fn eval_range_window<V: Number>(
    expr: &PromExpr,
    win: RangeWindow,
    step_ns: i64,
    leaves: Vec<LeafVal<V>>,
) -> (r: Result<RangeVal<V>, String>)
    ensures
        r is Ok <==> range_fits(*expr, leaves@) && !range_refused(*expr),
        r matches Ok(v) ==> range_value(*expr, win, step_ns, leaves@, v),
        r matches Ok(v) ==> (v is Scalar <==> range_scalar(*expr)),
        r matches Err(m) ==> range_fits(*expr, leaves@) ==> m@ == unsupported_set_operator(),
        r matches Err(m) ==> range_failure(*expr, leaves@) == Some(m@),
{
    let mut stack = reversed(leaves);
    range_from(expr, win, step_ns, &mut stack)
}

/// The value of an instant expression, from the data of its leaves in the order in
/// which [`crate::eval::plan_instant`] gave them. A set operator between two vectors
/// is refused.
pub fn eval_instant<V: Number>(expr: &PromExpr, leaves: Vec<LeafVal<V>>) -> (r: Result<
    InstantVal<V>,
    String,
>)
    ensures
        r is Ok <==> instant_fits(*expr, leaves@) && !instant_refused(*expr),
        r matches Ok(v) ==> instant_value(*expr, leaves@, v),
        r matches Ok(v) ==> (v is Scalar <==> instant_scalar(*expr)),
        r matches Err(m) ==> instant_fits(*expr, leaves@) ==> m@ == unsupported_set_operator(),
        r matches Err(m) ==> instant_failure(*expr, leaves@) == Some(m@),
{
    let mut stack = reversed(leaves);
    instant_from(expr, &mut stack)
}

/// Whether the data of a leaf is of the kind that the leaf asks for.
pub open spec fn suits<V>(leaf: LeafView, data: LeafVal<V>) -> bool {
    match leaf {
        LeafView::Quantile(_) | LeafView::Heatmap(_) | LeafView::Range(_) => data is Range,
        LeafView::Instant(_) | LeafView::InstantQuantile(..) => data is Instant,
    }
}

/// Whether there is data for some leaves, in their order.
pub open spec fn answered<V>(leaves: Seq<LeafView>, data: Seq<LeafVal<V>>) -> bool {
    data.len() >= leaves.len() && forall|i: int|
        0 <= i < leaves.len() ==> suits(leaves[i], #[trigger] data[i])
}

proof fn answered_in_turn<V>(a: Seq<LeafView>, b: Seq<LeafView>, data: Seq<LeafVal<V>>)
    requires
        answered(a + b, data),
    ensures
        answered(a, data),
        answered(b, data.skip(a.len() as int)),
{
    assert forall|i: int| 0 <= i < a.len() implies suits(a[i], #[trigger] data[i]) by {
        assert((a + b)[i] == a[i]);
    }
    let rest = data.skip(a.len() as int);
    assert forall|i: int| 0 <= i < b.len() implies suits(b[i], #[trigger] rest[i]) by {
        assert((a + b)[a.len() + i] == b[i]);
        assert(rest[i] == data[a.len() + i]);
    }
}

/// Where an instant expression can be planned, its evaluation takes as many leaves as
/// were planned, and with data for these it succeeds.
pub proof fn instant_plans_fit<V>(
    tables: Seq<String>,
    e: PromExpr,
    time: i64,
    now: i64,
    data: Seq<LeafVal<V>>,
)
    requires
        instant_needs(tables, e, time, now).error is None,
    ensures
        instant_needs(tables, e, time, now).leaves.len() == instant_count(e),
        answered(instant_needs(tables, e, time, now).leaves, data) ==> instant_fits(e, data),
        !instant_refused(e),
    decreases e,
{
    let needs = instant_needs(tables, e, time, now);
    match e {
        PromExpr::Number(_) => {},
        PromExpr::Paren(p) => {
            instant_plans_fit(tables, *p, time, now, data);
        },
        PromExpr::Unary(u) => {
            instant_plans_fit(tables, *u, time, now, data);
        },
        PromExpr::Binary { op, lhs, rhs, modifier } => {
            let a = instant_needs(tables, *lhs, time, now);
            let b = instant_needs(tables, *rhs, time, now);
            assert(needs.leaves =~= a.leaves + b.leaves);
            let rest = data.skip(a.leaves.len() as int);
            instant_plans_fit(tables, *lhs, time, now, data);
            instant_plans_fit(tables, *rhs, time, now, rest);
            if answered(needs.leaves, data) {
                answered_in_turn(a.leaves, b.leaves, data);
            }
        },
        PromExpr::Call { name, args } => {
            match call_kind(name@) {
                CallKind::Scalar => {
                    instant_plans_fit(tables, args@[0], time, now, data);
                },
                CallKind::ClampMin | CallKind::ClampMax => {
                    let a = instant_needs(tables, args@[0], time, now);
                    let b = instant_needs(tables, args@[1], time, now);
                    let rest = data.skip(a.leaves.len() as int);
                    instant_plans_fit(tables, args@[0], time, now, data);
                    instant_plans_fit(tables, args@[1], time, now, rest);
                    if answered(needs.leaves, data) {
                        answered_in_turn(a.leaves, b.leaves, data);
                    }
                },
                CallKind::Other => {
                    one_instant_leaf_fits(tables, e, time, now, data);
                },
            }
        },
        _ => {
            one_instant_leaf_fits(tables, e, time, now, data);
        },
    }
}

proof fn one_instant_leaf_fits<V>(
    tables: Seq<String>,
    e: PromExpr,
    time: i64,
    now: i64,
    data: Seq<LeafVal<V>>,
)
    requires
        instant_leaf(tables, e, time, now).error is None,
    ensures
        instant_leaf(tables, e, time, now).leaves.len() == 1,
        answered(instant_leaf(tables, e, time, now).leaves, data) ==> data.len() > 0
            && data[0] is Instant,
{
    let l = instant_leaf(tables, e, time, now).leaves;
    if answered(l, data) {
        assert(suits(l[0], data[0]));
    }
}

proof fn one_range_leaf_fits<V>(
    e: PromExpr,
    win: RangeWindow,
    table: Seq<char>,
    data: Seq<LeafVal<V>>,
)
    requires
        range_leaf(e, win, table).error is None,
    ensures
        range_leaf(e, win, table).leaves.len() == 1,
        answered(range_leaf(e, win, table).leaves, data) ==> data.len() > 0 && data[0] is Range,
{
    let l = range_leaf(e, win, table).leaves;
    if answered(l, data) {
        assert(suits(l[0], data[0]));
    }
}

/// Where a range expression can be planned, its evaluation takes as many leaves as were
/// planned, and with data for these it succeeds.
pub proof fn range_plans_fit<V>(
    tables: Seq<String>,
    e: PromExpr,
    win: RangeWindow,
    table: Seq<char>,
    data: Seq<LeafVal<V>>,
)
    requires
        range_needs(tables, e, win, table).error is None,
    ensures
        range_needs(tables, e, win, table).leaves.len() == range_count(e),
        answered(range_needs(tables, e, win, table).leaves, data) ==> range_fits(e, data),
        !range_refused(e),
    decreases e,
{
    let needs = range_needs(tables, e, win, table);
    match e {
        PromExpr::Number(_) => {},
        PromExpr::Paren(p) => {
            range_plans_fit(tables, *p, win, table, data);
        },
        PromExpr::Unary(u) => {
            range_plans_fit(tables, *u, win, table, data);
        },
        PromExpr::Binary { op, lhs, rhs, modifier } => {
            let a = range_needs(tables, *lhs, win, table);
            let b = range_needs(tables, *rhs, win, table);
            assert(needs.leaves =~= a.leaves + b.leaves);
            let rest = data.skip(a.leaves.len() as int);
            range_plans_fit(tables, *lhs, win, table, data);
            range_plans_fit(tables, *rhs, win, table, rest);
            if answered(needs.leaves, data) {
                answered_in_turn(a.leaves, b.leaves, data);
            }
        },
        PromExpr::Call { name, args } => {
            match call_kind(name@) {
                CallKind::Scalar => {
                    instant_plans_fit(tables, args@[0], win.end, win.end, data);
                },
                CallKind::ClampMin | CallKind::ClampMax => {
                    let a = range_needs(tables, args@[0], win, table);
                    let b = instant_needs(tables, args@[1], win.end, win.end);
                    let rest = data.skip(a.leaves.len() as int);
                    range_plans_fit(tables, args@[0], win, table, data);
                    instant_plans_fit(tables, args@[1], win.end, win.end, rest);
                    if answered(needs.leaves, data) {
                        answered_in_turn(a.leaves, b.leaves, data);
                    }
                },
                CallKind::Other => {
                    one_range_leaf_fits(e, win, table, data);
                },
            }
        },
        PromExpr::Aggregate { op, expr, param, grouping } => {
            if is_reduction(e) {
                range_plans_fit(tables, *expr, win, table, data);
            } else {
                one_range_leaf_fits(e, win, table, data);
            }
        },
        _ => {
            one_range_leaf_fits(e, win, table, data);
        },
    }
}

} // verus!
