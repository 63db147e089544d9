//! Laws of evaluation over several runs. Where the operations on values are functions, an
//! expression has one value over its data.
use crate::aggregate::{
    aggregated, capped, contributions, folded, group_labels, group_points, series_aggregated,
};
use crate::classify::AggKind;
use crate::eval::{call_kind, is_reduction, CallKind, RangeWindow};
use crate::evaluate::{
    changed, folds_to_instant, folds_to_range, instant_changed, instant_count, instant_failure,
    instant_value, points_changed, range_changed, range_count, range_failure, range_reduced,
    range_value, series_changed, Change, LeafVal,
};
use crate::grid::{ascending_ints_are_unique, has_time, times_ascend, Point};
use crate::labels::KindView;
use crate::matching::{
    card_of, instant_values_combined, kind_of, labels_of, matched, matched_instant, matched_parts,
    matched_samples, matched_series, ranges_combined,
    pair_applied, pair_points_are, pair_results, partner_from, present, scalar_applied,
    scalar_instant, scalar_parts, scalar_points_are, scalar_results, scalar_samples,
    scalar_series, scalar_vector, with_results, CardView,
};
use crate::number::{Arithmetic, Comparison, Number};
use crate::operators::{
    applied, calculated, compared, counted, op_of, reduced, reduction, scalars_combined, BinaryOp,
};
use crate::promql::{BinaryModifier, PromExpr};
use crate::series::{
    folds_to, gathered, is_ordered, samples_view, series_list, series_view, InstantVal, LabelMap,
    RangeSeries, RangeVal, SeriesView,
};
use crate::textmap::{has_key, mapping_at, same_keys_same_places};
use vstd::prelude::*;

verus! {

/// Whether the operations on values are functions: on the same operands they give the
/// same result.
pub open spec fn single_valued<V: Number>() -> bool {
    &&& forall|op: Arithmetic, l: V, r: V, x: V, y: V| #[trigger]
        calculated(op, l, r, x) && #[trigger] calculated(op, l, r, y) ==> x == y
    &&& forall|op: Comparison, l: V, r: V, x: bool, y: bool| #[trigger]
        compared(op, l, r, x) && #[trigger] compared(op, l, r, y) ==> x == y
    &&& forall|n: u64, x: V, y: V| #[trigger] counted(n, x) && #[trigger] counted(n, y) ==> x == y
    &&& forall|l: V, r: V, x: V, y: V| #[trigger]
        call_ensures(V::least, (l, r), x) && #[trigger] call_ensures(V::least, (l, r), y) ==> x == y
    &&& forall|l: V, r: V, x: V, y: V| #[trigger]
        call_ensures(V::greatest, (l, r), x) && #[trigger] call_ensures(V::greatest, (l, r), y)
            ==> x == y
    &&& forall|v: V, x: V, y: V| #[trigger]
        call_ensures(V::negated, (v,), x) && #[trigger] call_ensures(V::negated, (v,), y) ==> x == y
    &&& forall|bits: u64, x: V, y: V| #[trigger]
        call_ensures(V::of_bits, (bits,), x) && #[trigger] call_ensures(V::of_bits, (bits,), y)
            ==> x == y
    &&& forall|x: V, y: V| #[trigger]
        call_ensures(V::undefined, (), x) && #[trigger] call_ensures(V::undefined, (), y) ==> x == y
}

proof fn applied_once<V: Number>(
    op: BinaryOp,
    l: V,
    r: V,
    rb: bool,
    keep: V,
    x: Option<V>,
    y: Option<V>,
)
    requires
        single_valued::<V>(),
        applied(op, l, r, rb, keep, x),
        applied(op, l, r, rb, keep, y),
    ensures
        x == y,
{
    match op {
        BinaryOp::Arithmetic(a) => {
            assert(calculated(a, l, r, x->0));
            assert(calculated(a, l, r, y->0));
        },
        BinaryOp::Comparison(c) => {
            let s = choose|t: bool| #[trigger]
                compared(c, l, r, t) && if rb {
                    x matches Some(v) && counted(if t { 1u64 } else { 0u64 }, v)
                } else {
                    x == if t {
                        Some(keep)
                    } else {
                        None
                    }
                };
            let t = choose|t: bool| #[trigger]
                compared(c, l, r, t) && if rb {
                    y matches Some(v) && counted(if t { 1u64 } else { 0u64 }, v)
                } else {
                    y == if t {
                        Some(keep)
                    } else {
                        None
                    }
                };
            assert(s == t);
            if rb {
                assert(counted(if s { 1u64 } else { 0u64 }, x->0));
                assert(counted(if s { 1u64 } else { 0u64 }, y->0));
            }
        },
        BinaryOp::Other => {},
    }
}

proof fn scalars_combined_once<V: Number>(op: BinaryOp, a: V, b: V, x: V, y: V)
    requires
        single_valued::<V>(),
        scalars_combined(op, a, b, x),
        scalars_combined(op, a, b, y),
    ensures
        x == y,
{
    if op != BinaryOp::Other {
        applied_once(op, a, b, true, a, Some(x), Some(y));
    }
}

proof fn scalar_applied_once<V: Number>(
    op: BinaryOp,
    scalar: V,
    left: bool,
    rb: bool,
    v: V,
    x: Option<V>,
    y: Option<V>,
)
    requires
        single_valued::<V>(),
        scalar_applied(op, scalar, left, rb, v, x),
        scalar_applied(op, scalar, left, rb, v, y),
    ensures
        x == y,
{
    if left {
        applied_once(op, scalar, v, rb, v, x, y);
    } else {
        applied_once(op, v, scalar, rb, v, x, y);
    }
}

proof fn pair_applied_once<V: Number>(
    op: BinaryOp,
    right: bool,
    rb: bool,
    many: V,
    one: Option<V>,
    x: Option<V>,
    y: Option<V>,
)
    requires
        single_valued::<V>(),
        pair_applied(op, right, rb, many, one, x),
        pair_applied(op, right, rb, many, one, y),
    ensures
        x == y,
{
    if let Some(o) = one {
        if right {
            applied_once(op, o, many, rb, o, x, y);
        } else {
            applied_once(op, many, o, rb, many, x, y);
        }
    }
}

proof fn scalar_points_once<V: Number>(
    op: BinaryOp,
    scalar: V,
    left: bool,
    rb: bool,
    points: Seq<Point<V>>,
    a: Seq<Point<V>>,
    b: Seq<Point<V>>,
)
    requires
        single_valued::<V>(),
        scalar_points_are(op, scalar, left, rb, points, a),
        scalar_points_are(op, scalar, left, rb, points, b),
    ensures
        a == b,
{
    let x = choose|x: Seq<Option<V>>| #[trigger]
        scalar_results(op, scalar, left, rb, points, x) && a == with_results(points, x);
    let y = choose|y: Seq<Option<V>>| #[trigger]
        scalar_results(op, scalar, left, rb, points, y) && b == with_results(points, y);
    assert forall|j: int| 0 <= j < points.len() implies #[trigger] x[j] == y[j] by {
        scalar_applied_once(op, scalar, left, rb, points[j].1, x[j], y[j]);
    }
    assert(x =~= y);
}

proof fn pair_points_once<V: Number>(
    op: BinaryOp,
    right: bool,
    rb: bool,
    many: Seq<Point<V>>,
    one: Seq<Point<V>>,
    a: Seq<Point<V>>,
    b: Seq<Point<V>>,
)
    requires
        single_valued::<V>(),
        pair_points_are(op, right, rb, many, one, a),
        pair_points_are(op, right, rb, many, one, b),
    ensures
        a == b,
{
    let x = choose|x: Seq<Option<V>>| #[trigger]
        pair_results(op, right, rb, many, one, x) && a == with_results(many, x);
    let y = choose|y: Seq<Option<V>>| #[trigger]
        pair_results(op, right, rb, many, one, y) && b == with_results(many, y);
    assert forall|j: int| 0 <= j < many.len() implies #[trigger] x[j] == y[j] by {
        pair_applied_once(
            op,
            right,
            rb,
            many[j].1,
            crate::matching::value_at(one, many[j].0),
            x[j],
            y[j],
        );
    }
    assert(x =~= y);
}

/// Whether two lists of series differ at most in the labels of series without points.
spec fn same_points<V>(a: Seq<SeriesView<V>>, b: Seq<SeriesView<V>>) -> bool {
    a.len() == b.len() && forall|i: int|
        0 <= i < a.len() ==> #[trigger] a[i] == b[i] || (a[i].points.len() == 0
            && b[i].points.len() == 0)
}

proof fn gathered_once<V>(a: Seq<SeriesView<V>>, b: Seq<SeriesView<V>>)
    requires
        same_points(a, b),
    ensures
        gathered(a) == gathered(b),
    decreases a.len(),
{
    if a.len() > 0 {
        let x = a.drop_last();
        let y = b.drop_last();
        assert forall|i: int| 0 <= i < x.len() implies #[trigger] x[i] == y[i] || (
        x[i].points.len() == 0 && y[i].points.len() == 0) by {
            assert(a[i] == b[i] || (a[i].points.len() == 0 && b[i].points.len() == 0));
        }
        gathered_once(x, y);
        assert(a[a.len() - 1] == b[b.len() - 1] || (a.last().points.len() == 0
            && b.last().points.len() == 0));
    }
}

proof fn scalar_vector_once<V: Number>(
    op: BinaryOp,
    scalar: V,
    left: bool,
    rb: bool,
    s: Seq<SeriesView<V>>,
    a: Map<Seq<char>, SeriesView<V>>,
    b: Map<Seq<char>, SeriesView<V>>,
)
    requires
        single_valued::<V>(),
        scalar_vector(op, scalar, left, rb, s, a),
        scalar_vector(op, scalar, left, rb, s, b),
    ensures
        a == b,
{
    let x = choose|x: Seq<SeriesView<V>>| #[trigger]
        scalar_parts(op, scalar, left, rb, s, x) && a == gathered(x);
    let y = choose|y: Seq<SeriesView<V>>| #[trigger]
        scalar_parts(op, scalar, left, rb, s, y) && b == gathered(y);
    assert forall|i: int| 0 <= i < s.len() implies #[trigger] x[i] == y[i] by {
        assert(scalar_series(op, scalar, left, rb, s[i], x[i]));
        assert(scalar_series(op, scalar, left, rb, s[i], y[i]));
        scalar_points_once(op, scalar, left, rb, s[i].points, x[i].points, y[i].points);
    }
    assert(x =~= y);
}

proof fn matched_once<V: Number>(
    op: BinaryOp,
    kind: KindView,
    card: CardView,
    rb: bool,
    many: Seq<SeriesView<V>>,
    one: Seq<SeriesView<V>>,
    a: Map<Seq<char>, SeriesView<V>>,
    b: Map<Seq<char>, SeriesView<V>>,
)
    requires
        single_valued::<V>(),
        matched(op, kind, card, rb, many, one, a),
        matched(op, kind, card, rb, many, one, b),
    ensures
        a == b,
{
    let x = choose|x: Seq<SeriesView<V>>| #[trigger]
        matched_parts(op, kind, card, rb, many, one, x) && a == gathered(x);
    let y = choose|y: Seq<SeriesView<V>>| #[trigger]
        matched_parts(op, kind, card, rb, many, one, y) && b == gathered(y);
    assert forall|i: int| 0 <= i < x.len() implies #[trigger] x[i] == y[i] || (
    x[i].points.len() == 0 && y[i].points.len() == 0) by {
        assert(matched_series(op, kind, card, rb, many[i], one, x[i]));
        assert(matched_series(op, kind, card, rb, many[i], one, y[i]));
        let p = partner_from(kind, many[i].labels, labels_of(one), 0);
        if p < one.len() {
            pair_points_once(
                op,
                card.group_right,
                rb,
                many[i].points,
                one[p].points,
                x[i].points,
                y[i].points,
            );
        }
    }
    gathered_once(x, y);
}

proof fn scalar_instant_once<V: Number>(
    op: BinaryOp,
    scalar: V,
    left: bool,
    rb: bool,
    s: Seq<(LabelMap, V)>,
    a: Seq<(LabelMap, V)>,
    b: Seq<(LabelMap, V)>,
)
    requires
        single_valued::<V>(),
        scalar_instant(op, scalar, left, rb, s, a),
        scalar_instant(op, scalar, left, rb, s, b),
    ensures
        a == b,
{
    let x = choose|x: Seq<Option<(LabelMap, V)>>| #[trigger]
        scalar_samples(op, scalar, left, rb, s, x) && a == present(x);
    let y = choose|y: Seq<Option<(LabelMap, V)>>| #[trigger]
        scalar_samples(op, scalar, left, rb, s, y) && b == present(y);
    assert forall|i: int| 0 <= i < s.len() implies #[trigger] x[i] == y[i] by {
        scalar_applied_once(op, scalar, left, rb, s[i].1, value_of(x[i]), value_of(y[i]));
    }
    assert(x =~= y);
}

/// The value of a sample, if there is one.
spec fn value_of<V>(part: Option<(LabelMap, V)>) -> Option<V> {
    match part {
        Some(p) => Some(p.1),
        None => None,
    }
}

proof fn matched_instant_once<V: Number>(
    op: BinaryOp,
    kind: KindView,
    card: CardView,
    rb: bool,
    many: Seq<(LabelMap, V)>,
    one: Seq<(LabelMap, V)>,
    a: Seq<(LabelMap, V)>,
    b: Seq<(LabelMap, V)>,
)
    requires
        single_valued::<V>(),
        matched_instant(op, kind, card, rb, many, one, a),
        matched_instant(op, kind, card, rb, many, one, b),
    ensures
        a == b,
{
    let x = choose|x: Seq<Option<(LabelMap, V)>>| #[trigger]
        matched_samples(op, kind, card, rb, many, one, x) && a == present(x);
    let y = choose|y: Seq<Option<(LabelMap, V)>>| #[trigger]
        matched_samples(op, kind, card, rb, many, one, y) && b == present(y);
    assert forall|i: int| 0 <= i < many.len() implies #[trigger] x[i] == y[i] by {
        let p = partner_from(kind, many[i].0, crate::matching::sample_labels(one), 0);
        if p < one.len() {
            pair_applied_once(
                op,
                card.group_right,
                rb,
                many[i].1,
                Some(one[p].1),
                value_of(x[i]),
                value_of(y[i]),
            );
        }
    }
    assert(x =~= y);
}

proof fn folded_once<V: Number>(op: AggKind, values: Seq<V>, x: V, y: V)
    requires
        single_valued::<V>(),
        folded(op, values, x),
        folded(op, values, y),
    ensures
        x == y,
    decreases values.len(),
{
    if values.len() > 0 {
        let rest = values.drop_last();
        let n = capped((values.len() - 1) as nat);
        let v = values.last();
        let p = choose|p: V| folded(op, rest, p) && #[trigger] reduced(op, p, n, v, x);
        let q = choose|q: V| folded(op, rest, q) && #[trigger] reduced(op, q, n, v, y);
        folded_once(op, rest, p, q);
        reduced_once(op, p, n, v, x, y);
    }
}

proof fn reduced_once<V: Number>(op: AggKind, acc: V, n: u64, v: V, x: V, y: V)
    requires
        single_valued::<V>(),
        reduced(op, acc, n, v, x),
        reduced(op, acc, n, v, y),
    ensures
        x == y,
{
    if op == AggKind::Count {
        let a = choose|one: V| #[trigger]
            counted(1, one) && calculated(Arithmetic::Add, acc, one, x);
        let b = choose|one: V| #[trigger]
            counted(1, one) && calculated(Arithmetic::Add, acc, one, y);
        assert(a == b);
    }
}

proof fn aggregated_once<V: Number>(op: AggKind, values: Seq<V>, x: V, y: V)
    requires
        single_valued::<V>(),
        aggregated(op, values, x),
        aggregated(op, values, y),
    ensures
        x == y,
{
    let n = capped(values.len());
    let a = choose|acc: V| #[trigger] reduction(op, acc, n, x) && folded(op, values, acc);
    let b = choose|acc: V| #[trigger] reduction(op, acc, n, y) && folded(op, values, acc);
    folded_once(op, values, a, b);
    if op == AggKind::Avg {
        let k = choose|k: V| #[trigger] counted(n, k) && calculated(Arithmetic::Div, a, k, x);
        let l = choose|l: V| #[trigger] counted(n, l) && calculated(Arithmetic::Div, a, l, y);
        assert(k == l);
    }
}

proof fn same_times<V>(a: Seq<Point<V>>, b: Seq<Point<V>>)
    requires
        times_ascend(a),
        times_ascend(b),
        forall|t: i64| has_time(a, t) <==> has_time(b, t),
    ensures
        a.len() == b.len(),
        forall|i: int| 0 <= i < a.len() ==> (#[trigger] a[i]).0 == b[i].0,
{
    let x = Seq::new(a.len(), |i: int| a[i].0 as int);
    let y = Seq::new(b.len(), |i: int| b[i].0 as int);
    assert forall|t: int| x.contains(t) implies y.contains(t) by {
        let i = choose|i: int| 0 <= i < x.len() && x[i] == t;
        assert(has_time(a, a[i].0));
        let m = choose|m: int| 0 <= m < b.len() && (#[trigger] b[m]).0 == a[i].0;
        assert(y[m] == t);
    }
    assert forall|t: int| y.contains(t) implies x.contains(t) by {
        let i = choose|i: int| 0 <= i < y.len() && y[i] == t;
        assert(has_time(b, b[i].0));
        let m = choose|m: int| 0 <= m < a.len() && (#[trigger] a[m]).0 == b[i].0;
        assert(x[m] == t);
    }
    assert forall|i: int, j: int| 0 <= i < j < x.len() implies #[trigger] x[i] < #[trigger] x[j] by {
        assert(a[i].0 < a[j].0);
    }
    assert forall|i: int, j: int| 0 <= i < j < y.len() implies #[trigger] y[i] < #[trigger] y[j] by {
        assert(b[i].0 < b[j].0);
    }
    ascending_ints_are_unique(x, y);
    assert(x.len() == a.len() && y.len() == b.len());
    assert forall|i: int| 0 <= i < a.len() implies (#[trigger] a[i]).0 == b[i].0 by {
        assert(x[i] == a[i].0);
        assert(y[i] == b[i].0);
    }
}

proof fn group_points_once<V: Number>(
    op: AggKind,
    g: KindView,
    s: Seq<SeriesView<V>>,
    key: Seq<char>,
    a: Seq<Point<V>>,
    b: Seq<Point<V>>,
)
    requires
        single_valued::<V>(),
        group_points(op, g, s, key, a),
        group_points(op, g, s, key, b),
    ensures
        a == b,
{
    assert forall|t: i64| has_time(a, t) <==> has_time(b, t) by {
        if has_time(a, t) {
            let i = choose|i: int| 0 <= i < a.len() && (#[trigger] a[i]).0 == t;
            assert(contributions(g, s, key, a[i].0).len() > 0);
        }
        if has_time(b, t) {
            let i = choose|i: int| 0 <= i < b.len() && (#[trigger] b[i]).0 == t;
            assert(contributions(g, s, key, b[i].0).len() > 0);
        }
    }
    same_times(a, b);
    assert forall|i: int| 0 <= i < a.len() implies #[trigger] a[i] == b[i] by {
        assert(a[i].0 == b[i].0);
        aggregated_once(op, contributions(g, s, key, a[i].0), a[i].1, b[i].1);
    }
    assert(a =~= b);
}

proof fn series_aggregated_once<V: Number>(
    op: AggKind,
    g: KindView,
    s: Seq<SeriesView<V>>,
    a: Map<Seq<char>, SeriesView<V>>,
    b: Map<Seq<char>, SeriesView<V>>,
)
    requires
        single_valued::<V>(),
        series_aggregated(op, g, s, a),
        series_aggregated(op, g, s, b),
    ensures
        a == b,
{
    assert forall|key: Seq<char>| a.dom().contains(key) <==> b.dom().contains(key) by {
        assert(a.dom().contains(key) <==> group_labels(g, s, key) is Some);
        assert(b.dom().contains(key) <==> group_labels(g, s, key) is Some);
    }
    assert forall|key: Seq<char>| a.dom().contains(key) implies #[trigger] a[key] == b[key] by {
        assert(b.dom().contains(key));
        assert(group_labels(g, s, key) == Some(b[key].labels));
        group_points_once(op, g, s, key, a[key].points, b[key].points);
    }
    assert(a =~= b);
}

/// Whether two range values are the same.
pub open spec fn same_range<V>(v: RangeVal<V>, w: RangeVal<V>) -> bool {
    match (v, w) {
        (RangeVal::Scalar(a), RangeVal::Scalar(b)) => a == b,
        (RangeVal::Vector(m), RangeVal::Vector(n)) => series_view(m@) == series_view(n@),
        _ => false,
    }
}

/// Whether two instant values are the same.
pub open spec fn same_instant<V>(v: InstantVal<V>, w: InstantVal<V>) -> bool {
    match (v, w) {
        (InstantVal::Scalar(a), InstantVal::Scalar(b)) => a == b,
        (InstantVal::Vector(s), InstantVal::Vector(t)) => samples_view(s@) == samples_view(t@),
        _ => false,
    }
}

proof fn same_listing<V>(m: RangeSeries<V>, n: RangeSeries<V>)
    requires
        crate::textmap::ascending(m.listing()),
        crate::textmap::ascending(n.listing()),
        series_view(m@) == series_view(n@),
    ensures
        series_list(m.listing()) == series_list(n.listing()),
{
    let a = m.listing();
    let b = n.listing();
    let x = series_view(m@);
    let y = series_view(n@);
    assert forall|k: Seq<char>| has_key(a, k) == has_key(b, k) by {
        assert(x.dom().contains(k) == y.dom().contains(k));
    }
    same_keys_same_places(a, b);
    assert forall|i: int| 0 <= i < a.len() implies series_list(a)[i] == series_list(b)[i] by {
        mapping_at(a, i);
        mapping_at(b, i);
        assert(a[i].0@ == b[i].0@);
        assert(x[a[i].0@] == a[i].1@);
        assert(y[b[i].0@] == b[i].1@);
    }
    assert(series_list(a) =~= series_list(b));
}

proof fn changed_once<V: Number>(c: Change<V>, v: V, x: V, y: V)
    requires
        single_valued::<V>(),
        changed(c, v, x),
        changed(c, v, y),
    ensures
        x == y,
{
}

proof fn series_changed_once<V: Number>(
    c: Change<V>,
    s: Map<Seq<char>, SeriesView<V>>,
    a: Map<Seq<char>, SeriesView<V>>,
    b: Map<Seq<char>, SeriesView<V>>,
)
    requires
        single_valued::<V>(),
        series_changed(c, s, a),
        series_changed(c, s, b),
    ensures
        a == b,
{
    assert forall|k: Seq<char>| a.dom().contains(k) implies #[trigger] a[k] == b[k] by {
        let x = a[k].points;
        let y = b[k].points;
        assert(points_changed(c, s[k].points, x));
        assert(points_changed(c, s[k].points, y));
        assert forall|i: int| 0 <= i < x.len() implies #[trigger] x[i] == y[i] by {
            changed_once(c, s[k].points[i].1, x[i].1, y[i].1);
        }
        assert(x =~= y);
    }
    assert(a =~= b);
}

proof fn range_changed_once<V: Number>(
    c: Change<V>,
    v: RangeVal<V>,
    w: RangeVal<V>,
    x: RangeVal<V>,
    y: RangeVal<V>,
)
    requires
        single_valued::<V>(),
        same_range(v, w),
        range_changed(c, v, x),
        range_changed(c, w, y),
    ensures
        same_range(x, y),
{
    match (v, x, y) {
        (RangeVal::Vector(m), RangeVal::Vector(a), RangeVal::Vector(b)) => {
            series_changed_once(c, series_view(m@), series_view(a@), series_view(b@));
        },
        (RangeVal::Scalar(m), RangeVal::Scalar(a), RangeVal::Scalar(b)) => {
            changed_once(c, m, a, b);
        },
        _ => {},
    }
}

proof fn instant_changed_once<V: Number>(
    c: Change<V>,
    v: InstantVal<V>,
    w: InstantVal<V>,
    x: InstantVal<V>,
    y: InstantVal<V>,
)
    requires
        single_valued::<V>(),
        same_instant(v, w),
        instant_changed(c, v, x),
        instant_changed(c, w, y),
    ensures
        same_instant(x, y),
{
    match (v, x, y) {
        (InstantVal::Vector(m), InstantVal::Vector(a), InstantVal::Vector(b)) => {
            let s = samples_view(m@);
            let p = samples_view(a@);
            let q = samples_view(b@);
            assert forall|i: int| 0 <= i < s.len() implies #[trigger] p[i] == q[i] by {
                assert(p[i].0 == s[i].0);
                assert(q[i].0 == s[i].0);
                changed_once(c, s[i].1, p[i].1, q[i].1);
            }
            assert(p =~= q);
        },
        (InstantVal::Scalar(m), InstantVal::Scalar(a), InstantVal::Scalar(b)) => {
            changed_once(c, m, a, b);
        },
        _ => {},
    }
}

proof fn folds_once<V: Number>(v: InstantVal<V>, w: InstantVal<V>, x: V, y: V)
    requires
        single_valued::<V>(),
        same_instant(v, w),
        folds_to(v, x),
        folds_to(w, y),
    ensures
        x == y,
{
    folds_again(v, w, x);
}

proof fn instants_combined_once<V: Number>(
    op: BinaryOp,
    l: InstantVal<V>,
    r: InstantVal<V>,
    l2: InstantVal<V>,
    r2: InstantVal<V>,
    modifier: Option<BinaryModifier>,
    x: InstantVal<V>,
    y: InstantVal<V>,
)
    requires
        single_valued::<V>(),
        same_instant(l, l2),
        same_instant(r, r2),
        instant_values_combined(op, l, r, modifier, x),
        instant_values_combined(op, l2, r2, modifier, y),
    ensures
        same_instant(x, y),
{
    let rb = crate::matching::bool_of(modifier);
    match (l, r) {
        (InstantVal::Scalar(a), InstantVal::Scalar(b)) => {
            scalars_combined_once(op, a, b, x->Scalar_0, y->Scalar_0);
        },
        (InstantVal::Scalar(a), InstantVal::Vector(v)) => {
            scalar_instant_once(
                op,
                a,
                true,
                rb,
                samples_view(v@),
                samples_view(x->Vector_0@),
                samples_view(y->Vector_0@),
            );
        },
        (InstantVal::Vector(v), InstantVal::Scalar(b)) => {
            scalar_instant_once(
                op,
                b,
                false,
                rb,
                samples_view(v@),
                samples_view(x->Vector_0@),
                samples_view(y->Vector_0@),
            );
        },
        (InstantVal::Vector(v), InstantVal::Vector(w)) => {
            let card = card_of(modifier)->0;
            let (many, one) = if card.group_right {
                (samples_view(w@), samples_view(v@))
            } else {
                (samples_view(v@), samples_view(w@))
            };
            let p = samples_view(x->Vector_0@);
            let q = samples_view(y->Vector_0@);
            assert(matched_instant(op, kind_of(modifier), card, rb, many, one, p));
            assert(matched_instant(op, kind_of(modifier), card, rb, many, one, q));
            matched_instant_once(op, kind_of(modifier), card, rb, many, one, p, q);
        },
    }
}

proof fn ranges_combined_once<V: Number>(
    op: BinaryOp,
    l: RangeVal<V>,
    r: RangeVal<V>,
    l2: RangeVal<V>,
    r2: RangeVal<V>,
    modifier: Option<BinaryModifier>,
    x: RangeVal<V>,
    y: RangeVal<V>,
)
    requires
        single_valued::<V>(),
        same_range(l, l2),
        same_range(r, r2),
        is_ordered(l) && is_ordered(l2) && is_ordered(r) && is_ordered(r2),
        ranges_combined(op, l, r, modifier, x),
        ranges_combined(op, l2, r2, modifier, y),
    ensures
        same_range(x, y),
{
    let rb = crate::matching::bool_of(modifier);
    if let (RangeVal::Vector(m), RangeVal::Vector(n)) = (l, l2) {
        same_listing(m, n);
    }
    if let (RangeVal::Vector(m), RangeVal::Vector(n)) = (r, r2) {
        same_listing(m, n);
    }
    match (l, r) {
        (RangeVal::Scalar(a), RangeVal::Scalar(b)) => {
            scalars_combined_once(op, a, b, x->Scalar_0, y->Scalar_0);
        },
        (RangeVal::Scalar(a), RangeVal::Vector(v)) => {
            scalar_vector_once(
                op,
                a,
                true,
                rb,
                series_list(v.listing()),
                series_view(x->Vector_0@),
                series_view(y->Vector_0@),
            );
        },
        (RangeVal::Vector(v), RangeVal::Scalar(b)) => {
            scalar_vector_once(
                op,
                b,
                false,
                rb,
                series_list(v.listing()),
                series_view(x->Vector_0@),
                series_view(y->Vector_0@),
            );
        },
        (RangeVal::Vector(v), RangeVal::Vector(w)) => {
            let card = card_of(modifier)->0;
            let (many, one) = if card.group_right {
                (series_list(w.listing()), series_list(v.listing()))
            } else {
                (series_list(v.listing()), series_list(w.listing()))
            };
            let p = series_view(x->Vector_0@);
            let q = series_view(y->Vector_0@);
            assert(matched(op, kind_of(modifier), card, rb, many, one, p));
            assert(matched(op, kind_of(modifier), card, rb, many, one, q));
            matched_once(op, kind_of(modifier), card, rb, many, one, p, q);
        },
    }
}

proof fn reduced_range_once<V: Number>(
    op: Seq<char>,
    grouping: Option<crate::promql::Grouping>,
    win: RangeWindow,
    step: i64,
    v: RangeVal<V>,
    w: RangeVal<V>,
    x: RangeVal<V>,
    y: RangeVal<V>,
)
    requires
        single_valued::<V>(),
        same_range(v, w),
        is_ordered(v) && is_ordered(w),
        range_reduced(op, grouping, win, step, v, x),
        range_reduced(op, grouping, win, step, w, y),
    ensures
        same_range(x, y),
{
    if let (RangeVal::Vector(m), RangeVal::Vector(n)) = (v, w) {
        same_listing(m, n);
        series_aggregated_once(
            crate::classify::agg_kind(op)->0,
            crate::classify::grouping_view(grouping),
            crate::aggregate::aligned_list(
                series_list(m.listing()),
                win.start as int,
                win.end as int,
                step as int,
            ),
            series_view(x->Vector_0@),
            series_view(y->Vector_0@),
        );
    }
}

/// Where the operations on values are functions, an instant expression has one value
/// over its data.
pub proof fn instant_values_agree<V: Number>(
    e: PromExpr,
    leaves: Seq<LeafVal<V>>,
    x: InstantVal<V>,
    y: InstantVal<V>,
)
    requires
        single_valued::<V>(),
        instant_value(e, leaves, x),
        instant_value(e, leaves, y),
    ensures
        same_instant(x, y),
    decreases e,
{
    match e {
        PromExpr::Number(bits) => {
            assert(call_ensures(V::of_bits, (bits,), x->Scalar_0));
            assert(call_ensures(V::of_bits, (bits,), y->Scalar_0));
        },
        PromExpr::Paren(p) => {
            instant_values_agree(*p, leaves, x, y);
        },
        PromExpr::Unary(u) => {
            let v = choose|v: InstantVal<V>|
                instant_value(*u, leaves, v) && #[trigger] instant_changed(Change::Negate, v, x);
            let w = choose|w: InstantVal<V>|
                instant_value(*u, leaves, w) && #[trigger] instant_changed(Change::Negate, w, y);
            instant_values_agree(*u, leaves, v, w);
            instant_changed_once(Change::Negate, v, w, x, y);
        },
        PromExpr::Binary { op, lhs, rhs, modifier } => {
            let rest = leaves.skip(instant_count(*lhs) as int);
            let (l, r) = choose|l: InstantVal<V>, r: InstantVal<V>|
                instant_value(*lhs, leaves, l) && instant_value(*rhs, rest, r)
                    && #[trigger] instant_values_combined(op_of(op@), l, r, modifier, x);
            let (l2, r2) = choose|l: InstantVal<V>, r: InstantVal<V>|
                instant_value(*lhs, leaves, l) && instant_value(*rhs, rest, r)
                    && #[trigger] instant_values_combined(op_of(op@), l, r, modifier, y);
            instant_values_agree(*lhs, leaves, l, l2);
            instant_values_agree(*rhs, rest, r, r2);
            instants_combined_once(op_of(op@), l, r, l2, r2, modifier, x, y);
        },
        PromExpr::Call { name, args } => match call_kind(name@) {
            CallKind::Scalar => {
                let v = choose|v: InstantVal<V>|
                    args@.len() > 0 && instant_value(args@[0], leaves, v)
                        && #[trigger] folds_to_instant(v, x);
                let w = choose|w: InstantVal<V>|
                    args@.len() > 0 && instant_value(args@[0], leaves, w)
                        && #[trigger] folds_to_instant(w, y);
                instant_values_agree(args@[0], leaves, v, w);
                folds_once(v, w, x->Scalar_0, y->Scalar_0);
            },
            CallKind::ClampMin => {
                let rest = leaves.skip(instant_count(args@[0]) as int);
                let (v, b, k) = choose|v: InstantVal<V>, b: InstantVal<V>, k: V|
                    args@.len() >= 2 && instant_value(args@[0], leaves, v) && instant_value(
                        args@[1],
                        rest,
                        b,
                    ) && #[trigger] folds_to(b, k) && #[trigger] instant_changed(
                        Change::Floor(k),
                        v,
                        x,
                    );
                let (w, d, l) = choose|v: InstantVal<V>, b: InstantVal<V>, k: V|
                    args@.len() >= 2 && instant_value(args@[0], leaves, v) && instant_value(
                        args@[1],
                        rest,
                        b,
                    ) && #[trigger] folds_to(b, k) && #[trigger] instant_changed(
                        Change::Floor(k),
                        v,
                        y,
                    );
                instant_values_agree(args@[0], leaves, v, w);
                instant_values_agree(args@[1], rest, b, d);
                folds_once(b, d, k, l);
                instant_changed_once(Change::Floor(k), v, w, x, y);
            },
            CallKind::ClampMax => {
                let rest = leaves.skip(instant_count(args@[0]) as int);
                let (v, b, k) = choose|v: InstantVal<V>, b: InstantVal<V>, k: V|
                    args@.len() >= 2 && instant_value(args@[0], leaves, v) && instant_value(
                        args@[1],
                        rest,
                        b,
                    ) && #[trigger] folds_to(b, k) && #[trigger] instant_changed(
                        Change::Cap(k),
                        v,
                        x,
                    );
                let (w, d, l) = choose|v: InstantVal<V>, b: InstantVal<V>, k: V|
                    args@.len() >= 2 && instant_value(args@[0], leaves, v) && instant_value(
                        args@[1],
                        rest,
                        b,
                    ) && #[trigger] folds_to(b, k) && #[trigger] instant_changed(
                        Change::Cap(k),
                        v,
                        y,
                    );
                instant_values_agree(args@[0], leaves, v, w);
                instant_values_agree(args@[1], rest, b, d);
                folds_once(b, d, k, l);
                instant_changed_once(Change::Cap(k), v, w, x, y);
            },
            CallKind::Other => {},
        },
        _ => {},
    }
}

/// Where the operations on values are functions, a range expression has one value over
/// its data.
pub proof fn range_values_agree<V: Number>(
    e: PromExpr,
    win: RangeWindow,
    step: i64,
    leaves: Seq<LeafVal<V>>,
    x: RangeVal<V>,
    y: RangeVal<V>,
)
    requires
        single_valued::<V>(),
        range_value(e, win, step, leaves, x),
        range_value(e, win, step, leaves, y),
    ensures
        same_range(x, y),
    decreases e,
{
    match e {
        PromExpr::Number(bits) => {
            assert(call_ensures(V::of_bits, (bits,), x->Scalar_0));
            assert(call_ensures(V::of_bits, (bits,), y->Scalar_0));
        },
        PromExpr::Paren(p) => {
            range_values_agree(*p, win, step, leaves, x, y);
        },
        PromExpr::Unary(u) => {
            let v = choose|v: RangeVal<V>|
                range_value(*u, win, step, leaves, v) && #[trigger] range_changed(
                    Change::Negate,
                    v,
                    x,
                );
            let w = choose|w: RangeVal<V>|
                range_value(*u, win, step, leaves, w) && #[trigger] range_changed(
                    Change::Negate,
                    w,
                    y,
                );
            range_values_agree(*u, win, step, leaves, v, w);
            range_changed_once(Change::Negate, v, w, x, y);
        },
        PromExpr::Binary { op, lhs, rhs, modifier } => {
            let rest = leaves.skip(range_count(*lhs) as int);
            let (l, r) = choose|l: RangeVal<V>, r: RangeVal<V>|
                range_value(*lhs, win, step, leaves, l) && range_value(*rhs, win, step, rest, r)
                    && #[trigger] ranges_combined(op_of(op@), l, r, modifier, x);
            let (l2, r2) = choose|l: RangeVal<V>, r: RangeVal<V>|
                range_value(*lhs, win, step, leaves, l) && range_value(*rhs, win, step, rest, r)
                    && #[trigger] ranges_combined(op_of(op@), l, r, modifier, y);
            range_values_agree(*lhs, win, step, leaves, l, l2);
            range_values_agree(*rhs, win, step, rest, r, r2);
            range_values_are_ordered(*lhs, win, step, leaves, l);
            range_values_are_ordered(*lhs, win, step, leaves, l2);
            range_values_are_ordered(*rhs, win, step, rest, r);
            range_values_are_ordered(*rhs, win, step, rest, r2);
            ranges_combined_once(op_of(op@), l, r, l2, r2, modifier, x, y);
        },
        PromExpr::Call { name, args } => match call_kind(name@) {
            CallKind::Scalar => {
                let v = choose|v: InstantVal<V>|
                    args@.len() > 0 && instant_value(args@[0], leaves, v)
                        && #[trigger] folds_to_range(v, x);
                let w = choose|w: InstantVal<V>|
                    args@.len() > 0 && instant_value(args@[0], leaves, w)
                        && #[trigger] folds_to_range(w, y);
                instant_values_agree(args@[0], leaves, v, w);
                folds_once(v, w, x->Scalar_0, y->Scalar_0);
            },
            CallKind::ClampMin => {
                let rest = leaves.skip(range_count(args@[0]) as int);
                let (v, b, k) = choose|v: RangeVal<V>, b: InstantVal<V>, k: V|
                    args@.len() >= 2 && range_value(args@[0], win, step, leaves, v)
                        && instant_value(args@[1], rest, b) && #[trigger] folds_to(b, k)
                        && #[trigger] range_changed(Change::Floor(k), v, x);
                let (w, d, l) = choose|v: RangeVal<V>, b: InstantVal<V>, k: V|
                    args@.len() >= 2 && range_value(args@[0], win, step, leaves, v)
                        && instant_value(args@[1], rest, b) && #[trigger] folds_to(b, k)
                        && #[trigger] range_changed(Change::Floor(k), v, y);
                range_values_agree(args@[0], win, step, leaves, v, w);
                instant_values_agree(args@[1], rest, b, d);
                folds_once(b, d, k, l);
                range_changed_once(Change::Floor(k), v, w, x, y);
            },
            CallKind::ClampMax => {
                let rest = leaves.skip(range_count(args@[0]) as int);
                let (v, b, k) = choose|v: RangeVal<V>, b: InstantVal<V>, k: V|
                    args@.len() >= 2 && range_value(args@[0], win, step, leaves, v)
                        && instant_value(args@[1], rest, b) && #[trigger] folds_to(b, k)
                        && #[trigger] range_changed(Change::Cap(k), v, x);
                let (w, d, l) = choose|v: RangeVal<V>, b: InstantVal<V>, k: V|
                    args@.len() >= 2 && range_value(args@[0], win, step, leaves, v)
                        && instant_value(args@[1], rest, b) && #[trigger] folds_to(b, k)
                        && #[trigger] range_changed(Change::Cap(k), v, y);
                range_values_agree(args@[0], win, step, leaves, v, w);
                instant_values_agree(args@[1], rest, b, d);
                folds_once(b, d, k, l);
                range_changed_once(Change::Cap(k), v, w, x, y);
            },
            CallKind::Other => {},
        },
        PromExpr::Aggregate { op, expr, param, grouping } => {
            if is_reduction(e) {
                let v = choose|v: RangeVal<V>|
                    range_value(*expr, win, step, leaves, v) && #[trigger] range_reduced(
                        op@,
                        grouping,
                        win,
                        step,
                        v,
                        x,
                    );
                let w = choose|w: RangeVal<V>|
                    range_value(*expr, win, step, leaves, w) && #[trigger] range_reduced(
                        op@,
                        grouping,
                        win,
                        step,
                        w,
                        y,
                    );
                range_values_agree(*expr, win, step, leaves, v, w);
                range_values_are_ordered(*expr, win, step, leaves, v);
                range_values_are_ordered(*expr, win, step, leaves, w);
                reduced_range_once(op@, grouping, win, step, v, w, x, y);
            }
        },
        _ => {},
    }
}

proof fn range_values_are_ordered<V: Number>(
    e: PromExpr,
    win: RangeWindow,
    step: i64,
    leaves: Seq<LeafVal<V>>,
    v: RangeVal<V>,
)
    requires
        range_value(e, win, step, leaves, v),
    ensures
        is_ordered(v),
{
}

/// A negated expression has the value of the expression negated: its scalar, or the same
/// series with the same labels and times and every value negated. It fails where the
/// expression fails, and with the same message.
pub proof fn negation_negates_every_value<V: Number>(
    e: PromExpr,
    win: RangeWindow,
    step: i64,
    leaves: Seq<LeafVal<V>>,
    v: RangeVal<V>,
    n: RangeVal<V>,
)
    ensures
        range_failure(PromExpr::Unary(Box::new(e)), leaves) == range_failure(e, leaves),
        single_valued::<V>() && range_value(e, win, step, leaves, v) && range_value(
            PromExpr::Unary(Box::new(e)),
            win,
            step,
            leaves,
            n,
        ) ==> range_changed(Change::Negate, v, n),
{
    if single_valued::<V>() && range_value(e, win, step, leaves, v) && range_value(
        PromExpr::Unary(Box::new(e)),
        win,
        step,
        leaves,
        n,
    ) {
        let w = choose|w: RangeVal<V>|
            range_value(e, win, step, leaves, w) && #[trigger] range_changed(Change::Negate, w, n);
        range_values_agree(e, win, step, leaves, v, w);
    }
}

/// `scalar(e)` folds the value of `e`: a scalar is its own, a vector of one sample gives
/// the sample's value, and any other vector, the empty one too, the undefined value. It
/// fails only where `e` fails, and with the same message.
pub proof fn scalar_folds_its_argument<V: Number>(
    name: String,
    args: Vec<PromExpr>,
    leaves: Seq<LeafVal<V>>,
    v: InstantVal<V>,
    s: InstantVal<V>,
)
    requires
        name@ == "scalar"@,
        args@.len() > 0,
    ensures
        instant_failure(PromExpr::Call { name, args }, leaves) == instant_failure(args@[0], leaves),
        single_valued::<V>() && instant_value(args@[0], leaves, v) && instant_value(
            PromExpr::Call { name, args },
            leaves,
            s,
        ) ==> folds_to_instant(v, s),
{
    if single_valued::<V>() && instant_value(args@[0], leaves, v) && instant_value(
        PromExpr::Call { name, args },
        leaves,
        s,
    ) {
        let w = choose|w: InstantVal<V>|
            args@.len() > 0 && instant_value(args@[0], leaves, w) && #[trigger] folds_to_instant(
                w,
                s,
            );
        instant_values_agree(args@[0], leaves, w, v);
        folds_again(w, v, s->Scalar_0);
    }
}

proof fn folds_again<V: Number>(v: InstantVal<V>, w: InstantVal<V>, x: V)
    requires
        same_instant(v, w),
        folds_to(v, x),
    ensures
        folds_to(w, x),
{
    if let (InstantVal::Vector(a), InstantVal::Vector(b)) = (v, w) {
        assert(samples_view(a@).len() == samples_view(b@).len());
        if a@.len() == 1 {
            assert(samples_view(a@)[0].1 == a@[0].1);
            assert(samples_view(b@)[0].1 == b@[0].1);
        }
    }
}

} // verus!
