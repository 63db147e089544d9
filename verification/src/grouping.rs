//! Laws of aggregation.
use crate::aggregate::{
    aggregated, aligned_list, capped, contributions, folded, group_labels,
    group_points, series_aggregated, values_at,
};
use crate::binary::names;
use crate::classify::{agg_kind, grouping_view, AggKind};
use crate::eval::{is_reduction, RangeWindow};
use crate::evaluate::{range_reduced, range_value, LeafVal};
use crate::grid::Point;
use crate::labels::{kept_labels, keys_tell_label_sets_apart, rendered};
use crate::number::{Arithmetic, Number};
use crate::operators::{calculated, counted, reduced, reduction};
use crate::promql::{Grouping, PromExpr};
use crate::quantile::{exact, numbers, total};
use crate::series::{series_list, series_view, LabelMap, RangeVal, SeriesView};
use crate::text::listed_is_among;
use vstd::prelude::*;

verus! {

/// Whether an aggregation keeps a label: without `by` and `without` none, with `by` those
/// that it lists, and with `without` all but those that it lists and the metric name.
pub open spec fn keeps(grouping: Option<Grouping>, k: Seq<char>) -> bool {
    match grouping {
        None => false,
        Some(Grouping::Include(l)) => names(l@, k),
        Some(Grouping::Exclude(l)) => k != "__name__"@ && !names(l@, k),
    }
}

/// The rule of grouping takes the labels that the aggregation keeps.
pub proof fn grouping_is_read(grouping: Option<Grouping>, k: Seq<char>)
    ensures
        grouping_view(grouping).takes(k) == keeps(grouping, k),
{
    match grouping {
        None => {},
        Some(Grouping::Include(l)) => listed_is_among(l@, k),
        Some(Grouping::Exclude(l)) => listed_is_among(l@, k),
    }
}

/// An aggregation without `by` and `without` keeps no label of any label set; `by (l)` keeps
/// exactly the labels of `l`; and `without (l)` exactly those that are not in `l`, but never
/// the metric name. What is kept keeps its value.
pub proof fn aggregations_keep_their_labels(grouping: Option<Grouping>, m: LabelMap)
    ensures
        grouping is None ==> kept_labels(grouping_view(grouping), m) == Map::<
            Seq<char>,
            Seq<char>,
        >::empty(),
        grouping matches Some(Grouping::Include(l)) ==> forall|k: Seq<char>|
            kept_labels(grouping_view(grouping), m).dom().contains(k) <==> m.dom().contains(k)
                && #[trigger] names(l@, k),
        grouping matches Some(Grouping::Exclude(l)) ==> forall|k: Seq<char>|
            kept_labels(grouping_view(grouping), m).dom().contains(k) <==> m.dom().contains(k) && k
                != "__name__"@ && !#[trigger] names(l@, k),
        forall|k: Seq<char>|
            #![trigger kept_labels(grouping_view(grouping), m)[k]]
            kept_labels(grouping_view(grouping), m).dom().contains(k) ==> kept_labels(
                grouping_view(grouping),
                m,
            )[k] == m[k],
{
    let kept = kept_labels(grouping_view(grouping), m);
    assert forall|k: Seq<char>| #[trigger] kept.dom().contains(k) <==> m.dom().contains(k) && keeps(
        grouping,
        k,
    ) by {
        grouping_is_read(grouping, k);
    }
    if grouping is None {
        assert(kept.dom() =~= Set::empty());
        assert(kept =~= Map::empty());
    }
    match grouping {
        Some(Grouping::Include(l)) => {
            assert forall|k: Seq<char>| kept.dom().contains(k) <==> m.dom().contains(k)
                && #[trigger] names(l@, k) by {
                assert(keeps(grouping, k) == names(l@, k));
            }
        },
        Some(Grouping::Exclude(l)) => {
            assert forall|k: Seq<char>| kept.dom().contains(k) <==> m.dom().contains(k) && k
                != "__name__"@ && !#[trigger] names(l@, k) by {
                assert(keeps(grouping, k) == (k != "__name__"@ && !names(l@, k)));
            }
        },
        None => {},
    }
}

/// Whether two label sets agree in the labels that an aggregation keeps.
pub open spec fn same_group(grouping: Option<Grouping>, a: LabelMap, b: LabelMap) -> bool {
    forall|k: Seq<char>| #[trigger]
        keeps(grouping, k) ==> a.dom().contains(k) == b.dom().contains(k) && (a.dom().contains(k)
            ==> a[k] == b[k])
}

proof fn groups_are_label_sets(grouping: Option<Grouping>, a: LabelMap, b: LabelMap)
    ensures
        same_group(grouping, a, b) == (kept_labels(grouping_view(grouping), a) == kept_labels(
            grouping_view(grouping),
            b,
        )),
{
    let x = kept_labels(grouping_view(grouping), a);
    let y = kept_labels(grouping_view(grouping), b);
    if same_group(grouping, a, b) {
        assert forall|k: Seq<char>| #[trigger] x.dom().contains(k) == y.dom().contains(k) by {
            grouping_is_read(grouping, k);
        }
        assert forall|k: Seq<char>| x.dom().contains(k) implies #[trigger] x[k] == y[k] by {
            grouping_is_read(grouping, k);
        }
        assert(x.dom() =~= y.dom());
        assert(x =~= y);
    }
    if x == y {
        assert forall|k: Seq<char>| #[trigger] keeps(grouping, k) implies a.dom().contains(k)
            == b.dom().contains(k) && (a.dom().contains(k) ==> a[k] == b[k]) by {
            grouping_is_read(grouping, k);
            assert(x.dom().contains(k) == a.dom().contains(k));
            assert(y.dom().contains(k) == b.dom().contains(k));
            if a.dom().contains(k) {
                assert(x[k] == a[k] && y[k] == b[k]);
            }
        }
    }
}

/// Whether `x` holds what an aggregation keeps of a label set.
pub open spec fn kept_of(grouping: Option<Grouping>, m: LabelMap, x: LabelMap) -> bool {
    forall|k: Seq<char>|
        #![trigger x.dom().contains(k)]
        x.dom().contains(k) == (m.dom().contains(k) && keeps(grouping, k)) && (x.dom().contains(k)
            ==> x[k] == m[k])
}

proof fn kept_labels_are_kept(grouping: Option<Grouping>, m: LabelMap, x: LabelMap)
    ensures
        kept_of(grouping, m, x) == (x == kept_labels(grouping_view(grouping), m)),
{
    let y = kept_labels(grouping_view(grouping), m);
    assert forall|k: Seq<char>|
        #![trigger y.dom().contains(k)]
        y.dom().contains(k) == (m.dom().contains(k) && keeps(grouping, k)) && (y.dom().contains(k)
            ==> y[k] == m[k]) by {
        grouping_is_read(grouping, k);
    }
    if kept_of(grouping, m, x) {
        assert forall|k: Seq<char>| #[trigger] x.dom().contains(k) == y.dom().contains(k) by {}
        assert forall|k: Seq<char>| x.dom().contains(k) implies #[trigger] x[k] == y[k] by {
            assert(y.dom().contains(k));
        }
        assert(x.dom() =~= y.dom());
        assert(x =~= y);
    }
}

/// The values of the points at a time.
pub open spec fn at_time<V>(points: Seq<Point<V>>, t: i64) -> Seq<V> {
    points.filter(|p: Point<V>| p.0 == t).map_values(|p: Point<V>| p.1)
}

/// The values that the series with the given kept labels have at a time, series by series.
pub open spec fn member_values<V>(
    grouping: Option<Grouping>,
    s: Seq<SeriesView<V>>,
    labels: LabelMap,
    t: i64,
) -> Seq<V> {
    s.filter(|x: SeriesView<V>| kept_of(grouping, x.labels, labels)).map_values(
        |x: SeriesView<V>| at_time(x.points, t),
    ).flatten_alt()
}

proof fn values_are_at_their_time<V>(points: Seq<Point<V>>, t: i64)
    ensures
        values_at(points, t) == at_time(points, t),
    decreases points.len(),
{
    reveal(Seq::filter);
    let pred = |p: Point<V>| p.0 == t;
    if points.len() == 0 {
        assert(at_time(points, t) =~= Seq::<V>::empty());
    } else {
        values_are_at_their_time(points.drop_last(), t);
        let rest = points.drop_last().filter(pred);
        if points.last().0 == t {
            assert(rest.push(points.last()).map_values(|p: Point<V>| p.1) =~= rest.map_values(
                |p: Point<V>| p.1,
            ).push(points.last().1));
        }
    }
}

/// Whether the label sets of series are finite, as those of all series are.
pub open spec fn labels_are_finite<V>(s: Seq<SeriesView<V>>) -> bool {
    forall|i: int| 0 <= i < s.len() ==> (#[trigger] s[i]).labels.dom().finite()
}

proof fn kept_are_finite(grouping: Option<Grouping>, m: LabelMap)
    requires
        m.dom().finite(),
    ensures
        kept_labels(grouping_view(grouping), m).dom().finite(),
{
    let kept = kept_labels(grouping_view(grouping), m);
    assert(kept.dom().subset_of(m.dom()));
    vstd::set_lib::lemma_len_subset(kept.dom(), m.dom());
}

proof fn members_contribute<V>(
    grouping: Option<Grouping>,
    s: Seq<SeriesView<V>>,
    labels: LabelMap,
    t: i64,
)
    requires
        labels_are_finite(s),
        labels.dom().finite(),
    ensures
        contributions(grouping_view(grouping), s, rendered(labels), t) == member_values(
            grouping,
            s,
            labels,
            t,
        ),
    decreases s.len(),
{
    reveal(Seq::filter);
    let pred = |x: SeriesView<V>| kept_of(grouping, x.labels, labels);
    let f = |x: SeriesView<V>| at_time(x.points, t);
    if s.len() == 0 {
        assert(s.filter(pred).map_values(f) =~= Seq::empty());
        assert(member_values(grouping, s, labels, t) =~= Seq::empty());
    } else {
        let (rest, x) = (s.drop_last(), s.last());
        assert(x == s[s.len() - 1]);
        assert forall|i: int| 0 <= i < rest.len() implies (
        #[trigger] rest[i]).labels.dom().finite() by {
            assert(rest[i] == s[i]);
        }
        members_contribute(grouping, rest, labels, t);
        kept_are_finite(grouping, x.labels);
        keys_tell_label_sets_apart(kept_labels(grouping_view(grouping), x.labels), labels);
        kept_labels_are_kept(grouping, x.labels, labels);
        values_are_at_their_time(x.points, t);
        let before = rest.filter(pred);
        if pred(x) {
            let after = before.push(x).map_values(f);
            assert(after.drop_last() =~= before.map_values(f));
            assert(after.last() == at_time(x.points, t));
        }
    }
}

proof fn group_labels_are_kept<V>(
    grouping: Option<Grouping>,
    s: Seq<SeriesView<V>>,
    key: Seq<char>,
) -> (i: int)
    requires
        group_labels(grouping_view(grouping), s, key) is Some,
    ensures
        0 <= i < s.len(),
        group_labels(grouping_view(grouping), s, key) == Some(
            kept_labels(grouping_view(grouping), s[i].labels),
        ),
        key == rendered(kept_labels(grouping_view(grouping), s[i].labels)),
    decreases s.len(),
{
    if group_labels(grouping_view(grouping), s.drop_last(), key) is Some {
        let i = group_labels_are_kept(grouping, s.drop_last(), key);
        assert(s.drop_last()[i] == s[i]);
        i
    } else {
        s.len() - 1
    }
}

proof fn every_series_has_a_group<V>(grouping: Option<Grouping>, s: Seq<SeriesView<V>>, i: int)
    requires
        0 <= i < s.len(),
    ensures
        group_labels(
            grouping_view(grouping),
            s,
            rendered(kept_labels(grouping_view(grouping), s[i].labels)),
        ) is Some,
    decreases s.len(),
{
    if i < s.len() - 1 {
        assert(s.drop_last()[i] == s[i]);
        every_series_has_a_group(grouping, s.drop_last(), i);
    }
}

/// Whether `out` is an aggregation of series: one series for each set of kept labels, with
/// one point at each time at which a series with these labels has one, whose value reduces
/// the values of all of them at that time.
pub open spec fn reduces_groups<V>(
    grouping: Option<Grouping>,
    s: Seq<SeriesView<V>>,
    out: Map<Seq<char>, SeriesView<V>>,
    reduce: spec_fn(Seq<V>, V) -> bool,
) -> bool {
    &&& forall|key: Seq<char>| #[trigger]
        out.dom().contains(key) ==> exists|i: int|
            0 <= i < s.len() && kept_of(grouping, (#[trigger] s[i]).labels, out[key].labels)
    &&& forall|i: int|
        0 <= i < s.len() ==> exists|key: Seq<char>| #[trigger]
            out.dom().contains(key) && kept_of(
                grouping,
                (#[trigger] s[i]).labels,
                out[key].labels,
            )
    &&& forall|key: Seq<char>, other: Seq<char>|
        #![trigger out[key], out[other]]
        out.dom().contains(key) && out.dom().contains(other) && out[key].labels
            == out[other].labels ==> key == other
    &&& forall|key: Seq<char>, j: int|
        #![trigger out[key].points[j]]
        out.dom().contains(key) && 0 <= j < out[key].points.len() ==> {
            let values = member_values(grouping, s, out[key].labels, out[key].points[j].0);
            values.len() > 0 && reduce(values, out[key].points[j].1)
        }
    &&& forall|key: Seq<char>, t: i64|
        #![trigger member_values(grouping, s, out[key].labels, t)]
        out.dom().contains(key) && member_values(grouping, s, out[key].labels, t).len() > 0
            ==> exists|j: int|
            0 <= j < out[key].points.len() && (#[trigger] out[key].points[j]).0 == t
    &&& forall|key: Seq<char>, j: int, k: int|
        #![trigger out[key].points[j], out[key].points[k]]
        out.dom().contains(key) && 0 <= j < k < out[key].points.len() ==> out[key].points[j].0
            < out[key].points[k].0
}

proof fn groups_are_reduced<V: Number>(
    op: AggKind,
    grouping: Option<Grouping>,
    s: Seq<SeriesView<V>>,
    out: Map<Seq<char>, SeriesView<V>>,
    reduce: spec_fn(Seq<V>, V) -> bool,
)
    requires
        labels_are_finite(s),
        series_aggregated(op, grouping_view(grouping), s, out),
        forall|values: Seq<V>, x: V| #[trigger]
            aggregated(op, values, x) && values.len() > 0 ==> reduce(values, x),
    ensures
        reduces_groups(grouping, s, out, reduce),
{
    let g = grouping_view(grouping);
    assert forall|key: Seq<char>| #[trigger] out.dom().contains(key) implies exists|i: int|
        0 <= i < s.len() && kept_of(grouping, (#[trigger] s[i]).labels, out[key].labels) by {
        let i = group_labels_are_kept(grouping, s, key);
        assert(out[key].labels == kept_labels(g, s[i].labels));
        kept_labels_are_kept(grouping, s[i].labels, out[key].labels);
    }
    assert forall|key: Seq<char>| #[trigger] out.dom().contains(key) implies key == rendered(
        out[key].labels,
    ) && out[key].labels.dom().finite() by {
        let i = group_labels_are_kept(grouping, s, key);
        assert(out[key].labels == kept_labels(g, s[i].labels));
        kept_are_finite(grouping, s[i].labels);
    }
    assert forall|i: int| 0 <= i < s.len() implies exists|key: Seq<char>| #[trigger]
        out.dom().contains(key) && kept_of(
            grouping,
            (#[trigger] s[i]).labels,
            out[key].labels,
        ) by {
        let key = rendered(kept_labels(g, s[i].labels));
        every_series_has_a_group(grouping, s, i);
        assert(out.dom().contains(key));
        let j = group_labels_are_kept(grouping, s, key);
        assert(out[key].labels == kept_labels(g, s[j].labels));
        kept_are_finite(grouping, s[i].labels);
        kept_are_finite(grouping, s[j].labels);
        keys_tell_label_sets_apart(kept_labels(g, s[i].labels), kept_labels(g, s[j].labels));
        kept_labels_are_kept(grouping, s[i].labels, out[key].labels);
    }
    assert forall|key: Seq<char>, t: i64|
        #![trigger member_values(grouping, s, out[key].labels, t)]
        out.dom().contains(key) implies member_values(grouping, s, out[key].labels, t)
        == contributions(g, s, key, t) by {
        members_contribute(grouping, s, out[key].labels, t);
    }
    assert forall|key: Seq<char>, j: int|
        #![trigger out[key].points[j]]
        out.dom().contains(key) && 0 <= j < out[key].points.len() implies {
        let values = member_values(grouping, s, out[key].labels, out[key].points[j].0);
        values.len() > 0 && reduce(values, out[key].points[j].1)
    } by {
        let p = out[key].points[j];
        assert(group_points(op, g, s, key, out[key].points));
        members_contribute(grouping, s, out[key].labels, p.0);
        assert(aggregated(op, contributions(g, s, key, p.0), p.1));
    }
    assert forall|key: Seq<char>, t: i64|
        #![trigger member_values(grouping, s, out[key].labels, t)]
        out.dom().contains(key) && member_values(grouping, s, out[key].labels, t).len()
            > 0 implies exists|j: int|
        0 <= j < out[key].points.len() && (#[trigger] out[key].points[j]).0 == t by {
        assert(group_points(op, g, s, key, out[key].points));
        members_contribute(grouping, s, out[key].labels, t);
        assert(contributions(g, s, key, t).len() > 0);
    }
    assert forall|key: Seq<char>, j: int, k: int|
        #![trigger out[key].points[j], out[key].points[k]]
        out.dom().contains(key) && 0 <= j < k < out[key].points.len() implies out[key].points[j].0
        < out[key].points[k].0 by {
        assert(group_points(op, g, s, key, out[key].points));
    }
}

/// Whether the lesser and the greater of two values are those of the numbers that they
/// stand for.
pub open spec fn is_ordered_by<V: Number>(val: spec_fn(V) -> real) -> bool {
    &&& forall|a: V, b: V, x: V| #[trigger]
        call_ensures(V::least, (a, b), x) ==> (x == a || x == b) && val(x) <= val(a) && val(x)
            <= val(b)
    &&& forall|a: V, b: V, x: V| #[trigger]
        call_ensures(V::greatest, (a, b), x) ==> (x == a || x == b) && val(x) >= val(a) && val(x)
            >= val(b)
}

/// What an aggregation gives for values: their sum, their number, their mean, the least or
/// the greatest of them.
pub open spec fn is_aggregate<V>(
    val: spec_fn(V) -> real,
    op: Seq<char>,
    values: Seq<V>,
    x: V,
) -> bool {
    let all = numbers(val, values);
    &&& op == "sum"@ ==> val(x) == total(all)
    &&& op == "count"@ ==> val(x) == (all.len() as int) as real
    &&& op == "avg"@ && all.len() <= u64::MAX ==> val(x) == total(all) / ((all.len() as int)
        as real)
    &&& op == "min"@ ==> values.contains(x) && forall|i: int|
        0 <= i < all.len() ==> val(x) <= #[trigger] all[i]
    &&& op == "max"@ ==> values.contains(x) && forall|i: int|
        0 <= i < all.len() ==> val(x) >= #[trigger] all[i]
}

/// What is known of the keywords of aggregations.
pub proof fn operator_names_differ()
    ensures
        "sum"@.len() == 3,
        "sum"@[0] == 's',
        "max"@.len() == 3,
        "max"@[0] == 'm',
        "max"@[1] == 'a',
        "min"@.len() == 3,
        "min"@[0] == 'm',
        "min"@[1] == 'i',
        "avg"@.len() == 3,
        "avg"@[0] == 'a',
        "count"@.len() == 5,
{
    reveal_strlit("sum");
    reveal_strlit("max");
    reveal_strlit("min");
    reveal_strlit("avg");
    reveal_strlit("count");
}

proof fn totals_grow<V>(val: spec_fn(V) -> real, values: Seq<V>)
    requires
        values.len() > 0,
    ensures
        total(numbers(val, values)) == total(numbers(val, values.drop_last())) + val(values.last()),
{
    let all = numbers(val, values);
    assert(all.drop_last() =~= numbers(val, values.drop_last()));
    assert(all.last() == val(values.last()));
}

proof fn accumulators_add_up<V: Number>(
    val: spec_fn(V) -> real,
    op: AggKind,
    values: Seq<V>,
    acc: V,
)
    requires
        exact(val),
        folded(op, values, acc),
        op == AggKind::Sum || op == AggKind::Avg || op == AggKind::Count,
    ensures
        op == AggKind::Count ==> val(acc) == (values.len() as int) as real,
        op != AggKind::Count ==> val(acc) == total(numbers(val, values)),
    decreases values.len(),
{
    if values.len() == 0 {
        assert(numbers(val, values) =~= Seq::empty());
        assert(val(acc) == 0real);
    } else {
        let p = choose|p: V|
            folded(op, values.drop_last(), p) && #[trigger] reduced(
                op,
                p,
                capped((values.len() - 1) as nat),
                values.last(),
                acc,
            );
        accumulators_add_up(val, op, values.drop_last(), p);
        totals_grow(val, values);
        if op == AggKind::Count {
            let one = choose|one: V| #[trigger]
                counted(1, one) && calculated(Arithmetic::Add, p, one, acc);
            assert(val(one) == 1real);
            assert(val(acc) == val(p) + val(one));
        } else {
            assert(calculated(Arithmetic::Add, p, values.last(), acc));
        }
    }
}

proof fn accumulators_are_extreme<V: Number>(
    val: spec_fn(V) -> real,
    op: AggKind,
    values: Seq<V>,
    acc: V,
)
    requires
        is_ordered_by(val),
        folded(op, values, acc),
        values.len() > 0,
        op == AggKind::Min || op == AggKind::Max,
    ensures
        values.contains(acc),
        op == AggKind::Min ==> forall|i: int|
            0 <= i < values.len() ==> val(acc) <= val(#[trigger] values[i]),
        op == AggKind::Max ==> forall|i: int|
            0 <= i < values.len() ==> val(acc) >= val(#[trigger] values[i]),
    decreases values.len(),
{
    let last = values.len() - 1;
    let rest = values.drop_last();
    let p = choose|p: V|
        folded(op, rest, p) && #[trigger] reduced(
            op,
            p,
            capped((values.len() - 1) as nat),
            values.last(),
            acc,
        );
    assert(values[last] == values.last());
    if rest.len() > 0 {
        accumulators_are_extreme(val, op, rest, p);
        let i = choose|i: int| 0 <= i < rest.len() && rest[i] == p;
        assert(values[i] == p);
        assert forall|i: int| 0 <= i < values.len() implies if op == AggKind::Min {
            val(acc) <= val(#[trigger] values[i])
        } else {
            val(acc) >= val(values[i])
        } by {
            if i < last {
                assert(rest[i] == values[i]);
            }
        }
    }
}

proof fn aggregates_are_named<V: Number>(
    val: spec_fn(V) -> real,
    op: Seq<char>,
    values: Seq<V>,
    x: V,
)
    requires
        exact(val),
        is_ordered_by(val),
        agg_kind(op) is Some,
        aggregated(agg_kind(op)->0, values, x),
        values.len() > 0,
    ensures
        is_aggregate(val, op, values, x),
{
    operator_names_differ();
    let kind = agg_kind(op)->0;
    let all = numbers(val, values);
    let acc = choose|acc: V| #[trigger]
        reduction(kind, acc, capped(values.len()), x) && folded(kind, values, acc);
    if op == "min"@ || op == "max"@ {
        accumulators_are_extreme(val, kind, values, acc);
    } else {
        accumulators_add_up(val, kind, values, acc);
        if op == "avg"@ && all.len() <= u64::MAX {
            let n = capped(values.len());
            let k = choose|k: V| #[trigger]
                counted(n, k) && calculated(Arithmetic::Div, acc, k, x);
            assert(val(k) == (n as int) as real);
            assert(val(k) != 0real);
        }
    }
}

/// An aggregation over a range has one series for each set of kept labels of its inner
/// series, on the grid. At each time at which one of these has a point its value is the
/// sum, the number, the mean, the least or the greatest of their values, by the keyword.
/// This is so where the operations are exact. Returns the value of the inner expression.
pub proof fn ranges_are_aggregated<V: Number>(
    val: spec_fn(V) -> real,
    op: String,
    expr: Box<PromExpr>,
    param: Option<Box<PromExpr>>,
    grouping: Option<Grouping>,
    win: RangeWindow,
    step: i64,
    leaves: Seq<LeafVal<V>>,
    out: RangeVal<V>,
) -> (v: RangeVal<V>)
    requires
        exact(val),
        is_ordered_by(val),
        op@ == "sum"@ || op@ == "count"@ || op@ == "avg"@ || op@ == "min"@ || op@ == "max"@,
        grouping matches Some(Grouping::Include(l)) ==> !names(l@, "le"@),
        range_value(
            PromExpr::Aggregate { op, expr, param, grouping },
            win,
            step,
            leaves,
            out,
        ),
    ensures
        range_value(*expr, win, step, leaves, v),
        v matches RangeVal::Scalar(a) ==> out == RangeVal::Scalar(a),
        v matches RangeVal::Vector(m) ==> out matches RangeVal::Vector(o) && reduces_groups(
            grouping,
            aligned_list(
                series_list(m.listing()),
                win.start as int,
                win.end as int,
                step as int,
            ),
            series_view(o@),
            |values: Seq<V>, x: V| is_aggregate(val, op@, values, x),
        ),
{
    let e = PromExpr::Aggregate { op, expr, param, grouping };
    operator_names_differ();
    reductions_are_reduced(op, expr, param, grouping);
    let v = choose|v: RangeVal<V>|
        range_value(*expr, win, step, leaves, v) && #[trigger] range_reduced(
            op@,
            grouping,
            win,
            step,
            v,
            out,
        );
    if let RangeVal::Vector(m) = v {
        let s = aligned_list(
            series_list(m.listing()),
            win.start as int,
            win.end as int,
            step as int,
        );
        assert forall|i: int| 0 <= i < s.len() implies (#[trigger] s[i]).labels.dom().finite() by {
            m.listing()[i].1.labels.is_finite();
        }
        let reduce = |values: Seq<V>, x: V| is_aggregate(val, op@, values, x);
        assert forall|values: Seq<V>, x: V| #[trigger]
            aggregated(agg_kind(op@)->0, values, x) && values.len() > 0 implies reduce(
            values,
            x,
        ) by {
            aggregates_are_named(val, op@, values, x);
        }
        groups_are_reduced(
            agg_kind(op@)->0,
            grouping,
            s,
            series_view(out->Vector_0@),
            reduce,
        );
    }
    v
}

proof fn reductions_are_reduced(
    op: String,
    expr: Box<PromExpr>,
    param: Option<Box<PromExpr>>,
    grouping: Option<Grouping>,
)
    requires
        op@ == "sum"@ || op@ == "count"@ || op@ == "avg"@ || op@ == "min"@ || op@ == "max"@,
        grouping matches Some(Grouping::Include(l)) ==> !names(l@, "le"@),
    ensures
        is_reduction(PromExpr::Aggregate { op, expr, param, grouping }),
{
    operator_names_differ();
    reveal_strlit("topk");
    reveal_strlit("bottomk");
    assert("topk"@.len() == 4);
    assert("bottomk"@.len() == 7);
}

/// An aggregation without `by` and `without` gives one series without labels for all of its
/// inner series, and none where there are none.
pub proof fn ungrouped_aggregations_give_one_series<V: Number>(
    op: String,
    expr: Box<PromExpr>,
    param: Option<Box<PromExpr>>,
    win: RangeWindow,
    step: i64,
    leaves: Seq<LeafVal<V>>,
    out: RangeVal<V>,
) -> (v: RangeVal<V>)
    requires
        op@ == "sum"@ || op@ == "count"@ || op@ == "avg"@ || op@ == "min"@ || op@ == "max"@,
        range_value(
            PromExpr::Aggregate { op, expr, param, grouping: None },
            win,
            step,
            leaves,
            out,
        ),
    ensures
        range_value(*expr, win, step, leaves, v),
        v matches RangeVal::Vector(m) ==> out matches RangeVal::Vector(o) && {
            let series = series_view(o@);
            &&& forall|key: Seq<char>| #[trigger]
                series.dom().contains(key) ==> series[key].labels == Map::<
                    Seq<char>,
                    Seq<char>,
                >::empty()
            &&& forall|key: Seq<char>, other: Seq<char>| #[trigger]
                series.dom().contains(key) && #[trigger] series.dom().contains(other) ==> key
                    == other
            &&& (exists|key: Seq<char>| series.dom().contains(key)) <==> m.listing().len() > 0
        },
{
    let none: Option<Grouping> = None;
    operator_names_differ();
    reductions_are_reduced(op, expr, param, none);
    let v = choose|v: RangeVal<V>|
        range_value(*expr, win, step, leaves, v) && #[trigger] range_reduced(
            op@,
            none,
            win,
            step,
            v,
            out,
        );
    if let RangeVal::Vector(m) = v {
        let s = aligned_list(
            series_list(m.listing()),
            win.start as int,
            win.end as int,
            step as int,
        );
        assert forall|i: int| 0 <= i < s.len() implies (#[trigger] s[i]).labels.dom().finite() by {
            m.listing()[i].1.labels.is_finite();
        }
        let series = series_view(out->Vector_0@);
        groups_are_reduced(agg_kind(op@)->0, none, s, series, |values: Seq<V>, x: V| true);
        assert forall|key: Seq<char>| #[trigger] series.dom().contains(key) implies series[key].labels
            == Map::<Seq<char>, Seq<char>>::empty() by {
            let i = choose|i: int|
                0 <= i < s.len() && kept_of(none, (#[trigger] s[i]).labels, series[key].labels);
            kept_labels_are_kept(none, s[i].labels, series[key].labels);
            aggregations_keep_their_labels(none, s[i].labels);
        }
        assert forall|key: Seq<char>, other: Seq<char>| #[trigger]
            series.dom().contains(key) && #[trigger] series.dom().contains(other) implies key
            == other by {
            assert(series[key].labels == series[other].labels);
        }
        if m.listing().len() > 0 {
            assert(s[0].labels.dom().finite());
            let key = choose|key: Seq<char>| #[trigger]
                series.dom().contains(key) && kept_of(none, s[0].labels, series[key].labels);
            assert(series.dom().contains(key));
        }
    }
    v
}

} // verus!
