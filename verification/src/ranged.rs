//! Laws of range queries: the grid, the order of points, and the series that are kept.
use crate::aggregate::aligned;
use crate::grid::{
    carried, has_time, is_first, is_first_at, is_timeline, latest_point_is_carried,
    reached_from, resampled,
    resampled_points_lie_on_the_grid, time_ordered, Point,
};
use crate::grouping::is_ordered_by;
use crate::number::Number;
use crate::range::{valued, SampleRow};
use crate::rank::{
    comes_before, is_peak, is_ranking, is_selection, kept_count, picked, ranked_by, ranks_of,
    selection_keeps_the_best,
    top_series, Score,
};
use crate::series::{LabelMap, SeriesView};
use vstd::prelude::*;

verus! {

/// Whether the `k`-th of the points is the latest one up to a moment.
pub open spec fn is_latest<V>(points: Seq<Point<V>>, k: int, g: int) -> bool {
    &&& 0 <= k < points.len()
    &&& points[k].0 <= g
    &&& forall|j: int| k < j < points.len() ==> (#[trigger] points[j]).0 > g
}

/// Whether all of the points are later than a moment.
pub open spec fn are_later<V>(points: Seq<Point<V>>, g: int) -> bool {
    forall|j: int| 0 <= j < points.len() ==> (#[trigger] points[j]).0 > g
}

/// How long a sample is carried forward: five minutes, or a step where that is longer.
pub open spec fn carried_for(step: int) -> int {
    if step > 300_000_000_000 {
        step
    } else {
        300_000_000_000
    }
}

proof fn resampled_has<V>(
    points: Seq<Point<V>>,
    g: int,
    end: int,
    step: int,
    staleness: int,
    n: int,
)
    requires
        step > 0,
        n >= 0,
        g + n * step <= end,
        carried(points, g + n * step, staleness) is Some,
    ensures
        resampled(points, g, end, step, staleness).contains(
            ((g + n * step) as i64, carried(points, g + n * step, staleness)->0),
        ),
    decreases n,
{
    let r = resampled(points, g, end, step, staleness);
    let x = ((g + n * step) as i64, carried(points, g + n * step, staleness)->0);
    assert(n * step >= 0) by (nonlinear_arith)
        requires
            n >= 0,
            step > 0,
    ;
    if n == 0 {
        assert(n * step == 0) by (nonlinear_arith)
            requires
                n == 0,
        ;
        assert(r[0] == x);
    } else {
        assert(n * step == step + (n - 1) * step) by (nonlinear_arith);
        assert(n * step >= step) by (nonlinear_arith)
            requires
                n >= 1,
                step > 0,
        ;
        resampled_has(points, g + step, end, step, staleness, n - 1);
        let rest = resampled(points, g + step, end, step, staleness);
        let i = choose|i: int| 0 <= i < rest.len() && rest[i] == x;
        if carried(points, g, staleness) is Some {
            assert(r[i + 1] == x);
        } else {
            assert(r[i] == x);
        }
    }
}

/// On a grid of at most a hundred thousand steps a series has, at each moment of the grid,
/// the value of its latest point up to that moment, if that is not older than five minutes
/// or a step, whichever is longer; and else nothing there.
pub proof fn the_latest_point_is_on_the_grid<V>(
    s: SeriesView<V>,
    start: i64,
    end: i64,
    step: i64,
    n: int,
    k: int,
)
    requires
        step > 0,
        end - start < 100_001 * step,
        time_ordered(s.points),
        n >= 0,
        start + n * step <= end,
        is_latest(s.points, k, start + n * step),
    ensures
        ({
            let g = start + n * step;
            let on_grid = aligned(s, start as int, end as int, step as int);
            &&& on_grid.labels == s.labels
            &&& g - s.points[k].0 <= carried_for(step as int) ==> on_grid.points.contains(
                (g as i64, s.points[k].1),
            )
            &&& g - s.points[k].0 > carried_for(step as int) ==> forall|i: int|
                0 <= i < on_grid.points.len() ==> (#[trigger] on_grid.points[i]).0 != g
        }),
{
    let g = start + n * step;
    let staleness = carried_for(step as int);
    assert(n * step >= 0) by (nonlinear_arith)
        requires
            n >= 0,
            step > 0,
    ;
    latest_point_is_carried(s.points, k, g, staleness);
    resampled_points_lie_on_the_grid(s.points, start, end, step, staleness);
    if g - s.points[k].0 <= staleness {
        resampled_has(s.points, start as int, end as int, step as int, staleness, n);
    } else {
        let r = aligned(s, start as int, end as int, step as int).points;
        assert forall|i: int| 0 <= i < r.len() implies (#[trigger] r[i]).0 != g by {
            assert(carried(s.points, r[i].0 as int, staleness) == Some(r[i].1));
        }
    }
}

proof fn reached_is_the_latest<V>(points: Seq<Point<V>>, i: int, g: int)
    requires
        time_ordered(points),
        0 <= i <= points.len(),
        forall|j: int| 0 <= j < i ==> (#[trigger] points[j]).0 <= g,
    ensures
        i <= reached_from(points, i, g) <= points.len(),
        forall|j: int| 0 <= j < reached_from(points, i, g) ==> (#[trigger] points[j]).0 <= g,
        forall|j: int|
            reached_from(points, i, g) <= j < points.len() ==> (#[trigger] points[j]).0 > g,
    decreases points.len() - i,
{
    if i < points.len() {
        if points[i].0 <= g {
            reached_is_the_latest(points, i + 1, g);
        } else {
            assert forall|j: int| i <= j < points.len() implies (#[trigger] points[j]).0 > g by {
                if i < j {
                    assert(points[i].0 <= points[j].0);
                }
            }
        }
    }
}

/// Every point of a series on a grid lies on it, within the span, in ascending order, with
/// the value of the latest point up to it, which is not stale. Nothing is made up. A span
/// without a grid leaves the series as it is.
pub proof fn points_on_the_grid_are_carried<V>(s: SeriesView<V>, start: i64, end: i64, step: i64)
    requires
        time_ordered(s.points),
    ensures
        ({
            let r = aligned(s, start as int, end as int, step as int).points;
            &&& step <= 0 || end - start >= 100_001 * step ==> r == s.points
            &&& step > 0 && end - start < 100_001 * step ==> (forall|i: int|
                0 <= i < r.len() ==> start <= (#[trigger] r[i]).0 <= end && (r[i].0 - start) % (
                step as int) == 0 && exists|k: int| #[trigger]
                    is_latest(s.points, k, r[i].0 as int) && s.points[k].1 == r[i].1 && r[i].0
                        - s.points[k].0 <= carried_for(step as int)) && forall|i: int, j: int|
                0 <= i < j < r.len() ==> (#[trigger] r[i]).0 < (#[trigger] r[j]).0
        }),
{
    let r = aligned(s, start as int, end as int, step as int).points;
    let staleness = carried_for(step as int);
    if step > 0 && end - start < 100_001 * step {
        resampled_points_lie_on_the_grid(s.points, start, end, step, staleness);
        assert forall|i: int| 0 <= i < r.len() implies start <= (#[trigger] r[i]).0 <= end && (
        r[i].0 - start) % (step as int) == 0 && exists|k: int| #[trigger]
            is_latest(s.points, k, r[i].0 as int) && s.points[k].1 == r[i].1 && r[i].0
                - s.points[k].0 <= staleness by {
            assert(carried(s.points, r[i].0 as int, staleness) == Some(r[i].1));
            reached_is_the_latest(s.points, 0, r[i].0 as int);
            let k = reached_from(s.points, 0, r[i].0 as int) - 1;
            assert(is_latest(s.points, k, r[i].0 as int));
        }
    }
}

/// A timeline holds, for each time that occurs, the first of the points at that time, in
/// ascending order of time, and nothing else.
pub proof fn timelines_hold_first_points<V>(points: Seq<Point<V>>, out: Seq<Point<V>>, k: int)
    requires
        is_timeline(points, out),
        0 <= k < points.len(),
        forall|j: int| 0 <= j < k ==> (#[trigger] points[j]).0 != points[k].0,
    ensures
        out.contains(points[k]),
        forall|i: int| 0 <= i < out.len() ==> points.contains(#[trigger] out[i]),
        forall|i: int, j: int|
            0 <= i < j < out.len() ==> (#[trigger] out[i]).0 < (#[trigger] out[j]).0,
{
    let t = points[k].0;
    assert(has_time(out, points[k].0));
    let i = choose|i: int| 0 <= i < out.len() && (#[trigger] out[i]).0 == t;
    assert(is_first(points, out[i]));
    let m = choose|m: int| #[trigger] is_first_at(points, m) && points[m] == out[i];
    if m < k {
        assert(points[m].0 != points[k].0);
    } else if k < m {
        assert(points[k].0 != points[m].0);
    }
    assert(out[i] == points[k]);
    assert forall|i: int| 0 <= i < out.len() implies points.contains(#[trigger] out[i]) by {
        assert(is_first(points, out[i]));
        let m = choose|m: int| #[trigger] is_first_at(points, m) && points[m] == out[i];
        assert(points[m] == out[i]);
    }
}

/// Whether a number is the greatest of the values of points.
pub open spec fn is_greatest<V>(
    val: spec_fn(V) -> real,
    points: Seq<Point<V>>,
    x: real,
) -> bool {
    &&& exists|i: int| 0 <= i < points.len() && val((#[trigger] points[i]).1) == x
    &&& forall|i: int| 0 <= i < points.len() ==> val((#[trigger] points[i]).1) <= x
}

/// Whether values are ranked by the numbers that they stand for, with the lowest value
/// below all.
pub open spec fn is_ranked_by<V: Number>(val: spec_fn(V) -> real) -> bool {
    &&& forall|x: V, y: V, a: i64, b: i64|
        #![trigger call_ensures(V::rank, (x,), a), call_ensures(V::rank, (y,), b)]
        call_ensures(V::rank, (x,), a) && call_ensures(V::rank, (y,), b) ==> (val(x) < val(y) <==> a
            < b)
    &&& forall|x: V, y: V| #[trigger]
        call_ensures(V::lowest, (), x) ==> val(x) <= #[trigger] val(y)
}

proof fn peaks_are_greatest<V: Number>(
    val: spec_fn(V) -> real,
    points: Seq<Point<V>>,
    x: V,
    m: real,
)
    requires
        is_ordered_by(val),
        is_ranked_by(val),
        is_peak(points, x),
        is_greatest(val, points, m),
    ensures
        val(x) == m,
{
    peaks_bound(val, points, x);
    let i = choose|i: int| 0 <= i < points.len() && val((#[trigger] points[i]).1) == m;
    assert(val(points[i].1) <= val(x));
}

proof fn peaks_bound<V: Number>(val: spec_fn(V) -> real, points: Seq<Point<V>>, x: V)
    requires
        is_ordered_by(val),
        is_ranked_by(val),
        is_peak(points, x),
    ensures
        forall|i: int| 0 <= i < points.len() ==> val((#[trigger] points[i]).1) <= val(x),
        points.len() > 0 ==> exists|i: int|
            0 <= i < points.len() && val((#[trigger] points[i]).1) == val(x),
    decreases points.len(),
{
    if points.len() > 0 {
        let rest = points.drop_last();
        let last = points.len() - 1;
        let p = choose|p: V|
            is_peak(rest, p) && #[trigger] call_ensures(V::greatest, (p, points.last().1), x);
        peaks_bound(val, rest, p);
        assert(points[last] == points.last());
        assert forall|i: int| 0 <= i < points.len() implies val((#[trigger] points[i]).1) <= val(
            x,
        ) by {
            if i < last {
                assert(rest[i] == points[i]);
            }
        }
        if x == points.last().1 {
            assert(val(points[last].1) == val(x));
        } else if rest.len() > 0 {
            let i = choose|i: int| 0 <= i < rest.len() && val((#[trigger] rest[i]).1) == val(p);
            assert(points[i] == rest[i]);
        } else {
            assert(call_ensures(V::lowest, (), p));
            assert(val(p) <= val(points.last().1));
            assert(val(points[last].1) == val(x));
        }
    }
}

/// `topk` keeps the series with the highest peaks, and `bottomk` those with the lowest:
/// exactly as many as were asked for and are there, each whole and once, in the order of
/// their peaks, and none that is left out has a better one. Returns the places of the
/// series that are kept.
pub proof fn whole_series_are_ranked<V: Number>(
    val: spec_fn(V) -> real,
    n: int,
    top: bool,
    s: Seq<SeriesView<V>>,
    out: Seq<SeriesView<V>>,
) -> (at: Seq<int>)
    requires
        is_ordered_by(val),
        is_ranked_by(val),
        s.len() <= usize::MAX,
        top_series(Score::Peak, n, top, s, out),
    ensures
        out.len() == if n < 0 {
            0
        } else if n > s.len() {
            s.len() as int
        } else {
            n
        },
        at.len() == out.len(),
        forall|i: int|
            0 <= i < at.len() ==> 0 <= #[trigger] at[i] < s.len() && out[i] == s[at[i]],
        forall|i: int, j: int|
            0 <= i < j < at.len() ==> #[trigger] at[i] != #[trigger] at[j],
        forall|i: int, j: int, x: real, y: real|
            #![trigger is_greatest(val, s[at[i]].points, x), is_greatest(val, s[at[j]].points, y)]
            0 <= i < j < at.len() && is_greatest(val, s[at[i]].points, x) && is_greatest(
                val,
                s[at[j]].points,
                y,
            ) ==> if top {
                x >= y
            } else {
                x <= y
            },
        forall|i: int, j: int, x: real, y: real|
            #![trigger is_greatest(val, s[at[i]].points, x), is_greatest(val, s[j].points, y)]
            0 <= i < at.len() && 0 <= j < s.len() && !at.contains(j) && is_greatest(
                val,
                s[at[i]].points,
                x,
            ) && is_greatest(val, s[j].points, y) ==> if top {
                x >= y
            } else {
                x <= y
            },
{
    let (ranks, chosen) = choose|ranks: Seq<i64>, chosen: Seq<usize>| #[trigger]
        ranks_of(Score::Peak, s, ranks) && #[trigger] is_selection(ranks, top, n, chosen) && out
            == picked(s, chosen);
    let order = choose|order: Seq<usize>| #[trigger]
        is_ranking(ranks, top, ranks.len() as int, order) && chosen == order.take(
            kept_count(n, ranks.len()),
        );
    let at = chosen.map_values(|x: usize| x as int);
    assert forall|i: int| 0 <= i < at.len() implies 0 <= #[trigger] at[i] < s.len() && out[i]
        == s[at[i]] by {
        assert(chosen[i] == order[i]);
    }
    assert forall|i: int, j: int| 0 <= i < j < at.len() implies #[trigger] at[i] != #[trigger] at[j] by {
        assert(comes_before(ranks, top, order[i] as int, order[j] as int));
    }
    assert forall|i: int, j: int, x: real, y: real|
        0 <= i < s.len() && 0 <= j < s.len() && #[trigger] is_greatest(val, s[i].points, x)
            && #[trigger] is_greatest(val, s[j].points, y) && comes_before(
            ranks,
            top,
            i,
            j,
        ) implies if top {
        x >= y
    } else {
        x <= y
    } by {
        assert(ranked_by(Score::Peak, s[i], ranks[i]));
        assert(ranked_by(Score::Peak, s[j], ranks[j]));
        let a = choose|a: V| #[trigger]
            call_ensures(V::rank, (a,), ranks[i]) && is_peak(s[i].points, a);
        let b = choose|b: V| #[trigger]
            call_ensures(V::rank, (b,), ranks[j]) && is_peak(s[j].points, b);
        peaks_are_greatest(val, s[i].points, a, x);
        peaks_are_greatest(val, s[j].points, b, y);
    }
    assert forall|i: int, j: int, x: real, y: real|
        #![trigger is_greatest(val, s[at[i]].points, x), is_greatest(val, s[at[j]].points, y)]
        0 <= i < j < at.len() && is_greatest(val, s[at[i]].points, x) && is_greatest(
            val,
            s[at[j]].points,
            y,
        ) implies if top {
        x >= y
    } else {
        x <= y
    } by {
        assert(comes_before(ranks, top, order[i] as int, order[j] as int));
    }
    assert forall|i: int, j: int, x: real, y: real|
        #![trigger is_greatest(val, s[at[i]].points, x), is_greatest(val, s[j].points, y)]
        0 <= i < at.len() && 0 <= j < s.len() && !at.contains(j) && is_greatest(
            val,
            s[at[i]].points,
            x,
        ) && is_greatest(val, s[j].points, y) implies if top {
        x >= y
    } else {
        x <= y
    } by {
        assert(chosen[i] == at[i] as usize);
        assert(chosen.contains(at[i] as usize));
        assert(!chosen.contains(j as usize)) by {
            if chosen.contains(j as usize) {
                let k = choose|k: int| 0 <= k < chosen.len() && chosen[k] == j as usize;
                assert(at[k] == j);
            }
        }
        selection_keeps_the_best(ranks, top, n, chosen, at[i], j);
    }
    at
}

/// The samples of an instant query are those of the rows that have a value, in their order.
pub proof fn rows_with_values_are_samples<V>(rows: Seq<SampleRow<V>>)
    ensures
        valued(rows) == rows.filter(|r: SampleRow<V>| r.value is Some).map_values(
            |r: SampleRow<V>| (r.labels@, r.value->0),
        ),
    decreases rows.len(),
{
    reveal(Seq::filter);
    let pred = |r: SampleRow<V>| r.value is Some;
    let f = |r: SampleRow<V>| (r.labels@, r.value->0);
    if rows.len() == 0 {
        assert(rows.filter(pred).map_values(f) =~= Seq::<(LabelMap, V)>::empty());
    } else {
        let rest = rows.drop_last();
        rows_with_values_are_samples(rest);
        if pred(rows.last()) {
            assert(rest.filter(pred).push(rows.last()).map_values(f) =~= rest.filter(
                pred,
            ).map_values(f).push(f(rows.last())));
        }
    }
}

} // verus!
