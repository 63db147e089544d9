//! Points of a series in time: ordering them, and carrying them onto a grid.
use vstd::prelude::*;

verus! {

/// Max grid points to resample to: a guard against a pathological tiny step.
pub const MAX_GRID_POINTS: i64 = 100_000;

/// Prometheus default lookback delta: carry a sample forward up to 5 minutes.
pub const STALENESS_NS: i64 = 300_000_000_000;

/// A sample: its time in nanoseconds, and its value.
pub type Point<V> = (i64, V);

/// The first place from `i` on whose point is later than `g`.
pub open spec fn reached_from<V>(points: Seq<Point<V>>, i: int, g: int) -> int
    decreases points.len() - i,
{
    if 0 <= i < points.len() && points[i].0 <= g {
        reached_from(points, i + 1, g)
    } else {
        i
    }
}

/// The value that is carried to the moment `g`: that of the last point before the
/// first one later than `g`, unless it is older than the staleness.
pub open spec fn carried<V>(points: Seq<Point<V>>, g: int, staleness: int) -> Option<V> {
    let n = reached_from(points, 0, g);
    if n > 0 && g - points[n - 1].0 <= staleness {
        Some(points[n - 1].1)
    } else {
        None
    }
}

/// The points on the grid `g, g + step, …` up to `end` to which a value is carried.
pub open spec fn resampled<V>(
    points: Seq<Point<V>>,
    g: int,
    end: int,
    step: int,
    staleness: int,
) -> Seq<Point<V>>
    decreases end + step - g,
{
    if step <= 0 || g > end {
        Seq::empty()
    } else {
        let rest = resampled(points, g + step, end, step, staleness);
        match carried(points, g, staleness) {
            Some(v) => seq![(g as i64, v)] + rest,
            None => rest,
        }
    }
}

proof fn reached_bounds<V>(points: Seq<Point<V>>, i: int, g: int)
    requires
        0 <= i <= points.len(),
    ensures
        i <= reached_from(points, i, g) <= points.len(),
        forall|j: int| i <= j < reached_from(points, i, g) ==> (#[trigger] points[j]).0 <= g,
        reached_from(points, i, g) < points.len() ==> points[reached_from(points, i, g)].0 > g,
    decreases points.len() - i,
{
    if i < points.len() && points[i].0 <= g {
        reached_bounds(points, i + 1, g);
    }
}

proof fn reached_skips<V>(points: Seq<Point<V>>, i: int, k: int, g: int)
    requires
        0 <= i <= k <= points.len(),
        forall|j: int| i <= j < k ==> (#[trigger] points[j]).0 <= g,
    ensures
        reached_from(points, i, g) == reached_from(points, k, g),
    decreases k - i,
{
    if i < k {
        reached_skips(points, i + 1, k, g);
    }
}

/// Resample time-ordered points onto the `[start, end]` grid at `step_ns`, emitting
/// one point per grid timestamp that has a sample at or before it within
/// `staleness_ns` (last-value-carry-forward).
pub fn resample_to_grid<V: Copy>(
    points: &Vec<Point<V>>,
    start_ns: i64,
    end_ns: i64,
    step_ns: i64,
    staleness_ns: i64,
) -> (out: Vec<Point<V>>)
    requires
        step_ns > 0,
    ensures
        out@ == resampled(
            points@,
            start_ns as int,
            end_ns as int,
            step_ns as int,
            staleness_ns as int,
        ),
{
    let ghost want = resampled(
        points@,
        start_ns as int,
        end_ns as int,
        step_ns as int,
        staleness_ns as int,
    );
    let mut out: Vec<Point<V>> = Vec::new();
    let mut idx: usize = 0;
    let mut g: i64 = start_ns;
    assert(out@ + want =~= want);
    while g <= end_ns
        invariant
            step_ns > 0,
            idx <= points@.len(),
            forall|j: int| 0 <= j < idx ==> (#[trigger] points@[j]).0 <= g,
            out@ + resampled(
                points@,
                g as int,
                end_ns as int,
                step_ns as int,
                staleness_ns as int,
            ) == want,
            want == resampled(
                points@,
                start_ns as int,
                end_ns as int,
                step_ns as int,
                staleness_ns as int,
            ),
        decreases end_ns + step_ns - g,
    {
        let ghost from = idx;
        while idx < points.len() && points[idx].0 <= g
            invariant
                idx <= points@.len(),
                forall|j: int| 0 <= j < idx ==> (#[trigger] points@[j]).0 <= g,
            decreases points.len() - idx,
        {
            idx = idx + 1;
        }
        proof {
            reached_skips(points@, 0, idx as int, g as int);
        }
        let ghost rest = resampled(
            points@,
            g + step_ns,
            end_ns as int,
            step_ns as int,
            staleness_ns as int,
        );
        let ghost before = out@;
        if idx > 0 {
            let (t, v) = points[idx - 1];
            if g as i128 - t as i128 <= staleness_ns as i128 {
                out.push((g, v));
                assert(before + (seq![(g, v)] + rest) =~= out@ + rest);
            }
        }
        assert(out@ + rest == want);
        match g.checked_add(step_ns) {
            Some(next) => {
                g = next;
            },
            None => {
                assert(rest =~= Seq::empty());
                assert(out@ + rest =~= out@);
                return out;
            },
        }
    }
    assert(out@ + Seq::<Point<V>>::empty() =~= out@);
    out
}

/// Whether the points are in the order of their times.
pub open spec fn time_ordered<V>(points: Seq<Point<V>>) -> bool {
    forall|i: int, j: int|
        0 <= i < j < points.len() ==> (#[trigger] points[i]).0 <= (#[trigger] points[j]).0
}

/// Of time-ordered points it is the latest one at or before a moment that is carried
/// to it, and it is carried exactly as long as it is not stale.
pub proof fn latest_point_is_carried<V>(
    points: Seq<Point<V>>,
    k: int,
    g: int,
    staleness: int,
)
    requires
        time_ordered(points),
        0 <= k < points.len(),
        points[k].0 <= g,
        forall|j: int| k < j < points.len() ==> (#[trigger] points[j]).0 > g,
    ensures
        carried(points, g, staleness) == if g - points[k].0 <= staleness {
            Some(points[k].1)
        } else {
            None
        },
{
    assert forall|j: int| 0 <= j < k + 1 implies (#[trigger] points[j]).0 <= g by {
        if j < k {
            assert(points[j].0 <= points[k].0);
        }
    }
    reached_skips(points, 0, k + 1, g);
}

/// Nothing is carried to a moment before which there is no point.
pub proof fn nothing_is_carried_before_the_first_point<V>(
    points: Seq<Point<V>>,
    g: int,
    staleness: int,
)
    requires
        points.len() == 0 || points[0].0 > g,
    ensures
        carried(points, g, staleness) is None,
{
}

/// Resampled points lie on the grid, within the span, in ascending order, and each
/// has the value that is carried to its time.
pub proof fn resampled_points_lie_on_the_grid<V>(
    points: Seq<Point<V>>,
    start: i64,
    end: i64,
    step: i64,
    staleness: int,
)
    requires
        step > 0,
    ensures
        ({
            let r = resampled(points, start as int, end as int, step as int, staleness);
            &&& forall|i: int|
                0 <= i < r.len() ==> start <= (#[trigger] r[i]).0 <= end && (r[i].0 - start) % (
                step as int) == 0 && carried(points, r[i].0 as int, staleness) == Some(r[i].1)
            &&& forall|i: int, j: int|
                0 <= i < j < r.len() ==> (#[trigger] r[i]).0 < (#[trigger] r[j]).0
        }),
{
    assert((start - start) % (step as int) == 0) by {
        vstd::arithmetic::div_mod::lemma_small_mod(0, step as nat);
    }
    grid_from(points, start as int, start as int, end, step as int, staleness);
}

proof fn grid_from<V>(
    points: Seq<Point<V>>,
    start: int,
    g: int,
    end: i64,
    step: int,
    staleness: int,
)
    requires
        step > 0,
        i64::MIN <= start <= g,
        (g - start) % step == 0,
    ensures
        ({
            let r = resampled(points, g, end as int, step, staleness);
            &&& forall|i: int|
                0 <= i < r.len() ==> g <= (#[trigger] r[i]).0 <= end && (r[i].0 - start) % step == 0
                    && carried(points, r[i].0 as int, staleness) == Some(r[i].1)
            &&& forall|i: int, j: int|
                0 <= i < j < r.len() ==> (#[trigger] r[i]).0 < (#[trigger] r[j]).0
        }),
    decreases end + step - g,
{
    if g <= end {
        assert((g + step - start) % step == 0) by {
            vstd::arithmetic::div_mod::lemma_mod_add_multiples_vanish(g - start, step);
        }
        grid_from(points, start, g + step, end, step, staleness);
        let rest = resampled(points, g + step, end as int, step, staleness);
        let r = resampled(points, g, end as int, step, staleness);
        if carried(points, g, staleness) is Some {
            assert(r.len() == rest.len() + 1);
            assert(forall|i: int| 0 < i < r.len() ==> #[trigger] r[i] == rest[i - 1]);
        }
    }
}

/// Whether a span divided into steps has few enough grid points to be resampled.
pub open spec fn fits_grid(start: int, end: int, step: int) -> bool {
    step > 0 && end - start < (MAX_GRID_POINTS + 1) * step
}

/// Whether a span divided into steps has few enough grid points to be resampled.
pub fn has_grid(start_ns: i64, end_ns: i64, step_ns: i64) -> (r: bool)
    ensures
        r == fits_grid(start_ns as int, end_ns as int, step_ns as int),
{
    step_ns > 0 && (end_ns as i128 - start_ns as i128) < 100_001 * step_ns as i128
}

/// How long a sample is carried forward on a grid: the lookback delta, or a whole
/// step where that is longer.
pub open spec fn grid_staleness(step: int) -> int {
    if step > STALENESS_NS {
        step
    } else {
        STALENESS_NS as int
    }
}

/// How long a sample is carried forward on a grid.
pub fn staleness_for(step_ns: i64) -> (r: i64)
    ensures
        r == grid_staleness(step_ns as int),
{
    if step_ns > STALENESS_NS {
        step_ns
    } else {
        STALENESS_NS
    }
}

/// The points from `lo` to `hi`, in their order.
pub open spec fn within<V>(points: Seq<Point<V>>, lo: int, hi: int) -> Seq<Point<V>>
    decreases points.len(),
{
    if points.len() == 0 {
        Seq::empty()
    } else {
        let rest = within(points.drop_last(), lo, hi);
        if lo <= points.last().0 <= hi {
            rest.push(points.last())
        } else {
            rest
        }
    }
}

/// The points from `lo` to `hi`: what a scan that looked back further read earlier
/// is not emitted.
pub fn points_within<V: Copy>(points: &Vec<Point<V>>, lo: i64, hi: i64) -> (out: Vec<Point<V>>)
    ensures
        out@ == within(points@, lo as int, hi as int),
{
    let mut out: Vec<Point<V>> = Vec::new();
    let mut i: usize = 0;
    while i < points.len()
        invariant
            i <= points@.len(),
            out@ == within(points@.take(i as int), lo as int, hi as int),
        decreases points.len() - i,
    {
        proof {
            assert(points@.take(i + 1).drop_last() =~= points@.take(i as int));
        }
        let p = points[i];
        if lo <= p.0 && p.0 <= hi {
            out.push(p);
        }
        i = i + 1;
    }
    assert(points@.take(points@.len() as int) =~= points@);
    out
}

/// Whether the `i`-th point is the first one at its time.
pub open spec fn is_first_at<V>(points: Seq<Point<V>>, i: int) -> bool {
    &&& 0 <= i < points.len()
    &&& forall|j: int| 0 <= j < i ==> (#[trigger] points[j]).0 != points[i].0
}

/// Whether a point is the first one at its time.
pub open spec fn is_first<V>(points: Seq<Point<V>>, p: Point<V>) -> bool {
    exists|k: int| #[trigger] is_first_at(points, k) && points[k] == p
}

/// Whether there is a point at a time.
pub open spec fn has_time<V>(points: Seq<Point<V>>, t: i64) -> bool {
    exists|i: int| 0 <= i < points.len() && (#[trigger] points[i]).0 == t
}

/// Whether the points ascend strictly in time.
pub open spec fn times_ascend<V>(points: Seq<Point<V>>) -> bool {
    forall|i: int, j: int|
        0 <= i < j < points.len() ==> (#[trigger] points[i]).0 < (#[trigger] points[j]).0
}

/// Whether `out` holds, in strictly ascending order of time, the first point of each
/// time that occurs.
pub open spec fn is_timeline<V>(points: Seq<Point<V>>, out: Seq<Point<V>>) -> bool {
    &&& times_ascend(out)
    &&& forall|i: int| 0 <= i < out.len() ==> #[trigger] is_first(points, out[i])
    &&& forall|k: int| 0 <= k < points.len() ==> #[trigger] has_time(out, points[k].0)
}

proof fn first_stays_first<V>(points: Seq<Point<V>>, p: Point<V>, x: Point<V>)
    requires
        is_first(points, x),
    ensures
        is_first(points.push(p), x),
{
    let more = points.push(p);
    let k = choose|k: int| #[trigger] is_first_at(points, k) && points[k] == x;
    assert forall|j: int| 0 <= j < k implies (#[trigger] more[j]).0 != more[k].0 by {
        assert(points[j].0 != points[k].0);
    }
    assert(is_first_at(more, k) && more[k] == x);
}

/// A timeline into which a point of a new time was put in its place.
proof fn timeline_grows<V>(
    points: Seq<Point<V>>,
    p: Point<V>,
    out: Seq<Point<V>>,
    at: int,
    r: Seq<Point<V>>,
)
    requires
        is_timeline(points, out),
        0 <= at <= out.len(),
        r == out.insert(at, p),
        forall|i: int| 0 <= i < at ==> (#[trigger] out[i]).0 < p.0,
        forall|i: int| at <= i < out.len() ==> (#[trigger] out[i]).0 > p.0,
    ensures
        is_timeline(points.push(p), r),
{
    let more = points.push(p);
    assert forall|i: int, j: int| 0 <= i < j < r.len() implies (#[trigger] r[i]).0 < (
    #[trigger] r[j]).0 by {
        let x = if i < at { i } else { i - 1 };
        let y = if j < at { j } else { j - 1 };
        if i != at {
            assert(r[i] == out[x]);
        }
        if j != at {
            assert(r[j] == out[y]);
        }
        if i != at && j != at {
            assert(out[x].0 < out[y].0);
        }
    }
    assert(is_first(more, p)) by {
        let k = points.len() as int;
        assert forall|j: int| 0 <= j < k implies (#[trigger] more[j]).0 != more[k].0 by {
            assert(has_time(out, points[j].0));
            let m = choose|m: int| 0 <= m < out.len() && (#[trigger] out[m]).0 == points[j].0;
            assert(more[j] == points[j]);
        }
        assert(is_first_at(more, k));
    }
    assert forall|i: int| 0 <= i < r.len() implies #[trigger] is_first(more, r[i]) by {
        if i != at {
            let x = if i < at { i } else { i - 1 };
            assert(r[i] == out[x]);
            assert(is_first(points, out[x]));
            first_stays_first(points, p, out[x]);
        }
    }
    assert forall|k: int| 0 <= k < more.len() implies #[trigger] has_time(r, more[k].0) by {
        if k < points.len() {
            assert(more[k] == points[k]);
            assert(has_time(out, points[k].0));
            let m = choose|m: int| 0 <= m < out.len() && (#[trigger] out[m]).0 == points[k].0;
            let i = if m < at { m } else { m + 1 };
            assert(r[i] == out[m]);
        } else {
            assert(r[at].0 == more[k].0);
        }
    }
}

/// A timeline that already has a point at the time of another one.
proof fn timeline_stays<V>(points: Seq<Point<V>>, p: Point<V>, out: Seq<Point<V>>)
    requires
        is_timeline(points, out),
        has_time(out, p.0),
    ensures
        is_timeline(points.push(p), out),
{
    let more = points.push(p);
    assert forall|i: int| 0 <= i < out.len() implies #[trigger] is_first(more, out[i]) by {
        assert(is_first(points, out[i]));
        first_stays_first(points, p, out[i]);
    }
    assert forall|k: int| 0 <= k < more.len() implies #[trigger] has_time(out, more[k].0) by {
        if k < points.len() {
            assert(more[k] == points[k]);
            assert(has_time(out, points[k].0));
        }
    }
}

/// Order points by time, and drop all but the first of those at one time (the
/// overlaps at the boundaries of shards).
pub fn timeline<V: Copy>(points: &Vec<Point<V>>) -> (out: Vec<Point<V>>)
    ensures
        is_timeline(points@, out@),
{
    let mut out: Vec<Point<V>> = Vec::new();
    let mut i: usize = 0;
    while i < points.len()
        invariant
            i <= points@.len(),
            is_timeline(points@.take(i as int), out@),
        decreases points.len() - i,
    {
        let p = points[i];
        let ghost seen = points@.take(i as int);
        let ghost before = out@;
        let mut at: usize = out.len();
        while at > 0 && out[at - 1].0 > p.0
            invariant
                at <= out@.len(),
                forall|j: int| at <= j < out@.len() ==> (#[trigger] out@[j]).0 > p.0,
            decreases at,
        {
            at = at - 1;
        }
        if at > 0 && out[at - 1].0 == p.0 {
            proof {
                assert(before[at - 1].0 == p.0);
                timeline_stays(seen, p, before);
            }
        } else {
            out.insert(at, p);
            proof {
                assert forall|j: int| 0 <= j < at implies (#[trigger] before[j]).0 < p.0 by {
                    assert(before[at - 1].0 < p.0);
                    if j < at - 1 {
                        assert(before[j].0 < before[at - 1].0);
                    }
                }
                timeline_grows(seen, p, before, at as int, out@);
            }
        }
        proof {
            assert(points@.take(i + 1) =~= seen.push(p));
        }
        i = i + 1;
    }
    assert(points@.take(points@.len() as int) =~= points@);
    out
}

proof fn timelines_have_the_same_times<V>(
    points: Seq<Point<V>>,
    a: Seq<Point<V>>,
    b: Seq<Point<V>>,
)
    requires
        is_timeline(points, a),
        is_timeline(points, b),
    ensures
        a.len() == b.len(),
        forall|i: int| 0 <= i < a.len() ==> (#[trigger] a[i]).0 == b[i].0,
{
    let x = Seq::new(a.len(), |i: int| a[i].0 as int);
    let y = Seq::new(b.len(), |i: int| b[i].0 as int);
    assert forall|t: int| x.contains(t) implies y.contains(t) by {
        let i = choose|i: int| 0 <= i < x.len() && x[i] == t;
        timeline_has(points, a, b, i);
        let m = choose|m: int| 0 <= m < b.len() && (#[trigger] b[m]).0 == a[i].0;
        assert(y[m] == t);
    }
    assert forall|t: int| y.contains(t) implies x.contains(t) by {
        let i = choose|i: int| 0 <= i < y.len() && y[i] == t;
        timeline_has(points, b, a, i);
        let m = choose|m: int| 0 <= m < a.len() && (#[trigger] a[m]).0 == b[i].0;
        assert(x[m] == t);
    }
    assert forall|i: int, j: int| 0 <= i < j < x.len() implies #[trigger] x[i] < #[trigger] x[j] by {
        assert(a[i].0 < a[j].0);
    }
    assert forall|i: int, j: int| 0 <= i < j < y.len() implies #[trigger] y[i] < #[trigger] y[j] by {
        assert(b[i].0 < b[j].0);
    }
    ascending_ints_are_unique(x, y);
    assert(x.len() == a.len());
    assert(y.len() == b.len());
    assert(a.len() == b.len());
    assert forall|i: int| 0 <= i < a.len() implies (#[trigger] a[i]).0 == b[i].0 by {
        assert(x[i] == a[i].0);
        assert(y[i] == b[i].0);
    }
}

proof fn first_of_a_time_is_unique<V>(points: Seq<Point<V>>, p: Point<V>, q: Point<V>)
    requires
        is_first(points, p),
        is_first(points, q),
        p.0 == q.0,
    ensures
        p == q,
{
    let k = choose|k: int| #[trigger] is_first_at(points, k) && points[k] == p;
    let m = choose|m: int| #[trigger] is_first_at(points, m) && points[m] == q;
    if k < m {
        assert(points[k].0 != points[m].0);
    }
    if m < k {
        assert(points[m].0 != points[k].0);
    }
}

/// The timeline of points is determined by them.
pub proof fn timeline_is_unique<V>(points: Seq<Point<V>>, a: Seq<Point<V>>, b: Seq<Point<V>>)
    requires
        is_timeline(points, a),
        is_timeline(points, b),
    ensures
        a == b,
{
    timelines_have_the_same_times(points, a, b);
    assert forall|i: int| 0 <= i < a.len() implies #[trigger] a[i] == b[i] by {
        assert(is_first(points, a[i]));
        assert(is_first(points, b[i]));
        first_of_a_time_is_unique(points, a[i], b[i]);
    }
    assert(a =~= b);
}

proof fn timeline_has<V>(points: Seq<Point<V>>, a: Seq<Point<V>>, b: Seq<Point<V>>, i: int)
    requires
        is_timeline(points, a),
        is_timeline(points, b),
        0 <= i < a.len(),
    ensures
        has_time(b, a[i].0),
{
    assert(is_first(points, a[i]));
    let k = choose|k: int| #[trigger] is_first_at(points, k) && points[k] == a[i];
    assert(has_time(b, points[k].0));
}

pub(crate) proof fn ascending_ints_are_unique(a: Seq<int>, b: Seq<int>)
    requires
        forall|i: int, j: int| 0 <= i < j < a.len() ==> #[trigger] a[i] < #[trigger] a[j],
        forall|i: int, j: int| 0 <= i < j < b.len() ==> #[trigger] b[i] < #[trigger] b[j],
        forall|t: int| a.contains(t) == b.contains(t),
    ensures
        a == b,
    decreases a.len(),
{
    if a.len() == 0 {
        if b.len() > 0 {
            assert(b.contains(b[0]));
        }
        assert(a =~= b);
    } else if b.len() == 0 {
        assert(a.contains(a[0]));
    } else {
        let x = a.last();
        let y = b.last();
        assert(a.contains(x) && b.contains(y));
        let p = choose|p: int| 0 <= p < b.len() && b[p] == x;
        let q = choose|q: int| 0 <= q < a.len() && a[q] == y;
        assert(x == y);
        let s = a.drop_last();
        let t = b.drop_last();
        assert forall|k: int| s.contains(k) == t.contains(k) by {
            if s.contains(k) {
                let i = choose|i: int| 0 <= i < s.len() && s[i] == k;
                assert(a[i] == k);
                assert(a.contains(k));
                let j = choose|j: int| 0 <= j < b.len() && b[j] == k;
                assert(t[j] == k);
            }
            if t.contains(k) {
                let i = choose|i: int| 0 <= i < t.len() && t[i] == k;
                assert(b[i] == k);
                assert(b.contains(k));
                let j = choose|j: int| 0 <= j < a.len() && a[j] == k;
                assert(s[j] == k);
            }
        }
        ascending_ints_are_unique(s, t);
        assert(a =~= s.push(x));
        assert(b =~= t.push(y));
    }
}

} // verus!
