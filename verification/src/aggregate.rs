//! Aggregation across series: grouping them by labels, and reducing each group at
//! each time.
use crate::classify::AggKind;
use crate::grid::{
    fits_grid, grid_staleness, has_grid, has_time, resample_to_grid, resampled, staleness_for,
    times_ascend, Point,
};
use crate::labels::{kept_labels, rendered, KindView, Labels, MatchKind};
use crate::number::Number;
use crate::operators::{counted, reduce_end, reduce_step, reduced, reduction};
use crate::series::{series_list, series_view, LabelMap, RangeSeries, Series, SeriesView};
use crate::textmap::{has_key, mapping, mapping_at, place_of, TextMap};
use vstd::prelude::*;

verus! {

/// A number of values as it is counted.
pub open spec fn capped(n: nat) -> u64 {
    if n > u64::MAX {
        u64::MAX
    } else {
        n as u64
    }
}

/// Whether `acc` is the accumulator of an aggregation over the values, in their
/// order, from zero.
pub open spec fn folded<V: Number>(op: AggKind, values: Seq<V>, acc: V) -> bool
    decreases values.len(),
{
    if values.len() == 0 {
        counted(0, acc)
    } else {
        exists|p: V|
            folded(op, values.drop_last(), p) && #[trigger] reduced(
                op,
                p,
                capped((values.len() - 1) as nat),
                values.last(),
                acc,
            )
    }
}

/// Whether `x` is the aggregation of the values.
pub open spec fn aggregated<V: Number>(op: AggKind, values: Seq<V>, x: V) -> bool {
    exists|acc: V| #[trigger]
        reduction(op, acc, capped(values.len()), x) && folded(op, values, acc)
}

/// The values of the points at a time, in their order.
pub open spec fn values_at<V>(points: Seq<Point<V>>, t: i64) -> Seq<V>
    decreases points.len(),
{
    if points.len() == 0 {
        Seq::empty()
    } else {
        let rest = values_at(points.drop_last(), t);
        if points.last().0 == t {
            rest.push(points.last().1)
        } else {
            rest
        }
    }
}

/// The text under which a series is grouped: that of the labels it keeps.
pub open spec fn group_key(g: KindView, labels: LabelMap) -> Seq<char> {
    rendered(kept_labels(g, labels))
}

/// The labels of a group: those kept of its first series.
pub open spec fn group_labels<V>(g: KindView, s: Seq<SeriesView<V>>, key: Seq<char>) -> Option<
    LabelMap,
>
    decreases s.len(),
{
    if s.len() == 0 {
        None
    } else {
        match group_labels(g, s.drop_last(), key) {
            Some(l) => Some(l),
            None => if group_key(g, s.last().labels) == key {
                Some(kept_labels(g, s.last().labels))
            } else {
                None
            },
        }
    }
}

/// The values that the series of a group contribute at a time, series by series.
pub open spec fn contributions<V>(
    g: KindView,
    s: Seq<SeriesView<V>>,
    key: Seq<char>,
    t: i64,
) -> Seq<V>
    decreases s.len(),
{
    if s.len() == 0 {
        Seq::empty()
    } else {
        let rest = contributions(g, s.drop_last(), key, t);
        if group_key(g, s.last().labels) == key {
            rest + values_at(s.last().points, t)
        } else {
            rest
        }
    }
}

/// Whether the points are the aggregation of a group: in ascending order of time, one
/// at each time at which any series contributes.
pub open spec fn group_points<V: Number>(
    op: AggKind,
    g: KindView,
    s: Seq<SeriesView<V>>,
    key: Seq<char>,
    points: Seq<Point<V>>,
) -> bool {
    &&& times_ascend(points)
    &&& forall|i: int|
        0 <= i < points.len() ==> contributions(g, s, key, (#[trigger] points[i]).0).len() > 0
            && aggregated(op, contributions(g, s, key, points[i].0), points[i].1)
    &&& forall|t: i64| #[trigger]
        contributions(g, s, key, t).len() > 0 ==> has_time(points, t)
}

/// Whether `out` is the aggregation of series: one series per group.
pub open spec fn series_aggregated<V: Number>(
    op: AggKind,
    g: KindView,
    s: Seq<SeriesView<V>>,
    out: Map<Seq<char>, SeriesView<V>>,
) -> bool {
    &&& forall|key: Seq<char>| #[trigger]
        out.dom().contains(key) <==> group_labels(g, s, key) is Some
    &&& forall|key: Seq<char>|
        #![trigger out[key]]
        out.dom().contains(key) ==> group_labels(g, s, key) == Some(out[key].labels)
            && group_points(op, g, s, key, out[key].points)
}

/// A series carried onto the grid, where there is one.
pub open spec fn aligned<V>(s: SeriesView<V>, start: int, end: int, step: int) -> SeriesView<V> {
    if fits_grid(start, end, step) {
        SeriesView {
            labels: s.labels,
            points: resampled(s.points, start, end, step, grid_staleness(step)),
        }
    } else {
        s
    }
}

/// Series carried onto the grid, where there is one.
pub open spec fn aligned_list<V>(
    s: Seq<SeriesView<V>>,
    start: int,
    end: int,
    step: int,
) -> Seq<SeriesView<V>> {
    Seq::new(s.len(), |i: int| aligned(s[i], start, end, step))
}

/// A time of a group: its accumulator, and how many values were folded in.
struct Cell<V> {
    t: i64,
    acc: V,
    n: u64,
}

/// Whether the cells hold what was contributed, time by time.
spec fn cells_hold<V: Number>(op: AggKind, cells: Seq<Cell<V>>, c: spec_fn(i64) -> Seq<V>) -> bool {
    &&& forall|i: int, j: int|
        0 <= i < j < cells.len() ==> (#[trigger] cells[i]).t < (#[trigger] cells[j]).t
    &&& forall|i: int| 0 <= i < cells.len() ==> cell_holds(op, #[trigger] cells[i], c)
    &&& forall|t: i64| (#[trigger] c(t)).len() > 0 ==> has_cell(cells, t)
}

spec fn cell_holds<V: Number>(op: AggKind, cell: Cell<V>, c: spec_fn(i64) -> Seq<V>) -> bool {
    &&& c(cell.t).len() > 0
    &&& cell.n == capped(c(cell.t).len())
    &&& folded(op, c(cell.t), cell.acc)
}

spec fn has_cell<V>(cells: Seq<Cell<V>>, t: i64) -> bool {
    exists|i: int| 0 <= i < cells.len() && (#[trigger] cells[i]).t == t
}

spec fn plus<V>(c: spec_fn(i64) -> Seq<V>, t: i64, v: V) -> spec_fn(i64) -> Seq<V> {
    |x: i64|
        if x == t {
            c(x).push(v)
        } else {
            c(x)
        }
}

/// Fold a value into the cell of its time; `hint` is where to start looking.
fn fold_point<V: Number>(
    op: AggKind,
    cells: Vec<Cell<V>>,
    hint: usize,
    t: i64,
    v: V,
    Ghost(c): Ghost<spec_fn(i64) -> Seq<V>>,
) -> (r: (Vec<Cell<V>>, usize))
    requires
        hint <= cells@.len(),
        cells_hold(op, cells@, c),
    ensures
        r.1 <= r.0@.len(),
        cells_hold(op, r.0@, plus(c, t, v)),
{
    let mut cells = cells;
    let mut at: usize = hint;
    while at < cells.len() && cells[at].t < t
        invariant
            at <= cells@.len(),
        decreases cells.len() - at,
    {
        at = at + 1;
    }
    while at > 0 && cells[at - 1].t >= t
        invariant
            at <= cells@.len(),
            forall|i: int, j: int|
                0 <= i < j < cells@.len() ==> (#[trigger] cells@[i]).t < (#[trigger] cells@[j]).t,
            at < cells@.len() ==> cells@[at as int].t >= t,
        decreases at,
    {
        at = at - 1;
    }
    let ghost before = cells@;
    let ghost d = plus(c, t, v);
    proof {
        assert forall|i: int| 0 <= i < at implies (#[trigger] before[i]).t < t by {
            if i < at - 1 {
                assert(before[i].t < before[at - 1].t);
            }
        }
        assert forall|i: int| at < i < before.len() implies (#[trigger] before[i]).t > t by {
            assert(before[at as int].t < before[i].t);
        }
        assert forall|x: i64| x != t implies #[trigger] d(x) == c(x) by {}
        assert(d(t) == c(t).push(v));
        assert(d(t).drop_last() =~= c(t));
    }
    if at < cells.len() && cells[at].t == t {
        let acc = cells[at].acc;
        let n = cells[at].n;
        let next = reduce_step(op, acc, n, v);
        let m: u64 = if n < u64::MAX {
            n + 1
        } else {
            n
        };
        cells.set(at, Cell { t, acc: next, n: m });
        proof {
            let r = cells@;
            assert(cell_holds(op, before[at as int], c));
            assert(folded(op, d(t).drop_last(), acc));
            assert(reduced(op, acc, capped((d(t).len() - 1) as nat), d(t).last(), next));
            assert(folded(op, d(t), next));
            assert forall|i: int| 0 <= i < r.len() implies cell_holds(op, #[trigger] r[i], d) by {
                if i != at {
                    assert(r[i] == before[i]);
                    assert(cell_holds(op, before[i], c));
                }
            }
            assert forall|x: i64| (#[trigger] d(x)).len() > 0 implies has_cell(r, x) by {
                if x == t {
                    assert(r[at as int].t == t);
                } else {
                    assert(c(x).len() > 0);
                    assert(has_cell(before, x));
                    let i = choose|i: int| 0 <= i < before.len() && (#[trigger] before[i]).t == x;
                    assert(r[i].t == x);
                }
            }
        }
        return (cells, at);
    }
    let zero = V::of_count(0);
    let first = reduce_step(op, zero, 0, v);
    cells.insert(at, Cell { t, acc: first, n: 1 });
    proof {
        let r = cells@;
        assert(counted(0, zero));
        assert(c(t).len() == 0) by {
            if c(t).len() > 0 {
                assert(has_cell(before, t));
                let i = choose|i: int| 0 <= i < before.len() && (#[trigger] before[i]).t == t;
                assert(i == at);
            }
        }
        assert(folded(op, d(t).drop_last(), zero));
        assert(reduced(op, zero, capped((d(t).len() - 1) as nat), d(t).last(), first));
        assert(folded(op, d(t), first));
        assert forall|i: int| 0 <= i < r.len() implies cell_holds(op, #[trigger] r[i], d) by {
            if i != at {
                let x = if i < at { i } else { i - 1 };
                assert(r[i] == before[x]);
                assert(cell_holds(op, before[x], c));
            }
        }
        assert forall|i: int, j: int| 0 <= i < j < r.len() implies (#[trigger] r[i]).t < (
        #[trigger] r[j]).t by {
            let x = if i < at { i } else { i - 1 };
            let y = if j < at { j } else { j - 1 };
            if i != at {
                assert(r[i] == before[x]);
            }
            if j != at {
                assert(r[j] == before[y]);
            }
        }
        assert forall|x: i64| (#[trigger] d(x)).len() > 0 implies has_cell(r, x) by {
            if x == t {
                assert(r[at as int].t == t);
            } else {
                assert(c(x).len() > 0);
                assert(has_cell(before, x));
                let i = choose|i: int| 0 <= i < before.len() && (#[trigger] before[i]).t == x;
                let k = if i < at { i } else { i + 1 };
                assert(r[k] == before[i]);
            }
        }
    }
    (cells, at)
}

spec fn joined_with<V>(c: spec_fn(i64) -> Seq<V>, points: Seq<Point<V>>) -> spec_fn(i64) -> Seq<V> {
    |t: i64| c(t) + values_at(points, t)
}

proof fn same_contributions_hold<V: Number>(
    op: AggKind,
    cells: Seq<Cell<V>>,
    c: spec_fn(i64) -> Seq<V>,
    d: spec_fn(i64) -> Seq<V>,
)
    requires
        cells_hold(op, cells, c),
        forall|t: i64| #[trigger] c(t) == d(t),
    ensures
        cells_hold(op, cells, d),
{
    assert(c =~= d);
}

/// Fold the points of a series into the cells of its group.
fn fold_points<V: Number>(
    op: AggKind,
    cells: Vec<Cell<V>>,
    points: &Vec<Point<V>>,
    Ghost(c): Ghost<spec_fn(i64) -> Seq<V>>,
) -> (r: Vec<Cell<V>>)
    requires
        cells_hold(op, cells@, c),
    ensures
        cells_hold(op, r@, joined_with(c, points@)),
{
    let mut cells = cells;
    let mut hint: usize = 0;
    let mut i: usize = 0;
    proof {
        let d = joined_with(c, points@.take(0));
        assert forall|t: i64| #[trigger] c(t) == d(t) by {
            assert(d(t) =~= c(t));
        }
        same_contributions_hold(op, cells@, c, d);
    }
    while i < points.len()
        invariant
            i <= points@.len(),
            hint <= cells@.len(),
            cells_hold(op, cells@, joined_with(c, points@.take(i as int))),
        decreases points.len() - i,
    {
        let (t, v) = points[i];
        let ghost d = joined_with(c, points@.take(i as int));
        let (next, at) = fold_point(op, cells, hint, t, v, Ghost(d));
        cells = next;
        hint = at;
        proof {
            let e = joined_with(c, points@.take(i + 1));
            let p = plus(d, t, v);
            assert(points@.take(i + 1).drop_last() =~= points@.take(i as int));
            assert(points@.take(i + 1).last() == (t, v));
            assert forall|x: i64| #[trigger] p(x) == e(x) by {
                assert(p(x) =~= e(x));
            }
            same_contributions_hold(op, cells@, p, e);
        }
        i = i + 1;
    }
    assert(points@.take(points@.len() as int) =~= points@);
    cells
}

/// A group under construction.
struct Group<V> {
    labels: Labels,
    cells: Vec<Cell<V>>,
}

spec fn contributed<V>(g: KindView, s: Seq<SeriesView<V>>, key: Seq<char>) -> spec_fn(i64) -> Seq<
    V,
> {
    |t: i64| contributions(g, s, key, t)
}

/// Whether the groups hold what the series contributed.
spec fn groups_hold<V: Number>(
    op: AggKind,
    g: KindView,
    s: Seq<SeriesView<V>>,
    groups: Map<Seq<char>, Group<V>>,
) -> bool {
    &&& forall|key: Seq<char>| #[trigger]
        groups.dom().contains(key) <==> group_labels(g, s, key) is Some
    &&& forall|key: Seq<char>|
        #![trigger groups[key]]
        groups.dom().contains(key) ==> group_labels(g, s, key) == Some(groups[key].labels@)
            && cells_hold(op, groups[key].cells@, contributed(g, s, key))
}

proof fn no_group_no_contributions<V>(g: KindView, s: Seq<SeriesView<V>>, key: Seq<char>, t: i64)
    requires
        group_labels(g, s, key) is None,
    ensures
        contributions(g, s, key, t).len() == 0,
    decreases s.len(),
{
    if s.len() > 0 {
        no_group_no_contributions(g, s.drop_last(), key, t);
    }
}

/// Fold a series into its group.
fn fold_series<V: Number>(
    op: AggKind,
    grouping: &MatchKind,
    groups: TextMap<Group<V>>,
    labels: &Labels,
    points: &Vec<Point<V>>,
    Ghost(s): Ghost<Seq<SeriesView<V>>>,
) -> (r: TextMap<Group<V>>)
    requires
        groups_hold(op, grouping@, s, groups@),
    ensures
        groups_hold(
            op,
            grouping@,
            s.push(SeriesView { labels: labels@, points: points@ }),
            r@,
        ),
{
    let kept = grouping.result_labels(labels);
    let key = kept.key();
    let ghost g = grouping@;
    let ghost k = key@;
    let ghost old_groups = groups@;
    let (others, found) = groups.take(key.as_str());
    let ghost c = contributed(g, s, k);
    let (group_labels_now, cells) = match found {
        Some(group) => (group.labels, group.cells),
        None => {
            let none: Vec<Cell<V>> = Vec::new();
            proof {
                assert forall|t: i64| (#[trigger] c(t)).len() > 0 implies has_cell(none@, t) by {
                    no_group_no_contributions(g, s, k, t);
                }
            }
            (kept, none)
        },
    };
    let cells = fold_points(op, cells, points, Ghost(c));
    let group = Group { labels: group_labels_now, cells };
    let r = others.with(key, group);
    proof {
        let x = SeriesView { labels: labels@, points: points@ };
        let more = s.push(x);
        assert(more.drop_last() =~= s);
        assert(more.last() == x);
        assert(group_key(g, x.labels) == k);
        let d = joined_with(c, points@);
        let e = contributed(g, more, k);
        assert forall|t: i64| #[trigger] d(t) == e(t) by {}
        same_contributions_hold(op, group.cells@, d, e);
        assert forall|key2: Seq<char>| #[trigger]
            r@.dom().contains(key2) <==> group_labels(g, more, key2) is Some by {
            assert(old_groups.dom().contains(key2) <==> group_labels(g, s, key2) is Some);
        }
        assert forall|key2: Seq<char>|
            #![trigger r@[key2]]
            r@.dom().contains(key2) implies group_labels(g, more, key2) == Some(r@[key2].labels@)
            && cells_hold(op, r@[key2].cells@, contributed(g, more, key2)) by {
            assert(old_groups.dom().contains(key2) <==> group_labels(g, s, key2) is Some);
            if key2 == k {
                assert(r@[key2] == group);
            } else {
                assert(r@[key2] == old_groups[key2]);
                let a = contributed(g, s, key2);
                let b = contributed(g, more, key2);
                assert forall|t: i64| #[trigger] a(t) == b(t) by {}
                same_contributions_hold(op, old_groups[key2].cells@, a, b);
            }
        }
    }
    r
}

/// The points of a finished group.
fn finish_cells<V: Number>(
    op: AggKind,
    cells: &Vec<Cell<V>>,
    Ghost(g): Ghost<KindView>,
    Ghost(s): Ghost<Seq<SeriesView<V>>>,
    Ghost(key): Ghost<Seq<char>>,
) -> (r: Vec<Point<V>>)
    requires
        cells_hold(op, cells@, contributed(g, s, key)),
    ensures
        group_points(op, g, s, key, r@),
{
    let ghost c = contributed(g, s, key);
    let mut out: Vec<Point<V>> = Vec::new();
    let mut i: usize = 0;
    while i < cells.len()
        invariant
            i <= cells@.len(),
            out@.len() == i,
            c == contributed(g, s, key),
            cells_hold(op, cells@, c),
            forall|j: int|
                0 <= j < i ==> (#[trigger] out@[j]).0 == cells@[j].t && aggregated(
                    op,
                    c(cells@[j].t),
                    out@[j].1,
                ),
        decreases cells.len() - i,
    {
        let x = reduce_end(op, cells[i].acc, cells[i].n);
        proof {
            assert(cell_holds(op, cells@[i as int], c));
            assert(reduction(op, cells@[i as int].acc, capped(c(cells@[i as int].t).len()), x));
        }
        out.push((cells[i].t, x));
        i = i + 1;
    }
    proof {
        assert forall|i: int, j: int| 0 <= i < j < out@.len() implies (#[trigger] out@[i]).0 < (
        #[trigger] out@[j]).0 by {
            assert(cells@[i].t < cells@[j].t);
        }
        assert forall|i: int| 0 <= i < out@.len() implies contributions(
            g,
            s,
            key,
            (#[trigger] out@[i]).0,
        ).len() > 0 && aggregated(op, contributions(g, s, key, out@[i].0), out@[i].1) by {
            assert(cell_holds(op, cells@[i], c));
            assert(c(cells@[i].t) == contributions(g, s, key, cells@[i].t));
        }
        assert forall|t: i64| #[trigger] contributions(g, s, key, t).len() > 0 implies has_time(
            out@,
            t,
        ) by {
            assert(c(t).len() > 0);
            assert(has_cell(cells@, t));
            let i = choose|i: int| 0 <= i < cells@.len() && (#[trigger] cells@[i]).t == t;
            assert(out@[i].0 == t);
        }
    }
    out
}

/// The series of the finished groups.
fn finish_groups<V: Number>(
    op: AggKind,
    groups: TextMap<Group<V>>,
    Ghost(g): Ghost<KindView>,
    Ghost(s): Ghost<Seq<SeriesView<V>>>,
) -> (r: RangeSeries<V>)
    requires
        groups_hold(op, g, s, groups@),
    ensures
        series_aggregated(op, g, s, series_view(r@)),
{
    let n: usize = groups.len();
    let ghost l = groups.listing();
    let mut out: RangeSeries<V> = TextMap::new();
    let mut i: usize = 0;
    while i < n
        invariant
            n == l.len(),
            l == groups.listing(),
            crate::textmap::ascending(l),
            groups_hold(op, g, s, mapping(l)),
            i <= n,
            forall|key: Seq<char>| #[trigger]
                out@.dom().contains(key) <==> has_key(l.take(i as int), key),
            forall|key: Seq<char>|
                #![trigger out@[key]]
                out@.dom().contains(key) ==> group_labels(g, s, key) == Some(out@[key].labels@)
                    && group_points(op, g, s, key, out@[key].points@),
        decreases n - i,
    {
        let (key, group) = groups.at(i);
        proof {
            mapping_at(l, i as int);
            assert(mapping(l)[key@] == *group);
        }
        let points = finish_cells(op, &group.cells, Ghost(g), Ghost(s), Ghost(key@));
        let ghost before = out@;
        out = out.with(crate::text::owned(key.as_str()), Series { labels: group.labels.copy(), points });
        proof {
            let seen = l.take(i as int);
            let next = l.take(i + 1);
            assert(next[i as int].0@ == key@);
            assert forall|x: Seq<char>| #[trigger]
                out@.dom().contains(x) <==> has_key(next, x) by {
                if has_key(seen, x) {
                    let p = place_of(seen, x);
                    assert(next[p].0@ == x);
                }
                if has_key(next, x) && x != key@ {
                    let p = place_of(next, x);
                    assert(seen[p].0@ == x);
                }
                assert(before.dom().contains(x) <==> has_key(seen, x));
            }
        }
        i = i + 1;
    }
    proof {
        assert(l.take(n as int) =~= l);
        let o = series_view(out@);
        assert forall|key: Seq<char>| #[trigger]
            o.dom().contains(key) <==> group_labels(g, s, key) is Some by {
            assert(out@.dom().contains(key) <==> has_key(l, key));
            assert(mapping(l).dom().contains(key) <==> has_key(l, key));
        }
        assert forall|key: Seq<char>|
            #![trigger o[key]]
            o.dom().contains(key) implies group_labels(g, s, key) == Some(o[key].labels)
            && group_points(op, g, s, key, o[key].points) by {
            assert(out@[key].labels@ == o[key].labels);
        }
    }
    out
}

/// Reduce already-evaluated inner range series across series, per **grid**
/// timestamp. Each inner series is resampled onto the `[s, e]` grid at `step_ns`
/// (carry-forward within staleness) so every live series contributes at every grid
/// step; series are grouped by the labels that the aggregation keeps and reduced at
/// each grid timestamp. Without a grid (`step_ns <= 0`, or too many steps) the
/// points are reduced as they are.
pub fn aggregate_range_series<V: Number>(
    op: AggKind,
    grouping: &MatchKind,
    inner: &RangeSeries<V>,
    s: i64,
    e: i64,
    step_ns: i64,
) -> (r: RangeSeries<V>)
    ensures
        series_aggregated(
            op,
            grouping@,
            aligned_list(series_list(inner.listing()), s as int, e as int, step_ns as int),
            series_view(r@),
        ),
{
    let grid = has_grid(s, e, step_ns);
    let staleness = staleness_for(step_ns);
    let n: usize = inner.len();
    let ghost all = aligned_list(series_list(inner.listing()), s as int, e as int, step_ns as int);
    let mut groups: TextMap<Group<V>> = TextMap::new();
    let mut i: usize = 0;
    while i < n
        invariant
            n == inner.listing().len(),
            grid == fits_grid(s as int, e as int, step_ns as int),
            staleness == grid_staleness(step_ns as int),
            all == aligned_list(series_list(inner.listing()), s as int, e as int, step_ns as int),
            i <= n,
            groups_hold(op, grouping@, all.take(i as int), groups@),
        decreases n - i,
    {
        let (_, item) = inner.at(i);
        let ghost seen = all.take(i as int);
        let ghost x = aligned(item@, s as int, e as int, step_ns as int);
        proof {
            assert(series_list(inner.listing())[i as int] == item@);
            assert(all.take(i + 1) =~= seen.push(x));
        }
        if grid {
            let points = resample_to_grid(&item.points, s, e, step_ns, staleness);
            groups = fold_series(op, grouping, groups, &item.labels, &points, Ghost(seen));
        } else {
            groups = fold_series(op, grouping, groups, &item.labels, &item.points, Ghost(seen));
        }
        i = i + 1;
    }
    assert(all.take(n as int) =~= all);
    finish_groups(op, groups, Ghost(grouping@), Ghost(all))
}

/// Every series contributes to its group at each time at which it has a point.
pub proof fn every_series_contributes<V>(
    g: KindView,
    s: Seq<SeriesView<V>>,
    i: int,
    k: int,
)
    requires
        0 <= i < s.len(),
        0 <= k < s[i].points.len(),
    ensures
        contributions(g, s, group_key(g, s[i].labels), s[i].points[k].0).len() > 0,
    decreases s.len(),
{
    let key = group_key(g, s[i].labels);
    let t = s[i].points[k].0;
    if i == s.len() - 1 {
        has_value_at(s[i].points, k);
    } else {
        every_series_contributes(g, s.drop_last(), i, k);
    }
}

proof fn has_value_at<V>(points: Seq<Point<V>>, k: int)
    requires
        0 <= k < points.len(),
    ensures
        values_at(points, points[k].0).len() > 0,
    decreases points.len(),
{
    if k < points.len() - 1 {
        has_value_at(points.drop_last(), k);
    }
}

} // verus!
