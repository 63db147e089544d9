//! Range queries: how one is served, and how the answers of its shards become one.
use crate::classify::{
    bucket_heatmap, capability, detect_bucket_heatmap, detect_hist_quantile, floored, hist_quantile,
    lowered, matrix_range, matrix_range_ns, op_capability, rank_of, topk_parts, BucketSpec, HistSpec,
};
use crate::eval::RangeWindow;
use crate::grid::{
    fits_grid, grid_staleness, has_grid, is_timeline, points_within, resample_to_grid,
    staleness_for, timeline, within, Point,
};
use crate::labels::{rendered, keys_tell_label_sets_apart, Labels};
use crate::number::Number;
use crate::promql::{parse, promql_tree, refused_with, PromExpr};
use crate::rank::{keep_top, list_view, top_series, Score};
use crate::series::{
    samples_push, samples_view, series_list, series_view, LabelMap, RangeSeries, RangeVal,
    Sample, Series, SeriesView,
};
use crate::text::{owned, str_eq};
use crate::textmap::{ascending, has_key, mapping, mapping_at, place_of, TextMap};
use crate::windows::{resolve_metric_windows, source_windows, windows_view, MetricWindow};
use vstd::prelude::*;

verus! {

/// How a range query is served.
#[derive(Debug)]
pub enum RangeQuery {
    /// From the rows of array histograms, as quantiles.
    Quantile(HistSpec),
    /// From the rows of array histograms, as a heatmap.
    Heatmap(BucketSpec),
    /// By evaluating an expression over source windows.
    Windows(RangeTask),
}

/// The evaluation of a range query.
#[derive(Debug)]
pub struct RangeTask {
    /// The expression to evaluate: the query, without a `topk`/`bottomk` around it.
    pub expr: PromExpr,
    /// The count of a `topk` (or, where false, `bottomk`) around it.
    pub topk: Option<(i64, bool)>,
    /// The source windows.
    pub windows: Vec<MetricWindow>,
    /// How far before each window its scan starts.
    pub lookback_ns: i64,
}

/// The expression that a range query evaluates.
pub open spec fn evaluated(e: PromExpr) -> PromExpr {
    match rank_of(e) {
        Some(t) => t.2,
        None => e,
    }
}

/// The count of the `topk`/`bottomk` around a range query.
pub open spec fn outer_rank(e: PromExpr) -> Option<(int, bool)> {
    match rank_of(e) {
        Some(t) => Some((t.0, t.1)),
        None => None,
    }
}

/// How far before a window the scan of an expression starts.
pub open spec fn lookback(e: PromExpr) -> int {
    match matrix_range(e) {
        Some(r) => r,
        None => 0,
    }
}

/// Whether a plan serves a range query as it has to be served: classic-histogram queries
/// from array buckets, and any other by evaluating it over the source windows of its
/// capability.
pub open spec fn serves(
    r: RangeQuery,
    tables: Seq<String>,
    query: PromExpr,
    start: int,
    end: int,
    step: int,
    now: int,
) -> bool {
    match r {
        RangeQuery::Quantile(h) => hist_quantile(query) == Some(h@),
        RangeQuery::Heatmap(b) => hist_quantile(query) is None && bucket_heatmap(query) == Some(b@),
        RangeQuery::Windows(t) => {
            &&& hist_quantile(query) is None
            &&& bucket_heatmap(query) is None
            &&& t.expr == evaluated(query)
            &&& outer_rank(query) == match t.topk {
                Some(k) => Some((k.0 as int, k.1)),
                None => None,
            }
            &&& windows_view(t.windows@) == source_windows(
                tables,
                start,
                end,
                step,
                capability(evaluated(query)),
                now,
            )
            &&& t.lookback_ns == lookback(evaluated(query))
            &&& t.lookback_ns >= 0
        },
    }
}

fn ranked(query: PromExpr) -> (r: PromExpr)
    requires
        rank_of(query) is Some,
    ensures
        r == evaluated(query),
    decreases query,
{
    match query {
        PromExpr::Paren(p) => ranked(*p),
        PromExpr::Aggregate { op: _, expr, param: _, grouping: _ } => *expr,
        other => other,
    }
}

/// Decide how a range query is served.
pub fn plan_range_query(
    tables: &Vec<String>,
    query: PromExpr,
    start_ns: i64,
    end_ns: i64,
    step_ns: i64,
    now_ns: i64,
) -> (r: RangeQuery)
    ensures
        serves(
            r,
            tables@,
            query,
            start_ns as int,
            end_ns as int,
            step_ns as int,
            now_ns as int,
        ),
{
    if let Some(h) = detect_hist_quantile(&query) {
        return RangeQuery::Quantile(h);
    }
    if let Some(b) = detect_bucket_heatmap(&query) {
        return RangeQuery::Heatmap(b);
    }
    let topk = match topk_parts(&query) {
        Some((n, top, _)) => Some((n, top)),
        None => None,
    };
    let expr = match topk {
        Some(_) => ranked(query),
        None => query,
    };
    let windows = resolve_metric_windows(
        tables,
        start_ns,
        end_ns,
        step_ns,
        op_capability(&expr),
        now_ns,
    );
    let lookback_ns: i64 = match matrix_range_ns(&expr) {
        Some(r) => r,
        None => 0,
    };
    RangeQuery::Windows(RangeTask { expr, topk, windows, lookback_ns })
}

/// Read a range query, and decide how it is served.
pub fn handle_range(
    tables: &Vec<String>,
    query: &str,
    start_ns: i64,
    end_ns: i64,
    step_ns: i64,
    now_ns: i64,
) -> (r: Result<RangeQuery, String>)
    ensures
        r is Ok <==> promql_tree(query@) is Some,
        r matches Ok(q) ==> serves(
            q,
            tables@,
            promql_tree(query@)->0,
            start_ns as int,
            end_ns as int,
            step_ns as int,
            now_ns as int,
        ),
        r matches Err(m) ==> refused_with(query@, m@),
{
    match parse(query) {
        Ok(e) => Ok(plan_range_query(tables, e, start_ns, end_ns, step_ns, now_ns)),
        Err(m) => Err(m),
    }
}

/// A shard of a window: where its scan starts, and the span that it emits.
#[derive(Debug, Clone, Copy, PartialEq, Eq, Structural)]
pub struct Shard {
    pub query_start_ns: i64,
    pub start_ns: i64,
    pub end_ns: i64,
}

/// A table and the window of it that is scanned.
pub type ScanWindow = (String, RangeWindow);

/// A scanned window, as a value.
pub open spec fn scan_view(w: ScanWindow) -> (Seq<char>, RangeWindow) {
    (w.0@, w.1)
}

/// Scanned windows, as values.
pub open spec fn scans_view(s: Seq<ScanWindow>) -> Seq<(Seq<char>, RangeWindow)> {
    Seq::new(s.len(), |i: int| scan_view(s[i]))
}

/// The scan of a whole window: from the lookback before it.
pub open spec fn whole_scan(w: (Seq<char>, int, int), lookback: int) -> (Seq<char>, RangeWindow) {
    (
        w.0,
        RangeWindow {
            scan_start: floored(w.1 - lookback) as i64,
            start: w.1 as i64,
            end: w.2 as i64,
        },
    )
}

/// The scans of the shards of a window, in its table.
pub open spec fn shard_scans(table: Seq<char>, shards: Seq<Shard>) -> Seq<(Seq<char>, RangeWindow)> {
    Seq::new(
        shards.len(),
        |i: int|
            (
                table,
                RangeWindow {
                    scan_start: shards[i].query_start_ns,
                    start: shards[i].start_ns,
                    end: shards[i].end_ns,
                },
            ),
    )
}

/// The scans of windows: the shards of a window that is split, else the whole window.
pub open spec fn all_scans(
    windows: Seq<(Seq<char>, int, int)>,
    shards: Seq<Vec<Shard>>,
    lookback: int,
) -> Seq<(Seq<char>, RangeWindow)>
    decreases windows.len(),
{
    if windows.len() == 0 {
        Seq::empty()
    } else {
        let i = windows.len() - 1;
        let rest = all_scans(windows.drop_last(), shards, lookback);
        if i < shards.len() && shards[i]@.len() > 0 {
            rest + shard_scans(windows.last().0, shards[i]@)
        } else {
            rest.push(whole_scan(windows.last(), lookback))
        }
    }
}

/// The windows to scan: within each source window the shards that it is split into
/// (none where it is not), every shard in its window's table.
pub fn scan_windows(windows: &Vec<MetricWindow>, shards: &Vec<Vec<Shard>>, lookback_ns: i64) -> (r: Vec<
    ScanWindow,
>)
    requires
        lookback_ns >= 0,
    ensures
        scans_view(r@) == all_scans(windows_view(windows@), shards@, lookback_ns as int),
{
    let ghost w = windows_view(windows@);
    let mut out: Vec<ScanWindow> = Vec::new();
    let mut i: usize = 0;
    while i < windows.len()
        invariant
            lookback_ns >= 0,
            w == windows_view(windows@),
            i <= windows@.len(),
            scans_view(out@) == all_scans(w.take(i as int), shards@, lookback_ns as int),
        decreases windows.len() - i,
    {
        let (lo, hi) = (windows[i].1, windows[i].2);
        let table = windows[i].0.as_str();
        proof {
            assert(w.take(i + 1).drop_last() =~= w.take(i as int));
            assert(w.take(i + 1).last() == (table@, lo as int, hi as int));
        }
        let ghost start = out@;
        if i < shards.len() && shards[i].len() > 0 {
            let these = &shards[i];
            let ghost want = shard_scans(table@, these@);
            let mut j: usize = 0;
            proof {
                assert(scans_view(start) + want.take(0) =~= scans_view(out@));
            }
            while j < these.len()
                invariant
                    want == shard_scans(table@, these@),
                    j <= these@.len(),
                    scans_view(out@) == scans_view(start) + want.take(j as int),
                decreases these.len() - j,
            {
                let s = these[j];
                let win = RangeWindow {
                    scan_start: s.query_start_ns,
                    start: s.start_ns,
                    end: s.end_ns,
                };
                let ghost before = out@;
                out.push((owned(table), win));
                proof {
                    assert(scans_view(out@) =~= scans_view(before).push((table@, win)));
                    assert(want.take(j + 1) =~= want.take(j as int).push((table@, win)));
                    assert(scans_view(start) + want.take(j + 1) =~= (scans_view(start) + want.take(
                        j as int,
                    )).push((table@, win)));
                }
                j = j + 1;
            }
            assert(want.take(these@.len() as int) =~= want);
        } else {
            let win = RangeWindow { scan_start: lowered(lo, lookback_ns), start: lo, end: hi };
            out.push((owned(table), win));
            assert(scans_view(out@) =~= scans_view(start).push((table@, win)));
        }
        i = i + 1;
    }
    assert(w.take(windows@.len() as int) =~= w);
    out
}

/// A row of a range query: nullable time and value, and labels.
#[derive(Debug)]
pub struct SampleRow<V> {
    pub labels: Labels,
    pub time: Option<i64>,
    pub value: Option<V>,
}

/// A set of series to which a point was added under the text of its labels.
pub open spec fn with_point<V>(
    m: Map<Seq<char>, SeriesView<V>>,
    labels: LabelMap,
    p: Point<V>,
) -> Map<Seq<char>, SeriesView<V>> {
    let key = rendered(labels);
    if m.dom().contains(key) {
        m.insert(key, SeriesView { labels: m[key].labels, points: m[key].points.push(p) })
    } else {
        m.insert(key, SeriesView { labels, points: seq![p] })
    }
}

/// The points of rows in series, by the texts of their labels; a row without a time or
/// a value is left out.
pub open spec fn grouped<V>(rows: Seq<SampleRow<V>>) -> Map<Seq<char>, SeriesView<V>>
    decreases rows.len(),
{
    if rows.len() == 0 {
        Map::empty()
    } else {
        let rest = grouped(rows.drop_last());
        match (rows.last().time, rows.last().value) {
            (Some(t), Some(v)) => with_point(rest, rows.last().labels@, (t, v)),
            _ => rest,
        }
    }
}

/// The points of the rows with a label set, in their order; a row without a time or a
/// value has none.
pub open spec fn points_of<V>(rows: Seq<SampleRow<V>>, m: LabelMap) -> Seq<Point<V>>
    decreases rows.len(),
{
    if rows.len() == 0 {
        Seq::empty()
    } else {
        let rest = points_of(rows.drop_last(), m);
        match (rows.last().time, rows.last().value) {
            (Some(t), Some(v)) => if rows.last().labels@ == m {
                rest.push((t, v))
            } else {
                rest
            },
            _ => rest,
        }
    }
}

/// Rows are told apart by their label sets: a series holds the points of the rows with
/// its labels, all of them and no others.
pub proof fn series_hold_the_points_of_their_labels<V>(rows: Seq<SampleRow<V>>, m: LabelMap)
    requires
        m.dom().finite(),
    ensures
        grouped(rows).dom().contains(rendered(m)) <==> points_of(rows, m).len() > 0,
        grouped(rows).dom().contains(rendered(m)) ==> grouped(rows)[rendered(m)] == (SeriesView {
            labels: m,
            points: points_of(rows, m),
        }),
    decreases rows.len(),
{
    if rows.len() > 0 {
        let rest = rows.drop_last();
        let labels = rows.last().labels;
        series_hold_the_points_of_their_labels(rest, m);
        labels.is_finite();
        keys_tell_label_sets_apart(labels@, m);
        if let (Some(t), Some(v)) = (rows.last().time, rows.last().value) {
            if labels@ == m && !grouped(rest).dom().contains(rendered(m)) {
                assert(points_of(rows, m) =~= seq![(t, v)]);
            }
        }
    }
}

fn add_point<V: Copy>(m: RangeSeries<V>, labels: &Labels, p: Point<V>) -> (r: RangeSeries<V>)
    ensures
        series_view(r@) == with_point(series_view(m@), labels@, p),
{
    let key = labels.key();
    let ghost before = m@;
    let ghost k = key@;
    let (others, found) = m.take(key.as_str());
    match found {
        Some(s) => {
            let ghost old_s = s@;
            let mut points = s.points;
            points.push(p);
            let r = others.with(key, Series { labels: s.labels, points });
            assert(series_view(r@) =~= with_point(series_view(before), labels@, p));
            r
        },
        None => {
            let mut points: Vec<Point<V>> = Vec::new();
            points.push(p);
            let r = others.with(key, Series { labels: labels.copy(), points });
            proof {
                assert(points@ =~= seq![p]);
                assert(series_view(r@) =~= with_point(series_view(before), labels@, p));
            }
            r
        },
    }
}

/// Group rows into per-series point lists keyed by the label set.
pub fn group_range_series<V: Copy>(rows: &Vec<SampleRow<V>>) -> (r: RangeSeries<V>)
    ensures
        series_view(r@) == grouped(rows@),
{
    let mut r: RangeSeries<V> = TextMap::new();
    proof {
        assert(series_view(r@) =~= grouped(rows@.take(0)));
    }
    let mut i: usize = 0;
    while i < rows.len()
        invariant
            i <= rows@.len(),
            series_view(r@) == grouped(rows@.take(i as int)),
        decreases rows.len() - i,
    {
        proof {
            assert(rows@.take(i + 1).drop_last() =~= rows@.take(i as int));
            assert(rows@.take(i + 1).last() == rows@[i as int]);
        }
        if let (Some(t), Some(v)) = (rows[i].time, rows[i].value) {
            r = add_point(r, &rows[i].labels, (t, v));
        }
        i = i + 1;
    }
    assert(rows@.take(rows@.len() as int) =~= rows@);
    r
}

/// The samples of the rows that have a value.
pub open spec fn valued<V>(rows: Seq<SampleRow<V>>) -> Seq<(LabelMap, V)>
    decreases rows.len(),
{
    if rows.len() == 0 {
        Seq::empty()
    } else {
        let rest = valued(rows.drop_last());
        match rows.last().value {
            Some(v) => rest.push((rows.last().labels@, v)),
            None => rest,
        }
    }
}

/// The instant samples of rows.
pub fn instant_vector<V: Copy>(rows: &Vec<SampleRow<V>>) -> (r: Vec<Sample<V>>)
    ensures
        samples_view(r@) == valued(rows@),
{
    let mut r: Vec<Sample<V>> = Vec::new();
    let mut i: usize = 0;
    proof {
        assert(samples_view(r@) =~= valued(rows@.take(0)));
    }
    while i < rows.len()
        invariant
            i <= rows@.len(),
            samples_view(r@) == valued(rows@.take(i as int)),
        decreases rows.len() - i,
    {
        proof {
            assert(rows@.take(i + 1).drop_last() =~= rows@.take(i as int));
            assert(rows@.take(i + 1).last() == rows@[i as int]);
        }
        let ghost before = r@;
        if let Some(v) = rows[i].value {
            r.push((rows[i].labels.copy(), v));
            proof {
                samples_push(before, r@.last());
            }
        }
        i = i + 1;
    }
    assert(rows@.take(rows@.len() as int) =~= rows@);
    r
}

/// A set of series into which the points of a shard were merged: those that the shard
/// emits, after those that are there.
pub open spec fn merged<V>(
    m: Map<Seq<char>, SeriesView<V>>,
    part: Map<Seq<char>, SeriesView<V>>,
    lo: int,
    hi: int,
) -> Map<Seq<char>, SeriesView<V>> {
    Map::new(
        |k: Seq<char>| m.dom().contains(k) || part.dom().contains(k),
        |k: Seq<char>|
            if !part.dom().contains(k) {
                m[k]
            } else if m.dom().contains(k) {
                SeriesView {
                    labels: m[k].labels,
                    points: m[k].points + within(part[k].points, lo, hi),
                }
            } else {
                SeriesView { labels: part[k].labels, points: within(part[k].points, lo, hi) }
            },
    )
}

/// A set of series into which a constant was merged: the series without labels takes it
/// at both ends of the shard.
pub open spec fn merged_constant<V>(
    m: Map<Seq<char>, SeriesView<V>>,
    x: V,
    lo: i64,
    hi: i64,
) -> Map<Seq<char>, SeriesView<V>> {
    with_point(with_point(m, Map::empty(), (lo, x)), Map::empty(), (hi, x))
}

fn extend_points<V: Copy>(points: Vec<Point<V>>, more: &Vec<Point<V>>) -> (r: Vec<Point<V>>)
    ensures
        r@ == points@ + more@,
{
    let ghost start = points@;
    let mut points = points;
    let mut i: usize = 0;
    assert(start + more@.take(0) =~= points@);
    while i < more.len()
        invariant
            i <= more@.len(),
            points@ == start + more@.take(i as int),
        decreases more.len() - i,
    {
        points.push(more[i]);
        assert(start + more@.take(i + 1) =~= (start + more@.take(i as int)).push(more@[i as int]));
        i = i + 1;
    }
    assert(more@.take(more@.len() as int) =~= more@);
    points
}

fn merge_series<V: Copy>(m: RangeSeries<V>, part: &RangeSeries<V>, lo: i64, hi: i64) -> (r: RangeSeries<
    V,
>)
    ensures
        series_view(r@) == merged(series_view(m@), series_view(part@), lo as int, hi as int),
{
    let ghost start = series_view(m@);
    let ghost p = series_view(part@);
    let ghost want = merged(start, p, lo as int, hi as int);
    let n: usize = part.len();
    let ghost l = part.listing();
    let mut r = m;
    let mut i: usize = 0;
    while i < n
        invariant
            l == part.listing(),
            ascending(l),
            i <= n == l.len(),
            p == series_view(mapping(l)),
            want == merged(start, p, lo as int, hi as int),
            forall|k: Seq<char>|
                #![trigger r@.dom().contains(k)]
                r@.dom().contains(k) <==> start.dom().contains(k) || has_key(l.take(i as int), k),
            forall|k: Seq<char>|
                #![trigger r@[k]]
                r@.dom().contains(k) ==> r@[k]@ == if has_key(l.take(i as int), k) {
                    want[k]
                } else {
                    start[k]
                },
        decreases n - i,
    {
        let (key, item) = part.at(i);
        let ghost before = r@;
        let ghost seen = l.take(i as int);
        let ghost next = l.take(i + 1);
        let points = points_within(&item.points, lo, hi);
        proof {
            mapping_at(l, i as int);
            assert(p[key@] == item@);
            assert(next[i as int].0@ == key@);
            assert(!has_key(seen, key@)) by {
                if has_key(seen, key@) {
                    let q = place_of(seen, key@);
                    assert(l[q].0@ == key@);
                    mapping_at(l, q);
                }
            }
            assert forall|k: Seq<char>| has_key(next, k) <==> has_key(seen, k) || k == key@ by {
                if has_key(seen, k) {
                    let q = place_of(seen, k);
                    assert(next[q].0@ == k);
                }
                if has_key(next, k) && k != key@ {
                    let q = place_of(next, k);
                    assert(seen[q].0@ == k);
                }
            }
        }
        let (others, found) = r.take(key.as_str());
        let s = match found {
            Some(old_s) => Series {
                labels: old_s.labels,
                points: extend_points(old_s.points, &points),
            },
            None => Series { labels: item.labels.copy(), points },
        };
        proof {
            if start.dom().contains(key@) {
                assert(before.dom().contains(key@));
                assert(before[key@]@ == start[key@]);
            } else {
                assert(!before.dom().contains(key@));
            }
            assert(s@ == want[key@]);
        }
        r = others.with(owned(key.as_str()), s);
        proof {
            assert forall|k: Seq<char>|
                #![trigger r@[k]]
                r@.dom().contains(k) implies r@[k]@ == if has_key(next, k) {
                want[k]
            } else {
                start[k]
            } by {
                if k != key@ {
                    assert(r@[k] == before[k]);
                    assert(before.dom().contains(k));
                }
            }
        }
        i = i + 1;
    }
    proof {
        assert(l.take(n as int) =~= l);
        let o = series_view(r@);
        assert forall|k: Seq<char>| o.dom().contains(k) <==> want.dom().contains(k) by {
            assert(r@.dom().contains(k) <==> start.dom().contains(k) || has_key(l, k));
        }
        assert forall|k: Seq<char>| o.dom().contains(k) implies o[k] == want[k] by {
            assert(r@[k]@ == o[k]);
            assert(p.dom().contains(k) <==> has_key(l, k));
        }
        assert(o =~= want);
    }
    r
}

/// A set of series into which the value of a shard was merged.
pub open spec fn merged_value<V>(
    m: Map<Seq<char>, SeriesView<V>>,
    v: RangeVal<V>,
    win: RangeWindow,
) -> Map<Seq<char>, SeriesView<V>> {
    match v {
        RangeVal::Vector(part) => merged(m, series_view(part@), win.start as int, win.end as int),
        RangeVal::Scalar(x) => merged_constant(m, x, win.start, win.end),
    }
}

/// Merge the value of a shard: of a vector the points inside the span that the shard
/// emits, of a scalar a constant series without labels.
pub fn merge_shard<V: Copy>(m: RangeSeries<V>, v: RangeVal<V>, win: RangeWindow) -> (r: RangeSeries<V>)
    ensures
        series_view(r@) == merged_value(series_view(m@), v, win),
{
    match v {
        RangeVal::Vector(part) => merge_series(m, &part, win.start, win.end),
        RangeVal::Scalar(x) => {
            let none = Labels::new();
            let r = add_point(m, &none, (win.start, x));
            add_point(r, &none, (win.end, x))
        },
    }
}

/// The series into which the values of shards were merged, one after another.
pub open spec fn all_merged<V>(parts: Seq<(RangeVal<V>, RangeWindow)>) -> Map<
    Seq<char>,
    SeriesView<V>,
>
    decreases parts.len(),
{
    if parts.len() == 0 {
        Map::empty()
    } else {
        merged_value(all_merged(parts.drop_last()), parts.last().0, parts.last().1)
    }
}

/// Whether the spans that shards emit do not overlap.
pub open spec fn spans_disjoint<V>(parts: Seq<(RangeVal<V>, RangeWindow)>) -> bool {
    &&& forall|i: int| 0 <= i < parts.len() ==> (#[trigger] parts[i]).1.start <= parts[i].1.end
    &&& forall|i: int, j: int|
        0 <= i < j < parts.len() ==> (#[trigger] parts[i]).1.end < (#[trigger] parts[j]).1.start
            || parts[j].1.end < parts[i].1.start
}

/// The points of a series of a set within a span; none where the set lacks the series.
pub open spec fn span_of<V>(
    m: Map<Seq<char>, SeriesView<V>>,
    key: Seq<char>,
    win: RangeWindow,
) -> Seq<Point<V>> {
    if m.dom().contains(key) {
        within(m[key].points, win.start as int, win.end as int)
    } else {
        Seq::empty()
    }
}

proof fn within_distributes<V>(a: Seq<Point<V>>, b: Seq<Point<V>>, lo: int, hi: int)
    ensures
        within(a + b, lo, hi) == within(a, lo, hi) + within(b, lo, hi),
    decreases b.len(),
{
    if b.len() == 0 {
        assert(a + b =~= a);
    } else {
        within_distributes(a, b.drop_last(), lo, hi);
        assert((a + b).drop_last() =~= a + b.drop_last());
    }
}

proof fn within_itself<V>(a: Seq<Point<V>>, lo: int, hi: int)
    ensures
        within(within(a, lo, hi), lo, hi) == within(a, lo, hi),
    decreases a.len(),
{
    if a.len() > 0 {
        within_itself(a.drop_last(), lo, hi);
        let rest = within(a.drop_last(), lo, hi);
        if lo <= a.last().0 <= hi {
            assert(rest.push(a.last()).drop_last() =~= rest);
        }
    }
}

proof fn within_another<V>(a: Seq<Point<V>>, lo: int, hi: int, from: int, to: int)
    requires
        hi < from || to < lo,
    ensures
        within(within(a, lo, hi), from, to) == Seq::<Point<V>>::empty(),
    decreases a.len(),
{
    if a.len() > 0 {
        within_another(a.drop_last(), lo, hi, from, to);
        let rest = within(a.drop_last(), lo, hi);
        if lo <= a.last().0 <= hi {
            assert(rest.push(a.last()).drop_last() =~= rest);
        }
    }
}

proof fn another_span_stays<V>(
    m: Map<Seq<char>, SeriesView<V>>,
    v: RangeVal<V>,
    win: RangeWindow,
    key: Seq<char>,
    span: RangeWindow,
)
    requires
        win.start <= win.end,
        win.end < span.start || span.end < win.start,
    ensures
        span_of(merged_value(m, v, win), key, span) == span_of(m, key, span),
{
    let (lo, hi) = (win.start as int, win.end as int);
    let (from, to) = (span.start as int, span.end as int);
    match v {
        RangeVal::Vector(part) => {
            let p = series_view(part@);
            if p.dom().contains(key) {
                within_another(p[key].points, lo, hi, from, to);
                if m.dom().contains(key) {
                    within_distributes(m[key].points, within(p[key].points, lo, hi), from, to);
                }
            }
        },
        RangeVal::Scalar(x) => {
            let none = Map::<Seq<char>, Seq<char>>::empty();
            if key == rendered(none) {
                let once = with_point(m, none, (win.start, x));
                let twice = with_point(once, none, (win.end, x));
                assert(twice[key].points.drop_last() =~= once[key].points);
                if m.dom().contains(key) {
                    assert(once[key].points.drop_last() =~= m[key].points);
                } else {
                    assert(once[key].points.drop_last() =~= Seq::<Point<V>>::empty());
                    assert(within(Seq::<Point<V>>::empty(), from, to) =~= Seq::empty());
                }
                assert(within(once[key].points, from, to) == span_of(m, key, span));
            }
        },
    }
}

proof fn no_shard_before<V>(
    parts: Seq<(RangeVal<V>, RangeWindow)>,
    key: Seq<char>,
    span: RangeWindow,
)
    requires
        spans_disjoint(parts),
        forall|i: int|
            0 <= i < parts.len() ==> (#[trigger] parts[i]).1.end < span.start || span.end
                < parts[i].1.start,
    ensures
        span_of(all_merged(parts), key, span) == Seq::<Point<V>>::empty(),
    decreases parts.len(),
{
    if parts.len() > 0 {
        let rest = parts.drop_last();
        assert(forall|i: int| 0 <= i < rest.len() ==> #[trigger] rest[i] == parts[i]);
        assert(parts.last() == parts[parts.len() - 1]);
        no_shard_before(rest, key, span);
        another_span_stays(all_merged(rest), parts.last().0, parts.last().1, key, span);
    }
}

/// Of shards whose spans do not overlap, each alone gives the answer within its span:
/// of every series, the points of the shard that lie there. What a shard scanned
/// before its span is not emitted, and no point is emitted twice.
pub proof fn shards_emit_their_own_span<V>(
    parts: Seq<(RangeVal<V>, RangeWindow)>,
    i: int,
    key: Seq<char>,
)
    requires
        spans_disjoint(parts),
        0 <= i < parts.len(),
        parts[i].0 is Vector,
    ensures
        span_of(all_merged(parts), key, parts[i].1) == span_of(
            series_view(parts[i].0->Vector_0@),
            key,
            parts[i].1,
        ),
    decreases parts.len(),
{
    let rest = parts.drop_last();
    let last = parts.last();
    let span = parts[i].1;
    assert(forall|k: int| 0 <= k < rest.len() ==> #[trigger] rest[k] == parts[k]);
    assert(last == parts[parts.len() - 1]);
    if i < rest.len() {
        assert(rest[i] == parts[i]);
        shards_emit_their_own_span(rest, i, key);
        another_span_stays(all_merged(rest), last.0, last.1, key, span);
    } else {
        no_shard_before(rest, key, span);
        let m = all_merged(rest);
        let p = series_view(last.0->Vector_0@);
        let (lo, hi) = (span.start as int, span.end as int);
        if p.dom().contains(key) {
            within_itself(p[key].points, lo, hi);
            if m.dom().contains(key) {
                within_distributes(m[key].points, within(p[key].points, lo, hi), lo, hi);
                assert(Seq::<Point<V>>::empty() + within(p[key].points, lo, hi) =~= within(
                    p[key].points,
                    lo,
                    hi,
                ));
            }
        }
    }
}

/// Whether each series is the timeline of the merged one.
pub open spec fn timelines<V>(s: Seq<SeriesView<V>>, out: Seq<SeriesView<V>>) -> bool {
    out.len() == s.len() && forall|i: int|
        0 <= i < s.len() ==> (#[trigger] out[i]).labels == s[i].labels && is_timeline(
            s[i].points,
            out[i].points,
        )
}

/// Series carried onto the grid, where there is one.
pub open spec fn on_grid<V>(
    s: Seq<SeriesView<V>>,
    start: int,
    end: int,
    step: int,
) -> Seq<SeriesView<V>> {
    crate::aggregate::aligned_list(s, start, end, step)
}

/// Whether `out` is the answer of a range query whose shards were merged into `s`: the
/// timelines of the series; of these the highest or lowest; carried onto the grid.
pub open spec fn range_answer<V: Number>(
    s: Seq<SeriesView<V>>,
    topk: Option<(int, bool)>,
    start: int,
    end: int,
    step: int,
    out: Seq<SeriesView<V>>,
) -> bool {
    exists|lines: Seq<SeriesView<V>>, kept: Seq<SeriesView<V>>| #[trigger]
        timelines(s, lines) && #[trigger] kept_series(topk, lines, kept) && out == on_grid(
            kept,
            start,
            end,
            step,
        )
}

/// Whether `out` holds the series that are kept.
pub open spec fn kept_series<V: Number>(
    topk: Option<(int, bool)>,
    s: Seq<SeriesView<V>>,
    out: Seq<SeriesView<V>>,
) -> bool {
    match topk {
        None => out == s,
        Some(k) => top_series(Score::Peak, k.0, k.1, s, out),
    }
}

fn order_series<V: Number>(m: &RangeSeries<V>) -> (out: Vec<Series<V>>)
    ensures
        timelines(series_list(m.listing()), list_view(out@)),
{
    let n: usize = m.len();
    let ghost s = series_list(m.listing());
    let mut out: Vec<Series<V>> = Vec::new();
    let mut i: usize = 0;
    while i < n
        invariant
            n == m.listing().len(),
            s == series_list(m.listing()),
            i <= n,
            out@.len() == i,
            forall|j: int|
                0 <= j < i ==> (#[trigger] out@[j]).labels@ == s[j].labels && is_timeline(
                    s[j].points,
                    out@[j].points@,
                ),
        decreases n - i,
    {
        let (_, item) = m.at(i);
        assert(s[i as int] == item@);
        out.push(Series { labels: item.labels.copy(), points: timeline(&item.points) });
        i = i + 1;
    }
    proof {
        let o = list_view(out@);
        assert forall|j: int| 0 <= j < s.len() implies (#[trigger] o[j]).labels == s[j].labels
            && is_timeline(s[j].points, o[j].points) by {
            assert(out@[j].labels@ == s[j].labels);
        }
    }
    out
}

fn resample_series<V: Copy>(s: Vec<Series<V>>, start_ns: i64, end_ns: i64, step_ns: i64) -> (out: Vec<
    Series<V>,
>)
    ensures
        list_view(out@) == on_grid(
            list_view(s@),
            start_ns as int,
            end_ns as int,
            step_ns as int,
        ),
{
    if !has_grid(start_ns, end_ns, step_ns) {
        assert(list_view(s@) =~= on_grid(
            list_view(s@),
            start_ns as int,
            end_ns as int,
            step_ns as int,
        ));
        return s;
    }
    let staleness = staleness_for(step_ns);
    let ghost want = on_grid(list_view(s@), start_ns as int, end_ns as int, step_ns as int);
    let mut out: Vec<Series<V>> = Vec::new();
    let mut i: usize = 0;
    while i < s.len()
        invariant
            want == on_grid(list_view(s@), start_ns as int, end_ns as int, step_ns as int),
            fits_grid(start_ns as int, end_ns as int, step_ns as int),
            staleness == grid_staleness(step_ns as int),
            i <= s@.len(),
            list_view(out@) =~= want.take(i as int),
        decreases s.len() - i,
    {
        let points = resample_to_grid(&s[i].points, start_ns, end_ns, step_ns, staleness);
        let x = Series { labels: s[i].labels.copy(), points };
        let ghost before = out@;
        let ghost v = x@;
        assert(v == want[i as int]);
        out.push(x);
        assert(list_view(out@) =~= list_view(before).push(v));
        i = i + 1;
    }
    assert(want.take(s@.len() as int) =~= want);
    out
}

/// The answer of a range query whose shards were merged: each series in the order of
/// time, without the overlaps at shard boundaries; the N highest or lowest series;
/// and one point per bucket of the step.
pub fn finish_range<V: Number>(
    m: &RangeSeries<V>,
    topk: Option<(i64, bool)>,
    start_ns: i64,
    end_ns: i64,
    step_ns: i64,
) -> (out: Vec<Series<V>>)
    ensures
        range_answer(
            series_list(m.listing()),
            match topk {
                Some(k) => Some((k.0 as int, k.1)),
                None => None,
            },
            start_ns as int,
            end_ns as int,
            step_ns as int,
            list_view(out@),
        ),
{
    let lines = order_series(m);
    let ghost l = list_view(lines@);
    let ghost k = match topk {
        Some(k) => Some((k.0 as int, k.1)),
        None => None,
    };
    let kept = match topk {
        None => lines,
        Some(k) => keep_top(lines, k.0, k.1, Score::Peak),
    };
    assert(kept_series(k, l, list_view(kept@)));
    resample_series(kept, start_ns, end_ns, step_ns)
}

/// What a column of a result is for the labels of its rows.
#[derive(Debug)]
pub enum ColumnRole {
    /// The attributes, each of which is a label.
    Attributes,
    /// Not a label.
    Skipped,
    /// The label of this name.
    Label(String),
}

/// Whether a column is no label: values, times, ranks and raw names.
pub open spec fn is_skipped(n: Seq<char>) -> bool {
    n == "v"@ || n == "time_unix_nano"@ || n == "rn"@ || n == "name"@
}

/// What a column is for the labels of its rows: the normalized name becomes
/// `__name__`, any other promoted column the label of its own name.
pub fn column_role(n: &str) -> (r: ColumnRole)
    ensures
        r is Attributes <==> n@ == "attributes"@,
        r is Skipped <==> n@ != "attributes"@ && is_skipped(n@),
        r matches ColumnRole::Label(l) ==> l@ == if n@ == "prom_name"@ {
            "__name__"@
        } else {
            n@
        },
{
    if str_eq(n, "attributes") {
        ColumnRole::Attributes
    } else if str_eq(n, "v") || str_eq(n, "time_unix_nano") || str_eq(n, "rn") || str_eq(n, "name") {
        ColumnRole::Skipped
    } else if str_eq(n, "prom_name") {
        ColumnRole::Label(owned("__name__"))
    } else {
        ColumnRole::Label(owned(n))
    }
}

} // verus!
